use rrd_core::cell::{
    ArrayData, Component, ComponentName, DataCell, DataCellError, DataType, InstanceKey,
    TypedArray,
};

fn name(s: &str) -> ComponentName {
    ComponentName(String::from(s))
}

fn dense_cell(data: ArrayData) -> DataCell {
    DataCell::from_arrow(name("test_component"), TypedArray { data, validity: None })
}

#[test]
fn cell_shape_matches_input_length() {
    let keys = vec![InstanceKey(9), InstanceKey(3), InstanceKey(7)];
    let cell = DataCell::from_native(&keys);
    assert_eq!(cell.num_instances(), 3);
    assert!(!cell.is_empty());
    assert_eq!(cell.datatype(), DataType::UInt64);
    assert_eq!(cell.component_name(), InstanceKey::name());

    let empty: Vec<InstanceKey> = vec![];
    let cell = DataCell::from_native(&empty);
    assert_eq!(cell.num_instances(), 0);
    assert!(cell.is_empty());
}

#[test]
fn empty_cell_builders() {
    let cell = DataCell::from_arrow_empty(name("points"), DataType::Float32);
    assert_eq!(cell.num_instances(), 0);
    assert!(cell.is_empty());
    assert!(cell.is_dense());
    assert_eq!(cell.datatype(), DataType::Float32);

    let cell = DataCell::from_native_empty::<InstanceKey>();
    assert_eq!(cell.num_instances(), 0);
    assert_eq!(cell.datatype(), DataType::UInt64);
    assert_eq!(cell.component_name(), InstanceKey::name());

    let cell = DataCell::try_from_arrow_empty(name("other"), DataType::Other).unwrap();
    assert_eq!(cell.num_instances(), 0);
}

#[test]
fn sparse_build_density() {
    let sparse = vec![Some(InstanceKey(1)), None, Some(InstanceKey(3))];
    let cell = DataCell::from_native_sparse(&sparse);
    assert_eq!(cell.num_instances(), 3);
    assert!(!cell.is_dense());

    let full = vec![Some(InstanceKey(1)), Some(InstanceKey(2))];
    let cell = DataCell::from_native_sparse(&full);
    assert!(cell.is_dense());

    let dense = DataCell::from_native(&vec![InstanceKey(1), InstanceKey(2)]);
    assert!(dense.is_dense());
}

#[test]
fn sortedness_integer_kinds() {
    assert_eq!(
        dense_cell(ArrayData::Int8(vec![1, 2, 3])).is_sorted_and_unique(),
        Ok(true)
    );
    assert_eq!(
        dense_cell(ArrayData::Int8(vec![1, 1, 2])).is_sorted_and_unique(),
        Ok(false)
    );
    assert_eq!(
        dense_cell(ArrayData::Int8(vec![3, 2, 1])).is_sorted_and_unique(),
        Ok(false)
    );
    assert_eq!(
        dense_cell(ArrayData::Int8(vec![])).is_sorted_and_unique(),
        Ok(true)
    );
    assert_eq!(
        dense_cell(ArrayData::Int16(vec![-300, 0, 300])).is_sorted_and_unique(),
        Ok(true)
    );
    assert_eq!(
        dense_cell(ArrayData::Int32(vec![5])).is_sorted_and_unique(),
        Ok(true)
    );
    assert_eq!(
        dense_cell(ArrayData::Int64(vec![i64::MIN, 0, i64::MAX])).is_sorted_and_unique(),
        Ok(true)
    );
    assert_eq!(
        dense_cell(ArrayData::UInt8(vec![1, 2, 3])).is_sorted_and_unique(),
        Ok(true)
    );
    assert_eq!(
        dense_cell(ArrayData::UInt16(vec![2, 2])).is_sorted_and_unique(),
        Ok(false)
    );
    assert_eq!(
        dense_cell(ArrayData::UInt32(vec![0, u32::MAX])).is_sorted_and_unique(),
        Ok(true)
    );
    assert_eq!(
        dense_cell(ArrayData::UInt64(vec![8, 4])).is_sorted_and_unique(),
        Ok(false)
    );
}

#[test]
fn sortedness_float_kinds() {
    let f32_cell = |vals: &[f32]| {
        dense_cell(ArrayData::Float32(
            vals.iter().map(|v| v.to_bits()).collect(),
        ))
    };
    let f64_cell = |vals: &[f64]| {
        dense_cell(ArrayData::Float64(
            vals.iter().map(|v| v.to_bits()).collect(),
        ))
    };

    assert_eq!(f32_cell(&[1.0, 2.0, 3.0]).is_sorted_and_unique(), Ok(true));
    assert_eq!(f32_cell(&[1.0, 1.0, 2.0]).is_sorted_and_unique(), Ok(false));
    assert_eq!(f32_cell(&[3.0, 2.0, 1.0]).is_sorted_and_unique(), Ok(false));
    assert_eq!(f32_cell(&[]).is_sorted_and_unique(), Ok(true));
    assert_eq!(
        f32_cell(&[f32::NEG_INFINITY, -1.5, -0.0, 0.25, f32::INFINITY]).is_sorted_and_unique(),
        Ok(true)
    );
    // -0.0 is not strictly below +0.0.
    assert_eq!(f32_cell(&[-0.0, 0.0]).is_sorted_and_unique(), Ok(false));
    // NaN is ordered below nothing.
    assert_eq!(f32_cell(&[1.0, f32::NAN]).is_sorted_and_unique(), Ok(false));
    assert_eq!(f32_cell(&[f32::NAN, 1.0]).is_sorted_and_unique(), Ok(false));

    assert_eq!(f64_cell(&[-2.5, 0.0, 7.125]).is_sorted_and_unique(), Ok(true));
    assert_eq!(f64_cell(&[7.125, 0.0]).is_sorted_and_unique(), Ok(false));
    assert_eq!(f64_cell(&[f64::NAN]).is_sorted_and_unique(), Ok(true));
    assert_eq!(f64_cell(&[0.0, f64::NAN]).is_sorted_and_unique(), Ok(false));
}

#[test]
fn float_order_agrees_with_native_comparison() {
    let samples: Vec<f32> = vec![
        f32::NEG_INFINITY,
        -3.5,
        -0.0,
        0.0,
        1.0e-12,
        2.75,
        f32::INFINITY,
        f32::NAN,
    ];
    for &a in &samples {
        for &b in &samples {
            let cell = dense_cell(ArrayData::Float32(vec![a.to_bits(), b.to_bits()]));
            assert_eq!(
                cell.is_sorted_and_unique(),
                Ok(a < b),
                "disagreement on {a:?} < {b:?}"
            );
        }
    }
}

#[test]
fn sortedness_unsupported_kind() {
    let cell = dense_cell(ArrayData::Other(vec![vec![1], vec![2]]));
    assert_eq!(
        cell.is_sorted_and_unique(),
        Err(DataCellError::UnsupportedDatatype(DataType::Other))
    );
}

#[test]
fn cloning_shares_and_stays_equal() {
    let cell = DataCell::from_native(&vec![InstanceKey(1), InstanceKey(2)]);
    let clone = cell.clone();
    assert_eq!(cell, clone);
    assert_eq!(cell.datatype(), clone.datatype());
    assert_eq!(cell.num_instances(), clone.num_instances());
    assert_eq!(cell.component_name(), clone.component_name());
}

#[test]
fn equality_is_by_name_kind_and_contents() {
    let a = DataCell::from_native(&vec![InstanceKey(1), InstanceKey(2)]);
    let b = DataCell::from_native(&vec![InstanceKey(1), InstanceKey(2)]);
    let c = DataCell::from_native(&vec![InstanceKey(1), InstanceKey(3)]);
    assert_eq!(a, b);
    assert_ne!(a, c);

    let named = DataCell::from_arrow(
        name("alpha"),
        TypedArray { data: ArrayData::UInt64(vec![1]), validity: None },
    );
    let renamed = DataCell::from_arrow(
        name("beta"),
        TypedArray { data: ArrayData::UInt64(vec![1]), validity: None },
    );
    assert_ne!(named, renamed);

    let narrow = dense_cell(ArrayData::Int8(vec![1]));
    let wide = dense_cell(ArrayData::Int16(vec![1]));
    assert_ne!(narrow, wide);
}

#[test]
fn equality_ignores_backing_of_null_slots() {
    let a = DataCell::from_arrow(
        name("sparse"),
        TypedArray {
            data: ArrayData::UInt64(vec![1, 99]),
            validity: Some(vec![true, false]),
        },
    );
    let b = DataCell::from_arrow(
        name("sparse"),
        TypedArray {
            data: ArrayData::UInt64(vec![1, 7]),
            validity: Some(vec![true, false]),
        },
    );
    assert_eq!(a, b);

    let c = DataCell::from_arrow(
        name("sparse"),
        TypedArray {
            data: ArrayData::UInt64(vec![1, 7]),
            validity: Some(vec![true, true]),
        },
    );
    assert_ne!(a, c);
}

#[test]
fn native_round_trip() {
    let keys = vec![InstanceKey(5), InstanceKey(0), InstanceKey(u64::MAX)];
    let cell = DataCell::from_native(&keys);
    let back: Vec<InstanceKey> = cell.as_native();
    assert_eq!(keys, back);
    let back: Vec<InstanceKey> = cell.try_as_native().unwrap();
    assert_eq!(keys, back);
}

#[test]
fn as_native_rejects_mismatch_and_sparse() {
    let wrong = dense_cell(ArrayData::Int8(vec![1]));
    assert_eq!(
        wrong.try_as_native::<InstanceKey>(),
        Err(DataCellError::DatatypeMismatch {
            expected: DataType::UInt64,
            found: DataType::Int8,
        })
    );

    let sparse = DataCell::from_native_sparse(&vec![Some(InstanceKey(1)), None]);
    assert_eq!(
        sparse.try_as_native::<InstanceKey>(),
        Err(DataCellError::Sparse)
    );
}

#[test]
fn from_component_builders() {
    let cell = DataCell::from_component::<InstanceKey>(vec![InstanceKey(4), InstanceKey(9)]);
    assert_eq!(cell.num_instances(), 2);
    assert_eq!(cell, DataCell::from_native(&vec![InstanceKey(4), InstanceKey(9)]));

    let cell = DataCell::from_component_sparse::<InstanceKey>(vec![None, Some(InstanceKey(9))]);
    assert_eq!(cell.num_instances(), 2);
    assert!(!cell.is_dense());
}

#[test]
fn try_builders_never_fail() {
    assert!(DataCell::try_from_native(&vec![InstanceKey(1)]).is_ok());
    assert!(DataCell::try_from_native_sparse(&vec![Some(InstanceKey(1)), None]).is_ok());
    assert!(DataCell::try_from_arrow(
        name("x"),
        TypedArray { data: ArrayData::Int32(vec![1, 2]), validity: None },
    )
    .is_ok());
}

#[test]
fn monolist_wraps_whole_cell_as_one_row() {
    let cell = DataCell::from_native(&vec![InstanceKey(1), InstanceKey(2), InstanceKey(3)]);
    let list = cell.as_arrow_monolist();
    assert_eq!(list.num_rows(), 1);
    assert_eq!(list.offsets, vec![0, 3]);
    assert_eq!(list.values.data, ArrayData::UInt64(vec![1, 2, 3]));
}

#[test]
fn arrow_accessors_are_shallow() {
    let arr = TypedArray {
        data: ArrayData::Int32(vec![4, 5]),
        validity: None,
    };
    let cell = DataCell::from_arrow(name("xs"), arr.clone());
    assert_eq!(*cell.as_arrow(), arr);
    assert_eq!(*cell.as_arrow_ref(), arr);
}

#[test]
fn instance_key_component() {
    assert_eq!(InstanceKey::name(), ComponentName(String::from("instance_key")));
    assert_eq!(InstanceKey::datatype(), DataType::UInt64);
}
