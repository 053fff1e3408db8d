//! The columnar component cell: an immutable, type-erased, shareable array
//! holding one component's worth of homogeneous instances.
//!
//! Type erasure is a closed, tagged variant over the supported element
//! kinds: the 8/16/32/64-bit signed and unsigned integers, 32/64-bit
//! floating-point values (held as their IEEE 754 bit patterns, so that the
//! verified logic stays in integer arithmetic), and an `Other` catch-all of
//! opaque per-element byte blobs for unsupported kinds.
//!
//! A cell's backing array is behind an atomically reference-counted handle:
//! cloning a cell is O(1) and shares the storage; no API mutates a cell
//! after construction.

use std::sync::Arc;
use vstd::prelude::*;

verus! {

/// The element kind of a cell's backing array.
#[derive(Clone, Copy, Debug, PartialEq, Eq, Hash, Structural)]
pub enum DataType {
    Int8,
    Int16,
    Int32,
    Int64,
    UInt8,
    UInt16,
    UInt32,
    UInt64,
    Float32,
    Float64,
    /// Catch-all for element kinds outside the supported set.
    Other,
}

/// Mathematical model of one array element: integers as unbounded
/// integers, floating-point values as their bit patterns, opaque elements
/// as byte sequences.
pub enum Scalar {
    Int(int),
    F32(u32),
    F64(u64),
    Blob(Seq<u8>),
}

/// One array element at runtime. `Int` holds every supported integer kind
/// exactly; float kinds carry their IEEE 754 bit patterns.
#[derive(Debug, Clone, PartialEq)]
pub enum Value {
    Int(i128),
    F32(u32),
    F64(u64),
    Blob(Vec<u8>),
}

impl View for Value {
    type V = Scalar;

    open spec fn view(&self) -> Scalar {
        match self {
            Value::Int(x) => Scalar::Int(*x as int),
            Value::F32(b) => Scalar::F32(*b),
            Value::F64(b) => Scalar::F64(*b),
            Value::Blob(b) => Scalar::Blob(b@),
        }
    }
}

/// Whether a scalar is a value of the given element kind.
pub open spec fn scalar_fits(s: Scalar, k: DataType) -> bool {
    match (s, k) {
        (Scalar::Int(x), DataType::Int8) => -0x80 <= x < 0x80,
        (Scalar::Int(x), DataType::Int16) => -0x8000 <= x < 0x8000,
        (Scalar::Int(x), DataType::Int32) => -0x8000_0000 <= x < 0x8000_0000,
        (Scalar::Int(x), DataType::Int64) => -0x8000_0000_0000_0000 <= x < 0x8000_0000_0000_0000,
        (Scalar::Int(x), DataType::UInt8) => 0 <= x < 0x100,
        (Scalar::Int(x), DataType::UInt16) => 0 <= x < 0x1_0000,
        (Scalar::Int(x), DataType::UInt32) => 0 <= x < 0x1_0000_0000,
        (Scalar::Int(x), DataType::UInt64) => 0 <= x < 0x1_0000_0000_0000_0000,
        (Scalar::F32(_), DataType::Float32) => true,
        (Scalar::F64(_), DataType::Float64) => true,
        (Scalar::Blob(_), DataType::Other) => true,
        _ => false,
    }
}

// ------------------------------------------------------------------
// Strict IEEE 754 `<` over bit patterns.
//
// A float's order is the order of its sign-magnitude key: negative
// values in descending magnitude, then positive values in ascending
// magnitude. `-0.0` and `+0.0` share the key `0`, so neither is less
// than the other, and a NaN (all-ones exponent, non-zero fraction)
// compares less than nothing — exactly the partial order `<` of IEEE
// 754 floats.
// ------------------------------------------------------------------
pub open spec fn f32_is_nan_bits(x: u32) -> bool {
    (x >> 23) & 0xFF == 0xFF && x & 0x7F_FFFF != 0
}

pub open spec fn f32_key(x: u32) -> int {
    if x >> 31 == 1 {
        -((x & 0x7FFF_FFFF) as int)
    } else {
        (x & 0x7FFF_FFFF) as int
    }
}

pub open spec fn f32_bits_lt(a: u32, b: u32) -> bool {
    !f32_is_nan_bits(a) && !f32_is_nan_bits(b) && f32_key(a) < f32_key(b)
}

pub open spec fn f64_is_nan_bits(x: u64) -> bool {
    (x >> 52) & 0x7FF == 0x7FF && x & 0xF_FFFF_FFFF_FFFF != 0
}

pub open spec fn f64_key(x: u64) -> int {
    if x >> 63 == 1 {
        -((x & 0x7FFF_FFFF_FFFF_FFFF) as int)
    } else {
        (x & 0x7FFF_FFFF_FFFF_FFFF) as int
    }
}

pub open spec fn f64_bits_lt(a: u64, b: u64) -> bool {
    !f64_is_nan_bits(a) && !f64_is_nan_bits(b) && f64_key(a) < f64_key(b)
}

pub fn f32_lt(a: u32, b: u32) -> (r: bool)
    ensures
        r == f32_bits_lt(a, b),
{
    let a_nan = (a >> 23) & 0xFF == 0xFF && a & 0x7F_FFFF != 0;
    let b_nan = (b >> 23) & 0xFF == 0xFF && b & 0x7F_FFFF != 0;
    if a_nan || b_nan {
        return false;
    }
    let sa = a >> 31;
    let sb = b >> 31;
    let ma = a & 0x7FFF_FFFF;
    let mb = b & 0x7FFF_FFFF;
    proof {
        assert(a >> 31 == 0 || a >> 31 == 1) by (bit_vector);
        assert(b >> 31 == 0 || b >> 31 == 1) by (bit_vector);
    }
    if sa == 1 && sb == 1 {
        mb < ma
    } else if sa == 1 && sb == 0 {
        ma > 0 || mb > 0
    } else if sa == 0 && sb == 1 {
        false
    } else {
        ma < mb
    }
}

pub fn f64_lt(a: u64, b: u64) -> (r: bool)
    ensures
        r == f64_bits_lt(a, b),
{
    let a_nan = (a >> 52) & 0x7FF == 0x7FF && a & 0xF_FFFF_FFFF_FFFF != 0;
    let b_nan = (b >> 52) & 0x7FF == 0x7FF && b & 0xF_FFFF_FFFF_FFFF != 0;
    if a_nan || b_nan {
        return false;
    }
    let sa = a >> 63;
    let sb = b >> 63;
    let ma = a & 0x7FFF_FFFF_FFFF_FFFF;
    let mb = b & 0x7FFF_FFFF_FFFF_FFFF;
    proof {
        assert(a >> 63 == 0 || a >> 63 == 1) by (bit_vector);
        assert(b >> 63 == 0 || b >> 63 == 1) by (bit_vector);
    }
    if sa == 1 && sb == 1 {
        mb < ma
    } else if sa == 1 && sb == 0 {
        ma > 0 || mb > 0
    } else if sa == 0 && sb == 1 {
        false
    } else {
        ma < mb
    }
}

/// Strict order on scalars: integers by value, floats by IEEE `<` over
/// their bits; scalars of different shapes, blobs, and NaNs are ordered
/// below nothing.
pub open spec fn scalar_lt(a: Scalar, b: Scalar) -> bool {
    match (a, b) {
        (Scalar::Int(x), Scalar::Int(y)) => x < y,
        (Scalar::F32(x), Scalar::F32(y)) => f32_bits_lt(x, y),
        (Scalar::F64(x), Scalar::F64(y)) => f64_bits_lt(x, y),
        _ => false,
    }
}

pub fn value_lt(a: &Value, b: &Value) -> (r: bool)
    ensures
        r == scalar_lt(a@, b@),
{
    match (a, b) {
        (Value::Int(x), Value::Int(y)) => *x < *y,
        (Value::F32(x), Value::F32(y)) => f32_lt(*x, *y),
        (Value::F64(x), Value::F64(y)) => f64_lt(*x, *y),
        _ => false,
    }
}

pub fn value_eq(a: &Value, b: &Value) -> (r: bool)
    ensures
        r == (a@ == b@),
{
    match (a, b) {
        (Value::Int(x), Value::Int(y)) => *x == *y,
        (Value::F32(x), Value::F32(y)) => *x == *y,
        (Value::F64(x), Value::F64(y)) => *x == *y,
        (Value::Blob(x), Value::Blob(y)) => bytes_eq(x, y),
        _ => {
            proof {
                assert(a@ != b@);
            }
            false
        },
    }
}

fn bytes_eq(x: &Vec<u8>, y: &Vec<u8>) -> (r: bool)
    ensures
        r == (x@ == y@),
{
    if x.len() != y.len() {
        return false;
    }
    let mut i: usize = 0;
    while i < x.len()
        invariant
            i <= x@.len(),
            x@.len() == y@.len(),
            forall|j: int| 0 <= j < i ==> x@[j] == y@[j],
        decreases x@.len() - i,
    {
        if x[i] != y[i] {
            return false;
        }
        i += 1;
    }
    proof {
        assert(x@ =~= y@);
    }
    true
}

// ------------------------------------------------------------------
// The type-erased array.
// ------------------------------------------------------------------
/// A homogeneous array of one element kind. Floating-point elements are
/// held as IEEE 754 bit patterns; `Other` holds one opaque byte blob per
/// element.
#[derive(Debug, Clone, PartialEq)]
pub enum ArrayData {
    Int8(Vec<i8>),
    Int16(Vec<i16>),
    Int32(Vec<i32>),
    Int64(Vec<i64>),
    UInt8(Vec<u8>),
    UInt16(Vec<u16>),
    UInt32(Vec<u32>),
    UInt64(Vec<u64>),
    Float32(Vec<u32>),
    Float64(Vec<u64>),
    Other(Vec<Vec<u8>>),
}

impl ArrayData {
    pub open spec fn kind(&self) -> DataType {
        match self {
            ArrayData::Int8(_) => DataType::Int8,
            ArrayData::Int16(_) => DataType::Int16,
            ArrayData::Int32(_) => DataType::Int32,
            ArrayData::Int64(_) => DataType::Int64,
            ArrayData::UInt8(_) => DataType::UInt8,
            ArrayData::UInt16(_) => DataType::UInt16,
            ArrayData::UInt32(_) => DataType::UInt32,
            ArrayData::UInt64(_) => DataType::UInt64,
            ArrayData::Float32(_) => DataType::Float32,
            ArrayData::Float64(_) => DataType::Float64,
            ArrayData::Other(_) => DataType::Other,
        }
    }

    /// The array's elements as scalars.
    pub open spec fn model(&self) -> Seq<Scalar> {
        match self {
            ArrayData::Int8(v) => v@.map(|i: int, x: i8| Scalar::Int(x as int)),
            ArrayData::Int16(v) => v@.map(|i: int, x: i16| Scalar::Int(x as int)),
            ArrayData::Int32(v) => v@.map(|i: int, x: i32| Scalar::Int(x as int)),
            ArrayData::Int64(v) => v@.map(|i: int, x: i64| Scalar::Int(x as int)),
            ArrayData::UInt8(v) => v@.map(|i: int, x: u8| Scalar::Int(x as int)),
            ArrayData::UInt16(v) => v@.map(|i: int, x: u16| Scalar::Int(x as int)),
            ArrayData::UInt32(v) => v@.map(|i: int, x: u32| Scalar::Int(x as int)),
            ArrayData::UInt64(v) => v@.map(|i: int, x: u64| Scalar::Int(x as int)),
            ArrayData::Float32(v) => v@.map(|i: int, x: u32| Scalar::F32(x)),
            ArrayData::Float64(v) => v@.map(|i: int, x: u64| Scalar::F64(x)),
            ArrayData::Other(v) => v@.map(|i: int, x: Vec<u8>| Scalar::Blob(x@)),
        }
    }

    pub open spec fn spec_len(&self) -> nat {
        self.model().len()
    }

    pub fn len(&self) -> (r: usize)
        ensures
            r as nat == self.spec_len(),
    {
        match self {
            ArrayData::Int8(v) => v.len(),
            ArrayData::Int16(v) => v.len(),
            ArrayData::Int32(v) => v.len(),
            ArrayData::Int64(v) => v.len(),
            ArrayData::UInt8(v) => v.len(),
            ArrayData::UInt16(v) => v.len(),
            ArrayData::UInt32(v) => v.len(),
            ArrayData::UInt64(v) => v.len(),
            ArrayData::Float32(v) => v.len(),
            ArrayData::Float64(v) => v.len(),
            ArrayData::Other(v) => v.len(),
        }
    }

    pub fn datatype(&self) -> (r: DataType)
        ensures
            r == self.kind(),
    {
        match self {
            ArrayData::Int8(_) => DataType::Int8,
            ArrayData::Int16(_) => DataType::Int16,
            ArrayData::Int32(_) => DataType::Int32,
            ArrayData::Int64(_) => DataType::Int64,
            ArrayData::UInt8(_) => DataType::UInt8,
            ArrayData::UInt16(_) => DataType::UInt16,
            ArrayData::UInt32(_) => DataType::UInt32,
            ArrayData::UInt64(_) => DataType::UInt64,
            ArrayData::Float32(_) => DataType::Float32,
            ArrayData::Float64(_) => DataType::Float64,
            ArrayData::Other(_) => DataType::Other,
        }
    }

    /// An empty array of the given kind.
    pub fn new_empty(k: DataType) -> (r: ArrayData)
        ensures
            r.kind() == k,
            r.spec_len() == 0,
    {
        let r = match k {
            DataType::Int8 => ArrayData::Int8(Vec::new()),
            DataType::Int16 => ArrayData::Int16(Vec::new()),
            DataType::Int32 => ArrayData::Int32(Vec::new()),
            DataType::Int64 => ArrayData::Int64(Vec::new()),
            DataType::UInt8 => ArrayData::UInt8(Vec::new()),
            DataType::UInt16 => ArrayData::UInt16(Vec::new()),
            DataType::UInt32 => ArrayData::UInt32(Vec::new()),
            DataType::UInt64 => ArrayData::UInt64(Vec::new()),
            DataType::Float32 => ArrayData::Float32(Vec::new()),
            DataType::Float64 => ArrayData::Float64(Vec::new()),
            DataType::Other => ArrayData::Other(Vec::new()),
        };
        proof {
            assert(r.model() =~= Seq::<Scalar>::empty());
        }
        r
    }

    /// Appends one element, which must be a value of the array's kind.
    pub fn push_value(&mut self, v: &Value)
        requires
            scalar_fits(v@, old(self).kind()),
        ensures
            final(self).kind() == old(self).kind(),
            final(self).model() == old(self).model().push(v@),
    {
        match self {
            ArrayData::Int8(vec) => {
                if let Value::Int(x) = v {
                    vec.push(*x as i8);
                }
            },
            ArrayData::Int16(vec) => {
                if let Value::Int(x) = v {
                    vec.push(*x as i16);
                }
            },
            ArrayData::Int32(vec) => {
                if let Value::Int(x) = v {
                    vec.push(*x as i32);
                }
            },
            ArrayData::Int64(vec) => {
                if let Value::Int(x) = v {
                    vec.push(*x as i64);
                }
            },
            ArrayData::UInt8(vec) => {
                if let Value::Int(x) = v {
                    vec.push(*x as u8);
                }
            },
            ArrayData::UInt16(vec) => {
                if let Value::Int(x) = v {
                    vec.push(*x as u16);
                }
            },
            ArrayData::UInt32(vec) => {
                if let Value::Int(x) = v {
                    vec.push(*x as u32);
                }
            },
            ArrayData::UInt64(vec) => {
                if let Value::Int(x) = v {
                    vec.push(*x as u64);
                }
            },
            ArrayData::Float32(vec) => {
                if let Value::F32(x) = v {
                    vec.push(*x);
                }
            },
            ArrayData::Float64(vec) => {
                if let Value::F64(x) = v {
                    vec.push(*x);
                }
            },
            ArrayData::Other(vec) => {
                if let Value::Blob(x) = v {
                    vec.push(x.clone());
                }
            },
        }
        proof {
            assert(final(self).model() =~= old(self).model().push(v@));
        }
    }

    /// Reads one element.
    pub fn slot_value(&self, i: usize) -> (v: Value)
        requires
            i < self.spec_len(),
        ensures
            v@ == self.model()[i as int],
            scalar_fits(v@, self.kind()),
    {
        match self {
            ArrayData::Int8(vec) => Value::Int(vec[i] as i128),
            ArrayData::Int16(vec) => Value::Int(vec[i] as i128),
            ArrayData::Int32(vec) => Value::Int(vec[i] as i128),
            ArrayData::Int64(vec) => Value::Int(vec[i] as i128),
            ArrayData::UInt8(vec) => Value::Int(vec[i] as i128),
            ArrayData::UInt16(vec) => Value::Int(vec[i] as i128),
            ArrayData::UInt32(vec) => Value::Int(vec[i] as i128),
            ArrayData::UInt64(vec) => Value::Int(vec[i] as i128),
            ArrayData::Float32(vec) => Value::F32(vec[i]),
            ArrayData::Float64(vec) => Value::F64(vec[i]),
            ArrayData::Other(vec) => Value::Blob(vec[i].clone()),
        }
    }
}


// ------------------------------------------------------------------
// A typed array with optional validity: the backing store of a cell.
// ------------------------------------------------------------------
/// A type-erased array plus an optional validity mask; a `false` mask
/// entry marks an absent (null) element.
#[derive(Debug, Clone, PartialEq)]
pub struct TypedArray {
    pub data: ArrayData,
    /// `None` means every element is present.
    pub validity: Option<Vec<bool>>,
}

/// Whether every slot of a cell's contents is present.
pub open spec fn dense_contents(c: Seq<Option<Scalar>>) -> bool {
    forall|i: int| 0 <= i < c.len() ==> (#[trigger] c[i]) is Some
}

impl TypedArray {
    /// A validity mask, if present, has one entry per element; the length
    /// must fit the 32-bit instance count of the cell API.
    pub open spec fn wf(&self) -> bool {
        &&& (self.validity matches Some(v) ==> v@.len() == self.data.spec_len())
        &&& self.data.spec_len() <= u32::MAX
    }

    pub open spec fn kind(&self) -> DataType {
        self.data.kind()
    }

    pub open spec fn spec_len(&self) -> nat {
        self.data.spec_len()
    }

    pub open spec fn valid(&self, i: int) -> bool {
        match self.validity {
            Some(v) => v@[i],
            None => true,
        }
    }

    /// The logical contents: one `Option<Scalar>` per slot, `None` where
    /// the element is absent.
    pub open spec fn contents(&self) -> Seq<Option<Scalar>> {
        Seq::new(
            self.data.spec_len(),
            |i: int|
                if self.valid(i) {
                    Some(self.data.model()[i])
                } else {
                    None
                },
        )
    }

    /// A dense array: every element present.
    pub fn dense(data: ArrayData) -> (r: TypedArray)
        requires
            data.spec_len() <= u32::MAX,
        ensures
            r.wf(),
            r.kind() == data.kind(),
            r.contents() == data.model().map(|i: int, s: Scalar| Some(s)),
    {
        let r = TypedArray { data, validity: None };
        proof {
            assert(r.contents() =~= r.data.model().map(|i: int, s: Scalar| Some(s)));
        }
        r
    }

    pub fn len(&self) -> (r: usize)
        ensures
            r as nat == self.spec_len(),
    {
        self.data.len()
    }
}

fn valid_at(a: &TypedArray, i: usize) -> (r: bool)
    requires
        a.wf(),
        i < a.spec_len(),
    ensures
        r == a.valid(i as int),
{
    match &a.validity {
        Some(v) => v[i],
        None => true,
    }
}

fn typed_array_eq(a: &TypedArray, b: &TypedArray) -> (r: bool)
    requires
        a.wf(),
        b.wf(),
    ensures
        r == (a.kind() == b.kind() && a.contents() == b.contents()),
{
    if !(a.data.datatype() == b.data.datatype()) {
        return false;
    }
    let la = a.data.len();
    let lb = b.data.len();
    if la != lb {
        proof {
            assert(a.contents().len() != b.contents().len());
        }
        return false;
    }
    let mut i: usize = 0;
    while i < la
        invariant
            a.wf(),
            b.wf(),
            la as nat == a.spec_len(),
            la as nat == b.spec_len(),
            i <= la,
            a.kind() == b.kind(),
            forall|j: int| 0 <= j < i ==> a.contents()[j] == b.contents()[j],
        decreases la - i,
    {
        let va = valid_at(a, i);
        let vb = valid_at(b, i);
        if va != vb {
            proof {
                assert(a.contents()[i as int] != b.contents()[i as int]);
            }
            return false;
        }
        if va {
            let x = a.data.slot_value(i);
            let y = b.data.slot_value(i);
            if !value_eq(&x, &y) {
                proof {
                    assert(a.contents()[i as int] == Some(a.data.model()[i as int]));
                    assert(b.contents()[i as int] == Some(b.data.model()[i as int]));
                    assert(a.contents()[i as int] != b.contents()[i as int]);
                }
                return false;
            }
        }
        proof {
            assert(a.contents()[i as int] == b.contents()[i as int]);
        }
        i += 1;
    }
    proof {
        assert(a.contents() =~= b.contents());
    }
    true
}

// ------------------------------------------------------------------
// Component names and errors.
// ------------------------------------------------------------------
/// The stable name of a component type, e.g. `"instance_key"`.
#[derive(Debug, PartialEq, Eq, Hash)]
pub struct ComponentName(pub String);

impl View for ComponentName {
    type V = Seq<char>;

    open spec fn view(&self) -> Seq<char> {
        self.0@
    }
}

impl Clone for ComponentName {
    fn clone(&self) -> (r: Self)
        ensures
            r == *self,
    {
        ComponentName(self.0.clone())
    }
}

/// On a cell operation that the backing array cannot support.
#[derive(Debug, Clone, Copy, PartialEq, Eq, Structural)]
pub enum DataCellError {
    /// The element kind does not support the requested operation.
    UnsupportedDatatype(DataType),
    /// The backing array's element kind is not the one the caller asked for.
    DatatypeMismatch { expected: DataType, found: DataType },
    /// The array holds absent elements where present ones were required.
    Sparse,
}

// ------------------------------------------------------------------
// The component capability: every component type exposes a stable name,
// an element kind, and conversions to and from the columnar value.
// Implementations are verified against these contracts.
// ------------------------------------------------------------------
pub trait Component: Sized {
    spec fn spec_name() -> Seq<char>;

    spec fn spec_datatype() -> DataType;

    spec fn spec_value(&self) -> Scalar;

    fn name() -> (r: ComponentName)
        ensures
            r@ == Self::spec_name(),
    ;

    fn datatype() -> (r: DataType)
        ensures
            r == Self::spec_datatype(),
    ;

    fn to_value(&self) -> (v: Value)
        ensures
            v@ == self.spec_value(),
            scalar_fits(v@, Self::spec_datatype()),
    ;

    fn from_value(v: &Value) -> (r: Option<Self>)
        ensures
            r is Some <==> scalar_fits(v@, Self::spec_datatype()),
            r matches Some(c) ==> c.spec_value() == v@,
    ;
}

/// A sample component: the 64-bit key that addresses one instance inside
/// a batch.
#[derive(Debug, Clone, Copy, PartialEq, Eq, Structural)]
pub struct InstanceKey(pub u64);

impl Component for InstanceKey {
    open spec fn spec_name() -> Seq<char> {
        "instance_key"@
    }

    open spec fn spec_datatype() -> DataType {
        DataType::UInt64
    }

    open spec fn spec_value(&self) -> Scalar {
        Scalar::Int(self.0 as int)
    }

    fn name() -> (r: ComponentName) {
        ComponentName("instance_key".to_owned())
    }

    fn datatype() -> (r: DataType) {
        DataType::UInt64
    }

    fn to_value(&self) -> (v: Value) {
        Value::Int(self.0 as i128)
    }

    fn from_value(v: &Value) -> (r: Option<Self>) {
        match v {
            Value::Int(x) => if 0 <= *x && *x <= u64::MAX as i128 {
                Some(InstanceKey(*x as u64))
            } else {
                None
            },
            _ => None,
        }
    }
}


/// The contents of a dense build from native values.
pub open spec fn dense_contents_of<C: Component>(values: Seq<C>) -> Seq<Option<Scalar>> {
    values.map(|i: int, v: C| Some(v.spec_value()))
}

/// The contents of a sparse build: absent inputs become null slots.
pub open spec fn sparse_contents_of<C: Component>(values: Seq<Option<C>>) -> Seq<Option<Scalar>> {
    values.map(
        |i: int, o: Option<C>|
            match o {
                Some(v) => Some(v.spec_value()),
                None => None,
            },
    )
}

/// A backing element for an absent slot, of the right kind.
fn fill_value(k: DataType) -> (v: Value)
    ensures
        scalar_fits(v@, k),
{
    match k {
        DataType::Float32 => Value::F32(0),
        DataType::Float64 => Value::F64(0),
        DataType::Other => Value::Blob(Vec::new()),
        _ => Value::Int(0),
    }
}

// ------------------------------------------------------------------
// The cell.
// ------------------------------------------------------------------
/// Mathematical model of a cell: its component name, element kind, and
/// logical contents (one optional scalar per instance).
pub struct CellView {
    pub name: Seq<char>,
    pub kind: DataType,
    pub contents: Seq<Option<Scalar>>,
}

/// A cell's worth of data: a uniform, immutable array of values of one
/// component type, shared by reference count. This is the leaf type of
/// the data model.
#[derive(Debug)]
pub struct DataCell {
    name: ComponentName,
    values: Arc<TypedArray>,
}

impl View for DataCell {
    type V = CellView;

    closed spec fn view(&self) -> CellView {
        CellView {
            name: self.name@,
            kind: (*self.values).kind(),
            contents: (*self.values).contents(),
        }
    }
}

/// Relies on `alloc::sync::Arc::clone`: returns a handle to the same
/// allocation, sharing it without copying the array.
#[verifier::external_body]
fn share_array(a: &Arc<TypedArray>) -> (r: Arc<TypedArray>)
    ensures
        r == *a,
{
    Arc::clone(a)
}

impl DataCell {
    /// Every cell ever built has a well-formed backing array.
    #[verifier::type_invariant]
    spec fn type_inv(&self) -> bool {
        (*self.values).wf()
    }

    /// Builds a cell from a type-erased array plus an explicit name tag.
    /// The fallible form exists for future schema validation; today it
    /// never rejects its input.
    pub fn try_from_arrow(name: ComponentName, values: TypedArray) -> (r: Result<
        DataCell,
        DataCellError,
    >)
        requires
            values.wf(),
        ensures
            r matches Ok(c) && c@ == (CellView {
                name: name@,
                kind: values.kind(),
                contents: values.contents(),
            }),
    {
        Ok(DataCell { name, values: Arc::new(values) })
    }

    /// As `try_from_arrow`, which never fails.
    pub fn from_arrow(name: ComponentName, values: TypedArray) -> (r: DataCell)
        requires
            values.wf(),
        ensures
            r@ == (CellView { name: name@, kind: values.kind(), contents: values.contents() }),
    {
        DataCell { name, values: Arc::new(values) }
    }

    /// Builds a zero-length cell of the given element kind: "component
    /// declared, no instances present". Never fails.
    pub fn try_from_arrow_empty(name: ComponentName, datatype: DataType) -> (r: Result<
        DataCell,
        DataCellError,
    >)
        ensures
            r matches Ok(c) && c@ == (CellView {
                name: name@,
                kind: datatype,
                contents: Seq::empty(),
            }),
    {
        Ok(Self::from_arrow_empty(name, datatype))
    }

    /// As `try_from_arrow_empty`, which never fails.
    pub fn from_arrow_empty(name: ComponentName, datatype: DataType) -> (r: DataCell)
        ensures
            r@ == (CellView { name: name@, kind: datatype, contents: Seq::empty() }),
    {
        let data = ArrayData::new_empty(datatype);
        let arr = TypedArray { data, validity: None };
        proof {
            assert(arr.contents() =~= Seq::<Option<Scalar>>::empty());
        }
        DataCell { name, values: Arc::new(arr) }
    }

    /// A zero-length cell of a native component's canonical kind.
    pub fn from_native_empty<C: Component>() -> (r: DataCell)
        ensures
            r@ == (CellView {
                name: C::spec_name(),
                kind: C::spec_datatype(),
                contents: Seq::empty(),
            }),
    {
        Self::from_arrow_empty(C::name(), C::datatype())
    }

    /// Builds a dense cell from native component values. Conversion of a
    /// component value to its columnar form cannot fail, so neither can
    /// this; the fallible form mirrors the sparse builder pair.
    pub fn try_from_native<C: Component>(values: &Vec<C>) -> (r: Result<DataCell, DataCellError>)
        requires
            values@.len() <= u32::MAX,
        ensures
            r matches Ok(c) && c@ == (CellView {
                name: C::spec_name(),
                kind: C::spec_datatype(),
                contents: dense_contents_of(values@),
            }),
    {
        Ok(Self::from_native(values))
    }

    /// As `try_from_native`, which never fails.
    pub fn from_native<C: Component>(values: &Vec<C>) -> (r: DataCell)
        requires
            values@.len() <= u32::MAX,
        ensures
            r@ == (CellView {
                name: C::spec_name(),
                kind: C::spec_datatype(),
                contents: dense_contents_of(values@),
            }),
    {
        let mut data = ArrayData::new_empty(C::datatype());
        let mut k: usize = 0;
        proof {
            assert(data.model() =~= values@.take(0).map(|i: int, v: C| v.spec_value()));
        }
        while k < values.len()
            invariant
                k <= values@.len(),
                values@.len() <= u32::MAX,
                data.kind() == C::spec_datatype(),
                data.model() == values@.take(k as int).map(|i: int, v: C| v.spec_value()),
            decreases values@.len() - k,
        {
            let v = values[k].to_value();
            data.push_value(&v);
            proof {
                let f = |i: int, v: C| v.spec_value();
                assert(values@.take(k + 1) =~= values@.take(k as int).push(values@[k as int]));
                assert(values@.take(k + 1).map(f) =~= values@.take(k as int).map(f).push(
                    values@[k as int].spec_value(),
                ));
            }
            k += 1;
        }
        proof {
            assert(values@.take(values@.len() as int) =~= values@);
        }
        let arr = TypedArray::dense(data);
        let r = DataCell { name: C::name(), values: Arc::new(arr) };
        proof {
            let f = |i: int, v: C| v.spec_value();
            assert(r@.contents =~= dense_contents_of(values@));
        }
        r
    }

    /// Builds a cell from optional component values: absent elements
    /// become null slots. Never fails; the fallible form mirrors the
    /// dense builder pair.
    pub fn try_from_native_sparse<C: Component>(values: &Vec<Option<C>>) -> (r: Result<
        DataCell,
        DataCellError,
    >)
        requires
            values@.len() <= u32::MAX,
        ensures
            r matches Ok(c) && c@ == (CellView {
                name: C::spec_name(),
                kind: C::spec_datatype(),
                contents: sparse_contents_of(values@),
            }),
    {
        Ok(Self::from_native_sparse(values))
    }

    /// As `try_from_native_sparse`, which never fails.
    pub fn from_native_sparse<C: Component>(values: &Vec<Option<C>>) -> (r: DataCell)
        requires
            values@.len() <= u32::MAX,
        ensures
            r@ == (CellView {
                name: C::spec_name(),
                kind: C::spec_datatype(),
                contents: sparse_contents_of(values@),
            }),
    {
        let mut data = ArrayData::new_empty(C::datatype());
        let mut validity: Vec<bool> = Vec::new();
        let mut k: usize = 0;
        while k < values.len()
            invariant
                k <= values@.len(),
                values@.len() <= u32::MAX,
                data.kind() == C::spec_datatype(),
                data.spec_len() == k,
                validity@.len() == k,
                forall|j: int| 0 <= j < k ==> validity@[j] == (#[trigger] values@[j]) is Some,
                forall|j: int|
                    0 <= j < k ==> ((#[trigger] values@[j]) matches Some(v) ==> data.model()[j]
                        == v.spec_value()),
            decreases values@.len() - k,
        {
            match &values[k] {
                Some(c) => {
                    let v = c.to_value();
                    data.push_value(&v);
                    validity.push(true);
                },
                None => {
                    let v = fill_value(C::datatype());
                    data.push_value(&v);
                    validity.push(false);
                },
            }
            k += 1;
        }
        let arr = TypedArray { data, validity: Some(validity) };
        let r = DataCell { name: C::name(), values: Arc::new(arr) };
        proof {
            assert(r@.contents =~= sparse_contents_of(values@));
        }
        r
    }

    /// Builds a cell from already-materialized component values; one
    /// buffer's worth of convenience over the native builder.
    pub fn from_component<C: Component>(values: Vec<C>) -> (r: DataCell)
        requires
            values@.len() <= u32::MAX,
        ensures
            r@ == (CellView {
                name: C::spec_name(),
                kind: C::spec_datatype(),
                contents: dense_contents_of(values@),
            }),
    {
        Self::from_native(&values)
    }

    /// As `from_component`, with optional elements.
    pub fn from_component_sparse<C: Component>(values: Vec<Option<C>>) -> (r: DataCell)
        requires
            values@.len() <= u32::MAX,
        ensures
            r@ == (CellView {
                name: C::spec_name(),
                kind: C::spec_datatype(),
                contents: sparse_contents_of(values@),
            }),
    {
        Self::from_native_sparse(&values)
    }

    /// The backing array, by shared handle: no copy, reference count only.
    pub fn as_arrow(&self) -> (r: Arc<TypedArray>)
        ensures
            (*r).wf(),
            (*r).kind() == self@.kind,
            (*r).contents() == self@.contents,
    {
        proof {
            use_type_invariant(self);
        }
        share_array(&self.values)
    }

    /// The backing array, by reference: shallow.
    pub fn as_arrow_ref(&self) -> (r: &TypedArray)
        ensures
            (*r).wf(),
            (*r).kind() == self@.kind,
            (*r).contents() == self@.contents,
    {
        proof {
            use_type_invariant(self);
        }
        &*self.values
    }

    /// Wraps the whole array as the single row of a list array: one outer
    /// element containing all instances, order and nullability preserved.
    pub fn as_arrow_monolist(&self) -> (r: ListArray)
        ensures
            r.wf(),
            r.spec_rows() == 1,
            r.offsets@.len() == 2,
            r.offsets@[0] == 0,
            r.offsets@[1] as nat == self@.contents.len(),
            (*r.values).kind() == self@.kind,
            (*r.values).contents() == self@.contents,
    {
        proof {
            use_type_invariant(self);
        }
        let n = self.values.len();
        let mut offsets: Vec<usize> = Vec::new();
        offsets.push(0);
        offsets.push(n);
        ListArray { offsets, values: share_array(&self.values) }
    }

    /// The cell's contents as native component values. Fails on an element
    /// kind other than `C`'s, and on a cell with absent elements.
    pub fn try_as_native<C: Component>(&self) -> (r: Result<Vec<C>, DataCellError>)
        ensures
            self@.kind == C::spec_datatype() && dense_contents(self@.contents) ==> (r matches Ok(v)
                && v@.len() == self@.contents.len() && (forall|i: int|
                0 <= i < v@.len() ==> self@.contents[i] == Some(
                    (#[trigger] v@[i]).spec_value(),
                ))),
            self@.kind != C::spec_datatype() ==> r == Err::<Vec<C>, DataCellError>(
                DataCellError::DatatypeMismatch {
                    expected: C::spec_datatype(),
                    found: self@.kind,
                },
            ),
            self@.kind == C::spec_datatype() && !dense_contents(self@.contents) ==> r == Err::<
                Vec<C>,
                DataCellError,
            >(DataCellError::Sparse),
    {
        proof {
            use_type_invariant(self);
        }
        let arr = &*self.values;
        if !(arr.data.datatype() == C::datatype()) {
            return Err(
                DataCellError::DatatypeMismatch {
                    expected: C::datatype(),
                    found: arr.data.datatype(),
                },
            );
        }
        if !self.is_dense() {
            return Err(DataCellError::Sparse);
        }
        let len = arr.data.len();
        let mut out: Vec<C> = Vec::new();
        let mut i: usize = 0;
        while i < len
            invariant
                (*self.values).wf(),
                len as nat == self@.contents.len(),
                dense_contents(self@.contents),
                arr == &*self.values,
                arr.kind() == C::spec_datatype(),
                i <= len,
                out@.len() == i,
                forall|j: int|
                    0 <= j < i ==> self@.contents[j] == Some((#[trigger] out@[j]).spec_value()),
            decreases len - i,
        {
            let v = arr.data.slot_value(i);
            match C::from_value(&v) {
                Some(c) => {
                    proof {
                        assert(self@.contents[i as int] is Some);
                        assert((*self.values).valid(i as int));
                        assert(self@.contents[i as int] == Some((*self.values).data.model()[
                            i as int
                        ]));
                    }
                    out.push(c);
                },
                None => {
                    proof {
                        assert(false);
                    }
                },
            }
            i += 1;
        }
        Ok(out)
    }

    /// As `try_as_native`; the caller asserts kind and density up front.
    pub fn as_native<C: Component>(&self) -> (r: Vec<C>)
        requires
            self@.kind == C::spec_datatype(),
            dense_contents(self@.contents),
        ensures
            r@.len() == self@.contents.len(),
            forall|i: int|
                0 <= i < r@.len() ==> self@.contents[i] == Some((#[trigger] r@[i]).spec_value()),
    {
        match self.try_as_native::<C>() {
            Ok(v) => v,
            Err(_) => {
                proof {
                    assert(false);
                }
                Vec::new()
            },
        }
    }

    /// The name of the component type stored in the cell.
    pub fn component_name(&self) -> (r: ComponentName)
        ensures
            r@ == self@.name,
    {
        self.name.clone()
    }

    /// The element kind of the cell's array.
    pub fn datatype(&self) -> (r: DataType)
        ensures
            r == self@.kind,
    {
        proof {
            use_type_invariant(self);
        }
        let arr = &*self.values;
        arr.data.datatype()
    }

    /// How many component instances the cell holds.
    pub fn num_instances(&self) -> (r: u32)
        ensures
            r as nat == self@.contents.len(),
    {
        proof {
            use_type_invariant(self);
        }
        let arr = &*self.values;
        arr.data.len() as u32
    }

    pub fn is_empty(&self) -> (r: bool)
        ensures
            r == (self@.contents.len() == 0),
    {
        proof {
            use_type_invariant(self);
        }
        let arr = &*self.values;
        arr.data.len() == 0
    }

    /// Whether the cell has no absent elements.
    pub fn is_dense(&self) -> (r: bool)
        ensures
            r == dense_contents(self@.contents),
    {
        proof {
            use_type_invariant(self);
        }
        let arr = &*self.values;
        match &arr.validity {
            None => {
                proof {
                    assert(dense_contents(self@.contents));
                }
                true
            },
            Some(v) => {
                let mut i: usize = 0;
                while i < v.len()
                    invariant
                        (*self.values).wf(),
                        arr == &*self.values,
                        arr.validity matches Some(w) && w == v,
                        v@.len() == self@.contents.len(),
                        i <= v@.len(),
                        forall|j: int| 0 <= j < i ==> (#[trigger] self@.contents[j]) is Some,
                    decreases v@.len() - i,
                {
                    if !v[i] {
                        proof {
                            assert(!(self@.contents[i as int] is Some));
                        }
                        return false;
                    }
                    i += 1;
                }
                true
            },
        }
    }

    /// Whether the array is strictly increasing (sorted with unique
    /// values), scanning adjacent pairs of the numeric buffer. Defined
    /// only for the supported numeric kinds; the cell must be dense.
    pub fn is_sorted_and_unique(&self) -> (r: Result<bool, DataCellError>)
        requires
            dense_contents(self@.contents),
        ensures
            self@.kind != DataType::Other ==> (r matches Ok(b) && b == spec_sorted_unique(
                self@.contents,
            )),
            self@.kind == DataType::Other ==> r == Err::<bool, DataCellError>(
                DataCellError::UnsupportedDatatype(DataType::Other),
            ),
    {
        proof {
            use_type_invariant(self);
        }
        let arr = &*self.values;
        if let ArrayData::Other(_) = &arr.data {
            return Err(DataCellError::UnsupportedDatatype(DataType::Other));
        }
        proof {
            assert(!(arr.data is Other));
            assert(self@.kind != DataType::Other);
        }
        let len = arr.data.len();
        if len < 2 {
            return Ok(true);
        }
        let mut i: usize = 0;
        while i < len - 1
            invariant
                (*self.values).wf(),
                arr == &*self.values,
                dense_contents(self@.contents),
                self@.kind != DataType::Other,
                len >= 2,
                len as nat == self@.contents.len(),
                i <= len,
                forall|j: int|
                    0 <= j < i ==> opt_scalar_lt(
                        #[trigger] self@.contents[j],
                        self@.contents[j + 1],
                    ),
            decreases len - i,
        {
            let x = arr.data.slot_value(i);
            let y = arr.data.slot_value(i + 1);
            if !value_lt(&x, &y) {
                proof {
                    assert(self@.contents[i as int] == Some(arr.data.model()[i as int]));
                    assert(self@.contents[i + 1] == Some(arr.data.model()[i + 1]));
                    assert(!spec_sorted_unique(self@.contents));
                }
                return Ok(false);
            }
            proof {
                assert(self@.contents[i as int] == Some(arr.data.model()[i as int]));
                assert(self@.contents[i + 1] == Some(arr.data.model()[i + 1]));
            }
            i += 1;
        }
        Ok(true)
    }
}

/// Both slots present and the first strictly below the second.
pub open spec fn opt_scalar_lt(a: Option<Scalar>, b: Option<Scalar>) -> bool {
    a matches Some(x) && b matches Some(y) && scalar_lt(x, y)
}

/// Adjacent slots are strictly increasing throughout.
pub open spec fn spec_sorted_unique(c: Seq<Option<Scalar>>) -> bool {
    forall|i: int| 0 <= i && i + 1 < c.len() ==> opt_scalar_lt(#[trigger] c[i], c[i + 1])
}

impl Clone for DataCell {
    /// Cloning is O(1): the clone shares the same backing array.
    fn clone(&self) -> (r: Self)
        ensures
            r == *self,
    {
        proof {
            use_type_invariant(self);
        }
        DataCell { name: self.name.clone(), values: share_array(&self.values) }
    }
}

impl PartialEq for DataCell {
    /// Two cells are equal exactly when their component names, element
    /// kinds, and logical contents (values and null pattern) are equal.
    fn eq(&self, other: &DataCell) -> (r: bool) {
        proof {
            use_type_invariant(self);
            use_type_invariant(other);
        }
        if !(self.name.0 == other.name.0) {
            return false;
        }
        typed_array_eq(&*self.values, &*other.values)
    }
}

impl vstd::std_specs::cmp::PartialEqSpecImpl for DataCell {
    open spec fn obeys_eq_spec() -> bool {
        true
    }

    open spec fn eq_spec(&self, other: &DataCell) -> bool {
        self@ == other@
    }
}

/// A list array holding rows of a shared inner array; row `r` spans the
/// inner range `offsets[r] .. offsets[r + 1]`.
#[derive(Debug, Clone)]
pub struct ListArray {
    pub offsets: Vec<usize>,
    pub values: Arc<TypedArray>,
}

impl ListArray {
    pub open spec fn wf(&self) -> bool {
        &&& self.offsets@.len() >= 1
        &&& self.offsets@[0] == 0
        &&& (forall|i: int|
            0 <= i < self.offsets@.len() - 1 ==> #[trigger] self.offsets@[i] <= self.offsets@[i
                + 1])
        &&& self.offsets@[self.offsets@.len() - 1] as nat == (*self.values).spec_len()
        &&& (*self.values).wf()
    }

    pub open spec fn spec_rows(&self) -> nat {
        (self.offsets@.len() - 1) as nat
    }

    pub fn num_rows(&self) -> (r: usize)
        requires
            self.wf(),
        ensures
            r as nat == self.spec_rows(),
    {
        self.offsets.len() - 1
    }
}



/// Density law: the contents of a sparse build are dense exactly when no
/// input element was absent.
pub proof fn lemma_sparse_build_density<C: Component>(values: Seq<Option<C>>)
    ensures
        dense_contents(sparse_contents_of(values)) <==> (forall|i: int|
            0 <= i < values.len() ==> (#[trigger] values[i]) is Some),
{
    let c = sparse_contents_of(values);
    if dense_contents(c) {
        assert forall|i: int| 0 <= i < values.len() implies (#[trigger] values[i]) is Some by {
            assert(c[i] is Some);
        }
    }
    if forall|i: int| 0 <= i < values.len() ==> (#[trigger] values[i]) is Some {
        assert forall|i: int| 0 <= i < c.len() implies (#[trigger] c[i]) is Some by {
            assert(values[i] is Some);
        }
    }
}

/// Density law, dense build: the contents of a dense build have no absent
/// slot, whatever the inputs.
pub proof fn lemma_dense_build_density<C: Component>(values: Seq<C>)
    ensures
        dense_contents(dense_contents_of(values)),
{
    let c = dense_contents_of(values);
    assert forall|i: int| 0 <= i < c.len() implies (#[trigger] c[i]) is Some by {}
}

} // verus!
