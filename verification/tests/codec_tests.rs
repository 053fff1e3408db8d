use rrd_core::codec::{decode_all, encode, DecodeError, Decoder};
use rrd_core::msg::{BeginRecordingMsg, LogMsg, RecordingInfo, RecordingSource};
use rrd_core::version::{warn_on_version_mismatch, CrateVersion};

fn sample_begin() -> LogMsg {
    LogMsg::BeginRecording(BeginRecordingMsg {
        msg_id: 0x0123_4567_89ab_cdef_0011_2233_4455_6677,
        info: RecordingInfo {
            application_id: String::from("test"),
            recording_id: 42,
            is_official_example: true,
            started: 1_677_000_000_000_000_000,
            recording_source: RecordingSource::RustSdk {
                rustc_version: String::new(),
                llvm_version: String::new(),
            },
        },
    })
}

#[test]
fn test_encode_decode() {
    let messages = vec![sample_begin()];

    let file = encode(&messages).unwrap();

    let mut decoder = Decoder::new(file.as_slice()).unwrap();
    let mut decoded_messages = Vec::new();
    while let Some(res) = decoder.next() {
        decoded_messages.push(res.unwrap());
    }

    assert_eq!(messages, decoded_messages);
}

#[test]
fn end_to_end_application_id() {
    let messages = vec![sample_begin()];
    let file = encode(&messages).unwrap();
    let decoded = decode_all(file.as_slice()).unwrap();
    assert_eq!(decoded.len(), 1);
    match &decoded[0] {
        LogMsg::BeginRecording(b) => {
            assert_eq!(b.info.application_id, "test");
            assert_eq!(b.msg_id, 0x0123_4567_89ab_cdef_0011_2233_4455_6677);
            assert_eq!(b.info.recording_id, 42);
            assert!(b.info.is_official_example);
            assert_eq!(b.info.started, 1_677_000_000_000_000_000);
            assert_eq!(
                b.info.recording_source,
                RecordingSource::RustSdk {
                    rustc_version: String::new(),
                    llvm_version: String::new(),
                }
            );
        }
        other => panic!("expected a recording-start message, got {:?}", other),
    }
    assert_eq!(messages, decoded);
}

#[test]
fn round_trip_many_messages() {
    let messages = vec![
        sample_begin(),
        LogMsg::Opaque(vec![]),
        LogMsg::Opaque(vec![0, 1, 2, 254, 255]),
        LogMsg::BeginRecording(BeginRecordingMsg {
            msg_id: 7,
            info: RecordingInfo {
                application_id: String::from("snow \u{2744} and \u{1F980} crab"),
                recording_id: u128::MAX,
                is_official_example: false,
                started: -5,
                recording_source: RecordingSource::Other(String::from("python")),
            },
        }),
    ];
    let file = encode(&messages).unwrap();
    let decoded = decode_all(file.as_slice()).unwrap();
    assert_eq!(messages, decoded);
}

#[test]
fn round_trip_empty_stream() {
    let messages: Vec<LogMsg> = vec![];
    let file = encode(&messages).unwrap();
    let decoded = decode_all(file.as_slice()).unwrap();
    assert!(decoded.is_empty());
}

#[test]
fn magic_mismatch_yields_format_error() {
    let messages = vec![sample_begin()];
    let mut file = encode(&messages).unwrap();
    file[0] = b'X';
    assert_eq!(decode_all(file.as_slice()), Err(DecodeError::NotAnRrd));
    assert!(matches!(
        Decoder::new(file.as_slice()),
        Err(DecodeError::NotAnRrd)
    ));
}

#[test]
fn short_header_yields_read_error() {
    assert_eq!(decode_all(&[]), Err(DecodeError::Read));
    assert_eq!(decode_all(b"RR"), Err(DecodeError::Read));
    assert_eq!(decode_all(b"RRF0"), Err(DecodeError::Read));
    assert_eq!(decode_all(b"RRF0\x00\x00"), Err(DecodeError::Read));
}

#[test]
fn corrupt_body_yields_decompression_error() {
    let mut file = b"RRF0".to_vec();
    file.extend_from_slice(&[0, 1, 0, 0]);
    file.extend_from_slice(&[9, 9, 9, 9, 9, 9, 9, 9]);
    assert_eq!(decode_all(file.as_slice()), Err(DecodeError::Decompression));
}

#[test]
fn legacy_sentinel_decodes_and_warns() {
    let messages = vec![sample_begin()];
    let mut file = encode(&messages).unwrap();
    // Streams written before explicit versioning carry all-zero version bytes.
    file[4] = 0;
    file[5] = 0;
    file[6] = 0;
    file[7] = 0;
    let mut decoder = Decoder::new(file.as_slice()).unwrap();
    assert_eq!(decoder.version(), CrateVersion::new(0, 2, 0));
    assert!(!decoder.version_compatible());
    let mut decoded = Vec::new();
    while let Some(res) = decoder.next() {
        decoded.push(res.unwrap());
    }
    assert_eq!(messages, decoded);
}

#[test]
fn matching_version_is_compatible() {
    let file = encode(&vec![sample_begin()]).unwrap();
    let decoder = Decoder::new(file.as_slice()).unwrap();
    assert_eq!(decoder.version(), CrateVersion::new(0, 1, 0));
    assert!(decoder.version_compatible());
}

#[test]
fn version_mismatch_check() {
    assert_eq!(
        warn_on_version_mismatch(&[0, 0, 0, 0]),
        Some((CrateVersion::new(0, 2, 0), CrateVersion::new(0, 1, 0)))
    );
    assert_eq!(warn_on_version_mismatch(&[0, 1, 0, 0]), None);
    assert_eq!(warn_on_version_mismatch(&[0, 1, 7, 0]), None);
    assert_eq!(
        warn_on_version_mismatch(&[1, 1, 0, 0]),
        Some((CrateVersion::new(1, 1, 0), CrateVersion::new(0, 1, 0)))
    );
}

#[test]
fn version_compatibility_rule() {
    // Same major, and while the major is zero, same minor as well.
    let a = CrateVersion::new(0, 1, 0);
    assert!(a.is_compatible_with(CrateVersion::new(0, 1, 9)));
    assert!(!a.is_compatible_with(CrateVersion::new(0, 2, 0)));
    assert!(!a.is_compatible_with(CrateVersion::new(1, 1, 0)));
    let b = CrateVersion::new(2, 0, 0);
    assert!(b.is_compatible_with(CrateVersion::new(2, 9, 9)));
    assert!(!b.is_compatible_with(CrateVersion::new(3, 0, 0)));
}

#[test]
fn portable_backend_reads_full_backend_streams() {
    // Conformance between the two decompression backends: a stream
    // compressed by the full backend decodes byte-identically through the
    // portable one.
    let messages = vec![sample_begin(), LogMsg::Opaque(vec![1, 2, 3])];
    let file = encode(&messages).unwrap();
    let mut decoder = Decoder::new_portable(file.as_slice()).unwrap();
    let mut decoded = Vec::new();
    while let Some(res) = decoder.next() {
        decoded.push(res.unwrap());
    }
    assert_eq!(messages, decoded);
}

#[test]
fn bad_frame_payload_yields_deserialization_error() {
    // A frame whose payload is not a valid message: tag byte 9.
    let mut body = 1u64.to_le_bytes().to_vec();
    body.push(9);
    let compressed = zstd::stream::encode_all(body.as_slice(), 0).unwrap();
    let mut file = b"RRF0".to_vec();
    file.extend_from_slice(&[0, 1, 0, 0]);
    file.extend_from_slice(&compressed);
    assert_eq!(
        decode_all(file.as_slice()),
        Err(DecodeError::Deserialization)
    );
}

#[test]
fn frame_longer_than_body_yields_decompression_error() {
    // A frame length pointing past the end of the decompressed body.
    let body = 100u64.to_le_bytes().to_vec();
    let compressed = zstd::stream::encode_all(body.as_slice(), 0).unwrap();
    let mut file = b"RRF0".to_vec();
    file.extend_from_slice(&[0, 1, 0, 0]);
    file.extend_from_slice(&compressed);
    assert_eq!(
        decode_all(file.as_slice()),
        Err(DecodeError::Decompression)
    );
}

#[test]
fn short_length_read_is_clean_end_of_stream() {
    // A body that ends inside a frame's 8-byte length field is treated as
    // a clean end of stream.
    let body = vec![1u8, 2, 3];
    let compressed = zstd::stream::encode_all(body.as_slice(), 0).unwrap();
    let mut file = b"RRF0".to_vec();
    file.extend_from_slice(&[0, 1, 0, 0]);
    file.extend_from_slice(&compressed);
    let mut decoder = Decoder::new(file.as_slice()).unwrap();
    assert!(decoder.next().is_none());
    assert!(decoder.next().is_none());
}

#[test]
fn decoder_is_exhausted_after_frame_error() {
    let mut body = 1u64.to_le_bytes().to_vec();
    body.push(9);
    let compressed = zstd::stream::encode_all(body.as_slice(), 0).unwrap();
    let mut file = b"RRF0".to_vec();
    file.extend_from_slice(&[0, 1, 0, 0]);
    file.extend_from_slice(&compressed);
    let mut decoder = Decoder::new(file.as_slice()).unwrap();
    assert_eq!(
        decoder.next(),
        Some(Err(DecodeError::Deserialization))
    );
    assert!(decoder.next().is_none());
}
