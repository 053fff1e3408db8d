//! The log message envelope: the tagged values that a stream carries.
//!
//! A message is either a recording-start marker, carrying the recording's
//! identity, or an opaque payload of bytes standing for the externally
//! defined message kinds that this core transports without interpreting.
//!
//! Each message has a deterministic binary encoding (`enc_msg`) and a
//! parser (`parse_msg`) that accepts exactly the encodings, proven to
//! invert encoding (`lemma_parse_msg`).

use crate::wire::{
    enc_bool, lemma_enc_bytes_len, enc_bytes, enc_i64, enc_str, enc_u128, enc_u8, lemma_enc_str_len, lemma_fixed_lens,
    lemma_parse_bool, lemma_parse_bytes, lemma_parse_i64, lemma_parse_str, lemma_parse_u128,
    lemma_parse_u8, parse_bool, parse_bytes, parse_i64, parse_str, parse_u128, parse_u8, read_bool,
    read_bytes, read_i64, read_str, read_u128, read_u8, write_bool, write_bytes, write_i64,
    write_str, write_u128, write_u8,
};
use vstd::prelude::*;

verus! {

/// Where a recording came from.
#[derive(Debug, Clone, PartialEq)]
pub enum RecordingSource {
    /// Produced by the native SDK, with the toolchain versions that built it.
    RustSdk { rustc_version: String, llvm_version: String },
    /// Any other producer, by name.
    Other(String),
}

/// Identity of a recording, sent once at the start of a stream.
#[derive(Debug, Clone, PartialEq)]
pub struct RecordingInfo {
    pub application_id: String,
    pub recording_id: u128,
    pub is_official_example: bool,
    /// Start time, in nanoseconds since the Unix epoch.
    pub started: i64,
    pub recording_source: RecordingSource,
}

/// The recording-start marker message.
#[derive(Debug, Clone, PartialEq)]
pub struct BeginRecordingMsg {
    pub msg_id: u128,
    pub info: RecordingInfo,
}

/// One log message: the leaf unit that the codec frames and transports.
#[derive(Debug, Clone, PartialEq)]
pub enum LogMsg {
    BeginRecording(BeginRecordingMsg),
    /// An externally defined message kind, carried verbatim as one
    /// serialized unit.
    Opaque(Vec<u8>),
}

/// Mathematical model of `RecordingSource`.
pub enum SourceView {
    RustSdk { rustc_version: Seq<char>, llvm_version: Seq<char> },
    Other(Seq<char>),
}

/// Mathematical model of `RecordingInfo`.
pub struct InfoView {
    pub application_id: Seq<char>,
    pub recording_id: u128,
    pub is_official_example: bool,
    pub started: i64,
    pub recording_source: SourceView,
}

/// Mathematical model of `LogMsg`.
pub enum LogMsgView {
    BeginRecording { msg_id: u128, info: InfoView },
    Opaque(Seq<u8>),
}

impl View for RecordingSource {
    type V = SourceView;

    open spec fn view(&self) -> SourceView {
        match self {
            RecordingSource::RustSdk { rustc_version, llvm_version } => (SourceView::RustSdk {
                rustc_version: rustc_version@,
                llvm_version: llvm_version@,
            }),
            RecordingSource::Other(name) => SourceView::Other(name@),
        }
    }
}

impl View for RecordingInfo {
    type V = InfoView;

    open spec fn view(&self) -> InfoView {
        InfoView {
            application_id: self.application_id@,
            recording_id: self.recording_id,
            is_official_example: self.is_official_example,
            started: self.started,
            recording_source: self.recording_source@,
        }
    }
}

impl View for LogMsg {
    type V = LogMsgView;

    open spec fn view(&self) -> LogMsgView {
        match self {
            LogMsg::BeginRecording(b) => (LogMsgView::BeginRecording {
                msg_id: b.msg_id,
                info: b.info@,
            }),
            LogMsg::Opaque(bytes) => LogMsgView::Opaque(bytes@),
        }
    }
}

// ------------------------------------------------------------------
// Spec-level encoding.
// ------------------------------------------------------------------
pub open spec fn enc_source(s: SourceView) -> Seq<u8> {
    match s {
        SourceView::RustSdk { rustc_version, llvm_version } => seq![0u8] + enc_str(rustc_version)
            + enc_str(llvm_version),
        SourceView::Other(name) => seq![1u8] + enc_str(name),
    }
}

pub open spec fn enc_info(i: InfoView) -> Seq<u8> {
    enc_str(i.application_id) + enc_u128(i.recording_id) + enc_bool(i.is_official_example)
        + enc_i64(i.started) + enc_source(i.recording_source)
}

pub open spec fn enc_msg(m: LogMsgView) -> Seq<u8> {
    match m {
        LogMsgView::BeginRecording { msg_id, info } => seq![0u8] + enc_u128(msg_id) + enc_info(
            info,
        ),
        LogMsgView::Opaque(b) => seq![1u8] + enc_bytes(b),
    }
}

/// Size limits under which a message model is encodable and re-parsable:
/// every length written on the wire must fit in its 64-bit length field.
/// Every `LogMsg` value built in executable code satisfies them.
pub open spec fn msg_wf(m: LogMsgView) -> bool {
    &&& enc_msg(m).len() <= u64::MAX
    &&& match m {
        LogMsgView::BeginRecording { msg_id, info } => {
            &&& info.application_id.len() <= u64::MAX
            &&& match info.recording_source {
                SourceView::RustSdk { rustc_version, llvm_version } => rustc_version.len()
                    <= u64::MAX && llvm_version.len() <= u64::MAX,
                SourceView::Other(name) => name.len() <= u64::MAX,
            }
        },
        LogMsgView::Opaque(b) => b.len() <= u64::MAX,
    }
}

// ------------------------------------------------------------------
// Spec-level parsing.
// ------------------------------------------------------------------
pub open spec fn parse_source(s: Seq<u8>, i: int) -> Option<(SourceView, int)> {
    match parse_u8(s, i) {
        Some((tag, j)) => if tag == 0 {
            match parse_str(s, j) {
                Some((rustc_version, k)) => match parse_str(s, k) {
                    Some((llvm_version, e)) => Some(
                        (SourceView::RustSdk { rustc_version, llvm_version }, e),
                    ),
                    None => None,
                },
                None => None,
            }
        } else if tag == 1 {
            match parse_str(s, j) {
                Some((name, e)) => Some((SourceView::Other(name), e)),
                None => None,
            }
        } else {
            None
        },
        None => None,
    }
}

pub open spec fn parse_info(s: Seq<u8>, i: int) -> Option<(InfoView, int)> {
    match parse_str(s, i) {
        Some((application_id, j1)) => match parse_u128(s, j1) {
            Some((recording_id, j2)) => match parse_bool(s, j2) {
                Some((is_official_example, j3)) => match parse_i64(s, j3) {
                    Some((started, j4)) => match parse_source(s, j4) {
                        Some((recording_source, e)) => Some(
                            (
                                InfoView {
                                    application_id,
                                    recording_id,
                                    is_official_example,
                                    started,
                                    recording_source,
                                },
                                e,
                            ),
                        ),
                        None => None,
                    },
                    None => None,
                },
                None => None,
            },
            None => None,
        },
        None => None,
    }
}

pub open spec fn parse_msg_at(s: Seq<u8>, i: int) -> Option<(LogMsgView, int)> {
    match parse_u8(s, i) {
        Some((tag, j)) => if tag == 0 {
            match parse_u128(s, j) {
                Some((msg_id, k)) => match parse_info(s, k) {
                    Some((info, e)) => Some((LogMsgView::BeginRecording { msg_id, info }, e)),
                    None => None,
                },
                None => None,
            }
        } else if tag == 1 {
            match parse_bytes(s, j) {
                Some((b, e)) => Some((LogMsgView::Opaque(b), e)),
                None => None,
            }
        } else {
            None
        },
        None => None,
    }
}

/// Parses one whole message payload; the message must consume the payload
/// exactly.
pub open spec fn parse_msg(s: Seq<u8>) -> Option<LogMsgView> {
    match parse_msg_at(s, 0) {
        Some((m, e)) => if e == s.len() {
            Some(m)
        } else {
            None
        },
        None => None,
    }
}

// ------------------------------------------------------------------
// Round-trip lemmas.
// ------------------------------------------------------------------
/// Splits a parse over the concatenation of two encodings.
pub proof fn lemma_split(s: Seq<u8>, i: int, x: Seq<u8>, y: Seq<u8>)
    requires
        0 <= i,
        i + x.len() + y.len() <= s.len(),
        s.subrange(i, i + x.len() + y.len()) == x + y,
    ensures
        s.subrange(i, i + x.len()) == x,
        s.subrange(i + x.len(), i + x.len() + y.len()) == y,
{
    assert(s.subrange(i, i + x.len()) =~= x);
    let b = s.subrange(i + x.len(), i + x.len() + y.len());
    assert forall|j: int| 0 <= j < y.len() implies b[j] == y[j] by {
        assert(b[j] == s[i + x.len() + j]);
        assert(s.subrange(i, i + x.len() + y.len())[x.len() + j] == s[i + x.len() + j]);
        assert((x + y)[x.len() + j] == y[j]);
    }
    assert(b =~= y);
}

pub proof fn lemma_parse_source(s: Seq<u8>, i: int, v: SourceView)
    requires
        0 <= i,
        i + enc_source(v).len() <= s.len(),
        s.subrange(i, i + enc_source(v).len()) == enc_source(v),
        match v {
            SourceView::RustSdk { rustc_version, llvm_version } => rustc_version.len() <= u64::MAX
                && llvm_version.len() <= u64::MAX,
            SourceView::Other(name) => name.len() <= u64::MAX,
        },
    ensures
        parse_source(s, i) == Some((v, i + enc_source(v).len())),
{
    match v {
        SourceView::RustSdk { rustc_version, llvm_version } => {
            lemma_enc_str_len(rustc_version);
            lemma_enc_str_len(llvm_version);
            let rest = enc_str(rustc_version) + enc_str(llvm_version);
            assert(enc_source(v) =~= enc_u8(0u8) + rest);
            lemma_split(s, i, enc_u8(0u8), rest);
            lemma_parse_u8(s, i, 0u8);
            lemma_split(s, i + 1, enc_str(rustc_version), enc_str(llvm_version));
            lemma_parse_str(s, i + 1, rustc_version);
            lemma_parse_str(s, i + 1 + 8 + 4 * rustc_version.len(), llvm_version);
        },
        SourceView::Other(name) => {
            lemma_enc_str_len(name);
            assert(enc_source(v) =~= enc_u8(1u8) + enc_str(name));
            lemma_split(s, i, enc_u8(1u8), enc_str(name));
            lemma_parse_u8(s, i, 1u8);
            lemma_parse_str(s, i + 1, name);
        },
    }
}

pub proof fn lemma_parse_info(s: Seq<u8>, i: int, v: InfoView)
    requires
        0 <= i,
        i + enc_info(v).len() <= s.len(),
        s.subrange(i, i + enc_info(v).len()) == enc_info(v),
        v.application_id.len() <= u64::MAX,
        match v.recording_source {
            SourceView::RustSdk { rustc_version, llvm_version } => rustc_version.len() <= u64::MAX
                && llvm_version.len() <= u64::MAX,
            SourceView::Other(name) => name.len() <= u64::MAX,
        },
    ensures
        parse_info(s, i) == Some((v, i + enc_info(v).len())),
{
    lemma_enc_str_len(v.application_id);
    lemma_fixed_lens();
    let a = enc_str(v.application_id);
    let b = enc_u128(v.recording_id);
    let c = enc_bool(v.is_official_example);
    let d = enc_i64(v.started);
    let e = enc_source(v.recording_source);
    assert(enc_info(v) =~= a + (b + (c + (d + e))));
    lemma_split(s, i, a, b + (c + (d + e)));
    lemma_parse_str(s, i, v.application_id);
    let i1 = i + a.len();
    lemma_split(s, i1, b, c + (d + e));
    lemma_parse_u128(s, i1, v.recording_id);
    let i2 = i1 + b.len();
    lemma_split(s, i2, c, d + e);
    lemma_parse_bool(s, i2, v.is_official_example);
    let i3 = i2 + c.len();
    lemma_split(s, i3, d, e);
    lemma_parse_i64(s, i3, v.started);
    let i4 = i3 + d.len();
    lemma_parse_source(s, i4, v.recording_source);
}

pub proof fn lemma_parse_msg_at(s: Seq<u8>, i: int, m: LogMsgView)
    requires
        0 <= i,
        i + enc_msg(m).len() <= s.len(),
        s.subrange(i, i + enc_msg(m).len()) == enc_msg(m),
        msg_wf(m),
    ensures
        parse_msg_at(s, i) == Some((m, i + enc_msg(m).len())),
{
    match m {
        LogMsgView::BeginRecording { msg_id, info } => {
            lemma_fixed_lens();
            let rest = enc_u128(msg_id) + enc_info(info);
            assert(enc_msg(m) =~= enc_u8(0u8) + rest);
            lemma_split(s, i, enc_u8(0u8), rest);
            lemma_parse_u8(s, i, 0u8);
            lemma_split(s, i + 1, enc_u128(msg_id), enc_info(info));
            lemma_parse_u128(s, i + 1, msg_id);
            lemma_parse_info(s, i + 17, info);
            assert(parse_u8(s, i) == Some((0u8, i + 1)));
            assert(parse_u128(s, i + 1) == Some((msg_id, i + 17)));
            assert(parse_info(s, i + 17) == Some((info, i + 17 + enc_info(info).len())));
            assert(i + 17 + enc_info(info).len() == i + enc_msg(m).len());
        },
        LogMsgView::Opaque(b) => {
            lemma_enc_bytes_len(b);
            assert(enc_msg(m) =~= enc_u8(1u8) + enc_bytes(b));
            lemma_split(s, i, enc_u8(1u8), enc_bytes(b));
            lemma_parse_u8(s, i, 1u8);
            lemma_parse_bytes(s, i + 1, b);
        },
    }
}

/// Parsing a message payload inverts encoding it.
pub proof fn lemma_parse_msg(m: LogMsgView)
    requires
        msg_wf(m),
    ensures
        parse_msg(enc_msg(m)) == Some(m),
{
    let s = enc_msg(m);
    assert(s.subrange(0, s.len() as int) =~= s);
    lemma_parse_msg_at(s, 0, m);
}

// ------------------------------------------------------------------
// Executable encoding and decoding.
// ------------------------------------------------------------------
fn encode_source(out: &mut Vec<u8>, v: &RecordingSource)
    ensures
        final(out)@ == old(out)@ + enc_source(v@),
        match v@ {
            SourceView::RustSdk { rustc_version, llvm_version } => rustc_version.len() <= u64::MAX
                && llvm_version.len() <= u64::MAX,
            SourceView::Other(name) => name.len() <= u64::MAX,
        },
{
    match v {
        RecordingSource::RustSdk { rustc_version, llvm_version } => {
            write_u8(out, 0);
            write_str(out, rustc_version.as_str());
            write_str(out, llvm_version.as_str());
            proof {
                assert(out@ =~= old(out)@ + enc_source(v@));
            }
        },
        RecordingSource::Other(name) => {
            write_u8(out, 1);
            write_str(out, name.as_str());
            proof {
                assert(out@ =~= old(out)@ + enc_source(v@));
            }
        },
    }
}

/// Appends the encoding of one message to `out`.
pub fn encode_msg(out: &mut Vec<u8>, m: &LogMsg)
    ensures
        final(out)@ == old(out)@ + enc_msg(m@),
        msg_wf(m@),
{
    match m {
        LogMsg::BeginRecording(b) => {
            write_u8(out, 0);
            write_u128(out, b.msg_id);
            write_str(out, b.info.application_id.as_str());
            write_u128(out, b.info.recording_id);
            write_bool(out, b.info.is_official_example);
            write_i64(out, b.info.started);
            encode_source(out, &b.info.recording_source);
            proof {
                vstd::std_specs::vec::axiom_spec_len(out);
                assert(out@ =~= old(out)@ + enc_msg(m@));
                assert(enc_msg(m@).len() <= out@.len());
                assert(enc_msg(m@).len() <= u64::MAX);
            }
        },
        LogMsg::Opaque(bytes) => {
            write_u8(out, 1);
            write_bytes(out, bytes);
            proof {
                vstd::std_specs::vec::axiom_spec_len(out);
                assert(out@ =~= old(out)@ + enc_msg(m@));
                assert(enc_msg(m@).len() <= out@.len());
                assert(enc_msg(m@).len() <= u64::MAX);
            }
        },
    }
}

fn decode_source(s: &[u8], i: usize) -> (r: Option<(RecordingSource, usize)>)
    ensures
        r is Some <==> parse_source(s@, i as int) is Some,
        r matches Some(p) ==> parse_source(s@, i as int) == Some((p.0@, p.1 as int)),
{
    let (tag, j) = match read_u8(s, i) {
        Some(p) => p,
        None => {
            return None;
        },
    };
    if tag == 0 {
        let (rustc_version, k) = match read_str(s, j) {
            Some(p) => p,
            None => {
                return None;
            },
        };
        let (llvm_version, e) = match read_str(s, k) {
            Some(p) => p,
            None => {
                return None;
            },
        };
        Some((RecordingSource::RustSdk { rustc_version, llvm_version }, e))
    } else if tag == 1 {
        let (name, e) = match read_str(s, j) {
            Some(p) => p,
            None => {
                return None;
            },
        };
        Some((RecordingSource::Other(name), e))
    } else {
        None
    }
}

/// Decodes one message from a payload, which must hold exactly one message.
pub fn decode_msg(s: &[u8]) -> (r: Option<LogMsg>)
    ensures
        r is Some <==> parse_msg(s@) is Some,
        r matches Some(m) ==> parse_msg(s@) == Some(m@),
{
    let (m, e) = match decode_msg_at(s, 0) {
        Some(p) => p,
        None => {
            return None;
        },
    };
    if e == s.len() {
        Some(m)
    } else {
        None
    }
}

fn decode_msg_at(s: &[u8], i: usize) -> (r: Option<(LogMsg, usize)>)
    ensures
        r is Some <==> parse_msg_at(s@, i as int) is Some,
        r matches Some(p) ==> parse_msg_at(s@, i as int) == Some((p.0@, p.1 as int)),
{
    let (tag, j) = match read_u8(s, i) {
        Some(p) => p,
        None => {
            return None;
        },
    };
    if tag == 0 {
        let (msg_id, k) = match read_u128(s, j) {
            Some(p) => p,
            None => {
                return None;
            },
        };
        let (application_id, j1) = match read_str(s, k) {
            Some(p) => p,
            None => {
                return None;
            },
        };
        let (recording_id, j2) = match read_u128(s, j1) {
            Some(p) => p,
            None => {
                return None;
            },
        };
        let (is_official_example, j3) = match read_bool(s, j2) {
            Some(p) => p,
            None => {
                return None;
            },
        };
        let (started, j4) = match read_i64(s, j3) {
            Some(p) => p,
            None => {
                return None;
            },
        };
        let (recording_source, e) = match decode_source(s, j4) {
            Some(p) => p,
            None => {
                return None;
            },
        };
        let info = RecordingInfo {
            application_id,
            recording_id,
            is_official_example,
            started,
            recording_source,
        };
        Some((LogMsg::BeginRecording(BeginRecordingMsg { msg_id, info }), e))
    } else if tag == 1 {
        let (b, e) = match read_bytes(s, j) {
            Some(p) => p,
            None => {
                return None;
            },
        };
        Some((LogMsg::Opaque(b), e))
    } else {
        None
    }
}

} // verus!
