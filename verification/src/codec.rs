//! The wire codec: turns a sequence of log messages into a durable byte
//! stream and back.
//!
//! Stream layout, bit-exact: 4 magic bytes `"RRF0"`, 4 version bytes, then
//! one zstd-compressed body. The body is a concatenation of frames, each an
//! 8-byte little-endian length followed by that many bytes of one serialized
//! message. There is no trailing end-of-stream marker: a short read at a
//! frame-length boundary is treated as the end of the stream.
//!
//! Decoding is pull-based: `Decoder::next` yields one message per call.
//! Header validation failures abort before any message is produced; a
//! failure inside a frame is surfaced as the value of that pull and leaves
//! the decoder exhausted.

use crate::msg::{
    decode_msg, enc_msg, encode_msg, lemma_parse_msg, msg_wf, parse_msg, LogMsg, LogMsgView,
};
use crate::version::CrateVersion;
use crate::wire::{enc_bytes, lemma_enc_bytes_len, lemma_fixed_lens, read_u64, write_bytes};
use vstd::bytes::spec_u64_from_le_bytes;
use vstd::prelude::*;
use vstd::slice::{slice_index_get, slice_subrange};

verus! {

/// On failure to encode a stream.
#[derive(Debug, Clone, Copy, PartialEq, Eq, Structural)]
pub enum EncodeError {
    /// The compression backend reported a failure.
    Compression,
}

/// On failure to decode a stream or one of its messages.
#[derive(Debug, Clone, Copy, PartialEq, Eq, Structural)]
pub enum DecodeError {
    /// The stream does not begin with the 4-byte magic tag.
    NotAnRrd,
    /// The stream ends before the 8-byte header is complete.
    Read,
    /// The compressed body is corrupt, or ends inside a frame's payload.
    Decompression,
    /// A frame's payload does not decode to a valid message.
    Deserialization,
}

/// The 4-byte tag `"RRF0"` that every stream begins with.
pub open spec fn spec_magic() -> Seq<u8> {
    seq![82u8, 82u8, 70u8, 48u8]
}

/// The compressed zstd frame holding `body`. The compressed bytes are a
/// function of the input alone (single-threaded compression at a fixed
/// level), far too intricate to state; decompression is specified as its
/// inverse.
pub uninterp spec fn zstd_frame_of(body: Seq<u8>) -> Seq<u8>;

/// Relies on `zstd::stream::encode_all` at level 0 (the backend's default
/// level): it returns one compressed zstd frame, a function of the input
/// bytes alone. Compressing into an in-memory buffer does not fail short
/// of memory exhaustion, so success is promised.
#[verifier::external_body]
fn zstd_compress(data: &Vec<u8>) -> (r: Result<Vec<u8>, EncodeError>)
    ensures
        r is Ok,
        r matches Ok(out) ==> out@ == zstd_frame_of(data@),
{
    zstd::stream::encode_all(data.as_slice(), 0).map_err(|_| EncodeError::Compression)
}

/// Relies on `zstd::stream::decode_all`: decompression losslessly inverts
/// compression, so on any frame that `encode_all` produced it returns the
/// original bytes.
#[verifier::external_body]
fn zstd_decompress(data: &[u8]) -> (r: Result<Vec<u8>, DecodeError>)
    ensures
        r matches Ok(out) ==> forall|body: Seq<u8>| data@ == zstd_frame_of(body) ==> out@ == body,
        r matches Err(e) ==> e == DecodeError::Decompression && (forall|body: Seq<u8>|
            data@ != zstd_frame_of(body)),
{
    zstd::stream::decode_all(data).map_err(|_| DecodeError::Decompression)
}

/// Relies on `ruzstd::decoding::StreamingDecoder` (with `Read::read_to_end`
/// to drain it): the portable backend decodes the same zstd frame format,
/// so it too inverts compression on any frame `encode_all` produced.
#[verifier::external_body]
fn zstd_decompress_portable(data: &[u8]) -> (r: Result<Vec<u8>, DecodeError>)
    ensures
        r matches Ok(out) ==> forall|body: Seq<u8>| data@ == zstd_frame_of(body) ==> out@ == body,
        r matches Err(e) ==> e == DecodeError::Decompression && (forall|body: Seq<u8>|
            data@ != zstd_frame_of(body)),
{
    let mut dec = match ruzstd::decoding::StreamingDecoder::new(data) {
        Ok(d) => d,
        Err(_) => return Err(DecodeError::Decompression),
    };
    let mut out = Vec::new();
    match std::io::Read::read_to_end(&mut dec, &mut out) {
        Ok(_) => Ok(out),
        Err(_) => Err(DecodeError::Decompression),
    }
}

// ------------------------------------------------------------------
// The framed body, at spec level.
// ------------------------------------------------------------------
pub open spec fn msgs_view(v: Seq<LogMsg>) -> Seq<LogMsgView> {
    v.map(|i: int, m: LogMsg| m@)
}

pub open spec fn msgs_wf(msgs: Seq<LogMsgView>) -> bool {
    forall|k: int| 0 <= k < msgs.len() ==> msg_wf(#[trigger] msgs[k])
}

/// The concatenated frames of a message sequence: each message's encoding,
/// length-prefixed.
pub open spec fn spec_frames(msgs: Seq<LogMsgView>) -> Seq<u8>
    decreases msgs.len(),
{
    if msgs.len() == 0 {
        Seq::empty()
    } else {
        enc_bytes(enc_msg(msgs[0])) + spec_frames(msgs.drop_first())
    }
}

pub proof fn lemma_frames_push(msgs: Seq<LogMsgView>, m: LogMsgView)
    ensures
        spec_frames(msgs.push(m)) == spec_frames(msgs) + enc_bytes(enc_msg(m)),
    decreases msgs.len(),
{
    reveal_with_fuel(spec_frames, 3);
    if msgs.len() == 0 {
        assert(msgs.push(m)[0] == m);
        assert(msgs.push(m).drop_first() =~= Seq::<LogMsgView>::empty());
        assert(spec_frames(msgs.push(m)) =~= spec_frames(msgs) + enc_bytes(enc_msg(m)));
    } else {
        assert(msgs.push(m).drop_first() =~= msgs.drop_first().push(m));
        lemma_frames_push(msgs.drop_first(), m);
        assert(msgs.push(m)[0] == msgs[0]);
        assert(spec_frames(msgs.push(m)) =~= spec_frames(msgs) + enc_bytes(enc_msg(m)));
    }
}

/// A whole stream: magic, version bytes, compressed frames.
pub open spec fn spec_stream(version: Seq<u8>, msgs: Seq<LogMsgView>) -> Seq<u8> {
    spec_magic() + version + zstd_frame_of(spec_frames(msgs))
}

/// A stream as this writer encodes it, carrying the local version.
pub open spec fn spec_encode_stream(msgs: Seq<LogMsgView>) -> Seq<u8> {
    spec_stream(CrateVersion::spec_local().spec_to_bytes(), msgs)
}

// ------------------------------------------------------------------
// Encoding.
// ------------------------------------------------------------------
/// Encodes a message sequence into one byte stream: magic, the local
/// version, then the compressed length-prefixed frames. Every message
/// sequence encodes: the result is the exact stream, never an error.
pub fn encode(messages: &Vec<LogMsg>) -> (r: Result<Vec<u8>, EncodeError>)
    ensures
        r matches Ok(out) && out@ == spec_encode_stream(msgs_view(messages@)) && msgs_wf(
            msgs_view(messages@),
        ),
{
    let mut body: Vec<u8> = Vec::new();
    let mut k: usize = 0;
    while k < messages.len()
        invariant
            k <= messages@.len(),
            body@ == spec_frames(msgs_view(messages@.take(k as int))),
            msgs_wf(msgs_view(messages@.take(k as int))),
        decreases messages@.len() - k,
    {
        let mut payload: Vec<u8> = Vec::new();
        encode_msg(&mut payload, &messages[k]);
        write_bytes(&mut body, &payload);
        proof {
            let prefix = msgs_view(messages@.take(k as int));
            lemma_frames_push(prefix, messages@[k as int]@);
            assert(msgs_view(messages@.take(k + 1)) =~= prefix.push(messages@[k as int]@));
            assert(msgs_wf(msgs_view(messages@.take(k + 1))));
        }
        k += 1;
    }
    proof {
        assert(messages@.take(messages@.len() as int) =~= messages@);
    }
    let compressed = match zstd_compress(&body) {
        Ok(c) => c,
        Err(e) => {
            proof {
                assert(false);
            }
            return Err(e);
        },
    };
    let mut compressed = compressed;
    let mut out: Vec<u8> = Vec::new();
    out.push(82);
    out.push(82);
    out.push(70);
    out.push(48);
    let vb = CrateVersion::local().to_bytes();
    out.push(vb[0]);
    out.push(vb[1]);
    out.push(vb[2]);
    out.push(vb[3]);
    out.append(&mut compressed);
    proof {
        assert(out@ =~= spec_encode_stream(msgs_view(messages@)));
    }
    Ok(out)
}

// ------------------------------------------------------------------
// Decoding.
// ------------------------------------------------------------------
/// The length field of the frame starting at `i`.
pub open spec fn frame_len_at(body: Seq<u8>, i: int) -> int {
    spec_u64_from_le_bytes(body.subrange(i, i + 8)) as int
}

/// What one pull of the decoder does, given the decompressed body and the
/// position before the pull: `r` is the pull's result and `newpos` the
/// position after it.
pub open spec fn next_spec(
    body: Seq<u8>,
    i: int,
    r: Option<Result<LogMsg, DecodeError>>,
    newpos: int,
) -> bool {
    if i + 8 > body.len() {
        // A short read at the length boundary is a clean end of stream.
        r is None && newpos == i
    } else {
        let n = frame_len_at(body, i);
        if i + 8 + n > body.len() {
            r == Some(Err::<LogMsg, DecodeError>(DecodeError::Decompression)) && newpos
                == body.len()
        } else {
            match parse_msg(body.subrange(i + 8, i + 8 + n)) {
                Some(mv) => (r matches Some(res) && res matches Ok(msg) && msg@ == mv) && newpos
                    == i + 8 + n,
                None => r == Some(Err::<LogMsg, DecodeError>(DecodeError::Deserialization))
                    && newpos == body.len(),
            }
        }
    }
}

/// Decoding one framed body, at spec level: the messages of each frame in
/// order, or the first error.
pub open spec fn spec_decode_frames(body: Seq<u8>, i: int) -> Result<Seq<LogMsgView>, DecodeError>
    decreases body.len() - i,
    when 0 <= i <= body.len()
{
    if i + 8 > body.len() {
        Ok(Seq::empty())
    } else {
        let n = frame_len_at(body, i);
        if i + 8 + n > body.len() {
            Err(DecodeError::Decompression)
        } else {
            match parse_msg(body.subrange(i + 8, i + 8 + n)) {
                Some(m) => match spec_decode_frames(body, i + 8 + n) {
                    Ok(rest) => Ok(seq![m] + rest),
                    Err(e) => Err(e),
                },
                None => Err(DecodeError::Deserialization),
            }
        }
    }
}

/// Round trip, frame level: decoding the framed body built from any
/// well-formed message sequence yields exactly that sequence.
pub proof fn lemma_decode_frames(s: Seq<u8>, i: int, msgs: Seq<LogMsgView>)
    requires
        0 <= i <= s.len(),
        msgs_wf(msgs),
        s.subrange(i, s.len() as int) == spec_frames(msgs),
    ensures
        spec_decode_frames(s, i) == Ok::<Seq<LogMsgView>, DecodeError>(msgs),
    decreases msgs.len(),
{
    lemma_fixed_lens();
    if msgs.len() == 0 {
        assert(s.len() - i == 0);
        assert(msgs =~= Seq::<LogMsgView>::empty());
    } else {
        let m = msgs[0];
        assert(msg_wf(m));
        let payload = enc_msg(m);
        lemma_enc_bytes_len(payload);
        let rest = msgs.drop_first();
        assert(spec_frames(msgs) == enc_bytes(payload) + spec_frames(rest));
        crate::msg::lemma_split(s, i, enc_bytes(payload), spec_frames(rest));
        crate::msg::lemma_split(
            s,
            i,
            crate::wire::enc_u64(payload.len() as u64),
            payload,
        );
        crate::wire::lemma_parse_u64(s, i, payload.len() as u64);
        assert(spec_u64_from_le_bytes(s.subrange(i, i + 8)) == payload.len() as u64);
        assert(frame_len_at(s, i) == payload.len());
        let j = i + 8;
        assert(s.subrange(j, j + payload.len()) == payload);
        lemma_parse_msg(m);
        assert(parse_msg(s.subrange(j, j + payload.len())) == Some(m));
        assert forall|k: int| 0 <= k < rest.len() implies msg_wf(#[trigger] rest[k]) by {
            assert(rest[k] == msgs[k + 1]);
        }
        assert(s.subrange(j + payload.len(), s.len() as int) == spec_frames(rest));
        lemma_decode_frames(s, j + payload.len(), rest);
        assert(spec_decode_frames(s, i + 8 + frame_len_at(s, i)) == Ok::<
            Seq<LogMsgView>,
            DecodeError,
        >(rest));
        assert(spec_decode_frames(s, i) == Ok::<Seq<LogMsgView>, DecodeError>(seq![m] + rest));
        assert(seq![m] + rest =~= msgs);
    }
}

/// Round trip of the framed body: P-level statement over the spec
/// functions, used by `decode_all`.
pub proof fn lemma_round_trip(msgs: Seq<LogMsgView>)
    requires
        msgs_wf(msgs),
    ensures
        spec_decode_frames(spec_frames(msgs), 0) == Ok::<Seq<LogMsgView>, DecodeError>(msgs),
{
    let s = spec_frames(msgs);
    assert(s.subrange(0, s.len() as int) =~= s);
    lemma_decode_frames(s, 0, msgs);
}

/// Pull-based decoder over one stream held in memory.
///
/// `new` validates the header and decompresses the body; each call of
/// `next` then reads one frame: its 8-byte length, its payload, and the
/// message the payload deserializes to.
pub struct Decoder {
    body: Vec<u8>,
    pos: usize,
    version: CrateVersion,
    compatible: bool,
}

impl Decoder {
    /// The decompressed framed body.
    pub closed spec fn spec_body(&self) -> Seq<u8> {
        self.body@
    }

    /// The read position inside the body: start of the next frame.
    pub closed spec fn spec_pos(&self) -> int {
        self.pos as int
    }

    /// The stream's version, with the all-zero legacy sentinel resolved.
    pub closed spec fn spec_version(&self) -> CrateVersion {
        self.version
    }

    /// Whether the stream's version is compatible with the local one.
    pub closed spec fn spec_compat(&self) -> bool {
        self.compatible
    }

    pub closed spec fn wf(&self) -> bool {
        self.pos as int <= self.body@.len()
    }

    /// Opens a stream: checks the magic tag, reads the version (running the
    /// compatibility check), and decompresses the body with the chosen
    /// backend.
    fn open_with(data: &[u8], portable: bool) -> (r: Result<Decoder, DecodeError>)
        ensures
            data@.len() < 4 ==> r == Err::<Decoder, DecodeError>(DecodeError::Read),
            data@.len() >= 4 && data@.subrange(0, 4) != spec_magic() ==> r == Err::<
                Decoder,
                DecodeError,
            >(DecodeError::NotAnRrd),
            data@.len() >= 4 && data@.len() < 8 && data@.subrange(0, 4) == spec_magic() ==> r
                == Err::<Decoder, DecodeError>(DecodeError::Read),
            data@.len() >= 8 && data@.subrange(0, 4) == spec_magic() ==> (r is Ok || r == Err::<
                Decoder,
                DecodeError,
            >(DecodeError::Decompression)),
            r matches Ok(d) ==> d.wf() && d.spec_pos() == 0 && data@.len() >= 8 && data@.subrange(
                0,
                4,
            ) == spec_magic() && d.spec_version() == CrateVersion::spec_effective(
                data@.subrange(4, 8),
            ) && d.spec_compat() == d.spec_version().spec_compatible(CrateVersion::spec_local()),
            forall|body: Seq<u8>|
                (data@.len() >= 8 && data@.subrange(0, 4) == spec_magic() && data@.subrange(
                    8,
                    data@.len() as int,
                ) == zstd_frame_of(body)) ==> (r matches Ok(d) && d.spec_body() == body),
    {
        if data.len() < 4 {
            return Err(DecodeError::Read);
        }
        let m0 = *slice_index_get(data, 0);
        let m1 = *slice_index_get(data, 1);
        let m2 = *slice_index_get(data, 2);
        let m3 = *slice_index_get(data, 3);
        proof {
            let mg = data@.subrange(0, 4);
            assert(mg[0] == data@[0] && mg[1] == data@[1] && mg[2] == data@[2] && mg[3]
                == data@[3]);
            assert(spec_magic()[0] == 82 && spec_magic()[1] == 82 && spec_magic()[2] == 70
                && spec_magic()[3] == 48);
        }
        if !(m0 == 82 && m1 == 82 && m2 == 70 && m3 == 48) {
            return Err(DecodeError::NotAnRrd);
        }
        proof {
            assert(data@.subrange(0, 4) =~= spec_magic());
        }
        if data.len() < 8 {
            return Err(DecodeError::Read);
        }
        let vb = [
            *slice_index_get(data, 4),
            *slice_index_get(data, 5),
            *slice_index_get(data, 6),
            *slice_index_get(data, 7),
        ];
        proof {
            assert(vb@ =~= data@.subrange(4, 8));
        }
        let version = CrateVersion::effective_from_bytes(&vb);
        let compatible = crate::version::warn_on_version_mismatch(&vb).is_none();
        let compressed = slice_subrange(data, 8, data.len());
        let decompressed = if portable {
            zstd_decompress_portable(compressed)
        } else {
            zstd_decompress(compressed)
        };
        match decompressed {
            Ok(body) => Ok(Decoder { body, pos: 0, version, compatible }),
            Err(e) => Err(e),
        }
    }

    /// Opens a stream with the full-featured decompression backend.
    pub fn new(data: &[u8]) -> (r: Result<Decoder, DecodeError>)
        ensures
            data@.len() < 4 ==> r == Err::<Decoder, DecodeError>(DecodeError::Read),
            data@.len() >= 4 && data@.subrange(0, 4) != spec_magic() ==> r == Err::<
                Decoder,
                DecodeError,
            >(DecodeError::NotAnRrd),
            data@.len() >= 4 && data@.len() < 8 && data@.subrange(0, 4) == spec_magic() ==> r
                == Err::<Decoder, DecodeError>(DecodeError::Read),
            data@.len() >= 8 && data@.subrange(0, 4) == spec_magic() ==> (r is Ok || r == Err::<
                Decoder,
                DecodeError,
            >(DecodeError::Decompression)),
            r matches Ok(d) ==> d.wf() && d.spec_pos() == 0 && data@.len() >= 8 && data@.subrange(
                0,
                4,
            ) == spec_magic() && d.spec_version() == CrateVersion::spec_effective(
                data@.subrange(4, 8),
            ) && d.spec_compat() == d.spec_version().spec_compatible(CrateVersion::spec_local()),
            forall|body: Seq<u8>|
                (data@.len() >= 8 && data@.subrange(0, 4) == spec_magic() && data@.subrange(
                    8,
                    data@.len() as int,
                ) == zstd_frame_of(body)) ==> (r matches Ok(d) && d.spec_body() == body),
    {
        Decoder::open_with(data, false)
    }

    /// Opens a stream with the portable, pure-logic decompression backend.
    /// Both backends consume byte-identical streams, so which one is in
    /// use does not affect format compatibility.
    pub fn new_portable(data: &[u8]) -> (r: Result<Decoder, DecodeError>)
        ensures
            data@.len() < 4 ==> r == Err::<Decoder, DecodeError>(DecodeError::Read),
            data@.len() >= 4 && data@.subrange(0, 4) != spec_magic() ==> r == Err::<
                Decoder,
                DecodeError,
            >(DecodeError::NotAnRrd),
            data@.len() >= 4 && data@.len() < 8 && data@.subrange(0, 4) == spec_magic() ==> r
                == Err::<Decoder, DecodeError>(DecodeError::Read),
            data@.len() >= 8 && data@.subrange(0, 4) == spec_magic() ==> (r is Ok || r == Err::<
                Decoder,
                DecodeError,
            >(DecodeError::Decompression)),
            r matches Ok(d) ==> d.wf() && d.spec_pos() == 0 && data@.len() >= 8 && data@.subrange(
                0,
                4,
            ) == spec_magic() && d.spec_version() == CrateVersion::spec_effective(
                data@.subrange(4, 8),
            ) && d.spec_compat() == d.spec_version().spec_compatible(CrateVersion::spec_local()),
            forall|body: Seq<u8>|
                (data@.len() >= 8 && data@.subrange(0, 4) == spec_magic() && data@.subrange(
                    8,
                    data@.len() as int,
                ) == zstd_frame_of(body)) ==> (r matches Ok(d) && d.spec_body() == body),
    {
        Decoder::open_with(data, true)
    }

    /// The stream's version, with the legacy sentinel resolved.
    pub fn version(&self) -> (r: CrateVersion)
        ensures
            r == self.spec_version(),
    {
        self.version
    }

    /// Whether the stream's version is compatible with the local one. A
    /// `false` here is a diagnostic only; decoding proceeds regardless.
    pub fn version_compatible(&self) -> (r: bool)
        ensures
            r == self.spec_compat(),
    {
        self.compatible
    }

    /// Pulls the next message: reads one frame's length, then its payload,
    /// then deserializes. Returns `None` at the end of the stream; after an
    /// error the decoder is exhausted, so every further pull yields `None`.
    pub fn next(&mut self) -> (r: Option<Result<LogMsg, DecodeError>>)
        requires
            old(self).wf(),
        ensures
            final(self).wf(),
            final(self).spec_body() == old(self).spec_body(),
            final(self).spec_version() == old(self).spec_version(),
            final(self).spec_compat() == old(self).spec_compat(),
            next_spec(old(self).spec_body(), old(self).spec_pos(), r, final(self).spec_pos()),
    {
        let len = self.body.len();
        if len < 8 || self.pos > len - 8 {
            return None;
        }
        let (n, j) = match read_u64(self.body.as_slice(), self.pos) {
            Some(p) => p,
            None => {
                proof {
                    assert(false);
                }
                return None;
            },
        };
        if n > (len - j) as u64 {
            self.pos = len;
            return Some(Err(DecodeError::Decompression));
        }
        let nn = n as usize;
        let payload = slice_subrange(self.body.as_slice(), j, j + nn);
        match decode_msg(payload) {
            Some(m) => {
                self.pos = j + nn;
                Some(Ok(m))
            },
            None => {
                self.pos = len;
                Some(Err(DecodeError::Deserialization))
            },
        }
    }
}

/// Joins already-decoded messages with the outcome of decoding the rest of
/// the body; used to state the loop invariant of `decode_all`.
pub open spec fn decode_join(
    done: Seq<LogMsgView>,
    body: Seq<u8>,
    i: int,
) -> Result<Seq<LogMsgView>, DecodeError> {
    match spec_decode_frames(body, i) {
        Ok(rest) => Ok(done + rest),
        Err(e) => Err(e),
    }
}

/// Decodes a whole stream eagerly. On any stream that `encode` produced,
/// returns exactly the encoded messages (the round-trip law, executable
/// form); header errors are as in `Decoder::new`.
pub fn decode_all(data: &[u8]) -> (r: Result<Vec<LogMsg>, DecodeError>)
    ensures
        data@.len() < 4 ==> r == Err::<Vec<LogMsg>, DecodeError>(DecodeError::Read),
        data@.len() >= 4 && data@.subrange(0, 4) != spec_magic() ==> r == Err::<
            Vec<LogMsg>,
            DecodeError,
        >(DecodeError::NotAnRrd),
        data@.len() >= 4 && data@.len() < 8 && data@.subrange(0, 4) == spec_magic() ==> r == Err::<
            Vec<LogMsg>,
            DecodeError,
        >(DecodeError::Read),
        data@.len() >= 8 && data@.subrange(0, 4) == spec_magic() ==> (r is Ok || r == Err::<
            Vec<LogMsg>,
            DecodeError,
        >(DecodeError::Decompression) || r == Err::<Vec<LogMsg>, DecodeError>(
            DecodeError::Deserialization,
        )),
        forall|msgs: Seq<LogMsgView>|
            msgs_wf(msgs) && data@ == spec_encode_stream(msgs) ==> (r matches Ok(v) && msgs_view(
                v@,
            ) == msgs),
{
    proof {
        assert forall|msgs: Seq<LogMsgView>|
            msgs_wf(msgs) && data@ == spec_encode_stream(msgs) implies data@.len() >= 8
            && data@.subrange(0, 4) == spec_magic() && data@.subrange(8, data@.len() as int)
            == zstd_frame_of(spec_frames(msgs)) by {
            assert(data@.subrange(0, 4) =~= spec_magic());
            assert(data@.subrange(8, data@.len() as int) =~= zstd_frame_of(spec_frames(msgs)));
        }
    }
    let mut dec = match Decoder::new(data) {
        Ok(d) => d,
        Err(e) => {
            return Err(e);
        },
    };
    let ghost body0 = dec.spec_body();
    proof {
        assert forall|msgs: Seq<LogMsgView>|
            msgs_wf(msgs) && data@ == spec_encode_stream(msgs) implies body0 == spec_frames(
            msgs,
        ) by {
            assert(data@.subrange(8, data@.len() as int) == zstd_frame_of(spec_frames(msgs)));
        }
    }
    let mut out: Vec<LogMsg> = Vec::new();
    loop
        invariant
            dec.wf(),
            dec.spec_body() == body0,
            data@.len() >= 8,
            data@.subrange(0, 4) == spec_magic(),
            decode_join(msgs_view(out@), body0, dec.spec_pos()) == spec_decode_frames(body0, 0),
            forall|msgs: Seq<LogMsgView>|
                msgs_wf(msgs) && data@ == spec_encode_stream(msgs) ==> body0 == spec_frames(msgs),
        decreases body0.len() - dec.spec_pos(),
    {
        let ghost oldpos = dec.spec_pos();
        match dec.next() {
            None => {
                proof {
                    assert(spec_decode_frames(body0, oldpos) == Ok::<
                        Seq<LogMsgView>,
                        DecodeError,
                    >(Seq::empty()));
                    assert(msgs_view(out@) + Seq::<LogMsgView>::empty() =~= msgs_view(out@));
                    assert forall|msgs: Seq<LogMsgView>|
                        msgs_wf(msgs) && data@ == spec_encode_stream(msgs) implies msgs_view(out@)
                        == msgs by {
                        lemma_round_trip(msgs);
                    }
                }
                return Ok(out);
            },
            Some(res) => match res {
                Ok(m) => {
                    proof {
                        let n = frame_len_at(body0, oldpos);
                        let stepped = spec_decode_frames(body0, oldpos + 8 + n);
                        if let Ok(rest) = stepped {
                            assert(msgs_view(out@.push(m)) =~= msgs_view(out@).push(m@));
                            assert(msgs_view(out@).push(m@) + rest =~= msgs_view(out@) + (seq![m@]
                                + rest));
                        }
                    }
                    out.push(m);
                },
                Err(e) => {
                    proof {
                        assert(spec_decode_frames(body0, 0) == Err::<
                            Seq<LogMsgView>,
                            DecodeError,
                        >(e));
                        assert forall|msgs: Seq<LogMsgView>|
                            msgs_wf(msgs) && data@ == spec_encode_stream(msgs) implies false by {
                            lemma_round_trip(msgs);
                        }
                    }
                    return Err(e);
                },
            },
        }
    }
}

} // verus!
