//! Byte-level primitives of the wire format.
//!
//! Every value a message is built from — fixed-width integers, booleans,
//! strings and raw byte blobs — has a deterministic little-endian encoding
//! defined here as a spec function, an executable writer that appends the
//! encoding to a buffer, an executable reader that mirrors the spec parser
//! exactly, and a proof that parsing inverts encoding.
//!
//! Strings are encoded as a character count followed by each character's
//! Unicode scalar value as four little-endian bytes; parsing rejects any
//! four-byte group that is not a scalar value, so decoding is total and
//! deterministic over arbitrary input.

use vstd::bytes::*;
use vstd::prelude::*;
use vstd::slice::{slice_index_get, slice_subrange, slice_to_vec};
use vstd::utf8::{char_is_scalar, char_u32_cast, is_scalar};

verus! {

// ------------------------------------------------------------------
// Spec-level encoders.
// ------------------------------------------------------------------
pub open spec fn enc_u8(x: u8) -> Seq<u8> {
    seq![x]
}

pub open spec fn enc_bool(b: bool) -> Seq<u8> {
    if b {
        seq![1u8]
    } else {
        seq![0u8]
    }
}

pub open spec fn enc_u32(x: u32) -> Seq<u8> {
    spec_u32_to_le_bytes(x)
}

pub open spec fn enc_u64(x: u64) -> Seq<u8> {
    spec_u64_to_le_bytes(x)
}

pub open spec fn enc_u128(x: u128) -> Seq<u8> {
    spec_u128_to_le_bytes(x)
}

pub open spec fn enc_i64(x: i64) -> Seq<u8> {
    enc_u64(x as u64)
}

pub open spec fn enc_chars(s: Seq<char>) -> Seq<u8>
    decreases s.len(),
{
    if s.len() == 0 {
        Seq::empty()
    } else {
        enc_u32(s[0] as u32) + enc_chars(s.drop_first())
    }
}

pub open spec fn enc_str(s: Seq<char>) -> Seq<u8> {
    enc_u64(s.len() as u64) + enc_chars(s)
}

pub open spec fn enc_bytes(b: Seq<u8>) -> Seq<u8> {
    enc_u64(b.len() as u64) + b
}

// ------------------------------------------------------------------
// Spec-level parsers. Each takes the whole input and a position, and
// returns the parsed value with the position just past it, or `None`.
// ------------------------------------------------------------------
pub open spec fn parse_u8(s: Seq<u8>, i: int) -> Option<(u8, int)> {
    if 0 <= i && i + 1 <= s.len() {
        Some((s[i], i + 1))
    } else {
        None
    }
}

pub open spec fn parse_bool(s: Seq<u8>, i: int) -> Option<(bool, int)> {
    match parse_u8(s, i) {
        Some((x, j)) => if x == 0 {
            Some((false, j))
        } else if x == 1 {
            Some((true, j))
        } else {
            None
        },
        None => None,
    }
}

pub open spec fn parse_u32(s: Seq<u8>, i: int) -> Option<(u32, int)> {
    if 0 <= i && i + 4 <= s.len() {
        Some((spec_u32_from_le_bytes(s.subrange(i, i + 4)), i + 4))
    } else {
        None
    }
}

pub open spec fn parse_u64(s: Seq<u8>, i: int) -> Option<(u64, int)> {
    if 0 <= i && i + 8 <= s.len() {
        Some((spec_u64_from_le_bytes(s.subrange(i, i + 8)), i + 8))
    } else {
        None
    }
}

pub open spec fn parse_u128(s: Seq<u8>, i: int) -> Option<(u128, int)> {
    if 0 <= i && i + 16 <= s.len() {
        Some((spec_u128_from_le_bytes(s.subrange(i, i + 16)), i + 16))
    } else {
        None
    }
}

pub open spec fn parse_i64(s: Seq<u8>, i: int) -> Option<(i64, int)> {
    match parse_u64(s, i) {
        Some((x, j)) => Some((x as i64, j)),
        None => None,
    }
}

pub open spec fn parse_char(s: Seq<u8>, i: int) -> Option<(char, int)> {
    match parse_u32(s, i) {
        Some((x, j)) => if is_scalar(x) {
            Some((x as char, j))
        } else {
            None
        },
        None => None,
    }
}

pub open spec fn parse_chars(s: Seq<u8>, i: int, n: nat) -> Option<(Seq<char>, int)>
    decreases n,
{
    if n == 0 {
        Some((Seq::empty(), i))
    } else {
        match parse_char(s, i) {
            Some((c, j)) => match parse_chars(s, j, (n - 1) as nat) {
                Some((cs, k)) => Some((seq![c] + cs, k)),
                None => None,
            },
            None => None,
        }
    }
}

pub open spec fn parse_str(s: Seq<u8>, i: int) -> Option<(Seq<char>, int)> {
    match parse_u64(s, i) {
        Some((n, j)) => parse_chars(s, j, n as nat),
        None => None,
    }
}

pub open spec fn parse_bytes(s: Seq<u8>, i: int) -> Option<(Seq<u8>, int)> {
    match parse_u64(s, i) {
        Some((n, j)) => if j + n <= s.len() {
            Some((s.subrange(j, j + n), j + n))
        } else {
            None
        },
        None => None,
    }
}

// ------------------------------------------------------------------
// Length facts about the encoders.
// ------------------------------------------------------------------
pub proof fn lemma_fixed_lens()
    ensures
        forall|x: u8| (#[trigger] enc_u8(x)).len() == 1,
        forall|b: bool| (#[trigger] enc_bool(b)).len() == 1,
        forall|x: u32| (#[trigger] enc_u32(x)).len() == 4,
        forall|x: u64| (#[trigger] enc_u64(x)).len() == 8,
        forall|x: u128| (#[trigger] enc_u128(x)).len() == 16,
        forall|x: i64| (#[trigger] enc_i64(x)).len() == 8,
{
    lemma_auto_spec_u32_to_from_le_bytes();
    lemma_auto_spec_u64_to_from_le_bytes();
    lemma_auto_spec_u128_to_from_le_bytes();
    assert forall|x: u32| (#[trigger] enc_u32(x)).len() == 4 by {
        assert(spec_u32_to_le_bytes(x).len() == 4);
    }
    assert forall|x: u64| (#[trigger] enc_u64(x)).len() == 8 by {
        assert(spec_u64_to_le_bytes(x).len() == 8);
    }
    assert forall|x: u128| (#[trigger] enc_u128(x)).len() == 16 by {
        assert(spec_u128_to_le_bytes(x).len() == 16);
    }
    assert forall|x: i64| (#[trigger] enc_i64(x)).len() == 8 by {
        assert(spec_u64_to_le_bytes(x as u64).len() == 8);
    }
}

pub proof fn lemma_enc_str_len(s: Seq<char>)
    ensures
        enc_str(s).len() == 8 + 4 * s.len(),
{
    lemma_fixed_lens();
    lemma_enc_chars_len(s);
}

pub proof fn lemma_enc_bytes_len(b: Seq<u8>)
    ensures
        enc_bytes(b).len() == 8 + b.len(),
{
    lemma_fixed_lens();
}

// ------------------------------------------------------------------
// Round-trip lemmas: parsing at a position whose bytes are an encoding
// yields the encoded value and stops just past it.
// ------------------------------------------------------------------
pub proof fn lemma_parse_u8(s: Seq<u8>, i: int, x: u8)
    requires
        0 <= i,
        i + 1 <= s.len(),
        s.subrange(i, i + 1) == enc_u8(x),
    ensures
        parse_u8(s, i) == Some((x, i + 1)),
{
    assert(s[i] == s.subrange(i, i + 1)[0]);
}

pub proof fn lemma_parse_bool(s: Seq<u8>, i: int, b: bool)
    requires
        0 <= i,
        i + 1 <= s.len(),
        s.subrange(i, i + 1) == enc_bool(b),
    ensures
        parse_bool(s, i) == Some((b, i + 1)),
{
    if b {
        lemma_parse_u8(s, i, 1u8);
    } else {
        lemma_parse_u8(s, i, 0u8);
    }
}

pub proof fn lemma_parse_u32(s: Seq<u8>, i: int, x: u32)
    requires
        0 <= i,
        i + 4 <= s.len(),
        s.subrange(i, i + 4) == enc_u32(x),
    ensures
        parse_u32(s, i) == Some((x, i + 4)),
{
    lemma_auto_spec_u32_to_from_le_bytes();
    assert(spec_u32_to_le_bytes(x).len() == 4);
}

pub proof fn lemma_parse_u64(s: Seq<u8>, i: int, x: u64)
    requires
        0 <= i,
        i + 8 <= s.len(),
        s.subrange(i, i + 8) == enc_u64(x),
    ensures
        parse_u64(s, i) == Some((x, i + 8)),
{
    lemma_auto_spec_u64_to_from_le_bytes();
    assert(spec_u64_to_le_bytes(x).len() == 8);
}

pub proof fn lemma_parse_u128(s: Seq<u8>, i: int, x: u128)
    requires
        0 <= i,
        i + 16 <= s.len(),
        s.subrange(i, i + 16) == enc_u128(x),
    ensures
        parse_u128(s, i) == Some((x, i + 16)),
{
    lemma_auto_spec_u128_to_from_le_bytes();
    assert(spec_u128_to_le_bytes(x).len() == 16);
}

pub proof fn lemma_parse_i64(s: Seq<u8>, i: int, x: i64)
    requires
        0 <= i,
        i + 8 <= s.len(),
        s.subrange(i, i + 8) == enc_i64(x),
    ensures
        parse_i64(s, i) == Some((x, i + 8)),
{
    lemma_parse_u64(s, i, x as u64);
    assert((x as u64) as i64 == x) by (bit_vector);
}

pub proof fn lemma_enc_chars_len(s: Seq<char>)
    ensures
        enc_chars(s).len() == 4 * s.len(),
    decreases s.len(),
{
    lemma_auto_spec_u32_to_from_le_bytes();
    if s.len() > 0 {
        assert(spec_u32_to_le_bytes(s[0] as u32).len() == 4);
        lemma_enc_chars_len(s.drop_first());
    }
}

/// Appending one character appends its four bytes.
pub proof fn lemma_enc_chars_push(s: Seq<char>, c: char)
    ensures
        enc_chars(s.push(c)) == enc_chars(s) + enc_u32(c as u32),
    decreases s.len(),
{
    reveal_with_fuel(enc_chars, 3);
    lemma_auto_spec_u32_to_from_le_bytes();
    assert(spec_u32_to_le_bytes(c as u32).len() == 4);
    if s.len() == 0 {
        assert(s.push(c)[0] == c);
        assert(s.push(c).drop_first() =~= Seq::<char>::empty());
        assert(enc_chars(s.push(c)) =~= enc_chars(s) + enc_u32(c as u32));
    } else {
        assert(s.push(c).drop_first() =~= s.drop_first().push(c));
        lemma_enc_chars_push(s.drop_first(), c);
        assert(spec_u32_to_le_bytes(s[0] as u32).len() == 4);
        assert(s.push(c)[0] == s[0]);
        assert(enc_chars(s.push(c)) == enc_u32(s[0] as u32) + enc_chars(s.drop_first().push(c)));
        assert(enc_chars(s.push(c)) == enc_u32(s[0] as u32) + (enc_chars(s.drop_first()) + enc_u32(
            c as u32,
        )));
        assert(enc_chars(s) == enc_u32(s[0] as u32) + enc_chars(s.drop_first()));
        assert(enc_chars(s.push(c)) =~= enc_chars(s) + enc_u32(c as u32));
    }
}

pub proof fn lemma_parse_char(s: Seq<u8>, i: int, c: char)
    requires
        0 <= i,
        i + 4 <= s.len(),
        s.subrange(i, i + 4) == enc_u32(c as u32),
    ensures
        parse_char(s, i) == Some((c, i + 4)),
{
    lemma_parse_u32(s, i, c as u32);
    char_is_scalar(c);
    char_u32_cast(c, c as u32);
}

pub proof fn lemma_parse_chars(s: Seq<u8>, i: int, cs: Seq<char>)
    requires
        0 <= i,
        i + 4 * cs.len() <= s.len(),
        s.subrange(i, i + 4 * cs.len()) == enc_chars(cs),
    ensures
        parse_chars(s, i, cs.len()) == Some((cs, i + 4 * cs.len())),
    decreases cs.len(),
{
    if cs.len() == 0 {
    } else {
        lemma_auto_spec_u32_to_from_le_bytes();
        assert(spec_u32_to_le_bytes(cs[0] as u32).len() == 4);
        lemma_enc_chars_len(cs.drop_first());
        assert(s.subrange(i, i + 4) =~= enc_chars(cs).subrange(0, 4));
        assert(enc_chars(cs).subrange(0, 4) =~= enc_u32(cs[0] as u32));
        lemma_parse_char(s, i, cs[0]);
        assert(s.subrange(i + 4, i + 4 * cs.len()) =~= enc_chars(cs).subrange(
            4,
            enc_chars(cs).len() as int,
        ));
        assert(enc_chars(cs).subrange(4, enc_chars(cs).len() as int) =~= enc_chars(
            cs.drop_first(),
        ));
        lemma_parse_chars(s, i + 4, cs.drop_first());
        assert(seq![cs[0]] + cs.drop_first() =~= cs);
    }
}

pub proof fn lemma_parse_str(s: Seq<u8>, i: int, cs: Seq<char>)
    requires
        0 <= i,
        cs.len() <= u64::MAX,
        i + 8 + 4 * cs.len() <= s.len(),
        s.subrange(i, i + 8 + 4 * cs.len()) == enc_str(cs),
    ensures
        parse_str(s, i) == Some((cs, i + 8 + 4 * cs.len())),
{
    lemma_enc_chars_len(cs);
    assert(s.subrange(i, i + 8) =~= enc_str(cs).subrange(0, 8));
    assert(enc_str(cs).subrange(0, 8) =~= enc_u64(cs.len() as u64));
    lemma_parse_u64(s, i, cs.len() as u64);
    assert(s.subrange(i + 8, i + 8 + 4 * cs.len()) =~= enc_str(cs).subrange(
        8,
        enc_str(cs).len() as int,
    ));
    assert(enc_str(cs).subrange(8, enc_str(cs).len() as int) =~= enc_chars(cs));
    lemma_parse_chars(s, i + 8, cs);
}

pub proof fn lemma_parse_bytes(s: Seq<u8>, i: int, b: Seq<u8>)
    requires
        0 <= i,
        b.len() <= u64::MAX,
        i + 8 + b.len() <= s.len(),
        s.subrange(i, i + 8 + b.len()) == enc_bytes(b),
    ensures
        parse_bytes(s, i) == Some((b, i + 8 + b.len())),
{
    assert(s.subrange(i, i + 8) =~= enc_bytes(b).subrange(0, 8));
    assert(enc_bytes(b).subrange(0, 8) =~= enc_u64(b.len() as u64));
    lemma_parse_u64(s, i, b.len() as u64);
    assert(s.subrange(i + 8, i + 8 + b.len()) =~= enc_bytes(b).subrange(
        8,
        enc_bytes(b).len() as int,
    ));
    assert(enc_bytes(b).subrange(8, enc_bytes(b).len() as int) =~= b);
}

// ------------------------------------------------------------------
// Executable writers: each appends the spec encoding to `out`.
// ------------------------------------------------------------------
pub fn write_u8(out: &mut Vec<u8>, x: u8)
    ensures
        final(out)@ == old(out)@ + enc_u8(x),
{
    out.push(x);
    proof {
        assert(out@ =~= old(out)@ + enc_u8(x));
    }
}

pub fn write_bool(out: &mut Vec<u8>, b: bool)
    ensures
        final(out)@ == old(out)@ + enc_bool(b),
{
    write_u8(out, if b { 1 } else { 0 });
}

pub fn write_u32(out: &mut Vec<u8>, x: u32)
    ensures
        final(out)@ == old(out)@ + enc_u32(x),
{
    let mut b = u32_to_le_bytes(x);
    out.append(&mut b);
}

pub fn write_u64(out: &mut Vec<u8>, x: u64)
    ensures
        final(out)@ == old(out)@ + enc_u64(x),
{
    let mut b = u64_to_le_bytes(x);
    out.append(&mut b);
}

pub fn write_u128(out: &mut Vec<u8>, x: u128)
    ensures
        final(out)@ == old(out)@ + enc_u128(x),
{
    let mut b = u128_to_le_bytes(x);
    out.append(&mut b);
}

pub fn write_i64(out: &mut Vec<u8>, x: i64)
    ensures
        final(out)@ == old(out)@ + enc_i64(x),
{
    write_u64(out, x as u64);
}

/// Relies on `String::push`: appends one character to the string.
#[verifier::external_body]
fn push_char(s: &mut String, c: char)
    ensures
        final(s)@ == old(s)@.push(c),
{
    s.push(c);
}

pub fn write_str(out: &mut Vec<u8>, s: &str)
    ensures
        final(out)@ == old(out)@ + enc_str(s@),
        s@.len() <= u64::MAX,
{
    let n = s.unicode_len();
    write_u64(out, n as u64);
    let mut i: usize = 0;
    while i < n
        invariant
            n == s@.len(),
            i <= n,
            out@ == old(out)@ + enc_u64(n as u64) + enc_chars(s@.take(i as int)),
        decreases n - i,
    {
        let c = s.get_char(i);
        write_u32(out, c as u32);
        proof {
            lemma_enc_chars_push(s@.take(i as int), s@[i as int]);
            assert(s@.take(i as int).push(s@[i as int]) =~= s@.take(i + 1));
        }
        i += 1;
    }
    proof {
        assert(s@.take(n as int) =~= s@);
        assert(out@ =~= old(out)@ + enc_str(s@));
    }
}

pub fn write_bytes(out: &mut Vec<u8>, b: &Vec<u8>)
    ensures
        final(out)@ == old(out)@ + enc_bytes(b@),
        b@.len() <= u64::MAX,
{
    write_u64(out, b.len() as u64);
    let mut rest = b.clone();
    out.append(&mut rest);
    proof {
        assert(out@ =~= old(out)@ + enc_bytes(b@));
    }
}

// ------------------------------------------------------------------
// Executable readers: each returns exactly what the spec parser does.
// ------------------------------------------------------------------
pub fn read_u8(s: &[u8], i: usize) -> (r: Option<(u8, usize)>)
    ensures
        r is Some <==> parse_u8(s@, i as int) is Some,
        r matches Some(p) ==> parse_u8(s@, i as int) == Some((p.0, p.1 as int)),
{
    if i < s.len() {
        let x = *slice_index_get(s, i);
        Some((x, i + 1))
    } else {
        None
    }
}

pub fn read_bool(s: &[u8], i: usize) -> (r: Option<(bool, usize)>)
    ensures
        r is Some <==> parse_bool(s@, i as int) is Some,
        r matches Some(p) ==> parse_bool(s@, i as int) == Some((p.0, p.1 as int)),
{
    match read_u8(s, i) {
        Some((x, j)) => if x == 0 {
            Some((false, j))
        } else if x == 1 {
            Some((true, j))
        } else {
            None
        },
        None => None,
    }
}

pub fn read_u32(s: &[u8], i: usize) -> (r: Option<(u32, usize)>)
    ensures
        r is Some <==> parse_u32(s@, i as int) is Some,
        r matches Some(p) ==> parse_u32(s@, i as int) == Some((p.0, p.1 as int)),
{
    if s.len() >= 4 && i <= s.len() - 4 {
        let b = slice_subrange(s, i, i + 4);
        let x = u32_from_le_bytes(b);
        Some((x, i + 4))
    } else {
        None
    }
}

pub fn read_u64(s: &[u8], i: usize) -> (r: Option<(u64, usize)>)
    ensures
        r is Some <==> parse_u64(s@, i as int) is Some,
        r matches Some(p) ==> parse_u64(s@, i as int) == Some((p.0, p.1 as int)),
{
    if s.len() >= 8 && i <= s.len() - 8 {
        let b = slice_subrange(s, i, i + 8);
        let x = u64_from_le_bytes(b);
        Some((x, i + 8))
    } else {
        None
    }
}

pub fn read_u128(s: &[u8], i: usize) -> (r: Option<(u128, usize)>)
    ensures
        r is Some <==> parse_u128(s@, i as int) is Some,
        r matches Some(p) ==> parse_u128(s@, i as int) == Some((p.0, p.1 as int)),
{
    if s.len() >= 16 && i <= s.len() - 16 {
        let b = slice_subrange(s, i, i + 16);
        let x = u128_from_le_bytes(b);
        Some((x, i + 16))
    } else {
        None
    }
}

pub fn read_i64(s: &[u8], i: usize) -> (r: Option<(i64, usize)>)
    ensures
        r is Some <==> parse_i64(s@, i as int) is Some,
        r matches Some(p) ==> parse_i64(s@, i as int) == Some((p.0, p.1 as int)),
{
    match read_u64(s, i) {
        Some((x, j)) => Some((x as i64, j)),
        None => None,
    }
}

/// Relies on `char::from_u32`: returns the character with the given scalar
/// value exactly when the value is a Unicode scalar value.
pub assume_specification [ char::from_u32 ](i: u32) -> (r: Option<char>)
    ensures
        r is Some <==> is_scalar(i),
        r matches Some(c) ==> c as u32 == i,
;

pub fn read_char(s: &[u8], i: usize) -> (r: Option<(char, usize)>)
    ensures
        r is Some <==> parse_char(s@, i as int) is Some,
        r matches Some(p) ==> parse_char(s@, i as int) == Some((p.0, p.1 as int)),
{
    match read_u32(s, i) {
        Some((x, j)) => match char::from_u32(x) {
            Some(c) => {
                proof {
                    char_u32_cast(c, x);
                }
                Some((c, j))
            },
            None => None,
        },
        None => None,
    }
}

/// Joins an already-parsed prefix with the outcome of parsing `n` more
/// characters; used to state the loop invariant of `read_str`.
pub open spec fn parse_chars_join(prefix: Seq<char>, s: Seq<u8>, i: int, n: nat) -> Option<
    (Seq<char>, int),
> {
    match parse_chars(s, i, n) {
        Some((cs, k)) => Some((prefix + cs, k)),
        None => None,
    }
}

pub fn read_str(s: &[u8], i: usize) -> (r: Option<(String, usize)>)
    ensures
        r is Some <==> parse_str(s@, i as int) is Some,
        r matches Some(p) ==> parse_str(s@, i as int) == Some((p.0@, p.1 as int)),
{
    let (n, start) = match read_u64(s, i) {
        Some(p) => p,
        None => {
            return None;
        },
    };
    let mut acc = String::new();
    let mut pos: usize = start;
    let mut k: u64 = 0;
    while k < n
        invariant
            k <= n,
            pos <= s@.len(),
            parse_str(s@, i as int) == parse_chars_join(acc@, s@, pos as int, (n - k) as nat),
        decreases n - k,
    {
        match read_char(s, pos) {
            Some((c, next)) => {
                proof {
                    let stepped = parse_chars(s@, next as int, (n - k - 1) as nat);
                    if let Some((cs, e)) = stepped {
                        assert(acc@.push(c) + cs =~= acc@ + (seq![c] + cs));
                    }
                }
                push_char(&mut acc, c);
                pos = next;
            },
            None => {
                return None;
            },
        }
        k += 1;
    }
    Some((acc, pos))
}

pub fn read_bytes(s: &[u8], i: usize) -> (r: Option<(Vec<u8>, usize)>)
    ensures
        r is Some <==> parse_bytes(s@, i as int) is Some,
        r matches Some(p) ==> parse_bytes(s@, i as int) == Some((p.0@, p.1 as int)),
{
    let (n, start) = match read_u64(s, i) {
        Some(p) => p,
        None => {
            return None;
        },
    };
    if n <= (s.len() - start) as u64 {
        let len = n as usize;
        let b = slice_to_vec(slice_subrange(s, start, start + len));
        Some((b, start + len))
    } else {
        None
    }
}

} // verus!
