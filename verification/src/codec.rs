//! Deterministic binary encoding of the vault payload.
//!
//! Every value has exactly one encoding; integers are little-endian, strings
//! are a 64-bit byte length followed by UTF-8 bytes, lists are a 64-bit count
//! followed by the elements in order. The spec-level parser
//! [`parse_payload`] is proved to invert the spec-level encoder
//! [`enc_payload`], and the executable functions are proved to match both.

use vstd::prelude::*;

use crate::error::VaulturaError;
use crate::models::{
    Group, GroupView, HistoryEntryView, Item, ItemView, PasswordHistoryEntry,
    PayloadView, VaultMeta, VaultPayload,
};
use vstd::utf8::{decode_utf8, encode_utf8, valid_utf8};

verus! {

// ---------------------------------------------------------------------------
// Spec-level encoders for the primitives
// ---------------------------------------------------------------------------
pub open spec fn le32(n: u32) -> Seq<u8> {
    seq![
        (n & 0xff) as u8,
        ((n >> 8) & 0xff) as u8,
        ((n >> 16) & 0xff) as u8,
        ((n >> 24) & 0xff) as u8,
    ]
}

pub open spec fn le64(n: u64) -> Seq<u8> {
    seq![
        (n & 0xff) as u8,
        ((n >> 8) & 0xff) as u8,
        ((n >> 16) & 0xff) as u8,
        ((n >> 24) & 0xff) as u8,
        ((n >> 32) & 0xff) as u8,
        ((n >> 40) & 0xff) as u8,
        ((n >> 48) & 0xff) as u8,
        ((n >> 56) & 0xff) as u8,
    ]
}

pub open spec fn le128(n: u128) -> Seq<u8> {
    le64((n & 0xffff_ffff_ffff_ffff) as u64) + le64((n >> 64) as u64)
}

pub open spec fn le_i64(n: i64) -> Seq<u8> {
    le64(n as u64)
}

pub open spec fn u32_from_le(b0: u8, b1: u8, b2: u8, b3: u8) -> u32 {
    (b0 as u32) | ((b1 as u32) << 8) | ((b2 as u32) << 16) | ((b3 as u32) << 24)
}

pub open spec fn u64_from_le(
    b0: u8,
    b1: u8,
    b2: u8,
    b3: u8,
    b4: u8,
    b5: u8,
    b6: u8,
    b7: u8,
) -> u64 {
    (b0 as u64) | ((b1 as u64) << 8) | ((b2 as u64) << 16) | ((b3 as u64) << 24) | ((b4 as u64)
        << 32) | ((b5 as u64) << 40) | ((b6 as u64) << 48) | ((b7 as u64) << 56)
}

// ---------------------------------------------------------------------------
// Spec-level parsers for the primitives
// ---------------------------------------------------------------------------
pub open spec fn parse_u32(s: Seq<u8>, i: int) -> Option<(u32, int)> {
    if 0 <= i && i + 4 <= s.len() {
        Some((u32_from_le(s[i], s[i + 1], s[i + 2], s[i + 3]), i + 4))
    } else {
        None
    }
}

pub open spec fn parse_u64(s: Seq<u8>, i: int) -> Option<(u64, int)> {
    if 0 <= i && i + 8 <= s.len() {
        Some(
            (
                u64_from_le(
                    s[i],
                    s[i + 1],
                    s[i + 2],
                    s[i + 3],
                    s[i + 4],
                    s[i + 5],
                    s[i + 6],
                    s[i + 7],
                ),
                i + 8,
            ),
        )
    } else {
        None
    }
}

pub open spec fn parse_u128(s: Seq<u8>, i: int) -> Option<(u128, int)> {
    match parse_u64(s, i) {
        Option::None => Option::None,
        Option::Some((lo, j)) => match parse_u64(s, j) {
            Option::None => Option::None,
            Option::Some((hi, k)) => Option::Some(
                (((lo as u128) | ((hi as u128) << 64)) as u128, k),
            ),
        },
    }
}

pub open spec fn parse_i64(s: Seq<u8>, i: int) -> Option<(i64, int)> {
    match parse_u64(s, i) {
        Option::None => Option::None,
        Option::Some((n, j)) => Option::Some((n as i64, j)),
    }
}

// ---------------------------------------------------------------------------
// Round-trip lemmas for the integer primitives
// ---------------------------------------------------------------------------
pub proof fn lemma_le32_round_trip(n: u32)
    ensures
        u32_from_le(
            (n & 0xff) as u8,
            ((n >> 8) & 0xff) as u8,
            ((n >> 16) & 0xff) as u8,
            ((n >> 24) & 0xff) as u8,
        ) == n,
{
    assert(((n & 0xff) as u8 as u32) | ((((n >> 8) & 0xff) as u8 as u32) << 8) | ((((n >> 16)
        & 0xff) as u8 as u32) << 16) | ((((n >> 24) & 0xff) as u8 as u32) << 24) == n)
        by (bit_vector);
}

pub proof fn lemma_le64_round_trip(n: u64)
    ensures
        u64_from_le(
            (n & 0xff) as u8,
            ((n >> 8) & 0xff) as u8,
            ((n >> 16) & 0xff) as u8,
            ((n >> 24) & 0xff) as u8,
            ((n >> 32) & 0xff) as u8,
            ((n >> 40) & 0xff) as u8,
            ((n >> 48) & 0xff) as u8,
            ((n >> 56) & 0xff) as u8,
        ) == n,
{
    assert(((n & 0xff) as u8 as u64) | ((((n >> 8) & 0xff) as u8 as u64) << 8) | ((((n >> 16)
        & 0xff) as u8 as u64) << 16) | ((((n >> 24) & 0xff) as u8 as u64) << 24) | ((((n >> 32)
        & 0xff) as u8 as u64) << 32) | ((((n >> 40) & 0xff) as u8 as u64) << 40) | ((((n >> 48)
        & 0xff) as u8 as u64) << 48) | ((((n >> 56) & 0xff) as u8 as u64) << 56) == n)
        by (bit_vector);
}

pub proof fn lemma_le128_round_trip(n: u128)
    ensures
        (((n & 0xffff_ffff_ffff_ffff) as u64 as u128) | (((n >> 64) as u64 as u128) << 64))
            == n,
{
    assert((((n & 0xffff_ffff_ffff_ffff) as u64 as u128) | (((n >> 64) as u64 as u128) << 64))
        == n) by (bit_vector);
}

pub proof fn lemma_i64_round_trip(n: i64)
    ensures
        (n as u64) as i64 == n,
{
    assert((n as u64) as i64 == n) by (bit_vector);
}

// ---------------------------------------------------------------------------
// Executable encoders for the primitives
// ---------------------------------------------------------------------------
pub fn write_u32(out: &mut Vec<u8>, n: u32)
    ensures
        final(out)@ == old(out)@ + le32(n),
{
    out.push((n & 0xff) as u8);
    out.push(((n >> 8) & 0xff) as u8);
    out.push(((n >> 16) & 0xff) as u8);
    out.push(((n >> 24) & 0xff) as u8);
    proof {
        assert(out@ =~= old(out)@ + le32(n));
    }
}

pub fn write_u64(out: &mut Vec<u8>, n: u64)
    ensures
        final(out)@ == old(out)@ + le64(n),
{
    out.push((n & 0xff) as u8);
    out.push(((n >> 8) & 0xff) as u8);
    out.push(((n >> 16) & 0xff) as u8);
    out.push(((n >> 24) & 0xff) as u8);
    out.push(((n >> 32) & 0xff) as u8);
    out.push(((n >> 40) & 0xff) as u8);
    out.push(((n >> 48) & 0xff) as u8);
    out.push(((n >> 56) & 0xff) as u8);
    proof {
        assert(out@ =~= old(out)@ + le64(n));
    }
}

pub fn write_u128(out: &mut Vec<u8>, n: u128)
    ensures
        final(out)@ == old(out)@ + le128(n),
{
    write_u64(out, (n & 0xffff_ffff_ffff_ffff) as u64);
    write_u64(out, (n >> 64) as u64);
    proof {
        assert(out@ =~= old(out)@ + le128(n));
    }
}

pub fn write_i64(out: &mut Vec<u8>, n: i64)
    ensures
        final(out)@ == old(out)@ + le_i64(n),
{
    write_u64(out, n as u64);
}

// ---------------------------------------------------------------------------
// Executable decoders for the primitives
// ---------------------------------------------------------------------------
pub fn read_u32(data: &Vec<u8>, pos: usize) -> (r: Option<(u32, usize)>)
    ensures
        match r {
            Option::Some((v, j)) => {
                &&& parse_u32(data@, pos as int) == Option::Some((v, j as int))
                &&& pos < j <= data@.len()
            },
            Option::None => parse_u32(data@, pos as int) is None,
        },
{
    if pos <= data.len() && data.len() - pos >= 4 {
        let b0 = data[pos];
        let b1 = data[pos + 1];
        let b2 = data[pos + 2];
        let b3 = data[pos + 3];
        let v = (b0 as u32) | ((b1 as u32) << 8) | ((b2 as u32) << 16) | ((b3 as u32) << 24);
        Some((v, pos + 4))
    } else {
        None
    }
}

pub fn read_u64(data: &Vec<u8>, pos: usize) -> (r: Option<(u64, usize)>)
    ensures
        match r {
            Option::Some((v, j)) => {
                &&& parse_u64(data@, pos as int) == Option::Some((v, j as int))
                &&& pos < j <= data@.len()
            },
            Option::None => parse_u64(data@, pos as int) is None,
        },
{
    if pos <= data.len() && data.len() - pos >= 8 {
        let b0 = data[pos];
        let b1 = data[pos + 1];
        let b2 = data[pos + 2];
        let b3 = data[pos + 3];
        let b4 = data[pos + 4];
        let b5 = data[pos + 5];
        let b6 = data[pos + 6];
        let b7 = data[pos + 7];
        let v = (b0 as u64) | ((b1 as u64) << 8) | ((b2 as u64) << 16) | ((b3 as u64) << 24) | ((
        b4 as u64) << 32) | ((b5 as u64) << 40) | ((b6 as u64) << 48) | ((b7 as u64) << 56);
        Some((v, pos + 8))
    } else {
        None
    }
}

pub fn read_u128(data: &Vec<u8>, pos: usize) -> (r: Option<(u128, usize)>)
    ensures
        match r {
            Option::Some((v, j)) => {
                &&& parse_u128(data@, pos as int) == Option::Some((v, j as int))
                &&& pos < j <= data@.len()
            },
            Option::None => parse_u128(data@, pos as int) is None,
        },
{
    match read_u64(data, pos) {
        Option::None => None,
        Option::Some((lo, j)) => match read_u64(data, j) {
            Option::None => None,
            Option::Some((hi, k)) => Some(((lo as u128) | ((hi as u128) << 64), k)),
        },
    }
}

pub fn read_i64(data: &Vec<u8>, pos: usize) -> (r: Option<(i64, usize)>)
    ensures
        match r {
            Option::Some((v, j)) => {
                &&& parse_i64(data@, pos as int) == Option::Some((v, j as int))
                &&& pos < j <= data@.len()
            },
            Option::None => parse_i64(data@, pos as int) is None,
        },
{
    match read_u64(data, pos) {
        Option::None => None,
        Option::Some((n, j)) => Some((n as i64, j)),
    }
}

// ---------------------------------------------------------------------------
// Byte buffers and strings
// ---------------------------------------------------------------------------
/// A byte buffer is encoded as its 64-bit length followed by its bytes.
/// Faithful only while the length fits in 64 bits, which [`encodable_bytes`]
/// captures.
pub open spec fn enc_bytes(b: Seq<u8>) -> Seq<u8> {
    le64(b.len() as u64) + b
}

pub open spec fn encodable_bytes(b: Seq<u8>) -> bool {
    b.len() <= u64::MAX
}

pub open spec fn parse_bytes(s: Seq<u8>, i: int) -> Option<(Seq<u8>, int)> {
    match parse_u64(s, i) {
        Option::None => Option::None,
        Option::Some((n, j)) => if j + n <= s.len() {
            Option::Some((s.subrange(j, j + n), j + n))
        } else {
            Option::None
        },
    }
}

/// A string is encoded as the byte buffer of its UTF-8 encoding.
pub open spec fn enc_str(t: Seq<char>) -> Seq<u8> {
    enc_bytes(encode_utf8(t))
}

pub open spec fn encodable_str(t: Seq<char>) -> bool {
    encodable_bytes(encode_utf8(t))
}

pub open spec fn parse_str(s: Seq<u8>, i: int) -> Option<(Seq<char>, int)> {
    match parse_bytes(s, i) {
        Option::None => Option::None,
        Option::Some((b, j)) => if valid_utf8(b) {
            Option::Some((decode_utf8(b), j))
        } else {
            Option::None
        },
    }
}

pub fn append_bytes(out: &mut Vec<u8>, b: &[u8])
    ensures
        final(out)@ == old(out)@ + b@,
{
    let mut k: usize = 0;
    while k < b.len()
        invariant
            k <= b@.len(),
            out@ == old(out)@ + b@.subrange(0, k as int),
        decreases b@.len() - k,
    {
        out.push(b[k]);
        proof {
            assert(out@ =~= old(out)@ + b@.subrange(0, k + 1 as int));
        }
        k += 1;
    }
    proof {
        assert(b@.subrange(0, b@.len() as int) =~= b@);
    }
}

pub fn write_bytes(out: &mut Vec<u8>, b: &[u8])
    ensures
        final(out)@ == old(out)@ + enc_bytes(b@),
        encodable_bytes(b@),
{
    write_u64(out, b.len() as u64);
    append_bytes(out, b);
    proof {
        assert(out@ =~= old(out)@ + enc_bytes(b@));
    }
}

pub fn write_str(out: &mut Vec<u8>, s: &str)
    ensures
        final(out)@ == old(out)@ + enc_str(s@),
        encodable_str(s@),
{
    write_bytes(out, s.as_bytes());
}

pub fn read_bytes(data: &Vec<u8>, pos: usize) -> (r: Option<(Vec<u8>, usize)>)
    ensures
        match r {
            Option::Some((v, j)) => {
                &&& parse_bytes(data@, pos as int) == Option::Some((v@, j as int))
                &&& pos < j <= data@.len()
            },
            Option::None => parse_bytes(data@, pos as int) is None,
        },
{
    match read_u64(data, pos) {
        Option::None => None,
        Option::Some((n, j)) => {
            if n <= (data.len() - j) as u64 {
                let len = n as usize;
                let mut v: Vec<u8> = Vec::new();
                let mut k: usize = 0;
                while k < len
                    invariant
                        k <= len,
                        j + len <= data@.len(),
                        data@.len() <= usize::MAX,
                        v@ == data@.subrange(j as int, j + k as int),
                    decreases len - k,
                {
                    v.push(data[j + k]);
                    proof {
                        assert(v@ =~= data@.subrange(j as int, j + (k + 1) as int));
                    }
                    k += 1;
                }
                Some((v, j + len))
            } else {
                None
            }
        },
    }
}

/// Relies on String::from_utf8: it succeeds exactly on valid UTF-8 input and
/// decodes it, as vstd's `valid_utf8` and `decode_utf8` state.
#[verifier::external_body]
fn bytes_to_string(bytes: Vec<u8>) -> (r: Option<String>)
    ensures
        r matches Some(s) ==> valid_utf8(bytes@) && s@ == decode_utf8(bytes@),
        r is None ==> !valid_utf8(bytes@),
{
    String::from_utf8(bytes).ok()
}

pub fn read_str(data: &Vec<u8>, pos: usize) -> (r: Option<(String, usize)>)
    ensures
        match r {
            Option::Some((v, j)) => {
                &&& parse_str(data@, pos as int) == Option::Some((v@, j as int))
                &&& pos < j <= data@.len()
            },
            Option::None => parse_str(data@, pos as int) is None,
        },
{
    match read_bytes(data, pos) {
        Option::None => None,
        Option::Some((b, j)) => {
            let ghost bview = b@;
            match bytes_to_string(b) {
                Option::None => None,
                Option::Some(s) => Some((s, j)),
            }
        },
    }
}

// ---------------------------------------------------------------------------
// Optional identifiers
// ---------------------------------------------------------------------------
pub open spec fn enc_opt_id(o: Option<u128>) -> Seq<u8> {
    match o {
        Option::None => seq![0u8],
        Option::Some(v) => seq![1u8] + le128(v),
    }
}

pub open spec fn parse_opt_id(s: Seq<u8>, i: int) -> Option<(Option<u128>, int)> {
    if 0 <= i && i + 1 <= s.len() {
        if s[i] == 0u8 {
            Option::Some((Option::None, i + 1))
        } else if s[i] == 1u8 {
            match parse_u128(s, i + 1) {
                Option::None => Option::None,
                Option::Some((v, j)) => Option::Some((Option::Some(v), j)),
            }
        } else {
            Option::None
        }
    } else {
        Option::None
    }
}

pub fn write_opt_id(out: &mut Vec<u8>, o: &Option<u128>)
    ensures
        final(out)@ == old(out)@ + enc_opt_id(*o),
{
    match o {
        Option::None => {
            out.push(0u8);
            proof {
                assert(out@ =~= old(out)@ + enc_opt_id(Option::None));
            }
        },
        Option::Some(v) => {
            out.push(1u8);
            write_u128(out, *v);
            proof {
                assert(out@ =~= old(out)@ + enc_opt_id(Option::Some(*v)));
            }
        },
    }
}

pub fn read_opt_id(data: &Vec<u8>, pos: usize) -> (r: Option<(Option<u128>, usize)>)
    ensures
        match r {
            Option::Some((v, j)) => {
                &&& parse_opt_id(data@, pos as int) == Option::Some((v, j as int))
                &&& pos < j <= data@.len()
            },
            Option::None => parse_opt_id(data@, pos as int) is None,
        },
{
    if pos < data.len() {
        let tag = data[pos];
        if tag == 0 {
            Some((None, pos + 1))
        } else if tag == 1 {
            match read_u128(data, pos + 1) {
                Option::None => None,
                Option::Some((v, j)) => Some((Some(v), j)),
            }
        } else {
            None
        }
    } else {
        None
    }
}

// ---------------------------------------------------------------------------
// Parse-of-encode lemmas for the primitives
// ---------------------------------------------------------------------------
pub proof fn lemma_parse_u32_at(s: Seq<u8>, i: int, n: u32)
    requires
        0 <= i,
        i + 4 <= s.len(),
        s.subrange(i, i + 4) == le32(n),
    ensures
        parse_u32(s, i) == Option::Some((n, i + 4)),
{
    assert(s[i] == le32(n)[0]);
    assert(s[i + 1] == le32(n)[1]);
    assert(s[i + 2] == le32(n)[2]);
    assert(s[i + 3] == le32(n)[3]);
    lemma_le32_round_trip(n);
}

pub proof fn lemma_parse_u64_at(s: Seq<u8>, i: int, n: u64)
    requires
        0 <= i,
        i + 8 <= s.len(),
        s.subrange(i, i + 8) == le64(n),
    ensures
        parse_u64(s, i) == Option::Some((n, i + 8)),
{
    assert forall|k: int| 0 <= k < 8 implies s[i + k] == le64(n)[k] by {
        assert(s.subrange(i, i + 8)[k] == s[i + k]);
    }
    lemma_le64_round_trip(n);
}

pub proof fn lemma_parse_u128_at(s: Seq<u8>, i: int, n: u128)
    requires
        0 <= i,
        i + 16 <= s.len(),
        s.subrange(i, i + 16) == le128(n),
    ensures
        parse_u128(s, i) == Option::Some((n, i + 16)),
{
    let lo = (n & 0xffff_ffff_ffff_ffff) as u64;
    let hi = (n >> 64) as u64;
    assert(s.subrange(i, i + 8) =~= le64(lo)) by {
        assert forall|k: int| 0 <= k < 8 implies s.subrange(i, i + 8)[k] == le64(lo)[k] by {
            assert(s[i + k] == s.subrange(i, i + 16)[k]);
            assert(le128(n)[k] == le64(lo)[k]);
        }
    }
    assert(s.subrange(i + 8, i + 16) =~= le64(hi)) by {
        assert forall|k: int| 0 <= k < 8 implies s.subrange(i + 8, i + 16)[k] == le64(hi)[k] by {
            assert(s[i + 8 + k] == s.subrange(i, i + 16)[8 + k]);
            assert(le128(n)[8 + k] == le64(hi)[k]);
        }
    }
    lemma_parse_u64_at(s, i, lo);
    lemma_parse_u64_at(s, i + 8, hi);
    lemma_le128_round_trip(n);
}

pub proof fn lemma_parse_i64_at(s: Seq<u8>, i: int, n: i64)
    requires
        0 <= i,
        i + 8 <= s.len(),
        s.subrange(i, i + 8) == le_i64(n),
    ensures
        parse_i64(s, i) == Option::Some((n, i + 8)),
{
    lemma_parse_u64_at(s, i, n as u64);
    lemma_i64_round_trip(n);
}

pub proof fn lemma_parse_bytes_at(s: Seq<u8>, i: int, b: Seq<u8>)
    requires
        0 <= i,
        encodable_bytes(b),
        i + 8 + b.len() <= s.len(),
        s.subrange(i, i + 8 + b.len()) == enc_bytes(b),
    ensures
        parse_bytes(s, i) == Option::Some((b, i + 8 + b.len())),
{
    let n = b.len() as u64;
    assert(s.subrange(i, i + 8) =~= le64(n)) by {
        assert forall|k: int| 0 <= k < 8 implies s.subrange(i, i + 8)[k] == le64(n)[k] by {
            assert(s[i + k] == s.subrange(i, i + 8 + b.len() as int)[k]);
        }
    }
    lemma_parse_u64_at(s, i, n);
    assert(s.subrange(i + 8, i + 8 + b.len() as int) =~= b) by {
        assert forall|k: int| 0 <= k < b.len() implies s.subrange(i + 8, i + 8 + b.len() as int)[k]
            == b[k] by {
            assert(s[i + 8 + k] == s.subrange(i, i + 8 + b.len() as int)[8 + k]);
        }
    }
}

pub proof fn lemma_parse_str_at(s: Seq<u8>, i: int, t: Seq<char>)
    requires
        0 <= i,
        encodable_str(t),
        i + enc_str(t).len() <= s.len(),
        s.subrange(i, i + enc_str(t).len()) == enc_str(t),
    ensures
        parse_str(s, i) == Option::Some((t, i + enc_str(t).len())),
{
    let b = encode_utf8(t);
    lemma_parse_bytes_at(s, i, b);
    broadcast use vstd::utf8::encode_utf8_valid_utf8, vstd::utf8::encode_utf8_decode_utf8;

    assert(valid_utf8(b));
    assert(decode_utf8(b) == t);
}

pub proof fn lemma_parse_opt_id_at(s: Seq<u8>, i: int, o: Option<u128>)
    requires
        0 <= i,
        i + enc_opt_id(o).len() <= s.len(),
        s.subrange(i, i + enc_opt_id(o).len()) == enc_opt_id(o),
    ensures
        parse_opt_id(s, i) == Option::Some((o, i + enc_opt_id(o).len())),
{
    match o {
        Option::None => {
            assert(s[i] == enc_opt_id(o)[0]);
        },
        Option::Some(v) => {
            assert(s[i] == enc_opt_id(o)[0]);
            assert(s.subrange(i + 1, i + 17) =~= le128(v)) by {
                assert forall|k: int| 0 <= k < 16 implies s.subrange(i + 1, i + 17)[k] == le128(
                    v,
                )[k] by {
                    assert(s[i + 1 + k] == s.subrange(i, i + 17)[1 + k]);
                }
            }
            lemma_parse_u128_at(s, i + 1, v);
        },
    }
}

// ---------------------------------------------------------------------------
// Splitting an encoded concatenation
// ---------------------------------------------------------------------------
pub proof fn lemma_subrange_prefix(s: Seq<u8>, i: int, a: Seq<u8>, b: Seq<u8>)
    requires
        0 <= i,
        i + a.len() + b.len() <= s.len(),
        s.subrange(i, i + a.len() + b.len()) == a + b,
    ensures
        s.subrange(i, i + a.len()) == a,
        s.subrange(i + a.len(), i + a.len() + b.len()) == b,
{
    let whole = s.subrange(i, i + a.len() + b.len());
    assert(s.subrange(i, i + a.len()) =~= a) by {
        assert forall|k: int| 0 <= k < a.len() implies s.subrange(i, i + a.len())[k] == a[k] by {
            assert(s[i + k] == whole[k]);
            assert(whole[k] == (a + b)[k]);
        }
    }
    assert(s.subrange(i + a.len(), i + a.len() + b.len()) =~= b) by {
        assert forall|k: int| 0 <= k < b.len() implies s.subrange(
            i + a.len(),
            i + a.len() + b.len(),
        )[k] == b[k] by {
            assert(s[i + a.len() + k] == whole[a.len() + k]);
            assert(whole[a.len() + k] == (a + b)[a.len() + k]);
        }
    }
}

// ---------------------------------------------------------------------------
// Vault metadata
// ---------------------------------------------------------------------------
pub open spec fn enc_meta(m: VaultMeta) -> Seq<u8> {
    le32(m.version) + le_i64(m.created_at) + le_i64(m.modified_at)
}

pub open spec fn parse_meta(s: Seq<u8>, i: int) -> Option<(VaultMeta, int)> {
    match parse_u32(s, i) {
        Option::None => Option::None,
        Option::Some((version, j)) => match parse_i64(s, j) {
            Option::None => Option::None,
            Option::Some((created_at, j2)) => match parse_i64(s, j2) {
                Option::None => Option::None,
                Option::Some((modified_at, j3)) => Option::Some(
                    (VaultMeta { version, created_at, modified_at }, j3),
                ),
            },
        },
    }
}

pub fn write_meta(out: &mut Vec<u8>, m: &VaultMeta)
    ensures
        final(out)@ == old(out)@ + enc_meta(*m),
{
    write_u32(out, m.version);
    write_i64(out, m.created_at);
    write_i64(out, m.modified_at);
    proof {
        assert(out@ =~= old(out)@ + enc_meta(*m));
    }
}

pub fn read_meta(data: &Vec<u8>, pos: usize) -> (r: Option<(VaultMeta, usize)>)
    ensures
        match r {
            Option::Some((v, j)) => {
                &&& parse_meta(data@, pos as int) == Option::Some((v, j as int))
                &&& pos < j <= data@.len()
            },
            Option::None => parse_meta(data@, pos as int) is None,
        },
{
    match read_u32(data, pos) {
        Option::None => None,
        Option::Some((version, j)) => match read_i64(data, j) {
            Option::None => None,
            Option::Some((created_at, j2)) => match read_i64(data, j2) {
                Option::None => None,
                Option::Some((modified_at, j3)) => Some(
                    (VaultMeta { version, created_at, modified_at }, j3),
                ),
            },
        },
    }
}

pub proof fn lemma_parse_meta_at(s: Seq<u8>, i: int, m: VaultMeta)
    requires
        0 <= i,
        i + enc_meta(m).len() <= s.len(),
        s.subrange(i, i + enc_meta(m).len()) == enc_meta(m),
    ensures
        parse_meta(s, i) == Option::Some((m, i + enc_meta(m).len())),
        enc_meta(m).len() == 20,
{
    assert(s.subrange(i, i + 20) =~= le32(m.version) + (le_i64(m.created_at) + le_i64(
        m.modified_at,
    )));
    lemma_subrange_prefix(s, i, le32(m.version), le_i64(m.created_at) + le_i64(m.modified_at));
    lemma_parse_u32_at(s, i, m.version);
    lemma_subrange_prefix(s, i + 4, le_i64(m.created_at), le_i64(m.modified_at));
    lemma_parse_i64_at(s, i + 4, m.created_at);
    lemma_parse_i64_at(s, i + 12, m.modified_at);
}

// ---------------------------------------------------------------------------
// Password-history entries
// ---------------------------------------------------------------------------
pub open spec fn enc_hist(h: HistoryEntryView) -> Seq<u8> {
    enc_str(h.password) + le_i64(h.changed_at)
}

pub open spec fn encodable_hist(h: HistoryEntryView) -> bool {
    encodable_str(h.password)
}

pub open spec fn parse_hist(s: Seq<u8>, i: int) -> Option<(HistoryEntryView, int)> {
    match parse_str(s, i) {
        Option::None => Option::None,
        Option::Some((password, j)) => match parse_i64(s, j) {
            Option::None => Option::None,
            Option::Some((changed_at, j2)) => Option::Some(
                (HistoryEntryView { password, changed_at }, j2),
            ),
        },
    }
}

pub fn write_hist(out: &mut Vec<u8>, h: &PasswordHistoryEntry)
    ensures
        final(out)@ == old(out)@ + enc_hist(h@),
        encodable_hist(h@),
{
    write_str(out, h.password.as_str());
    write_i64(out, h.changed_at);
    proof {
        assert(out@ =~= old(out)@ + enc_hist(h@));
    }
}

pub fn read_hist(data: &Vec<u8>, pos: usize) -> (r: Option<(PasswordHistoryEntry, usize)>)
    ensures
        match r {
            Option::Some((v, j)) => {
                &&& parse_hist(data@, pos as int) == Option::Some((v@, j as int))
                &&& pos < j <= data@.len()
            },
            Option::None => parse_hist(data@, pos as int) is None,
        },
{
    match read_str(data, pos) {
        Option::None => None,
        Option::Some((password, j)) => match read_i64(data, j) {
            Option::None => None,
            Option::Some((changed_at, j2)) => Some(
                (PasswordHistoryEntry { password, changed_at }, j2),
            ),
        },
    }
}

pub proof fn lemma_parse_hist_at(s: Seq<u8>, i: int, h: HistoryEntryView)
    requires
        0 <= i,
        encodable_hist(h),
        i + enc_hist(h).len() <= s.len(),
        s.subrange(i, i + enc_hist(h).len()) == enc_hist(h),
    ensures
        parse_hist(s, i) == Option::Some((h, i + enc_hist(h).len())),
{
    lemma_subrange_prefix(s, i, enc_str(h.password), le_i64(h.changed_at));
    lemma_parse_str_at(s, i, h.password);
    lemma_parse_i64_at(s, i + enc_str(h.password).len(), h.changed_at);
}

// ---------------------------------------------------------------------------
// Groups
// ---------------------------------------------------------------------------
pub open spec fn enc_group(g: GroupView) -> Seq<u8> {
    le128(g.id) + enc_str(g.name) + enc_opt_id(g.parent_id) + le_i64(g.created_at)
}

pub open spec fn encodable_group(g: GroupView) -> bool {
    encodable_str(g.name)
}

pub open spec fn parse_group(s: Seq<u8>, i: int) -> Option<(GroupView, int)> {
    match parse_u128(s, i) {
        Option::None => Option::None,
        Option::Some((id, j)) => match parse_str(s, j) {
            Option::None => Option::None,
            Option::Some((name, j2)) => match parse_opt_id(s, j2) {
                Option::None => Option::None,
                Option::Some((parent_id, j3)) => match parse_i64(s, j3) {
                    Option::None => Option::None,
                    Option::Some((created_at, j4)) => Option::Some(
                        (GroupView { id, name, parent_id, created_at }, j4),
                    ),
                },
            },
        },
    }
}

pub fn write_group(out: &mut Vec<u8>, g: &Group)
    ensures
        final(out)@ == old(out)@ + enc_group(g@),
        encodable_group(g@),
{
    write_u128(out, g.id);
    write_str(out, g.name.as_str());
    write_opt_id(out, &g.parent_id);
    write_i64(out, g.created_at);
    proof {
        assert(out@ =~= old(out)@ + enc_group(g@));
    }
}

pub fn read_group(data: &Vec<u8>, pos: usize) -> (r: Option<(Group, usize)>)
    ensures
        match r {
            Option::Some((v, j)) => {
                &&& parse_group(data@, pos as int) == Option::Some((v@, j as int))
                &&& pos < j <= data@.len()
            },
            Option::None => parse_group(data@, pos as int) is None,
        },
{
    match read_u128(data, pos) {
        Option::None => None,
        Option::Some((id, j)) => match read_str(data, j) {
            Option::None => None,
            Option::Some((name, j2)) => match read_opt_id(data, j2) {
                Option::None => None,
                Option::Some((parent_id, j3)) => match read_i64(data, j3) {
                    Option::None => None,
                    Option::Some((created_at, j4)) => Some(
                        (Group { id, name, parent_id, created_at }, j4),
                    ),
                },
            },
        },
    }
}

pub proof fn lemma_parse_group_at(s: Seq<u8>, i: int, g: GroupView)
    requires
        0 <= i,
        encodable_group(g),
        i + enc_group(g).len() <= s.len(),
        s.subrange(i, i + enc_group(g).len()) == enc_group(g),
    ensures
        parse_group(s, i) == Option::Some((g, i + enc_group(g).len())),
{
    let rest1 = enc_str(g.name) + enc_opt_id(g.parent_id) + le_i64(g.created_at);
    assert(s.subrange(i, i + enc_group(g).len()) =~= le128(g.id) + rest1);
    lemma_subrange_prefix(s, i, le128(g.id), rest1);
    lemma_parse_u128_at(s, i, g.id);
    let i1 = i + 16;
    let rest2 = enc_opt_id(g.parent_id) + le_i64(g.created_at);
    assert(s.subrange(i1, i1 + rest1.len()) =~= enc_str(g.name) + rest2);
    lemma_subrange_prefix(s, i1, enc_str(g.name), rest2);
    lemma_parse_str_at(s, i1, g.name);
    let i2 = i1 + enc_str(g.name).len();
    lemma_subrange_prefix(s, i2, enc_opt_id(g.parent_id), le_i64(g.created_at));
    lemma_parse_opt_id_at(s, i2, g.parent_id);
    let i3 = i2 + enc_opt_id(g.parent_id).len();
    lemma_parse_i64_at(s, i3, g.created_at);
}

// ---------------------------------------------------------------------------
// Lists: a 64-bit count followed by the encoded elements in order
// ---------------------------------------------------------------------------
pub open spec fn enc_list_body<T>(elems: Seq<T>, fe: spec_fn(T) -> Seq<u8>) -> Seq<u8>
    decreases elems.len(),
{
    if elems.len() == 0 {
        Seq::empty()
    } else {
        fe(elems[0]) + enc_list_body(elems.drop_first(), fe)
    }
}

pub open spec fn enc_list<T>(elems: Seq<T>, fe: spec_fn(T) -> Seq<u8>) -> Seq<u8> {
    le64(elems.len() as u64) + enc_list_body(elems, fe)
}

pub open spec fn parse_list_body<T>(
    s: Seq<u8>,
    i: int,
    count: nat,
    fp: spec_fn(Seq<u8>, int) -> Option<(T, int)>,
) -> Option<(Seq<T>, int)>
    decreases count,
{
    if count == 0 {
        Option::Some((Seq::empty(), i))
    } else {
        match fp(s, i) {
            Option::None => Option::None,
            Option::Some((v, j)) => match parse_list_body(s, j, (count - 1) as nat, fp) {
                Option::None => Option::None,
                Option::Some((vs, k)) => Option::Some((seq![v] + vs, k)),
            },
        }
    }
}

pub open spec fn parse_list<T>(
    s: Seq<u8>,
    i: int,
    fp: spec_fn(Seq<u8>, int) -> Option<(T, int)>,
) -> Option<(Seq<T>, int)> {
    match parse_u64(s, i) {
        Option::None => Option::None,
        Option::Some((n, j)) => parse_list_body(s, j, n as nat, fp),
    }
}

pub proof fn lemma_enc_list_body_snoc<T>(elems: Seq<T>, x: T, fe: spec_fn(T) -> Seq<u8>)
    ensures
        enc_list_body(elems.push(x), fe) == enc_list_body(elems, fe) + fe(x),
    decreases elems.len(),
{
    if elems.len() == 0 {
        assert(elems.push(x)[0] == x);
        assert(elems.push(x).drop_first() =~= elems);
        assert(enc_list_body(elems.push(x), fe) == fe(x) + enc_list_body(elems, fe));
        assert(enc_list_body(elems, fe) == Seq::<u8>::empty());
        assert(fe(x) + Seq::<u8>::empty() =~= Seq::<u8>::empty() + fe(x));
    } else {
        assert(elems.push(x).drop_first() =~= elems.drop_first().push(x));
        lemma_enc_list_body_snoc(elems.drop_first(), x, fe);
        assert(elems.push(x)[0] == elems[0]);
        assert(enc_list_body(elems.push(x), fe) =~= enc_list_body(elems, fe) + fe(x));
    }
}

pub proof fn lemma_parse_list_body_at<T>(
    s: Seq<u8>,
    i: int,
    elems: Seq<T>,
    fe: spec_fn(T) -> Seq<u8>,
    fp: spec_fn(Seq<u8>, int) -> Option<(T, int)>,
)
    requires
        0 <= i,
        i + enc_list_body(elems, fe).len() <= s.len(),
        s.subrange(i, i + enc_list_body(elems, fe).len()) == enc_list_body(elems, fe),
        forall|i2: int, v: T|
            #![trigger fp(s, i2), fe(v)]
            elems.contains(v) && 0 <= i2 && i2 + fe(v).len() <= s.len() && s.subrange(
                i2,
                i2 + fe(v).len(),
            ) == fe(v) ==> fp(s, i2) == Option::Some((v, i2 + fe(v).len())),
    ensures
        parse_list_body(s, i, elems.len(), fp) == Option::Some(
            (elems, i + enc_list_body(elems, fe).len()),
        ),
    decreases elems.len(),
{
    if elems.len() == 0 {
        assert(parse_list_body(s, i, 0, fp) == Option::Some((Seq::<T>::empty(), i)));
        assert(elems =~= Seq::<T>::empty());
    } else {
        let e0 = elems[0];
        let rest = elems.drop_first();
        lemma_subrange_prefix(s, i, fe(e0), enc_list_body(rest, fe));
        assert(elems.contains(e0));
        assert(fp(s, i) == Option::Some((e0, i + fe(e0).len())));
        let j = i + fe(e0).len();
        assert forall|i2: int, v: T|
            #![trigger fp(s, i2), fe(v)]
            rest.contains(v) && 0 <= i2 && i2 + fe(v).len() <= s.len() && s.subrange(
                i2,
                i2 + fe(v).len(),
            ) == fe(v) implies fp(s, i2) == Option::Some((v, i2 + fe(v).len())) by {
            let idx = choose|idx: int| 0 <= idx < rest.len() && rest[idx] == v;
            assert(elems[idx + 1] == v);
            assert(elems.contains(v));
        }
        lemma_parse_list_body_at(s, j, rest, fe, fp);
        assert(seq![e0] + rest =~= elems);
    }
}

pub proof fn lemma_parse_list_at<T>(
    s: Seq<u8>,
    i: int,
    elems: Seq<T>,
    fe: spec_fn(T) -> Seq<u8>,
    fp: spec_fn(Seq<u8>, int) -> Option<(T, int)>,
)
    requires
        0 <= i,
        elems.len() <= u64::MAX,
        i + enc_list(elems, fe).len() <= s.len(),
        s.subrange(i, i + enc_list(elems, fe).len()) == enc_list(elems, fe),
        forall|i2: int, v: T|
            #![trigger fp(s, i2), fe(v)]
            elems.contains(v) && 0 <= i2 && i2 + fe(v).len() <= s.len() && s.subrange(
                i2,
                i2 + fe(v).len(),
            ) == fe(v) ==> fp(s, i2) == Option::Some((v, i2 + fe(v).len())),
    ensures
        parse_list(s, i, fp) == Option::Some((elems, i + enc_list(elems, fe).len())),
{
    let n = elems.len() as u64;
    lemma_subrange_prefix(s, i, le64(n), enc_list_body(elems, fe));
    lemma_parse_u64_at(s, i, n);
    lemma_parse_list_body_at(s, i + 8, elems, fe, fp);
}

// ---------------------------------------------------------------------------
// Spec-level encoder and parser values for the list element types
// ---------------------------------------------------------------------------
pub open spec fn str_encoder() -> spec_fn(Seq<char>) -> Seq<u8> {
    |t: Seq<char>| enc_str(t)
}

pub open spec fn str_parser() -> spec_fn(Seq<u8>, int) -> Option<(Seq<char>, int)> {
    |s: Seq<u8>, i: int| parse_str(s, i)
}

pub open spec fn hist_encoder() -> spec_fn(HistoryEntryView) -> Seq<u8> {
    |h: HistoryEntryView| enc_hist(h)
}

pub open spec fn hist_parser() -> spec_fn(Seq<u8>, int) -> Option<(HistoryEntryView, int)> {
    |s: Seq<u8>, i: int| parse_hist(s, i)
}

pub open spec fn group_encoder() -> spec_fn(GroupView) -> Seq<u8> {
    |g: GroupView| enc_group(g)
}

pub open spec fn group_parser() -> spec_fn(Seq<u8>, int) -> Option<(GroupView, int)> {
    |s: Seq<u8>, i: int| parse_group(s, i)
}

/// The loop invariant shared by all executable list decoders: what remains to
/// be parsed, prefixed by what has been accumulated, equals the whole list.
pub open spec fn list_loop_inv<T>(
    s: Seq<u8>,
    start: int,
    n: nat,
    cur: int,
    rem: nat,
    accv: Seq<T>,
    fp: spec_fn(Seq<u8>, int) -> Option<(T, int)>,
) -> bool {
    match parse_list_body(s, cur, rem, fp) {
        Option::None => parse_list_body(s, start, n, fp) is None,
        Option::Some((vs, e)) => parse_list_body(s, start, n, fp) == Option::Some(
            (accv + vs, e),
        ),
    }
}

// ---------------------------------------------------------------------------
// Tag lists
// ---------------------------------------------------------------------------
pub open spec fn encodable_str_list(ts: Seq<Seq<char>>) -> bool {
    ts.len() <= u64::MAX && forall|k: int| 0 <= k < ts.len() ==> encodable_str(#[trigger] ts[k])
}

pub fn write_tags(out: &mut Vec<u8>, tags: &Vec<String>)
    ensures
        final(out)@ == old(out)@ + enc_list(tags.deep_view(), str_encoder()),
        encodable_str_list(tags.deep_view()),
{
    let ghost dv = tags.deep_view();
    write_u64(out, tags.len() as u64);
    let mut k: usize = 0;
    while k < tags.len()
        invariant
            k <= tags@.len(),
            dv == tags.deep_view(),
            dv.len() == tags@.len(),
            out@ == old(out)@ + le64(tags@.len() as u64) + enc_list_body(
                dv.take(k as int),
                str_encoder(),
            ),
            forall|l: int| 0 <= l < k ==> encodable_str(#[trigger] dv[l]),
        decreases tags@.len() - k,
    {
        write_str(out, tags[k].as_str());
        proof {
            assert(dv[k as int] == tags@[k as int]@);
            lemma_enc_list_body_snoc(dv.take(k as int), dv[k as int], str_encoder());
            assert(dv.take(k + 1 as int) =~= dv.take(k as int).push(dv[k as int]));
            assert(out@ =~= old(out)@ + le64(tags@.len() as u64) + enc_list_body(
                dv.take(k + 1 as int),
                str_encoder(),
            ));
        }
        k += 1;
    }
    proof {
        assert(dv.take(tags@.len() as int) =~= dv);
        assert(out@ =~= old(out)@ + enc_list(dv, str_encoder()));
    }
}

pub fn read_tags(data: &Vec<u8>, pos: usize) -> (r: Option<(Vec<String>, usize)>)
    ensures
        match r {
            Option::Some((v, j)) => {
                &&& parse_list(data@, pos as int, str_parser()) == Option::Some(
                    (v.deep_view(), j as int),
                )
                &&& pos < j <= data@.len()
            },
            Option::None => parse_list(data@, pos as int, str_parser()) is None,
        },
{
    match read_u64(data, pos) {
        Option::None => None,
        Option::Some((n, start)) => {
            let mut acc: Vec<String> = Vec::new();
            let mut cur: usize = start;
            let mut k: u64 = 0;
            while k < n
                invariant
                    k <= n,
                    pos < start <= cur <= data@.len(),
                    parse_u64(data@, pos as int) == Option::Some((n, start as int)),
                    list_loop_inv(
                        data@,
                        start as int,
                        n as nat,
                        cur as int,
                        (n - k) as nat,
                        acc.deep_view(),
                        str_parser(),
                    ),
                decreases n - k,
            {
                let ghost accv = acc.deep_view();
                match read_str(data, cur) {
                    Option::None => {
                        proof {
                            assert(str_parser()(data@, cur as int) is None);
                            assert(parse_list_body(
                                data@,
                                cur as int,
                                (n - k) as nat,
                                str_parser(),
                            ) is None);
                        }
                        return None;
                    },
                    Option::Some((s, j2)) => {
                        proof {
                            assert(acc.deep_view().push(s@) =~= accv + seq![s@]);
                        }
                        acc.push(s);
                        proof {
                            assert(acc.deep_view() =~= accv.push(s@));
                            assert forall|vs: Seq<Seq<char>>| true implies accv + (seq![s@] + vs)
                                =~= accv.push(s@) + vs by {}
                        }
                        cur = j2;
                        k += 1;
                    },
                }
            }
            proof {
                assert(parse_list_body(data@, cur as int, 0, str_parser()) == Option::Some(
                    (Seq::<Seq<char>>::empty(), cur as int),
                ));
                assert(acc.deep_view() + Seq::<Seq<char>>::empty() =~= acc.deep_view());
            }
            Some((acc, cur))
        },
    }
}

// ---------------------------------------------------------------------------
// Password-history lists
// ---------------------------------------------------------------------------
pub open spec fn encodable_hist_list(hs: Seq<HistoryEntryView>) -> bool {
    hs.len() <= u64::MAX && forall|k: int| 0 <= k < hs.len() ==> encodable_hist(#[trigger] hs[k])
}

pub fn write_history(out: &mut Vec<u8>, hs: &Vec<PasswordHistoryEntry>)
    ensures
        final(out)@ == old(out)@ + enc_list(hs.deep_view(), hist_encoder()),
        encodable_hist_list(hs.deep_view()),
{
    let ghost dv = hs.deep_view();
    write_u64(out, hs.len() as u64);
    let mut k: usize = 0;
    while k < hs.len()
        invariant
            k <= hs@.len(),
            dv == hs.deep_view(),
            dv.len() == hs@.len(),
            out@ == old(out)@ + le64(hs@.len() as u64) + enc_list_body(
                dv.take(k as int),
                hist_encoder(),
            ),
            forall|l: int| 0 <= l < k ==> encodable_hist(#[trigger] dv[l]),
        decreases hs@.len() - k,
    {
        write_hist(out, &hs[k]);
        proof {
            assert(dv[k as int] == hs@[k as int]@);
            lemma_enc_list_body_snoc(dv.take(k as int), dv[k as int], hist_encoder());
            assert(dv.take(k + 1 as int) =~= dv.take(k as int).push(dv[k as int]));
            assert(out@ =~= old(out)@ + le64(hs@.len() as u64) + enc_list_body(
                dv.take(k + 1 as int),
                hist_encoder(),
            ));
        }
        k += 1;
    }
    proof {
        assert(dv.take(hs@.len() as int) =~= dv);
        assert(out@ =~= old(out)@ + enc_list(dv, hist_encoder()));
    }
}

pub fn read_history(data: &Vec<u8>, pos: usize) -> (r: Option<(Vec<PasswordHistoryEntry>, usize)>)
    ensures
        match r {
            Option::Some((v, j)) => {
                &&& parse_list(data@, pos as int, hist_parser()) == Option::Some(
                    (v.deep_view(), j as int),
                )
                &&& pos < j <= data@.len()
            },
            Option::None => parse_list(data@, pos as int, hist_parser()) is None,
        },
{
    match read_u64(data, pos) {
        Option::None => None,
        Option::Some((n, start)) => {
            let mut acc: Vec<PasswordHistoryEntry> = Vec::new();
            let mut cur: usize = start;
            let mut k: u64 = 0;
            while k < n
                invariant
                    k <= n,
                    pos < start <= cur <= data@.len(),
                    parse_u64(data@, pos as int) == Option::Some((n, start as int)),
                    list_loop_inv(
                        data@,
                        start as int,
                        n as nat,
                        cur as int,
                        (n - k) as nat,
                        acc.deep_view(),
                        hist_parser(),
                    ),
                decreases n - k,
            {
                let ghost accv = acc.deep_view();
                match read_hist(data, cur) {
                    Option::None => {
                        proof {
                            assert(hist_parser()(data@, cur as int) is None);
                            assert(parse_list_body(
                                data@,
                                cur as int,
                                (n - k) as nat,
                                hist_parser(),
                            ) is None);
                        }
                        return None;
                    },
                    Option::Some((h, j2)) => {
                        let ghost hv = h@;
                        acc.push(h);
                        proof {
                            assert(acc.deep_view() =~= accv.push(hv));
                            assert forall|vs: Seq<HistoryEntryView>| true implies accv + (
                            seq![hv] + vs) =~= accv.push(hv) + vs by {}
                        }
                        cur = j2;
                        k += 1;
                    },
                }
            }
            proof {
                assert(parse_list_body(data@, cur as int, 0, hist_parser()) == Option::Some(
                    (Seq::<HistoryEntryView>::empty(), cur as int),
                ));
                assert(acc.deep_view() + Seq::<HistoryEntryView>::empty() =~= acc.deep_view());
            }
            Some((acc, cur))
        },
    }
}

// ---------------------------------------------------------------------------
// Group lists
// ---------------------------------------------------------------------------
pub open spec fn encodable_group_list(gs: Seq<GroupView>) -> bool {
    gs.len() <= u64::MAX && forall|k: int| 0 <= k < gs.len() ==> encodable_group(#[trigger] gs[k])
}

pub fn write_groups(out: &mut Vec<u8>, gs: &Vec<Group>)
    ensures
        final(out)@ == old(out)@ + enc_list(gs.deep_view(), group_encoder()),
        encodable_group_list(gs.deep_view()),
{
    let ghost dv = gs.deep_view();
    write_u64(out, gs.len() as u64);
    let mut k: usize = 0;
    while k < gs.len()
        invariant
            k <= gs@.len(),
            dv == gs.deep_view(),
            dv.len() == gs@.len(),
            out@ == old(out)@ + le64(gs@.len() as u64) + enc_list_body(
                dv.take(k as int),
                group_encoder(),
            ),
            forall|l: int| 0 <= l < k ==> encodable_group(#[trigger] dv[l]),
        decreases gs@.len() - k,
    {
        write_group(out, &gs[k]);
        proof {
            assert(dv[k as int] == gs@[k as int]@);
            lemma_enc_list_body_snoc(dv.take(k as int), dv[k as int], group_encoder());
            assert(dv.take(k + 1 as int) =~= dv.take(k as int).push(dv[k as int]));
            assert(out@ =~= old(out)@ + le64(gs@.len() as u64) + enc_list_body(
                dv.take(k + 1 as int),
                group_encoder(),
            ));
        }
        k += 1;
    }
    proof {
        assert(dv.take(gs@.len() as int) =~= dv);
        assert(out@ =~= old(out)@ + enc_list(dv, group_encoder()));
    }
}

pub fn read_groups(data: &Vec<u8>, pos: usize) -> (r: Option<(Vec<Group>, usize)>)
    ensures
        match r {
            Option::Some((v, j)) => {
                &&& parse_list(data@, pos as int, group_parser()) == Option::Some(
                    (v.deep_view(), j as int),
                )
                &&& pos < j <= data@.len()
            },
            Option::None => parse_list(data@, pos as int, group_parser()) is None,
        },
{
    match read_u64(data, pos) {
        Option::None => None,
        Option::Some((n, start)) => {
            let mut acc: Vec<Group> = Vec::new();
            let mut cur: usize = start;
            let mut k: u64 = 0;
            while k < n
                invariant
                    k <= n,
                    pos < start <= cur <= data@.len(),
                    parse_u64(data@, pos as int) == Option::Some((n, start as int)),
                    list_loop_inv(
                        data@,
                        start as int,
                        n as nat,
                        cur as int,
                        (n - k) as nat,
                        acc.deep_view(),
                        group_parser(),
                    ),
                decreases n - k,
            {
                let ghost accv = acc.deep_view();
                match read_group(data, cur) {
                    Option::None => {
                        proof {
                            assert(group_parser()(data@, cur as int) is None);
                            assert(parse_list_body(
                                data@,
                                cur as int,
                                (n - k) as nat,
                                group_parser(),
                            ) is None);
                        }
                        return None;
                    },
                    Option::Some((g, j2)) => {
                        let ghost gv = g@;
                        acc.push(g);
                        proof {
                            assert(acc.deep_view() =~= accv.push(gv));
                            assert forall|vs: Seq<GroupView>| true implies accv + (seq![gv] + vs)
                                =~= accv.push(gv) + vs by {}
                        }
                        cur = j2;
                        k += 1;
                    },
                }
            }
            proof {
                assert(parse_list_body(data@, cur as int, 0, group_parser()) == Option::Some(
                    (Seq::<GroupView>::empty(), cur as int),
                ));
                assert(acc.deep_view() + Seq::<GroupView>::empty() =~= acc.deep_view());
            }
            Some((acc, cur))
        },
    }
}

// ---------------------------------------------------------------------------
// Items
// ---------------------------------------------------------------------------
pub open spec fn enc_item(it: ItemView) -> Seq<u8> {
    le128(it.id) + (enc_opt_id(it.group_id) + (enc_str(it.title) + (enc_str(it.username) + (
    enc_str(it.password) + (enc_str(it.url) + (enc_str(it.notes) + (enc_list(
        it.tags,
        str_encoder(),
    ) + (enc_list(it.password_history, hist_encoder()) + (le_i64(it.created_at) + le_i64(
        it.modified_at,
    ))))))))))
}

pub open spec fn encodable_item(it: ItemView) -> bool {
    &&& encodable_str(it.title)
    &&& encodable_str(it.username)
    &&& encodable_str(it.password)
    &&& encodable_str(it.url)
    &&& encodable_str(it.notes)
    &&& encodable_str_list(it.tags)
    &&& encodable_hist_list(it.password_history)
}

pub open spec fn parse_item(s: Seq<u8>, i: int) -> Option<(ItemView, int)> {
    match parse_u128(s, i) {
        Option::None => Option::None,
        Option::Some((id, j1)) => match parse_opt_id(s, j1) {
            Option::None => Option::None,
            Option::Some((group_id, j2)) => match parse_str(s, j2) {
                Option::None => Option::None,
                Option::Some((title, j3)) => match parse_str(s, j3) {
                    Option::None => Option::None,
                    Option::Some((username, j4)) => match parse_str(s, j4) {
                        Option::None => Option::None,
                        Option::Some((password, j5)) => match parse_str(s, j5) {
                            Option::None => Option::None,
                            Option::Some((url, j6)) => match parse_str(s, j6) {
                                Option::None => Option::None,
                                Option::Some((notes, j7)) => match parse_list(
                                    s,
                                    j7,
                                    str_parser(),
                                ) {
                                    Option::None => Option::None,
                                    Option::Some((tags, j8)) => match parse_list(
                                        s,
                                        j8,
                                        hist_parser(),
                                    ) {
                                        Option::None => Option::None,
                                        Option::Some((password_history, j9)) => match parse_i64(
                                            s,
                                            j9,
                                        ) {
                                            Option::None => Option::None,
                                            Option::Some((created_at, j10)) => match parse_i64(
                                                s,
                                                j10,
                                            ) {
                                                Option::None => Option::None,
                                                Option::Some((modified_at, j11)) => Option::Some(
                                                    (
                                                        ItemView {
                                                            id,
                                                            group_id,
                                                            title,
                                                            username,
                                                            password,
                                                            url,
                                                            notes,
                                                            tags,
                                                            password_history,
                                                            created_at,
                                                            modified_at,
                                                        },
                                                        j11,
                                                    ),
                                                ),
                                            },
                                        },
                                    },
                                },
                            },
                        },
                    },
                },
            },
        },
    }
}

#[verifier::rlimit(100)]
#[verifier::spinoff_prover]
pub fn write_item(out: &mut Vec<u8>, it: &Item)
    ensures
        final(out)@ == old(out)@ + enc_item(it@),
        encodable_item(it@),
{
    write_u128(out, it.id);
    write_opt_id(out, &it.group_id);
    write_str(out, it.title.as_str());
    write_str(out, it.username.as_str());
    write_str(out, it.password.as_str());
    write_str(out, it.url.as_str());
    write_str(out, it.notes.as_str());
    write_tags(out, &it.tags);
    write_history(out, &it.password_history);
    write_i64(out, it.created_at);
    write_i64(out, it.modified_at);
    proof {
        let t1 = le128(it@.id);
        let t2 = enc_opt_id(it@.group_id);
        let t3 = enc_str(it@.title);
        let t4 = enc_str(it@.username);
        let t5 = enc_str(it@.password);
        let t6 = enc_str(it@.url);
        let t7 = enc_str(it@.notes);
        let t8 = enc_list(it@.tags, str_encoder());
        let t9 = enc_list(it@.password_history, hist_encoder());
        let t10 = le_i64(it@.created_at);
        let t11 = le_i64(it@.modified_at);
        let base = old(out)@;
        let x9 = base + t1 + t2 + t3 + t4 + t5 + t6 + t7 + t8 + t9;
        let x8 = base + t1 + t2 + t3 + t4 + t5 + t6 + t7 + t8;
        let x7 = base + t1 + t2 + t3 + t4 + t5 + t6 + t7;
        let x6 = base + t1 + t2 + t3 + t4 + t5 + t6;
        let x5 = base + t1 + t2 + t3 + t4 + t5;
        let x4 = base + t1 + t2 + t3 + t4;
        let x3 = base + t1 + t2 + t3;
        let x2 = base + t1 + t2;
        let x1 = base + t1;
        vstd::seq_lib::lemma_concat_associative(x9, t10, t11);
        vstd::seq_lib::lemma_concat_associative(x8, t9, t10 + t11);
        vstd::seq_lib::lemma_concat_associative(x7, t8, t9 + (t10 + t11));
        vstd::seq_lib::lemma_concat_associative(x6, t7, t8 + (t9 + (t10 + t11)));
        vstd::seq_lib::lemma_concat_associative(x5, t6, t7 + (t8 + (t9 + (t10 + t11))));
        vstd::seq_lib::lemma_concat_associative(x4, t5, t6 + (t7 + (t8 + (t9 + (t10 + t11)))));
        vstd::seq_lib::lemma_concat_associative(
            x3,
            t4,
            t5 + (t6 + (t7 + (t8 + (t9 + (t10 + t11))))),
        );
        vstd::seq_lib::lemma_concat_associative(
            x2,
            t3,
            t4 + (t5 + (t6 + (t7 + (t8 + (t9 + (t10 + t11)))))),
        );
        vstd::seq_lib::lemma_concat_associative(
            x1,
            t2,
            t3 + (t4 + (t5 + (t6 + (t7 + (t8 + (t9 + (t10 + t11))))))),
        );
        vstd::seq_lib::lemma_concat_associative(
            base,
            t1,
            t2 + (t3 + (t4 + (t5 + (t6 + (t7 + (t8 + (t9 + (t10 + t11)))))))),
        );
    }
}

pub fn read_item(data: &Vec<u8>, pos: usize) -> (r: Option<(Item, usize)>)
    ensures
        match r {
            Option::Some((v, j)) => {
                &&& parse_item(data@, pos as int) == Option::Some((v@, j as int))
                &&& pos < j <= data@.len()
            },
            Option::None => parse_item(data@, pos as int) is None,
        },
{
    let r1 = read_u128(data, pos);
    match r1 {
        Option::None => None,
        Option::Some((id, j1)) => match read_opt_id(data, j1) {
            Option::None => None,
            Option::Some((group_id, j2)) => match read_str(data, j2) {
                Option::None => None,
                Option::Some((title, j3)) => match read_str(data, j3) {
                    Option::None => None,
                    Option::Some((username, j4)) => match read_str(data, j4) {
                        Option::None => None,
                        Option::Some((password, j5)) => match read_str(data, j5) {
                            Option::None => None,
                            Option::Some((url, j6)) => match read_str(data, j6) {
                                Option::None => None,
                                Option::Some((notes, j7)) => match read_tags(data, j7) {
                                    Option::None => None,
                                    Option::Some((tags, j8)) => match read_history(data, j8) {
                                        Option::None => None,
                                        Option::Some((password_history, j9)) => match read_i64(
                                            data,
                                            j9,
                                        ) {
                                            Option::None => None,
                                            Option::Some((created_at, j10)) => match read_i64(
                                                data,
                                                j10,
                                            ) {
                                                Option::None => None,
                                                Option::Some((modified_at, j11)) => Some(
                                                    (
                                                        Item {
                                                            id,
                                                            group_id,
                                                            title,
                                                            username,
                                                            password,
                                                            url,
                                                            notes,
                                                            tags,
                                                            password_history,
                                                            created_at,
                                                            modified_at,
                                                        },
                                                        j11,
                                                    ),
                                                ),
                                            },
                                        },
                                    },
                                },
                            },
                        },
                    },
                },
            },
        },
    }
}

#[verifier::rlimit(100)]
#[verifier::spinoff_prover]
pub proof fn lemma_parse_item_at(s: Seq<u8>, i: int, it: ItemView)
    requires
        0 <= i,
        encodable_item(it),
        i + enc_item(it).len() <= s.len(),
        s.subrange(i, i + enc_item(it).len()) == enc_item(it),
    ensures
        parse_item(s, i) == Option::Some((it, i + enc_item(it).len())),
{
    let t1 = le128(it.id);
    let t2 = enc_opt_id(it.group_id);
    let t3 = enc_str(it.title);
    let t4 = enc_str(it.username);
    let t5 = enc_str(it.password);
    let t6 = enc_str(it.url);
    let t7 = enc_str(it.notes);
    let t8 = enc_list(it.tags, str_encoder());
    let t9 = enc_list(it.password_history, hist_encoder());
    let t10 = le_i64(it.created_at);
    let t11 = le_i64(it.modified_at);
    let r11 = t11;
    let r10 = t10 + r11;
    let r9 = t9 + r10;
    let r8 = t8 + r9;
    let r7 = t7 + r8;
    let r6 = t6 + r7;
    let r5 = t5 + r6;
    let r4 = t4 + r5;
    let r3 = t3 + r4;
    let r2 = t2 + r3;
    let i1 = i + t1.len();
    let i2 = i1 + t2.len();
    let i3 = i2 + t3.len();
    let i4 = i3 + t4.len();
    let i5 = i4 + t5.len();
    let i6 = i5 + t6.len();
    let i7 = i6 + t7.len();
    let i8 = i7 + t8.len();
    let i9 = i8 + t9.len();
    let i10 = i9 + t10.len();
    lemma_subrange_prefix(s, i, t1, r2);
    lemma_parse_u128_at(s, i, it.id);
    lemma_subrange_prefix(s, i1, t2, r3);
    lemma_parse_opt_id_at(s, i1, it.group_id);
    lemma_subrange_prefix(s, i2, t3, r4);
    lemma_parse_str_at(s, i2, it.title);
    lemma_subrange_prefix(s, i3, t4, r5);
    lemma_parse_str_at(s, i3, it.username);
    lemma_subrange_prefix(s, i4, t5, r6);
    lemma_parse_str_at(s, i4, it.password);
    lemma_subrange_prefix(s, i5, t6, r7);
    lemma_parse_str_at(s, i5, it.url);
    lemma_subrange_prefix(s, i6, t7, r8);
    lemma_parse_str_at(s, i6, it.notes);
    lemma_subrange_prefix(s, i7, t8, r9);
    assert forall|p2: int, v: Seq<char>|
        #![trigger str_parser()(s, p2), str_encoder()(v)]
        it.tags.contains(v) && 0 <= p2 && p2 + str_encoder()(v).len() <= s.len() && s.subrange(
            p2,
            p2 + str_encoder()(v).len(),
        ) == str_encoder()(v) implies str_parser()(s, p2) == Option::Some(
        (v, p2 + str_encoder()(v).len()),
    ) by {
        lemma_parse_str_at(s, p2, v);
    }
    lemma_parse_list_at(s, i7, it.tags, str_encoder(), str_parser());
    lemma_subrange_prefix(s, i8, t9, r10);
    assert forall|p2: int, v: HistoryEntryView|
        #![trigger hist_parser()(s, p2), hist_encoder()(v)]
        it.password_history.contains(v) && 0 <= p2 && p2 + hist_encoder()(v).len() <= s.len()
            && s.subrange(p2, p2 + hist_encoder()(v).len()) == hist_encoder()(
            v,
        ) implies hist_parser()(s, p2) == Option::Some((v, p2 + hist_encoder()(v).len())) by {
        lemma_parse_hist_at(s, p2, v);
    }
    lemma_parse_list_at(s, i8, it.password_history, hist_encoder(), hist_parser());
    lemma_subrange_prefix(s, i9, t10, r11);
    lemma_parse_i64_at(s, i9, it.created_at);
    lemma_parse_i64_at(s, i10, it.modified_at);
}

pub open spec fn item_encoder() -> spec_fn(ItemView) -> Seq<u8> {
    |it: ItemView| enc_item(it)
}

pub open spec fn item_parser() -> spec_fn(Seq<u8>, int) -> Option<(ItemView, int)> {
    |s: Seq<u8>, i: int| parse_item(s, i)
}

// ---------------------------------------------------------------------------
// Item lists
// ---------------------------------------------------------------------------
pub open spec fn encodable_item_list(its: Seq<ItemView>) -> bool {
    its.len() <= u64::MAX && forall|k: int| 0 <= k < its.len() ==> encodable_item(#[trigger] its[k])
}

pub fn write_items(out: &mut Vec<u8>, its: &Vec<Item>)
    ensures
        final(out)@ == old(out)@ + enc_list(its.deep_view(), item_encoder()),
        encodable_item_list(its.deep_view()),
{
    let ghost dv = its.deep_view();
    write_u64(out, its.len() as u64);
    let mut k: usize = 0;
    while k < its.len()
        invariant
            k <= its@.len(),
            dv == its.deep_view(),
            dv.len() == its@.len(),
            out@ == old(out)@ + le64(its@.len() as u64) + enc_list_body(
                dv.take(k as int),
                item_encoder(),
            ),
            forall|l: int| 0 <= l < k ==> encodable_item(#[trigger] dv[l]),
        decreases its@.len() - k,
    {
        write_item(out, &its[k]);
        proof {
            assert(dv[k as int] == its@[k as int]@);
            lemma_enc_list_body_snoc(dv.take(k as int), dv[k as int], item_encoder());
            assert(dv.take(k + 1 as int) =~= dv.take(k as int).push(dv[k as int]));
            assert(out@ =~= old(out)@ + le64(its@.len() as u64) + enc_list_body(
                dv.take(k + 1 as int),
                item_encoder(),
            ));
        }
        k += 1;
    }
    proof {
        assert(dv.take(its@.len() as int) =~= dv);
        assert(out@ =~= old(out)@ + enc_list(dv, item_encoder()));
    }
}

pub fn read_items(data: &Vec<u8>, pos: usize) -> (r: Option<(Vec<Item>, usize)>)
    ensures
        match r {
            Option::Some((v, j)) => {
                &&& parse_list(data@, pos as int, item_parser()) == Option::Some(
                    (v.deep_view(), j as int),
                )
                &&& pos < j <= data@.len()
            },
            Option::None => parse_list(data@, pos as int, item_parser()) is None,
        },
{
    match read_u64(data, pos) {
        Option::None => None,
        Option::Some((n, start)) => {
            let mut acc: Vec<Item> = Vec::new();
            let mut cur: usize = start;
            let mut k: u64 = 0;
            while k < n
                invariant
                    k <= n,
                    pos < start <= cur <= data@.len(),
                    parse_u64(data@, pos as int) == Option::Some((n, start as int)),
                    list_loop_inv(
                        data@,
                        start as int,
                        n as nat,
                        cur as int,
                        (n - k) as nat,
                        acc.deep_view(),
                        item_parser(),
                    ),
                decreases n - k,
            {
                let ghost accv = acc.deep_view();
                match read_item(data, cur) {
                    Option::None => {
                        proof {
                            assert(item_parser()(data@, cur as int) is None);
                            assert(parse_list_body(
                                data@,
                                cur as int,
                                (n - k) as nat,
                                item_parser(),
                            ) is None);
                        }
                        return None;
                    },
                    Option::Some((it, j2)) => {
                        let ghost iv = it@;
                        acc.push(it);
                        proof {
                            assert(acc.deep_view() =~= accv.push(iv));
                            assert forall|vs: Seq<ItemView>| true implies accv + (seq![iv] + vs)
                                =~= accv.push(iv) + vs by {}
                        }
                        cur = j2;
                        k += 1;
                    },
                }
            }
            proof {
                assert(parse_list_body(data@, cur as int, 0, item_parser()) == Option::Some(
                    (Seq::<ItemView>::empty(), cur as int),
                ));
                assert(acc.deep_view() + Seq::<ItemView>::empty() =~= acc.deep_view());
            }
            Some((acc, cur))
        },
    }
}

// ---------------------------------------------------------------------------
// The whole payload
// ---------------------------------------------------------------------------
pub open spec fn enc_payload(p: PayloadView) -> Seq<u8> {
    enc_meta(p.meta) + enc_list(p.groups, group_encoder()) + enc_list(p.items, item_encoder())
}

pub open spec fn encodable_payload(p: PayloadView) -> bool {
    encodable_group_list(p.groups) && encodable_item_list(p.items)
}

pub open spec fn parse_payload(s: Seq<u8>, i: int) -> Option<(PayloadView, int)> {
    match parse_meta(s, i) {
        Option::None => Option::None,
        Option::Some((meta, j1)) => match parse_list(s, j1, group_parser()) {
            Option::None => Option::None,
            Option::Some((groups, j2)) => match parse_list(s, j2, item_parser()) {
                Option::None => Option::None,
                Option::Some((items, j3)) => Option::Some(
                    (PayloadView { meta, groups, items }, j3),
                ),
            },
        },
    }
}

/// The payload decoded from a complete byte buffer: the parse must consume
/// every byte.
pub open spec fn spec_decode_payload(s: Seq<u8>) -> Option<PayloadView> {
    match parse_payload(s, 0) {
        Option::None => Option::None,
        Option::Some((p, j)) => if j == s.len() {
            Option::Some(p)
        } else {
            Option::None
        },
    }
}

/// Serialize a payload to its unique byte encoding.
pub fn encode_payload(p: &VaultPayload) -> (out: Vec<u8>)
    ensures
        out@ == enc_payload(p@),
        encodable_payload(p@),
{
    let mut out: Vec<u8> = Vec::new();
    write_meta(&mut out, &p.meta);
    write_groups(&mut out, &p.groups);
    write_items(&mut out, &p.items);
    proof {
        assert(out@ =~= enc_payload(p@));
    }
    out
}

/// Decode a payload from a byte buffer; fails exactly when the buffer is not
/// the encoding of any payload.
pub fn decode_payload(data: &Vec<u8>) -> (r: Result<VaultPayload, VaulturaError>)
    ensures
        match r {
            Result::Ok(p) => spec_decode_payload(data@) == Option::Some(p@),
            Result::Err(e) => spec_decode_payload(data@) is None && e is Serialization,
        },
{
    match read_meta(data, 0) {
        Option::None => Err(VaulturaError::Serialization("truncated metadata".to_owned())),
        Option::Some((meta, j1)) => match read_groups(data, j1) {
            Option::None => Err(VaulturaError::Serialization("malformed group list".to_owned())),
            Option::Some((groups, j2)) => match read_items(data, j2) {
                Option::None => Err(
                    VaulturaError::Serialization("malformed item list".to_owned()),
                ),
                Option::Some((items, j3)) => {
                    if j3 == data.len() {
                        Ok(VaultPayload { meta, groups, items })
                    } else {
                        Err(VaulturaError::Serialization("trailing bytes".to_owned()))
                    }
                },
            },
        },
    }
}

/// The round-trip law of the payload codec: decoding an encoding yields the
/// original payload, for every payload whose sizes fit the format.
#[verifier::rlimit(100)]
#[verifier::spinoff_prover]
pub proof fn lemma_payload_round_trip(p: PayloadView)
    requires
        encodable_payload(p),
    ensures
        spec_decode_payload(enc_payload(p)) == Option::Some(p),
{
    let s = enc_payload(p);
    let t1 = enc_meta(p.meta);
    let t2 = enc_list(p.groups, group_encoder());
    let t3 = enc_list(p.items, item_encoder());
    vstd::seq_lib::lemma_concat_associative(t1, t2, t3);
    assert(s.subrange(0, s.len() as int) =~= s);
    lemma_subrange_prefix(s, 0, t1, t2 + t3);
    lemma_parse_meta_at(s, 0, p.meta);
    let i1 = t1.len() as int;
    lemma_subrange_prefix(s, i1, t2, t3);
    assert forall|p2: int, v: GroupView|
        #![trigger group_parser()(s, p2), group_encoder()(v)]
        p.groups.contains(v) && 0 <= p2 && p2 + group_encoder()(v).len() <= s.len() && s.subrange(
            p2,
            p2 + group_encoder()(v).len(),
        ) == group_encoder()(v) implies group_parser()(s, p2) == Option::Some(
        (v, p2 + group_encoder()(v).len()),
    ) by {
        lemma_parse_group_at(s, p2, v);
    }
    lemma_parse_list_at(s, i1, p.groups, group_encoder(), group_parser());
    let i2 = i1 + t2.len();
    assert forall|p2: int, v: ItemView|
        #![trigger item_parser()(s, p2), item_encoder()(v)]
        p.items.contains(v) && 0 <= p2 && p2 + item_encoder()(v).len() <= s.len() && s.subrange(
            p2,
            p2 + item_encoder()(v).len(),
        ) == item_encoder()(v) implies item_parser()(s, p2) == Option::Some(
        (v, p2 + item_encoder()(v).len()),
    ) by {
        lemma_parse_item_at(s, p2, v);
    }
    lemma_parse_list_at(s, i2, p.items, item_encoder(), item_parser());
}

/// Copy `data[from..to]` out into a fresh buffer.
pub fn copy_range(data: &Vec<u8>, from: usize, to: usize) -> (r: Vec<u8>)
    requires
        from <= to <= data@.len(),
    ensures
        r@ == data@.subrange(from as int, to as int),
{
    let mut v: Vec<u8> = Vec::new();
    let mut k: usize = from;
    while k < to
        invariant
            from <= k <= to <= data@.len(),
            v@ == data@.subrange(from as int, k as int),
        decreases to - k,
    {
        v.push(data[k]);
        proof {
            assert(v@ =~= data@.subrange(from as int, (k + 1) as int));
        }
        k += 1;
    }
    v
}

} // verus!
