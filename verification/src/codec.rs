//! Primitive decoders: fixed-width little-endian unsigned integers,
//! booleans, raw byte runs, the compact variable-length length prefix, and
//! compact-length-prefixed byte arrays. Each decoder takes a buffer and a
//! cursor position and returns the decoded value with the position just
//! past the bytes it consumed, or the error the format prescribes.
//!
//! Each executable decoder is specified against a spec-level decoder over
//! `Seq<u8>`; the spec decoders are the single mathematical definition of
//! the wire format that all higher layers build on.

use vstd::prelude::*;

use crate::bytes_le::le_value;
use crate::bytes_le::lemma_le_value_append;
use crate::bytes_le::lemma_le_value_bound;
use crate::bytes_le::lemma_le_value_push;
use crate::bytes_le::lemma_le_value_zero;
use crate::bytes_le::lemma_pow256_monotonic;
use crate::bytes_le::pow256;
use crate::error::DecodeError;

verus! {

/// Fixed-width little-endian read of `width` bytes at `pos`.
pub open spec fn spec_decode_uint(s: Seq<u8>, pos: int, width: int) -> Result<
    (nat, int),
    DecodeError,
> {
    if 0 <= pos && pos + width <= s.len() {
        Ok((le_value(s.subrange(pos, pos + width)), pos + width))
    } else {
        Err(DecodeError::UnexpectedEof)
    }
}

/// A 32-bit little-endian unsigned integer.
pub open spec fn spec_decode_u32(s: Seq<u8>, pos: int) -> Result<(u32, int), DecodeError> {
    match spec_decode_uint(s, pos, 4) {
        Ok((v, p2)) => Ok((v as u32, p2)),
        Err(e) => Err(e),
    }
}

/// A 64-bit little-endian unsigned integer.
pub open spec fn spec_decode_u64(s: Seq<u8>, pos: int) -> Result<(u64, int), DecodeError> {
    match spec_decode_uint(s, pos, 8) {
        Ok((v, p2)) => Ok((v as u64, p2)),
        Err(e) => Err(e),
    }
}

/// A boolean: one byte, 0 for false and 1 for true; anything else is
/// rejected.
pub open spec fn spec_decode_bool(s: Seq<u8>, pos: int) -> Result<(bool, int), DecodeError> {
    if 0 <= pos && pos + 1 <= s.len() {
        if s[pos] == 0 {
            Ok((false, pos + 1))
        } else if s[pos] == 1 {
            Ok((true, pos + 1))
        } else {
            Err(DecodeError::InvalidBooleanEncoding)
        }
    } else {
        Err(DecodeError::UnexpectedEof)
    }
}

/// A raw byte run of a statically known length, copied verbatim.
pub open spec fn spec_decode_raw(s: Seq<u8>, pos: int, count: int) -> Result<
    (Seq<u8>, int),
    DecodeError,
> {
    if 0 <= pos && pos + count <= s.len() {
        Ok((s.subrange(pos, pos + count), pos + count))
    } else {
        Err(DecodeError::UnexpectedEof)
    }
}

/// The compact variable-length unsigned integer that prefixes every
/// variable-length container. The low two bits of the first byte select the
/// mode: 0 packs the value in the remaining six bits of that byte; 1 and 2
/// pack it in the high bits of a two- or four-byte little-endian word; 3
/// says the remaining six bits count how many following bytes (plus four)
/// hold the value verbatim.
pub open spec fn spec_decode_compact(s: Seq<u8>, pos: int) -> Result<(u64, int), DecodeError> {
    if 0 <= pos && pos < s.len() {
        let b = s[pos];
        if b % 4 == 0 {
            Ok(((b / 4) as u64, pos + 1))
        } else if b % 4 == 1 {
            if pos + 2 <= s.len() {
                Ok(((le_value(s.subrange(pos, pos + 2)) / 4) as u64, pos + 2))
            } else {
                Err(DecodeError::InvalidCompactLength)
            }
        } else if b % 4 == 2 {
            if pos + 4 <= s.len() {
                Ok(((le_value(s.subrange(pos, pos + 4)) / 4) as u64, pos + 4))
            } else {
                Err(DecodeError::InvalidCompactLength)
            }
        } else {
            let n = b / 4 + 4;
            if pos + 1 + n <= s.len() {
                let v = le_value(s.subrange(pos + 1, pos + 1 + n));
                if v < pow256(8) {
                    Ok((v as u64, pos + 1 + n))
                } else {
                    Err(DecodeError::CompactLengthOverflow)
                }
            } else {
                Err(DecodeError::InvalidCompactLength)
            }
        }
    } else {
        Err(DecodeError::UnexpectedEof)
    }
}

/// A byte array: a compact length prefix followed by that many raw bytes.
pub open spec fn spec_decode_bytes(s: Seq<u8>, pos: int) -> Result<(Seq<u8>, int), DecodeError> {
    match spec_decode_compact(s, pos) {
        Ok((n, p2)) => if p2 + n <= s.len() {
            Ok((s.subrange(p2, p2 + n), p2 + n))
        } else {
            Err(DecodeError::UnexpectedEof)
        },
        Err(e) => Err(e),
    }
}

/// Reads `width` little-endian bytes at `pos` as one unsigned integer.
fn decode_uint_le(buf: &Vec<u8>, pos: usize, width: usize) -> (r: Result<
    (u64, usize),
    DecodeError,
>)
    requires
        1 <= width <= 8,
    ensures
        match r {
            Ok((v, p2)) => spec_decode_uint(buf@, pos as int, width as int) == Ok::<
                (nat, int),
                DecodeError,
            >((v as nat, p2 as int)) && p2 == pos + width,
            Err(e) => spec_decode_uint(buf@, pos as int, width as int) == Err::<
                (nat, int),
                DecodeError,
            >(e),
        },
{
    let buf_len = buf.len();
    if buf_len < width || pos > buf_len - width {
        return Err(DecodeError::UnexpectedEof);
    }
    let mut acc: u64 = 0;
    let mut mult: u64 = 1;
    let mut i: usize = 0;
    proof {
        assert(buf@.subrange(pos as int, pos as int) =~= Seq::<u8>::empty());
    }
    while i < width
        invariant
            i <= width <= 8,
            buf_len == buf@.len(),
            pos + width <= buf_len,
            acc as nat == le_value(buf@.subrange(pos as int, pos + i)),
            i < width ==> mult as nat == pow256(i as nat),
        decreases width - i,
    {
        let byte = buf[pos + i];
        proof {
            let pre = buf@.subrange(pos as int, pos + i);
            lemma_le_value_bound(pre);
            lemma_le_value_push(pre, byte);
            assert(buf@.subrange(pos as int, pos + i + 1) =~= pre.push(byte));
            assert(acc as nat + (byte as nat) * pow256(i as nat) < pow256((i + 1) as nat))
                by (nonlinear_arith)
                requires
                    (acc as nat) < pow256(i as nat),
                    byte < 256,
                    pow256((i + 1) as nat) == 256 * pow256(i as nat),
            ;
            lemma_pow256_monotonic((i + 1) as nat, 8);
            crate::bytes_le::lemma_pow256_positive(i as nat);
            reveal_with_fuel(pow256, 9);
            assert(pow256(8) == 0x1_0000_0000_0000_0000);
        }
        acc = acc + (byte as u64) * mult;
        if i + 1 < width {
            proof {
                lemma_pow256_monotonic((i + 2) as nat, 8);
            }
            mult = mult * 256;
        }
        i = i + 1;
    }
    Ok((acc, pos + width))
}

/// Decodes a 32-bit little-endian unsigned integer.
pub fn decode_u32(buf: &Vec<u8>, pos: usize) -> (r: Result<(u32, usize), DecodeError>)
    ensures
        match r {
            Ok((v, p2)) => spec_decode_u32(buf@, pos as int) == Ok::<(u32, int), DecodeError>(
                (v, p2 as int),
            ) && p2 == pos + 4 && p2 <= buf@.len(),
            Err(e) => spec_decode_u32(buf@, pos as int) == Err::<(u32, int), DecodeError>(e),
        },
{
    match decode_uint_le(buf, pos, 4) {
        Ok((v, p2)) => {
            proof {
                lemma_le_value_bound(buf@.subrange(pos as int, pos + 4));
                reveal_with_fuel(pow256, 5);
            }
            Ok((v as u32, p2))
        },
        Err(e) => Err(e),
    }
}

/// Decodes a 64-bit little-endian unsigned integer.
pub fn decode_u64(buf: &Vec<u8>, pos: usize) -> (r: Result<(u64, usize), DecodeError>)
    ensures
        match r {
            Ok((v, p2)) => spec_decode_u64(buf@, pos as int) == Ok::<(u64, int), DecodeError>(
                (v, p2 as int),
            ) && p2 == pos + 8 && p2 <= buf@.len(),
            Err(e) => spec_decode_u64(buf@, pos as int) == Err::<(u64, int), DecodeError>(e),
        },
{
    match decode_uint_le(buf, pos, 8) {
        Ok((v, p2)) => {
            proof {
                lemma_le_value_bound(buf@.subrange(pos as int, pos + 8));
                reveal_with_fuel(pow256, 9);
            }
            Ok((v, p2))
        },
        Err(e) => Err(e),
    }
}

/// Decodes a boolean byte.
pub fn decode_bool(buf: &Vec<u8>, pos: usize) -> (r: Result<(bool, usize), DecodeError>)
    ensures
        match r {
            Ok((v, p2)) => spec_decode_bool(buf@, pos as int) == Ok::<(bool, int), DecodeError>(
                (v, p2 as int),
            ) && p2 == pos + 1 && p2 <= buf@.len(),
            Err(e) => spec_decode_bool(buf@, pos as int) == Err::<(bool, int), DecodeError>(e),
        },
{
    if pos >= buf.len() {
        return Err(DecodeError::UnexpectedEof);
    }
    let b = buf[pos];
    if b == 0 {
        Ok((false, pos + 1))
    } else if b == 1 {
        Ok((true, pos + 1))
    } else {
        Err(DecodeError::InvalidBooleanEncoding)
    }
}

/// Copies `count` bytes starting at `pos` into a fresh vector.
fn copy_range(buf: &Vec<u8>, pos: usize, count: usize) -> (r: Vec<u8>)
    requires
        pos + count <= buf@.len(),
    ensures
        r@ == buf@.subrange(pos as int, pos + count),
{
    let buf_len = buf.len();
    let mut out: Vec<u8> = Vec::new();
    let mut i: usize = 0;
    proof {
        assert(buf@.subrange(pos as int, pos as int) =~= Seq::<u8>::empty());
    }
    while i < count
        invariant
            i <= count,
            buf_len == buf@.len(),
            pos + count <= buf_len,
            out@ == buf@.subrange(pos as int, pos + i),
        decreases count - i,
    {
        out.push(buf[pos + i]);
        proof {
            assert(buf@.subrange(pos as int, pos + i + 1) =~= buf@.subrange(
                pos as int,
                pos + i,
            ).push(buf@[pos + i]));
        }
        i = i + 1;
    }
    out
}

/// Decodes a raw byte run of a statically known length.
pub fn decode_raw(buf: &Vec<u8>, pos: usize, count: usize) -> (r: Result<
    (Vec<u8>, usize),
    DecodeError,
>)
    ensures
        match r {
            Ok((v, p2)) => spec_decode_raw(buf@, pos as int, count as int) == Ok::<
                (Seq<u8>, int),
                DecodeError,
            >((v@, p2 as int)) && p2 == pos + count && p2 <= buf@.len(),
            Err(e) => spec_decode_raw(buf@, pos as int, count as int) == Err::<
                (Seq<u8>, int),
                DecodeError,
            >(e),
        },
{
    if count > buf.len() || pos > buf.len() - count {
        return Err(DecodeError::UnexpectedEof);
    }
    let out = copy_range(buf, pos, count);
    Ok((out, pos + count))
}

/// Decodes a compact length prefix.
#[verifier::rlimit(50)]
#[verifier::spinoff_prover]
pub fn decode_compact(buf: &Vec<u8>, pos: usize) -> (r: Result<(u64, usize), DecodeError>)
    ensures
        match r {
            Ok((v, p2)) => spec_decode_compact(buf@, pos as int) == Ok::<(u64, int), DecodeError>(
                (v, p2 as int),
            ) && pos < p2 <= buf@.len(),
            Err(e) => spec_decode_compact(buf@, pos as int) == Err::<(u64, int), DecodeError>(e),
        },
{
    let buf_len = buf.len();
    if pos >= buf_len {
        return Err(DecodeError::UnexpectedEof);
    }
    let b = buf[pos];
    let mode = b % 4;
    if mode == 0 {
        Ok(((b / 4) as u64, pos + 1))
    } else if mode == 1 {
        match decode_uint_le(buf, pos, 2) {
            Ok((v, p2)) => Ok((v / 4, p2)),
            Err(_) => Err(DecodeError::InvalidCompactLength),
        }
    } else if mode == 2 {
        match decode_uint_le(buf, pos, 4) {
            Ok((v, p2)) => Ok((v / 4, p2)),
            Err(_) => Err(DecodeError::InvalidCompactLength),
        }
    } else {
        let n = (b / 4) as usize + 4;
        let rem = buf.len() - pos - 1;
        if n > rem {
            return Err(DecodeError::InvalidCompactLength);
        }
        let start = pos + 1;
        let ghost full = buf@.subrange(start as int, start + n);
        let mut acc: u64 = 0;
        let mut mult: u64 = 1;
        let mut i: usize = 0;
        proof {
            assert(buf@.subrange(start as int, start as int) =~= Seq::<u8>::empty());
        }
        while i < n
            invariant
                i <= n,
                start == pos + 1,
                buf_len == buf@.len(),
                start + n <= buf_len,
                pos < buf_len,
                b == buf@[pos as int],
                b % 4 == 3,
                n == b / 4 + 4,
                full == buf@.subrange(start as int, start + n),
                i <= 8 ==> acc as nat == le_value(buf@.subrange(start as int, start + i)),
                i < 8 ==> mult as nat == pow256(i as nat),
                i > 8 ==> acc as nat == le_value(buf@.subrange(start as int, start + 8)),
                i > 8 ==> forall|j: int| 8 <= j < i ==> #[trigger] buf@[start + j] == 0,
            decreases n - i,
        {
            let byte = buf[start + i];
            if i < 8 {
                proof {
                    let pre = buf@.subrange(start as int, start + i);
                    lemma_le_value_bound(pre);
                    lemma_le_value_push(pre, byte);
                    assert(buf@.subrange(start as int, start + i + 1) =~= pre.push(byte));
                    assert(acc as nat + (byte as nat) * pow256(i as nat) < pow256((i + 1) as nat))
                        by (nonlinear_arith)
                        requires
                            (acc as nat) < pow256(i as nat),
                            byte < 256,
                            pow256((i + 1) as nat) == 256 * pow256(i as nat),
                    ;
                    lemma_pow256_monotonic((i + 1) as nat, 8);
                    reveal_with_fuel(pow256, 9);
                    assert(pow256(8) == 0x1_0000_0000_0000_0000);
                }
                acc = acc + (byte as u64) * mult;
                if i < 7 {
                    proof {
                        lemma_pow256_monotonic((i + 2) as nat, 8);
                    }
                    mult = mult * 256;
                }
            } else if byte != 0 {
                proof {
                    let head = buf@.subrange(start as int, start + 8);
                    let tail = buf@.subrange(start + 8, start + n);
                    assert(full =~= head + tail);
                    lemma_le_value_append(head, tail);
                    lemma_le_value_zero(tail);
                    crate::bytes_le::lemma_pow256_positive(8);
                    assert(tail[i - 8] == byte);
                    assert(le_value(tail) >= 1);
                    assert(pow256(8) * le_value(tail) >= pow256(8)) by (nonlinear_arith)
                        requires
                            le_value(tail) >= 1,
                            pow256(8) >= 1,
                    ;
                    assert(le_value(full) >= pow256(8));
                }
                return Err(DecodeError::CompactLengthOverflow);
            }
            i = i + 1;
        }
        proof {
            if n <= 8 {
                assert(full =~= buf@.subrange(start as int, start + n));
                lemma_le_value_bound(full);
                lemma_pow256_monotonic(n as nat, 8);
            } else {
                let head = buf@.subrange(start as int, start + 8);
                let tail = buf@.subrange(start + 8, start + n);
                assert(full =~= head + tail);
                lemma_le_value_append(head, tail);
                lemma_le_value_zero(tail);
                assert forall|j: int| 0 <= j < tail.len() implies tail[j] == 0 by {
                    assert(buf@[start + (j + 8)] == 0);
                    assert(tail[j] == buf@[start + 8 + j]);
                }
                assert(le_value(tail) == 0);
                lemma_le_value_bound(head);
            }
        }
        Ok((acc, start + n))
    }
}

/// Decodes a compact-length-prefixed byte array.
pub fn decode_bytes(buf: &Vec<u8>, pos: usize) -> (r: Result<(Vec<u8>, usize), DecodeError>)
    ensures
        match r {
            Ok((v, p2)) => spec_decode_bytes(buf@, pos as int) == Ok::<(Seq<u8>, int), DecodeError>(
                (v@, p2 as int),
            ) && pos < p2 <= buf@.len(),
            Err(e) => spec_decode_bytes(buf@, pos as int) == Err::<(Seq<u8>, int), DecodeError>(e),
        },
{
    let (n, p2) = match decode_compact(buf, pos) {
        Ok(t) => t,
        Err(e) => {
            return Err(e);
        },
    };
    if n > (buf.len() - p2) as u64 {
        return Err(DecodeError::UnexpectedEof);
    }
    let count = n as usize;
    let out = copy_range(buf, p2, count);
    Ok((out, p2 + count))
}

} // verus!
