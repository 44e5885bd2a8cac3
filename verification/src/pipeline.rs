//! The decode pipeline: hex-string entry points for single records, and
//! ordered-collection decoders that turn `(identifier, byte buffer)` pairs
//! into `(identifier, decoded record)` pairs, preserving input order and
//! identifiers. Each pair decodes independently, and a failure is collected
//! per item rather than aborting the whole run.

use vstd::prelude::*;

use crate::error::DecodeError;
use crate::records::decode_category_record;
use crate::records::decode_post_record;
use crate::records::decode_thread_record;
use crate::records::spec_decode_category_record;
use crate::records::spec_decode_post_record;
use crate::records::spec_decode_thread_record;
use crate::types::Category;
use crate::types::CategoryView;
use crate::types::Post;
use crate::types::PostView;
use crate::types::Thread;
use crate::types::ThreadView;

verus! {

/// Whether `c` is an ASCII hexadecimal digit, either case.
pub open spec fn is_hex_digit(c: char) -> bool {
    (48 <= c as u32 && c as u32 <= 57)  // '0' to '9'
    || (97 <= c as u32 && c as u32 <= 102)  // 'a' to 'f'
    || (65 <= c as u32 && c as u32 <= 70)  // 'A' to 'F'

}

/// The value of an ASCII hexadecimal digit.
pub open spec fn hex_digit_value(c: char) -> nat {
    if 48 <= c as u32 && c as u32 <= 57 {
        (c as u32 - 48) as nat
    } else if 97 <= c as u32 && c as u32 <= 102 {
        (c as u32 - 87) as nat
    } else {
        (c as u32 - 55) as nat
    }
}

/// A well-formed hex string: an even number of hex digits, nothing else.
pub open spec fn is_hex_string(s: Seq<char>) -> bool {
    s.len() % 2 == 0 && (forall|i: int| 0 <= i < s.len() ==> is_hex_digit(#[trigger] s[i]))
}

/// The bytes a well-formed hex string denotes: two digits per byte, the
/// first digit the high nibble.
#[verifier::opaque]
pub open spec fn hex_bytes(s: Seq<char>) -> Seq<u8> {
    Seq::new(
        (s.len() / 2) as nat,
        |i: int| (hex_digit_value(s[2 * i]) * 16 + hex_digit_value(s[2 * i + 1])) as u8,
    )
}

/// Relies on hex::decode: a string of an even number of ASCII hex digits
/// (either case, no `0x` prefix) decodes to the bytes it denotes, two
/// digits per byte, high nibble first; any other string is refused with an
/// error.
#[verifier::external_body]
fn hex_decode(s: &str) -> (r: Option<Vec<u8>>)
    ensures
        r is Some <==> is_hex_string(s@),
        match r {
            Some(v) => v@ == hex_bytes(s@),
            None => true,
        },
{
    match hex::decode(s.as_bytes()) {
        Ok(v) => Some(v),
        Err(_) => None,
    }
}

/// Decodes one post from a hex-encoded buffer (no `0x` prefix).
#[verifier::rlimit(50)]
pub fn decode_post(encoded: &str) -> (r: Result<Post, DecodeError>)
    ensures
        is_hex_string(encoded@) ==> post_item_decoded(hex_bytes(encoded@), r),
        !is_hex_string(encoded@) ==> r == Err::<Post, DecodeError>(
            DecodeError::MalformedInputEnvelope,
        ),
{
    let bytes = match hex_decode(encoded) {
        Some(b) => b,
        None => {
            return Err(DecodeError::MalformedInputEnvelope);
        },
    };
    proof {
        assert(bytes@ == hex_bytes(encoded@));
    }
    decode_post_record(&bytes)
}

/// Decodes one thread from a hex-encoded buffer (no `0x` prefix).
#[verifier::rlimit(50)]
pub fn decode_thread(encoded: &str) -> (r: Result<Thread, DecodeError>)
    ensures
        is_hex_string(encoded@) ==> thread_item_decoded(hex_bytes(encoded@), r),
        !is_hex_string(encoded@) ==> r == Err::<Thread, DecodeError>(
            DecodeError::MalformedInputEnvelope,
        ),
{
    let bytes = match hex_decode(encoded) {
        Some(b) => b,
        None => {
            return Err(DecodeError::MalformedInputEnvelope);
        },
    };
    decode_thread_record(&bytes)
}

/// Decodes one category from a hex-encoded buffer (no `0x` prefix).
#[verifier::rlimit(50)]
pub fn decode_category(encoded: &str) -> (r: Result<Category, DecodeError>)
    ensures
        is_hex_string(encoded@) ==> category_item_decoded(hex_bytes(encoded@), r),
        !is_hex_string(encoded@) ==> r == Err::<Category, DecodeError>(
            DecodeError::MalformedInputEnvelope,
        ),
{
    let bytes = match hex_decode(encoded) {
        Some(b) => b,
        None => {
            return Err(DecodeError::MalformedInputEnvelope);
        },
    };
    decode_category_record(&bytes)
}

/// What the collection decoders promise of one output slot: the decode of
/// that slot's own buffer, and nothing else, decides it.
pub open spec fn category_item_decoded(s: Seq<u8>, r: Result<Category, DecodeError>) -> bool {
    match r {
        Ok(v) => spec_decode_category_record(s) == Ok::<CategoryView, DecodeError>(v@),
        Err(e) => spec_decode_category_record(s) == Err::<CategoryView, DecodeError>(e),
    }
}

/// As `category_item_decoded`, for threads.
pub open spec fn thread_item_decoded(s: Seq<u8>, r: Result<Thread, DecodeError>) -> bool {
    match r {
        Ok(v) => spec_decode_thread_record(s) == Ok::<ThreadView, DecodeError>(v@),
        Err(e) => spec_decode_thread_record(s) == Err::<ThreadView, DecodeError>(e),
    }
}

/// As `category_item_decoded`, for posts.
pub open spec fn post_item_decoded(s: Seq<u8>, r: Result<Post, DecodeError>) -> bool {
    match r {
        Ok(v) => spec_decode_post_record(s) == Ok::<PostView, DecodeError>(v@),
        Err(e) => spec_decode_post_record(s) == Err::<PostView, DecodeError>(e),
    }
}

/// Decodes an ordered collection of `(identifier, buffer)` category pairs,
/// preserving order and identifiers; each buffer decodes independently and
/// failures are collected per item.
pub fn decode_categories(items: &Vec<(u64, Vec<u8>)>) -> (r: Vec<
    (u64, Result<Category, DecodeError>),
>)
    ensures
        r@.len() == items@.len(),
        forall|i: int|
            0 <= i < items@.len() ==> (#[trigger] r@[i]).0 == items@[i].0
                && category_item_decoded(items@[i].1@, r@[i].1),
{
    let mut out: Vec<(u64, Result<Category, DecodeError>)> = Vec::new();
    let mut i: usize = 0;
    while i < items.len()
        invariant
            i <= items@.len(),
            out@.len() == i,
            forall|j: int|
                0 <= j < i ==> (#[trigger] out@[j]).0 == items@[j].0 && category_item_decoded(
                    items@[j].1@,
                    out@[j].1,
                ),
        decreases items@.len() - i,
    {
        let id = items[i].0;
        let dec = decode_category_record(&items[i].1);
        out.push((id, dec));
        i = i + 1;
    }
    out
}

/// As `decode_categories`, for threads.
pub fn decode_threads(items: &Vec<(u64, Vec<u8>)>) -> (r: Vec<(u64, Result<Thread, DecodeError>)>)
    ensures
        r@.len() == items@.len(),
        forall|i: int|
            0 <= i < items@.len() ==> (#[trigger] r@[i]).0 == items@[i].0 && thread_item_decoded(
                items@[i].1@,
                r@[i].1,
            ),
{
    let mut out: Vec<(u64, Result<Thread, DecodeError>)> = Vec::new();
    let mut i: usize = 0;
    while i < items.len()
        invariant
            i <= items@.len(),
            out@.len() == i,
            forall|j: int|
                0 <= j < i ==> (#[trigger] out@[j]).0 == items@[j].0 && thread_item_decoded(
                    items@[j].1@,
                    out@[j].1,
                ),
        decreases items@.len() - i,
    {
        let id = items[i].0;
        let dec = decode_thread_record(&items[i].1);
        out.push((id, dec));
        i = i + 1;
    }
    out
}

/// As `decode_categories`, for posts.
pub fn decode_posts(items: &Vec<(u64, Vec<u8>)>) -> (r: Vec<(u64, Result<Post, DecodeError>)>)
    ensures
        r@.len() == items@.len(),
        forall|i: int|
            0 <= i < items@.len() ==> (#[trigger] r@[i]).0 == items@[i].0 && post_item_decoded(
                items@[i].1@,
                r@[i].1,
            ),
{
    let mut out: Vec<(u64, Result<Post, DecodeError>)> = Vec::new();
    let mut i: usize = 0;
    while i < items.len()
        invariant
            i <= items@.len(),
            out@.len() == i,
            forall|j: int|
                0 <= j < i ==> (#[trigger] out@[j]).0 == items@[j].0 && post_item_decoded(
                    items@[j].1@,
                    out@[j].1,
                ),
        decreases items@.len() - i,
    {
        let id = items[i].0;
        let dec = decode_post_record(&items[i].1);
        out.push((id, dec));
        i = i + 1;
    }
    out
}

} // verus!
