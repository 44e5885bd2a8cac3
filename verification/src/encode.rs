//! Encoders for the wire format, the inverses of the decoders. The spec
//! encoders define, value by value, the byte sequence a record lays out on
//! the wire; the executable encoders produce exactly those bytes. They give
//! the round-trip law its other half and tests their buffers.

use vstd::prelude::*;

use crate::bytes_le::le_bytes;
use crate::bytes_le::pow256;
use crate::types::BlockchainTimestamp;
use crate::types::Category;
use crate::types::CategoryView;
use crate::types::ChildPositionInParentCategory;
use crate::types::ModerationAction;
use crate::types::ModerationActionView;
use crate::types::Post;
use crate::types::PostTextChange;
use crate::types::PostTextChangeView;
use crate::types::PostView;
use crate::types::Thread;
use crate::types::ThreadView;
use crate::types::view_opt_moderation;
use crate::types::view_text_changes;

verus! {

/// A 32-bit integer: four little-endian bytes.
pub open spec fn spec_encode_u32(v: u32) -> Seq<u8> {
    le_bytes(v as nat, 4)
}

/// A 64-bit integer: eight little-endian bytes.
pub open spec fn spec_encode_u64(v: u64) -> Seq<u8> {
    le_bytes(v as nat, 8)
}

/// A boolean: one byte, 1 for true and 0 for false.
pub open spec fn spec_encode_bool(v: bool) -> Seq<u8> {
    if v {
        seq![1u8]
    } else {
        seq![0u8]
    }
}

/// How many bytes the big mode of the compact encoding needs for `v`:
/// the least width that holds it, and never fewer than four.
pub open spec fn compact_big_len(v: u64) -> nat {
    if v < 0x1_0000_0000 {
        4
    } else if v < 0x100_0000_0000 {
        5
    } else if v < 0x1_0000_0000_0000 {
        6
    } else if v < 0x100_0000_0000_0000 {
        7
    } else {
        8
    }
}

/// The compact length prefix: the smallest mode that holds the value.
/// Values below 64 take one byte, below 16384 two, below 2^30 four, and
/// anything larger a leading count byte plus the value's own bytes.
pub open spec fn spec_encode_compact(v: u64) -> Seq<u8> {
    if v < 64 {
        seq![(4 * v) as u8]
    } else if v < 16384 {
        le_bytes(4 * (v as nat) + 1, 2)
    } else if v < 0x4000_0000 {
        le_bytes(4 * (v as nat) + 2, 4)
    } else {
        seq![((compact_big_len(v) - 4) * 4 + 3) as u8] + le_bytes(v as nat, compact_big_len(v))
    }
}

/// A byte array: its compact length, then its bytes.
pub open spec fn spec_encode_bytes(b: Seq<u8>) -> Seq<u8> {
    spec_encode_compact(b.len() as u64) + b
}

/// An account: its raw bytes, no prefix.
pub open spec fn spec_encode_account(a: Seq<u8>) -> Seq<u8> {
    a
}

/// A timestamp: block number, then moment.
pub open spec fn spec_encode_timestamp(t: BlockchainTimestamp) -> Seq<u8> {
    spec_encode_u64(t.block) + spec_encode_u64(t.time)
}

/// A moderation action: timestamp, moderator account, rationale.
pub open spec fn spec_encode_moderation(m: ModerationActionView) -> Seq<u8> {
    spec_encode_timestamp(m.moderated_at) + spec_encode_account(m.moderator_id)
        + spec_encode_bytes(m.rationale)
}

/// An optional moderation action: a discriminant byte, then the value.
pub open spec fn spec_encode_opt_moderation(m: Option<ModerationActionView>) -> Seq<u8> {
    match m {
        None => seq![0u8],
        Some(a) => seq![1u8] + spec_encode_moderation(a),
    }
}

/// One retired revision: timestamp, then the expired text.
pub open spec fn spec_encode_text_change(t: PostTextChangeView) -> Seq<u8> {
    spec_encode_timestamp(t.expired_at) + spec_encode_bytes(t.text)
}

/// Consecutive retired revisions, in order, no separators.
pub open spec fn spec_encode_text_change_seq(s: Seq<PostTextChangeView>) -> Seq<u8>
    decreases s.len(),
{
    if s.len() == 0 {
        Seq::empty()
    } else {
        spec_encode_text_change(s[0]) + spec_encode_text_change_seq(s.drop_first())
    }
}

/// A revision history: its compact count, then the revisions.
pub open spec fn spec_encode_text_change_history(s: Seq<PostTextChangeView>) -> Seq<u8> {
    spec_encode_compact(s.len() as u64) + spec_encode_text_change_seq(s)
}

/// A child position: parent identifier, then the position.
pub open spec fn spec_encode_child_position(c: ChildPositionInParentCategory) -> Seq<u8> {
    spec_encode_u64(c.parent_id) + spec_encode_u32(c.child_nr_in_parent_category)
}

/// An optional child position: a discriminant byte, then the value.
pub open spec fn spec_encode_opt_child_position(c: Option<ChildPositionInParentCategory>) -> Seq<
    u8,
> {
    match c {
        None => seq![0u8],
        Some(p) => seq![1u8] + spec_encode_child_position(p),
    }
}

/// A post: its fields in declared order, concatenated.
pub open spec fn spec_encode_post(v: PostView) -> Seq<u8> {
    spec_encode_u64(v.id) + spec_encode_u64(v.thread_id) + spec_encode_u32(v.nr_in_thread)
        + spec_encode_bytes(v.current_text) + spec_encode_opt_moderation(v.moderation)
        + spec_encode_text_change_history(v.text_change_history) + spec_encode_timestamp(
        v.created_at,
    ) + spec_encode_account(v.author_id)
}

/// A thread: its fields in declared order, concatenated.
pub open spec fn spec_encode_thread(v: ThreadView) -> Seq<u8> {
    spec_encode_u64(v.id) + spec_encode_bytes(v.title) + spec_encode_u64(v.category_id)
        + spec_encode_u32(v.nr_in_category) + spec_encode_opt_moderation(v.moderation)
        + spec_encode_u32(v.num_unmoderated_posts) + spec_encode_u32(v.num_moderated_posts)
        + spec_encode_timestamp(v.created_at) + spec_encode_account(v.author_id)
}

/// A category: its fields in declared order, concatenated.
pub open spec fn spec_encode_category(v: CategoryView) -> Seq<u8> {
    spec_encode_u64(v.id) + spec_encode_bytes(v.title) + spec_encode_bytes(v.description)
        + spec_encode_timestamp(v.created_at) + spec_encode_bool(v.deleted) + spec_encode_bool(
        v.archived,
    ) + spec_encode_u32(v.num_direct_subcategories) + spec_encode_u32(
        v.num_direct_unmoderated_threads,
    ) + spec_encode_u32(v.num_direct_moderated_threads) + spec_encode_opt_child_position(
        v.position_in_parent_category,
    ) + spec_encode_account(v.moderator_id)
}

/// The low bytes of a value laid out one more byte at a time.
proof fn lemma_le_bytes_snoc(v: nat, i: nat)
    ensures
        le_bytes(v, i + 1) == le_bytes(v, i).push((((v / pow256(i)) % 256) as u8)),
    decreases i,
{
    if i == 0 {
        reveal_with_fuel(le_bytes, 3);
        assert(pow256(0) == 1);
        assert(v / 1 == v) by (nonlinear_arith);
        assert(le_bytes(v, 1) =~= le_bytes(v, 0).push(((v / pow256(0)) % 256) as u8));
    } else {
        lemma_le_bytes_snoc(v / 256, (i - 1) as nat);
        assert((v / 256) / pow256((i - 1) as nat) == v / pow256(i)) by {
            crate::bytes_le::lemma_pow256_positive((i - 1) as nat);
            vstd::arithmetic::div_mod::lemma_div_denominator(
                v as int,
                256,
                pow256((i - 1) as nat) as int,
            );
        }
        assert(le_bytes(v, i + 1) =~= le_bytes(v, i).push((((v / pow256(i)) % 256) as u8)));
    }
}

/// Appends the `width` low little-endian bytes of `v`.
fn encode_uint_le_into(out: &mut Vec<u8>, v: u64, width: usize)
    ensures
        final(out)@ == old(out)@ + le_bytes(v as nat, width as nat),
{
    let mut x: u64 = v;
    let mut i: usize = 0;
    proof {
        assert(out@ =~= out@ + le_bytes(v as nat, 0));
        assert(pow256(0) == 1);
        assert((v as nat) / 1 == v as nat) by (nonlinear_arith);
    }
    while i < width
        invariant
            i <= width,
            out@ == old(out)@ + le_bytes(v as nat, i as nat),
            x as nat == (v as nat) / pow256(i as nat),
        decreases width - i,
    {
        let byte = (x % 256) as u8;
        proof {
            lemma_le_bytes_snoc(v as nat, i as nat);
            assert(old(out)@ + le_bytes(v as nat, (i + 1) as nat) =~= (old(out)@ + le_bytes(
                v as nat,
                i as nat,
            )).push(byte));
            assert((v as nat) / pow256((i + 1) as nat) == ((v as nat) / pow256(i as nat)) / 256)
                by {
                crate::bytes_le::lemma_pow256_positive(i as nat);
                vstd::arithmetic::div_mod::lemma_div_denominator(
                    v as int,
                    pow256(i as nat) as int,
                    256,
                );
            }
        }
        out.push(byte);
        x = x / 256;
        i = i + 1;
    }
}

/// Appends the bytes of `b`.
fn append_bytes(out: &mut Vec<u8>, b: &Vec<u8>)
    ensures
        final(out)@ == old(out)@ + b@,
{
    let mut i: usize = 0;
    proof {
        assert(out@ =~= out@ + b@.take(0));
    }
    while i < b.len()
        invariant
            i <= b@.len(),
            out@ == old(out)@ + b@.take(i as int),
        decreases b@.len() - i,
    {
        proof {
            assert(old(out)@ + b@.take(i + 1) =~= (old(out)@ + b@.take(i as int)).push(b@[i as int]));
        }
        out.push(b[i]);
        i = i + 1;
    }
    proof {
        assert(b@.take(b@.len() as int) =~= b@);
    }
}

/// Appends the encoding of a 64-bit integer.
pub fn encode_u64_into(out: &mut Vec<u8>, v: u64)
    ensures
        final(out)@ == old(out)@ + spec_encode_u64(v),
{
    encode_uint_le_into(out, v, 8)
}

/// Appends the encoding of a 32-bit integer.
pub fn encode_u32_into(out: &mut Vec<u8>, v: u32)
    ensures
        final(out)@ == old(out)@ + spec_encode_u32(v),
{
    encode_uint_le_into(out, v as u64, 4)
}

/// Appends the encoding of a boolean.
pub fn encode_bool_into(out: &mut Vec<u8>, v: bool)
    ensures
        final(out)@ == old(out)@ + spec_encode_bool(v),
{
    let byte: u8 = if v {
        1
    } else {
        0
    };
    proof {
        assert(old(out)@.push(byte) =~= old(out)@ + spec_encode_bool(v));
    }
    out.push(byte);
}

/// Appends the compact length prefix for `v`, in its smallest mode.
pub fn encode_compact_into(out: &mut Vec<u8>, v: u64)
    ensures
        final(out)@ == old(out)@ + spec_encode_compact(v),
{
    if v < 64 {
        let byte = (4 * v) as u8;
        proof {
            assert(old(out)@.push(byte) =~= old(out)@ + spec_encode_compact(v));
        }
        out.push(byte);
    } else if v < 16384 {
        encode_uint_le_into(out, 4 * v + 1, 2);
    } else if v < 0x4000_0000 {
        encode_uint_le_into(out, 4 * v + 2, 4);
    } else {
        let n: usize = if v < 0x1_0000_0000 {
            4
        } else if v < 0x100_0000_0000 {
            5
        } else if v < 0x1_0000_0000_0000 {
            6
        } else if v < 0x100_0000_0000_0000 {
            7
        } else {
            8
        };
        let byte = ((n as u8) - 4) * 4 + 3;
        out.push(byte);
        encode_uint_le_into(out, v, n);
        proof {
            assert(out@ =~= old(out)@ + spec_encode_compact(v));
        }
    }
}

/// Appends the encoding of a byte array: compact length, then the bytes.
pub fn encode_bytes_into(out: &mut Vec<u8>, b: &Vec<u8>)
    ensures
        final(out)@ == old(out)@ + spec_encode_bytes(b@),
{
    encode_compact_into(out, b.len() as u64);
    append_bytes(out, b);
    proof {
        assert(out@ =~= old(out)@ + spec_encode_bytes(b@));
    }
}

/// Appends the encoding of an account: its raw bytes.
pub fn encode_account_into(out: &mut Vec<u8>, a: &Vec<u8>)
    ensures
        final(out)@ == old(out)@ + spec_encode_account(a@),
{
    append_bytes(out, a);
}

/// Appends the encoding of a timestamp.
pub fn encode_timestamp_into(out: &mut Vec<u8>, t: &BlockchainTimestamp)
    ensures
        final(out)@ == old(out)@ + spec_encode_timestamp(*t),
{
    encode_u64_into(out, t.block);
    encode_u64_into(out, t.time);
    proof {
        assert(out@ =~= old(out)@ + spec_encode_timestamp(*t));
    }
}

/// Appends the encoding of a moderation action.
pub fn encode_moderation_into(out: &mut Vec<u8>, m: &ModerationAction)
    ensures
        final(out)@ == old(out)@ + spec_encode_moderation(m@),
{
    encode_timestamp_into(out, &m.moderated_at);
    encode_account_into(out, &m.moderator_id);
    encode_bytes_into(out, &m.rationale);
    proof {
        assert(out@ =~= old(out)@ + spec_encode_moderation(m@));
    }
}

/// Appends the encoding of an optional moderation action.
pub fn encode_opt_moderation_into(out: &mut Vec<u8>, m: &Option<ModerationAction>)
    ensures
        final(out)@ == old(out)@ + spec_encode_opt_moderation(view_opt_moderation(*m)),
{
    match m {
        None => {
            proof {
                assert(old(out)@.push(0u8) =~= old(out)@ + spec_encode_opt_moderation(
                    view_opt_moderation(*m),
                ));
            }
            out.push(0);
        },
        Some(a) => {
            out.push(1);
            encode_moderation_into(out, a);
            proof {
                assert(out@ =~= old(out)@ + spec_encode_opt_moderation(view_opt_moderation(*m)));
            }
        },
    }
}

/// Appends the encoding of one retired revision.
pub fn encode_text_change_into(out: &mut Vec<u8>, t: &PostTextChange)
    ensures
        final(out)@ == old(out)@ + spec_encode_text_change(t@),
{
    encode_timestamp_into(out, &t.expired_at);
    encode_bytes_into(out, &t.text);
    proof {
        assert(out@ =~= old(out)@ + spec_encode_text_change(t@));
    }
}

/// Encoding a sequence of revisions one more revision at a time.
proof fn lemma_encode_text_change_seq_push(s: Seq<PostTextChangeView>, x: PostTextChangeView)
    ensures
        spec_encode_text_change_seq(s.push(x)) == spec_encode_text_change_seq(s)
            + spec_encode_text_change(x),
    decreases s.len(),
{
    if s.len() == 0 {
        assert(s.push(x).drop_first() =~= Seq::<PostTextChangeView>::empty());
        assert(s.push(x)[0] == x);
        assert(spec_encode_text_change_seq(Seq::<PostTextChangeView>::empty())
            == Seq::<u8>::empty());
        assert(spec_encode_text_change_seq(s.push(x)) == spec_encode_text_change(x)
            + Seq::<u8>::empty());
        assert(spec_encode_text_change_seq(s) == Seq::<u8>::empty());
        assert(spec_encode_text_change(x) + Seq::<u8>::empty() =~= Seq::<u8>::empty()
            + spec_encode_text_change(x));
    } else {
        assert(s.push(x).drop_first() =~= s.drop_first().push(x));
        lemma_encode_text_change_seq_push(s.drop_first(), x);
        assert(s.push(x)[0] == s[0]);
        assert(spec_encode_text_change(s[0]) + (spec_encode_text_change_seq(s.drop_first())
            + spec_encode_text_change(x)) =~= (spec_encode_text_change(s[0])
            + spec_encode_text_change_seq(s.drop_first())) + spec_encode_text_change(x));
    }
}

/// Appends the encoding of a revision history: count, then revisions.
pub fn encode_text_change_history_into(out: &mut Vec<u8>, v: &Vec<PostTextChange>)
    ensures
        final(out)@ == old(out)@ + spec_encode_text_change_history(view_text_changes(v@)),
{
    let ghost vs = view_text_changes(v@);
    encode_compact_into(out, v.len() as u64);
    let ghost mid = out@;
    let mut i: usize = 0;
    proof {
        assert(vs.take(0) =~= Seq::<PostTextChangeView>::empty());
        assert(out@ =~= mid + spec_encode_text_change_seq(vs.take(0)));
    }
    while i < v.len()
        invariant
            i <= v@.len(),
            vs == view_text_changes(v@),
            vs.len() == v@.len(),
            out@ == mid + spec_encode_text_change_seq(vs.take(i as int)),
        decreases v@.len() - i,
    {
        proof {
            assert(vs.take(i + 1) =~= vs.take(i as int).push(vs[i as int]));
            lemma_encode_text_change_seq_push(vs.take(i as int), vs[i as int]);
            assert(vs[i as int] == v@[i as int]@);
        }
        encode_text_change_into(out, &v[i]);
        proof {
            assert(out@ =~= mid + spec_encode_text_change_seq(vs.take(i + 1)));
        }
        i = i + 1;
    }
    proof {
        assert(vs.take(vs.len() as int) =~= vs);
        assert(out@ =~= old(out)@ + spec_encode_text_change_history(vs));
    }
}

/// Appends the encoding of a child position.
pub fn encode_child_position_into(out: &mut Vec<u8>, c: &ChildPositionInParentCategory)
    ensures
        final(out)@ == old(out)@ + spec_encode_child_position(*c),
{
    encode_u64_into(out, c.parent_id);
    encode_u32_into(out, c.child_nr_in_parent_category);
    proof {
        assert(out@ =~= old(out)@ + spec_encode_child_position(*c));
    }
}

/// Appends the encoding of an optional child position.
pub fn encode_opt_child_position_into(out: &mut Vec<u8>, c: &Option<ChildPositionInParentCategory>)
    ensures
        final(out)@ == old(out)@ + spec_encode_opt_child_position(*c),
{
    match c {
        None => {
            proof {
                assert(old(out)@.push(0u8) =~= old(out)@ + spec_encode_opt_child_position(*c));
            }
            out.push(0);
        },
        Some(p) => {
            out.push(1);
            encode_child_position_into(out, p);
            proof {
                assert(out@ =~= old(out)@ + spec_encode_opt_child_position(*c));
            }
        },
    }
}

/// Encodes a post into a fresh buffer.
pub fn encode_post(p: &Post) -> (r: Vec<u8>)
    ensures
        r@ == spec_encode_post(p@),
{
    let mut out: Vec<u8> = Vec::new();
    encode_u64_into(&mut out, p.id);
    encode_u64_into(&mut out, p.thread_id);
    encode_u32_into(&mut out, p.nr_in_thread);
    encode_bytes_into(&mut out, &p.current_text);
    encode_opt_moderation_into(&mut out, &p.moderation);
    encode_text_change_history_into(&mut out, &p.text_change_history);
    encode_timestamp_into(&mut out, &p.created_at);
    encode_account_into(&mut out, &p.author_id);
    proof {
        assert(out@ =~= spec_encode_post(p@));
    }
    out
}

/// Encodes a thread into a fresh buffer.
pub fn encode_thread(t: &Thread) -> (r: Vec<u8>)
    ensures
        r@ == spec_encode_thread(t@),
{
    let mut out: Vec<u8> = Vec::new();
    encode_u64_into(&mut out, t.id);
    encode_bytes_into(&mut out, &t.title);
    encode_u64_into(&mut out, t.category_id);
    encode_u32_into(&mut out, t.nr_in_category);
    encode_opt_moderation_into(&mut out, &t.moderation);
    encode_u32_into(&mut out, t.num_unmoderated_posts);
    encode_u32_into(&mut out, t.num_moderated_posts);
    encode_timestamp_into(&mut out, &t.created_at);
    encode_account_into(&mut out, &t.author_id);
    proof {
        assert(out@ =~= spec_encode_thread(t@));
    }
    out
}

/// Encodes a category into a fresh buffer.
pub fn encode_category(c: &Category) -> (r: Vec<u8>)
    ensures
        r@ == spec_encode_category(c@),
{
    let mut out: Vec<u8> = Vec::new();
    encode_u64_into(&mut out, c.id);
    encode_bytes_into(&mut out, &c.title);
    encode_bytes_into(&mut out, &c.description);
    encode_timestamp_into(&mut out, &c.created_at);
    encode_bool_into(&mut out, c.deleted);
    encode_bool_into(&mut out, c.archived);
    encode_u32_into(&mut out, c.num_direct_subcategories);
    encode_u32_into(&mut out, c.num_direct_unmoderated_threads);
    encode_u32_into(&mut out, c.num_direct_moderated_threads);
    encode_opt_child_position_into(&mut out, &c.position_in_parent_category);
    encode_account_into(&mut out, &c.moderator_id);
    proof {
        assert(out@ =~= spec_encode_category(c@));
    }
    out
}

} // verus!
