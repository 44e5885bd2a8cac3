//! The laws the codec obeys, proved once and for all values: encoding then
//! decoding returns the value unchanged; the compact length prefix selects
//! its mode exactly by the documented boundaries; an optional field costs
//! one byte plus its value; and records in a collection decode
//! independently of one another.

use vstd::prelude::*;

use crate::bytes_le::le_bytes;
use crate::bytes_le::lemma_le_bytes_len;
use crate::bytes_le::lemma_le_value_le_bytes;
use crate::bytes_le::pow256;
use crate::codec::spec_decode_bool;
use crate::codec::spec_decode_bytes;
use crate::codec::spec_decode_compact;
use crate::codec::spec_decode_raw;
use crate::codec::spec_decode_u32;
use crate::codec::spec_decode_u64;
use crate::encode::compact_big_len;
use crate::encode::spec_encode_bool;
use crate::encode::spec_encode_bytes;
use crate::encode::spec_encode_category;
use crate::encode::spec_encode_child_position;
use crate::encode::spec_encode_compact;
use crate::encode::spec_encode_moderation;
use crate::encode::spec_encode_opt_child_position;
use crate::encode::spec_encode_opt_moderation;
use crate::encode::spec_encode_post;
use crate::encode::spec_encode_text_change;
use crate::encode::spec_encode_text_change_history;
use crate::encode::spec_encode_text_change_seq;
use crate::encode::spec_encode_thread;
use crate::encode::spec_encode_timestamp;
use crate::encode::spec_encode_u32;
use crate::encode::spec_encode_u64;
use crate::error::DecodeError;
use crate::records::spec_decode_account;
use crate::records::spec_decode_category;
use crate::records::spec_decode_category_record;
use crate::records::spec_decode_child_position;
use crate::records::spec_decode_moderation;
use crate::records::spec_decode_opt_child_position;
use crate::records::spec_decode_opt_moderation;
use crate::records::spec_decode_post;
use crate::records::spec_decode_post_record;
use crate::records::spec_decode_text_change;
use crate::records::spec_decode_text_change_history;
use crate::records::spec_decode_text_change_seq;
use crate::records::spec_decode_thread;
use crate::records::spec_decode_thread_record;
use crate::records::spec_decode_timestamp;
use crate::types::BlockchainTimestamp;
use crate::types::CategoryView;
use crate::types::ChildPositionInParentCategory;
use crate::types::ModerationActionView;
use crate::types::PostTextChangeView;
use crate::types::PostView;
use crate::types::ThreadView;
use crate::types::wf_category;
use crate::types::wf_moderation;
use crate::types::wf_post;
use crate::types::wf_text_change;
use crate::types::wf_thread;

verus! {

/// The compact length prefix selects its mode exactly by the documented
/// boundaries: one byte up to 63, two bytes up to 16383, four bytes up to
/// 2^30 - 1, and a count byte plus at least four value bytes beyond that.
pub proof fn lemma_compact_mode_boundaries(v: u64)
    ensures
        v < 64 ==> spec_encode_compact(v).len() == 1,
        64 <= v < 16384 ==> spec_encode_compact(v).len() == 2,
        16384 <= v < 0x4000_0000 ==> spec_encode_compact(v).len() == 4,
        v >= 0x4000_0000 ==> spec_encode_compact(v).len() == 1 + compact_big_len(v)
            && compact_big_len(v) >= 4,
{
    if v < 64 {
    } else if v < 16384 {
        lemma_le_bytes_len(4 * (v as nat) + 1, 2);
    } else if v < 0x4000_0000 {
        lemma_le_bytes_len(4 * (v as nat) + 2, 4);
    } else {
        lemma_le_bytes_len(v as nat, compact_big_len(v));
    }
}

/// Taking a value modulo 256 does not change its low two bits.
proof fn lemma_mod256_mod4(h: nat)
    ensures
        (h % 256) % 4 == h % 4,
{
    vstd::arithmetic::div_mod::lemma_fundamental_div_mod(h as int, 256);
    vstd::arithmetic::div_mod::lemma_mod_multiples_vanish(
        64 * ((h as int) / 256),
        (h as int) % 256,
        4,
    );
}


/// A window into an embedded encoding equals the window into the
/// encoding itself.
proof fn lemma_subrange_of_subrange(s: Seq<u8>, pos: int, len: int, a: int, b: int)
    requires
        0 <= pos,
        pos + len <= s.len(),
        0 <= a <= b <= len,
    ensures
        s.subrange(pos + a, pos + b) == s.subrange(pos, pos + len).subrange(a, b),
{
    assert(s.subrange(pos + a, pos + b) =~= s.subrange(pos, pos + len).subrange(a, b));
}

/// A 64-bit integer decodes back from its encoding, wherever it is
/// embedded in a larger buffer.
pub proof fn lemma_decode_u64_encoded(s: Seq<u8>, pos: int, v: u64)
    requires
        0 <= pos,
        pos + 8 <= s.len(),
        s.subrange(pos, pos + 8) == spec_encode_u64(v),
    ensures
        spec_decode_u64(s, pos) == Ok::<(u64, int), DecodeError>((v, pos + 8)),
{
    reveal_with_fuel(pow256, 9);
    lemma_le_value_le_bytes(v as nat, 8);
}

/// As `lemma_decode_u64_encoded`, for 32-bit integers.
pub proof fn lemma_decode_u32_encoded(s: Seq<u8>, pos: int, v: u32)
    requires
        0 <= pos,
        pos + 4 <= s.len(),
        s.subrange(pos, pos + 4) == spec_encode_u32(v),
    ensures
        spec_decode_u32(s, pos) == Ok::<(u32, int), DecodeError>((v, pos + 4)),
{
    reveal_with_fuel(pow256, 5);
    lemma_le_value_le_bytes(v as nat, 4);
}

/// A boolean decodes back from its encoding.
pub proof fn lemma_decode_bool_encoded(s: Seq<u8>, pos: int, v: bool)
    requires
        0 <= pos,
        pos + 1 <= s.len(),
        s.subrange(pos, pos + 1) == spec_encode_bool(v),
    ensures
        spec_decode_bool(s, pos) == Ok::<(bool, int), DecodeError>((v, pos + 1)),
{
    assert(s[pos] == s.subrange(pos, pos + 1)[0]);
}

/// The compact length prefix decodes back from its encoding.
pub proof fn lemma_decode_compact_encoded(s: Seq<u8>, pos: int, v: u64)
    requires
        0 <= pos,
        pos + spec_encode_compact(v).len() <= s.len(),
        s.subrange(pos, pos + spec_encode_compact(v).len() as int) == spec_encode_compact(v),
    ensures
        spec_decode_compact(s, pos) == Ok::<(u64, int), DecodeError>(
            (v, pos + spec_encode_compact(v).len()),
        ),
{
    lemma_compact_mode_boundaries(v);
    reveal_with_fuel(pow256, 9);
    let enc = spec_encode_compact(v);
    assert(s[pos] == enc[0]);
    if v < 64 {
        assert(enc[0] == (4 * v) as u8);
        assert((4 * v) % 4 == 0) by (nonlinear_arith);
        assert((4 * v) / 4 == v as int) by (nonlinear_arith);
    } else if v < 16384 {
        let h = 4 * (v as nat) + 1;
        reveal_with_fuel(le_bytes, 3);
        assert(enc[0] == (h % 256) as u8);
        lemma_mod256_mod4(h);
        assert((4 * (v as nat) + 1) % 4 == 1) by (nonlinear_arith);
        assert(s.subrange(pos, pos + 2) =~= enc);
        lemma_le_value_le_bytes(h, 2);
        assert((4 * (v as nat) + 1) / 4 == v as int) by (nonlinear_arith);
    } else if v < 0x4000_0000 {
        let h = 4 * (v as nat) + 2;
        reveal_with_fuel(le_bytes, 3);
        assert(enc[0] == (h % 256) as u8);
        lemma_mod256_mod4(h);
        assert((4 * (v as nat) + 2) % 4 == 2) by (nonlinear_arith);
        assert(s.subrange(pos, pos + 4) =~= enc);
        lemma_le_value_le_bytes(h, 4);
        assert((4 * (v as nat) + 2) / 4 == v as int) by (nonlinear_arith);
    } else {
        let n = compact_big_len(v);
        let b = ((n - 4) * 4 + 3) as u8;
        assert(enc[0] == b);
        assert(b % 4 == 3 && b / 4 == n - 4);
        lemma_le_bytes_len(v as nat, n);
        lemma_subrange_of_subrange(s, pos, 1 + n as int, 1, 1 + n as int);
        assert(enc.subrange(1, 1 + n as int) =~= le_bytes(v as nat, n));
        assert((v as nat) < pow256(n));
        lemma_le_value_le_bytes(v as nat, n);
    }
}

/// A byte array decodes back from its encoding.
pub proof fn lemma_decode_bytes_encoded(s: Seq<u8>, pos: int, b: Seq<u8>)
    requires
        0 <= pos,
        b.len() < pow256(8),
        pos + spec_encode_bytes(b).len() <= s.len(),
        s.subrange(pos, pos + spec_encode_bytes(b).len() as int) == spec_encode_bytes(b),
    ensures
        spec_decode_bytes(s, pos) == Ok::<(Seq<u8>, int), DecodeError>(
            (b, pos + spec_encode_bytes(b).len()),
        ),
{
    reveal_with_fuel(pow256, 9);
    let n = b.len() as u64;
    let c = spec_encode_compact(n);
    let enc = spec_encode_bytes(b);
    lemma_compact_mode_boundaries(n);
    lemma_subrange_of_subrange(s, pos, enc.len() as int, 0, c.len() as int);
    assert(enc.subrange(0, c.len() as int) =~= c);
    lemma_decode_compact_encoded(s, pos, n);
    let p2 = pos + c.len();
    lemma_subrange_of_subrange(s, pos, enc.len() as int, c.len() as int, enc.len() as int);
    assert(enc.subrange(c.len() as int, enc.len() as int) =~= b);
}

/// An account decodes back from its raw embedding.
pub proof fn lemma_decode_account_encoded(s: Seq<u8>, pos: int, a: Seq<u8>)
    requires
        0 <= pos,
        a.len() == 32,
        pos + 32 <= s.len(),
        s.subrange(pos, pos + 32) == a,
    ensures
        spec_decode_account(s, pos) == Ok::<(Seq<u8>, int), DecodeError>((a, pos + 32)),
{
}

/// A timestamp decodes back from its encoding.
pub proof fn lemma_decode_timestamp_encoded(s: Seq<u8>, pos: int, t: BlockchainTimestamp)
    requires
        0 <= pos,
        pos + 16 <= s.len(),
        s.subrange(pos, pos + 16) == spec_encode_timestamp(t),
    ensures
        spec_decode_timestamp(s, pos) == Ok::<(BlockchainTimestamp, int), DecodeError>(
            (t, pos + 16),
        ),
{
    let enc = spec_encode_timestamp(t);
    lemma_le_bytes_len(t.block as nat, 8);
    lemma_le_bytes_len(t.time as nat, 8);
    lemma_subrange_of_subrange(s, pos, 16, 0, 8);
    assert(enc.subrange(0, 8) =~= spec_encode_u64(t.block));
    lemma_decode_u64_encoded(s, pos, t.block);
    lemma_subrange_of_subrange(s, pos, 16, 8, 16);
    assert(enc.subrange(8, 16) =~= spec_encode_u64(t.time));
    lemma_decode_u64_encoded(s, pos + 8, t.time);
}

/// A moderation action decodes back from its encoding.
pub proof fn lemma_decode_moderation_encoded(s: Seq<u8>, pos: int, m: ModerationActionView)
    requires
        0 <= pos,
        wf_moderation(m),
        pos + spec_encode_moderation(m).len() <= s.len(),
        s.subrange(pos, pos + spec_encode_moderation(m).len() as int) == spec_encode_moderation(m),
    ensures
        spec_decode_moderation(s, pos) == Ok::<(ModerationActionView, int), DecodeError>(
            (m, pos + spec_encode_moderation(m).len()),
        ),
{
    let e1 = spec_encode_timestamp(m.moderated_at);
    let e2 = m.moderator_id;
    let e3 = spec_encode_bytes(m.rationale);
    let enc = spec_encode_moderation(m);
    lemma_le_bytes_len(m.moderated_at.block as nat, 8);
    lemma_le_bytes_len(m.moderated_at.time as nat, 8);
    assert(e1.len() == 16);
    lemma_subrange_of_subrange(s, pos, enc.len() as int, 0, 16);
    assert(enc.subrange(0, 16) =~= e1);
    lemma_decode_timestamp_encoded(s, pos, m.moderated_at);
    lemma_subrange_of_subrange(s, pos, enc.len() as int, 16, 48);
    assert(enc.subrange(16, 48) =~= e2);
    lemma_decode_account_encoded(s, pos + 16, e2);
    lemma_subrange_of_subrange(s, pos, enc.len() as int, 48, enc.len() as int);
    assert(enc.subrange(48, enc.len() as int) =~= e3);
    lemma_decode_bytes_encoded(s, pos + 48, m.rationale);
}

/// An absent optional value decodes from a single zero byte, consuming
/// exactly that byte.
pub proof fn lemma_optional_moderation_absent(s: Seq<u8>, pos: int)
    requires
        0 <= pos < s.len(),
        s[pos] == 0,
    ensures
        spec_decode_opt_moderation(s, pos) == Ok::<(Option<ModerationActionView>, int), DecodeError>(
            (None, pos + 1),
        ),
{
}

/// A present optional value decodes from a one byte followed by the
/// value's own encoding, consuming one byte plus the value's size.
pub proof fn lemma_optional_moderation_present(s: Seq<u8>, pos: int, m: ModerationActionView)
    requires
        0 <= pos,
        wf_moderation(m),
        pos + 1 + spec_encode_moderation(m).len() <= s.len(),
        s[pos] == 1,
        s.subrange(pos + 1, pos + 1 + spec_encode_moderation(m).len() as int)
            == spec_encode_moderation(m),
    ensures
        spec_decode_opt_moderation(s, pos) == Ok::<(Option<ModerationActionView>, int), DecodeError>(
            (Some(m), pos + 1 + spec_encode_moderation(m).len()),
        ),
{
    lemma_decode_moderation_encoded(s, pos + 1, m);
}

/// An optional moderation action decodes back from its encoding.
pub proof fn lemma_decode_opt_moderation_encoded(
    s: Seq<u8>,
    pos: int,
    m: Option<ModerationActionView>,
)
    requires
        0 <= pos,
        (m matches Some(a) ==> wf_moderation(a)),
        pos + spec_encode_opt_moderation(m).len() <= s.len(),
        s.subrange(pos, pos + spec_encode_opt_moderation(m).len() as int)
            == spec_encode_opt_moderation(m),
    ensures
        spec_decode_opt_moderation(s, pos) == Ok::<(Option<ModerationActionView>, int), DecodeError>(
            (m, pos + spec_encode_opt_moderation(m).len()),
        ),
{
    let enc = spec_encode_opt_moderation(m);
    assert(s[pos] == enc[0]);
    match m {
        None => {
            lemma_optional_moderation_absent(s, pos);
        },
        Some(a) => {
            lemma_subrange_of_subrange(s, pos, enc.len() as int, 1, enc.len() as int);
            assert(enc.subrange(1, enc.len() as int) =~= spec_encode_moderation(a));
            lemma_optional_moderation_present(s, pos, a);
        },
    }
}

/// One retired revision decodes back from its encoding.
pub proof fn lemma_decode_text_change_encoded(s: Seq<u8>, pos: int, t: PostTextChangeView)
    requires
        0 <= pos,
        wf_text_change(t),
        pos + spec_encode_text_change(t).len() <= s.len(),
        s.subrange(pos, pos + spec_encode_text_change(t).len() as int) == spec_encode_text_change(
            t,
        ),
    ensures
        spec_decode_text_change(s, pos) == Ok::<(PostTextChangeView, int), DecodeError>(
            (t, pos + spec_encode_text_change(t).len()),
        ),
{
    let e1 = spec_encode_timestamp(t.expired_at);
    let e2 = spec_encode_bytes(t.text);
    let enc = spec_encode_text_change(t);
    lemma_le_bytes_len(t.expired_at.block as nat, 8);
    lemma_le_bytes_len(t.expired_at.time as nat, 8);
    assert(e1.len() == 16);
    lemma_subrange_of_subrange(s, pos, enc.len() as int, 0, 16);
    assert(enc.subrange(0, 16) =~= e1);
    lemma_decode_timestamp_encoded(s, pos, t.expired_at);
    lemma_subrange_of_subrange(s, pos, enc.len() as int, 16, enc.len() as int);
    assert(enc.subrange(16, enc.len() as int) =~= e2);
    lemma_decode_bytes_encoded(s, pos + 16, t.text);
}

/// A run of retired revisions decodes back from its encoding, element by
/// element.
pub proof fn lemma_decode_text_change_seq_encoded(s: Seq<u8>, pos: int, ts: Seq<PostTextChangeView>)
    requires
        0 <= pos,
        forall|i: int| 0 <= i < ts.len() ==> wf_text_change(#[trigger] ts[i]),
        pos + spec_encode_text_change_seq(ts).len() <= s.len(),
        s.subrange(pos, pos + spec_encode_text_change_seq(ts).len() as int)
            == spec_encode_text_change_seq(ts),
    ensures
        spec_decode_text_change_seq(s, pos, ts.len()) == Ok::<
            (Seq<PostTextChangeView>, int),
            DecodeError,
        >((ts, pos + spec_encode_text_change_seq(ts).len())),
    decreases ts.len(),
{
    if ts.len() == 0 {
        assert(ts =~= Seq::<PostTextChangeView>::empty());
    } else {
        let e1 = spec_encode_text_change(ts[0]);
        let rest = spec_encode_text_change_seq(ts.drop_first());
        let enc = spec_encode_text_change_seq(ts);
        lemma_subrange_of_subrange(s, pos, enc.len() as int, 0, e1.len() as int);
        assert(enc.subrange(0, e1.len() as int) =~= e1);
        lemma_decode_text_change_encoded(s, pos, ts[0]);
        let p1 = pos + e1.len();
        lemma_subrange_of_subrange(s, pos, enc.len() as int, e1.len() as int, enc.len() as int);
        assert(enc.subrange(e1.len() as int, enc.len() as int) =~= rest);
        assert(forall|i: int|
            0 <= i < ts.drop_first().len() ==> wf_text_change(#[trigger] ts.drop_first()[i]));
        lemma_decode_text_change_seq_encoded(s, p1, ts.drop_first());
        assert(seq![ts[0]] + ts.drop_first() =~= ts);
        assert(ts.drop_first().len() == (ts.len() - 1) as nat);
    }
}

/// A revision history decodes back from its encoding.
pub proof fn lemma_decode_text_change_history_encoded(
    s: Seq<u8>,
    pos: int,
    ts: Seq<PostTextChangeView>,
)
    requires
        0 <= pos,
        ts.len() < pow256(8),
        forall|i: int| 0 <= i < ts.len() ==> wf_text_change(#[trigger] ts[i]),
        pos + spec_encode_text_change_history(ts).len() <= s.len(),
        s.subrange(pos, pos + spec_encode_text_change_history(ts).len() as int)
            == spec_encode_text_change_history(ts),
    ensures
        spec_decode_text_change_history(s, pos) == Ok::<(Seq<PostTextChangeView>, int), DecodeError>(
            (ts, pos + spec_encode_text_change_history(ts).len()),
        ),
{
    reveal_with_fuel(pow256, 9);
    let n = ts.len() as u64;
    let c = spec_encode_compact(n);
    let enc = spec_encode_text_change_history(ts);
    lemma_compact_mode_boundaries(n);
    lemma_subrange_of_subrange(s, pos, enc.len() as int, 0, c.len() as int);
    assert(enc.subrange(0, c.len() as int) =~= c);
    lemma_decode_compact_encoded(s, pos, n);
    let p1 = pos + c.len();
    let rest = spec_encode_text_change_seq(ts);
    lemma_subrange_of_subrange(s, pos, enc.len() as int, c.len() as int, enc.len() as int);
    assert(enc.subrange(c.len() as int, enc.len() as int) =~= rest);
    lemma_decode_text_change_seq_encoded(s, p1, ts);
}

/// A child position decodes back from its encoding.
pub proof fn lemma_decode_child_position_encoded(
    s: Seq<u8>,
    pos: int,
    c: ChildPositionInParentCategory,
)
    requires
        0 <= pos,
        pos + 12 <= s.len(),
        s.subrange(pos, pos + 12) == spec_encode_child_position(c),
    ensures
        spec_decode_child_position(s, pos) == Ok::<(ChildPositionInParentCategory, int), DecodeError>(
            (c, pos + 12),
        ),
{
    let enc = spec_encode_child_position(c);
    lemma_le_bytes_len(c.parent_id as nat, 8);
    lemma_le_bytes_len(c.child_nr_in_parent_category as nat, 4);
    lemma_subrange_of_subrange(s, pos, 12, 0, 8);
    assert(enc.subrange(0, 8) =~= spec_encode_u64(c.parent_id));
    lemma_decode_u64_encoded(s, pos, c.parent_id);
    lemma_subrange_of_subrange(s, pos, 12, 8, 12);
    assert(enc.subrange(8, 12) =~= spec_encode_u32(c.child_nr_in_parent_category));
    lemma_decode_u32_encoded(s, pos + 8, c.child_nr_in_parent_category);
}

/// An optional child position decodes back from its encoding.
pub proof fn lemma_decode_opt_child_position_encoded(
    s: Seq<u8>,
    pos: int,
    c: Option<ChildPositionInParentCategory>,
)
    requires
        0 <= pos,
        pos + spec_encode_opt_child_position(c).len() <= s.len(),
        s.subrange(pos, pos + spec_encode_opt_child_position(c).len() as int)
            == spec_encode_opt_child_position(c),
    ensures
        spec_decode_opt_child_position(s, pos) == Ok::<
            (Option<ChildPositionInParentCategory>, int),
            DecodeError,
        >((c, pos + spec_encode_opt_child_position(c).len())),
{
    let enc = spec_encode_opt_child_position(c);
    assert(s[pos] == enc[0]);
    match c {
        None => {},
        Some(p) => {
            lemma_le_bytes_len(p.parent_id as nat, 8);
            lemma_le_bytes_len(p.child_nr_in_parent_category as nat, 4);
            lemma_subrange_of_subrange(s, pos, enc.len() as int, 1, enc.len() as int);
            assert(enc.subrange(1, enc.len() as int) =~= spec_encode_child_position(p));
            lemma_decode_child_position_encoded(s, pos + 1, p);
        },
    }
}

/// A post decodes back from its encoding, wherever it is embedded.
#[verifier::rlimit(100)]
pub proof fn lemma_decode_post_encoded(s: Seq<u8>, pos: int, v: PostView)
    requires
        0 <= pos,
        wf_post(v),
        pos + spec_encode_post(v).len() <= s.len(),
        s.subrange(pos, pos + spec_encode_post(v).len() as int) == spec_encode_post(v),
    ensures
        spec_decode_post(s, pos) == Ok::<(PostView, int), DecodeError>(
            (v, pos + spec_encode_post(v).len()),
        ),
{
    let enc = spec_encode_post(v);
    let lx = enc.len() as int;
    let e4 = spec_encode_bytes(v.current_text);
    let e5 = spec_encode_opt_moderation(v.moderation);
    let e6 = spec_encode_text_change_history(v.text_change_history);
    lemma_le_bytes_len(v.id as nat, 8);
    lemma_le_bytes_len(v.thread_id as nat, 8);
    lemma_le_bytes_len(v.nr_in_thread as nat, 4);
    lemma_le_bytes_len(v.created_at.block as nat, 8);
    lemma_le_bytes_len(v.created_at.time as nat, 8);
    let o4: int = 20;
    let o5 = o4 + e4.len() as int;
    let o6 = o5 + e5.len() as int;
    let o7 = o6 + e6.len() as int;
    let o8 = o7 + 16;
    assert(lx == o8 + 32);
    lemma_subrange_of_subrange(s, pos, lx, 0, 8);
    assert(enc.subrange(0, 8) =~= spec_encode_u64(v.id));
    lemma_decode_u64_encoded(s, pos, v.id);
    lemma_subrange_of_subrange(s, pos, lx, 8, 16);
    assert(enc.subrange(8, 16) =~= spec_encode_u64(v.thread_id));
    lemma_decode_u64_encoded(s, pos + 8, v.thread_id);
    lemma_subrange_of_subrange(s, pos, lx, 16, 20);
    assert(enc.subrange(16, 20) =~= spec_encode_u32(v.nr_in_thread));
    lemma_decode_u32_encoded(s, pos + 16, v.nr_in_thread);
    lemma_subrange_of_subrange(s, pos, lx, o4, o5);
    assert(enc.subrange(o4, o5) =~= e4);
    lemma_decode_bytes_encoded(s, pos + o4, v.current_text);
    lemma_subrange_of_subrange(s, pos, lx, o5, o6);
    assert(enc.subrange(o5, o6) =~= e5);
    lemma_decode_opt_moderation_encoded(s, pos + o5, v.moderation);
    lemma_subrange_of_subrange(s, pos, lx, o6, o7);
    assert(enc.subrange(o6, o7) =~= e6);
    lemma_decode_text_change_history_encoded(s, pos + o6, v.text_change_history);
    lemma_subrange_of_subrange(s, pos, lx, o7, o8);
    assert(enc.subrange(o7, o8) =~= spec_encode_timestamp(v.created_at));
    lemma_decode_timestamp_encoded(s, pos + o7, v.created_at);
    lemma_subrange_of_subrange(s, pos, lx, o8, lx);
    assert(enc.subrange(o8, lx) =~= v.author_id);
    lemma_decode_account_encoded(s, pos + o8, v.author_id);
}

/// A thread decodes back from its encoding, wherever it is embedded.
#[verifier::rlimit(100)]
pub proof fn lemma_decode_thread_encoded(s: Seq<u8>, pos: int, v: ThreadView)
    requires
        0 <= pos,
        wf_thread(v),
        pos + spec_encode_thread(v).len() <= s.len(),
        s.subrange(pos, pos + spec_encode_thread(v).len() as int) == spec_encode_thread(v),
    ensures
        spec_decode_thread(s, pos) == Ok::<(ThreadView, int), DecodeError>(
            (v, pos + spec_encode_thread(v).len()),
        ),
{
    let enc = spec_encode_thread(v);
    let lx = enc.len() as int;
    let e2 = spec_encode_bytes(v.title);
    let e5 = spec_encode_opt_moderation(v.moderation);
    lemma_le_bytes_len(v.id as nat, 8);
    lemma_le_bytes_len(v.category_id as nat, 8);
    lemma_le_bytes_len(v.nr_in_category as nat, 4);
    lemma_le_bytes_len(v.num_unmoderated_posts as nat, 4);
    lemma_le_bytes_len(v.num_moderated_posts as nat, 4);
    lemma_le_bytes_len(v.created_at.block as nat, 8);
    lemma_le_bytes_len(v.created_at.time as nat, 8);
    let o2: int = 8;
    let o3 = o2 + e2.len() as int;
    let o4 = o3 + 8;
    let o5 = o4 + 4;
    let o6 = o5 + e5.len() as int;
    let o7 = o6 + 4;
    let o8 = o7 + 4;
    let o9 = o8 + 16;
    assert(lx == o9 + 32);
    lemma_subrange_of_subrange(s, pos, lx, 0, 8);
    assert(enc.subrange(0, 8) =~= spec_encode_u64(v.id));
    lemma_decode_u64_encoded(s, pos, v.id);
    lemma_subrange_of_subrange(s, pos, lx, o2, o3);
    assert(enc.subrange(o2, o3) =~= e2);
    lemma_decode_bytes_encoded(s, pos + o2, v.title);
    lemma_subrange_of_subrange(s, pos, lx, o3, o4);
    assert(enc.subrange(o3, o4) =~= spec_encode_u64(v.category_id));
    lemma_decode_u64_encoded(s, pos + o3, v.category_id);
    lemma_subrange_of_subrange(s, pos, lx, o4, o5);
    assert(enc.subrange(o4, o5) =~= spec_encode_u32(v.nr_in_category));
    lemma_decode_u32_encoded(s, pos + o4, v.nr_in_category);
    lemma_subrange_of_subrange(s, pos, lx, o5, o6);
    assert(enc.subrange(o5, o6) =~= e5);
    lemma_decode_opt_moderation_encoded(s, pos + o5, v.moderation);
    lemma_subrange_of_subrange(s, pos, lx, o6, o7);
    assert(enc.subrange(o6, o7) =~= spec_encode_u32(v.num_unmoderated_posts));
    lemma_decode_u32_encoded(s, pos + o6, v.num_unmoderated_posts);
    lemma_subrange_of_subrange(s, pos, lx, o7, o8);
    assert(enc.subrange(o7, o8) =~= spec_encode_u32(v.num_moderated_posts));
    lemma_decode_u32_encoded(s, pos + o7, v.num_moderated_posts);
    lemma_subrange_of_subrange(s, pos, lx, o8, o9);
    assert(enc.subrange(o8, o9) =~= spec_encode_timestamp(v.created_at));
    lemma_decode_timestamp_encoded(s, pos + o8, v.created_at);
    lemma_subrange_of_subrange(s, pos, lx, o9, lx);
    assert(enc.subrange(o9, lx) =~= v.author_id);
    lemma_decode_account_encoded(s, pos + o9, v.author_id);
}

/// A category decodes back from its encoding, wherever it is embedded.
#[verifier::rlimit(100)]
pub proof fn lemma_decode_category_encoded(s: Seq<u8>, pos: int, v: CategoryView)
    requires
        0 <= pos,
        wf_category(v),
        pos + spec_encode_category(v).len() <= s.len(),
        s.subrange(pos, pos + spec_encode_category(v).len() as int) == spec_encode_category(v),
    ensures
        spec_decode_category(s, pos) == Ok::<(CategoryView, int), DecodeError>(
            (v, pos + spec_encode_category(v).len()),
        ),
{
    let enc = spec_encode_category(v);
    let lx = enc.len() as int;
    let e2 = spec_encode_bytes(v.title);
    let e3 = spec_encode_bytes(v.description);
    let e10 = spec_encode_opt_child_position(v.position_in_parent_category);
    lemma_le_bytes_len(v.id as nat, 8);
    lemma_le_bytes_len(v.created_at.block as nat, 8);
    lemma_le_bytes_len(v.created_at.time as nat, 8);
    lemma_le_bytes_len(v.num_direct_subcategories as nat, 4);
    lemma_le_bytes_len(v.num_direct_unmoderated_threads as nat, 4);
    lemma_le_bytes_len(v.num_direct_moderated_threads as nat, 4);
    let o2: int = 8;
    let o3 = o2 + e2.len() as int;
    let o4 = o3 + e3.len() as int;
    let o5 = o4 + 16;
    let o6 = o5 + 1;
    let o7 = o6 + 1;
    let o8 = o7 + 4;
    let o9 = o8 + 4;
    let o10 = o9 + 4;
    let o11 = o10 + e10.len() as int;
    assert(lx == o11 + 32);
    lemma_subrange_of_subrange(s, pos, lx, 0, 8);
    assert(enc.subrange(0, 8) =~= spec_encode_u64(v.id));
    lemma_decode_u64_encoded(s, pos, v.id);
    lemma_subrange_of_subrange(s, pos, lx, o2, o3);
    assert(enc.subrange(o2, o3) =~= e2);
    lemma_decode_bytes_encoded(s, pos + o2, v.title);
    lemma_subrange_of_subrange(s, pos, lx, o3, o4);
    assert(enc.subrange(o3, o4) =~= e3);
    lemma_decode_bytes_encoded(s, pos + o3, v.description);
    lemma_subrange_of_subrange(s, pos, lx, o4, o5);
    assert(enc.subrange(o4, o5) =~= spec_encode_timestamp(v.created_at));
    lemma_decode_timestamp_encoded(s, pos + o4, v.created_at);
    lemma_subrange_of_subrange(s, pos, lx, o5, o6);
    assert(enc.subrange(o5, o6) =~= spec_encode_bool(v.deleted));
    lemma_decode_bool_encoded(s, pos + o5, v.deleted);
    lemma_subrange_of_subrange(s, pos, lx, o6, o7);
    assert(enc.subrange(o6, o7) =~= spec_encode_bool(v.archived));
    lemma_decode_bool_encoded(s, pos + o6, v.archived);
    lemma_subrange_of_subrange(s, pos, lx, o7, o8);
    assert(enc.subrange(o7, o8) =~= spec_encode_u32(v.num_direct_subcategories));
    lemma_decode_u32_encoded(s, pos + o7, v.num_direct_subcategories);
    lemma_subrange_of_subrange(s, pos, lx, o8, o9);
    assert(enc.subrange(o8, o9) =~= spec_encode_u32(v.num_direct_unmoderated_threads));
    lemma_decode_u32_encoded(s, pos + o8, v.num_direct_unmoderated_threads);
    lemma_subrange_of_subrange(s, pos, lx, o9, o10);
    assert(enc.subrange(o9, o10) =~= spec_encode_u32(v.num_direct_moderated_threads));
    lemma_decode_u32_encoded(s, pos + o9, v.num_direct_moderated_threads);
    lemma_subrange_of_subrange(s, pos, lx, o10, o11);
    assert(enc.subrange(o10, o11) =~= e10);
    lemma_decode_opt_child_position_encoded(s, pos + o10, v.position_in_parent_category);
    lemma_subrange_of_subrange(s, pos, lx, o11, lx);
    assert(enc.subrange(o11, lx) =~= v.moderator_id);
    lemma_decode_account_encoded(s, pos + o11, v.moderator_id);
}

/// Round trip: a well-formed post decodes back from its own whole-buffer
/// encoding, unchanged.
pub proof fn lemma_post_round_trip(v: PostView)
    requires
        wf_post(v),
    ensures
        spec_decode_post_record(spec_encode_post(v)) == Ok::<PostView, DecodeError>(v),
{
    let s = spec_encode_post(v);
    assert(s.subrange(0, s.len() as int) =~= s);
    lemma_decode_post_encoded(s, 0, v);
}

/// Round trip: a well-formed thread decodes back from its own whole-buffer
/// encoding, unchanged.
pub proof fn lemma_thread_round_trip(v: ThreadView)
    requires
        wf_thread(v),
    ensures
        spec_decode_thread_record(spec_encode_thread(v)) == Ok::<ThreadView, DecodeError>(v),
{
    let s = spec_encode_thread(v);
    assert(s.subrange(0, s.len() as int) =~= s);
    lemma_decode_thread_encoded(s, 0, v);
}

/// Round trip: a well-formed category decodes back from its own
/// whole-buffer encoding, unchanged.
pub proof fn lemma_category_round_trip(v: CategoryView)
    requires
        wf_category(v),
    ensures
        spec_decode_category_record(spec_encode_category(v)) == Ok::<CategoryView, DecodeError>(v),
{
    let s = spec_encode_category(v);
    assert(s.subrange(0, s.len() as int) =~= s);
    lemma_decode_category_encoded(s, 0, v);
}

/// What a collection of category buffers decodes to, slot by slot.
pub open spec fn spec_decode_category_collection(items: Seq<(u64, Seq<u8>)>) -> Seq<
    (u64, Result<CategoryView, DecodeError>),
> {
    Seq::new(items.len(), |i: int| (items[i].0, spec_decode_category_record(items[i].1)))
}

/// As `spec_decode_category_collection`, for threads.
pub open spec fn spec_decode_thread_collection(items: Seq<(u64, Seq<u8>)>) -> Seq<
    (u64, Result<ThreadView, DecodeError>),
> {
    Seq::new(items.len(), |i: int| (items[i].0, spec_decode_thread_record(items[i].1)))
}

/// As `spec_decode_category_collection`, for posts.
pub open spec fn spec_decode_post_collection(items: Seq<(u64, Seq<u8>)>) -> Seq<
    (u64, Result<PostView, DecodeError>),
> {
    Seq::new(items.len(), |i: int| (items[i].0, spec_decode_post_record(items[i].1)))
}

/// Independence: corrupting the buffer at one position changes at most
/// that position's outcome; every other slot decodes exactly as it would
/// alone.
pub proof fn lemma_category_decode_independence(
    a: Seq<(u64, Seq<u8>)>,
    b: Seq<(u64, Seq<u8>)>,
    j: int,
)
    requires
        a.len() == b.len(),
        0 <= j < a.len(),
        forall|i: int| 0 <= i < a.len() && i != j ==> a[i] == b[i],
    ensures
        forall|i: int|
            0 <= i < a.len() && i != j ==> #[trigger] spec_decode_category_collection(a)[i]
                == spec_decode_category_collection(b)[i],
{
}

/// As `lemma_category_decode_independence`, for threads.
pub proof fn lemma_thread_decode_independence(
    a: Seq<(u64, Seq<u8>)>,
    b: Seq<(u64, Seq<u8>)>,
    j: int,
)
    requires
        a.len() == b.len(),
        0 <= j < a.len(),
        forall|i: int| 0 <= i < a.len() && i != j ==> a[i] == b[i],
    ensures
        forall|i: int|
            0 <= i < a.len() && i != j ==> #[trigger] spec_decode_thread_collection(a)[i]
                == spec_decode_thread_collection(b)[i],
{
}

/// As `lemma_category_decode_independence`, for posts.
pub proof fn lemma_post_decode_independence(a: Seq<(u64, Seq<u8>)>, b: Seq<(u64, Seq<u8>)>, j: int)
    requires
        a.len() == b.len(),
        0 <= j < a.len(),
        forall|i: int| 0 <= i < a.len() && i != j ==> a[i] == b[i],
    ensures
        forall|i: int|
            0 <= i < a.len() && i != j ==> #[trigger] spec_decode_post_collection(a)[i]
                == spec_decode_post_collection(b)[i],
{
}

/// Whether a decode outcome is a truncation-class failure.
pub open spec fn fails_truncated<T>(r: Result<(T, int), DecodeError>) -> bool {
    match r {
        Ok(_) => false,
        Err(e) => crate::error::is_truncation_error(e),
    }
}

/// The cursor position just past what a successful decode consumed.
pub open spec fn decode_end<T>(r: Result<(T, int), DecodeError>) -> int {
    match r {
        Ok((v, p)) => p,
        Err(_) => 0,
    }
}

/// Whether a whole-record decode outcome is a truncation-class failure.
pub open spec fn record_fails_truncated<T>(r: Result<T, DecodeError>) -> bool {
    match r {
        Ok(_) => false,
        Err(e) => crate::error::is_truncation_error(e),
    }
}

/// Cutting a buffer after a successful fixed-width read leaves the read
/// unchanged; cutting inside it turns it into a truncation failure.
proof fn lemma_truncate_u64(s: Seq<u8>, pos: int, k: int)
    requires
        0 <= pos <= k <= s.len(),
        spec_decode_u64(s, pos) is Ok,
    ensures
        pos <= decode_end(spec_decode_u64(s, pos)) <= s.len(),
        decode_end(spec_decode_u64(s, pos)) <= k ==> spec_decode_u64(s.take(k), pos)
            == spec_decode_u64(s, pos),
        k < decode_end(spec_decode_u64(s, pos)) ==> fails_truncated(spec_decode_u64(s.take(k), pos)),
{
    if pos + 8 <= k {
        assert(s.take(k).subrange(pos, pos + 8) =~= s.subrange(pos, pos + 8));
    }
}

/// As `lemma_truncate_u64`, for 32-bit reads.
proof fn lemma_truncate_u32(s: Seq<u8>, pos: int, k: int)
    requires
        0 <= pos <= k <= s.len(),
        spec_decode_u32(s, pos) is Ok,
    ensures
        pos <= decode_end(spec_decode_u32(s, pos)) <= s.len(),
        decode_end(spec_decode_u32(s, pos)) <= k ==> spec_decode_u32(s.take(k), pos)
            == spec_decode_u32(s, pos),
        k < decode_end(spec_decode_u32(s, pos)) ==> fails_truncated(spec_decode_u32(s.take(k), pos)),
{
    if pos + 4 <= k {
        assert(s.take(k).subrange(pos, pos + 4) =~= s.subrange(pos, pos + 4));
    }
}

/// As `lemma_truncate_u64`, for the boolean byte.
proof fn lemma_truncate_bool(s: Seq<u8>, pos: int, k: int)
    requires
        0 <= pos <= k <= s.len(),
        spec_decode_bool(s, pos) is Ok,
    ensures
        pos <= decode_end(spec_decode_bool(s, pos)) <= s.len(),
        decode_end(spec_decode_bool(s, pos)) <= k ==> spec_decode_bool(s.take(k), pos)
            == spec_decode_bool(s, pos),
        k < decode_end(spec_decode_bool(s, pos)) ==> fails_truncated(
            spec_decode_bool(s.take(k), pos),
        ),
{
}

/// As `lemma_truncate_u64`, for raw byte runs.
proof fn lemma_truncate_raw(s: Seq<u8>, pos: int, count: int, k: int)
    requires
        0 <= pos <= k <= s.len(),
        0 <= count,
        spec_decode_raw(s, pos, count) is Ok,
    ensures
        pos <= decode_end(spec_decode_raw(s, pos, count)) <= s.len(),
        decode_end(spec_decode_raw(s, pos, count)) <= k ==> spec_decode_raw(s.take(k), pos, count)
            == spec_decode_raw(s, pos, count),
        k < decode_end(spec_decode_raw(s, pos, count)) ==> fails_truncated(
            spec_decode_raw(s.take(k), pos, count),
        ),
{
    if pos + count <= k {
        assert(s.take(k).subrange(pos, pos + count) =~= s.subrange(pos, pos + count));
    }
}

/// As `lemma_truncate_u64`, for the compact length prefix.
proof fn lemma_truncate_compact(s: Seq<u8>, pos: int, k: int)
    requires
        0 <= pos <= k <= s.len(),
        spec_decode_compact(s, pos) is Ok,
    ensures
        pos <= decode_end(spec_decode_compact(s, pos)) <= s.len(),
        decode_end(spec_decode_compact(s, pos)) <= k ==> spec_decode_compact(s.take(k), pos)
            == spec_decode_compact(s, pos),
        k < decode_end(spec_decode_compact(s, pos)) ==> fails_truncated(
            spec_decode_compact(s.take(k), pos),
        ),
{
    let b = s[pos];
    if pos < k {
        assert(s.take(k)[pos] == b);
        if b % 4 == 1 {
            if pos + 2 <= k {
                assert(s.take(k).subrange(pos, pos + 2) =~= s.subrange(pos, pos + 2));
            }
        } else if b % 4 == 2 {
            if pos + 4 <= k {
                assert(s.take(k).subrange(pos, pos + 4) =~= s.subrange(pos, pos + 4));
            }
        } else if b % 4 == 3 {
            let n = b / 4 + 4;
            if pos + 1 + n <= k {
                assert(s.take(k).subrange(pos + 1, pos + 1 + n) =~= s.subrange(
                    pos + 1,
                    pos + 1 + n,
                ));
            }
        }
    }
}

/// As `lemma_truncate_u64`, for byte arrays.
proof fn lemma_truncate_bytes(s: Seq<u8>, pos: int, k: int)
    requires
        0 <= pos <= k <= s.len(),
        spec_decode_bytes(s, pos) is Ok,
    ensures
        pos <= decode_end(spec_decode_bytes(s, pos)) <= s.len(),
        decode_end(spec_decode_bytes(s, pos)) <= k ==> spec_decode_bytes(s.take(k), pos)
            == spec_decode_bytes(s, pos),
        k < decode_end(spec_decode_bytes(s, pos)) ==> fails_truncated(
            spec_decode_bytes(s.take(k), pos),
        ),
{
    lemma_truncate_compact(s, pos, k);
    let rc = spec_decode_compact(s, pos);
    let p2 = decode_end(rc);
    if p2 <= k {
        let n = match rc {
            Ok((n, p)) => n as int,
            Err(_) => 0,
        };
        if p2 + n <= k {
            assert(s.take(k).subrange(p2, p2 + n) =~= s.subrange(p2, p2 + n));
        }
    }
}

/// As `lemma_truncate_u64`, for timestamps.
proof fn lemma_truncate_timestamp(s: Seq<u8>, pos: int, k: int)
    requires
        0 <= pos <= k <= s.len(),
        spec_decode_timestamp(s, pos) is Ok,
    ensures
        pos <= decode_end(spec_decode_timestamp(s, pos)) <= s.len(),
        decode_end(spec_decode_timestamp(s, pos)) <= k ==> spec_decode_timestamp(s.take(k), pos)
            == spec_decode_timestamp(s, pos),
        k < decode_end(spec_decode_timestamp(s, pos)) ==> fails_truncated(
            spec_decode_timestamp(s.take(k), pos),
        ),
{
    lemma_truncate_u64(s, pos, k);
    let p1 = decode_end(spec_decode_u64(s, pos));
    if p1 <= k {
        lemma_truncate_u64(s, p1, k);
    }
}

/// As `lemma_truncate_u64`, for moderation actions.
proof fn lemma_truncate_moderation(s: Seq<u8>, pos: int, k: int)
    requires
        0 <= pos <= k <= s.len(),
        spec_decode_moderation(s, pos) is Ok,
    ensures
        pos <= decode_end(spec_decode_moderation(s, pos)) <= s.len(),
        decode_end(spec_decode_moderation(s, pos)) <= k ==> spec_decode_moderation(s.take(k), pos)
            == spec_decode_moderation(s, pos),
        k < decode_end(spec_decode_moderation(s, pos)) ==> fails_truncated(
            spec_decode_moderation(s.take(k), pos),
        ),
{
    lemma_truncate_timestamp(s, pos, k);
    let p1 = decode_end(spec_decode_timestamp(s, pos));
    if p1 <= k {
        lemma_truncate_raw(s, p1, 32, k);
        let p2 = decode_end(spec_decode_account(s, p1));
        if p2 <= k {
            lemma_truncate_bytes(s, p2, k);
        }
    }
}

/// As `lemma_truncate_u64`, for optional moderation actions.
proof fn lemma_truncate_opt_moderation(s: Seq<u8>, pos: int, k: int)
    requires
        0 <= pos <= k <= s.len(),
        spec_decode_opt_moderation(s, pos) is Ok,
    ensures
        pos <= decode_end(spec_decode_opt_moderation(s, pos)) <= s.len(),
        decode_end(spec_decode_opt_moderation(s, pos)) <= k ==> spec_decode_opt_moderation(
            s.take(k),
            pos,
        ) == spec_decode_opt_moderation(s, pos),
        k < decode_end(spec_decode_opt_moderation(s, pos)) ==> fails_truncated(
            spec_decode_opt_moderation(s.take(k), pos),
        ),
{
    if pos < k {
        assert(s.take(k)[pos] == s[pos]);
        if s[pos] == 1 {
            lemma_truncate_moderation(s, pos + 1, k);
        }
    }
}

/// As `lemma_truncate_u64`, for one retired revision.
proof fn lemma_truncate_text_change(s: Seq<u8>, pos: int, k: int)
    requires
        0 <= pos <= k <= s.len(),
        spec_decode_text_change(s, pos) is Ok,
    ensures
        pos <= decode_end(spec_decode_text_change(s, pos)) <= s.len(),
        decode_end(spec_decode_text_change(s, pos)) <= k ==> spec_decode_text_change(s.take(k), pos)
            == spec_decode_text_change(s, pos),
        k < decode_end(spec_decode_text_change(s, pos)) ==> fails_truncated(
            spec_decode_text_change(s.take(k), pos),
        ),
{
    lemma_truncate_timestamp(s, pos, k);
    let p1 = decode_end(spec_decode_timestamp(s, pos));
    if p1 <= k {
        lemma_truncate_bytes(s, p1, k);
    }
}


/// A successful run decode ends between its start and the buffer's end.
proof fn lemma_text_change_seq_end(s: Seq<u8>, pos: int, n: nat)
    requires
        0 <= pos <= s.len(),
        spec_decode_text_change_seq(s, pos, n) is Ok,
    ensures
        pos <= decode_end(spec_decode_text_change_seq(s, pos, n)) <= s.len(),
    decreases n,
{
    if n > 0 {
        lemma_truncate_text_change(s, pos, s.len() as int);
        let p1 = decode_end(spec_decode_text_change(s, pos));
        lemma_text_change_seq_end(s, p1, (n - 1) as nat);
    }
}

/// As `lemma_truncate_u64`, for a run of revisions.
proof fn lemma_truncate_text_change_seq(s: Seq<u8>, pos: int, n: nat, k: int)
    requires
        0 <= pos <= k <= s.len(),
        spec_decode_text_change_seq(s, pos, n) is Ok,
    ensures
        pos <= decode_end(spec_decode_text_change_seq(s, pos, n)) <= s.len(),
        decode_end(spec_decode_text_change_seq(s, pos, n)) <= k ==> spec_decode_text_change_seq(
            s.take(k),
            pos,
            n,
        ) == spec_decode_text_change_seq(s, pos, n),
        k < decode_end(spec_decode_text_change_seq(s, pos, n)) ==> fails_truncated(
            spec_decode_text_change_seq(s.take(k), pos, n),
        ),
    decreases n,
{
    if n > 0 {
        lemma_truncate_text_change(s, pos, k);
        let p1 = decode_end(spec_decode_text_change(s, pos));
        lemma_text_change_seq_end(s, p1, (n - 1) as nat);
        if p1 <= k {
            lemma_truncate_text_change_seq(s, p1, (n - 1) as nat, k);
        }
    }
}

/// As `lemma_truncate_u64`, for a revision history.
proof fn lemma_truncate_history(s: Seq<u8>, pos: int, k: int)
    requires
        0 <= pos <= k <= s.len(),
        spec_decode_text_change_history(s, pos) is Ok,
    ensures
        pos <= decode_end(spec_decode_text_change_history(s, pos)) <= s.len(),
        decode_end(spec_decode_text_change_history(s, pos)) <= k ==> spec_decode_text_change_history(
            s.take(k),
            pos,
        ) == spec_decode_text_change_history(s, pos),
        k < decode_end(spec_decode_text_change_history(s, pos)) ==> fails_truncated(
            spec_decode_text_change_history(s.take(k), pos),
        ),
{
    lemma_truncate_compact(s, pos, k);
    let rc = spec_decode_compact(s, pos);
    let p1 = decode_end(rc);
    let n = match rc {
        Ok((n, p)) => n as nat,
        Err(_) => 0,
    };
    lemma_text_change_seq_end(s, p1, n);
    if p1 <= k {
        lemma_truncate_text_change_seq(s, p1, n, k);
    }
}

/// As `lemma_truncate_u64`, for child positions.
proof fn lemma_truncate_child_position(s: Seq<u8>, pos: int, k: int)
    requires
        0 <= pos <= k <= s.len(),
        spec_decode_child_position(s, pos) is Ok,
    ensures
        pos <= decode_end(spec_decode_child_position(s, pos)) <= s.len(),
        decode_end(spec_decode_child_position(s, pos)) <= k ==> spec_decode_child_position(
            s.take(k),
            pos,
        ) == spec_decode_child_position(s, pos),
        k < decode_end(spec_decode_child_position(s, pos)) ==> fails_truncated(
            spec_decode_child_position(s.take(k), pos),
        ),
{
    lemma_truncate_u64(s, pos, k);
    let p1 = decode_end(spec_decode_u64(s, pos));
    if p1 <= k {
        lemma_truncate_u32(s, p1, k);
    }
}

/// As `lemma_truncate_u64`, for optional child positions.
proof fn lemma_truncate_opt_child_position(s: Seq<u8>, pos: int, k: int)
    requires
        0 <= pos <= k <= s.len(),
        spec_decode_opt_child_position(s, pos) is Ok,
    ensures
        pos <= decode_end(spec_decode_opt_child_position(s, pos)) <= s.len(),
        decode_end(spec_decode_opt_child_position(s, pos)) <= k ==> spec_decode_opt_child_position(
            s.take(k),
            pos,
        ) == spec_decode_opt_child_position(s, pos),
        k < decode_end(spec_decode_opt_child_position(s, pos)) ==> fails_truncated(
            spec_decode_opt_child_position(s.take(k), pos),
        ),
{
    if pos < k {
        assert(s.take(k)[pos] == s[pos]);
        if s[pos] == 1 {
            lemma_truncate_child_position(s, pos + 1, k);
        }
    }
}

/// As `lemma_truncate_u64`, for whole posts.
#[verifier::rlimit(100)]
#[verifier::spinoff_prover]
proof fn lemma_truncate_post(s: Seq<u8>, pos: int, k: int)
    requires
        0 <= pos <= k <= s.len(),
        spec_decode_post(s, pos) is Ok,
    ensures
        pos <= decode_end(spec_decode_post(s, pos)) <= s.len(),
        decode_end(spec_decode_post(s, pos)) <= k ==> spec_decode_post(s.take(k), pos)
            == spec_decode_post(s, pos),
        k < decode_end(spec_decode_post(s, pos)) ==> fails_truncated(
            spec_decode_post(s.take(k), pos),
        ),
{
    lemma_truncate_u64(s, pos, s.len() as int);
    let p1 = decode_end(spec_decode_u64(s, pos));
    lemma_truncate_u64(s, p1, s.len() as int);
    let p2 = decode_end(spec_decode_u64(s, p1));
    lemma_truncate_u32(s, p2, s.len() as int);
    let p3 = decode_end(spec_decode_u32(s, p2));
    lemma_truncate_bytes(s, p3, s.len() as int);
    let p4 = decode_end(spec_decode_bytes(s, p3));
    lemma_truncate_opt_moderation(s, p4, s.len() as int);
    let p5 = decode_end(spec_decode_opt_moderation(s, p4));
    lemma_truncate_history(s, p5, s.len() as int);
    let p6 = decode_end(spec_decode_text_change_history(s, p5));
    lemma_truncate_timestamp(s, p6, s.len() as int);
    let p7 = decode_end(spec_decode_timestamp(s, p6));
    lemma_truncate_raw(s, p7, 32, s.len() as int);
    lemma_truncate_u64(s, pos, k);
    if p1 <= k {
        lemma_truncate_u64(s, p1, k);
        if p2 <= k {
            lemma_truncate_u32(s, p2, k);
            if p3 <= k {
                lemma_truncate_bytes(s, p3, k);
                if p4 <= k {
                    lemma_truncate_opt_moderation(s, p4, k);
                    if p5 <= k {
                        lemma_truncate_history(s, p5, k);
                        if p6 <= k {
                            lemma_truncate_timestamp(s, p6, k);
                            if p7 <= k {
                                lemma_truncate_raw(s, p7, 32, k);
                            }
                        }
                    }
                }
            }
        }
    }
}

/// As `lemma_truncate_u64`, for whole threads.
#[verifier::rlimit(100)]
#[verifier::spinoff_prover]
proof fn lemma_truncate_thread(s: Seq<u8>, pos: int, k: int)
    requires
        0 <= pos <= k <= s.len(),
        spec_decode_thread(s, pos) is Ok,
    ensures
        pos <= decode_end(spec_decode_thread(s, pos)) <= s.len(),
        decode_end(spec_decode_thread(s, pos)) <= k ==> spec_decode_thread(s.take(k), pos)
            == spec_decode_thread(s, pos),
        k < decode_end(spec_decode_thread(s, pos)) ==> fails_truncated(
            spec_decode_thread(s.take(k), pos),
        ),
{
    lemma_truncate_u64(s, pos, s.len() as int);
    let p1 = decode_end(spec_decode_u64(s, pos));
    lemma_truncate_bytes(s, p1, s.len() as int);
    let p2 = decode_end(spec_decode_bytes(s, p1));
    lemma_truncate_u64(s, p2, s.len() as int);
    let p3 = decode_end(spec_decode_u64(s, p2));
    lemma_truncate_u32(s, p3, s.len() as int);
    let p4 = decode_end(spec_decode_u32(s, p3));
    lemma_truncate_opt_moderation(s, p4, s.len() as int);
    let p5 = decode_end(spec_decode_opt_moderation(s, p4));
    lemma_truncate_u32(s, p5, s.len() as int);
    let p6 = decode_end(spec_decode_u32(s, p5));
    lemma_truncate_u32(s, p6, s.len() as int);
    let p7 = decode_end(spec_decode_u32(s, p6));
    lemma_truncate_timestamp(s, p7, s.len() as int);
    let p8 = decode_end(spec_decode_timestamp(s, p7));
    lemma_truncate_raw(s, p8, 32, s.len() as int);
    lemma_truncate_u64(s, pos, k);
    if p1 <= k {
        lemma_truncate_bytes(s, p1, k);
        if p2 <= k {
            lemma_truncate_u64(s, p2, k);
            if p3 <= k {
                lemma_truncate_u32(s, p3, k);
                if p4 <= k {
                    lemma_truncate_opt_moderation(s, p4, k);
                    if p5 <= k {
                        lemma_truncate_u32(s, p5, k);
                        if p6 <= k {
                            lemma_truncate_u32(s, p6, k);
                            if p7 <= k {
                                lemma_truncate_timestamp(s, p7, k);
                                if p8 <= k {
                                    lemma_truncate_raw(s, p8, 32, k);
                                }
                            }
                        }
                    }
                }
            }
        }
    }
}

/// As `lemma_truncate_u64`, for whole categories.
#[verifier::rlimit(100)]
#[verifier::spinoff_prover]
proof fn lemma_truncate_category(s: Seq<u8>, pos: int, k: int)
    requires
        0 <= pos <= k <= s.len(),
        spec_decode_category(s, pos) is Ok,
    ensures
        pos <= decode_end(spec_decode_category(s, pos)) <= s.len(),
        decode_end(spec_decode_category(s, pos)) <= k ==> spec_decode_category(s.take(k), pos)
            == spec_decode_category(s, pos),
        k < decode_end(spec_decode_category(s, pos)) ==> fails_truncated(
            spec_decode_category(s.take(k), pos),
        ),
{
    lemma_truncate_u64(s, pos, s.len() as int);
    let p1 = decode_end(spec_decode_u64(s, pos));
    lemma_truncate_bytes(s, p1, s.len() as int);
    let p2 = decode_end(spec_decode_bytes(s, p1));
    lemma_truncate_bytes(s, p2, s.len() as int);
    let p3 = decode_end(spec_decode_bytes(s, p2));
    lemma_truncate_timestamp(s, p3, s.len() as int);
    let p4 = decode_end(spec_decode_timestamp(s, p3));
    lemma_truncate_bool(s, p4, s.len() as int);
    let p5 = decode_end(spec_decode_bool(s, p4));
    lemma_truncate_bool(s, p5, s.len() as int);
    let p6 = decode_end(spec_decode_bool(s, p5));
    lemma_truncate_u32(s, p6, s.len() as int);
    let p7 = decode_end(spec_decode_u32(s, p6));
    lemma_truncate_u32(s, p7, s.len() as int);
    let p8 = decode_end(spec_decode_u32(s, p7));
    lemma_truncate_u32(s, p8, s.len() as int);
    let p9 = decode_end(spec_decode_u32(s, p8));
    lemma_truncate_opt_child_position(s, p9, s.len() as int);
    let p10 = decode_end(spec_decode_opt_child_position(s, p9));
    lemma_truncate_raw(s, p10, 32, s.len() as int);
    lemma_truncate_u64(s, pos, k);
    if p1 <= k {
        lemma_truncate_bytes(s, p1, k);
        if p2 <= k {
            lemma_truncate_bytes(s, p2, k);
            if p3 <= k {
                lemma_truncate_timestamp(s, p3, k);
                if p4 <= k {
                    lemma_truncate_bool(s, p4, k);
                    if p5 <= k {
                        lemma_truncate_bool(s, p5, k);
                        if p6 <= k {
                            lemma_truncate_u32(s, p6, k);
                            if p7 <= k {
                                lemma_truncate_u32(s, p7, k);
                                if p8 <= k {
                                    lemma_truncate_u32(s, p8, k);
                                    if p9 <= k {
                                        lemma_truncate_opt_child_position(s, p9, k);
                                        if p10 <= k {
                                            lemma_truncate_raw(s, p10, 32, k);
                                        }
                                    }
                                }
                            }
                        }
                    }
                }
            }
        }
    }
}

/// Truncation: a buffer that decodes as a whole post, with its final byte
/// removed, always fails with a truncation-class error, never succeeds.
pub proof fn lemma_post_truncation(s: Seq<u8>)
    requires
        spec_decode_post_record(s) is Ok,
    ensures
        s.len() > 0,
        record_fails_truncated(spec_decode_post_record(s.drop_last())),
{
    assert(s.len() > 0);
    lemma_truncate_post(s, 0, s.len() - 1);
    assert(s.drop_last() =~= s.take(s.len() - 1));
}

/// As `lemma_post_truncation`, for threads.
pub proof fn lemma_thread_truncation(s: Seq<u8>)
    requires
        spec_decode_thread_record(s) is Ok,
    ensures
        s.len() > 0,
        record_fails_truncated(spec_decode_thread_record(s.drop_last())),
{
    assert(s.len() > 0);
    lemma_truncate_thread(s, 0, s.len() - 1);
    assert(s.drop_last() =~= s.take(s.len() - 1));
}

/// As `lemma_post_truncation`, for categories.
pub proof fn lemma_category_truncation(s: Seq<u8>)
    requires
        spec_decode_category_record(s) is Ok,
    ensures
        s.len() > 0,
        record_fails_truncated(spec_decode_category_record(s.drop_last())),
{
    assert(s.len() > 0);
    lemma_truncate_category(s, 0, s.len() - 1);
    assert(s.drop_last() =~= s.take(s.len() - 1));
}

} // verus!
