//! Composite record decoders. Each record decodes its fields strictly in
//! declared order with no padding or tags: the decoder of a record is the
//! sequential composition of the decoders of its field types, and the first
//! field failure is the record's failure. A whole-buffer decode further
//! rejects a buffer with unconsumed trailing bytes.

use vstd::prelude::*;

use crate::codec::decode_bool;
use crate::codec::decode_bytes;
use crate::codec::decode_compact;
use crate::codec::decode_raw;
use crate::codec::decode_u32;
use crate::codec::decode_u64;
use crate::codec::spec_decode_bool;
use crate::codec::spec_decode_bytes;
use crate::codec::spec_decode_compact;
use crate::codec::spec_decode_raw;
use crate::codec::spec_decode_u32;
use crate::codec::spec_decode_u64;
use crate::error::DecodeError;
use crate::types::ACCOUNT_ID_LEN;
use crate::types::BlockchainTimestamp;
use crate::types::Category;
use crate::types::CategoryView;
use crate::types::ChildPositionInParentCategory;
use crate::types::ModerationAction;
use crate::types::ModerationActionView;
use crate::types::Post;
use crate::types::PostTextChange;
use crate::types::PostTextChangeView;
use crate::types::PostView;
use crate::types::Thread;
use crate::types::ThreadView;
use crate::types::view_opt_moderation;
use crate::types::view_text_changes;

verus! {

/// A blockchain timestamp: two 64-bit little-endian integers.
pub open spec fn spec_decode_timestamp(s: Seq<u8>, pos: int) -> Result<
    (BlockchainTimestamp, int),
    DecodeError,
> {
    match spec_decode_u64(s, pos) {
        Ok((block, p1)) => match spec_decode_u64(s, p1) {
            Ok((time, p2)) => Ok((BlockchainTimestamp { block, time }, p2)),
            Err(e) => Err(e),
        },
        Err(e) => Err(e),
    }
}

/// An account: a fixed-size raw byte run.
pub open spec fn spec_decode_account(s: Seq<u8>, pos: int) -> Result<(Seq<u8>, int), DecodeError> {
    spec_decode_raw(s, pos, ACCOUNT_ID_LEN as int)
}

/// A moderation action: timestamp, moderator account, rationale bytes.
pub open spec fn spec_decode_moderation(s: Seq<u8>, pos: int) -> Result<
    (ModerationActionView, int),
    DecodeError,
> {
    match spec_decode_timestamp(s, pos) {
        Ok((moderated_at, p1)) => match spec_decode_account(s, p1) {
            Ok((moderator_id, p2)) => match spec_decode_bytes(s, p2) {
                Ok((rationale, p3)) => Ok(
                    (ModerationActionView { moderated_at, moderator_id, rationale }, p3),
                ),
                Err(e) => Err(e),
            },
            Err(e) => Err(e),
        },
        Err(e) => Err(e),
    }
}

/// An optional moderation action: a one-byte discriminant, 0 for absent and
/// 1 for present followed by the action itself.
pub open spec fn spec_decode_opt_moderation(s: Seq<u8>, pos: int) -> Result<
    (Option<ModerationActionView>, int),
    DecodeError,
> {
    if 0 <= pos && pos < s.len() {
        if s[pos] == 0 {
            Ok((None, pos + 1))
        } else if s[pos] == 1 {
            match spec_decode_moderation(s, pos + 1) {
                Ok((m, p2)) => Ok((Some(m), p2)),
                Err(e) => Err(e),
            }
        } else {
            Err(DecodeError::InvalidOptionTag)
        }
    } else {
        Err(DecodeError::UnexpectedEof)
    }
}

/// One retired post revision: timestamp, then the expired text.
pub open spec fn spec_decode_text_change(s: Seq<u8>, pos: int) -> Result<
    (PostTextChangeView, int),
    DecodeError,
> {
    match spec_decode_timestamp(s, pos) {
        Ok((expired_at, p1)) => match spec_decode_bytes(s, p1) {
            Ok((text, p2)) => Ok((PostTextChangeView { expired_at, text }, p2)),
            Err(e) => Err(e),
        },
        Err(e) => Err(e),
    }
}

/// Exactly `n` consecutive retired revisions, in order.
pub open spec fn spec_decode_text_change_seq(s: Seq<u8>, pos: int, n: nat) -> Result<
    (Seq<PostTextChangeView>, int),
    DecodeError,
>
    decreases n,
{
    if n == 0 {
        Ok((Seq::empty(), pos))
    } else {
        match spec_decode_text_change(s, pos) {
            Ok((v, p1)) => match spec_decode_text_change_seq(s, p1, (n - 1) as nat) {
                Ok((rest, p2)) => Ok((seq![v] + rest, p2)),
                Err(e) => Err(e),
            },
            Err(e) => Err(e),
        }
    }
}

/// A revision history: a compact length prefix, then that many revisions.
pub open spec fn spec_decode_text_change_history(s: Seq<u8>, pos: int) -> Result<
    (Seq<PostTextChangeView>, int),
    DecodeError,
> {
    match spec_decode_compact(s, pos) {
        Ok((n, p1)) => spec_decode_text_change_seq(s, p1, n as nat),
        Err(e) => Err(e),
    }
}

/// A child position: parent identifier and 1-based position.
pub open spec fn spec_decode_child_position(s: Seq<u8>, pos: int) -> Result<
    (ChildPositionInParentCategory, int),
    DecodeError,
> {
    match spec_decode_u64(s, pos) {
        Ok((parent_id, p1)) => match spec_decode_u32(s, p1) {
            Ok((child_nr_in_parent_category, p2)) => Ok(
                (ChildPositionInParentCategory { parent_id, child_nr_in_parent_category }, p2),
            ),
            Err(e) => Err(e),
        },
        Err(e) => Err(e),
    }
}

/// An optional child position, encoded like every optional value.
pub open spec fn spec_decode_opt_child_position(s: Seq<u8>, pos: int) -> Result<
    (Option<ChildPositionInParentCategory>, int),
    DecodeError,
> {
    if 0 <= pos && pos < s.len() {
        if s[pos] == 0 {
            Ok((None, pos + 1))
        } else if s[pos] == 1 {
            match spec_decode_child_position(s, pos + 1) {
                Ok((c, p2)) => Ok((Some(c), p2)),
                Err(e) => Err(e),
            }
        } else {
            Err(DecodeError::InvalidOptionTag)
        }
    } else {
        Err(DecodeError::UnexpectedEof)
    }
}

/// A post: its fields in declared order.
pub open spec fn spec_decode_post(s: Seq<u8>, pos: int) -> Result<(PostView, int), DecodeError> {
    match spec_decode_u64(s, pos) {
        Ok((id, p1)) => match spec_decode_u64(s, p1) {
            Ok((thread_id, p2)) => match spec_decode_u32(s, p2) {
                Ok((nr_in_thread, p3)) => match spec_decode_bytes(s, p3) {
                    Ok((current_text, p4)) => match spec_decode_opt_moderation(s, p4) {
                        Ok((moderation, p5)) => match spec_decode_text_change_history(s, p5) {
                            Ok((text_change_history, p6)) => match spec_decode_timestamp(s, p6) {
                                Ok((created_at, p7)) => match spec_decode_account(s, p7) {
                                    Ok((author_id, p8)) => Ok(
                                        (
                                            PostView {
                                                id,
                                                thread_id,
                                                nr_in_thread,
                                                current_text,
                                                moderation,
                                                text_change_history,
                                                created_at,
                                                author_id,
                                            },
                                            p8,
                                        ),
                                    ),
                                    Err(e) => Err(e),
                                },
                                Err(e) => Err(e),
                            },
                            Err(e) => Err(e),
                        },
                        Err(e) => Err(e),
                    },
                    Err(e) => Err(e),
                },
                Err(e) => Err(e),
            },
            Err(e) => Err(e),
        },
        Err(e) => Err(e),
    }
}

/// A thread: its fields in declared order.
pub open spec fn spec_decode_thread(s: Seq<u8>, pos: int) -> Result<
    (ThreadView, int),
    DecodeError,
> {
    match spec_decode_u64(s, pos) {
        Ok((id, p1)) => match spec_decode_bytes(s, p1) {
            Ok((title, p2)) => match spec_decode_u64(s, p2) {
                Ok((category_id, p3)) => match spec_decode_u32(s, p3) {
                    Ok((nr_in_category, p4)) => match spec_decode_opt_moderation(s, p4) {
                        Ok((moderation, p5)) => match spec_decode_u32(s, p5) {
                            Ok((num_unmoderated_posts, p6)) => match spec_decode_u32(s, p6) {
                                Ok((num_moderated_posts, p7)) => match spec_decode_timestamp(
                                    s,
                                    p7,
                                ) {
                                    Ok((created_at, p8)) => match spec_decode_account(s, p8) {
                                        Ok((author_id, p9)) => Ok(
                                            (
                                                ThreadView {
                                                    id,
                                                    title,
                                                    category_id,
                                                    nr_in_category,
                                                    moderation,
                                                    num_unmoderated_posts,
                                                    num_moderated_posts,
                                                    created_at,
                                                    author_id,
                                                },
                                                p9,
                                            ),
                                        ),
                                        Err(e) => Err(e),
                                    },
                                    Err(e) => Err(e),
                                },
                                Err(e) => Err(e),
                            },
                            Err(e) => Err(e),
                        },
                        Err(e) => Err(e),
                    },
                    Err(e) => Err(e),
                },
                Err(e) => Err(e),
            },
            Err(e) => Err(e),
        },
        Err(e) => Err(e),
    }
}

/// A category: its fields in declared order.
pub open spec fn spec_decode_category(s: Seq<u8>, pos: int) -> Result<
    (CategoryView, int),
    DecodeError,
> {
    match spec_decode_u64(s, pos) {
        Ok((id, p1)) => match spec_decode_bytes(s, p1) {
            Ok((title, p2)) => match spec_decode_bytes(s, p2) {
                Ok((description, p3)) => match spec_decode_timestamp(s, p3) {
                    Ok((created_at, p4)) => match spec_decode_bool(s, p4) {
                        Ok((deleted, p5)) => match spec_decode_bool(s, p5) {
                            Ok((archived, p6)) => match spec_decode_u32(s, p6) {
                                Ok((num_direct_subcategories, p7)) => match spec_decode_u32(
                                    s,
                                    p7,
                                ) {
                                    Ok((num_direct_unmoderated_threads, p8)) => match
                                        spec_decode_u32(s, p8) {
                                        Ok((num_direct_moderated_threads, p9)) => match
                                            spec_decode_opt_child_position(s, p9) {
                                            Ok((position_in_parent_category, p10)) => match
                                                spec_decode_account(s, p10) {
                                                Ok((moderator_id, p11)) => Ok(
                                                    (
                                                        CategoryView {
                                                            id,
                                                            title,
                                                            description,
                                                            created_at,
                                                            deleted,
                                                            archived,
                                                            num_direct_subcategories,
                                                            num_direct_unmoderated_threads,
                                                            num_direct_moderated_threads,
                                                            position_in_parent_category,
                                                            moderator_id,
                                                        },
                                                        p11,
                                                    ),
                                                ),
                                                Err(e) => Err(e),
                                            },
                                            Err(e) => Err(e),
                                        },
                                        Err(e) => Err(e),
                                    },
                                    Err(e) => Err(e),
                                },
                                Err(e) => Err(e),
                            },
                            Err(e) => Err(e),
                        },
                        Err(e) => Err(e),
                    },
                    Err(e) => Err(e),
                },
                Err(e) => Err(e),
            },
            Err(e) => Err(e),
        },
        Err(e) => Err(e),
    }
}

/// A whole-buffer post decode: the record must consume every byte.
pub open spec fn spec_decode_post_record(s: Seq<u8>) -> Result<PostView, DecodeError> {
    match spec_decode_post(s, 0) {
        Ok((v, p)) => if p == s.len() {
            Ok(v)
        } else {
            Err(DecodeError::TrailingBytes)
        },
        Err(e) => Err(e),
    }
}

/// A whole-buffer thread decode: the record must consume every byte.
pub open spec fn spec_decode_thread_record(s: Seq<u8>) -> Result<ThreadView, DecodeError> {
    match spec_decode_thread(s, 0) {
        Ok((v, p)) => if p == s.len() {
            Ok(v)
        } else {
            Err(DecodeError::TrailingBytes)
        },
        Err(e) => Err(e),
    }
}

/// A whole-buffer category decode: the record must consume every byte.
pub open spec fn spec_decode_category_record(s: Seq<u8>) -> Result<CategoryView, DecodeError> {
    match spec_decode_category(s, 0) {
        Ok((v, p)) => if p == s.len() {
            Ok(v)
        } else {
            Err(DecodeError::TrailingBytes)
        },
        Err(e) => Err(e),
    }
}

/// Prepends already decoded elements to the outcome of decoding the rest.
pub open spec fn seq_result_with_prefix(
    prefix: Seq<PostTextChangeView>,
    r: Result<(Seq<PostTextChangeView>, int), DecodeError>,
) -> Result<(Seq<PostTextChangeView>, int), DecodeError> {
    match r {
        Ok((v, p)) => Ok((prefix + v, p)),
        Err(e) => Err(e),
    }
}

proof fn lemma_prefix_empty(r: Result<(Seq<PostTextChangeView>, int), DecodeError>)
    ensures
        seq_result_with_prefix(Seq::empty(), r) == r,
{
    match r {
        Ok((v, p)) => {
            assert(Seq::empty() + v =~= v);
        },
        Err(_) => {},
    }
}

proof fn lemma_prefix_assoc(
    a: Seq<PostTextChangeView>,
    b: Seq<PostTextChangeView>,
    r: Result<(Seq<PostTextChangeView>, int), DecodeError>,
)
    ensures
        seq_result_with_prefix(a, seq_result_with_prefix(b, r)) == seq_result_with_prefix(a + b, r),
{
    match r {
        Ok((v, p)) => {
            assert(a + (b + v) =~= (a + b) + v);
        },
        Err(_) => {},
    }
}

/// Decodes a blockchain timestamp.
pub fn decode_timestamp(buf: &Vec<u8>, pos: usize) -> (r: Result<
    (BlockchainTimestamp, usize),
    DecodeError,
>)
    ensures
        match r {
            Ok((v, p2)) => spec_decode_timestamp(buf@, pos as int) == Ok::<
                (BlockchainTimestamp, int),
                DecodeError,
            >((v, p2 as int)) && pos <= p2 <= buf@.len(),
            Err(e) => spec_decode_timestamp(buf@, pos as int) == Err::<
                (BlockchainTimestamp, int),
                DecodeError,
            >(e),
        },
{
    let (block, p1) = match decode_u64(buf, pos) {
        Ok(t) => t,
        Err(e) => {
            return Err(e);
        },
    };
    let (time, p2) = match decode_u64(buf, p1) {
        Ok(t) => t,
        Err(e) => {
            return Err(e);
        },
    };
    Ok((BlockchainTimestamp { block, time }, p2))
}

/// Decodes an account: a fixed-size raw byte run.
pub fn decode_account(buf: &Vec<u8>, pos: usize) -> (r: Result<(Vec<u8>, usize), DecodeError>)
    ensures
        match r {
            Ok((v, p2)) => spec_decode_account(buf@, pos as int) == Ok::<
                (Seq<u8>, int),
                DecodeError,
            >((v@, p2 as int)) && pos <= p2 <= buf@.len(),
            Err(e) => spec_decode_account(buf@, pos as int) == Err::<(Seq<u8>, int), DecodeError>(
                e,
            ),
        },
{
    decode_raw(buf, pos, ACCOUNT_ID_LEN)
}

/// Decodes a moderation action.
pub fn decode_moderation(buf: &Vec<u8>, pos: usize) -> (r: Result<
    (ModerationAction, usize),
    DecodeError,
>)
    ensures
        match r {
            Ok((v, p2)) => spec_decode_moderation(buf@, pos as int) == Ok::<
                (ModerationActionView, int),
                DecodeError,
            >((v@, p2 as int)) && pos <= p2 <= buf@.len(),
            Err(e) => spec_decode_moderation(buf@, pos as int) == Err::<
                (ModerationActionView, int),
                DecodeError,
            >(e),
        },
{
    let (moderated_at, p1) = match decode_timestamp(buf, pos) {
        Ok(t) => t,
        Err(e) => {
            return Err(e);
        },
    };
    let (moderator_id, p2) = match decode_account(buf, p1) {
        Ok(t) => t,
        Err(e) => {
            return Err(e);
        },
    };
    let (rationale, p3) = match decode_bytes(buf, p2) {
        Ok(t) => t,
        Err(e) => {
            return Err(e);
        },
    };
    Ok((ModerationAction { moderated_at, moderator_id, rationale }, p3))
}

/// Decodes an optional moderation action.
pub fn decode_opt_moderation(buf: &Vec<u8>, pos: usize) -> (r: Result<
    (Option<ModerationAction>, usize),
    DecodeError,
>)
    ensures
        match r {
            Ok((v, p2)) => spec_decode_opt_moderation(buf@, pos as int) == Ok::<
                (Option<ModerationActionView>, int),
                DecodeError,
            >((view_opt_moderation(v), p2 as int)) && pos <= p2 <= buf@.len(),
            Err(e) => spec_decode_opt_moderation(buf@, pos as int) == Err::<
                (Option<ModerationActionView>, int),
                DecodeError,
            >(e),
        },
{
    if pos >= buf.len() {
        return Err(DecodeError::UnexpectedEof);
    }
    let tag = buf[pos];
    if tag == 0 {
        Ok((None, pos + 1))
    } else if tag == 1 {
        let (m, p2) = match decode_moderation(buf, pos + 1) {
            Ok(t) => t,
            Err(e) => {
                return Err(e);
            },
        };
        Ok((Some(m), p2))
    } else {
        Err(DecodeError::InvalidOptionTag)
    }
}

/// Decodes one retired post revision.
pub fn decode_text_change(buf: &Vec<u8>, pos: usize) -> (r: Result<
    (PostTextChange, usize),
    DecodeError,
>)
    ensures
        match r {
            Ok((v, p2)) => spec_decode_text_change(buf@, pos as int) == Ok::<
                (PostTextChangeView, int),
                DecodeError,
            >((v@, p2 as int)) && pos <= p2 <= buf@.len(),
            Err(e) => spec_decode_text_change(buf@, pos as int) == Err::<
                (PostTextChangeView, int),
                DecodeError,
            >(e),
        },
{
    let (expired_at, p1) = match decode_timestamp(buf, pos) {
        Ok(t) => t,
        Err(e) => {
            return Err(e);
        },
    };
    let (text, p2) = match decode_bytes(buf, p1) {
        Ok(t) => t,
        Err(e) => {
            return Err(e);
        },
    };
    Ok((PostTextChange { expired_at, text }, p2))
}

/// Decodes a revision history: a compact count, then that many revisions.
pub fn decode_text_change_history(buf: &Vec<u8>, pos: usize) -> (r: Result<
    (Vec<PostTextChange>, usize),
    DecodeError,
>)
    ensures
        match r {
            Ok((v, p2)) => spec_decode_text_change_history(buf@, pos as int) == Ok::<
                (Seq<PostTextChangeView>, int),
                DecodeError,
            >((view_text_changes(v@), p2 as int)) && pos <= p2 <= buf@.len(),
            Err(e) => spec_decode_text_change_history(buf@, pos as int) == Err::<
                (Seq<PostTextChangeView>, int),
                DecodeError,
            >(e),
        },
{
    let (n, p1) = match decode_compact(buf, pos) {
        Ok(t) => t,
        Err(e) => {
            return Err(e);
        },
    };
    let mut out: Vec<PostTextChange> = Vec::new();
    let mut cur: usize = p1;
    let mut i: u64 = 0;
    proof {
        lemma_prefix_empty(spec_decode_text_change_seq(buf@, p1 as int, n as nat));
        assert(view_text_changes(out@) =~= Seq::<PostTextChangeView>::empty());
    }
    while i < n
        invariant
            i <= n,
            pos <= cur <= buf@.len(),
            spec_decode_compact(buf@, pos as int) == Ok::<(u64, int), DecodeError>(
                (n, p1 as int),
            ),
            pos <= p1 <= buf@.len(),
            spec_decode_text_change_seq(buf@, p1 as int, n as nat) == seq_result_with_prefix(
                view_text_changes(out@),
                spec_decode_text_change_seq(buf@, cur as int, (n - i) as nat),
            ),
        decreases n - i,
    {
        let (v, p2) = match decode_text_change(buf, cur) {
            Ok(t) => t,
            Err(e) => {
                return Err(e);
            },
        };
        proof {
            let ghost prev = view_text_changes(out@);
            lemma_prefix_assoc(
                prev,
                seq![v@],
                spec_decode_text_change_seq(buf@, p2 as int, (n - i - 1) as nat),
            );
        }
        let ghost old_out = out@;
        out.push(v);
        proof {
            assert(view_text_changes(out@) =~= view_text_changes(old_out) + seq![v@]);
        }
        cur = p2;
        i = i + 1;
    }
    proof {
        assert(view_text_changes(out@) + Seq::<PostTextChangeView>::empty() =~= view_text_changes(
            out@,
        ));
    }
    Ok((out, cur))
}

/// Decodes a child position.
pub fn decode_child_position(buf: &Vec<u8>, pos: usize) -> (r: Result<
    (ChildPositionInParentCategory, usize),
    DecodeError,
>)
    ensures
        match r {
            Ok((v, p2)) => spec_decode_child_position(buf@, pos as int) == Ok::<
                (ChildPositionInParentCategory, int),
                DecodeError,
            >((v, p2 as int)) && pos <= p2 <= buf@.len(),
            Err(e) => spec_decode_child_position(buf@, pos as int) == Err::<
                (ChildPositionInParentCategory, int),
                DecodeError,
            >(e),
        },
{
    let (parent_id, p1) = match decode_u64(buf, pos) {
        Ok(t) => t,
        Err(e) => {
            return Err(e);
        },
    };
    let (child_nr_in_parent_category, p2) = match decode_u32(buf, p1) {
        Ok(t) => t,
        Err(e) => {
            return Err(e);
        },
    };
    Ok((ChildPositionInParentCategory { parent_id, child_nr_in_parent_category }, p2))
}

/// Decodes an optional child position.
pub fn decode_opt_child_position(buf: &Vec<u8>, pos: usize) -> (r: Result<
    (Option<ChildPositionInParentCategory>, usize),
    DecodeError,
>)
    ensures
        match r {
            Ok((v, p2)) => spec_decode_opt_child_position(buf@, pos as int) == Ok::<
                (Option<ChildPositionInParentCategory>, int),
                DecodeError,
            >((v, p2 as int)) && pos <= p2 <= buf@.len(),
            Err(e) => spec_decode_opt_child_position(buf@, pos as int) == Err::<
                (Option<ChildPositionInParentCategory>, int),
                DecodeError,
            >(e),
        },
{
    if pos >= buf.len() {
        return Err(DecodeError::UnexpectedEof);
    }
    let tag = buf[pos];
    if tag == 0 {
        Ok((None, pos + 1))
    } else if tag == 1 {
        let (c, p2) = match decode_child_position(buf, pos + 1) {
            Ok(t) => t,
            Err(e) => {
                return Err(e);
            },
        };
        Ok((Some(c), p2))
    } else {
        Err(DecodeError::InvalidOptionTag)
    }
}

/// Decodes a post at a cursor position.
pub fn decode_post_at(buf: &Vec<u8>, pos: usize) -> (r: Result<(Post, usize), DecodeError>)
    ensures
        match r {
            Ok((v, p2)) => spec_decode_post(buf@, pos as int) == Ok::<(PostView, int), DecodeError>(
                (v@, p2 as int),
            ) && pos <= p2 <= buf@.len(),
            Err(e) => spec_decode_post(buf@, pos as int) == Err::<(PostView, int), DecodeError>(e),
        },
{
    let (id, p1) = match decode_u64(buf, pos) {
        Ok(t) => t,
        Err(e) => {
            return Err(e);
        },
    };
    let (thread_id, p2) = match decode_u64(buf, p1) {
        Ok(t) => t,
        Err(e) => {
            return Err(e);
        },
    };
    let (nr_in_thread, p3) = match decode_u32(buf, p2) {
        Ok(t) => t,
        Err(e) => {
            return Err(e);
        },
    };
    let (current_text, p4) = match decode_bytes(buf, p3) {
        Ok(t) => t,
        Err(e) => {
            return Err(e);
        },
    };
    let (moderation, p5) = match decode_opt_moderation(buf, p4) {
        Ok(t) => t,
        Err(e) => {
            return Err(e);
        },
    };
    let (text_change_history, p6) = match decode_text_change_history(buf, p5) {
        Ok(t) => t,
        Err(e) => {
            return Err(e);
        },
    };
    let (created_at, p7) = match decode_timestamp(buf, p6) {
        Ok(t) => t,
        Err(e) => {
            return Err(e);
        },
    };
    let (author_id, p8) = match decode_account(buf, p7) {
        Ok(t) => t,
        Err(e) => {
            return Err(e);
        },
    };
    Ok(
        (
            Post {
                id,
                thread_id,
                nr_in_thread,
                current_text,
                moderation,
                text_change_history,
                created_at,
                author_id,
            },
            p8,
        ),
    )
}

/// Decodes a thread at a cursor position.
pub fn decode_thread_at(buf: &Vec<u8>, pos: usize) -> (r: Result<(Thread, usize), DecodeError>)
    ensures
        match r {
            Ok((v, p2)) => spec_decode_thread(buf@, pos as int) == Ok::<
                (ThreadView, int),
                DecodeError,
            >((v@, p2 as int)) && pos <= p2 <= buf@.len(),
            Err(e) => spec_decode_thread(buf@, pos as int) == Err::<(ThreadView, int), DecodeError>(
                e,
            ),
        },
{
    let (id, p1) = match decode_u64(buf, pos) {
        Ok(t) => t,
        Err(e) => {
            return Err(e);
        },
    };
    let (title, p2) = match decode_bytes(buf, p1) {
        Ok(t) => t,
        Err(e) => {
            return Err(e);
        },
    };
    let (category_id, p3) = match decode_u64(buf, p2) {
        Ok(t) => t,
        Err(e) => {
            return Err(e);
        },
    };
    let (nr_in_category, p4) = match decode_u32(buf, p3) {
        Ok(t) => t,
        Err(e) => {
            return Err(e);
        },
    };
    let (moderation, p5) = match decode_opt_moderation(buf, p4) {
        Ok(t) => t,
        Err(e) => {
            return Err(e);
        },
    };
    let (num_unmoderated_posts, p6) = match decode_u32(buf, p5) {
        Ok(t) => t,
        Err(e) => {
            return Err(e);
        },
    };
    let (num_moderated_posts, p7) = match decode_u32(buf, p6) {
        Ok(t) => t,
        Err(e) => {
            return Err(e);
        },
    };
    let (created_at, p8) = match decode_timestamp(buf, p7) {
        Ok(t) => t,
        Err(e) => {
            return Err(e);
        },
    };
    let (author_id, p9) = match decode_account(buf, p8) {
        Ok(t) => t,
        Err(e) => {
            return Err(e);
        },
    };
    Ok(
        (
            Thread {
                id,
                title,
                category_id,
                nr_in_category,
                moderation,
                num_unmoderated_posts,
                num_moderated_posts,
                created_at,
                author_id,
            },
            p9,
        ),
    )
}

/// Decodes a category at a cursor position.
pub fn decode_category_at(buf: &Vec<u8>, pos: usize) -> (r: Result<(Category, usize), DecodeError>)
    ensures
        match r {
            Ok((v, p2)) => spec_decode_category(buf@, pos as int) == Ok::<
                (CategoryView, int),
                DecodeError,
            >((v@, p2 as int)) && pos <= p2 <= buf@.len(),
            Err(e) => spec_decode_category(buf@, pos as int) == Err::<
                (CategoryView, int),
                DecodeError,
            >(e),
        },
{
    let (id, p1) = match decode_u64(buf, pos) {
        Ok(t) => t,
        Err(e) => {
            return Err(e);
        },
    };
    let (title, p2) = match decode_bytes(buf, p1) {
        Ok(t) => t,
        Err(e) => {
            return Err(e);
        },
    };
    let (description, p3) = match decode_bytes(buf, p2) {
        Ok(t) => t,
        Err(e) => {
            return Err(e);
        },
    };
    let (created_at, p4) = match decode_timestamp(buf, p3) {
        Ok(t) => t,
        Err(e) => {
            return Err(e);
        },
    };
    let (deleted, p5) = match decode_bool(buf, p4) {
        Ok(t) => t,
        Err(e) => {
            return Err(e);
        },
    };
    let (archived, p6) = match decode_bool(buf, p5) {
        Ok(t) => t,
        Err(e) => {
            return Err(e);
        },
    };
    let (num_direct_subcategories, p7) = match decode_u32(buf, p6) {
        Ok(t) => t,
        Err(e) => {
            return Err(e);
        },
    };
    let (num_direct_unmoderated_threads, p8) = match decode_u32(buf, p7) {
        Ok(t) => t,
        Err(e) => {
            return Err(e);
        },
    };
    let (num_direct_moderated_threads, p9) = match decode_u32(buf, p8) {
        Ok(t) => t,
        Err(e) => {
            return Err(e);
        },
    };
    let (position_in_parent_category, p10) = match decode_opt_child_position(buf, p9) {
        Ok(t) => t,
        Err(e) => {
            return Err(e);
        },
    };
    let (moderator_id, p11) = match decode_account(buf, p10) {
        Ok(t) => t,
        Err(e) => {
            return Err(e);
        },
    };
    Ok(
        (
            Category {
                id,
                title,
                description,
                created_at,
                deleted,
                archived,
                num_direct_subcategories,
                num_direct_unmoderated_threads,
                num_direct_moderated_threads,
                position_in_parent_category,
                moderator_id,
            },
            p11,
        ),
    )
}

/// Decodes a post from a whole buffer, rejecting trailing bytes.
pub fn decode_post_record(buf: &Vec<u8>) -> (r: Result<Post, DecodeError>)
    ensures
        match r {
            Ok(v) => spec_decode_post_record(buf@) == Ok::<PostView, DecodeError>(v@),
            Err(e) => spec_decode_post_record(buf@) == Err::<PostView, DecodeError>(e),
        },
{
    match decode_post_at(buf, 0) {
        Ok((v, p)) => if p == buf.len() {
            Ok(v)
        } else {
            Err(DecodeError::TrailingBytes)
        },
        Err(e) => Err(e),
    }
}

/// Decodes a thread from a whole buffer, rejecting trailing bytes.
pub fn decode_thread_record(buf: &Vec<u8>) -> (r: Result<Thread, DecodeError>)
    ensures
        match r {
            Ok(v) => spec_decode_thread_record(buf@) == Ok::<ThreadView, DecodeError>(v@),
            Err(e) => spec_decode_thread_record(buf@) == Err::<ThreadView, DecodeError>(e),
        },
{
    match decode_thread_at(buf, 0) {
        Ok((v, p)) => if p == buf.len() {
            Ok(v)
        } else {
            Err(DecodeError::TrailingBytes)
        },
        Err(e) => Err(e),
    }
}

/// Decodes a category from a whole buffer, rejecting trailing bytes.
pub fn decode_category_record(buf: &Vec<u8>) -> (r: Result<Category, DecodeError>)
    ensures
        match r {
            Ok(v) => spec_decode_category_record(buf@) == Ok::<CategoryView, DecodeError>(v@),
            Err(e) => spec_decode_category_record(buf@) == Err::<CategoryView, DecodeError>(e),
        },
{
    match decode_category_at(buf, 0) {
        Ok((v, p)) => if p == buf.len() {
            Ok(v)
        } else {
            Err(DecodeError::TrailingBytes)
        },
        Err(e) => Err(e),
    }
}

} // verus!
