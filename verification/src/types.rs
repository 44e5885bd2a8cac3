//! The decoded forum storage records: categories, threads, posts and their
//! nested parts, together with their spec-level views (byte vectors become
//! sequences) and the well-formedness each record keeps.

use vstd::prelude::*;

verus! {

/// A category identifier.
pub type CategoryId = u64;

/// A thread identifier.
pub type ThreadId = u64;

/// A post identifier.
pub type PostId = u64;

/// An account: an opaque fixed-size public key, decoded as raw bytes.
pub type AccountId = Vec<u8>;

/// How many bytes an account value occupies on the wire.
pub const ACCOUNT_ID_LEN: usize = 32;

/// A point in chain-time: a block number and a moment within it.
#[derive(Clone, Copy, PartialEq, Eq, Debug, Structural)]
pub struct BlockchainTimestamp {
    /// The block at which the event happened.
    pub block: u64,
    /// The moment at which the event happened.
    pub time: u64,
}

/// A moderation outcome applied to a post or a thread.
#[derive(Clone, PartialEq, Eq, Debug)]
pub struct ModerationAction {
    /// When the action occurred.
    pub moderated_at: BlockchainTimestamp,
    /// The account that acted.
    pub moderator_id: AccountId,
    /// The moderation rationale, an opaque byte string.
    pub rationale: Vec<u8>,
}

/// One retired revision of a post body.
#[derive(Clone, PartialEq, Eq, Debug)]
pub struct PostTextChange {
    /// When this revision expired.
    pub expired_at: BlockchainTimestamp,
    /// The text that expired, an opaque byte string.
    pub text: Vec<u8>,
}

/// A thread post.
#[derive(Clone, PartialEq, Eq, Debug)]
pub struct Post {
    /// Post identifier.
    pub id: PostId,
    /// The thread this post belongs to.
    pub thread_id: ThreadId,
    /// 1-based position of this post in its thread.
    pub nr_in_thread: u32,
    /// Current text of the post.
    pub current_text: Vec<u8>,
    /// Possible moderation of this post.
    pub moderation: Option<ModerationAction>,
    /// Earlier revisions, in the order they were encoded.
    pub text_change_history: Vec<PostTextChange>,
    /// When the post was submitted.
    pub created_at: BlockchainTimestamp,
    /// Author of the post.
    pub author_id: AccountId,
}

/// A thread.
#[derive(Clone, PartialEq, Eq, Debug)]
pub struct Thread {
    /// Thread identifier.
    pub id: ThreadId,
    /// Title, an opaque byte string.
    pub title: Vec<u8>,
    /// The category this thread lives in.
    pub category_id: CategoryId,
    /// 1-based position of this thread in its category.
    pub nr_in_category: u32,
    /// Possible moderation of this thread.
    pub moderation: Option<ModerationAction>,
    /// Number of unmoderated posts in this thread.
    pub num_unmoderated_posts: u32,
    /// Number of moderated posts in this thread.
    pub num_moderated_posts: u32,
    /// When the thread was established.
    pub created_at: BlockchainTimestamp,
    /// Author of the thread.
    pub author_id: AccountId,
}

/// A category's 1-based position among its parent's children.
#[derive(Clone, Copy, PartialEq, Eq, Debug, Structural)]
pub struct ChildPositionInParentCategory {
    /// The parent category.
    pub parent_id: CategoryId,
    /// 1-based position of the child in the parent.
    pub child_nr_in_parent_category: u32,
}

/// A category.
#[derive(Clone, PartialEq, Eq, Debug)]
pub struct Category {
    /// Category identifier.
    pub id: CategoryId,
    /// Title, an opaque byte string.
    pub title: Vec<u8>,
    /// Description, an opaque byte string.
    pub description: Vec<u8>,
    /// When the category was established.
    pub created_at: BlockchainTimestamp,
    /// Whether the category is deleted.
    pub deleted: bool,
    /// Whether the category is archived.
    pub archived: bool,
    /// Number of direct subcategories.
    pub num_direct_subcategories: u32,
    /// Number of direct unmoderated threads.
    pub num_direct_unmoderated_threads: u32,
    /// Number of direct moderated threads.
    pub num_direct_moderated_threads: u32,
    /// Position as child in the parent, absent for a root category.
    pub position_in_parent_category: Option<ChildPositionInParentCategory>,
    /// The moderator account that created the category.
    pub moderator_id: AccountId,
}

/// Spec view of a moderation action.
pub ghost struct ModerationActionView {
    pub moderated_at: BlockchainTimestamp,
    pub moderator_id: Seq<u8>,
    pub rationale: Seq<u8>,
}

/// Spec view of a retired post revision.
pub ghost struct PostTextChangeView {
    pub expired_at: BlockchainTimestamp,
    pub text: Seq<u8>,
}

/// Spec view of a post.
pub ghost struct PostView {
    pub id: PostId,
    pub thread_id: ThreadId,
    pub nr_in_thread: u32,
    pub current_text: Seq<u8>,
    pub moderation: Option<ModerationActionView>,
    pub text_change_history: Seq<PostTextChangeView>,
    pub created_at: BlockchainTimestamp,
    pub author_id: Seq<u8>,
}

/// Spec view of a thread.
pub ghost struct ThreadView {
    pub id: ThreadId,
    pub title: Seq<u8>,
    pub category_id: CategoryId,
    pub nr_in_category: u32,
    pub moderation: Option<ModerationActionView>,
    pub num_unmoderated_posts: u32,
    pub num_moderated_posts: u32,
    pub created_at: BlockchainTimestamp,
    pub author_id: Seq<u8>,
}

/// Spec view of a category.
pub ghost struct CategoryView {
    pub id: CategoryId,
    pub title: Seq<u8>,
    pub description: Seq<u8>,
    pub created_at: BlockchainTimestamp,
    pub deleted: bool,
    pub archived: bool,
    pub num_direct_subcategories: u32,
    pub num_direct_unmoderated_threads: u32,
    pub num_direct_moderated_threads: u32,
    pub position_in_parent_category: Option<ChildPositionInParentCategory>,
    pub moderator_id: Seq<u8>,
}

impl View for ModerationAction {
    type V = ModerationActionView;

    open spec fn view(&self) -> ModerationActionView {
        ModerationActionView {
            moderated_at: self.moderated_at,
            moderator_id: self.moderator_id@,
            rationale: self.rationale@,
        }
    }
}

impl View for PostTextChange {
    type V = PostTextChangeView;

    open spec fn view(&self) -> PostTextChangeView {
        PostTextChangeView { expired_at: self.expired_at, text: self.text@ }
    }
}

/// The view of a decoded optional moderation action.
pub open spec fn view_opt_moderation(v: Option<ModerationAction>) -> Option<ModerationActionView> {
    match v {
        Some(m) => Some(m@),
        None => None,
    }
}

/// The view of a decoded revision history.
pub open spec fn view_text_changes(v: Seq<PostTextChange>) -> Seq<PostTextChangeView> {
    v.map_values(|p: PostTextChange| p@)
}

impl View for Post {
    type V = PostView;

    open spec fn view(&self) -> PostView {
        PostView {
            id: self.id,
            thread_id: self.thread_id,
            nr_in_thread: self.nr_in_thread,
            current_text: self.current_text@,
            moderation: view_opt_moderation(self.moderation),
            text_change_history: view_text_changes(self.text_change_history@),
            created_at: self.created_at,
            author_id: self.author_id@,
        }
    }
}

impl View for Thread {
    type V = ThreadView;

    open spec fn view(&self) -> ThreadView {
        ThreadView {
            id: self.id,
            title: self.title@,
            category_id: self.category_id,
            nr_in_category: self.nr_in_category,
            moderation: view_opt_moderation(self.moderation),
            num_unmoderated_posts: self.num_unmoderated_posts,
            num_moderated_posts: self.num_moderated_posts,
            created_at: self.created_at,
            author_id: self.author_id@,
        }
    }
}

impl View for Category {
    type V = CategoryView;

    open spec fn view(&self) -> CategoryView {
        CategoryView {
            id: self.id,
            title: self.title@,
            description: self.description@,
            created_at: self.created_at,
            deleted: self.deleted,
            archived: self.archived,
            num_direct_subcategories: self.num_direct_subcategories,
            num_direct_unmoderated_threads: self.num_direct_unmoderated_threads,
            num_direct_moderated_threads: self.num_direct_moderated_threads,
            position_in_parent_category: self.position_in_parent_category,
            moderator_id: self.moderator_id@,
        }
    }
}

/// An account value is exactly 32 bytes.
pub open spec fn wf_account(a: Seq<u8>) -> bool {
    a.len() == ACCOUNT_ID_LEN
}

/// An opaque byte string short enough to carry a compact length prefix
/// of at most eight value bytes: every byte string a buffer can hold.
pub open spec fn wf_bytes(b: Seq<u8>) -> bool {
    b.len() < crate::bytes_le::pow256(8)
}

/// Well-formedness of a moderation action view.
pub open spec fn wf_moderation(m: ModerationActionView) -> bool {
    wf_account(m.moderator_id) && wf_bytes(m.rationale)
}

/// Well-formedness of a retired revision view.
pub open spec fn wf_text_change(t: PostTextChangeView) -> bool {
    wf_bytes(t.text)
}

/// Well-formedness of an optional moderation action view.
pub open spec fn wf_opt_moderation(m: Option<ModerationActionView>) -> bool {
    match m {
        Some(a) => wf_moderation(a),
        None => true,
    }
}

/// Well-formedness of a post view.
pub open spec fn wf_post(p: PostView) -> bool {
    &&& wf_bytes(p.current_text)
    &&& wf_opt_moderation(p.moderation)
    &&& p.text_change_history.len() < crate::bytes_le::pow256(8)
    &&& (forall|i: int|
        0 <= i < p.text_change_history.len() ==> wf_text_change(#[trigger] p.text_change_history[i]))
    &&& wf_account(p.author_id)
}

/// Well-formedness of a thread view.
pub open spec fn wf_thread(t: ThreadView) -> bool {
    &&& wf_bytes(t.title)
    &&& wf_opt_moderation(t.moderation)
    &&& wf_account(t.author_id)
}

/// Well-formedness of a category view.
pub open spec fn wf_category(c: CategoryView) -> bool {
    &&& wf_bytes(c.title)
    &&& wf_bytes(c.description)
    &&& wf_account(c.moderator_id)
}

} // verus!
