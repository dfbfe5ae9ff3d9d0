//! The relational state of the application and its well-formedness
//! invariant, plus the forum-side operations: sections, subsections, threads
//! and their sequenced messages.
//!
//! Ids of sections, subsections, threads and users are allocated in
//! ascending order. Message ids are 1-based, dense and unique within their
//! thread, assigned from the thread's own `message_seq` counter; the
//! invariant ties the counter to the number of the thread's messages, so a
//! serialized history of posts can never produce a gap or a duplicate.

use vstd::prelude::*;
use vstd::string::StringExecFns;
use crate::types::{CreateThreadMessage, ForumStructure, LogicError, PostMessage, Section, SubSection, Thread, ThreadQuery, ThreadsQueryType, UpdateMessage, User};
use crate::types::{Message, MessagesQuery, MessagesQueryResult, ThreadQueryResult};

verus! {

/// Threads shown per listing page.
pub const THREADS_PER_PAGE: u32 = 50;

/// Messages (and comments) shown per listing page.
pub const MESSAGES_PER_PAGE: u32 = 50;

/// A section row; soft-deletable.
pub struct SectionRow {
    pub id: u32,
    pub name: String,
    pub deleted: bool,
}

/// A subsection row; soft-deletable, owned by one section.
pub struct SubSectionRow {
    pub id: u32,
    pub section_id: u32,
    pub name: String,
    pub deleted: bool,
}

/// A thread row. `message_seq` is the thread's monotonic message counter:
/// the id of its latest message.
pub struct ThreadRow {
    pub id: u32,
    pub subsection_id: u32,
    pub name: String,
    pub author_id: u32,
    pub create_time: u64,
    pub update_time: u64,
    pub message_seq: u32,
    pub deleted: bool,
}

/// A message row; `id` is unique within `thread_id` only.
pub struct MessageRow {
    pub id: u32,
    pub thread_id: u32,
    pub user_id: u32,
    pub create_time: u64,
    pub update_time: u64,
    pub content: String,
}

/// One article version row. All versions of an article share `id`; at most
/// one of them is active.
pub struct ArticleRow {
    pub id: u32,
    pub version: u32,
    pub path: String,
    pub name: String,
    pub content: String,
    pub user_id: u32,
    pub create_time: u64,
    pub active: bool,
    pub visibility_public: bool,
}

/// A comment row; `id` is 1-based and dense within `article_id`.
pub struct CommentRow {
    pub id: u32,
    pub article_id: u32,
    pub article_version: u32,
    pub user_id: u32,
    pub create_time: u64,
    pub update_time: u64,
    pub content: String,
}

/// A favorite-article relation row.
pub struct FavoriteRow {
    pub user_id: u32,
    pub article_id: u32,
}

/// A user row.
pub struct UserRow {
    pub id: u32,
    pub name: String,
}

/// An uploaded-file mapping row, keyed by the derived opaque id.
pub struct FileRow {
    pub id: String,
    pub user_id: u32,
    pub file_name: String,
    pub mime: String,
    pub orig_file_name: String,
}

/// The main store: forum structure, threads, messages, articles, comments,
/// favorites, users and file mappings.
pub struct Store {
    pub sections: Vec<SectionRow>,
    pub subsections: Vec<SubSectionRow>,
    pub threads: Vec<ThreadRow>,
    pub messages: Vec<MessageRow>,
    pub articles: Vec<ArticleRow>,
    pub comments: Vec<CommentRow>,
    pub favorites: Vec<FavoriteRow>,
    pub users: Vec<UserRow>,
    pub files: Vec<FileRow>,
}

// ---------------------------------------------------------------------------
// Index and count spec functions: each returns the first matching position.
// ---------------------------------------------------------------------------

/// The position of the section with this id.
pub open spec fn section_idx(s: Seq<SectionRow>, id: u32) -> Option<int>
    decreases s.len(),
{
    if s.len() == 0 {
        None
    } else if s[0].id == id {
        Some(0)
    } else {
        match section_idx(s.drop_first(), id) {
            Some(i) => Some(i + 1),
            None => None,
        }
    }
}

/// The position of the subsection with this id.
pub open spec fn subsection_idx(s: Seq<SubSectionRow>, id: u32) -> Option<int>
    decreases s.len(),
{
    if s.len() == 0 {
        None
    } else if s[0].id == id {
        Some(0)
    } else {
        match subsection_idx(s.drop_first(), id) {
            Some(i) => Some(i + 1),
            None => None,
        }
    }
}

/// The position of the thread with this id.
pub open spec fn thread_idx(s: Seq<ThreadRow>, id: u32) -> Option<int>
    decreases s.len(),
{
    if s.len() == 0 {
        None
    } else if s[0].id == id {
        Some(0)
    } else {
        match thread_idx(s.drop_first(), id) {
            Some(i) => Some(i + 1),
            None => None,
        }
    }
}

/// The position of the user with this id.
pub open spec fn user_idx(s: Seq<UserRow>, id: u32) -> Option<int>
    decreases s.len(),
{
    if s.len() == 0 {
        None
    } else if s[0].id == id {
        Some(0)
    } else {
        match user_idx(s.drop_first(), id) {
            Some(i) => Some(i + 1),
            None => None,
        }
    }
}

/// The position of the user with this name.
pub open spec fn user_name_idx(s: Seq<UserRow>, name: Seq<char>) -> Option<int>
    decreases s.len(),
{
    if s.len() == 0 {
        None
    } else if s[0].name@ == name {
        Some(0)
    } else {
        match user_name_idx(s.drop_first(), name) {
            Some(i) => Some(i + 1),
            None => None,
        }
    }
}

/// The position of message `mid` of thread `tid`.
pub open spec fn message_idx(s: Seq<MessageRow>, tid: u32, mid: u32) -> Option<int>
    decreases s.len(),
{
    if s.len() == 0 {
        None
    } else if s[0].thread_id == tid && s[0].id == mid {
        Some(0)
    } else {
        match message_idx(s.drop_first(), tid, mid) {
            Some(i) => Some(i + 1),
            None => None,
        }
    }
}

/// How many messages belong to thread `tid`.
pub open spec fn cnt_msgs(s: Seq<MessageRow>, tid: u32) -> nat
    decreases s.len(),
{
    if s.len() == 0 {
        0
    } else {
        cnt_msgs(s.drop_last(), tid) + if s.last().thread_id == tid {
            1nat
        } else {
            0nat
        }
    }
}

/// How many comments belong to article `aid`.
pub open spec fn cnt_comments(s: Seq<CommentRow>, aid: u32) -> nat
    decreases s.len(),
{
    if s.len() == 0 {
        0
    } else {
        cnt_comments(s.drop_last(), aid) + if s.last().article_id == aid {
            1nat
        } else {
            0nat
        }
    }
}

// ---------------------------------------------------------------------------
// Characterization lemmas for the index functions.
// ---------------------------------------------------------------------------

pub proof fn lemma_section_idx(s: Seq<SectionRow>, id: u32)
    ensures
        match section_idx(s, id) {
            Some(i) => 0 <= i < s.len() && s[i].id == id && forall|k: int|
                0 <= k < i ==> s[k].id != id,
            None => forall|k: int| 0 <= k < s.len() ==> s[k].id != id,
        },
    decreases s.len(),
{
    if s.len() > 0 && s[0].id != id {
        let d = s.drop_first();
        lemma_section_idx(d, id);
        assert(forall|k: int| 0 <= k < d.len() ==> d[k] == #[trigger] s[k + 1]);
        match section_idx(d, id) {
            Some(i) => {
                assert(d[i] == s[i + 1]);
                assert forall|k: int| 0 <= k < i + 1 implies s[k].id != id by {
                    if k > 0 {
                        assert(d[k - 1].id != id);
                    }
                }
            },
            None => {
                assert forall|k: int| 0 <= k < s.len() implies s[k].id != id by {
                    if k > 0 {
                        assert(d[k - 1].id != id);
                    }
                }
            },
        }
    }
}

pub proof fn lemma_subsection_idx(s: Seq<SubSectionRow>, id: u32)
    ensures
        match subsection_idx(s, id) {
            Some(i) => 0 <= i < s.len() && s[i].id == id && forall|k: int|
                0 <= k < i ==> s[k].id != id,
            None => forall|k: int| 0 <= k < s.len() ==> s[k].id != id,
        },
    decreases s.len(),
{
    if s.len() > 0 && s[0].id != id {
        let d = s.drop_first();
        lemma_subsection_idx(d, id);
        assert(forall|k: int| 0 <= k < d.len() ==> d[k] == #[trigger] s[k + 1]);
        match subsection_idx(d, id) {
            Some(i) => {
                assert(d[i] == s[i + 1]);
                assert forall|k: int| 0 <= k < i + 1 implies s[k].id != id by {
                    if k > 0 {
                        assert(d[k - 1].id != id);
                    }
                }
            },
            None => {
                assert forall|k: int| 0 <= k < s.len() implies s[k].id != id by {
                    if k > 0 {
                        assert(d[k - 1].id != id);
                    }
                }
            },
        }
    }
}

pub proof fn lemma_thread_idx(s: Seq<ThreadRow>, id: u32)
    ensures
        match thread_idx(s, id) {
            Some(i) => 0 <= i < s.len() && s[i].id == id && forall|k: int|
                0 <= k < i ==> s[k].id != id,
            None => forall|k: int| 0 <= k < s.len() ==> s[k].id != id,
        },
    decreases s.len(),
{
    if s.len() > 0 && s[0].id != id {
        let d = s.drop_first();
        lemma_thread_idx(d, id);
        assert(forall|k: int| 0 <= k < d.len() ==> d[k] == #[trigger] s[k + 1]);
        match thread_idx(d, id) {
            Some(i) => {
                assert(d[i] == s[i + 1]);
                assert forall|k: int| 0 <= k < i + 1 implies s[k].id != id by {
                    if k > 0 {
                        assert(d[k - 1].id != id);
                    }
                }
            },
            None => {
                assert forall|k: int| 0 <= k < s.len() implies s[k].id != id by {
                    if k > 0 {
                        assert(d[k - 1].id != id);
                    }
                }
            },
        }
    }
}

pub proof fn lemma_user_idx(s: Seq<UserRow>, id: u32)
    ensures
        match user_idx(s, id) {
            Some(i) => 0 <= i < s.len() && s[i].id == id && forall|k: int|
                0 <= k < i ==> s[k].id != id,
            None => forall|k: int| 0 <= k < s.len() ==> s[k].id != id,
        },
    decreases s.len(),
{
    if s.len() > 0 && s[0].id != id {
        let d = s.drop_first();
        lemma_user_idx(d, id);
        assert(forall|k: int| 0 <= k < d.len() ==> d[k] == #[trigger] s[k + 1]);
        match user_idx(d, id) {
            Some(i) => {
                assert(d[i] == s[i + 1]);
                assert forall|k: int| 0 <= k < i + 1 implies s[k].id != id by {
                    if k > 0 {
                        assert(d[k - 1].id != id);
                    }
                }
            },
            None => {
                assert forall|k: int| 0 <= k < s.len() implies s[k].id != id by {
                    if k > 0 {
                        assert(d[k - 1].id != id);
                    }
                }
            },
        }
    }
}

pub proof fn lemma_user_name_idx(s: Seq<UserRow>, name: Seq<char>)
    ensures
        match user_name_idx(s, name) {
            Some(i) => 0 <= i < s.len() && s[i].name@ == name && forall|k: int|
                0 <= k < i ==> s[k].name@ != name,
            None => forall|k: int| 0 <= k < s.len() ==> s[k].name@ != name,
        },
    decreases s.len(),
{
    if s.len() > 0 && s[0].name@ != name {
        let d = s.drop_first();
        lemma_user_name_idx(d, name);
        assert(forall|k: int| 0 <= k < d.len() ==> d[k] == #[trigger] s[k + 1]);
        match user_name_idx(d, name) {
            Some(i) => {
                assert(d[i] == s[i + 1]);
                assert forall|k: int| 0 <= k < i + 1 implies s[k].name@ != name by {
                    if k > 0 {
                        assert(d[k - 1].name@ != name);
                    }
                }
            },
            None => {
                assert forall|k: int| 0 <= k < s.len() implies s[k].name@ != name by {
                    if k > 0 {
                        assert(d[k - 1].name@ != name);
                    }
                }
            },
        }
    }
}

pub proof fn lemma_message_idx(s: Seq<MessageRow>, tid: u32, mid: u32)
    ensures
        match message_idx(s, tid, mid) {
            Some(i) => 0 <= i < s.len() && s[i].thread_id == tid && s[i].id == mid && forall|
                k: int,
            | 0 <= k < i ==> !(s[k].thread_id == tid && s[k].id == mid),
            None => forall|k: int|
                0 <= k < s.len() ==> !(s[k].thread_id == tid && s[k].id == mid),
        },
    decreases s.len(),
{
    if s.len() > 0 && !(s[0].thread_id == tid && s[0].id == mid) {
        let d = s.drop_first();
        lemma_message_idx(d, tid, mid);
        assert(forall|k: int| 0 <= k < d.len() ==> d[k] == #[trigger] s[k + 1]);
        match message_idx(d, tid, mid) {
            Some(i) => {
                assert(d[i] == s[i + 1]);
                assert forall|k: int| 0 <= k < i + 1 implies !(s[k].thread_id == tid && s[k].id
                    == mid) by {
                    if k > 0 {
                        assert(!(d[k - 1].thread_id == tid && d[k - 1].id == mid));
                    }
                }
            },
            None => {
                assert forall|k: int| 0 <= k < s.len() implies !(s[k].thread_id == tid && s[k].id
                    == mid) by {
                    if k > 0 {
                        assert(!(d[k - 1].thread_id == tid && d[k - 1].id == mid));
                    }
                }
            },
        }
    }
}

// ---------------------------------------------------------------------------
// Well-formedness.
// ---------------------------------------------------------------------------

/// Section ids are ascending (hence unique) and positive.
pub open spec fn wf_sections(s: Seq<SectionRow>) -> bool {
    &&& forall|i: int, j: int|
        #![trigger s[i], s[j]]
        0 <= i < j < s.len() ==> s[i].id < s[j].id
    &&& forall|i: int| 0 <= i < s.len() ==> #[trigger] s[i].id >= 1
}

/// Subsection ids are ascending (hence unique) and positive.
pub open spec fn wf_subsections(s: Seq<SubSectionRow>) -> bool {
    &&& forall|i: int, j: int|
        #![trigger s[i], s[j]]
        0 <= i < j < s.len() ==> s[i].id < s[j].id
    &&& forall|i: int| 0 <= i < s.len() ==> #[trigger] s[i].id >= 1
}

/// Thread ids are ascending (hence unique) and positive; every thread was
/// created with its first message, so its counter is at least 1.
pub open spec fn wf_threads(s: Seq<ThreadRow>) -> bool {
    &&& forall|i: int, j: int|
        #![trigger s[i], s[j]]
        0 <= i < j < s.len() ==> s[i].id < s[j].id
    &&& forall|i: int| 0 <= i < s.len() ==> #[trigger] s[i].id >= 1
    &&& forall|i: int| 0 <= i < s.len() ==> #[trigger] s[i].message_seq >= 1
}

/// User ids are ascending (hence unique) and positive.
pub open spec fn wf_users(s: Seq<UserRow>) -> bool {
    &&& forall|i: int, j: int|
        #![trigger s[i], s[j]]
        0 <= i < j < s.len() ==> s[i].id < s[j].id
    &&& forall|i: int| 0 <= i < s.len() ==> #[trigger] s[i].id >= 1
}

/// True when some thread row carries this id.
pub open spec fn thread_id_exists(ts: Seq<ThreadRow>, tid: u32) -> bool {
    exists|j: int| 0 <= j < ts.len() && (#[trigger] ts[j]).id == tid
}

/// Message ids are positive, bounded by their thread's counter, strictly
/// ascending within a thread, and each thread's counter equals its message
/// count: together, the ids of a thread are exactly `1..=message_seq`.
pub open spec fn wf_messages(ms: Seq<MessageRow>, ts: Seq<ThreadRow>) -> bool {
    &&& forall|i: int| 0 <= i < ms.len() ==> #[trigger] ms[i].id >= 1
    &&& forall|i: int, j: int|
        #![trigger ms[i], ts[j]]
        0 <= i < ms.len() && 0 <= j < ts.len() && ms[i].thread_id == ts[j].id ==> ms[i].id
            <= ts[j].message_seq
    &&& forall|i: int, j: int|
        #![trigger ms[i], ms[j]]
        0 <= i < j < ms.len() && ms[i].thread_id == ms[j].thread_id ==> ms[i].id < ms[j].id
    &&& forall|j: int|
        0 <= j < ts.len() ==> cnt_msgs(ms, ts[j].id) == #[trigger] ts[j].message_seq
    &&& forall|i: int|
        0 <= i < ms.len() ==> #[trigger] thread_id_exists(ts, ms[i].thread_id)
}

/// Article versions are positive and strictly ascending within an article;
/// at most one version of an article is active, and an active version is
/// the article's greatest.
pub open spec fn wf_articles(s: Seq<ArticleRow>) -> bool {
    &&& forall|i: int| 0 <= i < s.len() ==> #[trigger] s[i].version >= 1
    &&& forall|i: int| 0 <= i < s.len() ==> #[trigger] s[i].id >= 1
    &&& forall|i: int, j: int|
        #![trigger s[i], s[j]]
        0 <= i < j < s.len() && s[i].id == s[j].id ==> s[i].version < s[j].version
    &&& forall|i: int, j: int|
        #![trigger s[i], s[j]]
        0 <= i < s.len() && 0 <= j < s.len() && i != j && s[i].id == s[j].id ==> !(s[i].active
            && s[j].active)
    &&& forall|i: int, j: int|
        #![trigger s[i], s[j]]
        0 <= i < s.len() && 0 <= j < s.len() && s[i].id == s[j].id && s[i].active ==> s[j].version
            <= s[i].version
}

/// Comment ids are positive and each equals the number of its article's
/// comments up to and including itself: within an article they are exactly
/// `1..=count`, in order.
pub open spec fn wf_comments(s: Seq<CommentRow>) -> bool {
    &&& forall|i: int| 0 <= i < s.len() ==> #[trigger] s[i].id >= 1
    &&& forall|i: int|
        0 <= i < s.len() ==> #[trigger] s[i].id == cnt_comments(s.take(i + 1), s[i].article_id)
}

/// Favorite pairs are unique.
pub open spec fn wf_favorites(s: Seq<FavoriteRow>) -> bool {
    forall|i: int, j: int|
        #![trigger s[i], s[j]]
        0 <= i < j < s.len() ==> !(s[i].user_id == s[j].user_id && s[i].article_id
            == s[j].article_id)
}

/// File mapping ids are unique.
pub open spec fn wf_files(s: Seq<FileRow>) -> bool {
    forall|i: int, j: int|
        #![trigger s[i], s[j]]
        0 <= i < j < s.len() ==> s[i].id@ != s[j].id@
}

impl Store {
    /// The store's invariant: every operation requires and preserves it.
    pub open spec fn wf(self) -> bool {
        &&& wf_sections(self.sections@)
        &&& wf_subsections(self.subsections@)
        &&& wf_threads(self.threads@)
        &&& wf_users(self.users@)
        &&& wf_messages(self.messages@, self.threads@)
        &&& wf_articles(self.articles@)
        &&& wf_comments(self.comments@)
        &&& wf_favorites(self.favorites@)
        &&& wf_files(self.files@)
    }

    /// An empty store is well-formed.
    pub fn new() -> (s: Store)
        ensures
            s.wf(),
            s.sections@.len() == 0,
            s.subsections@.len() == 0,
            s.threads@.len() == 0,
            s.messages@.len() == 0,
            s.articles@.len() == 0,
            s.comments@.len() == 0,
            s.favorites@.len() == 0,
            s.users@.len() == 0,
            s.files@.len() == 0,
    {
        Store {
            sections: Vec::new(),
            subsections: Vec::new(),
            threads: Vec::new(),
            messages: Vec::new(),
            articles: Vec::new(),
            comments: Vec::new(),
            favorites: Vec::new(),
            users: Vec::new(),
            files: Vec::new(),
        }
    }
}

// ---------------------------------------------------------------------------
// Density of message ids (the heart of the sequencing invariant).
// ---------------------------------------------------------------------------

/// True when some message of thread `tid` has id `k`.
pub open spec fn has_message(ms: Seq<MessageRow>, tid: u32, k: u32) -> bool {
    exists|i: int| 0 <= i < ms.len() && (#[trigger] ms[i]).thread_id == tid && ms[i].id == k
}

proof fn lemma_msgs_cnt_bound(ms: Seq<MessageRow>, tid: u32, bound: int)
    requires
        bound >= 0,
        forall|i: int, j: int|
            #![trigger ms[i], ms[j]]
            0 <= i < j < ms.len() && ms[i].thread_id == tid && ms[j].thread_id == tid ==> ms[i].id
                < ms[j].id,
        forall|i: int|
            0 <= i < ms.len() && #[trigger] ms[i].thread_id == tid ==> 1 <= ms[i].id <= bound,
    ensures
        cnt_msgs(ms, tid) <= bound,
    decreases ms.len(),
{
    if ms.len() > 0 {
        let pre = ms.drop_last();
        if ms.last().thread_id == tid {
            let m = ms.last().id;
            assert(forall|i: int|
                0 <= i < pre.len() && #[trigger] pre[i].thread_id == tid ==> 1 <= pre[i].id <= m
                    - 1) by {
                assert(forall|i: int|
                    0 <= i < pre.len() ==> pre[i] == #[trigger] ms[i]);
            }
            lemma_msgs_cnt_bound(pre, tid, m - 1);
        } else {
            assert(forall|i: int| 0 <= i < pre.len() ==> pre[i] == #[trigger] ms[i]);
            lemma_msgs_cnt_bound(pre, tid, bound);
        }
    }
}

/// With the counter equal to the count, ids ascending and bounded, every id
/// `1..=seq` is taken by exactly one message of the thread.
proof fn lemma_msgs_dense(ms: Seq<MessageRow>, tid: u32, seq: u32)
    requires
        cnt_msgs(ms, tid) == seq,
        forall|i: int, j: int|
            #![trigger ms[i], ms[j]]
            0 <= i < j < ms.len() && ms[i].thread_id == tid && ms[j].thread_id == tid ==> ms[i].id
                < ms[j].id,
        forall|i: int|
            0 <= i < ms.len() && #[trigger] ms[i].thread_id == tid ==> 1 <= ms[i].id <= seq,
    ensures
        forall|k: u32| 1 <= k <= seq ==> #[trigger] has_message(ms, tid, k),
    decreases ms.len(),
{
    if seq > 0 {
        assert(ms.len() > 0);
        let pre = ms.drop_last();
        assert(forall|i: int| 0 <= i < pre.len() ==> pre[i] == #[trigger] ms[i]);
        if ms.last().thread_id == tid {
            let m = ms.last().id;
            assert(forall|i: int|
                0 <= i < pre.len() && #[trigger] pre[i].thread_id == tid ==> 1 <= pre[i].id <= m
                    - 1);
            lemma_msgs_cnt_bound(pre, tid, m - 1);
            assert(m == seq);
            lemma_msgs_dense(pre, tid, (seq - 1) as u32);
            assert forall|k: u32| 1 <= k <= seq implies #[trigger] has_message(ms, tid, k) by {
                if k < seq {
                    assert(has_message(pre, tid, k));
                    let i = choose|i: int|
                        0 <= i < pre.len() && (#[trigger] pre[i]).thread_id == tid && pre[i].id
                            == k;
                    assert(ms[i].thread_id == tid && ms[i].id == k);
                } else {
                    assert(ms[ms.len() - 1].thread_id == tid && ms[ms.len() - 1].id == seq);
                }
            }
        } else {
            lemma_msgs_dense(pre, tid, seq);
            assert forall|k: u32| 1 <= k <= seq implies #[trigger] has_message(ms, tid, k) by {
                assert(has_message(pre, tid, k));
                let i = choose|i: int|
                    0 <= i < pre.len() && (#[trigger] pre[i]).thread_id == tid && pre[i].id == k;
                assert(ms[i].thread_id == tid && ms[i].id == k);
            }
        }
    }
}

/// Message ids of an existing thread in a well-formed store are exactly the
/// dense range `1..=message_seq`: each is taken, and by one message only.
/// Sequenced posting can neither skip nor duplicate an id.
pub proof fn lemma_message_ids_dense(s: Store, t: int)
    requires
        s.wf(),
        0 <= t < s.threads@.len(),
    ensures
        forall|k: u32|
            1 <= k <= s.threads@[t].message_seq ==> #[trigger] has_message(
                s.messages@,
                s.threads@[t].id,
                k,
            ),
        forall|i: int, j: int|
            #![trigger s.messages@[i], s.messages@[j]]
            0 <= i < s.messages@.len() && 0 <= j < s.messages@.len() && i != j
                && s.messages@[i].thread_id == s.threads@[t].id && s.messages@[j].thread_id
                == s.threads@[t].id ==> s.messages@[i].id != s.messages@[j].id,
{
    let tid = s.threads@[t].id;
    lemma_msgs_dense(s.messages@, tid, s.threads@[t].message_seq);
}


// ---------------------------------------------------------------------------
// Allocation of new ids, and frame helpers.
// ---------------------------------------------------------------------------

/// The id the next section gets.
pub open spec fn next_section_id(s: Seq<SectionRow>) -> int {
    if s.len() == 0 {
        1
    } else {
        s.last().id + 1
    }
}

/// The id the next subsection gets.
pub open spec fn next_subsection_id(s: Seq<SubSectionRow>) -> int {
    if s.len() == 0 {
        1
    } else {
        s.last().id + 1
    }
}

/// The id the next thread gets.
pub open spec fn next_thread_id(s: Seq<ThreadRow>) -> int {
    if s.len() == 0 {
        1
    } else {
        s.last().id + 1
    }
}

/// The id the next user gets.
pub open spec fn next_user_id(s: Seq<UserRow>) -> int {
    if s.len() == 0 {
        1
    } else {
        s.last().id + 1
    }
}

/// Every table of `b` except the sections equals `a`'s.
pub open spec fn same_but_sections(a: Store, b: Store) -> bool {
    &&& a.subsections@ == b.subsections@
    &&& a.threads@ == b.threads@
    &&& a.messages@ == b.messages@
    &&& a.articles@ == b.articles@
    &&& a.comments@ == b.comments@
    &&& a.favorites@ == b.favorites@
    &&& a.users@ == b.users@
    &&& a.files@ == b.files@
}

/// Every table of `b` except the subsections equals `a`'s.
pub open spec fn same_but_subsections(a: Store, b: Store) -> bool {
    &&& a.sections@ == b.sections@
    &&& a.threads@ == b.threads@
    &&& a.messages@ == b.messages@
    &&& a.articles@ == b.articles@
    &&& a.comments@ == b.comments@
    &&& a.favorites@ == b.favorites@
    &&& a.users@ == b.users@
    &&& a.files@ == b.files@
}

/// Every table of `b` except the threads equals `a`'s.
pub open spec fn same_but_threads(a: Store, b: Store) -> bool {
    &&& a.sections@ == b.sections@
    &&& a.subsections@ == b.subsections@
    &&& a.messages@ == b.messages@
    &&& a.articles@ == b.articles@
    &&& a.comments@ == b.comments@
    &&& a.favorites@ == b.favorites@
    &&& a.users@ == b.users@
    &&& a.files@ == b.files@
}

/// Every table of `b` except threads and messages equals `a`'s.
pub open spec fn same_but_threads_messages(a: Store, b: Store) -> bool {
    &&& a.sections@ == b.sections@
    &&& a.subsections@ == b.subsections@
    &&& a.articles@ == b.articles@
    &&& a.comments@ == b.comments@
    &&& a.favorites@ == b.favorites@
    &&& a.users@ == b.users@
    &&& a.files@ == b.files@
}

/// Every table of `b` except the messages equals `a`'s.
pub open spec fn same_but_messages(a: Store, b: Store) -> bool {
    &&& a.sections@ == b.sections@
    &&& a.subsections@ == b.subsections@
    &&& a.threads@ == b.threads@
    &&& a.articles@ == b.articles@
    &&& a.comments@ == b.comments@
    &&& a.favorites@ == b.favorites@
    &&& a.users@ == b.users@
    &&& a.files@ == b.files@
}

/// Every table of `b` except the users equals `a`'s.
pub open spec fn same_but_users(a: Store, b: Store) -> bool {
    &&& a.sections@ == b.sections@
    &&& a.subsections@ == b.subsections@
    &&& a.threads@ == b.threads@
    &&& a.messages@ == b.messages@
    &&& a.articles@ == b.articles@
    &&& a.comments@ == b.comments@
    &&& a.favorites@ == b.favorites@
    &&& a.files@ == b.files@
}

// ---------------------------------------------------------------------------
// Executable lookups.
// ---------------------------------------------------------------------------

pub(crate) fn find_section(v: &Vec<SectionRow>, id: u32) -> (r: Option<usize>)
    ensures
        match r {
            Some(i) => i < v@.len() && section_idx(v@, id) == Some(i as int),
            None => section_idx(v@, id) is None,
        },
{
    let mut i: usize = 0;
    while i < v.len()
        invariant
            i <= v@.len(),
            forall|k: int| 0 <= k < i ==> (#[trigger] v@[k]).id != id,
        decreases v@.len() - i,
    {
        if v[i].id == id {
            proof {
                lemma_section_idx(v@, id);
            }
            return Some(i);
        }
        i = i + 1;
    }
    proof {
        lemma_section_idx(v@, id);
    }
    None
}

pub(crate) fn find_subsection(v: &Vec<SubSectionRow>, id: u32) -> (r: Option<usize>)
    ensures
        match r {
            Some(i) => i < v@.len() && subsection_idx(v@, id) == Some(i as int),
            None => subsection_idx(v@, id) is None,
        },
{
    let mut i: usize = 0;
    while i < v.len()
        invariant
            i <= v@.len(),
            forall|k: int| 0 <= k < i ==> (#[trigger] v@[k]).id != id,
        decreases v@.len() - i,
    {
        if v[i].id == id {
            proof {
                lemma_subsection_idx(v@, id);
            }
            return Some(i);
        }
        i = i + 1;
    }
    proof {
        lemma_subsection_idx(v@, id);
    }
    None
}

pub(crate) fn find_thread(v: &Vec<ThreadRow>, id: u32) -> (r: Option<usize>)
    ensures
        match r {
            Some(i) => i < v@.len() && thread_idx(v@, id) == Some(i as int),
            None => thread_idx(v@, id) is None,
        },
{
    let mut i: usize = 0;
    while i < v.len()
        invariant
            i <= v@.len(),
            forall|k: int| 0 <= k < i ==> (#[trigger] v@[k]).id != id,
        decreases v@.len() - i,
    {
        if v[i].id == id {
            proof {
                lemma_thread_idx(v@, id);
            }
            return Some(i);
        }
        i = i + 1;
    }
    proof {
        lemma_thread_idx(v@, id);
    }
    None
}

pub(crate) fn find_user_row(v: &Vec<UserRow>, id: u32) -> (r: Option<usize>)
    ensures
        match r {
            Some(i) => i < v@.len() && user_idx(v@, id) == Some(i as int),
            None => user_idx(v@, id) is None,
        },
{
    let mut i: usize = 0;
    while i < v.len()
        invariant
            i <= v@.len(),
            forall|k: int| 0 <= k < i ==> (#[trigger] v@[k]).id != id,
        decreases v@.len() - i,
    {
        if v[i].id == id {
            proof {
                lemma_user_idx(v@, id);
            }
            return Some(i);
        }
        i = i + 1;
    }
    proof {
        lemma_user_idx(v@, id);
    }
    None
}

pub(crate) fn find_user_by_name(v: &Vec<UserRow>, name: &str) -> (r: Option<usize>)
    ensures
        match r {
            Some(i) => i < v@.len() && user_name_idx(v@, name@) == Some(i as int),
            None => user_name_idx(v@, name@) is None,
        },
{
    let mut i: usize = 0;
    while i < v.len()
        invariant
            i <= v@.len(),
            forall|k: int| 0 <= k < i ==> (#[trigger] v@[k]).name@ != name@,
        decreases v@.len() - i,
    {
        if crate::util::str_eq(v[i].name.as_str(), name) {
            proof {
                lemma_user_name_idx(v@, name@);
            }
            return Some(i);
        }
        i = i + 1;
    }
    proof {
        lemma_user_name_idx(v@, name@);
    }
    None
}

pub(crate) fn find_message(v: &Vec<MessageRow>, tid: u32, mid: u32) -> (r: Option<usize>)
    ensures
        match r {
            Some(i) => i < v@.len() && message_idx(v@, tid, mid) == Some(i as int),
            None => message_idx(v@, tid, mid) is None,
        },
{
    let mut i: usize = 0;
    while i < v.len()
        invariant
            i <= v@.len(),
            forall|k: int|
                0 <= k < i ==> !((#[trigger] v@[k]).thread_id == tid && v@[k].id == mid),
        decreases v@.len() - i,
    {
        if v[i].thread_id == tid && v[i].id == mid {
            proof {
                lemma_message_idx(v@, tid, mid);
            }
            return Some(i);
        }
        i = i + 1;
    }
    proof {
        lemma_message_idx(v@, tid, mid);
    }
    None
}

// ---------------------------------------------------------------------------
// Section and subsection operations.
// ---------------------------------------------------------------------------

/// Creates a section with the next id. Fails with `CreateError` only when
/// the id space is exhausted.
pub fn create_section(store: &mut Store, section_name: &String) -> (r: Result<(), LogicError>)
    requires
        old(store).wf(),
    ensures
        final(store).wf(),
        match r {
            Ok(()) => {
                &&& final(store).sections@.len() == old(store).sections@.len() + 1
                &&& final(store).sections@.drop_last() == old(store).sections@
                &&& final(store).sections@.last().id == next_section_id(old(store).sections@)
                &&& final(store).sections@.last().name@ == section_name@
                &&& !final(store).sections@.last().deleted
                &&& same_but_sections(*old(store), *final(store))
            },
            Err(e) => {
                &&& e is CreateError
                &&& next_section_id(old(store).sections@) > u32::MAX
                &&& *final(store) == *old(store)
            },
        },
{
    let n = store.sections.len();
    let id: u32 = if n == 0 {
        1
    } else {
        let last = store.sections[n - 1].id;
        if last == u32::MAX {
            return Err(LogicError::CreateError);
        }
        last + 1
    };
    let row = SectionRow { id, name: section_name.clone(), deleted: false };
    proof {
        assert(forall|i: int|
            0 <= i < store.sections@.len() ==> (#[trigger] store.sections@[i]).id
                <= store.sections@.last().id);
    }
    store.sections.push(row);
    proof {
        assert(store.sections@.drop_last() =~= old(store).sections@);
    }
    Ok(())
}

/// Creates a subsection under `section_id` with the next id. The parent is
/// not checked, as the underlying insert enforces no relation; failure is
/// only id exhaustion.
pub fn create_sub_section(store: &mut Store, section_id: u32, section_name: &String) -> (r: Result<
    (),
    LogicError,
>)
    requires
        old(store).wf(),
    ensures
        final(store).wf(),
        match r {
            Ok(()) => {
                &&& final(store).subsections@.len() == old(store).subsections@.len() + 1
                &&& final(store).subsections@.drop_last() == old(store).subsections@
                &&& final(store).subsections@.last().id == next_subsection_id(
                    old(store).subsections@,
                )
                &&& final(store).subsections@.last().section_id == section_id
                &&& final(store).subsections@.last().name@ == section_name@
                &&& !final(store).subsections@.last().deleted
                &&& same_but_subsections(*old(store), *final(store))
            },
            Err(e) => {
                &&& e is CreateError
                &&& next_subsection_id(old(store).subsections@) > u32::MAX
                &&& *final(store) == *old(store)
            },
        },
{
    let n = store.subsections.len();
    let id: u32 = if n == 0 {
        1
    } else {
        let last = store.subsections[n - 1].id;
        if last == u32::MAX {
            return Err(LogicError::CreateError);
        }
        last + 1
    };
    let row = SubSectionRow { id, section_id, name: section_name.clone(), deleted: false };
    proof {
        assert(forall|i: int|
            0 <= i < store.subsections@.len() ==> (#[trigger] store.subsections@[i]).id
                <= store.subsections@.last().id);
    }
    store.subsections.push(row);
    proof {
        assert(store.subsections@.drop_last() =~= old(store).subsections@);
    }
    Ok(())
}

/// Renames a section; `SectionNotFound` exactly when no row has the id.
pub fn rename_section(store: &mut Store, section_id: u32, section_name: &String) -> (r: Result<
    (),
    LogicError,
>)
    requires
        old(store).wf(),
    ensures
        final(store).wf(),
        match r {
            Ok(()) => {
                &&& section_idx(old(store).sections@, section_id) is Some
                &&& {
                    let i = section_idx(old(store).sections@, section_id)->Some_0;
                    &&& final(store).sections@ == old(store).sections@.update(
                        i,
                        SectionRow {
                            name: final(store).sections@[i].name,
                            ..old(store).sections@[i]
                        },
                    )
                    &&& final(store).sections@[i].name@ == section_name@
                }
                &&& same_but_sections(*old(store), *final(store))
            },
            Err(e) => {
                &&& e is SectionNotFound
                &&& section_idx(old(store).sections@, section_id) is None
                &&& *final(store) == *old(store)
            },
        },
{
    match find_section(&store.sections, section_id) {
        Some(i) => {
            store.sections[i].name = section_name.clone();
            proof {
                assert(forall|k: int|
                    0 <= k < store.sections@.len() ==> (#[trigger] store.sections@[k]).id == old(
                        store,
                    ).sections@[k].id);
            }
            Ok(())
        },
        None => Err(LogicError::SectionNotFound),
    }
}

/// Renames a subsection; `SubsectionNotFound` exactly when no row has the id.
pub fn rename_subsection(store: &mut Store, subsection_id: u32, section_name: &String) -> (r:
    Result<(), LogicError>)
    requires
        old(store).wf(),
    ensures
        final(store).wf(),
        match r {
            Ok(()) => {
                &&& subsection_idx(old(store).subsections@, subsection_id) is Some
                &&& {
                    let i = subsection_idx(old(store).subsections@, subsection_id)->Some_0;
                    &&& final(store).subsections@ == old(store).subsections@.update(
                        i,
                        SubSectionRow {
                            name: final(store).subsections@[i].name,
                            ..old(store).subsections@[i]
                        },
                    )
                    &&& final(store).subsections@[i].name@ == section_name@
                }
                &&& same_but_subsections(*old(store), *final(store))
            },
            Err(e) => {
                &&& e is SubsectionNotFound
                &&& subsection_idx(old(store).subsections@, subsection_id) is None
                &&& *final(store) == *old(store)
            },
        },
{
    match find_subsection(&store.subsections, subsection_id) {
        Some(i) => {
            store.subsections[i].name = section_name.clone();
            proof {
                assert(forall|k: int|
                    0 <= k < store.subsections@.len() ==> (#[trigger] store.subsections@[k]).id
                        == old(store).subsections@[k].id);
            }
            Ok(())
        },
        None => Err(LogicError::SubsectionNotFound),
    }
}

/// Moves a subsection under another section; `SubsectionNotFound` exactly
/// when no row has the id.
pub fn move_subsection(store: &mut Store, subsection_id: u32, new_section_id: u32) -> (r: Result<
    (),
    LogicError,
>)
    requires
        old(store).wf(),
    ensures
        final(store).wf(),
        match r {
            Ok(()) => {
                &&& subsection_idx(old(store).subsections@, subsection_id) is Some
                &&& {
                    let i = subsection_idx(old(store).subsections@, subsection_id)->Some_0;
                    final(store).subsections@ == old(store).subsections@.update(
                        i,
                        SubSectionRow { section_id: new_section_id, ..old(store).subsections@[i] },
                    )
                }
                &&& same_but_subsections(*old(store), *final(store))
            },
            Err(e) => {
                &&& e is SubsectionNotFound
                &&& subsection_idx(old(store).subsections@, subsection_id) is None
                &&& *final(store) == *old(store)
            },
        },
{
    match find_subsection(&store.subsections, subsection_id) {
        Some(i) => {
            store.subsections[i].section_id = new_section_id;
            proof {
                assert(forall|k: int|
                    0 <= k < store.subsections@.len() ==> (#[trigger] store.subsections@[k]).id
                        == old(store).subsections@[k].id);
            }
            Ok(())
        },
        None => Err(LogicError::SubsectionNotFound),
    }
}

/// Renames a thread; `ThreadNotFound` exactly when no row has the id.
pub fn rename_thread(store: &mut Store, thread_id: u32, thread_name: &String) -> (r: Result<
    (),
    LogicError,
>)
    requires
        old(store).wf(),
    ensures
        final(store).wf(),
        match r {
            Ok(()) => {
                &&& thread_idx(old(store).threads@, thread_id) is Some
                &&& {
                    let i = thread_idx(old(store).threads@, thread_id)->Some_0;
                    &&& final(store).threads@ == old(store).threads@.update(
                        i,
                        ThreadRow { name: final(store).threads@[i].name, ..old(store).threads@[i] },
                    )
                    &&& final(store).threads@[i].name@ == thread_name@
                }
                &&& same_but_threads(*old(store), *final(store))
            },
            Err(e) => {
                &&& e is ThreadNotFound
                &&& thread_idx(old(store).threads@, thread_id) is None
                &&& *final(store) == *old(store)
            },
        },
{
    match find_thread(&store.threads, thread_id) {
        Some(i) => {
            store.threads[i].name = thread_name.clone();
            proof {
                assert(forall|k: int|
                    0 <= k < store.threads@.len() ==> (#[trigger] store.threads@[k]).id == old(
                        store,
                    ).threads@[k].id && store.threads@[k].message_seq == old(
                        store,
                    ).threads@[k].message_seq);
                lemma_wf_messages_thread_update(
                    store.messages@,
                    old(store).threads@,
                    store.threads@,
                );
            }
            Ok(())
        },
        None => Err(LogicError::ThreadNotFound),
    }
}

/// Moves a thread to another subsection; `ThreadNotFound` exactly when no
/// row has the id.
pub fn move_thread(store: &mut Store, thread_id: u32, new_subsection_id: u32) -> (r: Result<
    (),
    LogicError,
>)
    requires
        old(store).wf(),
    ensures
        final(store).wf(),
        match r {
            Ok(()) => {
                &&& thread_idx(old(store).threads@, thread_id) is Some
                &&& {
                    let i = thread_idx(old(store).threads@, thread_id)->Some_0;
                    final(store).threads@ == old(store).threads@.update(
                        i,
                        ThreadRow { subsection_id: new_subsection_id, ..old(store).threads@[i] },
                    )
                }
                &&& same_but_threads(*old(store), *final(store))
            },
            Err(e) => {
                &&& e is ThreadNotFound
                &&& thread_idx(old(store).threads@, thread_id) is None
                &&& *final(store) == *old(store)
            },
        },
{
    match find_thread(&store.threads, thread_id) {
        Some(i) => {
            store.threads[i].subsection_id = new_subsection_id;
            proof {
                assert(forall|k: int|
                    0 <= k < store.threads@.len() ==> (#[trigger] store.threads@[k]).id == old(
                        store,
                    ).threads@[k].id && store.threads@[k].message_seq == old(
                        store,
                    ).threads@[k].message_seq);
                lemma_wf_messages_thread_update(
                    store.messages@,
                    old(store).threads@,
                    store.threads@,
                );
            }
            Ok(())
        },
        None => Err(LogicError::ThreadNotFound),
    }
}

/// Soft-deletes a thread. Idempotent and error-free by design: a missing id
/// is a no-op.
pub fn delete_thread(store: &mut Store, id: u32)
    requires
        old(store).wf(),
    ensures
        final(store).wf(),
        same_but_threads(*old(store), *final(store)),
        match thread_idx(old(store).threads@, id) {
            Some(i) => final(store).threads@ == old(store).threads@.update(
                i,
                ThreadRow { deleted: true, ..old(store).threads@[i] },
            ),
            None => *final(store) == *old(store),
        },
{
    match find_thread(&store.threads, id) {
        Some(i) => {
            store.threads[i].deleted = true;
            proof {
                assert(forall|k: int|
                    0 <= k < store.threads@.len() ==> (#[trigger] store.threads@[k]).id == old(
                        store,
                    ).threads@[k].id && store.threads@[k].message_seq == old(
                        store,
                    ).threads@[k].message_seq);
                lemma_wf_messages_thread_update(
                    store.messages@,
                    old(store).threads@,
                    store.threads@,
                );
            }
        },
        None => {},
    }
}


/// An in-place thread edit that keeps every id and counter preserves the
/// message invariant.
proof fn lemma_wf_messages_thread_update(ms: Seq<MessageRow>, ots: Seq<ThreadRow>, ts: Seq<ThreadRow>)
    requires
        wf_messages(ms, ots),
        ts.len() == ots.len(),
        forall|k: int|
            0 <= k < ots.len() ==> (#[trigger] ts[k]).id == ots[k].id && ts[k].message_seq
                == ots[k].message_seq,
    ensures
        wf_messages(ms, ts),
{
    assert forall|i: int, j: int|
        0 <= i < ms.len() && 0 <= j < ts.len() && ms[i].thread_id == ts[j].id implies (
    #[trigger] ms[i]).id <= (#[trigger] ts[j]).message_seq by {
        assert(ms[i].thread_id == ots[j].id);
        assert(ms[i].id <= ots[j].message_seq);
    }
    assert forall|j: int| 0 <= j < ts.len() implies cnt_msgs(ms, (#[trigger] ts[j]).id)
        == ts[j].message_seq by {
        assert(cnt_msgs(ms, ots[j].id) == ots[j].message_seq);
    }
    assert forall|i: int| 0 <= i < ms.len() implies #[trigger] thread_id_exists(
        ts,
        ms[i].thread_id,
    ) by {
        assert(thread_id_exists(ots, ms[i].thread_id));
        let j = choose|j: int|
            0 <= j < ots.len() && (#[trigger] ots[j]).id == (ms[i]).thread_id;
        assert(ts[j].id == ms[i].thread_id);
    }
}

// ---------------------------------------------------------------------------
// Users.
// ---------------------------------------------------------------------------

/// Looks a user up by name.
pub fn find_user(store: &Store, user_name: &str) -> (r: Option<User>)
    ensures
        match user_name_idx(store.users@, user_name@) {
            Some(i) => r matches Some(u) && u.id == store.users@[i].id && u.name@
                == store.users@[i].name@,
            None => r is None,
        },
{
    match find_user_by_name(&store.users, user_name) {
        Some(i) => Some(User { id: store.users[i].id, name: store.users[i].name.clone() }),
        None => None,
    }
}

/// Creates a user with the next id. Names are unique: an existing name
/// fails with `CreateError`, as does id exhaustion.
pub fn save_user(store: &mut Store, user_name: &str) -> (r: Result<(), LogicError>)
    requires
        old(store).wf(),
    ensures
        final(store).wf(),
        match r {
            Ok(()) => {
                &&& user_name_idx(old(store).users@, user_name@) is None
                &&& final(store).users@.len() == old(store).users@.len() + 1
                &&& final(store).users@.drop_last() == old(store).users@
                &&& final(store).users@.last().id == next_user_id(old(store).users@)
                &&& final(store).users@.last().name@ == user_name@
                &&& same_but_users(*old(store), *final(store))
            },
            Err(e) => {
                &&& e is CreateError
                &&& (user_name_idx(old(store).users@, user_name@) is Some || next_user_id(
                    old(store).users@,
                ) > u32::MAX)
                &&& *final(store) == *old(store)
            },
        },
{
    match find_user_by_name(&store.users, user_name) {
        Some(_) => {
            proof {
                lemma_user_name_idx(store.users@, user_name@);
            }
            return Err(LogicError::CreateError);
        },
        None => {},
    }
    let n = store.users.len();
    let id: u32 = if n == 0 {
        1
    } else {
        let last = store.users[n - 1].id;
        if last == u32::MAX {
            return Err(LogicError::CreateError);
        }
        last + 1
    };
    let mut name_string = String::new();
    name_string.append(user_name);
    let row = UserRow { id, name: name_string };
    proof {
        assert(forall|i: int|
            0 <= i < store.users@.len() ==> (#[trigger] store.users@[i]).id
                <= store.users@.last().id);
    }
    store.users.push(row);
    proof {
        assert(store.users@.drop_last() =~= old(store).users@);
    }
    Ok(())
}

// ---------------------------------------------------------------------------
// Forum structure.
// ---------------------------------------------------------------------------

/// The visible sections, projected to (id, name).
pub open spec fn visible_sections(s: Seq<SectionRow>) -> Seq<(u32, Seq<char>)>
    decreases s.len(),
{
    if s.len() == 0 {
        Seq::empty()
    } else if !s.last().deleted {
        visible_sections(s.drop_last()).push((s.last().id, s.last().name@))
    } else {
        visible_sections(s.drop_last())
    }
}

/// The visible subsections — those not deleted whose parent section exists
/// and is not deleted — projected to (id, section id, name).
pub open spec fn visible_subsections(subs: Seq<SubSectionRow>, secs: Seq<SectionRow>) -> Seq<
    (u32, u32, Seq<char>),
>
    decreases subs.len(),
{
    if subs.len() == 0 {
        Seq::empty()
    } else {
        let rest = visible_subsections(subs.drop_last(), secs);
        let sub = subs.last();
        let parent_live = !sub.deleted && match section_idx(secs, sub.section_id) {
            Some(i) => !secs[i].deleted,
            None => false,
        };
        if parent_live {
            rest.push((sub.id, sub.section_id, sub.name@))
        } else {
            rest
        }
    }
}

/// The (id, name) projections of a section listing.
pub open spec fn section_views(v: Seq<Section>) -> Seq<(u32, Seq<char>)> {
    v.map_values(|x: Section| (x.id, x.name@))
}

/// The (id, section id, name) projections of a subsection listing.
pub open spec fn subsection_views(v: Seq<SubSection>) -> Seq<(u32, u32, Seq<char>)> {
    v.map_values(|x: SubSection| (x.id, x.section_id, x.name@))
}

/// The visible category tree plus the fixed page sizes.
pub fn query_forum_structure(store: &Store) -> (r: ForumStructure)
    ensures
        section_views(r.sections@) == visible_sections(store.sections@),
        subsection_views(r.subsections@) == visible_subsections(
            store.subsections@,
            store.sections@,
        ),
        r.threads_per_page == THREADS_PER_PAGE,
        r.messages_per_page == MESSAGES_PER_PAGE,
{
    let mut sections: Vec<Section> = Vec::new();
    let mut i: usize = 0;
    proof {
        assert(store.sections@.take(0) =~= Seq::<SectionRow>::empty());
        assert(section_views(sections@) =~= Seq::<(u32, Seq<char>)>::empty());
    }
    while i < store.sections.len()
        invariant
            i <= store.sections@.len(),
            section_views(sections@) == visible_sections(store.sections@.take(i as int)),
        decreases store.sections@.len() - i,
    {
        let ghost pre = section_views(sections@);
        if !store.sections[i].deleted {
            sections.push(
                Section { id: store.sections[i].id, name: store.sections[i].name.clone() },
            );
            proof {
                assert(section_views(sections@) =~= pre.push(
                    (sections@.last().id, sections@.last().name@),
                ));
            }
        }
        proof {
            assert(store.sections@.take(i + 1).drop_last() =~= store.sections@.take(i as int));
            assert(store.sections@.take(i + 1).last() == store.sections@[i as int]);
        }
        i = i + 1;
    }
    proof {
        assert(store.sections@.take(store.sections@.len() as int) =~= store.sections@);
    }
    let mut subsections: Vec<SubSection> = Vec::new();
    let mut j: usize = 0;
    proof {
        assert(store.subsections@.take(0) =~= Seq::<SubSectionRow>::empty());
        assert(subsection_views(subsections@) =~= Seq::<(u32, u32, Seq<char>)>::empty());
    }
    while j < store.subsections.len()
        invariant
            j <= store.subsections@.len(),
            subsection_views(subsections@) == visible_subsections(
                store.subsections@.take(j as int),
                store.sections@,
            ),
        decreases store.subsections@.len() - j,
    {
        let ghost pre = subsection_views(subsections@);
        let live = if store.subsections[j].deleted {
            false
        } else {
            match find_section(&store.sections, store.subsections[j].section_id) {
                Some(si) => !store.sections[si].deleted,
                None => false,
            }
        };
        if live {
            subsections.push(
                SubSection {
                    id: store.subsections[j].id,
                    section_id: store.subsections[j].section_id,
                    name: store.subsections[j].name.clone(),
                },
            );
            proof {
                assert(subsection_views(subsections@) =~= pre.push(
                    (
                        subsections@.last().id,
                        subsections@.last().section_id,
                        subsections@.last().name@,
                    ),
                ));
            }
        }
        proof {
            assert(store.subsections@.take(j + 1).drop_last() =~= store.subsections@.take(
                j as int,
            ));
            assert(store.subsections@.take(j + 1).last() == store.subsections@[j as int]);
        }
        j = j + 1;
    }
    proof {
        assert(store.subsections@.take(store.subsections@.len() as int) =~= store.subsections@);
    }
    ForumStructure {
        sections,
        subsections,
        threads_per_page: THREADS_PER_PAGE,
        messages_per_page: MESSAGES_PER_PAGE,
    }
}

/// The SQL fragment selecting the threads a listing filter asks for.
pub fn get_thread_where_clause(params: &ThreadQuery) -> (r: &'static str)
    ensures
        params.query_type is All ==> r@ == "WHERE deleted = FALSE"@,
        params.query_type is Section ==> r@
            == "WHERE deleted = FALSE AND t.subsection_id IN (SELECT ID FROM SUBSECTION WHERE section_id = ?)"@,
        params.query_type is SubSection ==> r@
            == "WHERE deleted = FALSE AND t.subsection_id = ?"@,
{
    match params.query_type {
        ThreadsQueryType::All => "WHERE deleted = FALSE",
        ThreadsQueryType::Section => "WHERE deleted = FALSE AND t.subsection_id IN (SELECT ID FROM SUBSECTION WHERE section_id = ?)",
        ThreadsQueryType::SubSection => "WHERE deleted = FALSE AND t.subsection_id = ?",
    }
}


proof fn lemma_cnt_msgs_none(ms: Seq<MessageRow>, tid: u32)
    requires
        forall|i: int| 0 <= i < ms.len() ==> (#[trigger] ms[i]).thread_id != tid,
    ensures
        cnt_msgs(ms, tid) == 0,
    decreases ms.len(),
{
    if ms.len() > 0 {
        assert(forall|i: int|
            0 <= i < ms.drop_last().len() ==> ms.drop_last()[i] == #[trigger] ms[i]);
        lemma_cnt_msgs_none(ms.drop_last(), tid);
    }
}

proof fn lemma_cnt_msgs_update(ms: Seq<MessageRow>, i: int, y: MessageRow, tid: u32)
    requires
        0 <= i < ms.len(),
        y.thread_id == ms[i].thread_id,
    ensures
        cnt_msgs(ms.update(i, y), tid) == cnt_msgs(ms, tid),
    decreases ms.len(),
{
    let u = ms.update(i, y);
    if i == ms.len() - 1 {
        assert(u.drop_last() =~= ms.drop_last());
    } else {
        assert(u.drop_last() =~= ms.drop_last().update(i, y));
        lemma_cnt_msgs_update(ms.drop_last(), i, y, tid);
    }
}

/// Updating a comment in place, keeping its article, changes no count.
pub proof fn lemma_cnt_comments_update(cs: Seq<CommentRow>, i: int, y: CommentRow, aid: u32)
    requires
        0 <= i < cs.len(),
        y.article_id == cs[i].article_id,
    ensures
        cnt_comments(cs.update(i, y), aid) == cnt_comments(cs, aid),
    decreases cs.len(),
{
    let u = cs.update(i, y);
    if i == cs.len() - 1 {
        assert(u.drop_last() =~= cs.drop_last());
    } else {
        assert(u.drop_last() =~= cs.drop_last().update(i, y));
        lemma_cnt_comments_update(cs.drop_last(), i, y, aid);
    }
}

// ---------------------------------------------------------------------------
// Threads and messages: creation and posting.
// ---------------------------------------------------------------------------

/// Creates a thread and its first message atomically: the thread gets the
/// next id, `message_seq = 1`, and message 1 holds the given content. Fails
/// with `CreateError` only when the thread id space is exhausted.
pub fn create_thread(
    store: &mut Store,
    message: &CreateThreadMessage,
    user: &User,
    now: u64,
) -> (r: Result<(), LogicError>)
    requires
        old(store).wf(),
    ensures
        final(store).wf(),
        match r {
            Ok(()) => {
                &&& final(store).threads@.len() == old(store).threads@.len() + 1
                &&& final(store).threads@.drop_last() == old(store).threads@
                &&& {
                    let t = final(store).threads@.last();
                    &&& t.id == next_thread_id(old(store).threads@)
                    &&& t.subsection_id == message.subsection_id
                    &&& t.name@ == message.thread_name@
                    &&& t.author_id == user.id
                    &&& t.create_time == now
                    &&& t.update_time == now
                    &&& t.message_seq == 1
                    &&& !t.deleted
                }
                &&& final(store).messages@.len() == old(store).messages@.len() + 1
                &&& final(store).messages@.drop_last() == old(store).messages@
                &&& {
                    let m = final(store).messages@.last();
                    &&& m.id == 1
                    &&& m.thread_id == next_thread_id(old(store).threads@)
                    &&& m.user_id == user.id
                    &&& m.create_time == now
                    &&& m.update_time == now
                    &&& m.content@ == message.message@
                }
                &&& same_but_threads_messages(*old(store), *final(store))
            },
            Err(e) => {
                &&& e is CreateError
                &&& next_thread_id(old(store).threads@) > u32::MAX
                &&& *final(store) == *old(store)
            },
        },
{
    let n = store.threads.len();
    let id: u32 = if n == 0 {
        1
    } else {
        let last = store.threads[n - 1].id;
        if last == u32::MAX {
            return Err(LogicError::CreateError);
        }
        last + 1
    };
    proof {
        assert(forall|i: int|
            0 <= i < store.threads@.len() ==> (#[trigger] store.threads@[i]).id
                <= store.threads@.last().id);
        assert forall|i: int| 0 <= i < store.messages@.len() implies (
        #[trigger] store.messages@[i]).thread_id != id by {
            assert(thread_id_exists(store.threads@, store.messages@[i].thread_id));
            let j = choose|j: int|
                0 <= j < store.threads@.len() && (#[trigger] store.threads@[j]).id == (
                store.messages@[i]).thread_id;
            assert(store.threads@[j].id < id);
        }
        lemma_cnt_msgs_none(store.messages@, id);
    }
    let trow = ThreadRow {
        id,
        subsection_id: message.subsection_id,
        name: message.thread_name.clone(),
        author_id: user.id,
        create_time: now,
        update_time: now,
        message_seq: 1,
        deleted: false,
    };
    let mrow = MessageRow {
        id: 1,
        thread_id: id,
        user_id: user.id,
        create_time: now,
        update_time: now,
        content: message.message.clone(),
    };
    store.threads.push(trow);
    store.messages.push(mrow);
    proof {
        let ts = store.threads@;
        let ms = store.messages@;
        let ots = old(store).threads@;
        let oms = old(store).messages@;
        assert(ts.drop_last() =~= ots);
        assert(ms.drop_last() =~= oms);
        assert(forall|i: int| 0 <= i < ots.len() ==> ots[i] == #[trigger] ts[i]);
        assert(forall|i: int| 0 <= i < oms.len() ==> oms[i] == #[trigger] ms[i]);
        assert forall|j: int| 0 <= j < ts.len() implies cnt_msgs(ms, ts[j].id) == #[trigger] ts[j].message_seq by {
            if j < ts.len() - 1 {
                assert(ts[j].id != id);
                assert(cnt_msgs(ms, ts[j].id) == cnt_msgs(oms, ts[j].id));
            } else {
                assert(cnt_msgs(ms, id) == cnt_msgs(oms, id) + 1);
            }
        }
        assert forall|i: int| 0 <= i < ms.len() implies #[trigger] thread_id_exists(
            ts,
            ms[i].thread_id,
        ) by {
            if i < ms.len() - 1 {
                assert(thread_id_exists(ots, oms[i].thread_id));
                let j = choose|j: int|
                    0 <= j < ots.len() && (#[trigger] ots[j]).id == (oms[i]).thread_id;
                assert(ts[j].id == ms[i].thread_id);
            } else {
                assert(ts[ts.len() - 1].id == ms[i].thread_id);
            }
        }
    }
    Ok(())
}

/// Posts a message to an existing thread: allocates `id = message_seq + 1`
/// under the same atomic step that bumps the counter and the thread's
/// update time, so concurrent (serialized) posts can never share an id.
/// `ThreadNotFound` exactly when no thread row has the id; `CreateError`
/// only when the counter is exhausted.
pub fn save_message(store: &mut Store, message: &PostMessage, user: &User, now: u64) -> (r: Result<
    (),
    LogicError,
>)
    requires
        old(store).wf(),
    ensures
        final(store).wf(),
        match r {
            Ok(()) => {
                &&& thread_idx(old(store).threads@, message.thread_id) is Some
                &&& {
                    let i = thread_idx(old(store).threads@, message.thread_id)->Some_0;
                    let seq = old(store).threads@[i].message_seq;
                    &&& seq < u32::MAX
                    &&& final(store).threads@ == old(store).threads@.update(
                        i,
                        ThreadRow {
                            update_time: now,
                            message_seq: (seq + 1) as u32,
                            ..old(store).threads@[i]
                        },
                    )
                    &&& final(store).messages@.len() == old(store).messages@.len() + 1
                    &&& final(store).messages@.drop_last() == old(store).messages@
                    &&& {
                        let m = final(store).messages@.last();
                        &&& m.id == seq + 1
                        &&& m.thread_id == message.thread_id
                        &&& m.user_id == user.id
                        &&& m.create_time == now
                        &&& m.update_time == now
                        &&& m.content@ == message.message@
                    }
                }
                &&& same_but_threads_messages(*old(store), *final(store))
            },
            Err(e) => {
                &&& *final(store) == *old(store)
                &&& match thread_idx(old(store).threads@, message.thread_id) {
                    Some(i) => e is CreateError && old(store).threads@[i].message_seq == u32::MAX,
                    None => e is ThreadNotFound,
                }
            },
        },
{
    let ti = match find_thread(&store.threads, message.thread_id) {
        Some(i) => i,
        None => {
            return Err(LogicError::ThreadNotFound);
        },
    };
    let seq = store.threads[ti].message_seq;
    if seq == u32::MAX {
        return Err(LogicError::CreateError);
    }
    let next = seq + 1;
    let tid = message.thread_id;
    proof {
        lemma_thread_idx(old(store).threads@, tid);
    }
    let mrow = MessageRow {
        id: next,
        thread_id: tid,
        user_id: user.id,
        create_time: now,
        update_time: now,
        content: message.message.clone(),
    };
    store.messages.push(mrow);
    store.threads[ti].update_time = now;
    store.threads[ti].message_seq = next;
    proof {
        let ts = store.threads@;
        let ms = store.messages@;
        let ots = old(store).threads@;
        let oms = old(store).messages@;
        assert(ms.drop_last() =~= oms);
        assert(forall|i: int| 0 <= i < oms.len() ==> oms[i] == #[trigger] ms[i]);
        assert(ts =~= ots.update(
            ti as int,
            ThreadRow { update_time: now, message_seq: next, ..ots[ti as int] },
        ));
        // Thread ids are unique, so only thread `ti` owns messages of `tid`.
        assert forall|j: int|
            0 <= j < ts.len() && j != ti implies (#[trigger] ts[j]).id != tid by {}
        // Old messages of `tid` have ids at most `seq`.
        assert(forall|i: int|
            0 <= i < oms.len() && (#[trigger] oms[i]).thread_id == tid ==> oms[i].id <= seq);
        assert forall|j: int| 0 <= j < ts.len() implies cnt_msgs(ms, ts[j].id) == #[trigger] ts[j].message_seq by {
            if j == ti {
                assert(cnt_msgs(ms, tid) == cnt_msgs(oms, tid) + 1);
            } else {
                assert(ts[j].id != tid);
                assert(cnt_msgs(ms, ts[j].id) == cnt_msgs(oms, ts[j].id));
                assert(cnt_msgs(oms, ots[j].id) == ots[j].message_seq);
            }
        }
        assert forall|i: int| 0 <= i < ms.len() implies #[trigger] thread_id_exists(
            ts,
            ms[i].thread_id,
        ) by {
            if i < ms.len() - 1 {
                assert(thread_id_exists(ots, oms[i].thread_id));
                let j = choose|j: int|
                    0 <= j < ots.len() && (#[trigger] ots[j]).id == (oms[i]).thread_id;
                assert(ts[j].id == ms[i].thread_id);
            } else {
                assert(ts[ti as int].id == ms[i].thread_id);
            }
        }
    }
    Ok(())
}

/// Edits a message's content, then its metadata if the editor owns it. The
/// two steps are separate, as in the underlying statements: a wrong editor
/// gets `MessageNotFound` after the content has already been replaced.
pub fn update_message(store: &mut Store, message: &UpdateMessage, user: &User, now: u64) -> (r:
    Result<(), LogicError>)
    requires
        old(store).wf(),
    ensures
        final(store).wf(),
        same_but_messages(*old(store), *final(store)),
        match r {
            Ok(()) => {
                &&& message_idx(old(store).messages@, message.thread_id, message.message_id)
                    is Some
                &&& {
                    let i = message_idx(
                        old(store).messages@,
                        message.thread_id,
                        message.message_id,
                    )->Some_0;
                    &&& old(store).messages@[i].user_id == user.id
                    &&& final(store).messages@ == old(store).messages@.update(
                        i,
                        MessageRow {
                            content: final(store).messages@[i].content,
                            update_time: now,
                            ..old(store).messages@[i]
                        },
                    )
                    &&& final(store).messages@[i].content@ == message.message@
                }
            },
            Err(e) => {
                &&& e is MessageNotFound
                &&& match message_idx(
                    old(store).messages@,
                    message.thread_id,
                    message.message_id,
                ) {
                    Some(i) => {
                        &&& old(store).messages@[i].user_id != user.id
                        &&& final(store).messages@ == old(store).messages@.update(
                            i,
                            MessageRow {
                                content: final(store).messages@[i].content,
                                ..old(store).messages@[i]
                            },
                        )
                        &&& final(store).messages@[i].content@ == message.message@
                    },
                    None => *final(store) == *old(store),
                }
            },
        },
{
    let mi = match find_message(&store.messages, message.thread_id, message.message_id) {
        Some(i) => i,
        None => {
            return Err(LogicError::MessageNotFound);
        },
    };
    store.messages[mi].content = message.message.clone();
    proof {
        lemma_wf_messages_content_update(old(store).messages@, store.messages@, old(store).threads@, mi as int);
    }
    if store.messages[mi].user_id != user.id {
        return Err(LogicError::MessageNotFound);
    }
    let ghost mid = store.messages@;
    store.messages[mi].update_time = now;
    proof {
        lemma_wf_messages_content_update(mid, store.messages@, old(store).threads@, mi as int);
        assert(store.messages@ =~= old(store).messages@.update(
            mi as int,
            MessageRow {
                content: store.messages@[mi as int].content,
                update_time: now,
                ..old(store).messages@[mi as int]
            },
        ));
    }
    Ok(())
}

/// An in-place edit that keeps a message's id, thread, author and creation
/// time preserves the message invariant.
proof fn lemma_wf_messages_content_update(
    oms: Seq<MessageRow>,
    ms: Seq<MessageRow>,
    ts: Seq<ThreadRow>,
    i: int,
)
    requires
        wf_messages(oms, ts),
        0 <= i < oms.len(),
        ms.len() == oms.len(),
        forall|k: int| 0 <= k < oms.len() && k != i ==> oms[k] == #[trigger] ms[k],
        ms[i].id == oms[i].id,
        ms[i].thread_id == oms[i].thread_id,
    ensures
        wf_messages(ms, ts),
{
    assert(ms =~= oms.update(i, ms[i]));
    assert forall|j: int| 0 <= j < ts.len() implies cnt_msgs(ms, ts[j].id) == #[trigger] ts[j].message_seq by {
        lemma_cnt_msgs_update(oms, i, ms[i], ts[j].id);
    }
    assert forall|k: int| 0 <= k < ms.len() implies #[trigger] thread_id_exists(
        ts,
        ms[k].thread_id,
    ) by {
        assert(thread_id_exists(ts, oms[k].thread_id));
    }
}


// ---------------------------------------------------------------------------
// Thread listings.
// ---------------------------------------------------------------------------

/// Whether a thread row satisfies a listing filter: not deleted, and for the
/// section filters, owned (transitively) by the named live section.
pub open spec fn thread_passes(s: Store, row: ThreadRow, q: ThreadQuery) -> bool {
    &&& !row.deleted
    &&& match q.query_type {
        ThreadsQueryType::All => true,
        ThreadsQueryType::Section => match q.id {
            Some(secid) => match subsection_idx(s.subsections@, row.subsection_id) {
                Some(j) => {
                    let sub = s.subsections@[j];
                    &&& sub.section_id == secid
                    &&& !sub.deleted
                    &&& match section_idx(s.sections@, secid) {
                        Some(k) => !s.sections@[k].deleted,
                        None => false,
                    }
                },
                None => false,
            },
            None => false,
        },
        ThreadsQueryType::SubSection => match q.id {
            Some(sid) => {
                &&& row.subsection_id == sid
                &&& match subsection_idx(s.subsections@, sid) {
                    Some(j) => {
                        let sub = s.subsections@[j];
                        &&& !sub.deleted
                        &&& match section_idx(s.sections@, sub.section_id) {
                            Some(k) => !s.sections@[k].deleted,
                            None => false,
                        }
                    },
                    None => false,
                }
            },
            None => false,
        },
    }
}

/// Whether the joins a listing makes all resolve: the author exists, the
/// latest message exists and its author exists.
pub open spec fn thread_joins_ok(s: Store, row: ThreadRow) -> bool {
    &&& user_idx(s.users@, row.author_id) is Some
    &&& match message_idx(s.messages@, row.id, row.message_seq) {
        Some(m) => user_idx(s.users@, s.messages@[m].user_id) is Some,
        None => false,
    }
}

/// The rows a listing returns before ordering: those passing the filter
/// whose joins resolve, in table order.
pub open spec fn listed_threads(s: Store, ts: Seq<ThreadRow>, q: ThreadQuery) -> Seq<ThreadRow>
    decreases ts.len(),
{
    if ts.len() == 0 {
        Seq::empty()
    } else {
        let rest = listed_threads(s, ts.drop_last(), q);
        if thread_passes(s, ts.last(), q) && thread_joins_ok(s, ts.last()) {
            rest.push(ts.last())
        } else {
            rest
        }
    }
}

/// How many rows pass the filter (the count a listing reports, which joins
/// do not reduce).
pub open spec fn count_threads(s: Store, ts: Seq<ThreadRow>, q: ThreadQuery) -> nat
    decreases ts.len(),
{
    if ts.len() == 0 {
        0
    } else {
        count_threads(s, ts.drop_last(), q) + if thread_passes(s, ts.last(), q) {
            1nat
        } else {
            0nat
        }
    }
}

/// Inserts `x` into a most-recently-updated-first sequence, after every row
/// at least as recent: a stable descending insertion.
pub open spec fn insert_desc(sorted: Seq<ThreadRow>, x: ThreadRow) -> Seq<ThreadRow>
    decreases sorted.len(),
{
    if sorted.len() == 0 {
        seq![x]
    } else if sorted[0].update_time >= x.update_time {
        seq![sorted[0]] + insert_desc(sorted.drop_first(), x)
    } else {
        seq![x] + sorted
    }
}

/// Stable insertion sort, most recently updated first.
pub open spec fn sort_desc(s: Seq<ThreadRow>) -> Seq<ThreadRow>
    decreases s.len(),
{
    if s.len() == 0 {
        s
    } else {
        insert_desc(sort_desc(s.drop_last()), s.last())
    }
}

/// The offset of a 1-based page.
pub open spec fn spec_offset(page: u32, per: u32) -> int {
    if page > 1 {
        (page - 1) * per
    } else {
        0
    }
}

/// The window `[off, off + per)` of a sequence, clipped to its length.
pub open spec fn page_window<T>(s: Seq<T>, off: int, per: int) -> Seq<T> {
    let a = if off <= s.len() {
        off
    } else {
        s.len() as int
    };
    let b = if off + per <= s.len() {
        off + per
    } else {
        s.len() as int
    };
    if a <= b {
        s.subrange(a, b)
    } else {
        Seq::empty()
    }
}

/// How a returned `Thread` relates to its row: every field copied or joined
/// from the row, its author, and its latest message.
pub open spec fn thread_matches(s: Store, t: Thread, row: ThreadRow) -> bool {
    &&& t.id == row.id
    &&& t.sub_section_id == row.subsection_id
    &&& t.name@ == row.name@
    &&& t.creation_date_time == row.create_time
    &&& t.total_messages == row.message_seq
    &&& t.last_message_id == row.message_seq
    &&& match user_idx(s.users@, row.author_id) {
        Some(u) => t.author.id == row.author_id && t.author.name@ == s.users@[u].name@,
        None => false,
    }
    &&& match message_idx(s.messages@, row.id, row.message_seq) {
        Some(m) => {
            let mr = s.messages@[m];
            &&& t.last_message_date_time == mr.create_time
            &&& match user_idx(s.users@, mr.user_id) {
                Some(u2) => t.last_message_user.id == mr.user_id && t.last_message_user.name@
                    == s.users@[u2].name@,
                None => false,
            }
        },
        None => false,
    }
}

/// Every row of `listed_threads` is a table row that passed the filter and
/// whose joins resolve.
proof fn lemma_listed_props(s: Store, ts: Seq<ThreadRow>, q: ThreadQuery)
    ensures
        forall|k: int|
            0 <= k < listed_threads(s, ts, q).len() ==> {
                let row = #[trigger] listed_threads(s, ts, q)[k];
                thread_passes(s, row, q) && thread_joins_ok(s, row)
            },
    decreases ts.len(),
{
    if ts.len() > 0 {
        lemma_listed_props(s, ts.drop_last(), q);
        let rest = listed_threads(s, ts.drop_last(), q);
        let cur = listed_threads(s, ts, q);
        assert forall|k: int| 0 <= k < cur.len() implies {
            let row = #[trigger] cur[k];
            thread_passes(s, row, q) && thread_joins_ok(s, row)
        } by {
            if k < rest.len() {
                assert(cur[k] == rest[k]);
            } else {
                assert(cur[k] == ts.last());
            }
        }
    }
}

/// Every element of a descending insertion is the inserted row or one of
/// the old ones.
proof fn lemma_insert_desc_elems(sorted: Seq<ThreadRow>, x: ThreadRow)
    ensures
        insert_desc(sorted, x).len() == sorted.len() + 1,
        forall|k: int|
            0 <= k < insert_desc(sorted, x).len() ==> (#[trigger] insert_desc(sorted, x)[k] == x
                || exists|j: int| 0 <= j < sorted.len() && insert_desc(sorted, x)[k] == #[trigger] sorted[j]),
    decreases sorted.len(),
{
    if sorted.len() > 0 && sorted[0].update_time >= x.update_time {
        lemma_insert_desc_elems(sorted.drop_first(), x);
        let r = insert_desc(sorted, x);
        let d = sorted.drop_first();
        assert forall|k: int| 0 <= k < r.len() implies (#[trigger] r[k] == x || exists|j: int|
            0 <= j < sorted.len() && r[k] == #[trigger] sorted[j]) by {
            if k == 0 {
                assert(r[0] == sorted[0]);
            } else {
                assert(r[k] == insert_desc(d, x)[k - 1]);
                if insert_desc(d, x)[k - 1] == x {
                } else {
                    let j = choose|j: int|
                        0 <= j < d.len() && insert_desc(d, x)[k - 1] == #[trigger] d[j];
                    assert(r[k] == sorted[j + 1]);
                }
            }
        }
    }
}

/// Every element of the sort is one of the unsorted rows.
proof fn lemma_sort_desc_elems(s: Seq<ThreadRow>)
    ensures
        sort_desc(s).len() == s.len(),
        forall|k: int|
            0 <= k < sort_desc(s).len() ==> exists|j: int|
                0 <= j < s.len() && #[trigger] sort_desc(s)[k] == s[j],
    decreases s.len(),
{
    if s.len() > 0 {
        let pre = s.drop_last();
        lemma_sort_desc_elems(pre);
        lemma_insert_desc_elems(sort_desc(pre), s.last());
        let r = sort_desc(s);
        assert forall|k: int| 0 <= k < r.len() implies exists|j: int|
            0 <= j < s.len() && #[trigger] r[k] == s[j] by {
            if r[k] == s.last() {
                assert(r[k] == s[s.len() - 1]);
            } else {
                let j0 = choose|j0: int|
                    0 <= j0 < sort_desc(pre).len() && r[k] == #[trigger] sort_desc(pre)[j0];
                let j1 = choose|j1: int|
                    0 <= j1 < pre.len() && sort_desc(pre)[j0] == #[trigger] pre[j1];
                assert(r[k] == s[j1]);
            }
        }
    }
}

/// A descending insertion into a descending sequence stays descending.
proof fn lemma_insert_desc_sorted(sorted: Seq<ThreadRow>, x: ThreadRow)
    requires
        forall|a: int, b: int|
            #![trigger sorted[a], sorted[b]]
            0 <= a < b < sorted.len() ==> sorted[a].update_time >= sorted[b].update_time,
    ensures
        ({
            let r = insert_desc(sorted, x);
            forall|a: int, b: int|
                #![trigger r[a], r[b]]
                0 <= a < b < r.len() ==> r[a].update_time >= r[b].update_time
        }),
    decreases sorted.len(),
{
    let r = insert_desc(sorted, x);
    if sorted.len() == 0 {
    } else if sorted[0].update_time >= x.update_time {
        let d = sorted.drop_first();
        assert(forall|k: int| 0 <= k < d.len() ==> d[k] == #[trigger] sorted[k + 1]);
        lemma_insert_desc_sorted(d, x);
        lemma_insert_desc_elems(d, x);
        let rd = insert_desc(d, x);
        assert forall|a: int, b: int|
            #![trigger r[a], r[b]]
            0 <= a < b < r.len() implies r[a].update_time >= r[b].update_time by {
            if a == 0 {
                assert(r[0] == sorted[0]);
                assert(r[b] == rd[b - 1]);
                if rd[b - 1] == x {
                } else {
                    let j = choose|j: int| 0 <= j < d.len() && rd[b - 1] == #[trigger] d[j];
                    assert(sorted[0].update_time >= sorted[j + 1].update_time);
                }
            } else {
                assert(r[a] == rd[a - 1] && r[b] == rd[b - 1]);
            }
        }
    }
}

/// The thread listing order really is most-recently-updated first: the sort
/// yields non-increasing update times.
pub proof fn lemma_sort_desc_sorted(s: Seq<ThreadRow>)
    ensures
        ({
            let r = sort_desc(s);
            forall|a: int, b: int|
                #![trigger r[a], r[b]]
                0 <= a < b < r.len() ==> r[a].update_time >= r[b].update_time
        }),
    decreases s.len(),
{
    if s.len() > 0 {
        lemma_sort_desc_sorted(s.drop_last());
        lemma_insert_desc_sorted(sort_desc(s.drop_last()), s.last());
    }
}

/// Inserting at the first position whose key is older places the row there.
proof fn lemma_insert_desc_at(sorted: Seq<ThreadRow>, x: ThreadRow, p: int)
    requires
        0 <= p <= sorted.len(),
        forall|k: int| 0 <= k < p ==> (#[trigger] sorted[k]).update_time >= x.update_time,
        p < sorted.len() ==> sorted[p].update_time < x.update_time,
    ensures
        insert_desc(sorted, x) == sorted.take(p) + seq![x] + sorted.skip(p),
    decreases p,
{
    if p == 0 {
        if sorted.len() == 0 {
            assert(insert_desc(sorted, x) =~= sorted.take(0) + seq![x] + sorted.skip(0));
        } else {
            assert(sorted.take(0) + seq![x] + sorted.skip(0) =~= seq![x] + sorted);
        }
    } else {
        let d = sorted.drop_first();
        assert(forall|k: int| 0 <= k < d.len() ==> d[k] == #[trigger] sorted[k + 1]);
        lemma_insert_desc_at(d, x, p - 1);
        assert(insert_desc(sorted, x) == seq![sorted[0]] + insert_desc(d, x));
        assert(seq![sorted[0]] + (d.take(p - 1) + seq![x] + d.skip(p - 1)) =~= sorted.take(p)
            + seq![x] + sorted.skip(p));
    }
}

/// Ids grow at least as fast as positions, so a table can never outgrow the
/// id space.
proof fn lemma_thread_ids_ge(ts: Seq<ThreadRow>)
    requires
        wf_threads(ts),
    ensures
        forall|i: int| 0 <= i < ts.len() ==> (#[trigger] ts[i]).id >= i + 1,
    decreases ts.len(),
{
    if ts.len() > 0 {
        let pre = ts.drop_last();
        assert(forall|i: int| 0 <= i < pre.len() ==> pre[i] == #[trigger] ts[i]);
        lemma_thread_ids_ge(pre);
        if ts.len() >= 2 {
            assert(ts[ts.len() - 2].id >= ts.len() - 1);
            assert(ts[ts.len() - 1].id > ts[ts.len() - 2].id);
        }
    }
}

fn thread_passes_exec(store: &Store, row_i: usize, params: &ThreadQuery) -> (r: bool)
    requires
        row_i < store.threads@.len(),
    ensures
        r == thread_passes(*store, store.threads@[row_i as int], *params),
{
    let row = &store.threads[row_i];
    if row.deleted {
        return false;
    }
    match params.query_type {
        ThreadsQueryType::All => true,
        ThreadsQueryType::Section => {
            match params.id {
                Some(secid) => {
                    match find_subsection(&store.subsections, row.subsection_id) {
                        Some(j) => {
                            if store.subsections[j].section_id == secid
                                && !store.subsections[j].deleted {
                                match find_section(&store.sections, secid) {
                                    Some(k) => !store.sections[k].deleted,
                                    None => false,
                                }
                            } else {
                                false
                            }
                        },
                        None => false,
                    }
                },
                None => false,
            }
        },
        ThreadsQueryType::SubSection => {
            match params.id {
                Some(sid) => {
                    if row.subsection_id != sid {
                        false
                    } else {
                        match find_subsection(&store.subsections, sid) {
                            Some(j) => {
                                if store.subsections[j].deleted {
                                    false
                                } else {
                                    match find_section(
                                        &store.sections,
                                        store.subsections[j].section_id,
                                    ) {
                                        Some(k) => !store.sections[k].deleted,
                                        None => false,
                                    }
                                }
                            },
                            None => false,
                        }
                    }
                },
                None => false,
            }
        },
    }
}

fn thread_joins_ok_exec(store: &Store, row_i: usize) -> (r: bool)
    requires
        row_i < store.threads@.len(),
    ensures
        r == thread_joins_ok(*store, store.threads@[row_i as int]),
{
    let row = &store.threads[row_i];
    match find_user_row(&store.users, row.author_id) {
        Some(_) => {},
        None => {
            return false;
        },
    }
    match find_message(&store.messages, row.id, row.message_seq) {
        Some(m) => {
            match find_user_row(&store.users, store.messages[m].user_id) {
                Some(_) => true,
                None => false,
            }
        },
        None => false,
    }
}

/// Builds the listing view of one thread row whose joins resolve.
fn build_thread_view(store: &Store, row_i: usize) -> (r: Thread)
    requires
        row_i < store.threads@.len(),
        thread_joins_ok(*store, store.threads@[row_i as int]),
    ensures
        thread_matches(*store, r, store.threads@[row_i as int]),
{
    let row = &store.threads[row_i];
    let author = match find_user_row(&store.users, row.author_id) {
        Some(u) => User { id: row.author_id, name: store.users[u].name.clone() },
        None => vstd::pervasive::unreached(),
    };
    let (last_time, last_user) = match find_message(&store.messages, row.id, row.message_seq) {
        Some(m) => {
            let mr = &store.messages[m];
            let u2 = match find_user_row(&store.users, mr.user_id) {
                Some(u2) => User { id: mr.user_id, name: store.users[u2].name.clone() },
                None => vstd::pervasive::unreached(),
            };
            (mr.create_time, u2)
        },
        None => vstd::pervasive::unreached(),
    };
    Thread {
        id: row.id,
        sub_section_id: row.subsection_id,
        name: row.name.clone(),
        author,
        total_messages: row.message_seq,
        creation_date_time: row.create_time,
        last_message_user: last_user,
        last_message_id: row.message_seq,
        last_message_date_time: last_time,
    }
}

/// One thread joined with its author and latest message; `None` exactly
/// when the row is absent or a join fails. Deletion does not hide a thread
/// from a direct read.
pub fn query_thread(store: &Store, thread_id: u32) -> (r: Option<Thread>)
    ensures
        match thread_idx(store.threads@, thread_id) {
            Some(i) => {
                if thread_joins_ok(*store, store.threads@[i]) {
                    r matches Some(t) && thread_matches(*store, t, store.threads@[i])
                } else {
                    r is None
                }
            },
            None => r is None,
        },
{
    match find_thread(&store.threads, thread_id) {
        Some(i) => {
            if thread_joins_ok_exec(store, i) {
                Some(build_thread_view(store, i))
            } else {
                None
            }
        },
        None => None,
    }
}

/// How many threads pass the filter.
pub fn query_thread_count(store: &Store, params: &ThreadQuery) -> (r: u32)
    requires
        store.wf(),
    ensures
        r == count_threads(*store, store.threads@, *params),
{
    let mut count: usize = 0;
    let mut i: usize = 0;
    proof {
        assert(store.threads@.take(0) =~= Seq::<ThreadRow>::empty());
    }
    while i < store.threads.len()
        invariant
            store.wf(),
            i <= store.threads@.len(),
            count <= i,
            count == count_threads(*store, store.threads@.take(i as int), *params),
        decreases store.threads@.len() - i,
    {
        proof {
            assert(store.threads@.take(i + 1).drop_last() =~= store.threads@.take(i as int));
            assert(store.threads@.take(i + 1).last() == store.threads@[i as int]);
        }
        if thread_passes_exec(store, i, params) {
            count = count + 1;
        }
        i = i + 1;
    }
    proof {
        assert(store.threads@.take(store.threads@.len() as int) =~= store.threads@);
        lemma_thread_ids_ge(store.threads@);
        if store.threads@.len() > 0 {
            assert(store.threads@[store.threads@.len() - 1].id >= store.threads@.len());
        }
    }
    count as u32
}

/// One page of the threads passing the filter, most recently updated first
/// (stable for equal times), each joined with its author and latest
/// message.
pub fn query_threads(store: &Store, params: &ThreadQuery) -> (r: Vec<Thread>)
    requires
        store.wf(),
    ensures
        ({
            let sorted = sort_desc(listed_threads(*store, store.threads@, *params));
            let win = page_window(
                sorted,
                spec_offset(params.page, THREADS_PER_PAGE),
                THREADS_PER_PAGE as int,
            );
            &&& r@.len() == win.len()
            &&& forall|k: int|
                0 <= k < win.len() ==> thread_matches(*store, #[trigger] r@[k], win[k])
        }),
{
    // Collect the positions of the rows the listing keeps, in table order.
    let mut kept: Vec<usize> = Vec::new();
    let mut i: usize = 0;
    proof {
        assert(store.threads@.take(0) =~= Seq::<ThreadRow>::empty());
    }
    while i < store.threads.len()
        invariant
            store.wf(),
            i <= store.threads@.len(),
            kept@.len() == listed_threads(*store, store.threads@.take(i as int), *params).len(),
            forall|k: int|
                0 <= k < kept@.len() ==> (#[trigger] kept@[k]) < store.threads@.len()
                    && store.threads@[kept@[k] as int] == listed_threads(
                    *store,
                    store.threads@.take(i as int),
                    *params,
                )[k],
        decreases store.threads@.len() - i,
    {
        proof {
            assert(store.threads@.take(i + 1).drop_last() =~= store.threads@.take(i as int));
            assert(store.threads@.take(i + 1).last() == store.threads@[i as int]);
        }
        if thread_passes_exec(store, i, params) && thread_joins_ok_exec(store, i) {
            kept.push(i);
        }
        i = i + 1;
    }
    proof {
        assert(store.threads@.take(store.threads@.len() as int) =~= store.threads@);
    }
    let ghost listed = listed_threads(*store, store.threads@, *params);

    // Stable descending insertion sort on (update time, position) pairs.
    let mut sorted: Vec<(u64, usize)> = Vec::new();
    let mut n: usize = 0;
    proof {
        assert(listed.take(0) =~= Seq::<ThreadRow>::empty());
    }
    while n < kept.len()
        invariant
            store.wf(),
            n <= kept@.len(),
            kept@.len() == listed.len(),
            listed == listed_threads(*store, store.threads@, *params),
            forall|k: int|
                0 <= k < kept@.len() ==> (#[trigger] kept@[k]) < store.threads@.len()
                    && store.threads@[kept@[k] as int] == listed[k],
            sorted@.len() == n,
            forall|k: int|
                0 <= k < sorted@.len() ==> (#[trigger] sorted@[k]).1 < store.threads@.len()
                    && store.threads@[sorted@[k].1 as int] == sort_desc(listed.take(n as int))[k]
                    && sorted@[k].0 == store.threads@[sorted@[k].1 as int].update_time,
        decreases kept@.len() - n,
    {
        let ti = kept[n];
        let key = store.threads[ti].update_time;
        let mut p: usize = 0;
        while p < sorted.len() && sorted[p].0 >= key
            invariant
                p <= sorted@.len(),
                forall|k: int| 0 <= k < p ==> (#[trigger] sorted@[k]).0 >= key,
            decreases sorted@.len() - p,
        {
            p = p + 1;
        }
        let ghost spre = sort_desc(listed.take(n as int));
        proof {
            lemma_sort_desc_elems(listed.take(n as int));
            assert(forall|k: int|
                0 <= k < spre.len() ==> #[trigger] spre[k] == store.threads@[sorted@[k].1 as int]);
            assert(forall|k: int|
                0 <= k < p ==> (#[trigger] spre[k]).update_time >= key);
            if p < spre.len() {
                assert(spre[p as int].update_time == sorted@[p as int].0);
            }
            lemma_insert_desc_at(spre, store.threads@[ti as int], p as int);
            assert(listed.take(n + 1).drop_last() =~= listed.take(n as int));
            assert(listed.take(n + 1).last() == listed[n as int]);
        }
        sorted.insert(p, (key, ti));
        n = n + 1;
        proof {
            let snew = sort_desc(listed.take(n as int));
            assert(snew == spre.take(p as int) + seq![store.threads@[ti as int]] + spre.skip(
                p as int,
            ));
            assert(sorted@ =~= sorted@.take(p as int).push((key, ti)) + sorted@.skip(p + 1));
            assert forall|k: int|
                0 <= k < sorted@.len() implies (#[trigger] sorted@[k]).1 < store.threads@.len()
                && store.threads@[sorted@[k].1 as int] == snew[k] && sorted@[k].0
                == store.threads@[sorted@[k].1 as int].update_time by {
                if k < p {
                    assert(sorted@[k] == old_sorted_at(sorted@, k));
                    assert(snew[k] == spre[k]);
                } else if k == p {
                    assert(snew[k] == store.threads@[ti as int]);
                } else {
                    assert(snew[k] == spre[k - 1]);
                }
            }
        }
    }
    proof {
        assert(listed.take(listed.len() as int) =~= listed);
    }

    // Emit the requested page.
    let ghost fullsorted = sort_desc(listed);
    let total = sorted.len();
    let off64: u64 = if params.page > 1 {
        (params.page as u64 - 1) * 50
    } else {
        0
    };
    let start: usize = if off64 > total as u64 {
        total
    } else {
        off64 as usize
    };
    let end: usize = if off64 + (THREADS_PER_PAGE as u64) > total as u64 {
        total
    } else {
        (off64 + (THREADS_PER_PAGE as u64)) as usize
    };
    let mut out: Vec<Thread> = Vec::new();
    let mut w: usize = start;
    proof {
        lemma_listed_props(*store, store.threads@, *params);
        lemma_sort_desc_elems(listed);
        assert(page_window(fullsorted, spec_offset(params.page, THREADS_PER_PAGE), THREADS_PER_PAGE as int)
            =~= fullsorted.subrange(start as int, end as int));
    }
    while w < end
        invariant
            store.wf(),
            start <= w <= end <= sorted@.len(),
            sorted@.len() == fullsorted.len(),
            fullsorted == sort_desc(listed_threads(*store, store.threads@, *params)),
            listed == listed_threads(*store, store.threads@, *params),
            forall|k: int|
                0 <= k < sorted@.len() ==> (#[trigger] sorted@[k]).1 < store.threads@.len()
                    && store.threads@[sorted@[k].1 as int] == fullsorted[k],
            forall|k: int|
                0 <= k < fullsorted.len() ==> thread_joins_ok(*store, #[trigger] fullsorted[k]),
            out@.len() == w - start,
            forall|k: int|
                0 <= k < out@.len() ==> thread_matches(*store, #[trigger] out@[k], fullsorted[
                    start + k
                ]),
        decreases end - w,
    {
        let ti = sorted[w].1;
        let t = build_thread_view(store, ti);
        out.push(t);
        w = w + 1;
    }
    out
}

/// Reads a pair out of the ghost sequence (helper for the sort proof).
pub open spec fn old_sorted_at(s: Seq<(u64, usize)>, k: int) -> (u64, usize) {
    s[k]
}


// ---------------------------------------------------------------------------
// Message listings.
// ---------------------------------------------------------------------------

/// The messages of thread `tid` whose author resolves, in table order —
/// which the invariant keeps equal to id order.
pub open spec fn joined_msgs(s: Store, ms: Seq<MessageRow>, tid: u32) -> Seq<MessageRow>
    decreases ms.len(),
{
    if ms.len() == 0 {
        Seq::empty()
    } else {
        let rest = joined_msgs(s, ms.drop_last(), tid);
        if ms.last().thread_id == tid && user_idx(s.users@, ms.last().user_id) is Some {
            rest.push(ms.last())
        } else {
            rest
        }
    }
}

/// How a returned `Message` relates to its row, author joined.
pub open spec fn msg_matches(s: Store, m: Message, row: MessageRow) -> bool {
    &&& m.id == row.id
    &&& m.thread_id == row.thread_id
    &&& m.create_time == row.create_time
    &&& m.update_time == row.update_time
    &&& m.content@ == row.content@
    &&& match user_idx(s.users@, row.user_id) {
        Some(u) => m.user.id == row.user_id && m.user.name@ == s.users@[u].name@,
        None => false,
    }
}

proof fn lemma_joined_msgs_props(s: Store, ms: Seq<MessageRow>, tid: u32)
    ensures
        forall|k: int|
            0 <= k < joined_msgs(s, ms, tid).len() ==> {
                let row = #[trigger] joined_msgs(s, ms, tid)[k];
                row.thread_id == tid && user_idx(s.users@, row.user_id) is Some
            },
    decreases ms.len(),
{
    if ms.len() > 0 {
        lemma_joined_msgs_props(s, ms.drop_last(), tid);
        let rest = joined_msgs(s, ms.drop_last(), tid);
        let cur = joined_msgs(s, ms, tid);
        assert forall|k: int| 0 <= k < cur.len() implies {
            let row = #[trigger] cur[k];
            row.thread_id == tid && user_idx(s.users@, row.user_id) is Some
        } by {
            if k < rest.len() {
                assert(cur[k] == rest[k]);
            } else {
                assert(cur[k] == ms.last());
            }
        }
    }
}

/// One page of a thread's messages in id order, each joined with its
/// author.
pub fn query_thread_messages(store: &Store, thread_id: u32, page: u32) -> (r: Vec<Message>)
    ensures
        ({
            let g = joined_msgs(*store, store.messages@, thread_id);
            let win = page_window(
                g,
                spec_offset(page, MESSAGES_PER_PAGE),
                MESSAGES_PER_PAGE as int,
            );
            &&& r@.len() == win.len()
            &&& forall|k: int|
                0 <= k < win.len() ==> msg_matches(*store, #[trigger] r@[k], win[k])
        }),
{
    let ghost g = joined_msgs(*store, store.messages@, thread_id);
    let mut idxs: Vec<usize> = Vec::new();
    let mut i: usize = 0;
    proof {
        assert(store.messages@.take(0) =~= Seq::<MessageRow>::empty());
    }
    while i < store.messages.len()
        invariant
            i <= store.messages@.len(),
            idxs@.len() == joined_msgs(*store, store.messages@.take(i as int), thread_id).len(),
            forall|k: int|
                0 <= k < idxs@.len() ==> (#[trigger] idxs@[k]) < store.messages@.len()
                    && store.messages@[idxs@[k] as int] == joined_msgs(
                    *store,
                    store.messages@.take(i as int),
                    thread_id,
                )[k],
        decreases store.messages@.len() - i,
    {
        proof {
            assert(store.messages@.take(i + 1).drop_last() =~= store.messages@.take(i as int));
            assert(store.messages@.take(i + 1).last() == store.messages@[i as int]);
        }
        if store.messages[i].thread_id == thread_id {
            match find_user_row(&store.users, store.messages[i].user_id) {
                Some(_) => {
                    idxs.push(i);
                },
                None => {},
            }
        }
        i = i + 1;
    }
    proof {
        assert(store.messages@.take(store.messages@.len() as int) =~= store.messages@);
        lemma_joined_msgs_props(*store, store.messages@, thread_id);
    }
    let total = idxs.len();
    let off64: u64 = if page > 1 {
        (page as u64 - 1) * 50
    } else {
        0
    };
    let start: usize = if off64 > total as u64 {
        total
    } else {
        off64 as usize
    };
    let end: usize = if off64 + (MESSAGES_PER_PAGE as u64) > total as u64 {
        total
    } else {
        (off64 + (MESSAGES_PER_PAGE as u64)) as usize
    };
    proof {
        assert(page_window(g, spec_offset(page, MESSAGES_PER_PAGE), MESSAGES_PER_PAGE as int)
            =~= g.subrange(start as int, end as int));
    }
    let mut out: Vec<Message> = Vec::new();
    let mut w: usize = start;
    while w < end
        invariant
            start <= w <= end <= idxs@.len(),
            idxs@.len() == g.len(),
            g == joined_msgs(*store, store.messages@, thread_id),
            forall|k: int|
                0 <= k < idxs@.len() ==> (#[trigger] idxs@[k]) < store.messages@.len()
                    && store.messages@[idxs@[k] as int] == g[k],
            forall|k: int|
                0 <= k < g.len() ==> user_idx(s_users(*store), (#[trigger] g[k]).user_id) is Some,
            out@.len() == w - start,
            forall|k: int|
                0 <= k < out@.len() ==> msg_matches(*store, #[trigger] out@[k], g[start + k]),
        decreases end - w,
    {
        let mi = idxs[w];
        let row = &store.messages[mi];
        let user = match find_user_row(&store.users, row.user_id) {
            Some(u) => User { id: row.user_id, name: store.users[u].name.clone() },
            None => vstd::pervasive::unreached(),
        };
        out.push(
            Message {
                id: row.id,
                user,
                thread_id: row.thread_id,
                create_time: row.create_time,
                update_time: row.update_time,
                content: row.content.clone(),
            },
        );
        w = w + 1;
    }
    out
}


/// One page of threads together with the total count matching the filter,
/// as a listing request returns them.
pub fn get_threads(store: &Store, params: &ThreadQuery) -> (r: ThreadQueryResult)
    requires
        store.wf(),
    ensures
        r.count == count_threads(*store, store.threads@, *params),
        ({
            let sorted = sort_desc(listed_threads(*store, store.threads@, *params));
            let win = page_window(
                sorted,
                spec_offset(params.page, THREADS_PER_PAGE),
                THREADS_PER_PAGE as int,
            );
            &&& r.threads@.len() == win.len()
            &&& forall|k: int|
                0 <= k < win.len() ==> thread_matches(*store, #[trigger] r.threads@[k], win[k])
        }),
{
    let threads = query_threads(store, params);
    let count = query_thread_count(store, params);
    ThreadQueryResult { threads, count }
}

/// A thread joined with one page of its messages; `None` exactly when the
/// thread read yields nothing.
pub fn get_messages(store: &Store, params: &MessagesQuery) -> (r: Option<MessagesQueryResult>)
    ensures
        match thread_idx(store.threads@, params.thread_id) {
            Some(i) => {
                if thread_joins_ok(*store, store.threads@[i]) {
                    r matches Some(res) && thread_matches(*store, res.thread, store.threads@[i])
                        && {
                        let g = joined_msgs(*store, store.messages@, params.thread_id);
                        let win = page_window(
                            g,
                            spec_offset(params.page, MESSAGES_PER_PAGE),
                            MESSAGES_PER_PAGE as int,
                        );
                        &&& res.messages@.len() == win.len()
                        &&& forall|k: int|
                            0 <= k < win.len() ==> msg_matches(
                                *store,
                                #[trigger] res.messages@[k],
                                win[k],
                            )
                    }
                } else {
                    r is None
                }
            },
            None => r is None,
        },
{
    let thread = match query_thread(store, params.thread_id) {
        Some(t) => t,
        None => {
            return None;
        },
    };
    let messages = query_thread_messages(store, params.thread_id, params.page);
    Some(MessagesQueryResult { thread, messages })
}

/// The user table of a store (helper for stating invariants).
pub open spec fn s_users(s: Store) -> Seq<UserRow> {
    s.users@
}


} // verus!
