//! The verified halves of full-text search.
//!
//! Matching and relevance ranking are the search engine's work: it receives
//! a sanitized query (`reformat_fts_query`) and hands back ranked hits. The
//! decisions around that call are the library's: which hits actually
//! resolve against the store — an existing, not-deleted thread with a
//! resolvable author for messages; an active, caller-visible article for
//! articles — what each result carries, and the cap of one hundred
//! results. These functions take the engine's hits as an argument, so they
//! are verified for every ranking the engine could return.

use vstd::prelude::*;
use crate::articles::{active_article_idx, find_active_article, vis_ok, vis_ok_exec, viewer_id};
use crate::highlight::{frag_views, parse_search_result_text, spec_parse_fragments};
use crate::store::{
    find_message, find_thread, find_user_row, message_idx, thread_idx, user_idx, Store,
};
use crate::types::{
    ArticleSearchResult, ArticleSearchResults, MessageSearchResult, MessageSearchResults, User,
};

verus! {

/// Result lists are capped at one hundred entries.
pub const SEARCH_RESULT_LIMIT: usize = 100;

/// Whether a message hit resolves: its thread exists and is not deleted,
/// the message exists, and the message's author resolves.
pub open spec fn message_hit_resolves(s: Store, h: (u32, u32)) -> bool {
    match thread_idx(s.threads@, h.0) {
        Some(t) => !s.threads@[t].deleted && match message_idx(s.messages@, h.0, h.1) {
            Some(m) => user_idx(s.users@, s.messages@[m].user_id) is Some,
            None => false,
        },
        None => false,
    }
}

/// The hits that resolve, in the engine's order.
pub open spec fn resolved_message_hits(s: Store, hits: Seq<(u32, u32)>) -> Seq<(u32, u32)>
    decreases hits.len(),
{
    if hits.len() == 0 {
        Seq::empty()
    } else {
        let rest = resolved_message_hits(s, hits.drop_last());
        if message_hit_resolves(s, hits.last()) {
            rest.push(hits.last())
        } else {
            rest
        }
    }
}

/// How a message search result relates to its hit: the message's fields,
/// its author, and its thread's name.
pub open spec fn message_hit_matches(s: Store, r: MessageSearchResult, h: (u32, u32)) -> bool {
    &&& r.id == h.1
    &&& r.thread_id == h.0
    &&& match thread_idx(s.threads@, h.0) {
        Some(t) => r.thread_name@ == s.threads@[t].name@,
        None => false,
    }
    &&& match message_idx(s.messages@, h.0, h.1) {
        Some(m) => {
            let mr = s.messages@[m];
            &&& r.create_time == mr.create_time
            &&& r.content@ == mr.content@
            &&& match user_idx(s.users@, mr.user_id) {
                Some(u) => r.user.id == mr.user_id && r.user.name@ == s.users@[u].name@,
                None => false,
            }
        },
        None => false,
    }
}

/// The first hundred entries of a sequence.
pub open spec fn first_hundred<T>(g: Seq<T>) -> Seq<T> {
    if g.len() <= 100 {
        g
    } else {
        g.take(100)
    }
}

/// Resolves ranked message hits — `(thread id, message id)` pairs the
/// engine matched — against the store: hits of deleted or missing threads
/// are dropped, the rest are joined with their thread name and author, in
/// the engine's order, at most one hundred of them.
pub fn query_messages_by_search_params(store: &Store, hits: &Vec<(u32, u32)>) -> (r:
    MessageSearchResults)
    ensures
        ({
            let g = first_hundred(resolved_message_hits(*store, hits@));
            &&& r.messages@.len() == g.len()
            &&& forall|k: int|
                0 <= k < g.len() ==> message_hit_matches(*store, #[trigger] r.messages@[k], g[k])
        }),
{
    let mut out: Vec<MessageSearchResult> = Vec::new();
    let mut i: usize = 0;
    proof {
        assert(hits@.take(0) =~= Seq::<(u32, u32)>::empty());
    }
    while i < hits.len()
        invariant
            i <= hits@.len(),
            ({
                let g = first_hundred(resolved_message_hits(*store, hits@.take(i as int)));
                &&& out@.len() == g.len()
                &&& out@.len() <= 100
                &&& forall|k: int|
                    0 <= k < g.len() ==> message_hit_matches(*store, #[trigger] out@[k], g[k])
            }),
        decreases hits@.len() - i,
    {
        proof {
            assert(hits@.take(i + 1).drop_last() =~= hits@.take(i as int));
            assert(hits@.take(i + 1).last() == hits@[i as int]);
        }
        let (tid, mid) = hits[i];
        if out.len() < SEARCH_RESULT_LIMIT {
            match find_thread(&store.threads, tid) {
                Some(t) => {
                    if !store.threads[t].deleted {
                        match find_message(&store.messages, tid, mid) {
                            Some(m) => {
                                let mr = &store.messages[m];
                                match find_user_row(&store.users, mr.user_id) {
                                    Some(u) => {
                                        out.push(
                                            MessageSearchResult {
                                                id: mid,
                                                thread_id: tid,
                                                thread_name: store.threads[t].name.clone(),
                                                create_time: mr.create_time,
                                                user: User {
                                                    id: mr.user_id,
                                                    name: store.users[u].name.clone(),
                                                },
                                                content: mr.content.clone(),
                                            },
                                        );
                                    },
                                    None => {},
                                }
                            },
                            None => {},
                        }
                    }
                },
                None => {},
            }
        }
        proof {
            let g0 = resolved_message_hits(*store, hits@.take(i as int));
            let g1 = resolved_message_hits(*store, hits@.take(i + 1));
            if message_hit_resolves(*store, hits@[i as int]) {
                assert(g1 == g0.push(hits@[i as int]));
                if g0.len() >= 100 {
                    assert(first_hundred(g1) =~= first_hundred(g0));
                } else {
                    assert(first_hundred(g1) =~= first_hundred(g0).push(hits@[i as int]));
                }
            } else {
                assert(g1 == g0);
            }
        }
        i = i + 1;
    }
    proof {
        assert(hits@.take(hits@.len() as int) =~= hits@);
    }
    MessageSearchResults { messages: out }
}

/// Whether an article hit resolves: the article has an active version the
/// caller may see.
pub open spec fn article_hit_resolves(s: Store, viewer: Option<u32>, aid: u32) -> bool {
    match active_article_idx(s.articles@, aid) {
        Some(t) => vis_ok(s.articles@[t], viewer),
        None => false,
    }
}

/// The article hits that resolve, in the engine's order.
pub open spec fn resolved_article_hits(
    s: Store,
    viewer: Option<u32>,
    hits: Seq<(u32, String)>,
) -> Seq<(u32, String)>
    decreases hits.len(),
{
    if hits.len() == 0 {
        Seq::empty()
    } else {
        let rest = resolved_article_hits(s, viewer, hits.drop_last());
        if article_hit_resolves(s, viewer, hits.last().0) {
            rest.push(hits.last())
        } else {
            rest
        }
    }
}

/// How an article search result relates to its hit: the active row's
/// metadata and the snippet split into highlight runs.
pub open spec fn article_hit_matches(s: Store, r: ArticleSearchResult, h: (u32, String)) -> bool {
    &&& r.info.id == h.0
    &&& match active_article_idx(s.articles@, h.0) {
        Some(t) => r.info.path@ == s.articles@[t].path@ && r.info.name@ == s.articles@[t].name@,
        None => false,
    }
    &&& frag_views(r.text@) == spec_parse_fragments(h.1@)
}

/// Resolves ranked article hits — `(article id, highlighted snippet)`
/// pairs — against the store: only active articles the caller may see are
/// kept, each snippet is parsed into its highlight runs, in the engine's
/// order, at most one hundred results.
pub fn query_articles_by_search_params(
    store: &Store,
    user: &Option<User>,
    hits: &Vec<(u32, String)>,
) -> (r: ArticleSearchResults)
    ensures
        ({
            let g = first_hundred(resolved_article_hits(*store, viewer_id(*user), hits@));
            &&& r.articles@.len() == g.len()
            &&& forall|k: int|
                0 <= k < g.len() ==> article_hit_matches(*store, #[trigger] r.articles@[k], g[k])
        }),
{
    let mut out: Vec<ArticleSearchResult> = Vec::new();
    let mut i: usize = 0;
    proof {
        assert(hits@.take(0) =~= Seq::<(u32, String)>::empty());
    }
    while i < hits.len()
        invariant
            i <= hits@.len(),
            ({
                let g = first_hundred(
                    resolved_article_hits(*store, viewer_id(*user), hits@.take(i as int)),
                );
                &&& out@.len() == g.len()
                &&& out@.len() <= 100
                &&& forall|k: int|
                    0 <= k < g.len() ==> article_hit_matches(*store, #[trigger] out@[k], g[k])
            }),
        decreases hits@.len() - i,
    {
        proof {
            assert(hits@.take(i + 1).drop_last() =~= hits@.take(i as int));
            assert(hits@.take(i + 1).last() == hits@[i as int]);
        }
        let aid = hits[i].0;
        if out.len() < SEARCH_RESULT_LIMIT {
            match find_active_article(&store.articles, aid) {
                Some(t) => {
                    let row = &store.articles[t];
                    if vis_ok_exec(row.visibility_public, row.user_id, user) {
                        let snippet = hits[i].1.clone();
                        let text = parse_search_result_text(snippet);
                        out.push(
                            ArticleSearchResult {
                                info: crate::types::ArticleInfo {
                                    id: aid,
                                    path: row.path.clone(),
                                    name: row.name.clone(),
                                },
                                text,
                            },
                        );
                    }
                },
                None => {},
            }
        }
        proof {
            let viewer = viewer_id(*user);
            let g0 = resolved_article_hits(*store, viewer, hits@.take(i as int));
            let g1 = resolved_article_hits(*store, viewer, hits@.take(i + 1));
            if article_hit_resolves(*store, viewer, hits@[i as int].0) {
                assert(g1 == g0.push(hits@[i as int]));
                if g0.len() >= 100 {
                    assert(first_hundred(g1) =~= first_hundred(g0));
                } else {
                    assert(first_hundred(g1) =~= first_hundred(g0).push(hits@[i as int]));
                }
            } else {
                assert(g1 == g0);
            }
        }
        i = i + 1;
    }
    proof {
        assert(hits@.take(hits@.len() as int) =~= hits@);
    }
    ArticleSearchResults { articles: out }
}

} // verus!
