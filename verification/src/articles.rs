//! The article versioning engine, comments and favorites.
//!
//! An article is a family of immutable version rows sharing one id; at most
//! one row is active (the current version), every other row is an
//! append-only historical snapshot. Editing deactivates the active row —
//! which keeps its name and content as the snapshot — and appends the next
//! version as the new active row; deletion deactivates without replacement.
//! Comment ids are dense and 1-based per article, derived from the comment
//! count. Favorites are an idempotent relation.

use vstd::prelude::*;
use crate::store::{ArticleRow, CommentRow, FavoriteRow, Store, cnt_comments, find_user_row, s_users, user_idx, MESSAGES_PER_PAGE, page_window, spec_offset, wf_comments};
use crate::types::{
    Article, ArticleInfo, Articles, ArticleVersion, ArticleVisibility, Comment,
    CommentsQueryResult, LogicError, PostComment, UpdateComment, User,
};

verus! {

/// The position of the active row of article `id`.
pub open spec fn active_article_idx(s: Seq<ArticleRow>, id: u32) -> Option<int>
    decreases s.len(),
{
    if s.len() == 0 {
        None
    } else if s[0].id == id && s[0].active {
        Some(0)
    } else {
        match active_article_idx(s.drop_first(), id) {
            Some(i) => Some(i + 1),
            None => None,
        }
    }
}

/// The position of version `ver` of article `id`.
pub open spec fn article_ver_idx(s: Seq<ArticleRow>, id: u32, ver: u32) -> Option<int>
    decreases s.len(),
{
    if s.len() == 0 {
        None
    } else if s[0].id == id && s[0].version == ver {
        Some(0)
    } else {
        match article_ver_idx(s.drop_first(), id, ver) {
            Some(i) => Some(i + 1),
            None => None,
        }
    }
}

/// The position of the favorite pair, if present.
pub open spec fn favorite_idx(s: Seq<FavoriteRow>, uid: u32, aid: u32) -> Option<int>
    decreases s.len(),
{
    if s.len() == 0 {
        None
    } else if s[0].user_id == uid && s[0].article_id == aid {
        Some(0)
    } else {
        match favorite_idx(s.drop_first(), uid, aid) {
            Some(i) => Some(i + 1),
            None => None,
        }
    }
}

pub proof fn lemma_active_article_idx(s: Seq<ArticleRow>, id: u32)
    ensures
        match active_article_idx(s, id) {
            Some(i) => 0 <= i < s.len() && s[i].id == id && s[i].active && forall|k: int|
                0 <= k < i ==> !((#[trigger] s[k]).id == id && s[k].active),
            None => forall|k: int|
                0 <= k < s.len() ==> !((#[trigger] s[k]).id == id && s[k].active),
        },
    decreases s.len(),
{
    if s.len() > 0 && !(s[0].id == id && s[0].active) {
        let d = s.drop_first();
        lemma_active_article_idx(d, id);
        assert(forall|k: int| 0 <= k < d.len() ==> d[k] == #[trigger] s[k + 1]);
        match active_article_idx(d, id) {
            Some(i) => {
                assert(d[i] == s[i + 1]);
                assert forall|k: int| 0 <= k < i + 1 implies !((#[trigger] s[k]).id == id
                    && s[k].active) by {
                    if k > 0 {
                        assert(!((d[k - 1]).id == id && d[k - 1].active));
                    }
                }
            },
            None => {
                assert forall|k: int| 0 <= k < s.len() implies !((#[trigger] s[k]).id == id
                    && s[k].active) by {
                    if k > 0 {
                        assert(!((d[k - 1]).id == id && d[k - 1].active));
                    }
                }
            },
        }
    }
}

pub proof fn lemma_article_ver_idx(s: Seq<ArticleRow>, id: u32, ver: u32)
    ensures
        match article_ver_idx(s, id, ver) {
            Some(i) => 0 <= i < s.len() && s[i].id == id && s[i].version == ver && forall|k: int|
                0 <= k < i ==> !((#[trigger] s[k]).id == id && s[k].version == ver),
            None => forall|k: int|
                0 <= k < s.len() ==> !((#[trigger] s[k]).id == id && s[k].version == ver),
        },
    decreases s.len(),
{
    if s.len() > 0 && !(s[0].id == id && s[0].version == ver) {
        let d = s.drop_first();
        lemma_article_ver_idx(d, id, ver);
        assert(forall|k: int| 0 <= k < d.len() ==> d[k] == #[trigger] s[k + 1]);
        match article_ver_idx(d, id, ver) {
            Some(i) => {
                assert(d[i] == s[i + 1]);
                assert forall|k: int| 0 <= k < i + 1 implies !((#[trigger] s[k]).id == id
                    && s[k].version == ver) by {
                    if k > 0 {
                        assert(!((d[k - 1]).id == id && d[k - 1].version == ver));
                    }
                }
            },
            None => {
                assert forall|k: int| 0 <= k < s.len() implies !((#[trigger] s[k]).id == id
                    && s[k].version == ver) by {
                    if k > 0 {
                        assert(!((d[k - 1]).id == id && d[k - 1].version == ver));
                    }
                }
            },
        }
    }
}

pub proof fn lemma_favorite_idx(s: Seq<FavoriteRow>, uid: u32, aid: u32)
    ensures
        match favorite_idx(s, uid, aid) {
            Some(i) => 0 <= i < s.len() && s[i].user_id == uid && s[i].article_id == aid && forall|
                k: int,
            | 0 <= k < i ==> !((#[trigger] s[k]).user_id == uid && s[k].article_id == aid),
            None => forall|k: int|
                0 <= k < s.len() ==> !((#[trigger] s[k]).user_id == uid && s[k].article_id == aid),
        },
    decreases s.len(),
{
    if s.len() > 0 && !(s[0].user_id == uid && s[0].article_id == aid) {
        let d = s.drop_first();
        lemma_favorite_idx(d, uid, aid);
        assert(forall|k: int| 0 <= k < d.len() ==> d[k] == #[trigger] s[k + 1]);
        match favorite_idx(d, uid, aid) {
            Some(i) => {
                assert(d[i] == s[i + 1]);
                assert forall|k: int| 0 <= k < i + 1 implies !((#[trigger] s[k]).user_id == uid
                    && s[k].article_id == aid) by {
                    if k > 0 {
                        assert(!((d[k - 1]).user_id == uid && d[k - 1].article_id == aid));
                    }
                }
            },
            None => {
                assert forall|k: int| 0 <= k < s.len() implies !((#[trigger] s[k]).user_id == uid
                    && s[k].article_id == aid) by {
                    if k > 0 {
                        assert(!((d[k - 1]).user_id == uid && d[k - 1].article_id == aid));
                    }
                }
            },
        }
    }
}

pub(crate) fn find_active_article(v: &Vec<ArticleRow>, id: u32) -> (r: Option<usize>)
    ensures
        match r {
            Some(i) => i < v@.len() && active_article_idx(v@, id) == Some(i as int),
            None => active_article_idx(v@, id) is None,
        },
{
    let mut i: usize = 0;
    while i < v.len()
        invariant
            i <= v@.len(),
            forall|k: int| 0 <= k < i ==> !((#[trigger] v@[k]).id == id && v@[k].active),
        decreases v@.len() - i,
    {
        if v[i].id == id && v[i].active {
            proof {
                lemma_active_article_idx(v@, id);
            }
            return Some(i);
        }
        i = i + 1;
    }
    proof {
        lemma_active_article_idx(v@, id);
    }
    None
}

pub(crate) fn find_article_ver(v: &Vec<ArticleRow>, id: u32, ver: u32) -> (r: Option<usize>)
    ensures
        match r {
            Some(i) => i < v@.len() && article_ver_idx(v@, id, ver) == Some(i as int),
            None => article_ver_idx(v@, id, ver) is None,
        },
{
    let mut i: usize = 0;
    while i < v.len()
        invariant
            i <= v@.len(),
            forall|k: int| 0 <= k < i ==> !((#[trigger] v@[k]).id == id && v@[k].version == ver),
        decreases v@.len() - i,
    {
        if v[i].id == id && v[i].version == ver {
            proof {
                lemma_article_ver_idx(v@, id, ver);
            }
            return Some(i);
        }
        i = i + 1;
    }
    proof {
        lemma_article_ver_idx(v@, id, ver);
    }
    None
}

pub(crate) fn find_favorite(v: &Vec<FavoriteRow>, uid: u32, aid: u32) -> (r: Option<usize>)
    ensures
        match r {
            Some(i) => i < v@.len() && favorite_idx(v@, uid, aid) == Some(i as int),
            None => favorite_idx(v@, uid, aid) is None,
        },
{
    let mut i: usize = 0;
    while i < v.len()
        invariant
            i <= v@.len(),
            forall|k: int|
                0 <= k < i ==> !((#[trigger] v@[k]).user_id == uid && v@[k].article_id == aid),
        decreases v@.len() - i,
    {
        if v[i].user_id == uid && v[i].article_id == aid {
            proof {
                lemma_favorite_idx(v@, uid, aid);
            }
            return Some(i);
        }
        i = i + 1;
    }
    proof {
        lemma_favorite_idx(v@, uid, aid);
    }
    None
}

// ---------------------------------------------------------------------------
// Visibility.
// ---------------------------------------------------------------------------

/// The id a caller reads articles as, if any.
pub open spec fn viewer_id(user: Option<User>) -> Option<u32> {
    match user {
        Some(u) => Some(u.id),
        None => None,
    }
}

/// Whether a caller may see an article row: public rows always, private
/// rows only for their owner.
pub open spec fn vis_ok(row: ArticleRow, viewer: Option<u32>) -> bool {
    row.visibility_public || viewer == Some(row.user_id)
}

/// Whether a visibility value is `Public`.
pub open spec fn vis_is_public(v: ArticleVisibility) -> bool {
    v is Public
}

pub(crate) fn vis_ok_exec(row_public: bool, row_user: u32, user: &Option<User>) -> (r: bool)
    ensures
        r == (row_public || viewer_id(*user) == Some(row_user)),
{
    if row_public {
        true
    } else {
        match user {
            Some(u) => u.id == row_user,
            None => false,
        }
    }
}

// ---------------------------------------------------------------------------
// Creation.
// ---------------------------------------------------------------------------

/// The greatest article id in use.
pub open spec fn max_article_id(s: Seq<ArticleRow>) -> int
    decreases s.len(),
{
    if s.len() == 0 {
        0
    } else {
        let rest = max_article_id(s.drop_last());
        if s.last().id > rest {
            s.last().id as int
        } else {
            rest
        }
    }
}

proof fn lemma_max_article_id(s: Seq<ArticleRow>)
    ensures
        forall|i: int| 0 <= i < s.len() ==> (#[trigger] s[i]).id <= max_article_id(s),
        max_article_id(s) >= 0,
    decreases s.len(),
{
    if s.len() > 0 {
        lemma_max_article_id(s.drop_last());
        assert(forall|i: int| 0 <= i < s.len() - 1 ==> s.drop_last()[i] == #[trigger] s[i]);
    }
}

fn max_article_id_exec(v: &Vec<ArticleRow>) -> (r: u32)
    ensures
        r == max_article_id(v@),
{
    let mut m: u32 = 0;
    let mut i: usize = 0;
    proof {
        assert(v@.take(0) =~= Seq::<ArticleRow>::empty());
    }
    while i < v.len()
        invariant
            i <= v@.len(),
            m == max_article_id(v@.take(i as int)),
        decreases v@.len() - i,
    {
        proof {
            assert(v@.take(i + 1).drop_last() =~= v@.take(i as int));
            assert(v@.take(i + 1).last() == v@[i as int]);
        }
        if v[i].id > m {
            m = v[i].id;
        }
        i = i + 1;
    }
    proof {
        assert(v@.take(v@.len() as int) =~= v@);
    }
    m
}

/// Creates an article: id `max + 1` (1 when none exist), version 1, active.
/// Fails with `CreateError` only when the id space is exhausted.
pub fn create_article(
    store: &mut Store,
    path: &str,
    name: &str,
    content: &str,
    visibility: ArticleVisibility,
    user: &User,
    now: u64,
) -> (r: Result<(), LogicError>)
    requires
        old(store).wf(),
    ensures
        final(store).wf(),
        match r {
            Ok(()) => {
                &&& final(store).articles@.len() == old(store).articles@.len() + 1
                &&& final(store).articles@.drop_last() == old(store).articles@
                &&& {
                    let a = final(store).articles@.last();
                    &&& a.id == max_article_id(old(store).articles@) + 1
                    &&& a.version == 1
                    &&& a.path@ == path@
                    &&& a.name@ == name@
                    &&& a.content@ == content@
                    &&& a.user_id == user.id
                    &&& a.create_time == now
                    &&& a.active
                    &&& a.visibility_public == vis_is_public(visibility)
                }
                &&& same_but_articles(*old(store), *final(store))
            },
            Err(e) => {
                &&& e is CreateError
                &&& max_article_id(old(store).articles@) + 1 > u32::MAX
                &&& *final(store) == *old(store)
            },
        },
{
    let maxid = max_article_id_exec(&store.articles);
    if maxid == u32::MAX {
        return Err(LogicError::CreateError);
    }
    let id = maxid + 1;
    proof {
        lemma_max_article_id(store.articles@);
    }
    let mut path_s = String::new();
    path_s.append(path);
    let mut name_s = String::new();
    name_s.append(name);
    let mut content_s = String::new();
    content_s.append(content);
    let row = ArticleRow {
        id,
        version: 1,
        path: path_s,
        name: name_s,
        content: content_s,
        user_id: user.id,
        create_time: now,
        active: true,
        visibility_public: visibility.is_public(),
    };
    store.articles.push(row);
    proof {
        assert(store.articles@.drop_last() =~= old(store).articles@);
        assert(forall|i: int|
            0 <= i < old(store).articles@.len() ==> old(store).articles@[i]
                == #[trigger] store.articles@[i]);
    }
    Ok(())
}

/// Every table of `b` except the articles equals `a`'s.
pub open spec fn same_but_articles(a: Store, b: Store) -> bool {
    &&& a.sections@ == b.sections@
    &&& a.subsections@ == b.subsections@
    &&& a.threads@ == b.threads@
    &&& a.messages@ == b.messages@
    &&& a.comments@ == b.comments@
    &&& a.favorites@ == b.favorites@
    &&& a.users@ == b.users@
    &&& a.files@ == b.files@
}

/// Every table of `b` except the comments equals `a`'s.
pub open spec fn same_but_comments(a: Store, b: Store) -> bool {
    &&& a.sections@ == b.sections@
    &&& a.subsections@ == b.subsections@
    &&& a.threads@ == b.threads@
    &&& a.messages@ == b.messages@
    &&& a.articles@ == b.articles@
    &&& a.favorites@ == b.favorites@
    &&& a.users@ == b.users@
    &&& a.files@ == b.files@
}

/// Every table of `b` except the favorites equals `a`'s.
pub open spec fn same_but_favorites(a: Store, b: Store) -> bool {
    &&& a.sections@ == b.sections@
    &&& a.subsections@ == b.subsections@
    &&& a.threads@ == b.threads@
    &&& a.messages@ == b.messages@
    &&& a.articles@ == b.articles@
    &&& a.comments@ == b.comments@
    &&& a.users@ == b.users@
    &&& a.files@ == b.files@
}

// ---------------------------------------------------------------------------
// Listings.
// ---------------------------------------------------------------------------

/// The (id, path, name) projections of the active rows a caller may see,
/// in table order.
pub open spec fn visible_infos(s: Seq<ArticleRow>, viewer: Option<u32>) -> Seq<
    (u32, Seq<char>, Seq<char>),
>
    decreases s.len(),
{
    if s.len() == 0 {
        Seq::empty()
    } else {
        let rest = visible_infos(s.drop_last(), viewer);
        let a = s.last();
        if a.active && vis_ok(a, viewer) {
            rest.push((a.id, a.path@, a.name@))
        } else {
            rest
        }
    }
}

/// The projections of an article info listing.
pub open spec fn info_views(v: Seq<ArticleInfo>) -> Seq<(u32, Seq<char>, Seq<char>)> {
    v.map_values(|x: ArticleInfo| (x.id, x.path@, x.name@))
}

/// The active, visibility-filtered article listing.
pub fn query_articles(store: &Store, user: &Option<User>) -> (r: Articles)
    ensures
        info_views(r.articles@) == visible_infos(store.articles@, viewer_id(*user)),
{
    let mut out: Vec<ArticleInfo> = Vec::new();
    let mut i: usize = 0;
    proof {
        assert(store.articles@.take(0) =~= Seq::<ArticleRow>::empty());
        assert(info_views(out@) =~= Seq::<(u32, Seq<char>, Seq<char>)>::empty());
    }
    while i < store.articles.len()
        invariant
            i <= store.articles@.len(),
            info_views(out@) == visible_infos(store.articles@.take(i as int), viewer_id(*user)),
        decreases store.articles@.len() - i,
    {
        proof {
            assert(store.articles@.take(i + 1).drop_last() =~= store.articles@.take(i as int));
            assert(store.articles@.take(i + 1).last() == store.articles@[i as int]);
        }
        let a = &store.articles[i];
        let ghost pre = info_views(out@);
        if a.active && vis_ok_exec(a.visibility_public, a.user_id, user) {
            out.push(ArticleInfo { id: a.id, path: a.path.clone(), name: a.name.clone() });
            proof {
                assert(info_views(out@) =~= pre.push(
                    (out@.last().id, out@.last().path@, out@.last().name@),
                ));
            }
        }
        i = i + 1;
    }
    proof {
        assert(store.articles@.take(store.articles@.len() as int) =~= store.articles@);
    }
    Articles { articles: out }
}

/// The active, visible articles the caller has marked as favorites, in
/// table order.
pub open spec fn favorite_infos(s: Seq<ArticleRow>, favs: Seq<FavoriteRow>, uid: u32) -> Seq<
    (u32, Seq<char>, Seq<char>),
>
    decreases s.len(),
{
    if s.len() == 0 {
        Seq::empty()
    } else {
        let rest = favorite_infos(s.drop_last(), favs, uid);
        let a = s.last();
        if a.active && vis_ok(a, Some(uid)) && favorite_idx(favs, uid, a.id) is Some {
            rest.push((a.id, a.path@, a.name@))
        } else {
            rest
        }
    }
}

/// The caller's favorite-article listing: active, visible, and marked.
pub fn query_favorite_articles(store: &Store, user: &User) -> (r: Articles)
    ensures
        info_views(r.articles@) == favorite_infos(store.articles@, store.favorites@, user.id),
{
    let mut out: Vec<ArticleInfo> = Vec::new();
    let mut i: usize = 0;
    proof {
        assert(store.articles@.take(0) =~= Seq::<ArticleRow>::empty());
        assert(info_views(out@) =~= Seq::<(u32, Seq<char>, Seq<char>)>::empty());
    }
    while i < store.articles.len()
        invariant
            i <= store.articles@.len(),
            info_views(out@) == favorite_infos(
                store.articles@.take(i as int),
                store.favorites@,
                user.id,
            ),
        decreases store.articles@.len() - i,
    {
        proof {
            assert(store.articles@.take(i + 1).drop_last() =~= store.articles@.take(i as int));
            assert(store.articles@.take(i + 1).last() == store.articles@[i as int]);
        }
        let a = &store.articles[i];
        let ghost pre = info_views(out@);
        let keep = if a.active && (a.visibility_public || a.user_id == user.id) {
            match find_favorite(&store.favorites, user.id, a.id) {
                Some(_) => true,
                None => false,
            }
        } else {
            false
        };
        if keep {
            out.push(ArticleInfo { id: a.id, path: a.path.clone(), name: a.name.clone() });
            proof {
                assert(info_views(out@) =~= pre.push(
                    (out@.last().id, out@.last().path@, out@.last().name@),
                ));
            }
        }
        i = i + 1;
    }
    proof {
        assert(store.articles@.take(store.articles@.len() as int) =~= store.articles@);
    }
    Articles { articles: out }
}

// ---------------------------------------------------------------------------
// Favorites.
// ---------------------------------------------------------------------------

/// Marks an article as a favorite; idempotent and error-free.
pub fn add_favorite_article(store: &mut Store, user: &User, article_id: u32)
    requires
        old(store).wf(),
    ensures
        final(store).wf(),
        same_but_favorites(*old(store), *final(store)),
        match favorite_idx(old(store).favorites@, user.id, article_id) {
            Some(_) => *final(store) == *old(store),
            None => {
                &&& final(store).favorites@.len() == old(store).favorites@.len() + 1
                &&& final(store).favorites@.drop_last() == old(store).favorites@
                &&& final(store).favorites@.last() == (FavoriteRow {
                    user_id: user.id,
                    article_id,
                })
            },
        },
{
    match find_favorite(&store.favorites, user.id, article_id) {
        Some(_) => {},
        None => {
            proof {
                lemma_favorite_idx(store.favorites@, user.id, article_id);
            }
            store.favorites.push(FavoriteRow { user_id: user.id, article_id });
            proof {
                assert(store.favorites@.drop_last() =~= old(store).favorites@);
                assert(forall|i: int|
                    0 <= i < old(store).favorites@.len() ==> old(store).favorites@[i]
                        == #[trigger] store.favorites@[i]);
            }
        },
    }
}

/// Unmarks a favorite; idempotent and error-free.
pub fn remove_favorite_article(store: &mut Store, user: &User, article_id: u32)
    requires
        old(store).wf(),
    ensures
        final(store).wf(),
        same_but_favorites(*old(store), *final(store)),
        match favorite_idx(old(store).favorites@, user.id, article_id) {
            Some(i) => final(store).favorites@ == old(store).favorites@.remove(i),
            None => *final(store) == *old(store),
        },
{
    match find_favorite(&store.favorites, user.id, article_id) {
        Some(i) => {
            store.favorites.remove(i);
            proof {
                let ofs = old(store).favorites@;
                let fs = store.favorites@;
                assert forall|a: int, b: int|
                    #![trigger fs[a], fs[b]]
                    0 <= a < b < fs.len() implies !(fs[a].user_id == fs[b].user_id
                    && fs[a].article_id == fs[b].article_id) by {
                    let a0 = if a < i { a } else { a + 1 };
                    let b0 = if b < i { b } else { b + 1 };
                    assert(fs[a] == ofs[a0] && fs[b] == ofs[b0]);
                }
            }
        },
        None => {},
    }
}


// ---------------------------------------------------------------------------
// Reading one article.
// ---------------------------------------------------------------------------

/// The version-history rows of article `id` a caller may see, in table
/// order (version ascending), each with a resolvable author.
pub open spec fn visible_versions(s: Store, arts: Seq<ArticleRow>, id: u32, viewer: Option<u32>)
    -> Seq<ArticleRow>
    decreases arts.len(),
{
    if arts.len() == 0 {
        Seq::empty()
    } else {
        let rest = visible_versions(s, arts.drop_last(), id, viewer);
        let a = arts.last();
        if a.id == id && vis_ok(a, viewer) && user_idx(s.users@, a.user_id) is Some {
            rest.push(a)
        } else {
            rest
        }
    }
}

/// How a history entry relates to its row, author joined.
pub open spec fn aver_matches(s: Store, av: ArticleVersion, row: ArticleRow) -> bool {
    &&& av.version == row.version
    &&& av.create_time == row.create_time
    &&& av.active == row.active
    &&& match user_idx(s.users@, row.user_id) {
        Some(u) => av.user.id == row.user_id && av.user.name@ == s.users@[u].name@,
        None => false,
    }
}

/// The row an article read serves: the active row, or — for an explicit
/// version — that version's row only once it has been deactivated.
pub open spec fn article_target_idx(arts: Seq<ArticleRow>, id: u32, ver: Option<u32>) -> Option<
    int,
> {
    match ver {
        Some(v) => match article_ver_idx(arts, id, v) {
            Some(i) => if arts[i].active {
                None
            } else {
                Some(i)
            },
            None => None,
        },
        None => active_article_idx(arts, id),
    }
}

/// When an article read succeeds: some history row is visible to the
/// caller, the target row exists, the caller may see that very row, and
/// its author resolves. A private article — or a private version — is
/// served only to its owner.
pub open spec fn query_article_ok(s: Store, id: u32, ver: Option<u32>, viewer: Option<u32>)
    -> bool {
    &&& visible_versions(s, s.articles@, id, viewer).len() > 0
    &&& match article_target_idx(s.articles@, id, ver) {
        Some(t) => vis_ok(s.articles@[t], viewer) && user_idx(s.users@, s.articles@[t].user_id)
            is Some,
        None => false,
    }
}

/// How a returned `Article` relates to its row: fields copied, author
/// joined, the live comment count attached, and the shared content record
/// referenced only while active.
pub open spec fn article_matches(s: Store, a: Article, row: ArticleRow) -> bool {
    &&& a.info.id == row.id
    &&& a.info.path@ == row.path@
    &&& a.info.name@ == row.name@
    &&& a.content@ == row.content@
    &&& a.create_time == row.create_time
    &&& a.version == row.version
    &&& a.active == row.active
    &&& a.comments_count == cnt_comments(s.comments@, row.id)
    &&& a.content_id == (if row.active {
        Some(row.id as u64)
    } else {
        None::<u64>
    })
    &&& (a.visibility is Public) == row.visibility_public
    &&& match user_idx(s.users@, row.user_id) {
        Some(u) => a.user.id == row.user_id && a.user.name@ == s.users@[u].name@,
        None => false,
    }
}

/// The counts of a well-formed comment table fit the id space, since each
/// group's last id equals its count.
pub proof fn lemma_cnt_comments_bound(cs: Seq<CommentRow>, aid: u32)
    requires
        wf_comments(cs),
    ensures
        cnt_comments(cs, aid) <= u32::MAX,
    decreases cs.len(),
{
    if cs.len() > 0 {
        let pre = cs.drop_last();
        assert(forall|i: int| 0 <= i < pre.len() ==> pre[i] == #[trigger] cs[i]);
        if cs.last().article_id == aid {
            assert(cs.take(cs.len() as int) =~= cs);
            assert(cs[cs.len() - 1].id == cnt_comments(cs, aid));
        } else {
            assert(wf_comments(pre)) by {
                assert forall|i: int| 0 <= i < pre.len() implies #[trigger] pre[i].id
                    == cnt_comments(pre.take(i + 1), pre[i].article_id) by {
                    assert(pre.take(i + 1) =~= cs.take(i + 1));
                }
            }
            lemma_cnt_comments_bound(pre, aid);
        }
    }
}

fn count_comments_exec(store: &Store, aid: u32) -> (r: u32)
    requires
        store.wf(),
    ensures
        r == cnt_comments(store.comments@, aid),
{
    let mut count: usize = 0;
    let mut i: usize = 0;
    proof {
        assert(store.comments@.take(0) =~= Seq::<CommentRow>::empty());
    }
    while i < store.comments.len()
        invariant
            i <= store.comments@.len(),
            count <= i,
            count == cnt_comments(store.comments@.take(i as int), aid),
        decreases store.comments@.len() - i,
    {
        proof {
            assert(store.comments@.take(i + 1).drop_last() =~= store.comments@.take(i as int));
            assert(store.comments@.take(i + 1).last() == store.comments@[i as int]);
        }
        if store.comments[i].article_id == aid {
            count = count + 1;
        }
        i = i + 1;
    }
    proof {
        assert(store.comments@.take(store.comments@.len() as int) =~= store.comments@);
        lemma_cnt_comments_bound(store.comments@, aid);
    }
    count as u32
}

proof fn lemma_visible_versions_props(s: Store, arts: Seq<ArticleRow>, id: u32, viewer: Option<u32>)
    ensures
        forall|k: int|
            0 <= k < visible_versions(s, arts, id, viewer).len() ==> {
                let row = #[trigger] visible_versions(s, arts, id, viewer)[k];
                row.id == id && vis_ok(row, viewer) && user_idx(s.users@, row.user_id) is Some
            },
    decreases arts.len(),
{
    if arts.len() > 0 {
        lemma_visible_versions_props(s, arts.drop_last(), id, viewer);
        let rest = visible_versions(s, arts.drop_last(), id, viewer);
        let cur = visible_versions(s, arts, id, viewer);
        assert forall|k: int| 0 <= k < cur.len() implies {
            let row = #[trigger] cur[k];
            row.id == id && vis_ok(row, viewer) && user_idx(s.users@, row.user_id) is Some
        } by {
            if k < rest.len() {
                assert(cur[k] == rest[k]);
            } else {
                assert(cur[k] == arts.last());
            }
        }
    }
}


/// Inserts `x` into a newest-first history sequence, after every row at
/// least as recent: a stable descending insertion on creation time.
pub open spec fn insert_ctime_desc(sorted: Seq<ArticleRow>, x: ArticleRow) -> Seq<ArticleRow>
    decreases sorted.len(),
{
    if sorted.len() == 0 {
        seq![x]
    } else if sorted[0].create_time >= x.create_time {
        seq![sorted[0]] + insert_ctime_desc(sorted.drop_first(), x)
    } else {
        seq![x] + sorted
    }
}

/// Stable insertion sort of history rows, newest creation time first.
pub open spec fn sort_ctime_desc(s: Seq<ArticleRow>) -> Seq<ArticleRow>
    decreases s.len(),
{
    if s.len() == 0 {
        s
    } else {
        insert_ctime_desc(sort_ctime_desc(s.drop_last()), s.last())
    }
}

proof fn lemma_insert_ctime_elems(sorted: Seq<ArticleRow>, x: ArticleRow)
    ensures
        insert_ctime_desc(sorted, x).len() == sorted.len() + 1,
        forall|k: int|
            0 <= k < insert_ctime_desc(sorted, x).len() ==> (#[trigger] insert_ctime_desc(
                sorted,
                x,
            )[k] == x || exists|j: int|
                0 <= j < sorted.len() && insert_ctime_desc(sorted, x)[k] == #[trigger] sorted[j]),
    decreases sorted.len(),
{
    if sorted.len() > 0 && sorted[0].create_time >= x.create_time {
        lemma_insert_ctime_elems(sorted.drop_first(), x);
        let r = insert_ctime_desc(sorted, x);
        let d = sorted.drop_first();
        assert forall|k: int| 0 <= k < r.len() implies (#[trigger] r[k] == x || exists|j: int|
            0 <= j < sorted.len() && r[k] == #[trigger] sorted[j]) by {
            if k == 0 {
                assert(r[0] == sorted[0]);
            } else {
                assert(r[k] == insert_ctime_desc(d, x)[k - 1]);
                if insert_ctime_desc(d, x)[k - 1] == x {
                } else {
                    let j = choose|j: int|
                        0 <= j < d.len() && insert_ctime_desc(d, x)[k - 1] == #[trigger] d[j];
                    assert(r[k] == sorted[j + 1]);
                }
            }
        }
    }
}

/// Every element of the sorted history is one of the unsorted rows.
proof fn lemma_sort_ctime_elems(s: Seq<ArticleRow>)
    ensures
        sort_ctime_desc(s).len() == s.len(),
        forall|k: int|
            0 <= k < sort_ctime_desc(s).len() ==> exists|j: int|
                0 <= j < s.len() && #[trigger] sort_ctime_desc(s)[k] == s[j],
    decreases s.len(),
{
    if s.len() > 0 {
        let pre = s.drop_last();
        lemma_sort_ctime_elems(pre);
        lemma_insert_ctime_elems(sort_ctime_desc(pre), s.last());
        let r = sort_ctime_desc(s);
        assert forall|k: int| 0 <= k < r.len() implies exists|j: int|
            0 <= j < s.len() && #[trigger] r[k] == s[j] by {
            if r[k] == s.last() {
                assert(r[k] == s[s.len() - 1]);
            } else {
                let j0 = choose|j0: int|
                    0 <= j0 < sort_ctime_desc(pre).len() && r[k] == #[trigger] sort_ctime_desc(
                        pre,
                    )[j0];
                let j1 = choose|j1: int|
                    0 <= j1 < pre.len() && sort_ctime_desc(pre)[j0] == #[trigger] pre[j1];
                assert(r[k] == s[j1]);
            }
        }
    }
}

proof fn lemma_insert_ctime_at(sorted: Seq<ArticleRow>, x: ArticleRow, p: int)
    requires
        0 <= p <= sorted.len(),
        forall|k: int| 0 <= k < p ==> (#[trigger] sorted[k]).create_time >= x.create_time,
        p < sorted.len() ==> sorted[p].create_time < x.create_time,
    ensures
        insert_ctime_desc(sorted, x) == sorted.take(p) + seq![x] + sorted.skip(p),
    decreases p,
{
    if p == 0 {
        if sorted.len() == 0 {
            assert(insert_ctime_desc(sorted, x) =~= sorted.take(0) + seq![x] + sorted.skip(0));
        } else {
            assert(sorted.take(0) + seq![x] + sorted.skip(0) =~= seq![x] + sorted);
        }
    } else {
        let d = sorted.drop_first();
        assert(forall|k: int| 0 <= k < d.len() ==> d[k] == #[trigger] sorted[k + 1]);
        lemma_insert_ctime_at(d, x, p - 1);
        assert(insert_ctime_desc(sorted, x) == seq![sorted[0]] + insert_ctime_desc(d, x));
        assert(seq![sorted[0]] + (d.take(p - 1) + seq![x] + d.skip(p - 1)) =~= sorted.take(p)
            + seq![x] + sorted.skip(p));
    }
}

proof fn lemma_insert_ctime_sorted(sorted: Seq<ArticleRow>, x: ArticleRow)
    requires
        forall|a: int, b: int|
            #![trigger sorted[a], sorted[b]]
            0 <= a < b < sorted.len() ==> sorted[a].create_time >= sorted[b].create_time,
    ensures
        ({
            let r = insert_ctime_desc(sorted, x);
            forall|a: int, b: int|
                #![trigger r[a], r[b]]
                0 <= a < b < r.len() ==> r[a].create_time >= r[b].create_time
        }),
    decreases sorted.len(),
{
    let r = insert_ctime_desc(sorted, x);
    if sorted.len() == 0 {
    } else if sorted[0].create_time >= x.create_time {
        let d = sorted.drop_first();
        assert(forall|k: int| 0 <= k < d.len() ==> d[k] == #[trigger] sorted[k + 1]);
        lemma_insert_ctime_sorted(d, x);
        lemma_insert_ctime_elems(d, x);
        let rd = insert_ctime_desc(d, x);
        assert forall|a: int, b: int|
            #![trigger r[a], r[b]]
            0 <= a < b < r.len() implies r[a].create_time >= r[b].create_time by {
            if a == 0 {
                assert(r[0] == sorted[0]);
                assert(r[b] == rd[b - 1]);
                if rd[b - 1] == x {
                } else {
                    let j = choose|j: int| 0 <= j < d.len() && rd[b - 1] == #[trigger] d[j];
                    assert(sorted[0].create_time >= sorted[j + 1].create_time);
                }
            } else {
                assert(r[a] == rd[a - 1] && r[b] == rd[b - 1]);
            }
        }
    }
}

/// The version history really is newest first: the sort yields
/// non-increasing creation times.
pub proof fn lemma_sort_ctime_desc_sorted(s: Seq<ArticleRow>)
    ensures
        ({
            let r = sort_ctime_desc(s);
            forall|a: int, b: int|
                #![trigger r[a], r[b]]
                0 <= a < b < r.len() ==> r[a].create_time >= r[b].create_time
        }),
    decreases s.len(),
{
    if s.len() > 0 {
        lemma_sort_ctime_desc_sorted(s.drop_last());
        lemma_insert_ctime_sorted(sort_ctime_desc(s.drop_last()), s.last());
    }
}

/// One article read: the active version, or a deactivated historical one,
/// with the full visible version history (newest creation time first)
/// and the live comment count.
/// `ArticleNotFound` exactly when no history row is visible to the caller,
/// the served row itself is not visible to them, or the row (or its
/// author) is missing.
pub fn query_article(store: &Store, id: u32, version: Option<u32>, user: &Option<User>) -> (r:
    Result<Article, LogicError>)
    requires
        store.wf(),
    ensures
        match r {
            Ok(a) => {
                &&& query_article_ok(*store, id, version, viewer_id(*user))
                &&& article_matches(
                    *store,
                    a,
                    store.articles@[article_target_idx(store.articles@, id, version)->Some_0],
                )
                &&& {
                    let ordered = sort_ctime_desc(
                        visible_versions(*store, store.articles@, id, viewer_id(*user)),
                    );
                    &&& a.versions@.len() == ordered.len()
                    &&& forall|k: int|
                        0 <= k < ordered.len() ==> aver_matches(
                            *store,
                            #[trigger] a.versions@[k],
                            ordered[k],
                        )
                }
            },
            Err(e) => {
                &&& e is ArticleNotFound
                &&& !query_article_ok(*store, id, version, viewer_id(*user))
            },
        },
{
    let ghost hist = visible_versions(*store, store.articles@, id, viewer_id(*user));
    // Collect the visible history rows, newest version last.
    let mut hidx: Vec<usize> = Vec::new();
    let mut i: usize = 0;
    proof {
        assert(store.articles@.take(0) =~= Seq::<ArticleRow>::empty());
    }
    while i < store.articles.len()
        invariant
            store.wf(),
            i <= store.articles@.len(),
            hidx@.len() == visible_versions(
                *store,
                store.articles@.take(i as int),
                id,
                viewer_id(*user),
            ).len(),
            forall|k: int|
                0 <= k < hidx@.len() ==> (#[trigger] hidx@[k]) < store.articles@.len()
                    && store.articles@[hidx@[k] as int] == visible_versions(
                    *store,
                    store.articles@.take(i as int),
                    id,
                    viewer_id(*user),
                )[k],
        decreases store.articles@.len() - i,
    {
        proof {
            assert(store.articles@.take(i + 1).drop_last() =~= store.articles@.take(i as int));
            assert(store.articles@.take(i + 1).last() == store.articles@[i as int]);
        }
        let a = &store.articles[i];
        if a.id == id && vis_ok_exec(a.visibility_public, a.user_id, user) {
            match find_user_row(&store.users, a.user_id) {
                Some(_) => {
                    hidx.push(i);
                },
                None => {},
            }
        }
        i = i + 1;
    }
    proof {
        assert(store.articles@.take(store.articles@.len() as int) =~= store.articles@);
        lemma_visible_versions_props(*store, store.articles@, id, viewer_id(*user));
    }
    if hidx.len() == 0 {
        return Err(LogicError::ArticleNotFound);
    }

    // Resolve the target row.
    let ti: usize = match version {
        Some(v) => {
            match find_article_ver(&store.articles, id, v) {
                Some(t) => {
                    if store.articles[t].active {
                        return Err(LogicError::ArticleNotFound);
                    }
                    t
                },
                None => {
                    return Err(LogicError::ArticleNotFound);
                },
            }
        },
        None => {
            match find_active_article(&store.articles, id) {
                Some(t) => t,
                None => {
                    return Err(LogicError::ArticleNotFound);
                },
            }
        },
    };
    proof {
        match version {
            Some(v) => lemma_article_ver_idx(store.articles@, id, v),
            None => lemma_active_article_idx(store.articles@, id),
        }
        assert(store.articles@[ti as int].id == id);
    }
    // The caller must be allowed to see the row actually served; an older
    // visible version never opens a private one.
    if !vis_ok_exec(store.articles[ti].visibility_public, store.articles[ti].user_id, user) {
        return Err(LogicError::ArticleNotFound);
    }
    let row_user = store.articles[ti].user_id;
    let author = match find_user_row(&store.users, row_user) {
        Some(u) => User { id: row_user, name: store.users[u].name.clone() },
        None => {
            return Err(LogicError::ArticleNotFound);
        },
    };

    // Order the history by creation time, newest first (stable insertion).
    let mut sortedp: Vec<(u64, usize)> = Vec::new();
    let mut n: usize = 0;
    proof {
        assert(hist.take(0) =~= Seq::<ArticleRow>::empty());
    }
    while n < hidx.len()
        invariant
            store.wf(),
            n <= hidx@.len(),
            hidx@.len() == hist.len(),
            hist == visible_versions(*store, store.articles@, id, viewer_id(*user)),
            forall|k: int|
                0 <= k < hidx@.len() ==> (#[trigger] hidx@[k]) < store.articles@.len()
                    && store.articles@[hidx@[k] as int] == hist[k],
            sortedp@.len() == n,
            forall|k: int|
                0 <= k < sortedp@.len() ==> (#[trigger] sortedp@[k]).1 < store.articles@.len()
                    && store.articles@[sortedp@[k].1 as int] == sort_ctime_desc(
                    hist.take(n as int),
                )[k] && sortedp@[k].0 == store.articles@[sortedp@[k].1 as int].create_time,
        decreases hidx@.len() - n,
    {
        let hi = hidx[n];
        let key = store.articles[hi].create_time;
        let mut pp: usize = 0;
        while pp < sortedp.len() && sortedp[pp].0 >= key
            invariant
                pp <= sortedp@.len(),
                forall|k: int| 0 <= k < pp ==> (#[trigger] sortedp@[k]).0 >= key,
            decreases sortedp@.len() - pp,
        {
            pp = pp + 1;
        }
        let ghost spre = sort_ctime_desc(hist.take(n as int));
        proof {
            lemma_sort_ctime_elems(hist.take(n as int));
            assert(forall|k: int|
                0 <= k < spre.len() ==> #[trigger] spre[k] == store.articles@[sortedp@[k].1 as int]);
            assert(forall|k: int| 0 <= k < pp ==> (#[trigger] spre[k]).create_time >= key);
            if pp < spre.len() {
                assert(spre[pp as int].create_time == sortedp@[pp as int].0);
            }
            lemma_insert_ctime_at(spre, store.articles@[hi as int], pp as int);
            assert(hist.take(n + 1).drop_last() =~= hist.take(n as int));
            assert(hist.take(n + 1).last() == hist[n as int]);
        }
        sortedp.insert(pp, (key, hi));
        n = n + 1;
        proof {
            let snew = sort_ctime_desc(hist.take(n as int));
            assert(snew == spre.take(pp as int) + seq![store.articles@[hi as int]] + spre.skip(
                pp as int,
            ));
            assert(sortedp@ =~= sortedp@.take(pp as int).push((key, hi)) + sortedp@.skip(pp + 1));
            assert forall|k: int|
                0 <= k < sortedp@.len() implies (#[trigger] sortedp@[k]).1
                < store.articles@.len() && store.articles@[sortedp@[k].1 as int] == snew[k]
                && sortedp@[k].0 == store.articles@[sortedp@[k].1 as int].create_time by {
                if k < pp {
                    assert(snew[k] == spre[k]);
                } else if k == pp {
                    assert(snew[k] == store.articles@[hi as int]);
                } else {
                    assert(snew[k] == spre[k - 1]);
                }
            }
        }
    }
    let ghost ordered = sort_ctime_desc(hist);
    proof {
        assert(hist.take(hist.len() as int) =~= hist);
        lemma_sort_ctime_elems(hist);
        assert forall|k: int| 0 <= k < ordered.len() implies user_idx(
            crate::store::s_users(*store),
            (#[trigger] ordered[k]).user_id,
        ) is Some by {
            let j = choose|j: int| 0 <= j < hist.len() && ordered[k] == #[trigger] hist[j];
        }
    }

    // Build the history views in that order.
    let mut versions: Vec<ArticleVersion> = Vec::new();
    let mut w: usize = 0;
    while w < sortedp.len()
        invariant
            store.wf(),
            w <= sortedp@.len(),
            sortedp@.len() == ordered.len(),
            hist == visible_versions(*store, store.articles@, id, viewer_id(*user)),
            ordered == sort_ctime_desc(hist),
            forall|k: int|
                0 <= k < sortedp@.len() ==> (#[trigger] sortedp@[k]).1 < store.articles@.len()
                    && store.articles@[sortedp@[k].1 as int] == ordered[k],
            forall|k: int|
                0 <= k < ordered.len() ==> user_idx(
                    crate::store::s_users(*store),
                    (#[trigger] ordered[k]).user_id,
                ) is Some,
            versions@.len() == w,
            forall|k: int|
                0 <= k < versions@.len() ==> aver_matches(
                    *store,
                    #[trigger] versions@[k],
                    ordered[k],
                ),
        decreases sortedp@.len() - w,
    {
        let hi = sortedp[w].1;
        let vr = &store.articles[hi];
        let vu = match find_user_row(&store.users, vr.user_id) {
            Some(u) => User { id: vr.user_id, name: store.users[u].name.clone() },
            None => vstd::pervasive::unreached(),
        };
        versions.push(
            ArticleVersion {
                version: vr.version,
                create_time: vr.create_time,
                user: vu,
                active: vr.active,
            },
        );
        w = w + 1;
    }

    let comments_count = count_comments_exec(store, id);
    let target = &store.articles[ti];
    let a = Article {
        info: ArticleInfo { id: target.id, path: target.path.clone(), name: target.name.clone() },
        content: target.content.clone(),
        user: author,
        create_time: target.create_time,
        version: target.version,
        content_id: if target.active {
            Some(target.id as u64)
        } else {
            None
        },
        active: target.active,
        comments_count,
        visibility: if target.visibility_public {
            ArticleVisibility::Public
        } else {
            ArticleVisibility::Private
        },
        versions,
    };
    Ok(a)
}


// ---------------------------------------------------------------------------
// Editing and deleting.
// ---------------------------------------------------------------------------

proof fn lemma_visible_versions_exists(s: Store, arts: Seq<ArticleRow>, id: u32, viewer: Option<u32>)
    ensures
        (visible_versions(s, arts, id, viewer).len() > 0) <==> (exists|i: int|
            0 <= i < arts.len() && (#[trigger] arts[i]).id == id && vis_ok(arts[i], viewer)
                && user_idx(s.users@, arts[i].user_id) is Some),
    decreases arts.len(),
{
    if arts.len() > 0 {
        let pre = arts.drop_last();
        assert(forall|i: int| 0 <= i < pre.len() ==> pre[i] == #[trigger] arts[i]);
        lemma_visible_versions_exists(s, pre, id, viewer);
        let a = arts.last();
        if a.id == id && vis_ok(a, viewer) && user_idx(s.users@, a.user_id) is Some {
            assert(arts[arts.len() - 1].id == id && vis_ok(arts[arts.len() - 1], viewer)
                && user_idx(s.users@, arts[arts.len() - 1].user_id) is Some);
        } else {
            if visible_versions(s, pre, id, viewer).len() > 0 {
                let i = choose|i: int|
                    0 <= i < pre.len() && (#[trigger] pre[i]).id == id && vis_ok(pre[i], viewer)
                        && user_idx(s.users@, pre[i].user_id) is Some;
                assert(arts[i].id == id && vis_ok(arts[i], viewer) && user_idx(
                    s.users@,
                    arts[i].user_id,
                ) is Some);
            }
            if exists|i: int|
                0 <= i < arts.len() && (#[trigger] arts[i]).id == id && vis_ok(arts[i], viewer)
                    && user_idx(s.users@, arts[i].user_id) is Some {
                let i = choose|i: int|
                    0 <= i < arts.len() && (#[trigger] arts[i]).id == id && vis_ok(
                        arts[i],
                        viewer,
                    ) && user_idx(s.users@, arts[i].user_id) is Some;
                assert(i < pre.len());
                assert(pre[i].id == id && vis_ok(pre[i], viewer) && user_idx(
                    s.users@,
                    pre[i].user_id,
                ) is Some);
            }
        }
    }
}

/// True when the caller would be served this article: some history row is
/// visible, the active row exists and its author resolves.
fn check_article_readable(store: &Store, id: u32, user_id: u32) -> (r: Option<usize>)
    ensures
        match r {
            Some(ai) => {
                &&& ai < store.articles@.len()
                &&& query_article_ok(*store, id, None, Some(user_id))
                &&& active_article_idx(store.articles@, id) == Some(ai as int)
            },
            None => !query_article_ok(*store, id, None, Some(user_id)),
        },
{
    let viewer = Some(User { id: user_id, name: String::new() });
    let mut any_visible = false;
    let mut i: usize = 0;
    while i < store.articles.len()
        invariant
            i <= store.articles@.len(),
            !any_visible ==> forall|k: int|
                0 <= k < i ==> !((#[trigger] store.articles@[k]).id == id && vis_ok(
                    store.articles@[k],
                    Some(user_id),
                ) && user_idx(store.users@, store.articles@[k].user_id) is Some),
            any_visible ==> exists|k: int|
                0 <= k < store.articles@.len() && (#[trigger] store.articles@[k]).id == id
                    && vis_ok(store.articles@[k], Some(user_id)) && user_idx(
                    store.users@,
                    store.articles@[k].user_id,
                ) is Some,
        decreases store.articles@.len() - i,
    {
        let a = &store.articles[i];
        if !any_visible && a.id == id && (a.visibility_public || a.user_id == user_id) {
            match find_user_row(&store.users, a.user_id) {
                Some(_) => {
                    any_visible = true;
                    proof {
                        assert(store.articles@[i as int].id == id && vis_ok(
                            store.articles@[i as int],
                            Some(user_id),
                        ) && user_idx(store.users@, store.articles@[i as int].user_id) is Some);
                    }
                },
                None => {},
            }
        }
        i = i + 1;
    }
    proof {
        lemma_visible_versions_exists(*store, store.articles@, id, Some(user_id));
    }
    if !any_visible {
        return None;
    }
    let ai = match find_active_article(&store.articles, id) {
        Some(ai) => ai,
        None => {
            return None;
        },
    };
    if !store.articles[ai].visibility_public && store.articles[ai].user_id != user_id {
        return None;
    }
    match find_user_row(&store.users, store.articles[ai].user_id) {
        Some(_) => Some(ai),
        None => None,
    }
}

/// Edits an article: the active row is deactivated — keeping its name and
/// content as the historical snapshot — and the next version is appended
/// as the new active row carrying the new name, content, path, visibility
/// and editor. `ArticleNotFound` exactly when the caller could not read the
/// article's current version; `CreateError` only on version exhaustion.
pub fn update_article(
    store: &mut Store,
    id: u32,
    path: &str,
    name: &str,
    content: &str,
    visibility: ArticleVisibility,
    user: User,
    now: u64,
) -> (r: Result<(), LogicError>)
    requires
        old(store).wf(),
    ensures
        final(store).wf(),
        match r {
            Ok(()) => {
                &&& query_article_ok(*old(store), id, None, Some(user.id))
                &&& {
                    let ai = active_article_idx(old(store).articles@, id)->Some_0;
                    let v = old(store).articles@[ai].version;
                    &&& v < u32::MAX
                    &&& final(store).articles@.len() == old(store).articles@.len() + 1
                    &&& final(store).articles@.drop_last() == old(store).articles@.update(
                        ai,
                        ArticleRow { active: false, ..old(store).articles@[ai] },
                    )
                    &&& {
                        let a = final(store).articles@.last();
                        &&& a.id == id
                        &&& a.version == v + 1
                        &&& a.path@ == path@
                        &&& a.name@ == name@
                        &&& a.content@ == content@
                        &&& a.user_id == user.id
                        &&& a.create_time == now
                        &&& a.active
                        &&& a.visibility_public == vis_is_public(visibility)
                    }
                }
                &&& same_but_articles(*old(store), *final(store))
            },
            Err(e) => {
                &&& *final(store) == *old(store)
                &&& if query_article_ok(*old(store), id, None, Some(user.id)) {
                    e is CreateError && old(store).articles@[active_article_idx(
                        old(store).articles@,
                        id,
                    )->Some_0].version == u32::MAX
                } else {
                    e is ArticleNotFound
                }
            },
        },
{
    let ai = match check_article_readable(store, id, user.id) {
        Some(ai) => ai,
        None => {
            return Err(LogicError::ArticleNotFound);
        },
    };
    let v = store.articles[ai].version;
    if v == u32::MAX {
        return Err(LogicError::CreateError);
    }
    proof {
        lemma_active_article_idx(store.articles@, id);
    }
    let mut path_s = String::new();
    path_s.append(path);
    let mut name_s = String::new();
    name_s.append(name);
    let mut content_s = String::new();
    content_s.append(content);
    let newrow = ArticleRow {
        id,
        version: v + 1,
        path: path_s,
        name: name_s,
        content: content_s,
        user_id: user.id,
        create_time: now,
        active: true,
        visibility_public: visibility.is_public(),
    };
    store.articles[ai].active = false;
    store.articles.push(newrow);
    proof {
        let oarts = old(store).articles@;
        let narts = store.articles@;
        assert(narts.drop_last() =~= oarts.update(
            ai as int,
            ArticleRow { active: false, ..oarts[ai as int] },
        ));
        assert(forall|k: int|
            0 <= k < oarts.len() && k != ai ==> oarts[k] == #[trigger] narts[k]);
        assert(narts[ai as int].id == oarts[ai as int].id && narts[ai as int].version
            == oarts[ai as int].version && !narts[ai as int].active);
        // The deactivated row's group is unchanged; the appended row tops it.
        assert forall|k: int|
            0 <= k < oarts.len() && (#[trigger] narts[k]).id == id implies narts[k].version <= v by {
            assert(oarts[k].id == oarts[ai as int].id);
            assert(oarts[k].version <= oarts[ai as int].version);
        }
        assert forall|k: int|
            0 <= k < oarts.len() && (#[trigger] narts[k]).id == id implies !narts[k].active by {
            if k != ai {
                assert(!(oarts[k].active && oarts[ai as int].active));
            }
        }
    }
    Ok(())
}

/// Deletes an article: the active row is deactivated and no replacement is
/// inserted, so the article keeps its history but has no current version.
/// `ArticleNotFound` exactly when the caller could not read the article.
pub fn delete_article(store: &mut Store, id: u32, user: &Option<User>) -> (r: Result<
    (),
    LogicError,
>)
    requires
        old(store).wf(),
    ensures
        final(store).wf(),
        match r {
            Ok(()) => {
                &&& query_article_ok(*old(store), id, None, viewer_id(*user))
                &&& {
                    let ai = active_article_idx(old(store).articles@, id)->Some_0;
                    final(store).articles@ == old(store).articles@.update(
                        ai,
                        ArticleRow { active: false, ..old(store).articles@[ai] },
                    )
                }
                &&& same_but_articles(*old(store), *final(store))
            },
            Err(e) => {
                &&& e is ArticleNotFound
                &&& !query_article_ok(*old(store), id, None, viewer_id(*user))
                &&& *final(store) == *old(store)
            },
        },
{
    // A caller without a session reads public articles only.
    let readable = match user {
        Some(u) => check_article_readable(store, id, u.id),
        None => check_article_readable_public(store, id),
    };
    let ai = match readable {
        Some(ai) => ai,
        None => {
            return Err(LogicError::ArticleNotFound);
        },
    };
    proof {
        lemma_active_article_idx(store.articles@, id);
    }
    store.articles[ai].active = false;
    proof {
        let oarts = old(store).articles@;
        let narts = store.articles@;
        assert(narts =~= oarts.update(
            ai as int,
            ArticleRow { active: false, ..oarts[ai as int] },
        ));
        assert(forall|k: int|
            0 <= k < oarts.len() && k != ai ==> oarts[k] == #[trigger] narts[k]);
    }
    Ok(())
}

/// Like `check_article_readable`, for a caller with no session.
fn check_article_readable_public(store: &Store, id: u32) -> (r: Option<usize>)
    ensures
        match r {
            Some(ai) => {
                &&& ai < store.articles@.len()
                &&& query_article_ok(*store, id, None, None)
                &&& active_article_idx(store.articles@, id) == Some(ai as int)
            },
            None => !query_article_ok(*store, id, None, None),
        },
{
    let mut any_visible = false;
    let mut i: usize = 0;
    while i < store.articles.len()
        invariant
            i <= store.articles@.len(),
            !any_visible ==> forall|k: int|
                0 <= k < i ==> !((#[trigger] store.articles@[k]).id == id && vis_ok(
                    store.articles@[k],
                    None,
                ) && user_idx(store.users@, store.articles@[k].user_id) is Some),
            any_visible ==> exists|k: int|
                0 <= k < store.articles@.len() && (#[trigger] store.articles@[k]).id == id
                    && vis_ok(store.articles@[k], None) && user_idx(
                    store.users@,
                    store.articles@[k].user_id,
                ) is Some,
        decreases store.articles@.len() - i,
    {
        let a = &store.articles[i];
        if !any_visible && a.id == id && a.visibility_public {
            match find_user_row(&store.users, a.user_id) {
                Some(_) => {
                    any_visible = true;
                    proof {
                        assert(store.articles@[i as int].id == id && vis_ok(
                            store.articles@[i as int],
                            None,
                        ) && user_idx(store.users@, store.articles@[i as int].user_id) is Some);
                    }
                },
                None => {},
            }
        }
        i = i + 1;
    }
    proof {
        lemma_visible_versions_exists(*store, store.articles@, id, None);
    }
    if !any_visible {
        return None;
    }
    let ai = match find_active_article(&store.articles, id) {
        Some(ai) => ai,
        None => {
            return None;
        },
    };
    if !store.articles[ai].visibility_public {
        return None;
    }
    match find_user_row(&store.users, store.articles[ai].user_id) {
        Some(_) => Some(ai),
        None => None,
    }
}


// ---------------------------------------------------------------------------
// Comments.
// ---------------------------------------------------------------------------

/// The position of comment `cid` of article `aid`.
pub open spec fn comment_idx(s: Seq<CommentRow>, aid: u32, cid: u32) -> Option<int>
    decreases s.len(),
{
    if s.len() == 0 {
        None
    } else if s[0].article_id == aid && s[0].id == cid {
        Some(0)
    } else {
        match comment_idx(s.drop_first(), aid, cid) {
            Some(i) => Some(i + 1),
            None => None,
        }
    }
}

pub proof fn lemma_comment_idx(s: Seq<CommentRow>, aid: u32, cid: u32)
    ensures
        match comment_idx(s, aid, cid) {
            Some(i) => 0 <= i < s.len() && s[i].article_id == aid && s[i].id == cid && forall|
                k: int,
            | 0 <= k < i ==> !((#[trigger] s[k]).article_id == aid && s[k].id == cid),
            None => forall|k: int|
                0 <= k < s.len() ==> !((#[trigger] s[k]).article_id == aid && s[k].id == cid),
        },
    decreases s.len(),
{
    if s.len() > 0 && !(s[0].article_id == aid && s[0].id == cid) {
        let d = s.drop_first();
        lemma_comment_idx(d, aid, cid);
        assert(forall|k: int| 0 <= k < d.len() ==> d[k] == #[trigger] s[k + 1]);
        match comment_idx(d, aid, cid) {
            Some(i) => {
                assert(d[i] == s[i + 1]);
                assert forall|k: int| 0 <= k < i + 1 implies !((#[trigger] s[k]).article_id == aid
                    && s[k].id == cid) by {
                    if k > 0 {
                        assert(!((d[k - 1]).article_id == aid && d[k - 1].id == cid));
                    }
                }
            },
            None => {
                assert forall|k: int| 0 <= k < s.len() implies !((#[trigger] s[k]).article_id
                    == aid && s[k].id == cid) by {
                    if k > 0 {
                        assert(!((d[k - 1]).article_id == aid && d[k - 1].id == cid));
                    }
                }
            },
        }
    }
}

pub(crate) fn find_comment(v: &Vec<CommentRow>, aid: u32, cid: u32) -> (r: Option<usize>)
    ensures
        match r {
            Some(i) => i < v@.len() && comment_idx(v@, aid, cid) == Some(i as int),
            None => comment_idx(v@, aid, cid) is None,
        },
{
    let mut i: usize = 0;
    while i < v.len()
        invariant
            i <= v@.len(),
            forall|k: int|
                0 <= k < i ==> !((#[trigger] v@[k]).article_id == aid && v@[k].id == cid),
        decreases v@.len() - i,
    {
        if v[i].article_id == aid && v[i].id == cid {
            proof {
                lemma_comment_idx(v@, aid, cid);
            }
            return Some(i);
        }
        i = i + 1;
    }
    proof {
        lemma_comment_idx(v@, aid, cid);
    }
    None
}

/// When a comment post succeeds: the caller can read the article — at the
/// named version, or the active one.
pub open spec fn post_comment_ok(s: Store, aid: u32, ver: Option<u32>, uid: u32) -> bool {
    query_article_ok(s, aid, ver, Some(uid))
}

/// True when the caller would be served the article at this version.
fn check_article_version_readable(store: &Store, id: u32, ver: Option<u32>, user_id: u32) -> (r:
    Option<usize>)
    ensures
        match r {
            Some(t) => {
                &&& t < store.articles@.len()
                &&& query_article_ok(*store, id, ver, Some(user_id))
                &&& article_target_idx(store.articles@, id, ver) == Some(t as int)
            },
            None => !query_article_ok(*store, id, ver, Some(user_id)),
        },
{
    match ver {
        None => check_article_readable(store, id, user_id),
        Some(v) => {
            let mut any_visible = false;
            let mut i: usize = 0;
            while i < store.articles.len()
                invariant
                    i <= store.articles@.len(),
                    !any_visible ==> forall|k: int|
                        0 <= k < i ==> !((#[trigger] store.articles@[k]).id == id && vis_ok(
                            store.articles@[k],
                            Some(user_id),
                        ) && user_idx(store.users@, store.articles@[k].user_id) is Some),
                    any_visible ==> exists|k: int|
                        0 <= k < store.articles@.len() && (#[trigger] store.articles@[k]).id == id
                            && vis_ok(store.articles@[k], Some(user_id)) && user_idx(
                            store.users@,
                            store.articles@[k].user_id,
                        ) is Some,
                decreases store.articles@.len() - i,
            {
                let a = &store.articles[i];
                if !any_visible && a.id == id && (a.visibility_public || a.user_id == user_id) {
                    match find_user_row(&store.users, a.user_id) {
                        Some(_) => {
                            any_visible = true;
                            proof {
                                assert(store.articles@[i as int].id == id && vis_ok(
                                    store.articles@[i as int],
                                    Some(user_id),
                                ) && user_idx(
                                    store.users@,
                                    store.articles@[i as int].user_id,
                                ) is Some);
                            }
                        },
                        None => {},
                    }
                }
                i = i + 1;
            }
            proof {
                lemma_visible_versions_exists(*store, store.articles@, id, Some(user_id));
            }
            if !any_visible {
                return None;
            }
            let t = match find_article_ver(&store.articles, id, v) {
                Some(t) => t,
                None => {
                    return None;
                },
            };
            if store.articles[t].active {
                return None;
            }
            if !store.articles[t].visibility_public && store.articles[t].user_id != user_id {
                return None;
            }
            match find_user_row(&store.users, store.articles[t].user_id) {
                Some(_) => Some(t),
                None => None,
            }
        },
    }
}

/// Posts a comment: the article (at the named version, or the active one)
/// must be readable by the author; the comment id is the article's comment
/// count plus one, so the Nth comment of an article gets id N.
/// `ArticleNotFound` exactly when the article is not readable;
/// `CreateError` only on id exhaustion.
pub fn save_comment(store: &mut Store, message: &PostComment, user: &User, now: u64) -> (r: Result<
    (),
    LogicError,
>)
    requires
        old(store).wf(),
    ensures
        final(store).wf(),
        match r {
            Ok(()) => {
                &&& post_comment_ok(
                    *old(store),
                    message.article_id,
                    message.article_version,
                    user.id,
                )
                &&& final(store).comments@.len() == old(store).comments@.len() + 1
                &&& final(store).comments@.drop_last() == old(store).comments@
                &&& {
                    let c = final(store).comments@.last();
                    &&& c.id == cnt_comments(old(store).comments@, message.article_id) + 1
                    &&& c.article_id == message.article_id
                    &&& c.article_version == old(store).articles@[article_target_idx(
                        old(store).articles@,
                        message.article_id,
                        message.article_version,
                    )->Some_0].version
                    &&& c.user_id == user.id
                    &&& c.create_time == now
                    &&& c.update_time == now
                    &&& c.content@ == message.message@
                }
                &&& same_but_comments(*old(store), *final(store))
            },
            Err(e) => {
                &&& *final(store) == *old(store)
                &&& if post_comment_ok(
                    *old(store),
                    message.article_id,
                    message.article_version,
                    user.id,
                ) {
                    e is CreateError && cnt_comments(old(store).comments@, message.article_id)
                        == u32::MAX
                } else {
                    e is ArticleNotFound
                }
            },
        },
{
    let aid = message.article_id;
    let ti = match check_article_version_readable(store, aid, message.article_version, user.id) {
        Some(t) => t,
        None => {
            return Err(LogicError::ArticleNotFound);
        },
    };
    let count = count_comments_exec(store, aid);
    if count == u32::MAX {
        return Err(LogicError::CreateError);
    }
    let row = CommentRow {
        id: count + 1,
        article_id: aid,
        article_version: store.articles[ti].version,
        user_id: user.id,
        create_time: now,
        update_time: now,
        content: message.message.clone(),
    };
    store.comments.push(row);
    proof {
        let ocs = old(store).comments@;
        let ncs = store.comments@;
        assert(ncs.drop_last() =~= ocs);
        assert(forall|i: int| 0 <= i < ocs.len() ==> ocs[i] == #[trigger] ncs[i]);
        assert forall|i: int| 0 <= i < ncs.len() implies #[trigger] ncs[i].id == cnt_comments(
            ncs.take(i + 1),
            ncs[i].article_id,
        ) by {
            if i < ocs.len() {
                assert(ncs.take(i + 1) =~= ocs.take(i + 1));
            } else {
                assert(ncs.take(i + 1) =~= ncs);
                assert(cnt_comments(ncs, aid) == cnt_comments(ocs, aid) + 1);
            }
        }
    }
    Ok(())
}

/// An in-place edit that keeps a comment's id and article preserves the
/// comment invariant.
proof fn lemma_wf_comments_update(ocs: Seq<CommentRow>, cs: Seq<CommentRow>, i: int)
    requires
        wf_comments(ocs),
        0 <= i < ocs.len(),
        cs.len() == ocs.len(),
        forall|k: int| 0 <= k < ocs.len() && k != i ==> ocs[k] == #[trigger] cs[k],
        cs[i].id == ocs[i].id,
        cs[i].article_id == ocs[i].article_id,
    ensures
        wf_comments(cs),
{
    assert(cs =~= ocs.update(i, cs[i]));
    assert forall|k: int| 0 <= k < cs.len() implies #[trigger] cs[k].id == cnt_comments(
        cs.take(k + 1),
        cs[k].article_id,
    ) by {
        if k < i {
            assert(cs.take(k + 1) =~= ocs.take(k + 1));
            assert(cs[k] == ocs[k]);
        } else {
            assert(cs.take(k + 1) =~= ocs.take(k + 1).update(i, cs[i]));
            crate::store::lemma_cnt_comments_update(ocs.take(k + 1), i, cs[i], cs[k].article_id);
        }
    }
}

/// Edits a comment's content, then its metadata if the editor owns it; the
/// two steps are separate, as in `update_message`, and both failures are
/// `MessageNotFound`.
pub fn update_comment(store: &mut Store, message: &UpdateComment, user: &User, now: u64) -> (r:
    Result<(), LogicError>)
    requires
        old(store).wf(),
    ensures
        final(store).wf(),
        same_but_comments(*old(store), *final(store)),
        match r {
            Ok(()) => {
                &&& comment_idx(old(store).comments@, message.article_id, message.comment_id)
                    is Some
                &&& {
                    let i = comment_idx(
                        old(store).comments@,
                        message.article_id,
                        message.comment_id,
                    )->Some_0;
                    &&& old(store).comments@[i].user_id == user.id
                    &&& final(store).comments@ == old(store).comments@.update(
                        i,
                        CommentRow {
                            content: final(store).comments@[i].content,
                            update_time: now,
                            ..old(store).comments@[i]
                        },
                    )
                    &&& final(store).comments@[i].content@ == message.message@
                }
            },
            Err(e) => {
                &&& e is MessageNotFound
                &&& match comment_idx(
                    old(store).comments@,
                    message.article_id,
                    message.comment_id,
                ) {
                    Some(i) => {
                        &&& old(store).comments@[i].user_id != user.id
                        &&& final(store).comments@ == old(store).comments@.update(
                            i,
                            CommentRow {
                                content: final(store).comments@[i].content,
                                ..old(store).comments@[i]
                            },
                        )
                        &&& final(store).comments@[i].content@ == message.message@
                    },
                    None => *final(store) == *old(store),
                }
            },
        },
{
    let ci = match find_comment(&store.comments, message.article_id, message.comment_id) {
        Some(i) => i,
        None => {
            return Err(LogicError::MessageNotFound);
        },
    };
    store.comments[ci].content = message.message.clone();
    proof {
        lemma_wf_comments_update(old(store).comments@, store.comments@, ci as int);
    }
    if store.comments[ci].user_id != user.id {
        return Err(LogicError::MessageNotFound);
    }
    let ghost mid = store.comments@;
    store.comments[ci].update_time = now;
    proof {
        lemma_wf_comments_update(mid, store.comments@, ci as int);
        assert(store.comments@ =~= old(store).comments@.update(
            ci as int,
            CommentRow {
                content: store.comments@[ci as int].content,
                update_time: now,
                ..old(store).comments@[ci as int]
            },
        ));
    }
    Ok(())
}

/// The comments of article `aid` whose author resolves, in table order —
/// which the invariant keeps equal to id order.
pub open spec fn joined_comments(s: Store, cs: Seq<CommentRow>, aid: u32) -> Seq<CommentRow>
    decreases cs.len(),
{
    if cs.len() == 0 {
        Seq::empty()
    } else {
        let rest = joined_comments(s, cs.drop_last(), aid);
        if cs.last().article_id == aid && user_idx(s.users@, cs.last().user_id) is Some {
            rest.push(cs.last())
        } else {
            rest
        }
    }
}

/// How a returned `Comment` relates to its row, author joined.
pub open spec fn comment_matches(s: Store, c: Comment, row: CommentRow) -> bool {
    &&& c.id == row.id
    &&& c.acticle_id == row.article_id
    &&& c.create_time == row.create_time
    &&& c.update_time == row.update_time
    &&& c.content@ == row.content@
    &&& match user_idx(s.users@, row.user_id) {
        Some(u) => c.user.id == row.user_id && c.user.name@ == s.users@[u].name@,
        None => false,
    }
}

proof fn lemma_joined_comments_props(s: Store, cs: Seq<CommentRow>, aid: u32)
    ensures
        forall|k: int|
            0 <= k < joined_comments(s, cs, aid).len() ==> {
                let row = #[trigger] joined_comments(s, cs, aid)[k];
                row.article_id == aid && user_idx(s.users@, row.user_id) is Some
            },
    decreases cs.len(),
{
    if cs.len() > 0 {
        lemma_joined_comments_props(s, cs.drop_last(), aid);
        let rest = joined_comments(s, cs.drop_last(), aid);
        let cur = joined_comments(s, cs, aid);
        assert forall|k: int| 0 <= k < cur.len() implies {
            let row = #[trigger] cur[k];
            row.article_id == aid && user_idx(s.users@, row.user_id) is Some
        } by {
            if k < rest.len() {
                assert(cur[k] == rest[k]);
            } else {
                assert(cur[k] == cs.last());
            }
        }
    }
}

/// One page of an article's comments in id order, the total count, and the
/// article's minimal metadata. `ArticleNotFound` exactly when the article
/// has no active version visible to the caller.
pub fn query_article_comments(store: &Store, article_id: u32, page: u32, user: &Option<User>) -> (r:
    Result<CommentsQueryResult, LogicError>)
    requires
        store.wf(),
    ensures
        match r {
            Ok(res) => {
                &&& active_article_idx(store.articles@, article_id) matches Some(ai) && vis_ok(
                    store.articles@[ai],
                    viewer_id(*user),
                )
                &&& {
                    let ai = active_article_idx(store.articles@, article_id)->Some_0;
                    &&& res.article_info.id == article_id
                    &&& res.article_info.path@ == store.articles@[ai].path@
                    &&& res.article_info.name@ == store.articles@[ai].name@
                }
                &&& res.total_comments == cnt_comments(store.comments@, article_id)
                &&& {
                    let g = joined_comments(*store, store.comments@, article_id);
                    let win = page_window(
                        g,
                        spec_offset(page, MESSAGES_PER_PAGE),
                        MESSAGES_PER_PAGE as int,
                    );
                    &&& res.comments@.len() == win.len()
                    &&& forall|k: int|
                        0 <= k < win.len() ==> comment_matches(
                            *store,
                            #[trigger] res.comments@[k],
                            win[k],
                        )
                }
            },
            Err(e) => {
                &&& e is ArticleNotFound
                &&& !(active_article_idx(store.articles@, article_id) matches Some(ai) && vis_ok(
                    store.articles@[ai],
                    viewer_id(*user),
                ))
            },
        },
{
    let ghost g = joined_comments(*store, store.comments@, article_id);
    let mut idxs: Vec<usize> = Vec::new();
    let mut i: usize = 0;
    proof {
        assert(store.comments@.take(0) =~= Seq::<CommentRow>::empty());
    }
    while i < store.comments.len()
        invariant
            i <= store.comments@.len(),
            idxs@.len() == joined_comments(
                *store,
                store.comments@.take(i as int),
                article_id,
            ).len(),
            forall|k: int|
                0 <= k < idxs@.len() ==> (#[trigger] idxs@[k]) < store.comments@.len()
                    && store.comments@[idxs@[k] as int] == joined_comments(
                    *store,
                    store.comments@.take(i as int),
                    article_id,
                )[k],
        decreases store.comments@.len() - i,
    {
        proof {
            assert(store.comments@.take(i + 1).drop_last() =~= store.comments@.take(i as int));
            assert(store.comments@.take(i + 1).last() == store.comments@[i as int]);
        }
        if store.comments[i].article_id == article_id {
            match find_user_row(&store.users, store.comments[i].user_id) {
                Some(_) => {
                    idxs.push(i);
                },
                None => {},
            }
        }
        i = i + 1;
    }
    proof {
        assert(store.comments@.take(store.comments@.len() as int) =~= store.comments@);
        lemma_joined_comments_props(*store, store.comments@, article_id);
    }
    let total = idxs.len();
    let off64: u64 = if page > 1 {
        (page as u64 - 1) * 50
    } else {
        0
    };
    let start: usize = if off64 > total as u64 {
        total
    } else {
        off64 as usize
    };
    let end: usize = if off64 + (MESSAGES_PER_PAGE as u64) > total as u64 {
        total
    } else {
        (off64 + (MESSAGES_PER_PAGE as u64)) as usize
    };
    proof {
        assert(page_window(g, spec_offset(page, MESSAGES_PER_PAGE), MESSAGES_PER_PAGE as int)
            =~= g.subrange(start as int, end as int));
    }
    let mut comments: Vec<Comment> = Vec::new();
    let mut w: usize = start;
    while w < end
        invariant
            start <= w <= end <= idxs@.len(),
            idxs@.len() == g.len(),
            g == joined_comments(*store, store.comments@, article_id),
            forall|k: int|
                0 <= k < idxs@.len() ==> (#[trigger] idxs@[k]) < store.comments@.len()
                    && store.comments@[idxs@[k] as int] == g[k],
            forall|k: int|
                0 <= k < g.len() ==> user_idx(s_users(*store), (#[trigger] g[k]).user_id) is Some,
            comments@.len() == w - start,
            forall|k: int|
                0 <= k < comments@.len() ==> comment_matches(
                    *store,
                    #[trigger] comments@[k],
                    g[start + k],
                ),
        decreases end - w,
    {
        let ci = idxs[w];
        let row = &store.comments[ci];
        let cu = match find_user_row(&store.users, row.user_id) {
            Some(u) => User { id: row.user_id, name: store.users[u].name.clone() },
            None => vstd::pervasive::unreached(),
        };
        comments.push(
            Comment {
                id: row.id,
                user: cu,
                acticle_id: row.article_id,
                create_time: row.create_time,
                update_time: row.update_time,
                content: row.content.clone(),
            },
        );
        w = w + 1;
    }
    let total_comments = count_comments_exec(store, article_id);
    let ai = match find_active_article(&store.articles, article_id) {
        Some(ai) => ai,
        None => {
            return Err(LogicError::ArticleNotFound);
        },
    };
    let arow = &store.articles[ai];
    if !vis_ok_exec(arow.visibility_public, arow.user_id, user) {
        return Err(LogicError::ArticleNotFound);
    }
    proof {
        lemma_active_article_idx(store.articles@, article_id);
    }
    Ok(
        CommentsQueryResult {
            article_info: ArticleInfo {
                id: article_id,
                path: arow.path.clone(),
                name: arow.name.clone(),
            },
            comments,
            total_comments,
        },
    )
}

// ---------------------------------------------------------------------------
// Invariants worth stating on their own.
// ---------------------------------------------------------------------------

/// In a well-formed store, at most one version row of an article is active
/// at any observation point: a second active row of the same id cannot
/// exist.
pub proof fn lemma_one_active_version(s: Store, id: u32)
    requires
        s.wf(),
    ensures
        forall|i: int, j: int|
            #![trigger s.articles@[i], s.articles@[j]]
            0 <= i < s.articles@.len() && 0 <= j < s.articles@.len() && s.articles@[i].id == id
                && s.articles@[j].id == id && s.articles@[i].active && s.articles@[j].active ==> i
                == j,
{
}

/// After an edit, reading the previously active version returns the name
/// and content as they were before the edit: the deactivated row is the
/// snapshot, and it is the row a historical read serves.
pub proof fn lemma_snapshot_after_update(s0: Store, s1: Store, id: u32)
    requires
        s0.wf(),
        active_article_idx(s0.articles@, id) is Some,
        ({
            let ai = active_article_idx(s0.articles@, id)->Some_0;
            &&& s1.articles@.len() == s0.articles@.len() + 1
            &&& s1.articles@.drop_last() == s0.articles@.update(
                ai,
                ArticleRow { active: false, ..s0.articles@[ai] },
            )
            &&& s1.articles@.last().id == id
            &&& s1.articles@.last().version > s0.articles@[ai].version
        }),
    ensures
        ({
            let ai = active_article_idx(s0.articles@, id)->Some_0;
            let v0 = s0.articles@[ai].version;
            &&& article_target_idx(s1.articles@, id, Some(v0)) == Some(ai)
            &&& s1.articles@[ai].name@ == s0.articles@[ai].name@
            &&& s1.articles@[ai].content@ == s0.articles@[ai].content@
            &&& s1.articles@[ai].path@ == s0.articles@[ai].path@
            &&& !s1.articles@[ai].active
        }),
{
    lemma_active_article_idx(s0.articles@, id);
    let ai = active_article_idx(s0.articles@, id)->Some_0;
    let v0 = s0.articles@[ai].version;
    let d = s1.articles@.drop_last();
    assert(forall|k: int| 0 <= k < d.len() ==> d[k] == #[trigger] s1.articles@[k]);
    assert(d[ai] == ArticleRow { active: false, ..s0.articles@[ai] });
    assert(forall|k: int|
        0 <= k < s0.articles@.len() && k != ai ==> s0.articles@[k] == #[trigger] s1.articles@[k]);
    assert(s1.articles@[ai].name@ == s0.articles@[ai].name@);
    lemma_article_ver_idx(s1.articles@, id, v0);
    match article_ver_idx(s1.articles@, id, v0) {
        Some(j) => {
            assert(s1.articles@[ai].id == id && s1.articles@[ai].version == v0);
            if j < ai {
                assert(s0.articles@[j].id == id && s0.articles@[j].version == v0);
                assert(s0.articles@[j].version < s0.articles@[ai].version);
                assert(false);
            }
            if j > ai {
                assert(!(s1.articles@[ai].id == id && s1.articles@[ai].version == v0));
                assert(false);
            }
        },
        None => {
            assert(!(s1.articles@[ai].id == id && s1.articles@[ai].version == v0));
            assert(false);
        },
    }
}

/// Whether an article id appears in a listing.
pub open spec fn listed_article(arts: Seq<ArticleRow>, viewer: Option<u32>, aid: u32) -> bool {
    exists|k: int|
        0 <= k < visible_infos(arts, viewer).len() && (#[trigger] visible_infos(arts, viewer)[k]).0
            == aid
}

proof fn lemma_visible_infos_char(arts: Seq<ArticleRow>, viewer: Option<u32>, aid: u32)
    ensures
        listed_article(arts, viewer, aid) <==> exists|i: int|
            0 <= i < arts.len() && (#[trigger] arts[i]).id == aid && arts[i].active && vis_ok(
                arts[i],
                viewer,
            ),
    decreases arts.len(),
{
    let vis = visible_infos(arts, viewer);
    if arts.len() == 0 {
        assert(!listed_article(arts, viewer, aid));
    } else {
        let pre = arts.drop_last();
        let pvis = visible_infos(pre, viewer);
        assert(forall|i: int| 0 <= i < pre.len() ==> pre[i] == #[trigger] arts[i]);
        lemma_visible_infos_char(pre, viewer, aid);
        let a = arts.last();
        if a.active && vis_ok(a, viewer) && a.id == aid {
            assert(vis[vis.len() - 1].0 == aid);
            assert(listed_article(arts, viewer, aid));
            assert(arts[arts.len() - 1].id == aid && arts[arts.len() - 1].active && vis_ok(
                arts[arts.len() - 1],
                viewer,
            ));
        } else {
            assert forall|k: int|
                0 <= k < vis.len() && (#[trigger] vis[k]).0 == aid implies listed_article(
                pre,
                viewer,
                aid,
            ) by {
                if k < pvis.len() {
                    assert(pvis[k].0 == aid);
                }
            }
            if listed_article(arts, viewer, aid) {
                let i = choose|i: int|
                    0 <= i < pre.len() && (#[trigger] pre[i]).id == aid && pre[i].active && vis_ok(
                        pre[i],
                        viewer,
                    );
                assert(arts[i].id == aid && arts[i].active && vis_ok(arts[i], viewer));
            }
            if exists|i: int|
                0 <= i < arts.len() && (#[trigger] arts[i]).id == aid && arts[i].active && vis_ok(
                    arts[i],
                    viewer,
                ) {
                let i = choose|i: int|
                    0 <= i < arts.len() && (#[trigger] arts[i]).id == aid && arts[i].active
                        && vis_ok(arts[i], viewer);
                assert(i < pre.len());
                assert(pre[i].id == aid && pre[i].active && vis_ok(pre[i], viewer));
                assert(listed_article(pre, viewer, aid));
                let k = choose|k: int|
                    0 <= k < pvis.len() && (#[trigger] pvis[k]).0 == aid;
                if pvis.len() < vis.len() {
                    assert(vis[k].0 == aid);
                } else {
                    assert(vis[k].0 == aid);
                }
            }
        }
    }
}

/// A private article appears in a listing exactly for its owner: it is
/// absent from anonymous listings and from every other user's listing, and
/// present for the owner.
pub proof fn lemma_private_article_listing(s: Store, i: int, viewer: Option<u32>)
    requires
        s.wf(),
        0 <= i < s.articles@.len(),
        s.articles@[i].active,
        !s.articles@[i].visibility_public,
    ensures
        listed_article(s.articles@, viewer, s.articles@[i].id) <==> viewer == Some(
            s.articles@[i].user_id,
        ),
{
    let aid = s.articles@[i].id;
    lemma_visible_infos_char(s.articles@, viewer, aid);
    if viewer == Some(s.articles@[i].user_id) {
        assert(s.articles@[i].id == aid && s.articles@[i].active && vis_ok(
            s.articles@[i],
            viewer,
        ));
    }
    if listed_article(s.articles@, viewer, aid) {
        let j = choose|j: int|
            0 <= j < s.articles@.len() && (#[trigger] s.articles@[j]).id == aid
                && s.articles@[j].active && vis_ok(s.articles@[j], viewer);
        assert(j == i);
    }
}

} // verus!
