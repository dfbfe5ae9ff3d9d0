use forum_core::articles::{
    add_favorite_article, create_article, delete_article, query_article, query_article_comments,
    query_articles, query_favorite_articles, remove_favorite_article, save_comment,
    update_article, update_comment,
};
use forum_core::store::{find_user, save_user, Store};
use forum_core::types::{
    ArticleVisibility, LogicError, PostComment, UpdateComment, User,
};

fn setup_user(store: &mut Store, name: &str) -> User {
    save_user(store, name).unwrap();
    find_user(store, name).unwrap()
}

fn copy_user(u: &User) -> User {
    User { id: u.id, name: u.name.clone() }
}

fn active_count(store: &Store, id: u32) -> usize {
    store.articles.iter().filter(|a| a.id == id && a.active).count()
}

#[test]
fn exactly_one_active_version() {
    let mut store = Store::new();
    let alice = setup_user(&mut store, "alice");
    create_article(&mut store, "p", "n1", "c1", ArticleVisibility::Public, &alice, 10).unwrap();
    assert_eq!(active_count(&store, 1), 1);
    update_article(&mut store, 1, "p", "n2", "c2", ArticleVisibility::Public, copy_user(&alice), 20)
        .unwrap();
    assert_eq!(active_count(&store, 1), 1);
    update_article(&mut store, 1, "p", "n3", "c3", ArticleVisibility::Public, copy_user(&alice), 30)
        .unwrap();
    assert_eq!(active_count(&store, 1), 1);
    delete_article(&mut store, 1, &Some(alice)).unwrap();
    // Zero active only after deletion.
    assert_eq!(active_count(&store, 1), 0);
}

#[test]
fn historical_read_returns_pre_update_snapshot() {
    let mut store = Store::new();
    let alice = setup_user(&mut store, "alice");
    create_article(&mut store, "path", "old name", "old content", ArticleVisibility::Public,
        &alice, 10).unwrap();
    update_article(&mut store, 1, "path", "new name", "new content", ArticleVisibility::Public,
        copy_user(&alice), 20).unwrap();
    // The current read serves the new version.
    let current = query_article(&store, 1, None, &Some(copy_user(&alice))).unwrap();
    assert_eq!(current.version, 2);
    assert_eq!(current.info.name, "new name");
    assert_eq!(current.content, "new content");
    assert!(current.active);
    assert_eq!(current.versions.len(), 2);
    // The historical read serves the snapshot as it was before the update.
    let old = query_article(&store, 1, Some(1), &Some(copy_user(&alice))).unwrap();
    assert_eq!(old.version, 1);
    assert_eq!(old.info.name, "old name");
    assert_eq!(old.content, "old content");
    assert!(!old.active);
    assert_eq!(old.content_id, None);
    // A still-active version cannot be read historically.
    assert!(matches!(query_article(&store, 1, Some(2), &Some(alice)), Err(
        LogicError::ArticleNotFound
    )));
}

#[test]
fn update_after_delete_fails() {
    let mut store = Store::new();
    let alice = setup_user(&mut store, "alice");
    create_article(&mut store, "p", "n", "c", ArticleVisibility::Public, &alice, 1).unwrap();
    delete_article(&mut store, 1, &Some(copy_user(&alice))).unwrap();
    let r = update_article(&mut store, 1, "p", "n2", "c2", ArticleVisibility::Public,
        copy_user(&alice), 2);
    assert!(matches!(r, Err(LogicError::ArticleNotFound)));
    assert!(matches!(delete_article(&mut store, 1, &Some(alice)), Err(
        LogicError::ArticleNotFound
    )));
}

#[test]
fn article_ids_grow_from_one() {
    let mut store = Store::new();
    let alice = setup_user(&mut store, "alice");
    create_article(&mut store, "a", "n", "c", ArticleVisibility::Public, &alice, 1).unwrap();
    create_article(&mut store, "b", "n", "c", ArticleVisibility::Public, &alice, 2).unwrap();
    let all = query_articles(&store, &None);
    assert_eq!(all.articles.len(), 2);
    assert_eq!(all.articles[0].id, 1);
    assert_eq!(all.articles[1].id, 2);
}

#[test]
fn private_article_visible_to_owner_only() {
    let mut store = Store::new();
    let owner = setup_user(&mut store, "owner");
    let other = setup_user(&mut store, "other");
    create_article(&mut store, "p", "secret", "s", ArticleVisibility::Private, &owner, 1)
        .unwrap();
    // Absent for anonymous callers and for another user.
    assert_eq!(query_articles(&store, &None).articles.len(), 0);
    assert_eq!(query_articles(&store, &Some(copy_user(&other))).articles.len(), 0);
    // Present for its owner.
    let own = query_articles(&store, &Some(copy_user(&owner)));
    assert_eq!(own.articles.len(), 1);
    assert_eq!(own.articles[0].name, "secret");
    // The direct read obeys the same rule.
    assert!(query_article(&store, 1, None, &Some(owner)).is_ok());
    assert!(matches!(query_article(&store, 1, None, &Some(other)), Err(
        LogicError::ArticleNotFound
    )));
    assert!(matches!(query_article(&store, 1, None, &None), Err(LogicError::ArticleNotFound)));
}

#[test]
fn comment_ids_count_from_one() {
    let mut store = Store::new();
    let alice = setup_user(&mut store, "alice");
    create_article(&mut store, "p", "n", "c", ArticleVisibility::Public, &alice, 1).unwrap();
    for k in 1..=5u64 {
        let post = PostComment {
            message: format!("comment {}", k),
            article_id: 1,
            article_version: None,
        };
        save_comment(&mut store, &post, &alice, 10 + k).unwrap();
    }
    let page = query_article_comments(&store, 1, 1, &Some(alice)).unwrap();
    assert_eq!(page.total_comments, 5);
    assert_eq!(page.comments.len(), 5);
    for (k, c) in page.comments.iter().enumerate() {
        assert_eq!(c.id as usize, k + 1);
    }
    assert_eq!(page.article_info.id, 1);
    assert_eq!(page.article_info.name, "n");
}

#[test]
fn comment_records_version_commented_on() {
    let mut store = Store::new();
    let alice = setup_user(&mut store, "alice");
    create_article(&mut store, "p", "n1", "c1", ArticleVisibility::Public, &alice, 1).unwrap();
    update_article(&mut store, 1, "p", "n2", "c2", ArticleVisibility::Public,
        copy_user(&alice), 2).unwrap();
    // Comment on the current (second) version.
    let on_current =
        PostComment { message: "now".to_string(), article_id: 1, article_version: None };
    save_comment(&mut store, &on_current, &alice, 3).unwrap();
    assert_eq!(store.comments[0].article_version, 2);
    // Comment on the historical first version.
    let on_old =
        PostComment { message: "then".to_string(), article_id: 1, article_version: Some(1) };
    save_comment(&mut store, &on_old, &alice, 4).unwrap();
    assert_eq!(store.comments[1].article_version, 1);
    // Commenting on a missing article fails.
    let on_missing =
        PostComment { message: "x".to_string(), article_id: 9, article_version: None };
    assert!(matches!(save_comment(&mut store, &on_missing, &alice, 5), Err(
        LogicError::ArticleNotFound
    )));
}

#[test]
fn update_comment_checks_author() {
    let mut store = Store::new();
    let alice = setup_user(&mut store, "alice");
    let bob = setup_user(&mut store, "bob");
    create_article(&mut store, "p", "n", "c", ArticleVisibility::Public, &alice, 1).unwrap();
    let post = PostComment { message: "original".to_string(), article_id: 1, article_version: None };
    save_comment(&mut store, &post, &alice, 2).unwrap();
    let edit = UpdateComment { message: "edited".to_string(), comment_id: 1, article_id: 1 };
    assert!(matches!(update_comment(&mut store, &edit, &bob, 3), Err(
        LogicError::MessageNotFound
    )));
    let edit2 = UpdateComment { message: "better".to_string(), comment_id: 1, article_id: 1 };
    update_comment(&mut store, &edit2, &alice, 4).unwrap();
    assert_eq!(store.comments[0].content, "better");
    assert_eq!(store.comments[0].update_time, 4);
}

#[test]
fn favorites_are_idempotent_set_membership() {
    let mut store = Store::new();
    let alice = setup_user(&mut store, "alice");
    create_article(&mut store, "p", "fav", "c", ArticleVisibility::Public, &alice, 1).unwrap();
    create_article(&mut store, "q", "other", "c", ArticleVisibility::Public, &alice, 2).unwrap();
    add_favorite_article(&mut store, &alice, 1);
    add_favorite_article(&mut store, &alice, 1);
    assert_eq!(store.favorites.len(), 1);
    let favs = query_favorite_articles(&store, &alice);
    assert_eq!(favs.articles.len(), 1);
    assert_eq!(favs.articles[0].name, "fav");
    remove_favorite_article(&mut store, &alice, 1);
    remove_favorite_article(&mut store, &alice, 1);
    assert_eq!(store.favorites.len(), 0);
    assert_eq!(query_favorite_articles(&store, &alice).articles.len(), 0);
}

#[test]
fn later_privacy_hides_the_current_version() {
    let mut store = Store::new();
    let owner = setup_user(&mut store, "owner");
    let other = setup_user(&mut store, "other");
    create_article(&mut store, "p", "open", "v1", ArticleVisibility::Public, &owner, 10)
        .unwrap();
    update_article(&mut store, 1, "p", "hidden", "v2", ArticleVisibility::Private,
        copy_user(&owner), 20).unwrap();
    // The current, private version is served to nobody but the owner, even
    // though an older public version exists.
    assert!(matches!(query_article(&store, 1, None, &None), Err(LogicError::ArticleNotFound)));
    assert!(matches!(query_article(&store, 1, None, &Some(copy_user(&other))), Err(
        LogicError::ArticleNotFound
    )));
    assert!(query_article(&store, 1, None, &Some(copy_user(&owner))).is_ok());
    // The old public version stays readable by anyone, historically.
    let old = query_article(&store, 1, Some(1), &None).unwrap();
    assert_eq!(old.content, "v1");
    // Editing, deleting and commenting follow the same rule.
    assert!(matches!(update_article(&mut store, 1, "p", "x", "y", ArticleVisibility::Public,
        copy_user(&other), 30), Err(LogicError::ArticleNotFound)));
    assert!(matches!(delete_article(&mut store, 1, &None), Err(LogicError::ArticleNotFound)));
    assert!(matches!(delete_article(&mut store, 1, &Some(copy_user(&other))), Err(
        LogicError::ArticleNotFound
    )));
    let note = PostComment { message: "hi".to_string(), article_id: 1, article_version: None };
    assert!(matches!(save_comment(&mut store, &note, &other, 40), Err(
        LogicError::ArticleNotFound
    )));
    save_comment(&mut store, &note, &owner, 41).unwrap();
}

#[test]
fn version_history_ordered_by_creation_time() {
    let mut store = Store::new();
    let alice = setup_user(&mut store, "alice");
    // The caller supplies the clock; a later edit can carry an earlier time.
    create_article(&mut store, "p", "n1", "c1", ArticleVisibility::Public, &alice, 30).unwrap();
    update_article(&mut store, 1, "p", "n2", "c2", ArticleVisibility::Public,
        copy_user(&alice), 20).unwrap();
    let a = query_article(&store, 1, None, &Some(alice)).unwrap();
    assert_eq!(a.versions.len(), 2);
    // Newest creation time first, whatever the version numbers say.
    assert_eq!(a.versions[0].create_time, 30);
    assert_eq!(a.versions[0].version, 1);
    assert_eq!(a.versions[1].create_time, 20);
    assert_eq!(a.versions[1].version, 2);
    assert!(a.versions[1].active);
}
