use forum_core::articles::create_article;
use forum_core::search::{query_articles_by_search_params, query_messages_by_search_params};
use forum_core::store::{
    create_thread, delete_thread, find_user, save_message, save_user, Store,
};
use forum_core::types::{
    ArticleVisibility, CreateThreadMessage, PostMessage, SearchResultFragment, User,
};

fn setup_user(store: &mut Store, name: &str) -> User {
    save_user(store, name).unwrap();
    find_user(store, name).unwrap()
}

#[test]
fn message_hits_resolve_against_live_threads() {
    let mut store = Store::new();
    let alice = setup_user(&mut store, "alice");
    let t1 = CreateThreadMessage {
        message: "first".to_string(),
        thread_name: "alive".to_string(),
        subsection_id: 1,
    };
    create_thread(&mut store, &t1, &alice, 1).unwrap();
    let t2 = CreateThreadMessage {
        message: "other".to_string(),
        thread_name: "doomed".to_string(),
        subsection_id: 1,
    };
    create_thread(&mut store, &t2, &alice, 2).unwrap();
    let post = PostMessage { message: "second".to_string(), thread_id: 1 };
    save_message(&mut store, &post, &alice, 3).unwrap();
    delete_thread(&mut store, 2);
    // Engine rank order is preserved; hits of deleted or missing threads
    // and of missing messages are dropped.
    let hits = vec![(1u32, 2u32), (2, 1), (1, 1), (9, 1), (1, 7)];
    let r = query_messages_by_search_params(&store, &hits);
    assert_eq!(r.messages.len(), 2);
    assert_eq!(r.messages[0].id, 2);
    assert_eq!(r.messages[0].thread_name, "alive");
    assert_eq!(r.messages[0].content, "second");
    assert_eq!(r.messages[0].user.name, "alice");
    assert_eq!(r.messages[1].id, 1);
    assert_eq!(r.messages[1].content, "first");
}

#[test]
fn article_hits_respect_visibility_and_parse_snippets() {
    let mut store = Store::new();
    let owner = setup_user(&mut store, "owner");
    let other = setup_user(&mut store, "other");
    create_article(&mut store, "pub", "open", "text", ArticleVisibility::Public, &owner, 1)
        .unwrap();
    create_article(&mut store, "priv", "secret", "text", ArticleVisibility::Private, &owner, 2)
        .unwrap();
    let hits = vec![
        (2u32, "x<<%%>>hit<<%%>>y".to_string()),
        (1, "a<<%%>>b<<%%>>c".to_string()),
        (9, "gone".to_string()),
    ];
    // The other user sees only the public article's hit.
    let r = query_articles_by_search_params(&store, &Some(other), &hits);
    assert_eq!(r.articles.len(), 1);
    assert_eq!(r.articles[0].info.id, 1);
    assert_eq!(r.articles[0].info.name, "open");
    assert_eq!(r.articles[0].text.len(), 3);
    assert!(matches!(&r.articles[0].text[1], SearchResultFragment::Highlight(h) if h == "b"));
    // The owner sees both, in rank order.
    let r = query_articles_by_search_params(&store, &Some(owner), &hits);
    assert_eq!(r.articles.len(), 2);
    assert_eq!(r.articles[0].info.id, 2);
    assert!(matches!(&r.articles[0].text[1], SearchResultFragment::Highlight(h) if h == "hit"));
    // Anonymous callers see public hits only.
    let r = query_articles_by_search_params(&store, &None, &hits);
    assert_eq!(r.articles.len(), 1);
}
