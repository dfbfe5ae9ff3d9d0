use forum_core::store::{
    create_section, create_sub_section, create_thread, delete_thread, find_user, get_messages,
    get_threads, move_subsection, move_thread, query_forum_structure, query_thread,
    query_thread_count, query_thread_messages, query_threads, rename_section, rename_subsection,
    rename_thread, save_message, save_user, update_message, Store,
};
use forum_core::types::{
    CreateThreadMessage, LogicError, MessagesQuery, PostMessage, ThreadQuery, ThreadsQueryType,
    UpdateMessage, User,
};

fn setup_user(store: &mut Store, name: &str) -> User {
    save_user(store, name).unwrap();
    find_user(store, name).unwrap()
}

fn new_thread(store: &mut Store, sub: u32, name: &str, first: &str, user: &User, now: u64) {
    let params = CreateThreadMessage {
        message: first.to_string(),
        thread_name: name.to_string(),
        subsection_id: sub,
    };
    create_thread(store, &params, user, now).unwrap();
}

fn post(store: &mut Store, tid: u32, text: &str, user: &User, now: u64) {
    let params = PostMessage { message: text.to_string(), thread_id: tid };
    save_message(store, &params, user, now).unwrap();
}

#[test]
fn message_ids_are_dense_and_gapless() {
    let mut store = Store::new();
    let alice = setup_user(&mut store, "alice");
    create_section(&mut store, &"general".to_string()).unwrap();
    create_sub_section(&mut store, 1, &"chat".to_string()).unwrap();
    new_thread(&mut store, 1, "hello", "first", &alice, 10);
    post(&mut store, 1, "second", &alice, 20);
    post(&mut store, 1, "third", &alice, 30);
    post(&mut store, 1, "fourth", &alice, 40);
    let msgs = query_thread_messages(&store, 1, 1);
    assert_eq!(msgs.len(), 4);
    for (k, m) in msgs.iter().enumerate() {
        assert_eq!(m.id as usize, k + 1);
        assert_eq!(m.thread_id, 1);
    }
    let t = query_thread(&store, 1).unwrap();
    assert_eq!(t.total_messages, 4);
    assert_eq!(t.last_message_id, 4);
    assert_eq!(t.last_message_date_time, 40);
}

#[test]
fn posting_to_missing_thread_fails() {
    let mut store = Store::new();
    let alice = setup_user(&mut store, "alice");
    let params = PostMessage { message: "hi".to_string(), thread_id: 9 };
    let r = save_message(&mut store, &params, &alice, 5);
    assert!(matches!(r, Err(LogicError::ThreadNotFound)));
}

#[test]
fn message_ids_stay_per_thread() {
    let mut store = Store::new();
    let alice = setup_user(&mut store, "alice");
    new_thread(&mut store, 1, "one", "a", &alice, 1);
    new_thread(&mut store, 1, "two", "b", &alice, 2);
    post(&mut store, 2, "c", &alice, 3);
    // Each thread numbers its own messages from 1.
    let m1 = query_thread_messages(&store, 1, 1);
    let m2 = query_thread_messages(&store, 2, 1);
    assert_eq!(m1.len(), 1);
    assert_eq!(m1[0].id, 1);
    assert_eq!(m2.len(), 2);
    assert_eq!(m2[0].id, 1);
    assert_eq!(m2[1].id, 2);
}

#[test]
fn message_pagination_window() {
    let mut store = Store::new();
    let alice = setup_user(&mut store, "alice");
    new_thread(&mut store, 1, "long", "m1", &alice, 1);
    for k in 2..=60u64 {
        post(&mut store, 1, "more", &alice, k);
    }
    let page1 = query_thread_messages(&store, 1, 1);
    let page2 = query_thread_messages(&store, 1, 2);
    let page3 = query_thread_messages(&store, 1, 3);
    assert_eq!(page1.len(), 50);
    assert_eq!(page1[0].id, 1);
    assert_eq!(page1[49].id, 50);
    assert_eq!(page2.len(), 10);
    assert_eq!(page2[0].id, 51);
    assert_eq!(page2[9].id, 60);
    assert_eq!(page3.len(), 0);
}

#[test]
fn thread_listing_most_recent_first() {
    let mut store = Store::new();
    let alice = setup_user(&mut store, "alice");
    create_section(&mut store, &"s".to_string()).unwrap();
    create_sub_section(&mut store, 1, &"ss".to_string()).unwrap();
    new_thread(&mut store, 1, "older", "a", &alice, 10);
    new_thread(&mut store, 1, "newer", "b", &alice, 20);
    let q = ThreadQuery { query_type: ThreadsQueryType::All, id: None, page: 1 };
    let threads = query_threads(&store, &q);
    assert_eq!(threads.len(), 2);
    assert_eq!(threads[0].name, "newer");
    assert_eq!(threads[1].name, "older");
    assert_eq!(query_thread_count(&store, &q), 2);
    // A new post bumps the older thread to the top.
    post(&mut store, 1, "bump", &alice, 30);
    let threads = query_threads(&store, &q);
    assert_eq!(threads[0].name, "older");
    assert_eq!(threads[0].last_message_date_time, 30);
}

#[test]
fn deleted_threads_leave_listings_but_not_direct_reads() {
    let mut store = Store::new();
    let alice = setup_user(&mut store, "alice");
    new_thread(&mut store, 1, "t", "a", &alice, 1);
    delete_thread(&mut store, 1);
    let q = ThreadQuery { query_type: ThreadsQueryType::All, id: None, page: 1 };
    assert_eq!(query_threads(&store, &q).len(), 0);
    assert_eq!(query_thread_count(&store, &q), 0);
    // A direct read still serves the soft-deleted thread.
    assert!(query_thread(&store, 1).is_some());
    // Deleting again, or deleting a missing id, is a no-op.
    delete_thread(&mut store, 1);
    delete_thread(&mut store, 77);
}

#[test]
fn section_filters() {
    let mut store = Store::new();
    let alice = setup_user(&mut store, "alice");
    create_section(&mut store, &"s1".to_string()).unwrap();
    create_section(&mut store, &"s2".to_string()).unwrap();
    create_sub_section(&mut store, 1, &"ss1".to_string()).unwrap();
    create_sub_section(&mut store, 2, &"ss2".to_string()).unwrap();
    new_thread(&mut store, 1, "in one", "a", &alice, 1);
    new_thread(&mut store, 2, "in two", "b", &alice, 2);
    let by_section =
        ThreadQuery { query_type: ThreadsQueryType::Section, id: Some(1), page: 1 };
    let threads = query_threads(&store, &by_section);
    assert_eq!(threads.len(), 1);
    assert_eq!(threads[0].name, "in one");
    assert_eq!(query_thread_count(&store, &by_section), 1);
    let by_sub = ThreadQuery { query_type: ThreadsQueryType::SubSection, id: Some(2), page: 1 };
    let threads = query_threads(&store, &by_sub);
    assert_eq!(threads.len(), 1);
    assert_eq!(threads[0].name, "in two");
}

#[test]
fn update_message_checks_author() {
    let mut store = Store::new();
    let alice = setup_user(&mut store, "alice");
    let bob = setup_user(&mut store, "bob");
    new_thread(&mut store, 1, "t", "original", &alice, 1);
    let edit = UpdateMessage { message: "edited".to_string(), message_id: 1, thread_id: 1 };
    // A different author is refused — after the content update already ran,
    // as the two underlying statements are separate.
    let r = update_message(&mut store, &edit, &bob, 9);
    assert!(matches!(r, Err(LogicError::MessageNotFound)));
    let msgs = query_thread_messages(&store, 1, 1);
    assert_eq!(msgs[0].content, "edited");
    assert_eq!(msgs[0].update_time, 1);
    // The owner succeeds and the update time moves.
    let edit2 = UpdateMessage { message: "fixed".to_string(), message_id: 1, thread_id: 1 };
    update_message(&mut store, &edit2, &alice, 9).unwrap();
    let msgs = query_thread_messages(&store, 1, 1);
    assert_eq!(msgs[0].content, "fixed");
    assert_eq!(msgs[0].update_time, 9);
    // A missing message is refused without touching anything.
    let edit3 = UpdateMessage { message: "x".to_string(), message_id: 5, thread_id: 1 };
    assert!(matches!(update_message(&mut store, &edit3, &alice, 10), Err(
        LogicError::MessageNotFound
    )));
}

#[test]
fn forum_structure_hides_deleted() {
    let mut store = Store::new();
    create_section(&mut store, &"alive".to_string()).unwrap();
    create_section(&mut store, &"dead".to_string()).unwrap();
    create_sub_section(&mut store, 1, &"sub alive".to_string()).unwrap();
    create_sub_section(&mut store, 2, &"sub of dead".to_string()).unwrap();
    // Soft-delete section 2 directly in the model.
    store.sections[1].deleted = true;
    let fs = query_forum_structure(&store);
    assert_eq!(fs.sections.len(), 1);
    assert_eq!(fs.sections[0].name, "alive");
    // A subsection of a deleted section is hidden with it.
    assert_eq!(fs.subsections.len(), 1);
    assert_eq!(fs.subsections[0].name, "sub alive");
    assert_eq!(fs.threads_per_page, 50);
    assert_eq!(fs.messages_per_page, 50);
}

#[test]
fn renames_and_moves() {
    let mut store = Store::new();
    let alice = setup_user(&mut store, "alice");
    create_section(&mut store, &"s".to_string()).unwrap();
    create_sub_section(&mut store, 1, &"ss".to_string()).unwrap();
    new_thread(&mut store, 1, "t", "a", &alice, 1);
    rename_section(&mut store, 1, &"s2".to_string()).unwrap();
    rename_subsection(&mut store, 1, &"ss2".to_string()).unwrap();
    rename_thread(&mut store, 1, &"t2".to_string()).unwrap();
    move_thread(&mut store, 1, 2).unwrap();
    move_subsection(&mut store, 1, 2).unwrap();
    assert_eq!(query_thread(&store, 1).unwrap().name, "t2");
    assert_eq!(query_thread(&store, 1).unwrap().sub_section_id, 2);
    // Strict operations report the specific missing row.
    assert!(matches!(rename_section(&mut store, 9, &"x".to_string()), Err(
        LogicError::SectionNotFound
    )));
    assert!(matches!(rename_subsection(&mut store, 9, &"x".to_string()), Err(
        LogicError::SubsectionNotFound
    )));
    assert!(matches!(rename_thread(&mut store, 9, &"x".to_string()), Err(
        LogicError::ThreadNotFound
    )));
    assert!(matches!(move_thread(&mut store, 9, 1), Err(LogicError::ThreadNotFound)));
    assert!(matches!(move_subsection(&mut store, 9, 1), Err(LogicError::SubsectionNotFound)));
}

#[test]
fn duplicate_user_name_is_refused() {
    let mut store = Store::new();
    save_user(&mut store, "alice").unwrap();
    assert!(matches!(save_user(&mut store, "alice"), Err(LogicError::CreateError)));
    assert!(find_user(&store, "alice").is_some());
    assert!(find_user(&store, "bob").is_none());
}

#[test]
fn combined_listing_results() {
    let mut store = Store::new();
    let alice = setup_user(&mut store, "alice");
    new_thread(&mut store, 1, "t", "a", &alice, 1);
    post(&mut store, 1, "b", &alice, 2);
    let q = ThreadQuery { query_type: ThreadsQueryType::All, id: None, page: 1 };
    let page = get_threads(&store, &q);
    assert_eq!(page.count, 1);
    assert_eq!(page.threads.len(), 1);
    let msgs = get_messages(&store, &MessagesQuery { thread_id: 1, page: 1 }).unwrap();
    assert_eq!(msgs.thread.id, 1);
    assert_eq!(msgs.messages.len(), 2);
    assert!(get_messages(&store, &MessagesQuery { thread_id: 5, page: 1 }).is_none());
}
