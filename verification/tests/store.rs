use rust_chat::datastore::DataStore;

#[test]
fn create_user_registers_exactly_once() {
    let mut store = DataStore::new();
    assert!(!store.user_exists("alice"));
    assert!(store.create_user("alice"));
    assert!(store.user_exists("alice"));
    assert!(!store.create_user("alice"));
    assert!(store.user_exists("alice"));
    assert!(!store.user_exists("bob"));
}

#[test]
fn usernames_are_case_sensitive() {
    let mut store = DataStore::new();
    assert!(store.create_user("Alice"));
    assert!(!store.user_exists("alice"));
    assert!(store.create_user("alice"));
    assert!(store.user_exists("Alice"));
    assert!(store.user_exists("alice"));
}

#[test]
fn replay_returns_exact_suffix() {
    let mut store = DataStore::new();
    store.add_message(String::from("first"));
    store.add_message(String::from("second"));
    store.add_message(String::from("third"));
    assert_eq!(
        store.get_messages(0),
        vec![
            String::from("first"),
            String::from("second"),
            String::from("third")
        ]
    );
    assert_eq!(
        store.get_messages(1),
        vec![String::from("second"), String::from("third")]
    );
    assert_eq!(store.get_messages(2), vec![String::from("third")]);
    assert_eq!(store.get_messages(3), Vec::<String>::new());
}

#[test]
fn replay_past_end_is_empty_not_an_error() {
    let mut store = DataStore::new();
    assert_eq!(store.get_messages(0), Vec::<String>::new());
    assert_eq!(store.get_messages(100), Vec::<String>::new());
    store.add_message(String::from("only"));
    assert_eq!(store.get_messages(7), Vec::<String>::new());
}

#[test]
fn appends_keep_log_order() {
    let mut store = DataStore::new();
    store.add_message(String::from("a"));
    let after_a = store.get_messages(0).len();
    store.add_message(String::from("b"));
    let after_b = store.get_messages(0).len();
    assert_eq!(after_a, 1);
    assert_eq!(after_b, 2);
    let log = store.get_messages(0);
    assert_eq!(log[0], "a");
    assert_eq!(log[1], "b");
}
