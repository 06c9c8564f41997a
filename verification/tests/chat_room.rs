use rust_chat::server::MyChatRoom;

use tokio::sync::mpsc::UnboundedReceiver;

/// Reads everything currently queued on `rx`, dropping the empty-string
/// liveness probes that a consumer must filter from user-visible output.
fn drain(rx: &mut UnboundedReceiver<String>) -> Vec<String> {
    let mut out = Vec::new();
    while let Ok(msg) = rx.try_recv() {
        if !msg.is_empty() {
            out.push(msg);
        }
    }
    out
}

#[test]
fn end_to_end_scenario() {
    let mut room = MyChatRoom::new();
    assert!(room.login("alice"));
    assert!(!room.login("alice"));
    let mut rx = room.get_message_stream("alice", 0);
    assert_eq!(drain(&mut rx), vec![String::from("alice logged on!")]);
    assert!(room.send_message("alice", "hi"));
    assert_eq!(drain(&mut rx), vec![String::from("alice: hi")]);
    assert!(!room.send_message("bob", "yo"));
    assert_eq!(drain(&mut rx), Vec::<String>::new());
    let mut replay = room.get_message_stream("alice", 0);
    assert_eq!(
        drain(&mut replay),
        vec![String::from("alice logged on!"), String::from("alice: hi")]
    );
}

#[test]
fn relogin_rejected_until_eviction() {
    let mut room = MyChatRoom::new();
    assert!(room.login("bob"));
    assert!(!room.login("bob"));
    let rx = room.get_message_stream("bob", 0);
    drop(rx);
    assert!(!room.login("bob"));
    room.heartbeat_sweep();
    assert!(room.login("bob"));
}

#[test]
fn unregistered_sender_is_rejected_without_side_effect() {
    let mut room = MyChatRoom::new();
    assert!(!room.send_message("nobody", "hi"));
    let mut rx = room.get_message_stream("watcher", 0);
    assert_eq!(drain(&mut rx), Vec::<String>::new());
}

#[test]
fn eviction_appends_exactly_one_logout_notice() {
    let mut room = MyChatRoom::new();
    assert!(room.login("alice"));
    assert!(room.login("bob"));
    let rx_alice = room.get_message_stream("alice", 0);
    let mut rx_bob = room.get_message_stream("bob", 0);
    assert_eq!(
        drain(&mut rx_bob),
        vec![
            String::from("alice logged on!"),
            String::from("bob logged on!")
        ]
    );
    drop(rx_alice);
    room.heartbeat_sweep();
    assert_eq!(drain(&mut rx_bob), vec![String::from("alice logged out!")]);
    // a second sweep finds no dead channel and appends nothing
    room.heartbeat_sweep();
    assert_eq!(drain(&mut rx_bob), Vec::<String>::new());
    // the whole log holds the one logout notice
    let mut replay = room.get_message_stream("bob", 0);
    assert_eq!(
        drain(&mut replay),
        vec![
            String::from("alice logged on!"),
            String::from("bob logged on!"),
            String::from("alice logged out!")
        ]
    );
}

#[test]
fn probe_is_an_empty_message_on_live_channels() {
    let mut room = MyChatRoom::new();
    assert!(room.login("alice"));
    let mut rx = room.get_message_stream("alice", 0);
    assert_eq!(rx.try_recv().unwrap(), "alice logged on!");
    room.heartbeat_sweep();
    assert_eq!(rx.try_recv().unwrap(), "");
    assert!(rx.try_recv().is_err());
}

#[test]
fn registered_but_offline_user_may_still_post() {
    let mut room = MyChatRoom::new();
    assert!(room.login("carol"));
    let rx = room.get_message_stream("carol", 0);
    drop(rx);
    room.heartbeat_sweep();
    // carol is offline now, yet still registered
    assert!(room.send_message("carol", "still here"));
    let mut replay = room.get_message_stream("carol", 0);
    assert_eq!(
        drain(&mut replay),
        vec![
            String::from("carol logged on!"),
            String::from("carol logged out!"),
            String::from("carol: still here")
        ]
    );
}

#[test]
fn replay_starts_at_the_cursor() {
    let mut room = MyChatRoom::new();
    assert!(room.login("alice"));
    assert!(room.send_message("alice", "one"));
    assert!(room.send_message("alice", "two"));
    let mut from_two = room.get_message_stream("alice", 2);
    assert_eq!(drain(&mut from_two), vec![String::from("alice: two")]);
    let mut from_everything = room.get_message_stream("alice", 0);
    assert_eq!(
        drain(&mut from_everything),
        vec![
            String::from("alice logged on!"),
            String::from("alice: one"),
            String::from("alice: two")
        ]
    );
    let mut past_end = room.get_message_stream("alice", 99);
    assert_eq!(drain(&mut past_end), Vec::<String>::new());
}

#[test]
fn broadcasts_arrive_in_append_order() {
    let mut room = MyChatRoom::new();
    assert!(room.login("alice"));
    assert!(room.login("bob"));
    let mut rx = room.get_message_stream("alice", 0);
    assert!(room.send_message("alice", "first"));
    assert!(room.send_message("bob", "second"));
    assert!(room.send_message("alice", "third"));
    assert_eq!(
        drain(&mut rx),
        vec![
            String::from("alice logged on!"),
            String::from("bob logged on!"),
            String::from("alice: first"),
            String::from("bob: second"),
            String::from("alice: third")
        ]
    );
}
