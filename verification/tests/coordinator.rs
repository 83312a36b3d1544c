use chat_core::db_model::{doc_to_message, message_to_doc, private_message_record};
use chat_core::errors::MyError;
use chat_core::identity::{handle_user, mark_offline, user_exists_response};
use chat_core::model::{GeneralRequest, Message, PrivateMessageReq, User};
use chat_core::socket_state::SocketState;

fn req(sender: &str, room: &str, message: &str) -> GeneralRequest {
    GeneralRequest {
        sender: sender.to_string(),
        room: room.to_string(),
        message: message.to_string(),
    }
}

#[test]
fn connect_assigns_one_unique_name() {
    let mut state = SocketState::new();
    let name1 = state.on_connect(&"s1".to_string()).expect("a name for s1");
    let name2 = state.on_connect(&"s2".to_string()).expect("a name for s2");
    assert!(!name1.is_empty());
    assert_ne!(name1, name2);
    let names = state.registry.list();
    assert_eq!(names.len(), 2);
    assert_eq!(names.iter().filter(|n| **n == name1).count(), 1);
    assert_eq!(
        state.registry.lookup(&"s1".to_string()),
        Some(name1.clone())
    );
    assert_eq!(state.registry.lookup(&"s3".to_string()), None);
}

#[test]
fn connect_puts_connection_in_identity_room() {
    let mut state = SocketState::new();
    let conn = "s1".to_string();
    let name = state.on_connect(&conn).expect("a name");
    let members = state.rooms.members_of(&name);
    assert_eq!(members, vec![conn]);
}

#[test]
fn join_leaves_every_room_but_the_identity_room() {
    let mut state = SocketState::new();
    let conn = "s1".to_string();
    let name = state.on_connect(&conn).expect("a name");
    let join1 = GeneralRequest {
        sender: name.clone(),
        room: "lobby".to_string(),
        message: String::new(),
    };
    state.handle_join_room(&conn, &join1, None).expect("join lobby");
    assert_eq!(state.rooms.members_of(&"lobby".to_string()), vec![conn.clone()]);
    assert_eq!(state.rooms.members_of(&name), vec![conn.clone()]);

    let join2 = GeneralRequest {
        sender: name.clone(),
        room: "garden".to_string(),
        message: String::new(),
    };
    state.handle_join_room(&conn, &join2, None).expect("join garden");
    assert_eq!(state.rooms.members_of(&"garden".to_string()), vec![conn.clone()]);
    assert!(state.rooms.members_of(&"lobby".to_string()).is_empty());
    assert_eq!(state.rooms.members_of(&name), vec![conn.clone()]);
}

#[test]
fn joining_twice_leaves_membership_unchanged() {
    let mut state = SocketState::new();
    let conn = "s1".to_string();
    let name = state.on_connect(&conn).expect("a name");
    let join = GeneralRequest {
        sender: name.clone(),
        room: "lobby".to_string(),
        message: String::new(),
    };
    state.handle_join_room(&conn, &join, None).expect("first join");
    let before = state.rooms.entries.clone();
    state.handle_join_room(&conn, &join, None).expect("second join");
    assert_eq!(state.rooms.entries, before);
}

#[test]
fn join_before_connect_is_rejected() {
    let mut state = SocketState::new();
    let join = req("nobody", "lobby", "");
    let r = state.handle_join_room(&"ghost".to_string(), &join, None);
    assert_eq!(r.unwrap_err(), MyError::NotFound);
}

#[test]
fn two_appends_read_back_oldest_first() {
    let mut state = SocketState::new();
    let room = "lobby".to_string();
    let m1 = Message {
        sender: "a".to_string(),
        room: room.clone(),
        message: "first".to_string(),
        date_time: 1,
    };
    let m2 = Message {
        sender: "b".to_string(),
        room: room.clone(),
        message: "second".to_string(),
        date_time: 2,
    };
    state.insert(&room, m1);
    state.insert(&room, m2);
    let out = state.get_messages(&room, None);
    assert_eq!(out.len(), 2);
    assert_eq!(out[0].message, "first");
    assert_eq!(out[1].message, "second");
}

#[test]
fn cache_drops_the_oldest_past_the_cap() {
    let mut state = SocketState::new();
    let room = "busy".to_string();
    for i in 0..25 {
        state.insert(
            &room,
            Message {
                sender: "a".to_string(),
                room: room.clone(),
                message: format!("m{}", i),
                date_time: i,
            },
        );
    }
    let out = state.get_messages(&room, None);
    assert_eq!(out.len(), 20);
    assert_eq!(out[0].message, "m5");
    assert_eq!(out[19].message, "m24");
}

#[test]
fn persisted_message_survives_a_cache_restart() {
    let mut state = SocketState::new();
    let room = "lobby".to_string();
    let m = Message {
        sender: "alice".to_string(),
        room: room.clone(),
        message: "hi".to_string(),
        date_time: 7,
    };
    state.insert(&room, m.duplicate());
    // The write-through: the store now holds the row.
    let stored = message_to_doc(&m, 8);
    // The process restarts: a fresh state has an empty cache, but the
    // store still answers with its rows, newest first.
    let restarted = SocketState::new();
    let rows = vec![doc_to_message(&stored)];
    let out = restarted.get_messages(&room, Some(rows));
    assert_eq!(out.len(), 1);
    assert_eq!(out[0].sender, "alice");
    assert_eq!(out[0].message, "hi");
    assert_eq!(out[0].date_time, 7);
}

#[test]
fn store_rows_win_over_the_cache() {
    let mut state = SocketState::new();
    let room = "lobby".to_string();
    state.insert(
        &room,
        Message {
            sender: "a".to_string(),
            room: room.clone(),
            message: "cached".to_string(),
            date_time: 1,
        },
    );
    // Newest first, as the store sorts them.
    let rows = vec![
        Message {
            sender: "b".to_string(),
            room: room.clone(),
            message: "newer".to_string(),
            date_time: 3,
        },
        Message {
            sender: "b".to_string(),
            room: room.clone(),
            message: "older".to_string(),
            date_time: 2,
        },
    ];
    let out = state.get_messages(&room, Some(rows));
    assert_eq!(out.len(), 2);
    assert_eq!(out[0].message, "older");
    assert_eq!(out[1].message, "newer");
}

#[test]
fn empty_store_answer_falls_back_to_the_cache() {
    let mut state = SocketState::new();
    let room = "lobby".to_string();
    state.insert(
        &room,
        Message {
            sender: "a".to_string(),
            room: room.clone(),
            message: "cached".to_string(),
            date_time: 1,
        },
    );
    let out = state.get_messages(&room, Some(Vec::new()));
    assert_eq!(out.len(), 1);
    assert_eq!(out[0].message, "cached");
    let empty = state.get_messages(&"nowhere".to_string(), None);
    assert!(empty.is_empty());
}

#[test]
fn rebinding_keeps_the_previous_generated_name() {
    let first = handle_user(
        None,
        &User {
            username: "alice".to_string(),
            generated_username: "g1".to_string(),
        },
        100,
    );
    assert_eq!(first.owned_uname, "alice");
    assert_eq!(first.cur_gen_uname, "g1");
    assert_eq!(first.last_username, "");
    assert!(first.online);
    assert_eq!(first.created_at, 100);
    assert_eq!(first.updated_at, 100);

    let second = handle_user(
        Some(&first),
        &User {
            username: "alice".to_string(),
            generated_username: "g2".to_string(),
        },
        200,
    );
    assert_eq!(second.owned_uname, "alice");
    assert_eq!(second.cur_gen_uname, "g2");
    assert_eq!(second.last_username, "g1");
    assert!(second.online);
    assert_eq!(second.created_at, 100);
    assert_eq!(second.updated_at, 200);
}

#[test]
fn connect_bind_join_send_and_a_second_reader_sees_the_message() {
    let mut state = SocketState::new();
    let conn = "c1".to_string();
    let name = state.on_connect(&conn).expect("a name");
    let user = User {
        username: "alice".to_string(),
        generated_username: name.clone(),
    };
    let (record, resp) = state.handle_user(&conn, &user, None);
    assert_eq!(record.owned_uname, "alice");
    assert_eq!(record.cur_gen_uname, name);
    assert!(record.online);
    assert_eq!(resp.owned_uname, "alice");

    let join = GeneralRequest {
        sender: "alice".to_string(),
        room: "lobby".to_string(),
        message: String::new(),
    };
    state.handle_join_room(&conn, &join, None).expect("join lobby");

    let (message, response) = state.handle_message(&req("alice", "lobby", "hi"));
    assert_eq!(message.sender, "alice");
    assert_eq!(message.room, "lobby");
    assert_eq!(message.message, "hi");
    assert_eq!(response.date_time, message.date_time);

    let conn2 = "c2".to_string();
    let name2 = state.on_connect(&conn2).expect("a second name");
    let join2 = GeneralRequest {
        sender: name2.clone(),
        room: "lobby".to_string(),
        message: String::new(),
    };
    let history = state
        .handle_join_room(&conn2, &join2, None)
        .expect("join lobby")
        .messages;
    assert_eq!(history.len(), 1);
    assert_eq!(history[0].sender, "alice");
    assert_eq!(history[0].room, "lobby");
    assert_eq!(history[0].message, "hi");
}

#[test]
fn private_relay_without_a_receiver_is_stored_and_dropped() {
    let mut state = SocketState::new();
    let conn = "c1".to_string();
    state.on_connect(&conn).expect("a name");
    let request = PrivateMessageReq {
        sender: Some("alice".to_string()),
        message: "psst".to_string(),
        receiver: "bob".to_string(),
    };
    let (filled, targets) = state.handle_private(&conn, &request).expect("relay decision");
    // Nobody occupies the room "bob": no real-time delivery.
    assert!(targets.is_empty());
    // The message is persisted all the same.
    let record = private_message_record(&filled, 42);
    assert_eq!(record.sender, "alice");
    assert_eq!(record.receiver, "bob");
    assert_eq!(record.message, "psst");
    assert_eq!(record.created_at, 42);
    let delivered = state.insert_private_messages(Ok(record));
    assert_eq!(delivered.sender, "alice");
    assert_eq!(delivered.receiver, "bob");
    assert_eq!(delivered.message, "psst");
    assert_eq!(delivered.date_time, 42);
}

#[test]
fn private_sender_defaults_to_the_display_name() {
    let mut state = SocketState::new();
    let conn = "c1".to_string();
    let name = state.on_connect(&conn).expect("a name");
    let request = PrivateMessageReq {
        sender: None,
        message: "psst".to_string(),
        receiver: "bob".to_string(),
    };
    let (filled, _) = state.handle_private(&conn, &request).expect("relay decision");
    assert_eq!(filled.sender, Some(name));
}

#[test]
fn anonymous_private_from_unknown_connection_is_rejected() {
    let state = SocketState::new();
    let request = PrivateMessageReq {
        sender: None,
        message: "psst".to_string(),
        receiver: "bob".to_string(),
    };
    let r = state.handle_private(&"ghost".to_string(), &request);
    assert_eq!(r.unwrap_err(), MyError::NotFound);
}

#[test]
fn failed_private_persist_yields_the_sentinel() {
    let state = SocketState::new();
    let delivered = state.insert_private_messages(Err(MyError::StoreUnavailable));
    assert_eq!(delivered.sender, "");
    assert_eq!(delivered.receiver, "");
    assert_eq!(delivered.message, "Error: Message not sent!");
}

#[test]
fn store_failure_on_insert_still_reads_from_cache() {
    let mut state = SocketState::new();
    let (message, _) = state.handle_message(&req("alice", "lobby", "hi"));
    // The write-through to the store fails; the in-memory append stands,
    // and a read with no store rows reflects it.
    let out = state.get_messages(&"lobby".to_string(), None);
    assert_eq!(out.len(), 1);
    assert_eq!(out[0].message, "hi");
    assert_eq!(out[0].date_time, message.date_time);
}

#[test]
fn disconnect_clears_registry_and_membership() {
    let mut state = SocketState::new();
    let conn = "c1".to_string();
    let name = state.on_connect(&conn).expect("a name");
    let join = GeneralRequest {
        sender: name.clone(),
        room: "lobby".to_string(),
        message: String::new(),
    };
    state.handle_join_room(&conn, &join, None).expect("join lobby");

    let removed = state.remove_socket(&conn);
    assert_eq!(removed, Some(name.clone()));
    assert!(!state.registry.contains_conn(&conn));
    assert!(state.rooms.members_of(&"lobby".to_string()).is_empty());
    assert!(state.rooms.members_of(&name).is_empty());
    assert_eq!(state.remove_socket(&conn), None);
}

#[test]
fn leave_all_expect_one_keeps_only_that_room() {
    let mut state = SocketState::new();
    let conn = "c1".to_string();
    let name = state.on_connect(&conn).expect("a name");
    let user = User {
        username: "alice".to_string(),
        generated_username: name.clone(),
    };
    state.handle_user(&conn, &user, None);
    assert_eq!(state.rooms.members_of(&name), vec![conn.clone()]);
    assert_eq!(state.rooms.members_of(&"alice".to_string()), vec![conn.clone()]);

    state.leave_all_expect_one(&conn, &"alice".to_string());
    assert!(state.rooms.members_of(&name).is_empty());
    assert_eq!(state.rooms.members_of(&"alice".to_string()), vec![conn.clone()]);
}

#[test]
fn mark_offline_only_flips_the_flag_and_timestamp() {
    let rec = handle_user(
        None,
        &User {
            username: "alice".to_string(),
            generated_username: "g1".to_string(),
        },
        100,
    );
    let off = mark_offline(&rec, 300);
    assert_eq!(off.owned_uname, "alice");
    assert_eq!(off.cur_gen_uname, "g1");
    assert_eq!(off.last_username, "");
    assert!(!off.online);
    assert_eq!(off.created_at, 100);
    assert_eq!(off.updated_at, 300);
}

#[test]
fn existence_check_reports_the_stored_binding() {
    let user = User {
        username: "alice".to_string(),
        generated_username: "g1".to_string(),
    };
    let found = user_exists_response(Some(&user));
    assert!(found.exists);
    assert_eq!(found.username, "alice");
    assert_eq!(found.generated_username, "g1");

    let missing = user_exists_response(None);
    assert!(!missing.exists);
    assert_eq!(missing.username, "");
    assert_eq!(missing.generated_username, "");
}

#[test]
fn message_and_doc_convert_both_ways() {
    let m = Message {
        sender: "alice".to_string(),
        room: "lobby".to_string(),
        message: "hi".to_string(),
        date_time: 7,
    };
    let doc = message_to_doc(&m, 9);
    assert_eq!(doc.sender, "alice");
    assert_eq!(doc.room, "lobby");
    assert_eq!(doc.message, "hi");
    assert_eq!(doc.created_at, 7);
    assert_eq!(doc.updated_at, 9);
    let back = doc_to_message(&doc);
    assert_eq!(back.sender, m.sender);
    assert_eq!(back.room, m.room);
    assert_eq!(back.message, m.message);
    assert_eq!(back.date_time, m.date_time);
}

#[test]
fn errors_describe_themselves() {
    assert_eq!(MyError::NotFound.describe(), "not found");
    assert_eq!(MyError::StoreUnavailable.describe(), "store unavailable");
    assert_eq!(MyError::ValidationFailure.describe(), "validation failure");
}
