use tamawiki::document::{Document, DocumentParticipant, Edit, Event, Insert, Join, Leave, Operation, Participants};
use tamawiki::session::connection::{frame_action, ConnectionError, Frame, FrameAction};
use tamawiki::session::message::{
    ClientEditMessage, ConnectedMessage, EditMessage, JoinMessage, LeaveMessage, MessageStreamError, ServerMessage,
};
use tamawiki::session::manager::DocumentSessionManager;
use tamawiki::session::participant::Participant;
use tamawiki::session::{event_source_id, transform_against, DocumentSession};
use tamawiki::store::memory::MemoryStore;
use tamawiki::store::StoreError;

/// The messages a participant is sent for the events it has not read yet.
fn read(store: &MemoryStore, path: &str, p: &mut Participant) -> Vec<ServerMessage> {
    p.read(&store.since(path, p.seq).unwrap())
}

fn insert(pos: usize, content: &str) -> Vec<Operation> {
    vec![Operation::Insert(Insert { pos, content: String::from(content) })]
}

#[test]
fn connect_via_websocket() {
    let mut store = MemoryStore::from_pages(vec![(String::from("index.html"), String::from("Welcome to TamaWiki.\n"))]);
    let mut session = DocumentSession::new(String::from("index.html"));
    let (id, p) = session.join(&mut store, 0);
    assert_eq!(ServerMessage::Connected(ConnectedMessage { id }), ServerMessage::Connected(ConnectedMessage { id: 1 }));
    assert_eq!(p.get_id(), 1);
    // the page's history and the join are both readable
    assert_eq!(store.seq("index.html"), Ok(4));
    assert_eq!(
        store.content("index.html"),
        Ok((
            4,
            Document {
                content: String::from("Welcome to TamaWiki.\n"),
                participants: Participants::from_entries(vec![(1, DocumentParticipant { cursor_pos: 0 })]),
            }
        ))
    );
}

#[test]
fn websocket_connections_get_different_ids() {
    let mut store = MemoryStore::default();
    let mut index = DocumentSession::new(String::from("index.html"));
    let mut other = DocumentSession::new(String::from("other_page.html"));
    let (id1, _) = index.join(&mut store, 0);
    let (id2, _) = index.join(&mut store, 0);
    // a client of a different page also gets id 1
    let (id3, _) = other.join(&mut store, 0);
    assert_eq!((id1, id2, id3), (1, 2, 1));
}

#[test]
fn websocket_join_and_leave_notifications() {
    let mut store = MemoryStore::default();
    let path = "index.html";
    let mut session = DocumentSession::new(String::from(path));
    let (id1, mut p1) = session.join(&mut store, 0);
    let (id2, mut p2) = session.join(&mut store, 1);
    let (id3, mut p3) = session.join(&mut store, 2);
    assert_eq!((id1, id2, id3), (1, 2, 3));

    let msgs2 = read(&store, path, &mut p2);
    assert_eq!(session.leave(&mut store, id2), 4);
    let msgs3 = read(&store, path, &mut p3);
    assert_eq!(session.leave(&mut store, id3), 5);
    let msgs1 = read(&store, path, &mut p1);

    assert_eq!(
        msgs1,
        vec![
            ServerMessage::Join(JoinMessage { client_seq: 0, seq: 2, id: 2 }),
            ServerMessage::Join(JoinMessage { client_seq: 0, seq: 3, id: 3 }),
            ServerMessage::Leave(LeaveMessage { client_seq: 0, seq: 4, id: 2 }),
            ServerMessage::Leave(LeaveMessage { client_seq: 0, seq: 5, id: 3 }),
        ]
    );
    assert_eq!(msgs2, vec![ServerMessage::Join(JoinMessage { client_seq: 0, seq: 3, id: 3 })]);
    assert_eq!(msgs3, vec![ServerMessage::Leave(LeaveMessage { client_seq: 0, seq: 4, id: 2 })]);
    assert_eq!(
        store.content(path).map(|(_, d)| d),
        Ok(Document {
            content: String::new(),
            participants: Participants::from_entries(vec![(1, DocumentParticipant { cursor_pos: 0 })]),
        })
    );
}

#[test]
fn websocket_connected_join_and_leave_notifications() {
    let mut store = MemoryStore::default();
    let path = "example.html";
    let mut session = DocumentSession::new(String::from(path));
    let (_, mut p1) = session.join(&mut store, 0);
    let (id2, _) = session.join(&mut store, 1);
    session.leave(&mut store, id2);
    assert_eq!(
        read(&store, path, &mut p1),
        vec![
            ServerMessage::Join(JoinMessage { client_seq: 0, seq: 2, id: 2 }),
            ServerMessage::Leave(LeaveMessage { client_seq: 0, seq: 3, id: 2 }),
        ]
    );
    assert!(!p1.has_unread(session.last_seq));
}

#[test]
fn websocket_edits() {
    let mut store = MemoryStore::default();
    let path = "index.html";
    let mut session = DocumentSession::new(String::from(path));
    let (_, mut p1) = session.join(&mut store, 0);
    let (_, mut p2) = session.join(&mut store, 1);
    assert_eq!(read(&store, path, &mut p1), vec![ServerMessage::Join(JoinMessage { client_seq: 0, seq: 2, id: 2 })]);

    // client 1 writes "Hello"
    let e = p1.client_edit(ClientEditMessage { parent_seq: 2, client_seq: 1, operations: insert(0, "Hello") });
    assert_eq!(session.write_transformed(&mut store, p1.id, 2, e), Ok(Some(3)));
    p1.edit_written(1);
    assert_eq!(
        read(&store, path, &mut p2),
        vec![ServerMessage::Edit(EditMessage { client_seq: 0, seq: 3, author: 1, operations: insert(0, "Hello") })]
    );

    // client 1 writes "=" before it
    let e = p1.client_edit(ClientEditMessage { parent_seq: 3, client_seq: 2, operations: insert(0, "=") });
    assert_eq!(session.write_transformed(&mut store, p1.id, 3, e), Ok(Some(4)));
    p1.edit_written(2);
    assert_eq!(
        read(&store, path, &mut p2),
        vec![ServerMessage::Edit(EditMessage { client_seq: 0, seq: 4, author: 1, operations: insert(0, "=") })]
    );

    // client 2 writes ", world" after "Hello", without having seen "="
    let e = p2.client_edit(ClientEditMessage { parent_seq: 3, client_seq: 1, operations: insert(5, ", world") });
    assert_eq!(session.write_transformed(&mut store, p2.id, 3, e), Ok(Some(5)));
    p2.edit_written(1);
    assert_eq!(
        read(&store, path, &mut p1),
        vec![ServerMessage::Edit(EditMessage { client_seq: 2, seq: 5, author: 2, operations: insert(6, ", world") })]
    );
    assert_eq!(store.content(path).map(|(seq, d)| (seq, d.content)), Ok((5, String::from("=Hello, world"))));
}

#[test]
fn websocket_gets_missing_past_updates_on_connect() {
    let mut store = MemoryStore::default();
    let path = "test.html";
    let mut session = DocumentSession::new(String::from(path));
    let (id1, _) = session.join(&mut store, 0);
    session.write(&mut store, Event::Edit(Edit { author: id1, operations: insert(0, "Hello") }));
    // a client that has read up to seq 1 is sent what it missed
    let (_, mut p2) = session.join(&mut store, 1);
    assert_eq!(
        read(&store, path, &mut p2),
        vec![ServerMessage::Edit(EditMessage { client_seq: 0, seq: 2, author: 1, operations: insert(0, "Hello") })]
    );
    assert_eq!(p2.seq, 3);
}

#[test]
fn websocket_edits_and_change_notifications() {
    let mut store = MemoryStore::default();
    let path = "test.html";
    let mut session = DocumentSession::new(String::from(path));
    let (_, mut p1) = session.join(&mut store, 0);
    let (_, mut p2) = session.join(&mut store, 1);
    read(&store, path, &mut p1);
    read(&store, path, &mut p2);
    // concurrent inserts at the same place: the higher id's comes first
    let e1 = p1.client_edit(ClientEditMessage { parent_seq: 2, client_seq: 1, operations: insert(0, "a") });
    let e2 = p2.client_edit(ClientEditMessage { parent_seq: 2, client_seq: 1, operations: insert(0, "b") });
    assert_eq!(session.write_transformed(&mut store, p1.id, 2, e1), Ok(Some(3)));
    assert_eq!(session.write_transformed(&mut store, p2.id, 2, e2), Ok(Some(4)));
    assert_eq!(store.content(path).map(|(_, d)| d.content), Ok(String::from("ba")));
    assert!(p1.has_unread(session.last_seq));
}

#[test]
fn write_transformed_errors() {
    let mut store = MemoryStore::default();
    let mut session = DocumentSession::new(String::from("none.html"));
    let e = Event::Edit(Edit { author: 1, operations: insert(0, "x") });
    assert_eq!(session.write_transformed(&mut store, 1, 0, e), Err(StoreError::NotFound));
    session.join(&mut store, 0);
    let e = Event::Edit(Edit { author: 1, operations: insert(0, "x") });
    assert_eq!(session.write_transformed(&mut store, 1, 5, e), Err(StoreError::InvalidSequenceId));
    assert_eq!(store.seq("none.html"), Ok(1));
}

#[test]
fn transform_against_skips_own_events() {
    let own = Event::Edit(Edit { author: 1, operations: insert(0, "xyz") });
    let other = Event::Edit(Edit { author: 2, operations: insert(0, "ab") });
    let e = Event::Edit(Edit { author: 1, operations: insert(3, "!") });
    let r = transform_against(e, 1, &vec![(3, own), (4, other)]).unwrap();
    assert_eq!(r, Event::Edit(Edit { author: 1, operations: insert(5, "!") }));
    assert_eq!(event_source_id(&Event::Leave(Leave { id: 9 })), 9);
    assert_eq!(event_source_id(&Event::Join(Join { id: 4 })), 4);
}

#[test]
fn participant_messages() {
    let mut p = Participant::new(3, 0);
    assert!(p.ignored_event(&Event::Join(Join { id: 3 })));
    assert_eq!(p.receive(1, Event::Join(Join { id: 3 })), None);
    assert_eq!(p.seq, 1);
    p.edit_written(7);
    assert_eq!(
        p.prepare_server_message(2, Event::Leave(Leave { id: 4 })),
        ServerMessage::Leave(LeaveMessage { client_seq: 7, seq: 2, id: 4 })
    );
    assert!(p.has_unread(Some(2)));
    assert!(!p.has_unread(Some(1)));
    assert!(!p.has_unread(None));
}

#[test]
fn error_conversions() {
    assert_eq!(
        MessageStreamError::from(StoreError::NotFound),
        MessageStreamError::Transport { error: String::from("NotFound") }
    );
    assert_eq!(
        ConnectionError::not_text(),
        ConnectionError::InvalidMessage { reason: String::from("Not a websocket text message") }
    );
}

#[test]
fn session_manager_hands_out_ids_per_document() {
    let mut store = MemoryStore::default();
    let mut sessions = DocumentSessionManager::new();
    let (id1, _) = sessions.join(&mut store, "index.html", 0).unwrap();
    let (id2, _) = sessions.join(&mut store, "index.html", 0).unwrap();
    let (id3, _) = sessions.join(&mut store, "other_page.html", 0).unwrap();
    assert_eq!((id1, id2, id3), (1, 2, 1));
    assert_eq!(sessions.last_seq("index.html"), Some(2));
    assert_eq!(sessions.last_seq("missing.html"), None);

    // once everybody left, a new session starts from id 1 again
    assert_eq!(sessions.leave(&mut store, "index.html", id1), Some(3));
    assert_eq!(sessions.last_seq("index.html"), Some(3));
    assert_eq!(sessions.leave(&mut store, "index.html", id2), Some(4));
    assert_eq!(sessions.last_seq("index.html"), None);
    let (id4, p4) = sessions.join(&mut store, "index.html", 4).unwrap();
    assert_eq!(id4, 1);
    assert_eq!(p4.seq, 4);
    assert_eq!(store.seq("index.html"), Ok(5));
    assert_eq!(sessions.leave(&mut store, "nobody.html", 1), None);
}

#[test]
fn session_manager_writes_edits() {
    let mut store = MemoryStore::default();
    let mut sessions = DocumentSessionManager::new();
    let e = Event::Edit(Edit { author: 1, operations: insert(0, "x") });
    assert_eq!(sessions.write_transformed(&mut store, "a.html", 1, 0, e), Err(StoreError::NotFound));
    let (id, p) = sessions.join(&mut store, "a.html", 0).unwrap();
    let e = p.client_edit(ClientEditMessage { parent_seq: 1, client_seq: 1, operations: insert(0, "hi") });
    assert_eq!(sessions.write_transformed(&mut store, "a.html", id, 1, e), Ok(Some(2)));
    assert_eq!(sessions.last_seq("a.html"), Some(2));
    assert_eq!(store.content("a.html").map(|(_, d)| d.content), Ok(String::from("hi")));
}

#[test]
fn transformed_edits_keep_history_readable() {
    let mut store = MemoryStore::default();
    let path = "doc.html";
    let mut session = DocumentSession::new(String::from(path));
    let (id1, _) = session.join(&mut store, 0);
    session.write(&mut store, Event::Edit(Edit { author: id1, operations: insert(0, "abcdef") }));
    let (id2, _) = session.join(&mut store, 3);
    // participant 1 deletes "bcde" while participant 2 inserts inside it
    let del = Event::Edit(Edit { author: id1, operations: vec![Operation::Delete(tamawiki::document::Delete { start: 1, end: 5 })] });
    assert_eq!(session.write_transformed(&mut store, id1, 3, del), Ok(Some(4)));
    let ins = Event::Edit(Edit { author: id2, operations: insert(3, "XY") });
    assert_eq!(session.write_transformed(&mut store, id2, 3, ins), Ok(Some(5)));
    for seq in 0..=5 {
        assert!(store.content_at(path, seq).is_ok());
    }
    assert_eq!(store.content(path).map(|(_, d)| d.content), Ok(String::from("aXYf")));
}

#[test]
fn participant_reads_events_in_order_without_its_own() {
    let mut p = Participant::new(2, 0);
    p.edit_written(4);
    let events = vec![
        (1, Event::Join(Join { id: 1 })),
        (2, Event::Join(Join { id: 2 })),
        (3, Event::Edit(Edit { author: 1, operations: insert(0, "a") })),
        (4, Event::Leave(Leave { id: 1 })),
    ];
    assert_eq!(
        p.read(&events),
        vec![
            ServerMessage::Join(JoinMessage { client_seq: 4, seq: 1, id: 1 }),
            ServerMessage::Edit(EditMessage { client_seq: 4, seq: 3, author: 1, operations: insert(0, "a") }),
            ServerMessage::Leave(LeaveMessage { client_seq: 4, seq: 4, id: 1 }),
        ]
    );
    assert_eq!(p.seq, 4);
    assert_eq!(p.read(&vec![]), vec![]);
    assert_eq!(p.seq, 4);
}

#[test]
fn session_ids_follow_the_history_of_joins() {
    let mut store = MemoryStore::default();
    let mut sessions = DocumentSessionManager::new();
    for k in 1..=5 {
        let (id, _) = sessions.join(&mut store, "p.html", 0).unwrap();
        assert_eq!(id, k);
        if k == 3 {
            let (other, _) = sessions.join(&mut store, "q.html", 0).unwrap();
            assert_eq!(other, 1);
            assert_eq!(sessions.leave(&mut store, "q.html", other), Some(2));
        }
    }
}

#[test]
fn session_ids_keep_counting_after_a_leave() {
    let mut store = MemoryStore::default();
    let mut sessions = DocumentSessionManager::new();
    let (first, _) = sessions.join(&mut store, "p.html", 0).unwrap();
    let (second, _) = sessions.join(&mut store, "p.html", 0).unwrap();
    assert_eq!((first, second), (1, 2));
    assert!(sessions.leave(&mut store, "p.html", first).is_some());
    let (third, _) = sessions.join(&mut store, "p.html", 0).unwrap();
    assert_eq!(third, 3);
    let (other, _) = sessions.join(&mut store, "q.html", 0).unwrap();
    assert_eq!(other, 1);
}

#[test]
fn frames_are_read_skipped_or_end_the_connection() {
    assert_eq!(frame_action(Frame::Text(String::from("{}"))), FrameAction::Read(String::from("{}")));
    assert_eq!(frame_action(Frame::Ping), FrameAction::Skip);
    assert_eq!(frame_action(Frame::Pong), FrameAction::Skip);
    assert_eq!(frame_action(Frame::Closed), FrameAction::Stop);
    assert_eq!(
        frame_action(Frame::Binary),
        FrameAction::Fail(ConnectionError::InvalidMessage { reason: String::from("Not a websocket text message") })
    );
    assert_eq!(
        frame_action(Frame::Failed(String::from("reset"))),
        FrameAction::Fail(ConnectionError::Communication { error: String::from("reset") })
    );
}
