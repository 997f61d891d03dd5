use tamawiki::document::{Document, DocumentParticipant, Edit, Event, Insert, Join, Operation, Participants};
use tamawiki::store::memory::MemoryStore;
use tamawiki::store::StoreError;

fn insert(author: usize, pos: usize, content: &str) -> Event {
    Event::Edit(Edit {
        author,
        operations: vec![Operation::Insert(Insert {
            pos,
            content: String::from(content),
        })],
    })
}

fn doc(content: &str, cursor: Option<usize>) -> Document {
    Document {
        content: String::from(content),
        participants: match cursor {
            Some(c) => Participants::from_entries(vec![(1, DocumentParticipant { cursor_pos: c })]),
            None => Participants::new(),
        },
    }
}

#[test]
fn store_memory_store_push() {
    let mut store: MemoryStore = Default::default();
    assert_eq!(store.push(String::from("/foo/bar"), insert(1, 0, "Hello")), 1);
    assert_eq!(store.push(String::from("/asdf"), insert(1, 0, "Hello")), 1);
    assert_eq!(store.push(String::from("/asdf"), insert(1, 5, ", world!")), 2);

    assert_eq!(store.since("/foo/bar", 0), Ok(vec![(1, insert(1, 0, "Hello"))]));
    assert_eq!(
        store.since("/asdf", 0),
        Ok(vec![(1, insert(1, 0, "Hello")), (2, insert(1, 5, ", world!"))])
    );
}

#[test]
fn store_memory_store_since() {
    let mut store: MemoryStore = Default::default();
    let a = insert(1, 0, "Hello");
    let b = insert(1, 5, ", world");
    let c = insert(1, 12, "!");
    store.push(String::from("/foo/bar"), a.clone());
    store.push(String::from("/foo/bar"), b.clone());
    store.push(String::from("/foo/bar"), c.clone());

    assert_eq!(store.since("/foo/bar", 0), Ok(vec![(1, a.clone()), (2, b.clone()), (3, c.clone())]));
    assert_eq!(store.since("/foo/bar", 1), Ok(vec![(2, b.clone()), (3, c.clone())]));
    assert_eq!(store.since("/foo/bar", 2), Ok(vec![(3, c.clone())]));
    // requesting the last sequence number is valid, but gives nothing
    assert_eq!(store.since("/foo/bar", 3), Ok(vec![]));
    // requesting events since a sequence number not in the store is invalid
    assert_eq!(store.since("/foo/bar", 4), Err(StoreError::InvalidSequenceId));
    // requesting events for a missing path is an error
    assert_eq!(store.since("/missing", 0), Err(StoreError::NotFound));
}

#[test]
fn store_memory_store_seq() {
    let mut store: MemoryStore = Default::default();
    store.push(String::from("/foo/bar"), insert(1, 0, "Hello"));
    store.push(String::from("/asdf"), insert(1, 0, "Hello"));
    store.push(String::from("/asdf"), insert(1, 5, ", world!"));

    assert_eq!(store.seq("/foo/bar"), Ok(1));
    assert_eq!(store.seq("/asdf"), Ok(2));
    // requesting a non-existing path is an error
    assert_eq!(store.seq("/not_found"), Err(StoreError::NotFound));
}

#[test]
fn store_memory_store_content() {
    let mut store: MemoryStore = Default::default();
    store.push(String::from("/asdf"), Event::Join(Join { id: 1 }));
    store.push(String::from("/asdf"), insert(1, 0, "Hello"));
    store.push(String::from("/asdf"), insert(1, 5, ", world!"));

    assert_eq!(store.content("/asdf"), Ok((3, doc("Hello, world!", Some(13)))));
    assert_eq!(store.content("/missing"), Err(StoreError::NotFound));
}

#[test]
fn store_memory_store_content_at() {
    let mut store: MemoryStore = Default::default();
    store.push(String::from("/asdf"), Event::Join(Join { id: 1 }));
    store.push(String::from("/asdf"), insert(1, 0, "Hello"));
    store.push(String::from("/asdf"), insert(1, 5, ", world!"));

    assert_eq!(store.content_at("/asdf", 0), Ok(Document::from("")));
    assert_eq!(store.content_at("/asdf", 2), Ok(doc("Hello", Some(5))));
    assert_eq!(store.content_at("/asdf", 3), Ok(doc("Hello, world!", Some(13))));
    // a sequence number higher than the number of events is an error
    assert_eq!(store.content_at("/asdf", 4), Err(StoreError::InvalidSequenceId));
    // requesting a missing document is an error
    assert_eq!(store.content_at("/missing", 0), Err(StoreError::NotFound));
}

#[test]
fn memory_memory_store_push() {
    let mut store = MemoryStore::default();
    assert_eq!(store.push(String::from("/foo/bar"), insert(1, 0, "Hello")), 1);
    assert_eq!(store.push(String::from("/asdf"), insert(1, 0, "Hello")), 1);
    assert_eq!(store.push(String::from("/asdf"), insert(1, 5, ", world")), 2);
}

#[test]
fn memory_memory_store_since() {
    let mut store = MemoryStore::default();
    let a = insert(1, 0, "Hello");
    let b = insert(1, 5, ", world");
    let c = insert(1, 12, "!");
    store.push(String::from("/foo/bar"), a.clone());
    store.push(String::from("/foo/bar"), b.clone());
    store.push(String::from("/foo/bar"), c.clone());

    assert_eq!(store.since("/foo/bar", 0), Ok(vec![(1, a.clone()), (2, b.clone()), (3, c.clone())]));
    assert_eq!(store.since("/foo/bar", 1), Ok(vec![(2, b.clone()), (3, c.clone())]));
    assert_eq!(store.since("/foo/bar", 2), Ok(vec![(3, c.clone())]));
    // requesting the last sequence number is valid, but gives nothing
    assert_eq!(store.since("/foo/bar", 3), Ok(vec![]));
    // requesting events since a sequence id not in the store is invalid
    assert_eq!(store.since("/foo/bar", 4), Err(StoreError::InvalidSequenceId));
}

#[test]
fn memory_memory_store_seq() {
    let mut store = MemoryStore::default();
    store.push(String::from("/foo/bar"), insert(1, 0, "Hello"));
    store.push(String::from("/asdf"), insert(1, 0, "Hello"));
    store.push(String::from("/asdf"), insert(1, 5, ", world"));

    assert_eq!(store.seq("/foo/bar"), Ok(1));
    assert_eq!(store.seq("/asdf"), Ok(2));
    // requesting a non-existing path is an error
    assert_eq!(store.seq("/not_found"), Err(StoreError::NotFound));
}

#[test]
fn memory_memory_store_content() {
    let mut store = MemoryStore::default();
    store.push(String::from("/asdf"), Event::Join(Join { id: 1 }));
    store.push(String::from("/asdf"), insert(1, 0, "Hello"));
    store.push(String::from("/asdf"), insert(1, 5, ", world"));

    assert_eq!(store.content("/asdf"), Ok((3, doc("Hello, world", Some(12)))));
    assert_eq!(store.content("/missing"), Err(StoreError::NotFound));
}

#[test]
fn memory_memory_store_content_at() {
    let mut store = MemoryStore::default();
    store.push(String::from("/asdf"), Event::Join(Join { id: 1 }));
    store.push(String::from("/asdf"), insert(1, 0, "Hello"));
    store.push(String::from("/asdf"), insert(1, 5, ", world"));

    assert_eq!(store.content_at("/asdf", 0), Ok(doc("", None)));
    assert_eq!(store.content_at("/asdf", 1), Ok(doc("", Some(0))));
    assert_eq!(store.content_at("/asdf", 2), Ok(doc("Hello", Some(5))));
    assert_eq!(store.content_at("/asdf", 3), Ok(doc("Hello, world", Some(12))));
    // a sequence number higher than the number of events is an error
    assert_eq!(store.content_at("/asdf", 4), Err(StoreError::InvalidSequenceId));
    // requesting a missing document is an error
    assert_eq!(store.content_at("/missing", 0), Err(StoreError::NotFound));
}

#[test]
fn memory_store_content_of_invalid_history() {
    let mut store = MemoryStore::new();
    // an edit from someone who never joined cannot be applied
    store.push(String::from("/bad"), insert(7, 0, "x"));
    assert_eq!(store.content("/bad"), Err(StoreError::InvalidDocument));
    assert_eq!(store.content_at("/bad", 0), Ok(Document::default()));
    assert_eq!(store.content_at("/bad", 1), Err(StoreError::InvalidDocument));
}

#[test]
fn memory_store_push_keeps_earlier_content() {
    let mut store = MemoryStore::new();
    store.push(String::from("/p"), Event::Join(Join { id: 1 }));
    store.push(String::from("/p"), insert(1, 0, "ab"));
    let before = store.content_at("/p", 2);
    let seq = store.push(String::from("/p"), insert(1, 1, "X"));
    assert_eq!(seq, 3);
    assert_eq!(store.content_at("/p", 2), before);
    // the events since the previous head are exactly the pushed one
    assert_eq!(store.since("/p", 2), Ok(vec![(3, insert(1, 1, "X"))]));
    assert_eq!(store.content("/p"), Ok((3, doc("aXb", Some(2)))));
}

#[test]
fn memory_store_from_pages() {
    let store = MemoryStore::from_pages(vec![
        (String::from("/a"), String::from("Hello")),
        (String::from("/b"), String::from("")),
    ]);
    assert_eq!(store.seq("/a"), Ok(3));
    assert_eq!(store.content("/a"), Ok((3, Document::from("Hello"))));
    assert_eq!(store.content("/b"), Ok((3, Document::from(""))));
    assert_eq!(store.seq("/c"), Err(StoreError::NotFound));
}

#[test]
fn store_error_messages() {
    assert_eq!(StoreError::NotFound.message(), "NotFound");
    assert_eq!(StoreError::InvalidSequenceId.message(), "InvalidSequenceId");
    assert_eq!(StoreError::InvalidDocument.message(), "InvalidDocument");
    assert_eq!(StoreError::ConnectionError.message(), "ConnectionError");
    assert_eq!(StoreError::NotFound.description(), "StoreError: the document path is missing");
}
