use tamawiki::document::{Delete, Document, DocumentParticipant, Edit, Event, Insert, Join, Leave, MoveCursor, Operation, Participants};
use tamawiki::store::memory::MemoryStore;

fn doc_with(content: &str, cursors: Vec<(usize, usize)>) -> Document {
    Document {
        content: String::from(content),
        participants: Participants::from_entries(
            cursors.into_iter().map(|(id, c)| (id, DocumentParticipant { cursor_pos: c })).collect(),
        ),
    }
}

#[test]
fn join_then_leave_restores_the_document() {
    let unchanged = doc_with("hello", vec![(1, 3)]);
    let mut doc = unchanged.clone();
    assert_eq!(doc.apply(&Event::Join(Join { id: 2 })), Ok(()));
    assert_eq!(doc.apply(&Event::Leave(Leave { id: 2 })), Ok(()));
    assert_eq!(doc, unchanged);
}

#[test]
fn concurrent_single_operations_converge() {
    let ops = vec![
        Operation::Insert(Insert { pos: 1, content: String::from("xy") }),
        Operation::Insert(Insert { pos: 3, content: String::from("z") }),
        Operation::Delete(Delete { start: 0, end: 2 }),
        Operation::Delete(Delete { start: 1, end: 4 }),
        Operation::Delete(Delete { start: 3, end: 3 }),
        Operation::MoveCursor(MoveCursor { pos: 2 }),
    ];
    for x in &ops {
        for y in &ops {
            let base = doc_with("abcd", vec![(1, 1), (2, 4)]);
            let a = Event::Edit(Edit { author: 1, operations: vec![x.clone()] });
            let b = Event::Edit(Edit { author: 2, operations: vec![y.clone()] });
            let mut a_after_b = a.clone();
            a_after_b.transform(&b);
            let mut b_after_a = b.clone();
            b_after_a.transform(&a);
            let mut d1 = base.clone();
            d1.apply(&b).unwrap();
            d1.apply(&a_after_b).unwrap();
            let mut d2 = base.clone();
            d2.apply(&a).unwrap();
            d2.apply(&b_after_a).unwrap();
            assert_eq!(d1, d2, "{:?} / {:?}", x, y);
        }
    }
}

#[test]
fn rejected_edit_leaves_document_unchanged() {
    let unchanged = doc_with("abc", vec![(1, 0)]);
    let mut doc = unchanged.clone();
    let bad = Event::Edit(Edit {
        author: 1,
        operations: vec![
            Operation::Insert(Insert { pos: 0, content: String::from("x") }),
            Operation::Delete(Delete { start: 2, end: 1 }),
        ],
    });
    assert!(doc.apply(&bad).is_err());
    assert_eq!(doc, unchanged);
}

#[test]
fn pushed_event_reads_back_and_history_stays() {
    let mut store = MemoryStore::new();
    store.push(String::from("p"), Event::Join(Join { id: 1 }));
    let before = store.content_at("p", 1);
    let e = Event::Edit(Edit { author: 1, operations: vec![Operation::Insert(Insert { pos: 0, content: String::from("q") })] });
    let seq = store.push(String::from("p"), e.clone());
    assert_eq!(store.since("p", seq - 1), Ok(vec![(seq, e)]));
    assert_eq!(store.content_at("p", 1), before);
    assert_eq!(store.content("p"), Ok((2, doc_with("q", vec![(1, 1)]))));
}

#[test]
fn page_reads_back_as_written() {
    let store = MemoryStore::from_pages(vec![(String::from("x"), String::from("Здравствуйте"))]);
    assert_eq!(store.content("x"), Ok((3, Document::from("Здравствуйте"))));
}

/// A small deterministic generator of operations that fit a content of
/// `len` characters.
struct Gen(u64);

impl Gen {
    fn next(&mut self, bound: usize) -> usize {
        self.0 = self.0.wrapping_mul(6364136223846793005).wrapping_add(1442695040888963407);
        ((self.0 >> 33) % (bound as u64 + 1)) as usize
    }

    fn op(&mut self, len: usize) -> (Operation, usize) {
        match self.next(2) {
            0 => {
                let n = 1 + self.next(2);
                (Operation::Insert(Insert { pos: self.next(len), content: "xyz"[..n].to_string() }), len + n)
            }
            1 => {
                let start = self.next(len);
                let end = start + self.next(len - start);
                (Operation::Delete(Delete { start, end }), len - (end - start))
            }
            _ => (Operation::MoveCursor(MoveCursor { pos: self.next(len) }), len),
        }
    }

    fn edit(&mut self, len: usize) -> Vec<Operation> {
        let mut ops = vec![];
        let mut l = len;
        for _ in 0..(1 + self.next(2)) {
            let (op, nl) = self.op(l);
            ops.push(op);
            l = nl;
        }
        ops
    }
}

#[test]
fn concurrent_edits_converge() {
    let mut gen = Gen(7);
    for _ in 0..3000 {
        let len = gen.next(6);
        let content: String = "abcdefgh"[..len].to_string();
        let c1 = gen.next(len);
        let c2 = gen.next(len);
        let base = doc_with(&content, vec![(1, c1), (2, c2)]);
        let a = Event::Edit(Edit { author: 1, operations: gen.edit(len) });
        let b = Event::Edit(Edit { author: 2, operations: gen.edit(len) });
        let mut a_after_b = a.clone();
        a_after_b.transform(&b);
        let mut b_after_a = b.clone();
        b_after_a.transform(&a);
        let mut d1 = base.clone();
        d1.apply(&b).unwrap();
        d1.apply(&a_after_b).unwrap();
        let mut d2 = base.clone();
        d2.apply(&a).unwrap();
        d2.apply(&b_after_a).unwrap();
        assert_eq!(d1, d2, "{:?} / {:?} on {:?}", a, b, base);
    }
}

#[test]
fn concurrent_edits_with_empty_inserts_converge_in_content() {
    let mut gen = Gen(11);
    for _ in 0..2000 {
        let len = gen.next(5);
        let content: String = "abcdefgh"[..len].to_string();
        let base = doc_with(&content, vec![(1, gen.next(len)), (2, gen.next(len))]);
        let mut ops_a = gen.edit(len);
        ops_a.push(Operation::Insert(Insert { pos: 0, content: String::new() }));
        let a = Event::Edit(Edit { author: 1, operations: ops_a });
        let b = Event::Edit(Edit { author: 2, operations: gen.edit(len) });
        let mut a_after_b = a.clone();
        a_after_b.transform(&b);
        let mut b_after_a = b.clone();
        b_after_a.transform(&a);
        let mut d1 = base.clone();
        d1.apply(&b).unwrap();
        d1.apply(&a_after_b).unwrap();
        let mut d2 = base.clone();
        d2.apply(&a).unwrap();
        d2.apply(&b_after_a).unwrap();
        assert_eq!(d1.content, d2.content);
        assert_eq!(d1.participants.entries.len(), d2.participants.entries.len());
    }
}

fn delete_against_insert(start: usize, end: usize, pos: usize, text: &str) -> Vec<Operation> {
    let mut msg = Edit { author: 1, operations: vec![Operation::Delete(Delete { start, end })] };
    msg.transform(&Edit { author: 2, operations: vec![Operation::Insert(Insert { pos, content: String::from(text) })] });
    msg.operations
}

#[test]
fn split_deletes_keep_the_inserted_text() {
    // the part after the insert comes first, then the part before it
    assert_eq!(
        delete_against_insert(2, 4, 2, "cd"),
        vec![Operation::Delete(Delete { start: 4, end: 6 }), Operation::Delete(Delete { start: 2, end: 2 })]
    );
    assert_eq!(
        delete_against_insert(0, 4, 2, "abcd"),
        vec![Operation::Delete(Delete { start: 6, end: 8 }), Operation::Delete(Delete { start: 0, end: 2 })]
    );
    assert_eq!(
        delete_against_insert(0, 17, 5, "12345"),
        vec![Operation::Delete(Delete { start: 10, end: 22 }), Operation::Delete(Delete { start: 0, end: 5 })]
    );
    // an empty delete at the insert position is not split
    assert_eq!(delete_against_insert(3, 3, 3, "x"), vec![Operation::Delete(Delete { start: 3, end: 3 })]);
    let mut doc = doc_with("0123456789abcdefghij", vec![(1, 0), (2, 0)]);
    doc.apply(&Event::Edit(Edit { author: 2, operations: vec![Operation::Insert(Insert { pos: 5, content: String::from("12345") })] })).unwrap();
    doc.apply(&Event::Edit(Edit { author: 1, operations: delete_against_insert(0, 17, 5, "12345") })).unwrap();
    assert_eq!(doc.content, "12345hij");
}
