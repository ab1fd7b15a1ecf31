use intern_string::{Intern, InternId};

#[test]
fn interns_and_handles_lookup() {
    let mut interner = Intern::new();
    let id = interner.intern("hello");
    assert_eq!(interner.lookup(id), "hello");
    assert_eq!(interner.try_lookup(id), Some("hello"));
}

#[test]
fn reallocate() {
    let mut interner = Intern::with_capacity(1);
    let id1 = interner.intern("hello");

    // the second text goes beyond the room that was asked for
    let id2 = interner.intern("world");

    assert_eq!(interner.lookup(id1), "hello");
    assert_eq!(interner.try_lookup(id1), Some("hello"));
    assert_eq!(interner.lookup(id2), "world");
    assert_eq!(interner.try_lookup(id2), Some("world"));
}

#[test]
fn hello_world_hello() {
    let mut interner = Intern::new();
    assert_eq!(interner.intern("hello"), 0);
    assert_eq!(interner.intern("world"), 1);
    assert_eq!(interner.intern("hello"), 0);
    assert_eq!(interner.lookup(0), "hello");
    assert_eq!(interner.lookup(1), "world");
    assert_eq!(interner.try_lookup(2), None);
}

#[test]
fn growth_from_capacity_one_keeps_identifiers() {
    let mut interner = Intern::with_capacity(1);
    assert_eq!(interner.intern("hello"), 0);
    assert_eq!(interner.intern("world"), 1);
    assert_eq!(interner.lookup(0), "hello");
    assert_eq!(interner.lookup(1), "world");
}

#[test]
fn interning_twice_gives_the_same_identifier_and_one_entry() {
    let mut interner = Intern::new();
    let first = interner.intern("again");
    let second = interner.intern("again");
    assert_eq!(first, 0);
    assert_eq!(second, 0);
    // Only one entry was made: the next identifier is not there yet.
    assert_eq!(interner.try_lookup(1), None);
    assert_eq!(interner.intern("other"), 1);
}

#[test]
fn interning_a_known_text_adds_no_entry() {
    let mut interner = Intern::new();
    assert_eq!(interner.intern("a"), 0);
    assert_eq!(interner.intern("b"), 1);
    assert_eq!(interner.intern("a"), 0);
    assert_eq!(interner.intern("a"), 0);
    assert_eq!(interner.intern("b"), 1);
    assert_eq!(interner.try_lookup(2), None);
    assert_eq!(interner.lookup(0), "a");
    assert_eq!(interner.lookup(1), "b");
}

#[test]
fn round_trip_through_both_lookups() {
    let texts = ["", " ", "a", "A", "ab", "ba", "hello world", "naïve", "日本語", "🦀", "a\0b", "line\nbreak"];
    let mut interner = Intern::new();
    for text in texts {
        let id = interner.intern(text);
        assert_eq!(interner.lookup(id), text);
        assert_eq!(interner.try_lookup(id), Some(text));
    }
}

#[test]
fn distinct_texts_get_dense_identifiers() {
    let mut interner = Intern::new();
    for n in 0..1000u32 {
        let text = format!("text-{n}");
        assert_eq!(interner.intern(&text), n);
    }
    assert_eq!(interner.try_lookup(1000), None);
}

#[test]
fn identifiers_follow_first_appearance() {
    let run = ["x", "y", "x", "z", "y", "w", "x"];
    let expected: [InternId; 7] = [0, 1, 0, 2, 1, 3, 0];
    let mut interner = Intern::new();
    for (text, id) in run.iter().zip(expected) {
        assert_eq!(interner.intern(text), id);
    }
    assert_eq!(interner.lookup(0), "x");
    assert_eq!(interner.lookup(1), "y");
    assert_eq!(interner.lookup(2), "z");
    assert_eq!(interner.lookup(3), "w");
    assert_eq!(interner.try_lookup(4), None);
}

#[test]
fn identifiers_survive_growth() {
    let mut interner = Intern::with_capacity(1);
    let early: Vec<InternId> = (0..8).map(|n| interner.intern(&format!("early-{n}"))).collect();
    for n in 0..5000 {
        interner.intern(&format!("late-{n}"));
    }
    for (n, id) in early.iter().enumerate() {
        assert_eq!(*id, n as InternId);
        assert_eq!(interner.lookup(*id), format!("early-{n}"));
        assert_eq!(interner.try_lookup(*id), Some(format!("early-{n}").as_str()));
    }
    assert_eq!(interner.intern("early-3"), 3);
    assert_eq!(interner.intern("late-4999"), 5007);
    assert_eq!(interner.lookup(5007), "late-4999");
}

#[test]
fn unissued_identifiers_are_absent() {
    let mut interner = Intern::new();
    assert_eq!(interner.try_lookup(0), None);
    assert_eq!(interner.try_lookup(1), None);
    assert_eq!(interner.try_lookup(InternId::MAX), None);
    interner.intern("only");
    assert_eq!(interner.try_lookup(0), Some("only"));
    assert_eq!(interner.try_lookup(1), None);
    assert_eq!(interner.try_lookup(InternId::MAX), None);
}

#[test]
fn empty_text_is_a_text_like_any_other() {
    let mut interner = Intern::new();
    assert_eq!(interner.intern("first"), 0);
    assert_eq!(interner.intern(""), 1);
    assert_eq!(interner.intern(""), 1);
    assert_eq!(interner.lookup(1), "");
    assert_eq!(interner.try_lookup(1), Some(""));
}

#[test]
fn texts_are_told_apart_by_content() {
    let mut interner = Intern::new();
    assert_eq!(interner.intern("abc"), 0);
    assert_eq!(interner.intern("abcd"), 1);
    assert_eq!(interner.intern("ab"), 2);
    assert_eq!(interner.intern("ABC"), 3);
    assert_eq!(interner.intern("abc "), 4);
    assert_eq!(interner.intern("e\u{301}"), 5);
    assert_eq!(interner.intern("\u{e9}"), 6);
    // The same content from another buffer is the same text.
    let owned = String::from("ab") + "cd";
    assert_eq!(interner.intern(&owned), 1);
}

#[test]
fn default_table_is_empty() {
    let mut interner = Intern::default();
    assert_eq!(interner.try_lookup(0), None);
    assert_eq!(interner.intern("hello"), 0);
    assert_eq!(interner.lookup(0), "hello");
}

#[test]
fn capacity_is_only_a_hint() {
    for capacity in [0usize, 1, 2, 16, 1024] {
        let mut interner = Intern::with_capacity(capacity);
        assert_eq!(interner.try_lookup(0), None);
        assert_eq!(interner.intern("hello"), 0);
        assert_eq!(interner.intern("world"), 1);
        assert_eq!(interner.intern("hello"), 0);
        assert_eq!(interner.lookup(0), "hello");
        assert_eq!(interner.lookup(1), "world");
        assert_eq!(interner.try_lookup(2), None);
    }
}

#[test]
fn capacity_that_cannot_be_had_is_no_failure() {
    let mut interner = Intern::with_capacity(usize::MAX);
    assert_eq!(interner.try_lookup(0), None);
    assert_eq!(interner.intern("hello"), 0);
    assert_eq!(interner.lookup(0), "hello");
}

#[test]
fn tables_are_independent() {
    let mut left = Intern::new();
    let mut right = Intern::new();
    assert_eq!(left.intern("a"), 0);
    assert_eq!(left.intern("b"), 1);
    assert_eq!(right.intern("b"), 0);
    assert_eq!(right.intern("a"), 1);
    assert_eq!(left.lookup(0), "a");
    assert_eq!(right.lookup(0), "b");
}
