use stackvm::agent::Agent;

#[test]
fn test_string_interning() {
    let mut agent = Agent::new();

    let a = agent.intern_string("hello");
    let b = agent.intern_string("world");
    let c = agent.intern_string("hello");

    assert_eq!(a, c);
    assert_ne!(b, c);
}

#[test]
fn intern_ids_are_dense_from_zero() {
    let mut agent = Agent::new();
    assert_eq!(agent.intern_string("a"), 0);
    assert_eq!(agent.intern_string("b"), 1);
    assert_eq!(agent.intern_string("a"), 0);
    assert_eq!(agent.intern_string(""), 2);
    assert_eq!(agent.intern_string("b"), 1);
    assert_eq!(agent.string_table.len(), 3);
    assert_eq!(agent.string_table[2], "");
}

#[test]
fn intern_distinguishes_similar_strings() {
    let mut agent = Agent::new();
    let a = agent.intern_string("ab");
    let b = agent.intern_string("abc");
    let c = agent.intern_string("a");
    assert_ne!(a, b);
    assert_ne!(a, c);
    assert_ne!(b, c);
    assert_eq!(agent.intern_string("abc"), b);
}
