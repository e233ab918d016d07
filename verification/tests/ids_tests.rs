use hyperlit::ids::IdGenerator;

#[test]
fn test_id_from() {
    let mut id_gen = IdGenerator::default();
    assert_eq!(id_gen.id_from("Hello World"), "Hello World");
    assert_eq!(id_gen.id_from("Hello World"), "Hello World 2");
    assert_eq!(id_gen.id_from("Hello World 4"), "Hello World 4");
    assert_eq!(id_gen.id_from("Hello World"), "Hello World 3");
    assert_eq!(id_gen.id_from("Hello World"), "Hello World 5");
}

#[test]
fn id_from_distinct_strings_are_kept() {
    let mut id_gen = IdGenerator::default();
    assert_eq!(id_gen.id_from("a"), "a");
    assert_eq!(id_gen.id_from("b"), "b");
    assert_eq!(id_gen.id_from("a"), "a 2");
    assert_eq!(id_gen.id_from("a 2"), "a 2 2");
}
