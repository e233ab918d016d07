use hyperlit::tags::extract_hash_tags;

#[test]
fn tags_are_split_from_text() {
    let r = extract_hash_tags("The #atag title #btag");
    assert_eq!(r.tags, vec!["atag".to_string(), "btag".to_string()]);
    assert_eq!(r.text, "The title");
}

#[test]
fn whitespace_is_collapsed() {
    let r = extract_hash_tags("  one\t two \n three  ");
    assert!(r.tags.is_empty());
    assert_eq!(r.text, "one two three");
}

#[test]
fn bare_hash_is_an_empty_tag() {
    let r = extract_hash_tags("# Heading #");
    assert_eq!(r.tags, vec!["".to_string(), "".to_string()]);
    assert_eq!(r.text, "Heading");
    let empty = extract_hash_tags("");
    assert!(empty.tags.is_empty());
    assert_eq!(empty.text, "");
}
