use hyperlit::edit::{apply_edit_to_text, TextEdit};

#[test]
fn test_replace() {
    let result = apply_edit_to_text("foobar", &TextEdit::new("foo.txt", 3, "bar", "buzz")).unwrap();
    assert_eq!(result, "foobuzz");
}

#[test]
fn test_mismatch() {
    let error = apply_edit_to_text("foobar", &TextEdit::new("foo.txt", 3, "baz", "buzz")).expect_err("error expected");
    assert_eq!(
        error.to_string(),
        "Cannot apply text edit to file 'foo.txt' (at offset 3):\n\texpected: 'baz'\n\tactual:   'bar'"
    );
}

#[test]
fn test_offset_out_of_bounds() {
    let error = apply_edit_to_text("foobar", &TextEdit::new("foo.txt", 4, "baz", "buzz")).expect_err("error expected");
    assert_eq!(
        error.to_string(),
        "Cannot apply text edit to file 'foo.txt' (at offset 4-7): offset out of bounds, file length is 6 bytes"
    );
}

#[test]
fn test_offset_is_multibyte_char() {
    let error =
        apply_edit_to_text("👨‍🚀", &TextEdit::new("astro.txt", 1, "baz", "buzz")).expect_err("error expected");
    assert_eq!(
        error.to_string(),
        "Cannot apply text edit to file 'astro.txt' (at offset 1): edit range is not a char boundary"
    );
}

#[test]
fn test_edit_end_is_multibyte_char() {
    let error = apply_edit_to_text("👨‍🚀", &TextEdit::new("astro.txt", 0, "b", "buzz")).expect_err("error expected");
    assert_eq!(
        error.to_string(),
        "Cannot apply text edit to file 'astro.txt' (at offset 0): edit range is not a char boundary"
    );
}

#[test]
fn edit_at_start_and_end() {
    assert_eq!(apply_edit_to_text("abc", &TextEdit::new("f", 0, "", "x")).unwrap(), "xabc");
    assert_eq!(apply_edit_to_text("abc", &TextEdit::new("f", 3, "", "x")).unwrap(), "abcx");
    assert_eq!(apply_edit_to_text("abc", &TextEdit::new("f", 0, "abc", "")).unwrap(), "");
}

#[test]
fn edit_after_multibyte_text() {
    assert_eq!(apply_edit_to_text("äb", &TextEdit::new("f", 2, "b", "c")).unwrap(), "äc");
}

#[test]
fn inverse_edit_restores_text() {
    let original = "héllo wörld";
    let edit = TextEdit::new("f", 7, "wörld", "there");
    let edited = apply_edit_to_text(original, &edit).unwrap();
    assert_eq!(edited, "héllo there");
    let undo = TextEdit::new("f", 7, "there", "wörld");
    assert_eq!(apply_edit_to_text(&edited, &undo).unwrap(), original);
}
