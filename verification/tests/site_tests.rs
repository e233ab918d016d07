use hyperlit::site::{get_site_info, str_before, DocumentInfo};

fn info(id: &str, title: &str) -> DocumentInfo {
    DocumentInfo { id: id.to_string(), title: title.to_string() }
}

#[test]
fn site_documents_are_ordered_by_id() {
    let site = get_site_info("My Site", vec![info("b", "B"), info("a-2", "A2"), info("a", "A"), info("c", "C")]);
    assert_eq!(site.title, "My Site");
    let ids: Vec<&str> = site.documents.iter().map(|d| d.id.as_str()).collect();
    assert_eq!(ids, vec!["a", "a-2", "b", "c"]);
    assert_eq!(site.documents[0].title, "A");
}

#[test]
fn empty_site() {
    let site = get_site_info("Empty", vec![]);
    assert!(site.documents.is_empty());
}

#[test]
fn string_order_matches_std() {
    let words = ["", "a", "ab", "b", "B", "ä", "z", "abc", "ab\u{1F4D6}"];
    for x in words {
        for y in words {
            assert_eq!(str_before(x, y), x < y, "{:?} < {:?}", x, y);
        }
    }
}
