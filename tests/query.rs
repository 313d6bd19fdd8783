use std::collections::HashMap;

use texted::QueryString;
use texted::query::parse_u32;

fn items_of(q: &QueryString) -> HashMap<String, String> {
    q.items().into_iter().collect::<HashMap<_, _>>()
}

#[test]
fn test_get_page() {
    // QueryString {}
}

#[test]
fn test_parse_query_str() {
    let buf = "bread=baguette&cheese=comt%C3%A9&meat=ham&fat=butter";
    let meal = vec![
        ("bread".to_owned(), "baguette".to_owned()),
        // The original test wrote this value double-encoded ("comtÃ©");
        // `%C3%A9` decodes to "é", as serde_urlencoded's own example shows.
        ("cheese".to_owned(), "comté".to_owned()),
        ("meat".to_owned(), "ham".to_owned()),
        ("fat".to_owned(), "butter".to_owned()),
    ].into_iter().collect::<HashMap<_, _>>();

    assert_eq!(items_of(&QueryString::from(buf)), meal);
}

#[test]
fn test_parse_invalid_query_str() {
    let buf = "";
    let expected: HashMap<String, String> = Default::default();
    assert_eq!(items_of(&QueryString::from(buf)), expected);
}

#[test]
fn test_parse_key_only_query_str() {
    let buf = "key-only";
    let expected: HashMap<String, String> = vec![("key-only", "")].iter().map(|(x, y)| (x.to_string(), y.to_string())).collect::<HashMap<_, _>>();
    assert_eq!(items_of(&QueryString::from(buf)), expected);
}

#[test]
fn page_defaults_to_one() {
    assert_eq!(QueryString::from("").get_page(), 1);
    assert_eq!(QueryString::from("tag=rust").get_page(), 1);
    assert_eq!(QueryString::from("page=0").get_page(), 1);
    assert_eq!(QueryString::from("page=abc").get_page(), 1);
    assert_eq!(QueryString::from("page=-3").get_page(), 1);
}

#[test]
fn page_is_read_from_query() {
    assert_eq!(QueryString::from("page=7").get_page(), 7);
    assert_eq!(QueryString::from("page=2&page=5").get_page(), 5);
    assert_eq!(QueryString::from("tag=x&page=%2B12").get_page(), 12);
}

#[test]
fn get_returns_last_value() {
    let q = QueryString::from("a=1&b=2&a=3");
    assert_eq!(q.get("a"), Some("3".to_string()));
    assert_eq!(q.get("c"), None);
}

#[test]
fn parse_u32_follows_std() {
    for s in ["0", "42", "+7", "4294967295", "4294967296", "", "+", "-1", "1a", " 1"] {
        assert_eq!(parse_u32(s), s.parse::<u32>().ok(), "input {:?}", s);
    }
}
