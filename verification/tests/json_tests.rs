use page_extract::extract::{extract, Session};
use page_extract::json::session_to_json;

fn s(x: &str) -> Vec<char> {
    x.chars().collect()
}

fn text_of(v: &[char]) -> String {
    v.iter().collect()
}

#[test]
fn empty_session_renders_empty_object() {
    let session = Session::new();
    assert_eq!(text_of(&session_to_json(&session)), "{}");
}

#[test]
fn one_page_renders_all_fields() {
    let mut session = Session::new();
    let page = r#"<title>T</title><h1>H</h1><a href="/x">l</a><meta name="description" content="d"><img src="i.png"><meta property="og:title" content="O">"#;
    session.insert(s("http://a.test/"), extract(page));
    let expected = r#"{"http://a.test/":{"title":"T","headings":["H"],"links":["/x"],"meta_description":"d","images":["i.png"],"opengraph":{"og:title":"O"}}}"#;
    assert_eq!(text_of(&session_to_json(&session)), expected);
}

#[test]
fn two_pages_render_in_insertion_order() {
    let mut session = Session::new();
    session.insert(s("http://a.test/"), extract(""));
    session.insert(s("http://b.test/"), extract(""));
    let empty = r#"{"title":"","headings":[],"links":[],"meta_description":"","images":[],"opengraph":{}}"#;
    let expected = format!(
        r#"{{"http://a.test/":{e},"http://b.test/":{e}}}"#,
        e = empty
    );
    assert_eq!(text_of(&session_to_json(&session)), expected);
}

#[test]
fn strings_are_escaped() {
    let mut session = Session::new();
    session.insert(s("u"), extract("<title>a\"b\\c\nd</title>"));
    let rendered = text_of(&session_to_json(&session));
    assert!(rendered.contains(r#""title":"a\"b\\c\nd""#));
}
