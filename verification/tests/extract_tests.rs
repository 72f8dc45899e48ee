use page_extract::extract::extract;
use page_extract::extract::ExtractionResult;
use page_extract::extract::Session;

fn s(x: &str) -> Vec<char> {
    x.chars().collect()
}

fn sv(xs: &[&str]) -> Vec<Vec<char>> {
    xs.iter().map(|x| s(x)).collect()
}

#[test]
fn title_basic() {
    let r = extract("<html><head><title>Hello</title></head><body></body></html>");
    assert_eq!(r.title, s("Hello"));
}

#[test]
fn title_absent_is_empty() {
    let r = extract("<html><body><p>hi</p></body></html>");
    assert_eq!(r.title, s(""));
}

#[test]
fn title_concatenates_nested_text() {
    let r = extract("<title>He<span>ll</span>o</title>");
    assert_eq!(r.title, s("Hello"));
}

#[test]
fn title_first_element_wins() {
    let r = extract("<title>First</title><title>Second</title>");
    assert_eq!(r.title, s("First"));
}

#[test]
fn headings_grouped_by_level() {
    let r = extract("<h1>A</h1><h2>B</h2><h1>C</h1>");
    assert_eq!(r.headings, sv(&["A", "C", "B"]));
}

#[test]
fn headings_all_three_levels() {
    let r = extract("<h3>three</h3><h2>two</h2><h1>one</h1>");
    assert_eq!(r.headings, sv(&["one", "two", "three"]));
}

#[test]
fn heading_unclosed_runs_to_end() {
    let r = extract("<h1>Rest");
    assert_eq!(r.headings, sv(&["Rest"]));
}

#[test]
fn links_keep_order_and_skip_missing_href() {
    let r = extract(r#"<a href="/x">one</a><a>two</a><a href="https://y">three</a>"#);
    assert_eq!(r.links, sv(&["/x", "https://y"]));
}

#[test]
fn links_not_resolved_or_normalized() {
    let r = extract(r#"<a href="../up?q=1#f">rel</a>"#);
    assert_eq!(r.links, sv(&["../up?q=1#f"]));
}

#[test]
fn link_unquoted_href() {
    let r = extract("<a href=/x>go</a>");
    assert_eq!(r.links, sv(&["/x"]));
}

#[test]
fn images_collected_in_order() {
    let r = extract(r#"<img src="a.png"><img><img src='b.png'>"#);
    assert_eq!(r.images, sv(&["a.png", "b.png"]));
}

#[test]
fn meta_description_found() {
    let r = extract(r#"<meta name="description" content="A page">"#);
    assert_eq!(r.meta_description, s("A page"));
}

#[test]
fn meta_description_name_is_case_sensitive() {
    let r = extract(r#"<meta name="Description" content="x">"#);
    assert_eq!(r.meta_description, s(""));
}

#[test]
fn meta_description_without_content_is_empty() {
    let r = extract(r#"<meta name="description"><meta name="description" content="later">"#);
    assert_eq!(r.meta_description, s(""));
}

#[test]
fn opengraph_last_occurrence_wins() {
    let r = extract(
        r#"<meta property="og:title" content="First"><meta property="og:title" content="Second">"#,
    );
    assert_eq!(r.opengraph.get(&s("og:title")), Some(&s("Second")));
}

#[test]
fn opengraph_collects_each_property() {
    let r = extract(
        r#"<meta property="og:title" content="T"><meta property="og:image" content="i.png">"#,
    );
    assert_eq!(r.opengraph.get(&s("og:title")), Some(&s("T")));
    assert_eq!(r.opengraph.get(&s("og:image")), Some(&s("i.png")));
    assert_eq!(r.opengraph.len(), 2);
}

#[test]
fn opengraph_needs_content() {
    let r = extract(r#"<meta property="og:title">"#);
    assert_eq!(r.opengraph.get(&s("og:title")), None);
    assert_eq!(r.opengraph.len(), 0);
}

#[test]
fn opengraph_needs_og_prefix() {
    let r = extract(r#"<meta property="twitter:card" content="x">"#);
    assert_eq!(r.opengraph.len(), 0);
}

#[test]
fn empty_input_gives_empty_summary() {
    let r: ExtractionResult = extract("");
    assert_eq!(r.title, s(""));
    assert!(r.headings.is_empty());
    assert!(r.links.is_empty());
    assert_eq!(r.meta_description, s(""));
    assert!(r.images.is_empty());
    assert_eq!(r.opengraph.len(), 0);
}

#[test]
fn plain_text_gives_empty_summary() {
    let r = extract("just some words < and stray brackets >");
    assert_eq!(r.title, s(""));
    assert!(r.headings.is_empty());
    assert!(r.links.is_empty());
}

#[test]
fn tag_names_match_case_insensitively() {
    let r = extract(r#"<TITLE>Hi</TITLE><IMG SRC="p.png"><H1>Up</H1>"#);
    assert_eq!(r.title, s("Hi"));
    assert_eq!(r.images, sv(&["p.png"]));
    assert_eq!(r.headings, sv(&["Up"]));
}

#[test]
fn comments_are_ignored() {
    let r = extract("<!-- <h1>X</h1> --><h2>Y</h2>");
    assert_eq!(r.headings, sv(&["Y"]));
}

#[test]
fn doctype_is_ignored() {
    let r = extract("<!DOCTYPE html><title>T</title>");
    assert_eq!(r.title, s("T"));
}

#[test]
fn attribute_without_value_is_empty() {
    let r = extract("<a href>bare</a>");
    assert_eq!(r.links, sv(&[""]));
}

#[test]
fn self_closing_tag_keeps_attributes() {
    let r = extract(r#"<meta name="description" content="d" />"#);
    assert_eq!(r.meta_description, s("d"));
}

#[test]
fn attribute_names_match_case_insensitively() {
    let r = extract(r#"<a HREF="/x">go</a>"#);
    assert_eq!(r.links, sv(&["/x"]));
}

#[test]
fn session_keeps_last_result_per_url() {
    let mut session = Session::new();
    let first = extract("<title>first</title>");
    let second = extract("<title>second</title>");
    session.insert(s("http://example.test/"), first);
    session.insert(s("http://example.test/"), second);
    assert_eq!(session.len(), 1);
    let stored = session.get(&s("http://example.test/")).unwrap();
    assert_eq!(stored.title, s("second"));
}

#[test]
fn session_keeps_distinct_urls() {
    let mut session = Session::new();
    session.insert(s("http://a.test/"), extract("<title>a</title>"));
    session.insert(s("http://b.test/"), extract("<title>b</title>"));
    assert_eq!(session.len(), 2);
    assert_eq!(session.get(&s("http://a.test/")).unwrap().title, s("a"));
    assert_eq!(session.get(&s("http://b.test/")).unwrap().title, s("b"));
}
