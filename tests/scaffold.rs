use texted::{render_body, render_header};

#[test]
fn post_test_happy_case() {
    let id = "bcfc427f-f9f3-4442-bfc2-deca95db96d5";
    let name = "Thiago";
    let date = "2024-02-27 06:20:53.000";
    let title = "This is a title";
    let header = render_header(&id, &name, &date, Some(title));

    assert_eq!(header, "<!--
[ID]: # (bcfc427f-f9f3-4442-bfc2-deca95db96d5)
[DATE]: # (2024-02-27 06:20:53.000)
[AUTHOR]: # (Thiago)
[TAGS]: # ()
-->

# This is a title

");
}

#[test]
fn header_without_title_gets_placeholder() {
    let header = render_header("i", "n", "d", None);
    assert!(header.ends_with("# Replace with title\n\n"));
}

#[test]
fn body_has_preview_break() {
    assert!(render_body().contains("\n<!-- more -->\n"));
}
