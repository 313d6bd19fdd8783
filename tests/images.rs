use texted::{change_images, HtmlRenderer};

#[test]
fn test_add_prefix_empty_label() {
    let content = "something![](url.png)osadiosa";
    let parsed = change_images("post_name/", content);
    assert_eq!(parsed, "something![](post_name/url.png)osadiosa");
    let parsed = change_images("post_name", content);
    assert_eq!(parsed, "something![](post_name/url.png)osadiosa");
}

#[test]
fn test_add_prefix() {
    let content = "something![imagelabel](url.png)osadiosa";
    let parsed = change_images("post_name/", content);
    assert_eq!(parsed, "something![imagelabel](post_name/url.png)osadiosa");
    let parsed = change_images("post_name", content);
    assert_eq!(parsed, "something![imagelabel](post_name/url.png)osadiosa");
}

#[test]
fn markdown_relative_image_gets_prefix() {
    assert_eq!(change_images("post-1", "![alt](img.png)"), "![alt](post-1/img.png)");
}

#[test]
fn markdown_absolute_image_is_unchanged() {
    assert_eq!(change_images("post-1", "![alt](https://x/img.png)"), "![alt](https://x/img.png)");
}

#[test]
fn markdown_several_images_and_plain_links() {
    let text = "a ![x](one.png) b [link](page.html) c ![y](two.png)";
    assert_eq!(
        change_images("p", text),
        "a ![x](p/one.png) b [link](page.html) c ![y](p/two.png)"
    );
}

#[test]
fn markdown_unclosed_image_is_kept() {
    assert_eq!(change_images("p", "text ![alt(no-close"), "text ![alt(no-close");
    assert_eq!(change_images("p", "text ![alt](no-close"), "text ![alt](no-close");
}

#[test]
fn test_change_images() {
    let html = r#"<html>
<body>
    <img src="image1.jpg">
    <img some="212" src="image2.jpg">
    <img style="asd" src="image3.jpg" type="ddd">
    <img style="asd" src="http://not-change/image4.jpg" type="ddd">
    <img style="asd" src="https://not-change/image5.jpg" type="ddd">
    <img src="ftp://not-change/image5.jpg">
</body>
</html>"#;

    let prefixed_html = HtmlRenderer::change_images("view/post_name", html);
    assert_eq!(prefixed_html, r#"<html>
<body>
    <img src="view/post_name/image1.jpg">
    <img some="212" src="view/post_name/image2.jpg">
    <img style="asd" src="view/post_name/image3.jpg" type="ddd">
    <img style="asd" src="http://not-change/image4.jpg" type="ddd">
    <img style="asd" src="https://not-change/image5.jpg" type="ddd">
    <img src="ftp://not-change/image5.jpg">
</body>
</html>"#);
}

#[test]
fn test_change_images_no_image() {
    let html = r#"<html>
<body>
    <span>some text</span>
</body>
</html>"#;

    let prefixed_html = HtmlRenderer::change_images("view/post_name/", html);
    assert_eq!(prefixed_html, r#"<html>
<body>
    <span>some text</span>
</body>
</html>"#);
}

#[test]
fn html_image_without_src_is_unchanged() {
    let html = r#"<img alt="x"> <img src="a.png">"#;
    assert_eq!(HtmlRenderer::change_images("p/", html), r#"<img alt="x"> <img src="p/a.png">"#);
}

#[test]
fn html_only_the_src_attribute_is_rewritten() {
    assert_eq!(HtmlRenderer::change_images("p", r#"<img xsrc="b">"#), r#"<img xsrc="b">"#);
    assert_eq!(
        HtmlRenderer::change_images("p", r#"<img src="a.png" data-src="b.png">"#),
        r#"<img src="p/a.png" data-src="b.png">"#
    );
    assert_eq!(
        HtmlRenderer::change_images("p", r#"<img data-src="b.png" src="a.png">"#),
        r#"<img data-src="b.png" src="p/a.png">"#
    );
    assert_eq!(
        HtmlRenderer::change_images("p", "<img\n  src=\"a.png\">"),
        "<img\n  src=\"p/a.png\">"
    );
}
