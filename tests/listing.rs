use std::sync::Arc;

use texted::{
    full_link, list_post_files, page_or_first, posts_with_tag, preview_render_options, render_content,
    sort_by_date_desc, sort_by_frequency, tag_counts, BreakTag, Content, ContentFile, ContentFormat, ContentHeader,
    DateTime, ImagePrefix, PostId, PostLink, PostList, PreviewOptions, RenderOptions,
};

fn post(id: &str, day: u32, tags: &[&str]) -> Arc<Content> {
    Arc::new(Content {
        header: ContentHeader {
            file_name: format!("{}.md", id),
            id: PostId(id.to_string()),
            date: DateTime { year: 2024, month: 1, day, hour: 0, minute: 0, second: 0 },
            author: "a".to_string(),
            tags: tags.iter().map(|t| t.to_string()).collect(),
        },
        link: id.to_string(),
        title: id.to_string(),
        rendered: String::new(),
    })
}

fn ids(v: &[Arc<Content>]) -> Vec<String> {
    v.iter().map(|c| c.header.id.0.clone()).collect()
}

#[test]
fn test_extract_last() {
    let dirs = vec![
        ("res/posts/html_post_with_image".to_string(), "index.html".to_string()),
        ("res/posts/post_with_image".to_string(), "index.md".to_string()),
    ];
    let files = vec![
        "res/posts/html_post.htm".to_string(),
        "res/posts/post_without_images.md".to_string(),
        "res/posts/new_post.md".to_string(),
    ];
    let posts = list_post_files(&dirs, &files);

    let expected = vec![
        PostLink { post_name: "html_post_with_image".to_string(), post_path: "res/posts/html_post_with_image/index.html".to_string() },
        PostLink { post_name: "post_with_image".to_string(), post_path: "res/posts/post_with_image/index.md".to_string() },
        PostLink { post_name: "html_post".to_string(), post_path: "res/posts/html_post.htm".to_string() },
        PostLink { post_name: "post_without_images".to_string(), post_path: "res/posts/post_without_images.md".to_string() },
        PostLink { post_name: "new_post".to_string(), post_path: "res/posts/new_post.md".to_string() },
    ];
    assert_eq!(expected, posts);
}

#[test]
fn listing_skips_other_files() {
    let posts = list_post_files(&vec![("dir/".to_string(), "index.md".to_string())], &vec!["a/notes.txt".to_string(), "a/b.c.md".to_string()]);
    assert_eq!(posts, vec![
        PostLink { post_name: "dir".to_string(), post_path: "dir/index.md".to_string() },
        PostLink { post_name: "b.c".to_string(), post_path: "a/b.c.md".to_string() },
    ]);
}

#[test]
fn directories_need_an_index_file() {
    let dirs = vec![
        ("p/one".to_string(), vec!["image.png".to_string(), "index.md".to_string()]),
        ("p/two".to_string(), vec!["image.png".to_string()]),
    ];
    assert_eq!(PostList::filter_dirs("index", &dirs), vec![("p/one".to_string(), "index.md".to_string())]);
}

#[test]
fn render_content_picks_renderer_by_format() {
    let md = ContentFile { link: "a".to_string(), file_path: "a.md".to_string(), format: ContentFormat::Texted, raw_content: "# T\nhi\n".to_string() };
    let html = ContentFile { link: "b".to_string(), file_path: "b.html".to_string(), format: ContentFormat::Html, raw_content: "<h1>T</h1>\n<p>hi</p>\n".to_string() };
    assert_eq!(render_content(&md, RenderOptions::FullContent).unwrap().rendered, "<p>hi</p>\n");
    assert_eq!(render_content(&html, RenderOptions::FullContent).unwrap().rendered, "<p>hi</p>\n");
}

#[test]
fn preview_options_point_images_at_view() {
    let p = PreviewOptions { max_line_count: None, tag_based: BreakTag("<!-- more -->".to_string()) };
    match preview_render_options(&p, "my-post") {
        RenderOptions::PreviewOnly(o, ImagePrefix(prefix)) => {
            assert_eq!(prefix, "/view/my-post");
            assert_eq!(o.tag_based.0, "<!-- more -->");
        }
        RenderOptions::FullContent => panic!("expected a preview"),
    }
}

#[test]
fn out_of_range_page_falls_back_to_first() {
    assert_eq!(page_or_first(0, 3), 1);
    assert_eq!(page_or_first(4, 3), 1);
    assert_eq!(page_or_first(2, 3), 2);
}

#[test]
fn full_link_adds_slashes() {
    assert_eq!(full_link("https://thiagocafe.com", "post"), "https://thiagocafe.com/view/post/");
    assert_eq!(full_link("https://thiagocafe.com/", "post/"), "https://thiagocafe.com/view/post/");
}

#[test]
fn posts_sorted_newest_first() {
    let v = vec![post("a", 2, &[]), post("b", 5, &[]), post("c", 2, &[]), post("d", 9, &[])];
    assert_eq!(ids(&sort_by_date_desc(&v)), ["d", "b", "a", "c"]);
}

#[test]
fn posts_filtered_by_tag() {
    let v = vec![post("a", 1, &["rust"]), post("b", 2, &["web"]), post("c", 3, &["web", "rust"])];
    assert_eq!(ids(&posts_with_tag(&v, "rust")), ["a", "c"]);
    assert!(posts_with_tag(&v, "go").is_empty());
}

#[test]
fn tags_counted_and_ranked() {
    let v = vec![post("a", 1, &["rust", "web"]), post("b", 2, &["web"]), post("c", 3, &["web", "rust", "go"])];
    let counts = tag_counts(&v);
    assert_eq!(counts, vec![("rust".to_string(), 2), ("web".to_string(), 3), ("go".to_string(), 1)]);
    let ranked = sort_by_frequency(&counts);
    assert_eq!(ranked, vec![("web".to_string(), 3), ("rust".to_string(), 2), ("go".to_string(), 1)]);
}
