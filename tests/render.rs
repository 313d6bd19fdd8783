use texted::{
    BreakTag, ContentError, ContentFile, ContentFormat, DateTime, HtmlRenderer, ImagePrefix, PreviewOptions,
    RenderOptions, TextedRenderer,
};

const POST_DATA_MD: &str = "[ID]: # (a63bd715-a3fe-4788-b0e1-2a3153778544)
[DATE]: # (2022-04-02 12:05:00.000)
[AUTHOR]: # (thiago)


# What I learned after 20+ years of software development
How to be a great software engineer?

Someone asked me this question today and I didn’t have an answer. After thinking for a while, I came up with a list of what I try to do myself.

Disclaimer: I don't think I am a great engineer, but I would love to have listened to that myself when I started my career, over 20 years ago.

I will divide this in parts, non-technical and technical

<!-- more -->

## Non technical

### Have a honest image of yourself

You finished university and learned a lot. You solved many hard problems.
It's common to think you are awesome and the smartest person in the planet.
Some day in your life, you will find that you are not and that there are many developers much better than you. Not in capacity, but in wisdom and knowledge. __The earlier you find that, the better.__ This will drive you to improve yourself as you now recognize better your weakest points.
";

const POST_DATA_HTML: &str = "<!--
[ID]: # (a63bd715-a3fe-4788-b0e1-2a3153778544)
[DATE]: # (2022-04-02 12:05:00.000)
[AUTHOR]: # (thiago)
-->

<h2>What I learned after 20+ years of software development</h2>
<p>How to be a great software engineer?</p>
<p>Someone asked me this question today and I didn’t have an answer. After thinking for a while, I came up with a list of what I try to do myself.</p>
<p>Disclaimer: I don't think I am a great engineer, but I would love to have listened to that myself when I started my career, over 20 years ago.</p>
<p>I will divide this in parts, non-technical and technical</p>

<!-- more -->

<h2>Non technical</h2>
<h3>Have a honest image of yourself</h3>
<p>You finished university and learned a lot. You solved many hard problems. It's common to think you are awesome and the smartest person in the planet. Some day in your life, you will find that you are not and that there are many developers much better than you. Not in capacity, but in wisdom and knowledge. <strong>The earlier you find that, the better.</strong> This will drive you to improve yourself as you now recognize better your weakest points.</p>
<h3>The awesome thing you learned doesn't solve all the problems</h3>
<p>The less knowledge you have, the more you will feel that something awesome you learned is the solution for everything. <strong>There is no Saint Graal</strong>. Always search for alternatives, even if they don't look good. The more you know, the more you will see the problems of new trends and concepts and you will be able to choose the best solution for the problem you need to solve</p>
";

fn md_file(raw: &str) -> ContentFile {
    ContentFile {
        link: "".to_string(),
        file_path: "posts/20200522_how_to_write_a_code_review/index.md".to_string(),
        format: ContentFormat::Texted,
        raw_content: raw.to_string(),
    }
}

#[test]
fn test_header_only() {
    let content = md_file(POST_DATA_MD);
    let prefix = ImagePrefix { 0: "image/".to_string() };
    let preview_opt = PreviewOptions { max_line_count: None, tag_based: BreakTag("<!-- more -->".to_string()) };
    let content = TextedRenderer::render(&content, RenderOptions::PreviewOnly(preview_opt, prefix)).unwrap();
    assert_eq!(content.rendered, r##"<p>How to be a great software engineer?</p>
<p>Someone asked me this question today and I didn’t have an answer. After thinking for a while, I came up with a list of what I try to do myself.</p>
<p>Disclaimer: I don't think I am a great engineer, but I would love to have listened to that myself when I started my career, over 20 years ago.</p>
<p>I will divide this in parts, non-technical and technical</p>
"##);
}

#[test]
fn test_full_content() {
    let content = md_file(POST_DATA_MD);
    let content = TextedRenderer::render(&content, RenderOptions::FullContent).unwrap();
    assert_eq!(content.rendered, r##"<p>How to be a great software engineer?</p>
<p>Someone asked me this question today and I didn’t have an answer. After thinking for a while, I came up with a list of what I try to do myself.</p>
<p>Disclaimer: I don't think I am a great engineer, but I would love to have listened to that myself when I started my career, over 20 years ago.</p>
<p>I will divide this in parts, non-technical and technical</p>
<h2>Non technical</h2>
<h3>Have a honest image of yourself</h3>
<p>You finished university and learned a lot. You solved many hard problems.
It's common to think you are awesome and the smartest person in the planet.
Some day in your life, you will find that you are not and that there are many developers much better than you. Not in capacity, but in wisdom and knowledge. <strong>The earlier you find that, the better.</strong> This will drive you to improve yourself as you now recognize better your weakest points.</p>
"##)
}

#[test]
fn test_full_content_html() {
    let content = ContentFile {
        link: "".to_string(),
        file_path: "posts/20200522_how_to_write_a_code_reviewindex.md".to_string(),
        format: ContentFormat::Html,
        raw_content: POST_DATA_HTML.to_string(),
    };
    let content = HtmlRenderer::render(&content, RenderOptions::FullContent).unwrap();
    assert_eq!(content.title, "What I learned after 20+ years of software development");
    assert_eq!(content.rendered, r##"<p>How to be a great software engineer?</p>
<p>Someone asked me this question today and I didn’t have an answer. After thinking for a while, I came up with a list of what I try to do myself.</p>
<p>Disclaimer: I don't think I am a great engineer, but I would love to have listened to that myself when I started my career, over 20 years ago.</p>
<p>I will divide this in parts, non-technical and technical</p>

<!-- more -->

<h2>Non technical</h2>
<h3>Have a honest image of yourself</h3>
<p>You finished university and learned a lot. You solved many hard problems. It's common to think you are awesome and the smartest person in the planet. Some day in your life, you will find that you are not and that there are many developers much better than you. Not in capacity, but in wisdom and knowledge. <strong>The earlier you find that, the better.</strong> This will drive you to improve yourself as you now recognize better your weakest points.</p>
<h3>The awesome thing you learned doesn't solve all the problems</h3>
<p>The less knowledge you have, the more you will feel that something awesome you learned is the solution for everything. <strong>There is no Saint Graal</strong>. Always search for alternatives, even if they don't look good. The more you know, the more you will see the problems of new trends and concepts and you will be able to choose the best solution for the problem you need to solve</p>
"##)
}

#[test]
fn texted_render_reads_header_and_title() {
    let content = TextedRenderer::render(&md_file(POST_DATA_MD), RenderOptions::FullContent).unwrap();
    assert_eq!(content.title, "What I learned after 20+ years of software development");
    assert_eq!(content.header.author, "thiago");
    assert_eq!(content.header.date, DateTime { year: 2022, month: 4, day: 2, hour: 12, minute: 5, second: 0 });
}

#[test]
fn full_render_twice_is_identical() {
    let file = md_file(POST_DATA_MD);
    let a = TextedRenderer::render(&file, RenderOptions::FullContent).unwrap();
    let b = TextedRenderer::render(&file, RenderOptions::FullContent).unwrap();
    assert_eq!(a.rendered, b.rendered);
    assert_eq!(a.title, b.title);
}

#[test]
fn preview_rewrites_images_and_strips_comments() {
    let raw = "[ID]: # (p)\n\n# T\nSee ![pic](a.png) and ![ext](https://x/b.png)<!-- hidden -->\n<!-- more -->\nrest\n";
    let preview = RenderOptions::PreviewOnly(
        PreviewOptions { max_line_count: None, tag_based: BreakTag("<!-- more -->".to_string()) },
        ImagePrefix("post-1".to_string()),
    );
    let content = TextedRenderer::render(&md_file(raw), preview).unwrap();
    assert_eq!(
        content.rendered,
        "<p>See <img src=\"post-1/a.png\" alt=\"pic\" /> and <img src=\"https://x/b.png\" alt=\"ext\" /></p>\n"
    );
}

#[test]
fn missing_header_falls_back_to_path() {
    let content = TextedRenderer::render(&md_file("# Only a title\nbody\n"), RenderOptions::FullContent).unwrap();
    assert_eq!(content.title, "Only a title");
    assert_eq!(content.header.id.0, "posts/20200522_how_to_write_a_code_review/index.md");
    assert_eq!(content.header.date, DateTime { year: 1970, month: 1, day: 1, hour: 0, minute: 0, second: 0 });
    assert_eq!(content.rendered, "<p>body</p>\n");
}

#[test]
fn render_errors() {
    let err = HtmlRenderer::render(&md_file(POST_DATA_MD), RenderOptions::FullContent).err().unwrap();
    assert_eq!(err, ContentError::UnsupportedFormat("posts/20200522_how_to_write_a_code_review/index.md".to_string()));
    let err = TextedRenderer::render(&md_file("[ID]: # (p)\n# T\nopen <!-- never closed\n"), RenderOptions::FullContent)
        .err()
        .unwrap();
    assert_eq!(err, ContentError::UnterminatedComment);
}

#[test]
fn html_preview_rewrites_images() {
    let raw = "<!--\n[ID]: # (h)\n-->\n<h1>Title</h1>\n<img src=\"a.png\">\n<!-- more -->\n<p>rest</p>\n";
    let file = ContentFile {
        link: "h".to_string(),
        file_path: "h.html".to_string(),
        format: ContentFormat::Html,
        raw_content: raw.to_string(),
    };
    let preview = RenderOptions::PreviewOnly(
        PreviewOptions { max_line_count: None, tag_based: BreakTag("<!-- more -->".to_string()) },
        ImagePrefix("view/h".to_string()),
    );
    let content = HtmlRenderer::render(&file, preview).unwrap();
    assert_eq!(content.title, "Title");
    assert_eq!(content.rendered, "<img src=\"view/h/a.png\">\n");
}

#[test]
fn format_comes_from_extension() {
    assert_eq!(ContentFile::guess_type("a/b.md"), Some(ContentFormat::Texted));
    assert_eq!(ContentFile::guess_type("a/b.html"), Some(ContentFormat::Html));
    assert_eq!(ContentFile::guess_type("a/b.htm"), Some(ContentFormat::Html));
    assert_eq!(ContentFile::guess_type("a/b.txt"), None);
    let err = ContentFile::from_content("b".to_string(), "b.txt".to_string(), "".to_string()).err().unwrap();
    assert_eq!(err, ContentError::UnsupportedFormat("b.txt".to_string()));
    let file = ContentFile::from_content("b".to_string(), "b.htm".to_string(), "x".to_string()).ok().unwrap();
    assert_eq!(file.format, ContentFormat::Html);
}
