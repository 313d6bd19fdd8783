use texted::date::{format_date_time, parse_date_time};
use texted::header::extract_texted_header;
use texted::parsing::{extract_content, parse_texted_header, parse_title_html, parse_title_markdown, split_lines};
use texted::{
    extract_tags, remove_comments, BreakTag, ContentError, ContentHeader, DateTime, ImagePrefix, MaxLineCount, PostId,
    PreviewOptions, RenderOptions,
};

fn kv(line: &str) -> Option<(String, String)> {
    let chars: Vec<char> = line.chars().collect();
    extract_texted_header(&chars).map(|(k, v)| (k.iter().collect(), v.iter().collect()))
}

fn pair(k: &str, v: &str) -> Option<(String, String)> {
    Some((k.to_string(), v.to_string()))
}

fn preview(tag: &str, max: Option<i32>) -> RenderOptions {
    RenderOptions::PreviewOnly(
        PreviewOptions { max_line_count: max.map(MaxLineCount), tag_based: BreakTag(tag.to_string()) },
        ImagePrefix("img".to_string()),
    )
}

#[test]
fn parsing_utils_test_extract_texted_header() {
    let res = kv("[ID]: # (a63bd715-a3fe-4788-b0e1-2a3153778544)");
    assert_eq!(res, pair("ID", "a63bd715-a3fe-4788-b0e1-2a3153778544"));
    let res = kv("[DATE]: # (2022-04-02 12:05:00.000)");
    assert_eq!(res, pair("DATE", "2022-04-02 12:05:00.000"));
    let res = kv("[AUTHOR]: # (thiago)");
    assert_eq!(res, pair("AUTHOR", "thiago"));
    let res = kv("[TAGS]: # (rust something-else)");
    assert_eq!(res, pair("TAGS", "rust something-else"));

    let res = kv("[AUTHOR]: (thiago)");
    assert!(res.is_none());
}

#[test]
fn parsing_utils_test_extract_tags() {
    let tags_str = "one two three   four";
    let tags = extract_tags(tags_str);
    assert_eq!(tags, ["one", "two", "three", "four"]);
}

#[test]
fn tags_keep_duplicates() {
    assert_eq!(extract_tags(" rust  rust web "), ["rust", "rust", "web"]);
    assert!(extract_tags("").is_empty());
}

#[test]
fn test_lines_texted() {
    let file_name = "posts/20200522_how_to_write_a_code_review/index.md";
    let content = r##"

<!--

[ID]: # (21c1e9ad-4ebb-4168-a543-fbf77cc35a85)

[DATE]: # (2024-02-12 22:54:00.000)

[AUTHOR]: # (thiago)

-->        "##;

    let (header, _next_line) = parse_texted_header(file_name, &split_lines(content)).unwrap();
    let expected = ContentHeader {
        file_name: "posts/20200522_how_to_write_a_code_review/index.md".to_string(),
        id: PostId("21c1e9ad-4ebb-4168-a543-fbf77cc35a85".to_string()),
        date: DateTime { year: 2024, month: 2, day: 12, hour: 22, minute: 54, second: 0 },
        author: "thiago".to_string(),
        tags: vec![],
    };
    assert_eq!(header, expected);
}

fn expected_x_header() -> ContentHeader {
    ContentHeader {
        file_name: "f.md".to_string(),
        id: PostId("x".to_string()),
        date: DateTime { year: 2024, month: 2, day: 12, hour: 22, minute: 54, second: 0 },
        author: "thiago".to_string(),
        tags: vec![],
    }
}

#[test]
fn header_without_comment() {
    let text = "[ID]: # (x)\n[DATE]: # (2024-02-12 22:54:00.000)\n[AUTHOR]: # (thiago)\n";
    let (header, cursor) = parse_texted_header("f.md", &split_lines(text)).unwrap();
    assert_eq!(header, expected_x_header());
    assert_eq!(cursor, 3);
}

#[test]
fn header_inside_comment() {
    let text = "<!--\n[ID]: # (x)\n[DATE]: # (2024-02-12 22:54:00.000)\n[AUTHOR]: # (thiago)\n-->\n";
    let (header, cursor) = parse_texted_header("f.md", &split_lines(text)).unwrap();
    assert_eq!(header, expected_x_header());
    assert_eq!(cursor, 4);
}

#[test]
fn header_with_tags_and_underscore_date() {
    let text = "[ID]: # (y)\n[DATE]: # (2023-12-31_23:59:59)\n[TAGS]: # (a b a)\n[OTHER]: # (z)\n\n# Title\n";
    let (header, cursor) = parse_texted_header("g.md", &split_lines(text)).unwrap();
    assert_eq!(header.date, DateTime { year: 2023, month: 12, day: 31, hour: 23, minute: 59, second: 59 });
    assert_eq!(header.tags, ["a", "b", "a"]);
    assert_eq!(header.author, "");
    assert_eq!(cursor, 5);
}

#[test]
fn header_errors() {
    let lines = split_lines("# Just a title\n");
    assert_eq!(parse_texted_header("a.md", &lines), Err(ContentError::InvalidHeader));
    let lines = split_lines("<!--\n[ID]: # (x)\n[DATE]: # (2024-02-12 22:54:00)\n");
    assert_eq!(
        parse_texted_header("b.md", &lines),
        Err(ContentError::MissingCommentTerminator("b.md".to_string()))
    );
    let lines = split_lines("[ID]: # (x)\n[DATE]: # (yesterday)\n");
    assert_eq!(parse_texted_header("c.md", &lines), Err(ContentError::InvalidDate("c.md".to_string())));
    let lines = split_lines("[ID]: # (x)\n[DATE]: # (2023-02-29 10:00:00)\n");
    assert_eq!(parse_texted_header("d.md", &lines), Err(ContentError::InvalidDate("d.md".to_string())));
}

#[test]
fn test_parse_date_time() {
    let date_time = parse_date_time("2017-09-10 10:42:32.123").unwrap();
    let (date, time) = format_date_time(&date_time);
    assert_eq!(date, "2017-09-10");
    assert_eq!(time, "10:42:32");

    let date_time = parse_date_time("2017-09-10 10:42:32").unwrap();
    let (date, time) = format_date_time(&date_time);
    assert_eq!(date, "2017-09-10");
    assert_eq!(time, "10:42:32");

    let date_time = parse_date_time("2017-09-10 10:42:32").unwrap();
    let (date, time) = format_date_time(&date_time);
    assert_eq!(date, "2017-09-10");
    assert_eq!(time, "10:42:32");
}

#[test]
fn date_single_digits_and_leap_day() {
    let d = parse_date_time("2024-2-29 1:2:3").unwrap();
    assert_eq!(d, DateTime { year: 2024, month: 2, day: 29, hour: 1, minute: 2, second: 3 });
    assert_eq!(format_date_time(&d), ("2024-02-29".to_string(), "01:02:03".to_string()));
    assert!(parse_date_time("2024-13-01 00:00:00").is_err());
    assert!(parse_date_time("2024-01-01 24:00:00").is_err());
    assert!(parse_date_time("24-01-01 00:00:00").is_err());
}

#[test]
fn parsing_utils_test_parse_removes_comment() {
    let content = r#"Some text.<!-- more -->Wo<!-- xyz -->rd"#;
    let res = remove_comments(content).unwrap();
    println!("[{}]", res);
    println!("-------------------");
    assert_eq!(res, "Some text.Word");

    let content = r#"Some text.Word"#;
    let res = remove_comments(content).unwrap();
    println!("[{}]", res);
    println!("-------------------");
    assert_eq!(res, "Some text.Word");

    let content = r#""#;
    let res = remove_comments(content).unwrap();
    println!("[{}]", res);
    println!("-------------------");
    assert_eq!(res, "");

    let content = r#"<!-- more --><!-- xyz -->"#;
    let res = remove_comments(content).unwrap();
    println!("[{}]", res);
    println!("-------------------");
    assert_eq!(res, "");

    let content = r#"<!-- more -->"#;
    let res = remove_comments(content).unwrap();
    println!("[{}]", res);
    println!("-------------------");
    assert_eq!(res, "");
}

#[test]
fn render_post_test_parse_removes_comment() {
    let content = r#"Some text.<!-- more -->Wo<!-- xyz -->rd"#;
    let res = remove_comments(content).unwrap();
    println!("[{}]", res);
    println!("-------------------");

    let content = r#"Some text.Word"#;
    let res = remove_comments(content).unwrap();
    println!("[{}]", res);
    println!("-------------------");

    let content = r#""#;
    let res = remove_comments(content).unwrap();
    println!("[{}]", res);
    println!("-------------------");

    let content = r#"<!-- more --><!-- xyz -->"#;
    let res = remove_comments(content).unwrap();
    println!("[{}]", res);
    println!("-------------------");

    let content = r#"<!-- more -->"#;
    let res = remove_comments(content).unwrap();
    println!("[{}]", res);
    println!("-------------------");
}

#[test]
fn unterminated_comment_fails() {
    assert_eq!(remove_comments("a <!-- b"), Err(ContentError::UnterminatedComment));
    assert_eq!(remove_comments("a --> b"), Ok("a --> b".to_string()));
}

#[test]
fn split_lines_matches_std() {
    for text in ["", "a", "a\n", "a\nb", "a\r\nb\r\n", "\n\n", "x\ry\n", "a\r", "a\nb\r"] {
        let got: Vec<String> = split_lines(text).iter().map(|l| l.iter().collect()).collect();
        let want: Vec<String> = text.lines().map(|l| l.to_string()).collect();
        assert_eq!(got, want);
    }
}

#[test]
fn preview_stops_before_break_line() {
    let lines = split_lines("one\ntwo\nthree\nfour\nfive <!-- more -->\nsix\n");
    assert_eq!(extract_content(&lines, 0, &preview("<!-- more -->", None)), "one\ntwo\nthree\nfour\n");
    assert_eq!(extract_content(&lines, 0, &RenderOptions::FullContent), "one\ntwo\nthree\nfour\nfive <!-- more -->\nsix\n");
}

#[test]
fn preview_line_limit_is_independent() {
    let lines = split_lines("one\ntwo\nthree\nfour\n<!-- more -->\nsix\n");
    assert_eq!(extract_content(&lines, 0, &preview("<!-- more -->", Some(2))), "one\ntwo\n");
    assert_eq!(extract_content(&lines, 0, &preview("<!-- more -->", Some(10))), "one\ntwo\nthree\nfour\n");
    assert_eq!(extract_content(&lines, 1, &preview("<!-- more -->", Some(0))), "");
    assert_eq!(extract_content(&lines, 1, &preview("never", None)), "two\nthree\nfour\n<!-- more -->\nsix\n");
    assert_eq!(extract_content(&lines, 9, &RenderOptions::FullContent), "");
}

#[test]
fn markdown_title_is_found() {
    let lines = split_lines("intro\n# The title\nbody\n");
    assert_eq!(parse_title_markdown(&lines, 0), ("The title".to_string(), 2));
    let lines = split_lines("no title here\n");
    assert_eq!(parse_title_markdown(&lines, 0), ("".to_string(), 1));
}

#[test]
fn html_title_is_found() {
    let lines = split_lines("-->\n\n<h2>What I learned</h2>\n<p>x</p>\n");
    assert_eq!(parse_title_html(&lines, 0), ("What I learned".to_string(), 3));
    let lines = split_lines("<h1></h1>\n<p>x</p>\n");
    assert_eq!(parse_title_html(&lines, 0), ("".to_string(), 2));
}

#[test]
fn unknown_unicode_key_is_skipped() {
    let text = "[ID]: # (x)\n[TÍTULO]: # (Olá)\n[AUTHOR]: # (thiago)\n[DATE]: # (2024-02-12 22:54:00)\n";
    let (header, cursor) = parse_texted_header("u.md", &split_lines(text)).unwrap();
    assert_eq!(header.author, "thiago");
    assert_eq!(cursor, 4);
    assert_eq!(kv("[TÍTULO]: # (Olá)"), pair("TÍTULO", "Olá"));
}
