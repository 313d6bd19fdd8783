use vstd::prelude::*;

use crate::content::{
    header_view, options_view, Content, ContentFile, ContentFormat, ContentHeader, PostId,
    RenderOptions,
};
use crate::date::DateTime;
use crate::error::ContentError;
use crate::images::{change_images, rewrite_html_images, rewrite_md_images};
use crate::parsing::{
    body_spec, extract_content, lines_of, parse_header_spec, parse_texted_header,
    parse_title_html, parse_title_markdown, remove_comments, split_lines, strip_comments,
    title_html_spec, title_markdown_spec,
};
use crate::text::{chars_of, ends_with, exec_ends_with, string_of};

verus! {

/// The HTML the GitHub-flavoured Markdown converter makes of a text.
pub uninterp spec fn gfm_html(md: Seq<char>) -> Seq<char>;

/// Relies on `markdown::to_html_with_options` with `Options::gfm()`: the
/// HTML depends on the text alone, and, as the crate documents, the call
/// never fails when MDX is off, which `Options::gfm()` leaves it.
#[verifier::external_body]
fn markdown_to_html(md: &str) -> (r: String)
    ensures
        r@ == gfm_html(md@),
{
    markdown::to_html_with_options(md, &markdown::Options::gfm()).unwrap()
}

/// Renders content written in Markdown.
pub struct TextedRenderer {}

/// Renders content written as HTML.
pub struct HtmlRenderer {}

/// Why rendering failed.
pub enum RenderFailure {
    /// The file is not in the renderer's format.
    Unsupported,
    /// A comment in the body is never closed.
    Unterminated,
}

/// The date given to content without a readable header: 1970-01-01 00:00:00.
pub open spec fn epoch() -> DateTime {
    DateTime { year: 1970, month: 1, day: 1, hour: 0, minute: 0, second: 0 }
}

/// The header of a file and the line where its title search starts. A file
/// without a readable header gets one made from its path: the path as id,
/// the epoch as date, no author and no tags; the title search then starts
/// at the first line.
pub open spec fn header_or_fallback(lines: Seq<Seq<char>>, path: Seq<char>) -> (
    (Seq<char>, Seq<char>, DateTime, Seq<char>, Seq<Seq<char>>),
    nat,
) {
    match parse_header_spec(lines) {
        Ok((id, date, author, tags, k)) => ((path, id, date, author, tags), k),
        Err(_) => ((path, path, epoch(), Seq::empty(), Seq::empty()), 0),
    }
}

/// The header, title and HTML that rendering Markdown content gives.
pub open spec fn texted_render_spec(
    format: ContentFormat,
    raw: Seq<char>,
    path: Seq<char>,
    opts: Option<(Option<int>, Seq<char>, Seq<char>)>,
) -> Result<((Seq<char>, Seq<char>, DateTime, Seq<char>, Seq<Seq<char>>), Seq<char>, Seq<char>), RenderFailure> {
    if format != ContentFormat::Texted {
        Err(RenderFailure::Unsupported)
    } else {
        let lines = lines_of(raw);
        let (hv, c) = header_or_fallback(lines, path);
        let (title, k) = title_markdown_spec(lines, c);
        match markdown_body_spec(body_spec(lines, k, opts), opts) {
            Err(e) => Err(e),
            Ok(html) => Ok((hv, title, html)),
        }
    }
}

/// The HTML for a Markdown body: comments removed, image targets rewritten
/// for a preview, then converted; fails only on an unclosed comment.
pub open spec fn markdown_body_spec(
    body: Seq<char>,
    opts: Option<(Option<int>, Seq<char>, Seq<char>)>,
) -> Result<Seq<char>, RenderFailure> {
    match strip_comments(body) {
        None => Err(RenderFailure::Unterminated),
        Some(b) => {
            let b2 = match opts {
                Some((_, _, prefix)) => rewrite_md_images(prefix, b),
                None => b,
            };
            Ok(gfm_html(b2))
        },
    }
}

/// The header, title and HTML that rendering HTML content gives.
pub open spec fn html_render_spec(
    format: ContentFormat,
    raw: Seq<char>,
    path: Seq<char>,
    opts: Option<(Option<int>, Seq<char>, Seq<char>)>,
) -> Result<((Seq<char>, Seq<char>, DateTime, Seq<char>, Seq<Seq<char>>), Seq<char>, Seq<char>), RenderFailure> {
    if format != ContentFormat::Html {
        Err(RenderFailure::Unsupported)
    } else {
        let lines = lines_of(raw);
        let (hv, c) = header_or_fallback(lines, path);
        let (title, k) = title_html_spec(lines, c);
        let body = body_spec(lines, k, opts);
        let html = match opts {
            Some((_, _, prefix)) => rewrite_html_images(prefix, body),
            None => body,
        };
        Ok((hv, title, html))
    }
}

/// A rendering outcome matches what the specification of the renderer gives.
pub open spec fn render_matches(
    r: Result<Content, ContentError>,
    file: &ContentFile,
    expected: Result<((Seq<char>, Seq<char>, DateTime, Seq<char>, Seq<Seq<char>>), Seq<char>, Seq<char>), RenderFailure>,
) -> bool {
    match expected {
        Ok((hv, title, html)) => r matches Ok(c) && header_view(c.header) == hv && c.link@ == file.link@
            && c.title@ == title && c.rendered@ == html,
        Err(RenderFailure::Unsupported) => r matches Err(ContentError::UnsupportedFormat(p))
            && p@ == file.file_path@,
        Err(RenderFailure::Unterminated) => r matches Err(ContentError::UnterminatedComment),
    }
}

impl TextedRenderer {
    /// Reads the header of `lines`, or makes one from the path when there is
    /// none; see `header_or_fallback`.
    pub fn parse_markdown_header(file_path: &str, lines: &Vec<Vec<char>>) -> (r: (ContentHeader, usize))
        ensures
            (header_view(r.0), r.1 as nat) == header_or_fallback(crate::parsing::lines_view(lines@), file_path@),
    {
        match parse_texted_header(file_path, lines) {
            Ok((h, k)) => (h, k),
            Err(_) => {
                let h = ContentHeader {
                    file_name: file_path.to_owned(),
                    id: PostId(file_path.to_owned()),
                    date: DateTime { year: 1970, month: 1, day: 1, hour: 0, minute: 0, second: 0 },
                    author: string_of(Vec::new().as_slice()),
                    tags: Vec::new(),
                };
                proof {
                    assert(crate::header::strings_view(h.tags@) =~= Seq::<Seq<char>>::empty());
                }
                (h, 0)
            },
        }
    }

    /// Renders Markdown content: header (or one made from the path), title,
    /// body as the options say, comments removed, image targets rewritten
    /// for a preview, then converted to HTML.
    pub fn render(content_file: &ContentFile, render_options: RenderOptions) -> (r: Result<Content, ContentError>)
        ensures
            render_matches(
                r,
                content_file,
                texted_render_spec(
                    content_file.format,
                    content_file.raw_content@,
                    content_file.file_path@,
                    options_view(render_options),
                ),
            ),
    {
        if content_file.format != ContentFormat::Texted {
            return Err(ContentError::UnsupportedFormat(content_file.file_path.clone()));
        }
        let lines = split_lines(content_file.raw_content.as_str());
        let (header, cursor) = Self::parse_markdown_header(content_file.file_path.as_str(), &lines);
        let (title, k) = parse_title_markdown(&lines, cursor);
        let content = extract_content(&lines, k, &render_options);
        let rendered = match &render_options {
            RenderOptions::PreviewOnly(_, prefix) => Self::render_markdown(content.as_str(), Some(prefix.0.as_str())),
            RenderOptions::FullContent => Self::render_markdown(content.as_str(), None),
        };
        match rendered {
            Ok(rendered) => Ok(Content { header, link: content_file.link.clone(), title, rendered }),
            Err(e) => Err(e),
        }
    }

    /// Removes comments, rewrites image targets under `img_prefix` when one
    /// is given, and converts the Markdown to HTML.
    pub fn render_markdown(md_text: &str, img_prefix: Option<&str>) -> (r: Result<String, ContentError>)
        ensures
            match markdown_body_spec(
                md_text@,
                match img_prefix {
                    Some(p) => Some((None, Seq::empty(), p@)),
                    None => None,
                },
            ) {
                Ok(h) => r matches Ok(s) && s@ == h,
                Err(_) => r matches Err(ContentError::UnterminatedComment),
            },
    {
        let buf = match remove_comments(md_text) {
            Ok(b) => b,
            Err(e) => {
                return Err(e);
            },
        };
        let buf = match img_prefix {
            Some(p) => change_images(p, buf.as_str()),
            None => buf,
        };
        Ok(markdown_to_html(buf.as_str()))
    }
}

impl HtmlRenderer {
    /// Renders HTML content: header (or one made from the path), title from
    /// the first `<h1>`/`<h2>` line, body as the options say, image sources
    /// rewritten for a preview.
    pub fn render(content_file: &ContentFile, render_options: RenderOptions) -> (r: Result<Content, ContentError>)
        ensures
            render_matches(
                r,
                content_file,
                html_render_spec(
                    content_file.format,
                    content_file.raw_content@,
                    content_file.file_path@,
                    options_view(render_options),
                ),
            ),
    {
        if content_file.format != ContentFormat::Html {
            return Err(ContentError::UnsupportedFormat(content_file.file_path.clone()));
        }
        let lines = split_lines(content_file.raw_content.as_str());
        let (header, cursor) = TextedRenderer::parse_markdown_header(content_file.file_path.as_str(), &lines);
        let (title, k) = parse_title_html(&lines, cursor);
        let content = extract_content(&lines, k, &render_options);
        let rendered = match &render_options {
            RenderOptions::PreviewOnly(_, prefix) => Self::change_images(prefix.0.as_str(), content.as_str()),
            RenderOptions::FullContent => content,
        };
        Ok(Content { header, link: content_file.link.clone(), title, rendered })
    }
}

/// Rendering unchanged Markdown content twice in the same mode gives the
/// same outcome: both succeed with the same header, title and HTML, or both
/// fail the same way.
pub proof fn lemma_texted_render_repeatable(
    file: &ContentFile,
    opts: RenderOptions,
    r1: Result<Content, ContentError>,
    r2: Result<Content, ContentError>,
)
    requires
        render_matches(r1, file, texted_render_spec(file.format, file.raw_content@, file.file_path@, options_view(opts))),
        render_matches(r2, file, texted_render_spec(file.format, file.raw_content@, file.file_path@, options_view(opts))),
    ensures
        r1 is Ok <==> r2 is Ok,
        r1 matches Ok(c1) ==> (r2 matches Ok(c2) && c1.rendered@ == c2.rendered@ && c1.title@ == c2.title@
            && header_view(c1.header) == header_view(c2.header)),
{
}

/// Rendering unchanged HTML content twice in the same mode gives the same
/// outcome: both succeed with the same header, title and HTML, or both fail.
pub proof fn lemma_html_render_repeatable(
    file: &ContentFile,
    opts: RenderOptions,
    r1: Result<Content, ContentError>,
    r2: Result<Content, ContentError>,
)
    requires
        render_matches(r1, file, html_render_spec(file.format, file.raw_content@, file.file_path@, options_view(opts))),
        render_matches(r2, file, html_render_spec(file.format, file.raw_content@, file.file_path@, options_view(opts))),
    ensures
        r1 is Ok <==> r2 is Ok,
        r1 matches Ok(c1) ==> (r2 matches Ok(c2) && c1.rendered@ == c2.rendered@ && c1.title@ == c2.title@
            && header_view(c1.header) == header_view(c2.header)),
{
}

/// The format a file name announces: `.md` for Markdown, `.html` or `.htm`
/// for HTML.
pub open spec fn format_of(name: Seq<char>) -> Option<ContentFormat> {
    if ends_with(name, seq!['.', 'm', 'd']) {
        Some(ContentFormat::Texted)
    } else if ends_with(name, seq!['.', 'h', 't', 'm', 'l']) || ends_with(name, seq!['.', 'h', 't', 'm']) {
        Some(ContentFormat::Html)
    } else {
        None
    }
}

impl ContentFile {
    /// The format a file name announces; see `format_of`.
    pub fn guess_type(file_name: &str) -> (r: Option<ContentFormat>)
        ensures
            r == format_of(file_name@),
    {
        let s = chars_of(file_name);
        let md = chars_of(".md");
        let html = chars_of(".html");
        let htm = chars_of(".htm");
        proof {
            reveal_strlit(".md");
            reveal_strlit(".html");
            reveal_strlit(".htm");
            assert(md@ =~= seq!['.', 'm', 'd']);
            assert(html@ =~= seq!['.', 'h', 't', 'm', 'l']);
            assert(htm@ =~= seq!['.', 'h', 't', 'm']);
        }
        if exec_ends_with(s.as_slice(), md.as_slice()) {
            Some(ContentFormat::Texted)
        } else if exec_ends_with(s.as_slice(), html.as_slice()) || exec_ends_with(s.as_slice(), htm.as_slice()) {
            Some(ContentFormat::Html)
        } else {
            None
        }
    }

    /// A content file from its link, path and text, in the format its path
    /// announces; fails with `UnsupportedFormat` for any other extension.
    pub fn from_content(link: String, file_path: String, raw_content: String) -> (r: Result<ContentFile, ContentError>)
        ensures
            match format_of(file_path@) {
                Some(f) => r matches Ok(c) && c.format == f && c.link == link && c.file_path == file_path
                    && c.raw_content == raw_content,
                None => r matches Err(ContentError::UnsupportedFormat(p)) && p == file_path,
            },
    {
        match Self::guess_type(file_path.as_str()) {
            Some(format) => Ok(ContentFile { link, file_path, format, raw_content }),
            None => Err(ContentError::UnsupportedFormat(file_path)),
        }
    }
}

} // verus!
