use vstd::prelude::*;

use crate::date::DateTime;
use crate::header::strings_view;

verus! {

/// Opaque identifier of a post, independent of its link.
#[derive(Debug, Clone, PartialEq, Eq, Hash)]
pub struct PostId(pub String);

/// The metadata at the top of a content file.
#[derive(Debug, Clone, PartialEq)]
pub struct ContentHeader {
    pub file_name: String,
    pub id: PostId,
    pub date: DateTime,
    pub author: String,
    pub tags: Vec<String>,
}

/// A header seen as values: file name, id, date, author and tags.
pub open spec fn header_view(h: ContentHeader) -> (Seq<char>, Seq<char>, DateTime, Seq<char>, Seq<Seq<char>>) {
    (h.file_name@, h.id.0@, h.date, h.author@, strings_view(h.tags@))
}

/// A rendered post or page.
pub struct Content {
    pub header: ContentHeader,
    pub link: String,
    pub title: String,
    pub rendered: String,
}

/// The two source formats of content.
#[derive(Debug, Clone, Copy, PartialEq, Eq, Structural)]
pub enum ContentFormat {
    /// Markdown with the header micro-format.
    Texted,
    /// HTML with the header in a leading comment.
    Html,
}

/// A content file as read from disk.
pub struct ContentFile {
    pub link: String,
    pub file_path: String,
    pub format: ContentFormat,
    pub raw_content: String,
}

/// The link prefix put in front of relative image sources in previews.
#[derive(Clone)]
pub struct ImagePrefix(pub String);

/// The most lines a preview may hold.
#[derive(Clone, Copy)]
pub struct MaxLineCount(pub i32);

/// The marker that ends a preview.
#[derive(Clone)]
pub struct BreakTag(pub String);

/// How a preview is cut.
#[derive(Clone)]
pub struct PreviewOptions {
    pub max_line_count: Option<MaxLineCount>,
    pub tag_based: BreakTag,
}

/// Whether to render all of a body or a preview of it.
#[derive(Clone)]
pub enum RenderOptions {
    PreviewOnly(PreviewOptions, ImagePrefix),
    FullContent,
}

/// Render options seen as values: for a preview, its line limit, its break
/// tag and its image prefix.
pub open spec fn options_view(o: RenderOptions) -> Option<(Option<int>, Seq<char>, Seq<char>)> {
    match o {
        RenderOptions::FullContent => None,
        RenderOptions::PreviewOnly(p, ImagePrefix(prefix)) => Some((
            match p.max_line_count {
                Some(MaxLineCount(m)) => Some(m as int),
                None => None,
            },
            p.tag_based.0@,
            prefix@,
        )),
    }
}

} // verus!
