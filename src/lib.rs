use vstd::prelude::*;

pub mod text;
pub mod paginator;
pub mod error;
pub mod parsing;
pub mod images;
pub mod render;
pub mod header;
pub mod date;
pub mod content;
pub mod cache;
pub mod query;
pub mod config;
pub mod metrics;
pub mod scaffold;
pub mod listing;
pub mod post_list;

pub use paginator::Paginator;
pub use error::ContentError;
pub use parsing::remove_comments;
pub use images::change_images;
pub use render::{HtmlRenderer, TextedRenderer};
pub use header::extract_tags;
pub use date::DateTime;
pub use cache::{ContentCache, Duration, Expire};
pub use query::QueryString;
pub use config::{get_preview_option, Defaults, Log, LogLevel, Metrics, Paths, RssFeed, Server};
pub use listing::{
    full_link, page_or_first, posts_with_tag, preview_render_options, render_content, sort_by_date_desc,
    sort_by_frequency, tag_counts, RssChannel,
};
pub use post_list::{list_post_files, PostLink, PostList};
pub use scaffold::{render_body, render_header};
pub use metrics::{EventApi, ListDetail, MetricEvent, PageDetail, PostDetail};
pub use content::{
    BreakTag, Content, ContentFile, ContentFormat, ContentHeader, ImagePrefix, MaxLineCount, PostId,
    PreviewOptions, RenderOptions,
};

verus! {

} // verus!
