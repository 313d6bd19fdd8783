use vstd::prelude::*;

use crate::content::{BreakTag, MaxLineCount, PreviewOptions};
use crate::text::{chars_of, string_of};

verus! {

/// Where templates, public files, posts and pages live.
pub struct Paths {
    pub template_dir: String,
    pub public_dir: String,
    pub posts_dir: String,
    pub pages_dir: String,
}

/// Defaults for listing and rendering.
pub struct Defaults {
    pub index_base_name: Option<String>,
    pub summary_line_count: Option<i32>,
    pub summary_line_tag: Option<String>,
    pub page_size: u32,
    pub rendering_cache_enabled: bool,
}

/// The address the server listens on.
pub struct Server {
    pub address: String,
    pub port: u16,
}

/// Logging settings.
pub struct Log {
    pub level: LogLevel,
    pub log_to_console: bool,
    pub location: Option<String>,
}

/// How much is logged, from least to most.
#[derive(Debug, Clone, Copy, PartialEq, Eq, Structural)]
pub enum LogLevel {
    Critical,
    Error,
    Warn,
    Info,
    Debug,
    Trace,
}

/// Where access metrics go and how they are grouped in time.
pub struct Metrics {
    pub location: Option<String>,
    pub time_slot_secs: Option<i64>,
}

/// The RSS feed's channel settings.
pub struct RssFeed {
    pub title: String,
    pub site_url: String,
    pub description: String,
    pub page_size: u32,
}

/// The preview break marker used when none is configured.
pub open spec fn default_break_tag() -> Seq<char> {
    seq!['<', '!', '-', '-', ' ', 'm', 'o', 'r', 'e', ' ', '-', '-', '>']
}

/// How previews are cut under these defaults: at the configured break tag
/// (`<!-- more -->` when none is set), and after the configured number of
/// lines when one is set.
pub fn get_preview_option(defaults: &Defaults) -> (r: PreviewOptions)
    ensures
        r.tag_based.0@ == match defaults.summary_line_tag {
            Some(t) => t@,
            None => default_break_tag(),
        },
        r.max_line_count == match defaults.summary_line_count {
            Some(n) => Some(MaxLineCount(n)),
            None => None::<MaxLineCount>,
        },
{
    let tag = match &defaults.summary_line_tag {
        Some(t) => t.clone(),
        None => {
            proof {
                reveal_strlit("<!-- more -->");
                assert("<!-- more -->"@ =~= default_break_tag());
            }
            string_of(chars_of("<!-- more -->").as_slice())
        },
    };
    let max_line_count = match defaults.summary_line_count {
        Some(n) => Some(MaxLineCount(n)),
        None => None,
    };
    PreviewOptions { max_line_count, tag_based: BreakTag(tag) }
}

} // verus!
