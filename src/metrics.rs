use vstd::prelude::*;

verus! {

/// The post a view event is about.
pub struct PostDetail {
    pub post_name: String,
}

/// The page a page event is about.
pub struct PageDetail {
    pub page_name: String,
}

/// The tag a list event filtered on, if any.
pub struct ListDetail {
    pub tag: Option<String>,
}

/// Which part of the site was accessed.
pub enum EventApi {
    View(PostDetail),
    Page(PageDetail),
    List(ListDetail),
    Index,
    Rss,
}

/// One access, and who made it.
pub struct MetricEvent {
    pub api: EventApi,
    pub origin: String,
}

} // verus!
