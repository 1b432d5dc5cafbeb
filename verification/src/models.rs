//! The bodies of the crawl API's requests and replies.
use vstd::prelude::*;

verus! {

/// A request to start a crawl.
pub struct CrawlRequest {
    pub url: String,
    pub depth: i64,
    /// Absent in a request body means "not targeted".
    pub targeted: Option<bool>,
}

/// The reply to a started crawl.
pub struct CrawlResponse {
    pub crawl_id: String,
    pub status: String,
}

/// Progress of one crawl.
pub struct CrawlProgress {
    pub crawl_id: String,
    pub status: String,
    pub total: i64,
    pub completed: i64,
    pub pending: i64,
    pub in_progress: i64,
    pub failed: i64,
    pub cancelled: i64,
    pub root_url: String,
    pub requested_depth: i64,
    pub targeted: bool,
}

/// One crawl in a listing.
pub struct CrawlListItem {
    pub crawl_id: String,
    pub root_url: String,
    pub requested_depth: i64,
    pub status: String,
    pub total: i64,
    pub completed: i64,
    pub failed: i64,
    pub cancelled: i64,
    pub targeted: bool,
}

/// A page of the crawl listing.
pub struct CrawlListResponse {
    pub crawls: Vec<CrawlListItem>,
    pub total: i64,
    pub offset: i64,
    pub limit: i64,
}

/// Statistics of one crawl.
pub struct CrawlStats {
    pub crawl_id: String,
    pub total_urls: i64,
    pub unique_domains: i64,
    pub max_depth_reached: i64,
    pub status_counts: StatusCounts,
}

/// How many URL jobs of a crawl are in each status.
pub struct StatusCounts {
    pub pending: i64,
    pub in_progress: i64,
    pub completed: i64,
    pub failed: i64,
    pub cancelled: i64,
}

} // verus!
