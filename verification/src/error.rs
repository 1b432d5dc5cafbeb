//! The errors of fetching pages, resolving names and talking to the graph.
use vstd::prelude::*;

verus! {

/// What went wrong while crawling. The underlying errors of the HTTP client,
/// the resolver and the graph database are carried as their messages.
pub enum CrawlerError {
    /// The request to `url` timed out.
    HttpTimeout { url: String },
    /// `url` answered with a status outside 2xx.
    HttpStatus { url: String, status: u16 },
    /// The request to `url` failed for another reason.
    HttpRequest { url: String, message: String },
    /// The body of the reply from `url` could not be read.
    HttpBodyRead { url: String, message: String },
    /// `name` could not be resolved.
    DnsResolution { name: String, message: String },
    /// The graph database could not be reached.
    Neo4jConnection(String),
    /// A graph query failed.
    Neo4jQuery(String),
}

} // verus!
