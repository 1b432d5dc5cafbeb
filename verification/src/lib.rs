//! A web crawler's core: URL normalization, registered domains, link
//! extraction, and the decisions of the feeder and of the crawl API, with
//! their contracts proved by Verus.
//!
//! - `text`: character-level helpers and the trusted std string calls.
//! - `url_normalize`: URLs to normalized host names; registered domains.
//! - `crawler`: fetched pages, links found in them, fetch errors.
//! - `error`: the crawler's errors.
//! - `job`: URL jobs, retries, link deduplication, scoping, child nodes.
//! - `feeding`: the processing of one job, as a state machine.
//! - `models`: the bodies of the crawl API.
//! - `routes`: starting a crawl (a state machine) and cancelling one.
//! - `poll`: the feeder's idle backoff.

pub mod text;
pub mod url_normalize;
pub mod crawler;
pub mod error;
pub mod job;
pub mod feeding;
pub mod models;
pub mod poll;
pub mod routes;
