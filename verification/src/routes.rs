//! The decisions of the crawl API: starting a crawl and cancelling one.
use vstd::prelude::*;

use crate::crawler::{
    extract_urls, extracted_urls, is_web_scheme, lemma_some_indices, lists_present_positions,
    some_indices, views, web_scheme, NetworkStats,
};
use crate::error::CrawlerError;
use crate::job::{names_of_pairs, pair_names, pair_views, stats_view, stats_views};
use crate::models::CrawlRequest;
use crate::text::{chars_eq, chars_of};
use crate::url_normalize::{
    parse_url, url_parts,
    in_registered_domain, is_same_registered_domain, normalize_url, normalized_url,
    registered_domain, registered_domain_of,
};

verus! {

broadcast use vstd::seq_lib::group_seq_properties;

/// The deepest crawl that can be requested.
pub const MAX_CRAWL_DEPTH: i64 = 5;

// ---------------------------------------------------------------------
// Status codes
// ---------------------------------------------------------------------

/// The HTTP status that answers a crawler error: a timeout is 504, a 404
/// from the site is 404, other HTTP and resolution failures are 502, and
/// database failures are 500.
pub open spec fn status_for_error(e: CrawlerError) -> u16 {
    match e {
        CrawlerError::HttpTimeout { .. } => 504,
        CrawlerError::HttpStatus { status, .. } => if status == 404 {
            404
        } else {
            502
        },
        CrawlerError::HttpRequest { .. } => 502,
        CrawlerError::HttpBodyRead { .. } => 502,
        CrawlerError::DnsResolution { .. } => 502,
        CrawlerError::Neo4jConnection(_) => 500,
        CrawlerError::Neo4jQuery(_) => 500,
    }
}

/// Maps a crawler error to the HTTP status of the reply.
pub fn crawler_error_to_status(err: &CrawlerError) -> (status: u16)
    ensures
        status == status_for_error(*err),
        *err matches CrawlerError::HttpStatus { status: s, .. } ==> status == (if s == 404 {
            404u16
        } else {
            502u16
        }),
{
    match err {
        CrawlerError::HttpTimeout { .. } => 504,
        CrawlerError::HttpStatus { status, .. } => if *status == 404 {
            404
        } else {
            502
        },
        CrawlerError::HttpRequest { .. } | CrawlerError::HttpBodyRead { .. } => 502,
        CrawlerError::DnsResolution { .. } => 502,
        CrawlerError::Neo4jConnection(_) | CrawlerError::Neo4jQuery(_) => 500,
    }
}

/// How a failed fetch of the root page is answered. A reply of the site is
/// answered 404 exactly when the site said 404; every other site status,
/// every 5xx among them, is a bad gateway (502), so the API never passes a
/// site's own 5xx on as its own. A timeout is 504, a failed request, an
/// unreadable body or a failed resolution 502, a database failure 500; and
/// the reply to a failed fetch carries that status.
pub proof fn lemma_fetch_failure_status(e: CrawlerError)
    ensures
        e matches CrawlerError::HttpStatus { status, .. } ==> (status_for_error(e) == 404 <==> status == 404),
        e matches CrawlerError::HttpStatus { status, .. } ==> (status != 404 ==> status_for_error(e) == 502),
        e is HttpTimeout ==> status_for_error(e) == 504,
        (e is HttpRequest || e is HttpBodyRead || e is DnsResolution) ==> status_for_error(e) == 502,
        (e is Neo4jConnection || e is Neo4jQuery) ==> status_for_error(e) == 500,
        status_for_error(e) == 404 || status_for_error(e) == 500 || status_for_error(e) == 502
            || status_for_error(e) == 504,
        reply_status(CrawlReply::FetchFailed(e)) == status_for_error(e),
{
}

/// Whether a requested depth is allowed: from 1 to `MAX_CRAWL_DEPTH`.
pub fn depth_allowed(depth: i64) -> (ok: bool)
    ensures
        ok == (1 <= depth && depth <= MAX_CRAWL_DEPTH),
{
    !(depth < 1 || depth > MAX_CRAWL_DEPTH)
}

// ---------------------------------------------------------------------
// Replies
// ---------------------------------------------------------------------

/// How a request to start a crawl is answered.
pub enum CrawlReply {
    /// 201: the crawl was created and is running.
    Created { crawl_id: String },
    /// 400: the requested depth is not between 1 and `MAX_CRAWL_DEPTH`.
    DepthOutOfRange,
    /// 400: the URL is no absolute http or https URL with a host.
    InvalidUrl,
    /// 400: a targeted crawl whose root has no registered domain.
    NoRegisteredDomain,
    /// The root page could not be fetched; the status follows the error.
    FetchFailed(CrawlerError),
    /// 502: the root name did not resolve.
    RootDnsFailed(CrawlerError),
    /// 500: the crawl could not be written to the graph.
    DatabaseError,
}

/// The HTTP status of a reply.
pub open spec fn reply_status(reply: CrawlReply) -> u16 {
    match reply {
        CrawlReply::Created { .. } => 201,
        CrawlReply::DepthOutOfRange => 400,
        CrawlReply::InvalidUrl => 400,
        CrawlReply::NoRegisteredDomain => 400,
        CrawlReply::FetchFailed(e) => status_for_error(e),
        CrawlReply::RootDnsFailed(_) => 502,
        CrawlReply::DatabaseError => 500,
    }
}

impl CrawlReply {
    /// The HTTP status of the reply.
    pub fn status(&self) -> (code: u16)
        ensures
            code == reply_status(*self),
    {
        match self {
            CrawlReply::Created { .. } => 201,
            CrawlReply::DepthOutOfRange => 400,
            CrawlReply::InvalidUrl => 400,
            CrawlReply::NoRegisteredDomain => 400,
            CrawlReply::FetchFailed(e) => crawler_error_to_status(e),
            CrawlReply::RootDnsFailed(_) => 502,
            CrawlReply::DatabaseError => 500,
        }
    }
}

/// How a request to cancel a crawl is answered.
#[derive(Clone, Copy, Debug, PartialEq, Eq, Structural)]
pub enum CancelReply {
    /// 200: the crawl was cancelled.
    Cancelled,
    /// 404: no such crawl.
    NotFound,
    /// 500: the graph could not be updated.
    DatabaseError,
}

/// Answers a cancellation from what the graph said: `Some(found)` when the
/// update ran, `None` when it failed.
pub fn cancel_reply(outcome: Option<bool>) -> (res: (u16, CancelReply))
    ensures
        outcome == Some(true) ==> res == (200u16, CancelReply::Cancelled),
        outcome == Some(false) ==> res == (404u16, CancelReply::NotFound),
        outcome is None ==> res == (500u16, CancelReply::DatabaseError),
{
    match outcome {
        Some(true) => (200, CancelReply::Cancelled),
        Some(false) => (404, CancelReply::NotFound),
        None => (500, CancelReply::DatabaseError),
    }
}

// ---------------------------------------------------------------------
// Links of the root page
// ---------------------------------------------------------------------

/// The links of the root page, normalized, in order: all of them, or for
/// a targeted crawl those in the target domain. (Duplicates are kept; the
/// graph merges them.)
pub open spec fn root_links(urls: Seq<Seq<char>>, targeted: bool, target: Seq<char>) -> Seq<
    (Seq<char>, Seq<char>),
>
    decreases urls.len(),
{
    if urls.len() == 0 {
        Seq::empty()
    } else {
        let before = root_links(urls.drop_last(), targeted, target);
        let link = normalized_url(urls.last());
        if !targeted || in_registered_domain(link.0, target) {
            before.push(link)
        } else {
            before
        }
    }
}

/// Normalizes the links of the root page and keeps those the crawl follows.
pub fn crawl_links(urls: &Vec<String>, targeted: bool, target_domain: &String) -> (res: Vec<
    (String, String),
>)
    ensures
        pair_views(res@) == root_links(views(urls@), targeted, target_domain@),
{
    let ghost all = views(urls@);
    let mut res: Vec<(String, String)> = Vec::new();
    let mut i: usize = 0;
    while i < urls.len()
        invariant
            i <= urls.len(),
            all == views(urls@),
            pair_views(res@) == root_links(all.take(i as int), targeted, target_domain@),
        decreases urls.len() - i,
    {
        assert(all.take((i + 1) as int).drop_last() == all.take(i as int));
        assert(all.take((i + 1) as int).last() == urls@[i as int]@);
        let (name, proto) = normalize_url(urls[i].as_str());
        let ghost before = pair_views(res@);
        if !targeted || is_same_registered_domain(name.as_str(), target_domain.as_str()) {
            res.push((name, proto));
            assert(pair_views(res@) == before.push(normalized_url(all[i as int])));
        }
        i = i + 1;
    }
    assert(all.take(urls.len() as int) == all);
    res
}

/// A child of the root: (name, ip, domain, protocol).
pub open spec fn root_child_views(v: Seq<(String, String, String, String)>) -> Seq<
    (Seq<char>, Seq<char>, Seq<char>, Seq<char>),
> {
    v.map_values(|c: (String, String, String, String)| (c.0@, c.1@, c.2@, c.3@))
}

/// The links that resolved, as (name, ip, domain, protocol), in order.
pub open spec fn resolved_links(
    links: Seq<(Seq<char>, Seq<char>)>,
    stats: Seq<Option<(Seq<char>, Seq<char>)>>,
) -> Seq<(Seq<char>, Seq<char>, Seq<char>, Seq<char>)>
    decreases links.len(),
{
    if links.len() == 0 || stats.len() == 0 {
        Seq::empty()
    } else {
        let before = resolved_links(links.drop_last(), stats.drop_last());
        match stats.last() {
            Some((ip, domain)) => before.push((links.last().0, ip, domain, links.last().1)),
            None => before,
        }
    }
}

/// Pairs each link with how it resolved, dropping those that did not.
pub fn resolved_root_children(
    links: &Vec<(String, String)>,
    stats: &Vec<Option<NetworkStats>>,
) -> (res: Vec<(String, String, String, String)>)
    requires
        links.len() == stats.len(),
    ensures
        root_child_views(res@) == resolved_links(pair_views(links@), stats_views(stats@)),
        // One child for each resolution that succeeded, none for the others.
        res@.len() == some_indices(stats_views(stats@)).len(),
        forall|k: int|
            0 <= k < stats.len() && (#[trigger] stats@[k]) is Some ==> exists|j: int|
                0 <= j < res@.len() && res@[j].0@ == links@[k].0@ && res@[j].1@
                    == stats@[k]->Some_0.ip@ && res@[j].2@ == stats@[k]->Some_0.domain@
                    && res@[j].3@ == links@[k].1@,
{
    let ghost l = pair_views(links@);
    let ghost s = stats_views(stats@);
    let mut res: Vec<(String, String, String, String)> = Vec::new();
    let mut i: usize = 0;
    while i < links.len()
        invariant
            i <= links.len(),
            links.len() == stats.len(),
            l == pair_views(links@),
            s == stats_views(stats@),
            root_child_views(res@) == resolved_links(l.take(i as int), s.take(i as int)),
        decreases links.len() - i,
    {
        assert(l.take((i + 1) as int).drop_last() == l.take(i as int));
        assert(s.take((i + 1) as int).drop_last() == s.take(i as int));
        assert(l.take((i + 1) as int).last() == l[i as int]);
        assert(s.take((i + 1) as int).last() == s[i as int]);
        let ghost before = root_child_views(res@);
        match &stats[i] {
            Some(st) => {
                res.push(
                    (links[i].0.clone(), st.ip.clone(), st.domain.clone(), links[i].1.clone()),
                );
                assert(root_child_views(res@) == before.push(
                    (l[i as int].0, st.ip@, st.domain@, l[i as int].1),
                ));
            },
            None => {},
        }
        i = i + 1;
    }
    assert(l.take(links.len() as int) == l);
    assert(s.take(links.len() as int) == s);
    proof {
        lemma_root_children_complete(links@, stats@, res@);
    }
    res
}

/// What `lemma_every_resolved_root_link_is_a_child` gives for built tuples.
proof fn lemma_root_children_complete(
    links: Seq<(String, String)>,
    stats: Seq<Option<NetworkStats>>,
    res: Seq<(String, String, String, String)>,
)
    requires
        links.len() == stats.len(),
        root_child_views(res) == resolved_links(pair_views(links), stats_views(stats)),
    ensures
        res.len() == some_indices(stats_views(stats)).len(),
        forall|k: int|
            0 <= k < stats.len() && (#[trigger] stats[k]) is Some ==> exists|j: int|
                0 <= j < res.len() && res[j].0@ == links[k].0@ && res[j].1@ == stats[k]->Some_0.ip@
                    && res[j].2@ == stats[k]->Some_0.domain@ && res[j].3@ == links[k].1@,
{
    let l = pair_views(links);
    let s = stats_views(stats);
    lemma_every_resolved_root_link_is_a_child(l, s);
    assert(root_child_views(res).len() == res.len());
    assert forall|k: int| 0 <= k < stats.len() && (#[trigger] stats[k]) is Some implies exists|j: int|
        0 <= j < res.len() && res[j].0@ == links[k].0@ && res[j].1@ == stats[k]->Some_0.ip@
            && res[j].2@ == stats[k]->Some_0.domain@ && res[j].3@ == links[k].1@ by {
        assert(s[k] == stats_view(stats[k]));
        assert(l[k] == (links[k].0@, links[k].1@));
        assert(s[k] is Some);
        let r = resolved_links(l, s);
        let j = choose|j: int|
            0 <= j < r.len() && r[j] == (l[k].0, s[k]->Some_0.0, s[k]->Some_0.1, l[k].1);
        assert(root_child_views(res)[j] == (res[j].0@, res[j].1@, res[j].2@, res[j].3@));
    }
}

/// Every followed link that resolved is a child of the root, and nothing
/// else is: the children are, in order, `(links[k].0, ip, domain,
/// links[k].1)` for each position `k` whose resolution is
/// `Some((ip, domain))`; so there are as many children as resolutions that
/// succeeded.
pub proof fn lemma_every_resolved_root_link_is_a_child(
    links: Seq<(Seq<char>, Seq<char>)>,
    stats: Seq<Option<(Seq<char>, Seq<char>)>>,
)
    requires
        links.len() == stats.len(),
    ensures
        lists_present_positions(some_indices(stats), stats),
        resolved_links(links, stats).len() == some_indices(stats).len(),
        forall|j: int|
            0 <= j < some_indices(stats).len() ==> #[trigger] resolved_links(links, stats)[j] == (
                links[some_indices(stats)[j]].0,
                stats[some_indices(stats)[j]]->Some_0.0,
                stats[some_indices(stats)[j]]->Some_0.1,
                links[some_indices(stats)[j]].1,
            ),
        forall|k: int|
            0 <= k < stats.len() && (#[trigger] stats[k]) is Some ==> exists|j: int|
                0 <= j < resolved_links(links, stats).len() && resolved_links(links, stats)[j] == (
                    links[k].0,
                    stats[k]->Some_0.0,
                    stats[k]->Some_0.1,
                    links[k].1,
                ),
    decreases links.len(),
{
    lemma_some_indices(stats);
    let r = resolved_links(links, stats);
    let idx = some_indices(stats);
    if links.len() > 0 {
        let ld = links.drop_last();
        let sd = stats.drop_last();
        lemma_every_resolved_root_link_is_a_child(ld, sd);
        let rd = resolved_links(ld, sd);
        let id = some_indices(sd);
        assert forall|j: int| 0 <= j < id.len() implies r[j] == rd[j] && idx[j] == id[j]
            && links[id[j]] == ld[id[j]] && stats[id[j]] == sd[id[j]] by {
            assert(0 <= id[j] < sd.len());
        }
    }
    assert forall|k: int| 0 <= k < stats.len() && (#[trigger] stats[k]) is Some implies exists|j: int|
        0 <= j < r.len() && r[j] == (links[k].0, stats[k]->Some_0.0, stats[k]->Some_0.1, links[k].1) by {
        let j = choose|j: int| 0 <= j < idx.len() && idx[j] == k;
        assert(r[j] == resolved_links(links, stats)[j]);
    }
}

/// A targeted crawl follows only links in its target domain, and the
/// children it starts with are among them: whatever the root page holds and
/// however the names resolve, every child's name lies in the target domain.
pub proof fn lemma_targeted_root_children_in_domain(
    urls: Seq<Seq<char>>,
    target: Seq<char>,
    stats: Seq<Option<(Seq<char>, Seq<char>)>>,
)
    ensures
        forall|i: int|
            0 <= i < root_links(urls, true, target).len() ==> in_registered_domain(
                (#[trigger] root_links(urls, true, target)[i]).0,
                target,
            ),
        forall|i: int|
            0 <= i < resolved_links(root_links(urls, true, target), stats).len()
                ==> in_registered_domain(
                (#[trigger] resolved_links(root_links(urls, true, target), stats)[i]).0,
                target,
            ),
    decreases urls.len(),
{
    let links = root_links(urls, true, target);
    lemma_root_links_in_target(urls, target);
    lemma_resolved_links_from(links, stats);
    assert forall|i: int| 0 <= i < resolved_links(links, stats).len() implies in_registered_domain(
        (#[trigger] resolved_links(links, stats)[i]).0,
        target,
    ) by {
        let c = resolved_links(links, stats)[i];
        assert(names_a_link(links, c.0));
        let k = choose|k: int| 0 <= k < links.len() && (#[trigger] links[k]).0 == c.0;
        assert(in_registered_domain(links[k].0, target));
    }
}

/// The links a targeted crawl follows lie in its target domain.
proof fn lemma_root_links_in_target(urls: Seq<Seq<char>>, target: Seq<char>)
    ensures
        forall|i: int|
            0 <= i < root_links(urls, true, target).len() ==> in_registered_domain(
                (#[trigger] root_links(urls, true, target)[i]).0,
                target,
            ),
    decreases urls.len(),
{
    if urls.len() > 0 {
        lemma_root_links_in_target(urls.drop_last(), target);
        let before = root_links(urls.drop_last(), true, target);
        let out = root_links(urls, true, target);
        assert forall|i: int| 0 <= i < out.len() implies in_registered_domain(
            (#[trigger] out[i]).0,
            target,
        ) by {
            if i < before.len() {
                assert(out[i] == before[i]);
            }
        }
    }
}

/// `name` is the name of one of the links.
pub open spec fn names_a_link(links: Seq<(Seq<char>, Seq<char>)>, name: Seq<char>) -> bool {
    exists|k: int| 0 <= k < links.len() && (#[trigger] links[k]).0 == name
}

/// Each resolved child is named after one of the links.
proof fn lemma_resolved_links_from(
    links: Seq<(Seq<char>, Seq<char>)>,
    stats: Seq<Option<(Seq<char>, Seq<char>)>>,
)
    ensures
        forall|i: int|
            0 <= i < resolved_links(links, stats).len() ==> names_a_link(
                links,
                (#[trigger] resolved_links(links, stats)[i]).0,
            ),
    decreases links.len(),
{
    if links.len() > 0 && stats.len() > 0 {
        let rest = links.drop_last();
        lemma_resolved_links_from(rest, stats.drop_last());
        let before = resolved_links(rest, stats.drop_last());
        let out = resolved_links(links, stats);
        assert forall|i: int| 0 <= i < out.len() implies names_a_link(links, (#[trigger] out[i]).0) by {
            if i < before.len() {
                assert(out[i] == before[i]);
                assert(names_a_link(rest, before[i].0));
                let k = choose|k: int| 0 <= k < rest.len() && (#[trigger] rest[k]).0 == before[i].0;
                assert(links[k] == rest[k]);
            } else {
                assert(links[links.len() - 1].0 == out[i].0);
            }
        }
    }
}

// ---------------------------------------------------------------------
// Starting a crawl

/// A URL a crawl can start from: it parses as an absolute URL with a host,
/// and its scheme is http or https.
pub open spec fn is_web_url(url: Seq<char>) -> bool {
    url_parts(url) matches Some((scheme, Some(_), _)) && is_web_scheme(scheme)
}

/// Whether a crawl can start from `url`.
pub fn web_url(url: &str) -> (res: bool)
    ensures
        res == is_web_url(url@),
{
    match parse_url(url) {
        Some(p) => p.host.is_some() && web_scheme(p.scheme.as_str()),
        None => false,
    }
}
// ---------------------------------------------------------------------

/// What the graph gets for a new crawl: the root node and its children.
pub struct CrawlGraph {
    pub crawl_id: String,
    pub root_name: String,
    pub root_ip: String,
    pub root_domain: String,
    pub http_type: String,
    pub depth: i64,
    pub request_time: String,
    /// (name, ip, domain, protocol) of each child.
    pub children: Vec<(String, String, String, String)>,
    pub targeted: bool,
    pub target_domain: String,
}

/// Where the start of a crawl stands.
pub enum CreateStage {
    /// Waiting for the root page.
    Fetching,
    /// Waiting for a fresh crawl id; the links of the root page are kept.
    Naming { links: Vec<String>, request_time: String },
    /// Waiting for the root name to resolve.
    ResolvingRoot { links: Vec<String>, request_time: String, crawl_id: String },
    /// Waiting for the followed links to resolve, in the order given.
    ResolvingLinks {
        followed: Vec<(String, String)>,
        root: NetworkStats,
        request_time: String,
        crawl_id: String,
    },
    /// Waiting for the crawl to be written.
    Writing { crawl_id: String },
    /// The request was answered.
    Replied,
}

/// What the outside work gave.
pub enum CreateEvent {
    /// The root page was fetched; `request_time` is how long it took.
    PageFetched { html: String, request_time: String },
    /// The root page could not be fetched.
    PageFailed(CrawlerError),
    /// A fresh crawl id.
    CrawlId(String),
    /// How the root name resolved.
    RootResolved(Result<NetworkStats, CrawlerError>),
    /// How each followed link resolved, in the same order.
    LinksResolved(Vec<Option<NetworkStats>>),
    /// Whether the crawl was written.
    GraphWritten(bool),
}

/// What to do next.
pub enum CreateAction {
    /// Fetch the page at this URL.
    FetchPage(String),
    /// Make a fresh crawl id.
    NewCrawlId,
    /// Resolve the root name.
    ResolveRoot(String),
    /// Resolve these names, in order.
    ResolveLinks(Vec<String>),
    /// Write this crawl to the graph.
    WriteGraph(CrawlGraph),
    /// Answer the request.
    Reply(CrawlReply),
}

/// The start of one crawl.
pub struct CreateCrawl {
    pub(crate) request: CrawlRequest,
    pub(crate) root_name: String,
    pub(crate) http_type: String,
    pub(crate) targeted: bool,
    pub(crate) target_domain: String,
    pub(crate) stage: CreateStage,
}

/// The stage waits for this kind of event.
pub open spec fn create_expects(stage: CreateStage, event: CreateEvent) -> bool {
    match stage {
        CreateStage::Fetching => event is PageFetched || event is PageFailed,
        CreateStage::Naming { .. } => event is CrawlId,
        CreateStage::ResolvingRoot { .. } => event is RootResolved,
        CreateStage::ResolvingLinks { followed, .. } => event matches CreateEvent::LinksResolved(
            stats,
        ) && stats.len() == followed.len(),
        CreateStage::Writing { .. } => event is GraphWritten,
        CreateStage::Replied => false,
    }
}

impl CreateCrawl {
    /// The request being answered.
    pub closed spec fn request_of(&self) -> CrawlRequest {
        self.request
    }

    /// The normalized name of the root.
    pub closed spec fn root_name_of(&self) -> String {
        self.root_name
    }

    /// The protocol of the root.
    pub closed spec fn http_type_of(&self) -> String {
        self.http_type
    }

    /// Whether the crawl is targeted.
    pub closed spec fn targeted_of(&self) -> bool {
        self.targeted
    }

    /// The registered domain a targeted crawl keeps to (empty otherwise).
    pub closed spec fn target_domain_of(&self) -> String {
        self.target_domain
    }

    /// Where the start of the crawl stands.
    pub closed spec fn stage_of(&self) -> CreateStage {
        self.stage
    }

    /// Until the request is answered, it passed its checks.
    #[verifier::type_invariant]
    pub(crate) closed spec fn inv(&self) -> bool {
        self.stage is Replied || self.wf()
    }

    /// The request being answered.
    pub fn request(&self) -> (r: &CrawlRequest)
        ensures
            *r == self.request_of(),
    {
        &self.request
    }

    /// The normalized name of the root.
    pub fn root_name(&self) -> (r: &String)
        ensures
            *r == self.root_name_of(),
    {
        &self.root_name
    }

    /// The registered domain a targeted crawl keeps to (empty otherwise).
    pub fn target_domain(&self) -> (r: &String)
        ensures
            *r == self.target_domain_of(),
    {
        &self.target_domain
    }

    /// What every state keeps: the request passed its checks, and the root
    /// and target are those of the request.
    pub open spec fn wf(&self) -> bool {
        &&& 1 <= self.request_of().depth <= MAX_CRAWL_DEPTH
        &&& is_web_url(self.request_of().url@)
        &&& self.root_name_of()@ == normalized_url(self.request_of().url@).0
        &&& self.http_type_of()@ == normalized_url(self.request_of().url@).1
        &&& self.targeted_of() == self.request_of().targeted.unwrap_or(false)
        &&& self.targeted_of() ==> registered_domain_of(self.root_name_of()@) == Some(self.target_domain_of()@)
        &&& !self.targeted_of() ==> self.target_domain_of()@.len() == 0
    }

    /// Whether the stage waits for this event.
    pub fn expects(&self, event: &CreateEvent) -> (res: bool)
        ensures
            res == create_expects(self.stage_of(), *event),
    {
        match (&self.stage, event) {
            (CreateStage::Fetching, CreateEvent::PageFetched { .. }) => true,
            (CreateStage::Fetching, CreateEvent::PageFailed(_)) => true,
            (CreateStage::Naming { .. }, CreateEvent::CrawlId(_)) => true,
            (CreateStage::ResolvingRoot { .. }, CreateEvent::RootResolved(_)) => true,
            (CreateStage::ResolvingLinks { followed, .. }, CreateEvent::LinksResolved(stats)) => stats.len()
                == followed.len(),
            (CreateStage::Writing { .. }, CreateEvent::GraphWritten(_)) => true,
            _ => false,
        }
    }

    /// Checks a request to start a crawl. A depth outside 1..=5 is refused,
    /// and so is a targeted crawl whose root has no registered domain;
    /// otherwise the root page is fetched.
    pub fn start(request: CrawlRequest) -> (res: (CreateCrawl, CreateAction))
        ensures
            !(1 <= request.depth <= MAX_CRAWL_DEPTH) ==> res.0.stage_of() is Replied && res.1 == CreateAction::Reply(
                CrawlReply::DepthOutOfRange,
            ),
            (1 <= request.depth <= MAX_CRAWL_DEPTH && !is_web_url(request.url@)) ==> res.0.stage_of() is Replied
                && res.1 == CreateAction::Reply(CrawlReply::InvalidUrl),
            (1 <= request.depth <= MAX_CRAWL_DEPTH && is_web_url(request.url@) && request.targeted.unwrap_or(
                false,
            ) && registered_domain_of(normalized_url(request.url@).0) is None) ==> res.0.stage_of() is Replied
                && res.1 == CreateAction::Reply(CrawlReply::NoRegisteredDomain),
            (1 <= request.depth <= MAX_CRAWL_DEPTH && is_web_url(request.url@) && !(
            request.targeted.unwrap_or(false) && registered_domain_of(normalized_url(request.url@).0)
                is None)) ==> (res.0.wf()
                && res.0.stage_of() is Fetching && (res.1 matches CreateAction::FetchPage(url) && url@
                == request.url@)),
            res.0.request_of() == request,
    {
        if !depth_allowed(request.depth) {
            let r = CreateCrawl {
                request,
                root_name: String::new(),
                http_type: String::new(),
                targeted: false,
                target_domain: String::new(),
                stage: CreateStage::Replied,
            };
            return (r, CreateAction::Reply(CrawlReply::DepthOutOfRange));
        }
        if !web_url(request.url.as_str()) {
            let r = CreateCrawl {
                request,
                root_name: String::new(),
                http_type: String::new(),
                targeted: false,
                target_domain: String::new(),
                stage: CreateStage::Replied,
            };
            return (r, CreateAction::Reply(CrawlReply::InvalidUrl));
        }
        let (root_name, http_type) = normalize_url(request.url.as_str());
        let targeted = request.targeted.unwrap_or(false);
        let target_domain = if targeted {
            match registered_domain(root_name.as_str()) {
                Some(rd) => rd,
                None => {
                    let r = CreateCrawl {
                        request,
                        root_name,
                        http_type,
                        targeted,
                        target_domain: String::new(),
                        stage: CreateStage::Replied,
                    };
                    return (r, CreateAction::Reply(CrawlReply::NoRegisteredDomain));
                },
            }
        } else {
            String::new()
        };
        let url = request.url.clone();
        (
            CreateCrawl { request, root_name, http_type, targeted, target_domain, stage: CreateStage::Fetching },
            CreateAction::FetchPage(url),
        )
    }

    /// Takes what the outside work gave and says what to do next.
    pub fn step(self, event: CreateEvent) -> (res: (CreateCrawl, CreateAction))
        requires
            create_expects(self.stage_of(), event),
        ensures
            res.0.request_of() == self.request_of(),
            res.0.root_name_of() == self.root_name_of(),
            res.0.http_type_of() == self.http_type_of(),
            res.0.targeted_of() == self.targeted_of(),
            res.0.target_domain_of() == self.target_domain_of(),
            res.0.stage_of() is Replied || res.0.wf(),
            // The root page: keep its links and name the crawl, or answer
            // with the status of the failure.
            self.stage_of() is Fetching ==> (event matches CreateEvent::PageFetched { html, request_time }
                ==> (res.0.stage_of() matches CreateStage::Naming { links, request_time: rt } && views(links@)
                == extracted_urls(html@, self.request_of().url@) && rt@ == request_time@
                && res.1 is NewCrawlId)),
            self.stage_of() is Fetching ==> (event matches CreateEvent::PageFailed(e) ==> (
            res.0.stage_of() is Replied && res.1 == CreateAction::Reply(CrawlReply::FetchFailed(e)))),
            // The crawl id: resolve the root name.
            self.stage_of() matches CreateStage::Naming { links, request_time } ==> (
            event matches CreateEvent::CrawlId(id) ==> (res.0.stage_of() matches CreateStage::ResolvingRoot {
                links: l2,
                request_time: rt,
                crawl_id,
            } && views(l2@) == views(links@) && rt@ == request_time@ && crawl_id@ == id@ && (
            res.1 matches CreateAction::ResolveRoot(name) && name@ == self.root_name_of()@))),
            // The root: a failure answers 502; else resolve the followed links.
            self.stage_of() is ResolvingRoot ==> (event matches CreateEvent::RootResolved(Err(e)) ==> (
            res.0.stage_of() is Replied && res.1 == CreateAction::Reply(CrawlReply::RootDnsFailed(e)))),
            self.stage_of() matches CreateStage::ResolvingRoot { links, request_time, crawl_id } ==> (
            event matches CreateEvent::RootResolved(Ok(root)) ==> (
            res.0.stage_of() matches CreateStage::ResolvingLinks {
                followed,
                root: r2,
                request_time: rt,
                crawl_id: id2,
            } && pair_views(followed@) == root_links(views(links@), self.targeted_of(), self.target_domain_of()@)
                && r2 == root && rt@ == request_time@ && id2@ == crawl_id@ && (
            res.1 matches CreateAction::ResolveLinks(names) && views(names@) == pair_names(followed@)))),
            // The links: write the crawl, with the links that resolved.
            self.stage_of() matches CreateStage::ResolvingLinks { followed, root, request_time, crawl_id } ==> (
            event matches CreateEvent::LinksResolved(stats) ==> (
            res.0.stage_of() matches CreateStage::Writing { crawl_id: id2 } && id2@ == crawl_id@ && (
            res.1 matches CreateAction::WriteGraph(g) && g.crawl_id@ == crawl_id@ && g.root_name@
                == self.root_name_of()@ && g.root_ip@ == root.ip@ && g.root_domain@ == root.domain@
                && g.http_type@ == self.http_type_of()@ && g.depth == self.request_of().depth
                && g.request_time@ == request_time@ && root_child_views(g.children@)
                == resolved_links(pair_views(followed@), stats_views(stats@)) && g.targeted
                == self.targeted_of() && g.target_domain@ == self.target_domain_of()@))),
            // Written: 201 with the crawl id; else 500.
            self.stage_of() matches CreateStage::Writing { crawl_id } ==> (event matches CreateEvent::GraphWritten(
                ok,
            ) ==> (res.0.stage_of() is Replied && if ok {
                res.1 matches CreateAction::Reply(CrawlReply::Created { crawl_id: id2 }) && id2@
                    == crawl_id@
            } else {
                res.1 == CreateAction::Reply(CrawlReply::DatabaseError)
            })),
            // A crawl is written only for a checked request: depth in range
            // and, when targeted, the root's registered domain as target.
            res.1 is WriteGraph ==> self.wf(),
    {
        proof {
            use_type_invariant(&self);
        }
        let CreateCrawl { request, root_name, http_type, targeted, target_domain, stage } = self;
        match stage {
            CreateStage::Fetching => match event {
                CreateEvent::PageFetched { html, request_time } => {
                    let links = extract_urls(html.as_str(), request.url.as_str());
                    (
                        CreateCrawl {
                            request,
                            root_name,
                            http_type,
                            targeted,
                            target_domain,
                            stage: CreateStage::Naming { links, request_time },
                        },
                        CreateAction::NewCrawlId,
                    )
                },
                CreateEvent::PageFailed(e) => (
                    CreateCrawl {
                        request,
                        root_name,
                        http_type,
                        targeted,
                        target_domain,
                        stage: CreateStage::Replied,
                    },
                    CreateAction::Reply(CrawlReply::FetchFailed(e)),
                ),
                _ => unreached(),
            },
            CreateStage::Naming { links, request_time } => match event {
                CreateEvent::CrawlId(crawl_id) => {
                    let name = root_name.clone();
                    (
                        CreateCrawl {
                            request,
                            root_name,
                            http_type,
                            targeted,
                            target_domain,
                            stage: CreateStage::ResolvingRoot { links, request_time, crawl_id },
                        },
                        CreateAction::ResolveRoot(name),
                    )
                },
                _ => unreached(),
            },
            CreateStage::ResolvingRoot { links, request_time, crawl_id } => match event {
                CreateEvent::RootResolved(Ok(root)) => {
                    let followed = crawl_links(&links, targeted, &target_domain);
                    let names = names_of_pairs(&followed);
                    (
                        CreateCrawl {
                            request,
                            root_name,
                            http_type,
                            targeted,
                            target_domain,
                            stage: CreateStage::ResolvingLinks { followed, root, request_time, crawl_id },
                        },
                        CreateAction::ResolveLinks(names),
                    )
                },
                CreateEvent::RootResolved(Err(e)) => (
                    CreateCrawl {
                        request,
                        root_name,
                        http_type,
                        targeted,
                        target_domain,
                        stage: CreateStage::Replied,
                    },
                    CreateAction::Reply(CrawlReply::RootDnsFailed(e)),
                ),
                _ => unreached(),
            },
            CreateStage::ResolvingLinks { followed, root, request_time, crawl_id } => match event {
                CreateEvent::LinksResolved(stats) => {
                    let children = resolved_root_children(&followed, &stats);
                    let graph = CrawlGraph {
                        crawl_id: crawl_id.clone(),
                        root_name: root_name.clone(),
                        root_ip: root.ip,
                        root_domain: root.domain,
                        http_type: http_type.clone(),
                        depth: request.depth,
                        request_time,
                        children,
                        targeted,
                        target_domain: target_domain.clone(),
                    };
                    (
                        CreateCrawl {
                            request,
                            root_name,
                            http_type,
                            targeted,
                            target_domain,
                            stage: CreateStage::Writing { crawl_id },
                        },
                        CreateAction::WriteGraph(graph),
                    )
                },
                _ => unreached(),
            },
            CreateStage::Writing { crawl_id } => match event {
                CreateEvent::GraphWritten(ok) => {
                    let reply = if ok {
                        CrawlReply::Created { crawl_id }
                    } else {
                        CrawlReply::DatabaseError
                    };
                    (
                        CreateCrawl {
                            request,
                            root_name,
                            http_type,
                            targeted,
                            target_domain,
                            stage: CreateStage::Replied,
                        },
                        CreateAction::Reply(reply),
                    )
                },
                _ => unreached(),
            },
            CreateStage::Replied => unreached(),
        }
    }
}

} // verus!
