//! URL jobs and the decisions a feeder makes while processing one.
use vstd::prelude::*;

use crate::crawler::{lemma_some_indices, lists_present_positions, some_indices, views, NetworkStats};
use crate::error::CrawlerError;
use crate::text::{chars_eq, chars_of, push_chars, to_uppercase, unicode_uppercase};
use crate::url_normalize::{
    in_registered_domain, is_same_registered_domain, normalize_url, normalized_url,
};

verus! {

broadcast use vstd::seq_lib::group_seq_properties;

// ---------------------------------------------------------------------
// Jobs and their status
// ---------------------------------------------------------------------

/// A URL job as stored in the graph.
pub struct UrlJob {
    pub name: String,
    pub http_type: String,
    pub requested_depth: i64,
    pub current_depth: i64,
    pub attempts: Option<i64>,
    pub crawl_id: String,
    pub targeted: bool,
    pub target_domain: String,
}

/// The characters of an optional string, empty when absent.
pub open spec fn or_empty(s: Option<String>) -> Seq<char> {
    match s {
        Some(t) => t@,
        None => Seq::empty(),
    }
}

impl UrlJob {
    /// The URL of the job: its protocol followed by its name.
    pub open spec fn url(self) -> Seq<char> {
        self.http_type@ + self.name@
    }

    /// A targeted job keeps only links in its target domain.
    pub open spec fn is_targeted(self) -> bool {
        self.targeted && self.target_domain@.len() > 0
    }

    /// Builds a job from the properties of a claimed URL node. The attempts
    /// are kept as found; a missing crawl id or target domain is empty and
    /// a missing `targeted` flag is false.
    pub fn from_node(
        name: String,
        http_type: String,
        requested_depth: i64,
        current_depth: i64,
        attempts: Option<i64>,
        crawl_id: Option<String>,
        targeted: Option<bool>,
        target_domain: Option<String>,
    ) -> (job: UrlJob)
        ensures
            job.name == name,
            job.http_type == http_type,
            job.requested_depth == requested_depth,
            job.current_depth == current_depth,
            job.attempts == attempts,
            job.crawl_id@ == or_empty(crawl_id),
            job.targeted == targeted.unwrap_or(false),
            job.target_domain@ == or_empty(target_domain),
    {
        let crawl_id = match crawl_id {
            Some(c) => c,
            None => String::new(),
        };
        let target_domain = match target_domain {
            Some(t) => t,
            None => String::new(),
        };
        UrlJob {
            name,
            http_type,
            requested_depth,
            current_depth,
            attempts,
            crawl_id,
            targeted: targeted.unwrap_or(false),
            target_domain,
        }
    }

    /// The URL of the job: its protocol followed by its name.
    pub fn full_url(&self) -> (url: String)
        ensures
            url@ == self.url(),
    {
        let mut url = self.http_type.clone();
        let name = chars_of(self.name.as_str());
        push_chars(&mut url, &name);
        url
    }

    /// Whether links are to be kept in the target domain only.
    pub fn targets_domain(&self) -> (res: bool)
        ensures
            res == self.is_targeted(),
    {
        self.targeted && !self.target_domain.as_str().is_empty()
    }
}

/// The status of a URL job.
#[derive(Clone, Copy, Debug, PartialEq, Eq, Structural)]
pub enum JobStatus {
    Pending,
    InProgress,
    Completed,
    Failed,
    Cancelled,
}

impl JobStatus {
    /// The text the graph stores for a status.
    pub open spec fn label(self) -> Seq<char> {
        match self {
            JobStatus::Pending => "PENDING"@,
            JobStatus::InProgress => "IN-PROGRESS"@,
            JobStatus::Completed => "COMPLETED"@,
            JobStatus::Failed => "FAILED"@,
            JobStatus::Cancelled => "CANCELLED"@,
        }
    }

    /// The text the graph stores for a status.
    pub fn as_str(&self) -> (s: &'static str)
        ensures
            s@ == self.label(),
    {
        match self {
            JobStatus::Pending => "PENDING",
            JobStatus::InProgress => "IN-PROGRESS",
            JobStatus::Completed => "COMPLETED",
            JobStatus::Failed => "FAILED",
            JobStatus::Cancelled => "CANCELLED",
        }
    }
}

/// Whether the status read from the graph marks the job cancelled; a job
/// that was not found is not cancelled.
pub open spec fn is_cancelled_status(status: Option<String>) -> bool {
    match status {
        Some(s) => s@ == "CANCELLED"@,
        None => false,
    }
}

/// Whether the status read from the graph marks the job cancelled.
pub fn cancelled(status: &Option<String>) -> (res: bool)
    ensures
        res == is_cancelled_status(*status),
{
    match status {
        Some(s) => {
            let a = chars_of(s.as_str());
            let b = chars_of("CANCELLED");
            chars_eq(&a, &b)
        },
        None => false,
    }
}

/// The attempts count written with a status: the count, or 0 when unset.
pub fn attempts_param(attempts: Option<i64>) -> (n: i64)
    ensures
        n == attempts.unwrap_or(0),
{
    attempts.unwrap_or(0)
}

// ---------------------------------------------------------------------
// Retrying failed fetches
// ---------------------------------------------------------------------

/// A 4xx reply is a permanent failure: the job is not retried.
pub open spec fn is_permanent_failure(e: CrawlerError) -> bool {
    match e {
        CrawlerError::HttpStatus { status, .. } => 400 <= status && status < 500,
        _ => false,
    }
}

/// Whether a failure is permanent.
pub fn is_permanent(e: &CrawlerError) -> (res: bool)
    ensures
        res == is_permanent_failure(*e),
        res <==> (*e matches CrawlerError::HttpStatus { status, .. } && 400 <= status < 500),
{
    match e {
        CrawlerError::HttpStatus { status, .. } => 400 <= *status && *status < 500,
        _ => false,
    }
}

/// The status of a job whose fetch failed, with `attempts` the count after
/// this failure: FAILED when the failure is permanent or the attempts have
/// reached the limit, else PENDING so that a feeder retries it.
pub open spec fn status_after_failure(e: CrawlerError, attempts: int, max_attempts: i64) -> JobStatus {
    if is_permanent_failure(e) || attempts >= max_attempts {
        JobStatus::Failed
    } else {
        JobStatus::Pending
    }
}

/// After a failed fetch: the new attempts count (one more than before) and
/// the status to write.
pub fn after_failure(attempts: Option<i64>, error: &CrawlerError, max_attempts: i64) -> (res: (
    i64,
    JobStatus,
))
    requires
        attempts.unwrap_or(0) < i64::MAX,
    ensures
        res.0 == attempts.unwrap_or(0) + 1,
        res.1 == status_after_failure(*error, res.0 as int, max_attempts),
        // Retried exactly when the failure is no 4xx reply and attempts remain.
        res.1 == JobStatus::Pending <==> (res.0 < max_attempts && !(*error matches CrawlerError::HttpStatus {
            status,
            ..
        } && 400 <= status < 500)),
        res.1 == JobStatus::Failed <==> !(res.1 == JobStatus::Pending),
{
    let count = attempts.unwrap_or(0) + 1;
    let status = if is_permanent(error) || count >= max_attempts {
        JobStatus::Failed
    } else {
        JobStatus::Pending
    };
    (count, status)
}

/// Only a client error ends a job at once: a failure is permanent exactly
/// when the site answered with a status in 400..500. A job whose fetch
/// failed is retried (PENDING) exactly when the failure is not such a
/// reply and its attempts are still below the limit; a timeout, a failed
/// request, an unreadable body, a DNS failure or a 5xx reply below the
/// limit is retried.
pub proof fn lemma_only_client_errors_are_final(e: CrawlerError, attempts: int, max_attempts: i64)
    ensures
        is_permanent_failure(e) <==> (e matches CrawlerError::HttpStatus { status, .. } && 400 <= status
            < 500),
        status_after_failure(e, attempts, max_attempts) == JobStatus::Pending <==> (attempts
            < max_attempts && !(e matches CrawlerError::HttpStatus { status, .. } && 400 <= status < 500)),
        status_after_failure(e, attempts, max_attempts) == JobStatus::Pending
            || status_after_failure(e, attempts, max_attempts) == JobStatus::Failed,
{
}

// ---------------------------------------------------------------------
// Links found on a page
// ---------------------------------------------------------------------

/// A normalized link: its key (the uppercase of protocol and name), its
/// normalized name and its protocol.
pub struct Candidate {
    pub key: String,
    pub name: String,
    pub http_type: String,
}

/// (key, name, protocol) of a candidate.
pub open spec fn candidate_view(c: Candidate) -> (Seq<char>, Seq<char>, Seq<char>) {
    (c.key@, c.name@, c.http_type@)
}

/// The views of a list of candidates.
pub open spec fn candidate_views(v: Seq<Candidate>) -> Seq<(Seq<char>, Seq<char>, Seq<char>)> {
    v.map_values(|c: Candidate| candidate_view(c))
}

/// The key of a normalized link.
pub open spec fn link_key(name: Seq<char>, proto: Seq<char>) -> Seq<char> {
    unicode_uppercase(proto + name)
}

/// Whether some candidate has the key `key`.
pub open spec fn has_key(cands: Seq<(Seq<char>, Seq<char>, Seq<char>)>, key: Seq<char>) -> bool {
    exists|i: int| 0 <= i < cands.len() && (#[trigger] cands[i]).0 == key
}

/// The links `urls` normalized, one per key, the first link of each key
/// winning.
pub open spec fn deduplicated(urls: Seq<Seq<char>>) -> Seq<(Seq<char>, Seq<char>, Seq<char>)>
    decreases urls.len(),
{
    if urls.len() == 0 {
        Seq::empty()
    } else {
        let before = deduplicated(urls.drop_last());
        let (name, proto) = normalized_url(urls.last());
        let key = link_key(name, proto);
        if has_key(before, key) {
            before
        } else {
            before.push((key, name, proto))
        }
    }
}

/// No two candidates share a key, and each key is the key of its link.
pub open spec fn well_keyed(cands: Seq<(Seq<char>, Seq<char>, Seq<char>)>) -> bool {
    &&& forall|i: int, j: int|
        0 <= i < j < cands.len() ==> (#[trigger] cands[i]).0 != (#[trigger] cands[j]).0
    &&& forall|i: int| 0 <= i < cands.len() ==> (#[trigger] cands[i]).0 == link_key(cands[i].1, cands[i].2)
}

/// Whether a candidate with key `key` is in `cands`.
fn contains_key(cands: &Vec<Candidate>, key: &String) -> (res: bool)
    ensures
        res == has_key(candidate_views(cands@), key@),
{
    let k = chars_of(key.as_str());
    let mut i: usize = 0;
    while i < cands.len()
        invariant
            i <= cands.len(),
            k@ == key@,
            forall|j: int| 0 <= j < i ==> candidate_views(cands@)[j].0 != key@,
        decreases cands.len() - i,
    {
        let c = chars_of(cands[i].key.as_str());
        if chars_eq(&c, &k) {
            assert(candidate_views(cands@)[i as int].0 == key@);
            return true;
        }
        i = i + 1;
    }
    false
}

/// Whether no two candidates share a key and each key is the key of its
/// link (what `well_keyed` says), recomputed.
pub fn is_well_keyed(cands: &Vec<Candidate>) -> (res: bool)
    ensures
        res == well_keyed(candidate_views(cands@)),
{
    let ghost v = candidate_views(cands@);
    let mut i: usize = 0;
    while i < cands.len()
        invariant
            i <= cands.len(),
            v == candidate_views(cands@),
            forall|a: int, b: int| 0 <= a < b < i ==> (#[trigger] v[a]).0 != (#[trigger] v[b]).0,
            forall|a: int| 0 <= a < i ==> (#[trigger] v[a]).0 == link_key(v[a].1, v[a].2),
        decreases cands.len() - i,
    {
        let mut joined = cands[i].http_type.clone();
        let name = chars_of(cands[i].name.as_str());
        push_chars(&mut joined, &name);
        let key = to_uppercase(joined.as_str());
        let own = chars_of(cands[i].key.as_str());
        if !chars_eq(&chars_of(key.as_str()), &own) {
            assert(v[i as int].0 != link_key(v[i as int].1, v[i as int].2));
            return false;
        }
        let mut j: usize = 0;
        while j < i
            invariant
                j <= i < cands.len(),
                v == candidate_views(cands@),
                own@ == v[i as int].0,
                forall|a: int| 0 <= a < j ==> (#[trigger] v[a]).0 != v[i as int].0,
            decreases i - j,
        {
            if chars_eq(&chars_of(cands[j].key.as_str()), &own) {
                assert(v[j as int].0 == v[i as int].0);
                return false;
            }
            j = j + 1;
        }
        i = i + 1;
    }
    true
}

/// Normalizes the links found on a page and keeps one per key, the first.
pub fn deduplicate(urls: &Vec<String>) -> (res: Vec<Candidate>)
    ensures
        candidate_views(res@) == deduplicated(views(urls@)),
        well_keyed(candidate_views(res@)),
{
    let ghost all = views(urls@);
    let mut res: Vec<Candidate> = Vec::new();
    let mut i: usize = 0;
    while i < urls.len()
        invariant
            i <= urls.len(),
            all == views(urls@),
            candidate_views(res@) == deduplicated(all.take(i as int)),
            well_keyed(candidate_views(res@)),
        decreases urls.len() - i,
    {
        let (name, proto) = normalize_url(urls[i].as_str());
        let mut joined = proto.clone();
        let name_chars = chars_of(name.as_str());
        push_chars(&mut joined, &name_chars);
        let key = to_uppercase(joined.as_str());
        assert(all.take((i + 1) as int).drop_last() == all.take(i as int));
        assert(all.take((i + 1) as int).last() == urls@[i as int]@);
        if !contains_key(&res, &key) {
            let ghost before = candidate_views(res@);
            res.push(Candidate { key, name, http_type: proto });
            assert(candidate_views(res@) == before.push((key@, name@, proto@)));
            assert forall|a: int, b: int|
                0 <= a < b < candidate_views(res@).len() implies (#[trigger] candidate_views(
                res@,
            )[a]).0 != (#[trigger] candidate_views(res@)[b]).0 by {
                if b == before.len() {
                    assert(candidate_views(res@)[a] == before[a]);
                } else {
                    assert(candidate_views(res@)[a] == before[a]);
                    assert(candidate_views(res@)[b] == before[b]);
                }
            }
            assert forall|a: int| 0 <= a < candidate_views(res@).len() implies (
            #[trigger] candidate_views(res@)[a]).0 == link_key(
                candidate_views(res@)[a].1,
                candidate_views(res@)[a].2,
            ) by {
                if a < before.len() {
                    assert(candidate_views(res@)[a] == before[a]);
                }
            }
        }
        i = i + 1;
    }
    assert(all.take(urls.len() as int) == all);
    res
}

/// The candidate that the link `url` normalizes to.
pub open spec fn link_candidate(url: Seq<char>) -> (Seq<char>, Seq<char>, Seq<char>) {
    let (name, proto) = normalized_url(url);
    (link_key(name, proto), name, proto)
}

/// Deduplication loses no key and keeps the first link of each: every
/// link's key is among the candidates, and each candidate is the
/// normalization of a link whose key no earlier link has.
pub proof fn lemma_deduplicated_first_wins(urls: Seq<Seq<char>>)
    ensures
        forall|i: int|
            0 <= i < urls.len() ==> has_key(deduplicated(urls), (#[trigger] link_candidate(urls[i])).0),
        forall|j: int|
            0 <= j < deduplicated(urls).len() ==> exists|i: int|
                0 <= i < urls.len() && #[trigger] deduplicated(urls)[j] == link_candidate(urls[i]) && (
                forall|e: int| 0 <= e < i ==> (#[trigger] link_candidate(urls[e])).0 != link_candidate(
                    urls[i],
                ).0),
    decreases urls.len(),
{
    if urls.len() > 0 {
        let rest = urls.drop_last();
        lemma_deduplicated_first_wins(rest);
        let before = deduplicated(rest);
        let out = deduplicated(urls);
        let last = link_candidate(urls.last());
        assert forall|i: int| 0 <= i < urls.len() implies has_key(out, (#[trigger] link_candidate(urls[i])).0) by {
            if i < rest.len() {
                assert(urls[i] == rest[i]);
                assert(has_key(before, link_candidate(rest[i]).0));
                let k = choose|k: int| 0 <= k < before.len() && (#[trigger] before[k]).0 == link_candidate(rest[i]).0;
                assert(out[k] == before[k]);
            } else {
                if !has_key(before, last.0) {
                    assert(out[before.len() as int] == last);
                } else {
                    let k = choose|k: int| 0 <= k < before.len() && (#[trigger] before[k]).0 == last.0;
                    assert(out[k] == before[k]);
                }
            }
        }
        assert forall|j: int| 0 <= j < out.len() implies exists|i: int|
            0 <= i < urls.len() && #[trigger] out[j] == link_candidate(urls[i]) && (forall|e: int|
                0 <= e < i ==> (#[trigger] link_candidate(urls[e])).0 != link_candidate(urls[i]).0) by {
            if j < before.len() {
                assert(out[j] == before[j]);
                let i = choose|i: int|
                    0 <= i < rest.len() && #[trigger] before[j] == link_candidate(rest[i]) && (forall|e: int|
                        0 <= e < i ==> (#[trigger] link_candidate(rest[e])).0 != link_candidate(rest[i]).0);
                assert(urls[i] == rest[i]);
                assert forall|e: int| 0 <= e < i implies (#[trigger] link_candidate(urls[e])).0
                    != link_candidate(urls[i]).0 by {
                    assert(urls[e] == rest[e]);
                }
            } else {
                let n = urls.len() - 1;
                assert(!has_key(before, last.0));
                assert(out[j] == last);
                assert(urls[n] == urls.last());
                assert forall|e: int| 0 <= e < n implies (#[trigger] link_candidate(urls[e])).0
                    != link_candidate(urls[n]).0 by {
                    assert(urls[e] == rest[e]);
                    if link_candidate(urls[e]).0 == last.0 {
                        assert(has_key(before, link_candidate(rest[e]).0));
                    }
                }
            }
        }
    }
}

/// The candidates whose names lie in the registered domain `target`, in order.
pub open spec fn in_domain(cands: Seq<(Seq<char>, Seq<char>, Seq<char>)>, target: Seq<char>) -> Seq<
    (Seq<char>, Seq<char>, Seq<char>),
>
    decreases cands.len(),
{
    if cands.len() == 0 {
        Seq::empty()
    } else {
        let before = in_domain(cands.drop_last(), target);
        if in_registered_domain(cands.last().1, target) {
            before.push(cands.last())
        } else {
            before
        }
    }
}

/// The candidates a job follows: all of them, or for a targeted job those
/// in its target domain.
pub open spec fn in_scope(job: UrlJob, cands: Seq<(Seq<char>, Seq<char>, Seq<char>)>) -> Seq<
    (Seq<char>, Seq<char>, Seq<char>),
> {
    if job.is_targeted() {
        in_domain(cands, job.target_domain@)
    } else {
        cands
    }
}

/// Dropping the last candidate keeps the candidates well keyed.
proof fn lemma_well_keyed_drop_last(cands: Seq<(Seq<char>, Seq<char>, Seq<char>)>)
    requires
        well_keyed(cands),
        cands.len() > 0,
    ensures
        well_keyed(cands.drop_last()),
{
    let rest = cands.drop_last();
    assert forall|i: int, j: int|
        0 <= i < j < rest.len() implies (#[trigger] rest[i]).0 != (#[trigger] rest[j]).0 by {
        assert(rest[i] == cands[i]);
        assert(rest[j] == cands[j]);
    }
    assert forall|i: int| 0 <= i < rest.len() implies (#[trigger] rest[i]).0 == link_key(
        rest[i].1,
        rest[i].2,
    ) by {
        assert(rest[i] == cands[i]);
    }
}

/// A sub-sequence of well-keyed candidates is well keyed.
proof fn lemma_in_domain_well_keyed(cands: Seq<(Seq<char>, Seq<char>, Seq<char>)>, target: Seq<char>)
    requires
        well_keyed(cands),
    ensures
        well_keyed(in_domain(cands, target)),
        forall|i: int| 0 <= i < in_domain(cands, target).len() ==> cands.contains(
            #[trigger] in_domain(cands, target)[i],
        ),
    decreases cands.len(),
{
    if cands.len() > 0 {
        let rest = cands.drop_last();
        lemma_well_keyed_drop_last(cands);
        lemma_in_domain_well_keyed(rest, target);
        let before = in_domain(rest, target);
        let out = in_domain(cands, target);
        assert forall|i: int| 0 <= i < before.len() implies cands.contains(#[trigger] before[i]) by {
            let k = choose|k: int| 0 <= k < rest.len() && rest[k] == before[i];
            assert(cands[k] == rest[k]);
        }
        if in_registered_domain(cands.last().1, target) {
            assert(out == before.push(cands.last()));
            assert forall|i: int| 0 <= i < out.len() implies cands.contains(#[trigger] out[i]) by {
                if i < before.len() {
                    assert(out[i] == before[i]);
                } else {
                    assert(out[i] == cands[cands.len() - 1]);
                }
            }
            assert forall|a: int, b: int|
                0 <= a < b < out.len() implies (#[trigger] out[a]).0 != (#[trigger] out[b]).0 by {
                assert(out[a] == before[a]);
                if b < before.len() {
                    assert(out[b] == before[b]);
                } else {
                    let k = choose|k: int| 0 <= k < rest.len() && rest[k] == before[a];
                    assert(cands[k] == rest[k]);
                    assert(k < cands.len() - 1);
                }
            }
            assert forall|a: int| 0 <= a < out.len() implies (#[trigger] out[a]).0 == link_key(
                out[a].1,
                out[a].2,
            ) by {
                if a < before.len() {
                    assert(out[a] == before[a]);
                }
            }
        }
    }
}

/// Keeps the candidates a job follows.
pub fn keep_in_scope(job: &UrlJob, cands: Vec<Candidate>) -> (res: Vec<Candidate>)
    requires
        well_keyed(candidate_views(cands@)),
    ensures
        candidate_views(res@) == in_scope(*job, candidate_views(cands@)),
        well_keyed(candidate_views(res@)),
{
    if !job.targets_domain() {
        return cands;
    }
    let ghost all = candidate_views(cands@);
    let mut res: Vec<Candidate> = Vec::new();
    let mut i: usize = 0;
    while i < cands.len()
        invariant
            i <= cands.len(),
            all == candidate_views(cands@),
            candidate_views(res@) == in_domain(all.take(i as int), job.target_domain@),
            job.is_targeted(),
        decreases cands.len() - i,
    {
        let c = &cands[i];
        assert(all.take((i + 1) as int).drop_last() == all.take(i as int));
        assert(all.take((i + 1) as int).last() == all[i as int]);
        let ghost before = candidate_views(res@);
        if is_same_registered_domain(c.name.as_str(), job.target_domain.as_str()) {
            res.push(Candidate { key: c.key.clone(), name: c.name.clone(), http_type: c.http_type.clone() });
            assert(candidate_views(res@) == before.push(all[i as int]));
        }
        i = i + 1;
    }
    assert(all.take(cands.len() as int) == all);
    proof {
        lemma_in_domain_well_keyed(all, job.target_domain@);
    }
    res
}

/// The keys of the candidates, in order.
pub fn candidate_keys(cands: &Vec<Candidate>) -> (keys: Vec<String>)
    ensures
        views(keys@) == candidate_views(cands@).map_values(
            |c: (Seq<char>, Seq<char>, Seq<char>)| c.0,
        ),
{
    let mut keys: Vec<String> = Vec::new();
    let mut i: usize = 0;
    while i < cands.len()
        invariant
            i <= cands.len(),
            views(keys@) == candidate_views(cands@).map_values(
                |c: (Seq<char>, Seq<char>, Seq<char>)| c.0,
            ).take(i as int),
        decreases cands.len() - i,
    {
        let ghost before = views(keys@);
        keys.push(cands[i].key.clone());
        assert(views(keys@) =~= before.push(cands@[i as int].key@));
        i = i + 1;
    }
    assert(candidate_views(cands@).map_values(|c: (Seq<char>, Seq<char>, Seq<char>)| c.0).take(
        cands.len() as int,
    ) =~= candidate_views(cands@).map_values(|c: (Seq<char>, Seq<char>, Seq<char>)| c.0));
    keys
}

/// (name, protocol) pairs of a list.
pub open spec fn pair_views(v: Seq<(String, String)>) -> Seq<(Seq<char>, Seq<char>)> {
    v.map_values(|p: (String, String)| (p.0@, p.1@))
}

/// The names of a list of (name, protocol) pairs.
pub open spec fn pair_names(pairs: Seq<(String, String)>) -> Seq<Seq<char>> {
    pairs.map_values(|p: (String, String)| p.0@)
}

/// The names of a list of (name, protocol) pairs, in order.
pub fn names_of_pairs(pairs: &Vec<(String, String)>) -> (names: Vec<String>)
    ensures
        views(names@) == pair_names(pairs@),
{
    let mut names: Vec<String> = Vec::new();
    let mut i: usize = 0;
    while i < pairs.len()
        invariant
            i <= pairs.len(),
            views(names@) == pair_names(pairs@).take(i as int),
        decreases pairs.len() - i,
    {
        let ghost before = views(names@);
        names.push(pairs[i].0.clone());
        assert(views(names@) =~= before.push(pairs@[i as int].0@));
        i = i + 1;
    }
    assert(pair_names(pairs@).take(pairs.len() as int) =~= pair_names(pairs@));
    names
}

/// The (name, protocol) of the candidates whose keys are among `new_keys`,
/// in order.
pub open spec fn chosen(cands: Seq<(Seq<char>, Seq<char>, Seq<char>)>, new_keys: Seq<Seq<char>>) -> Seq<
    (Seq<char>, Seq<char>),
>
    decreases cands.len(),
{
    if cands.len() == 0 {
        Seq::empty()
    } else {
        let before = chosen(cands.drop_last(), new_keys);
        if new_keys.contains(cands.last().0) {
            before.push((cands.last().1, cands.last().2))
        } else {
            before
        }
    }
}

/// No pair occurs twice.
pub open spec fn distinct_pairs(pairs: Seq<(Seq<char>, Seq<char>)>) -> bool {
    forall|i: int, j: int| 0 <= i < j < pairs.len() ==> #[trigger] pairs[i] != #[trigger] pairs[j]
}

/// Whether `s` is one of `v`.
fn contains_string(v: &Vec<String>, s: &String) -> (res: bool)
    ensures
        res == views(v@).contains(s@),
{
    let target = chars_of(s.as_str());
    let mut i: usize = 0;
    while i < v.len()
        invariant
            i <= v.len(),
            target@ == s@,
            forall|j: int| 0 <= j < i ==> views(v@)[j] != s@,
        decreases v.len() - i,
    {
        let c = chars_of(v[i].as_str());
        if chars_eq(&c, &target) {
            assert(views(v@)[i as int] == s@);
            return true;
        }
        i = i + 1;
    }
    false
}

/// Of well-keyed candidates, `chosen` picks no pair twice.
proof fn lemma_chosen_distinct(
    cands: Seq<(Seq<char>, Seq<char>, Seq<char>)>,
    new_keys: Seq<Seq<char>>,
)
    requires
        well_keyed(cands),
    ensures
        distinct_pairs(chosen(cands, new_keys)),
    decreases cands.len(),
{
    if cands.len() > 0 {
        let rest = cands.drop_last();
        lemma_well_keyed_drop_last(cands);
        lemma_chosen_distinct(rest, new_keys);
        lemma_chosen_from(rest, new_keys);
        let before = chosen(rest, new_keys);
        let out = chosen(cands, new_keys);
        let last = cands[cands.len() - 1];
        if new_keys.contains(last.0) {
            assert(out == before.push((last.1, last.2)));
            assert forall|a: int, b: int| 0 <= a < b < out.len() implies #[trigger] out[a]
                != #[trigger] out[b] by {
                assert(out[a] == before[a]);
                if b < before.len() {
                    assert(out[b] == before[b]);
                } else {
                    let k = choose|k: int| 0 <= k < rest.len() && #[trigger] before[a] == (rest[k].1, rest[k].2);
                    assert(cands[k] == rest[k]);
                    if out[a] == out[b] {
                        assert(cands[k].0 == link_key(cands[k].1, cands[k].2));
                        assert(last.0 == link_key(last.1, last.2));
                        assert(cands[k].0 == last.0);
                    }
                }
            }
        }
    }
}

/// The (name, protocol) of the candidates whose keys the graph reported
/// new, in order, each pair once.
pub fn select_new(cands: &Vec<Candidate>, new_keys: &Vec<String>) -> (res: Vec<(String, String)>)
    requires
        well_keyed(candidate_views(cands@)),
    ensures
        pair_views(res@) == chosen(candidate_views(cands@), views(new_keys@)),
        distinct_pairs(pair_views(res@)),
{
    let ghost all = candidate_views(cands@);
    let mut res: Vec<(String, String)> = Vec::new();
    let mut i: usize = 0;
    while i < cands.len()
        invariant
            i <= cands.len(),
            all == candidate_views(cands@),
            pair_views(res@) == chosen(all.take(i as int), views(new_keys@)),
        decreases cands.len() - i,
    {
        let c = &cands[i];
        assert(all.take((i + 1) as int).drop_last() == all.take(i as int));
        assert(all.take((i + 1) as int).last() == all[i as int]);
        let ghost before = pair_views(res@);
        if contains_string(new_keys, &c.key) {
            res.push((c.name.clone(), c.http_type.clone()));
            assert(pair_views(res@) == before.push((all[i as int].1, all[i as int].2)));
        }
        i = i + 1;
    }
    assert(all.take(cands.len() as int) == all);
    proof {
        lemma_chosen_distinct(all, views(new_keys@));
    }
    res
}

// ---------------------------------------------------------------------
// Child nodes
// ---------------------------------------------------------------------

/// A URL node to be created below the job that found it.
pub struct ChildNode {
    pub name: String,
    pub ip: String,
    pub domain: String,
    pub http_type: String,
    pub requested_depth: i64,
    pub current_depth: i64,
    pub request_time: String,
    pub crawl_id: String,
    pub targeted: bool,
    pub target_domain: String,
    /// The status the node is created with.
    pub job_status: JobStatus,
}

/// The contents of a child node.
pub struct ChildView {
    pub name: Seq<char>,
    pub ip: Seq<char>,
    pub domain: Seq<char>,
    pub http_type: Seq<char>,
    pub requested_depth: i64,
    pub current_depth: i64,
    pub request_time: Seq<char>,
    pub crawl_id: Seq<char>,
    pub targeted: bool,
    pub target_domain: Seq<char>,
    pub job_status: JobStatus,
}

impl View for ChildNode {
    type V = ChildView;

    open spec fn view(&self) -> ChildView {
        ChildView {
            name: self.name@,
            ip: self.ip@,
            domain: self.domain@,
            http_type: self.http_type@,
            requested_depth: self.requested_depth,
            current_depth: self.current_depth,
            request_time: self.request_time@,
            crawl_id: self.crawl_id@,
            targeted: self.targeted,
            target_domain: self.target_domain@,
            job_status: self.job_status,
        }
    }
}

/// The status a new URL node starts with: COMPLETED when it is as deep as
/// its crawl goes (its links are not followed), else PENDING.
pub open spec fn initial_status(current_depth: i64, requested_depth: i64) -> JobStatus {
    if current_depth == requested_depth {
        JobStatus::Completed
    } else {
        JobStatus::Pending
    }
}

/// The status a new URL node starts with.
pub fn status_for_depth(current_depth: i64, requested_depth: i64) -> (s: JobStatus)
    ensures
        s == initial_status(current_depth, requested_depth),
{
    if current_depth == requested_depth {
        JobStatus::Completed
    } else {
        JobStatus::Pending
    }
}

/// The views of a list of child nodes.
pub open spec fn child_views(v: Seq<ChildNode>) -> Seq<ChildView> {
    v.map_values(|c: ChildNode| c@)
}

/// (ip, domain) of a resolution, if it succeeded.
pub open spec fn stats_view(s: Option<NetworkStats>) -> Option<(Seq<char>, Seq<char>)> {
    match s {
        Some(st) => Some((st.ip@, st.domain@)),
        None => None,
    }
}

/// The views of a list of resolutions.
pub open spec fn stats_views(v: Seq<Option<NetworkStats>>) -> Seq<Option<(Seq<char>, Seq<char>)>> {
    v.map_values(|s: Option<NetworkStats>| stats_view(s))
}

/// The child of `job` for the link `name` (protocol `proto`) resolved to
/// `ip` in `domain`: one level deeper, in the same crawl and with the same
/// requested depth and target; COMPLETED when that depth is the requested
/// one, else PENDING.
pub open spec fn child_for(
    job: UrlJob,
    name: Seq<char>,
    proto: Seq<char>,
    ip: Seq<char>,
    domain: Seq<char>,
    request_time: Seq<char>,
) -> ChildView {
    ChildView {
        name,
        ip,
        domain,
        http_type: proto,
        requested_depth: job.requested_depth,
        current_depth: (job.current_depth + 1) as i64,
        request_time,
        crawl_id: job.crawl_id@,
        targeted: job.targeted,
        target_domain: job.target_domain@,
        job_status: initial_status((job.current_depth + 1) as i64, job.requested_depth),
    }
}

/// The children of `job` for the links in `pending`, resolved as `stats`
/// says (in the same order); links that did not resolve are left out.
pub open spec fn resolved_children(
    job: UrlJob,
    pending: Seq<(Seq<char>, Seq<char>)>,
    stats: Seq<Option<(Seq<char>, Seq<char>)>>,
    request_time: Seq<char>,
) -> Seq<ChildView>
    decreases pending.len(),
{
    if pending.len() == 0 || stats.len() == 0 {
        Seq::empty()
    } else {
        let before = resolved_children(job, pending.drop_last(), stats.drop_last(), request_time);
        match stats.last() {
            Some((ip, domain)) => before.push(
                child_for(job, pending.last().0, pending.last().1, ip, domain, request_time),
            ),
            None => before,
        }
    }
}

/// Builds the child nodes of `job` from the links and how they resolved.
pub fn build_children(
    job: &UrlJob,
    pending: &Vec<(String, String)>,
    stats: &Vec<Option<NetworkStats>>,
    request_time: &String,
) -> (res: Vec<ChildNode>)
    requires
        pending.len() == stats.len(),
        job.current_depth < i64::MAX,
    ensures
        child_views(res@) == resolved_children(
            *job,
            pair_views(pending@),
            stats_views(stats@),
            request_time@,
        ),
        // One child for each resolution that succeeded, none for the others.
        res@.len() == some_indices(stats_views(stats@)).len(),
        forall|k: int|
            0 <= k < stats.len() && (#[trigger] stats@[k]) is Some ==> exists|j: int|
                0 <= j < res@.len() && res@[j].name@ == pending@[k].0@ && res@[j].http_type@
                    == pending@[k].1@ && res@[j].ip@ == stats@[k]->Some_0.ip@ && res@[j].domain@
                    == stats@[k]->Some_0.domain@,
{
    let ghost p = pair_views(pending@);
    let ghost s = stats_views(stats@);
    let mut res: Vec<ChildNode> = Vec::new();
    let mut i: usize = 0;
    while i < pending.len()
        invariant
            i <= pending.len(),
            pending.len() == stats.len(),
            job.current_depth < i64::MAX,
            p == pair_views(pending@),
            s == stats_views(stats@),
            child_views(res@) == resolved_children(
                *job,
                p.take(i as int),
                s.take(i as int),
                request_time@,
            ),
        decreases pending.len() - i,
    {
        assert(p.take((i + 1) as int).drop_last() == p.take(i as int));
        assert(s.take((i + 1) as int).drop_last() == s.take(i as int));
        assert(p.take((i + 1) as int).last() == p[i as int]);
        assert(s.take((i + 1) as int).last() == s[i as int]);
        let ghost before = child_views(res@);
        match &stats[i] {
            Some(st) => {
                let child = ChildNode {
                    name: pending[i].0.clone(),
                    ip: st.ip.clone(),
                    domain: st.domain.clone(),
                    http_type: pending[i].1.clone(),
                    requested_depth: job.requested_depth,
                    current_depth: job.current_depth + 1,
                    request_time: request_time.clone(),
                    crawl_id: job.crawl_id.clone(),
                    targeted: job.targeted,
                    target_domain: job.target_domain.clone(),
                    job_status: status_for_depth(job.current_depth + 1, job.requested_depth),
                };
                res.push(child);
                assert(child_views(res@) == before.push(
                    child_for(*job, p[i as int].0, p[i as int].1, st.ip@, st.domain@, request_time@),
                ));
            },
            None => {},
        }
        i = i + 1;
    }
    assert(p.take(pending.len() as int) == p);
    assert(s.take(pending.len() as int) == s);
    proof {
        lemma_built_children_complete(*job, pending@, stats@, request_time@, res@);
    }
    res
}

/// What `lemma_every_resolved_link_is_a_child` gives for built nodes.
proof fn lemma_built_children_complete(
    job: UrlJob,
    pending: Seq<(String, String)>,
    stats: Seq<Option<NetworkStats>>,
    request_time: Seq<char>,
    res: Seq<ChildNode>,
)
    requires
        pending.len() == stats.len(),
        job.current_depth < i64::MAX,
        child_views(res) == resolved_children(job, pair_views(pending), stats_views(stats), request_time),
    ensures
        res.len() == some_indices(stats_views(stats)).len(),
        forall|k: int|
            0 <= k < stats.len() && (#[trigger] stats[k]) is Some ==> exists|j: int|
                0 <= j < res.len() && res[j].name@ == pending[k].0@ && res[j].http_type@
                    == pending[k].1@ && res[j].ip@ == stats[k]->Some_0.ip@ && res[j].domain@
                    == stats[k]->Some_0.domain@,
{
    let p = pair_views(pending);
    let s = stats_views(stats);
    lemma_every_resolved_link_is_a_child(job, p, s, request_time);
    assert(child_views(res).len() == res.len());
    assert forall|k: int| 0 <= k < stats.len() && (#[trigger] stats[k]) is Some implies exists|j: int|
        0 <= j < res.len() && res[j].name@ == pending[k].0@ && res[j].http_type@ == pending[k].1@
            && res[j].ip@ == stats[k]->Some_0.ip@ && res[j].domain@ == stats[k]->Some_0.domain@ by {
        assert(s[k] == stats_view(stats[k]));
        assert(p[k] == (pending[k].0@, pending[k].1@));
        assert(s[k] is Some);
        let r = resolved_children(job, p, s, request_time);
        let j = choose|j: int|
            0 <= j < r.len() && r[j].name == p[k].0 && r[j].http_type == p[k].1 && r[j].ip
                == s[k]->Some_0.0 && r[j].domain == s[k]->Some_0.1;
        assert(child_views(res)[j] == res[j]@);
    }
}

/// Every link that resolved becomes a child, and nothing else does: the
/// children are, in order, one for each position `k` whose resolution is
/// `Some((ip, domain))`, named `pending[k].0` with protocol `pending[k].1`,
/// that `ip` and `domain`, one level below the job, in its crawl, with its
/// requested depth and target, COMPLETED when that level is the requested
/// depth and PENDING otherwise. So there are as many children as
/// resolutions that succeeded.
pub proof fn lemma_every_resolved_link_is_a_child(
    job: UrlJob,
    pending: Seq<(Seq<char>, Seq<char>)>,
    stats: Seq<Option<(Seq<char>, Seq<char>)>>,
    request_time: Seq<char>,
)
    requires
        pending.len() == stats.len(),
        job.current_depth < i64::MAX,
    ensures
        lists_present_positions(some_indices(stats), stats),
        resolved_children(job, pending, stats, request_time).len() == some_indices(stats).len(),
        forall|j: int|
            0 <= j < some_indices(stats).len() ==> {
                let c = #[trigger] resolved_children(job, pending, stats, request_time)[j];
                let k = some_indices(stats)[j];
                &&& c.name == pending[k].0
                &&& c.http_type == pending[k].1
                &&& c.ip == stats[k]->Some_0.0
                &&& c.domain == stats[k]->Some_0.1
                &&& c.current_depth == job.current_depth + 1
                &&& c.requested_depth == job.requested_depth
                &&& c.request_time == request_time
                &&& c.crawl_id == job.crawl_id@
                &&& c.targeted == job.targeted
                &&& c.target_domain == job.target_domain@
                &&& c.job_status == (if job.current_depth + 1 == job.requested_depth {
                    JobStatus::Completed
                } else {
                    JobStatus::Pending
                })
            },
        forall|k: int|
            0 <= k < stats.len() && (#[trigger] stats[k]) is Some ==> exists|j: int|
                0 <= j < resolved_children(job, pending, stats, request_time).len()
                    && resolved_children(job, pending, stats, request_time)[j].name == pending[k].0
                    && resolved_children(job, pending, stats, request_time)[j].http_type
                    == pending[k].1 && resolved_children(job, pending, stats, request_time)[j].ip
                    == stats[k]->Some_0.0 && resolved_children(
                    job,
                    pending,
                    stats,
                    request_time,
                )[j].domain == stats[k]->Some_0.1,
    decreases pending.len(),
{
    lemma_some_indices(stats);
    let r = resolved_children(job, pending, stats, request_time);
    let idx = some_indices(stats);
    if pending.len() > 0 {
        let pd = pending.drop_last();
        let sd = stats.drop_last();
        lemma_every_resolved_link_is_a_child(job, pd, sd, request_time);
        let rd = resolved_children(job, pd, sd, request_time);
        let id = some_indices(sd);
        assert forall|j: int| 0 <= j < id.len() implies r[j] == rd[j] && idx[j] == id[j]
            && pending[id[j]] == pd[id[j]] && stats[id[j]] == sd[id[j]] by {
            assert(0 <= id[j] < sd.len());
        }
    }
    assert forall|k: int| 0 <= k < stats.len() && (#[trigger] stats[k]) is Some implies exists|j: int|
        0 <= j < r.len() && r[j].name == pending[k].0 && r[j].http_type == pending[k].1 && r[j].ip
            == stats[k]->Some_0.0 && r[j].domain == stats[k]->Some_0.1 by {
        let j = choose|j: int| 0 <= j < idx.len() && idx[j] == k;
        assert(r[j] == resolved_children(job, pending, stats, request_time)[j]);
    }
}

// ---------------------------------------------------------------------
// Laws of targeted crawls
// ---------------------------------------------------------------------

/// The candidates kept by `in_domain` all lie in the target domain.
pub proof fn lemma_in_domain_in_target(cands: Seq<(Seq<char>, Seq<char>, Seq<char>)>, target: Seq<char>)
    ensures
        forall|i: int|
            0 <= i < in_domain(cands, target).len() ==> in_registered_domain(
                (#[trigger] in_domain(cands, target)[i]).1,
                target,
            ),
    decreases cands.len(),
{
    if cands.len() > 0 {
        lemma_in_domain_in_target(cands.drop_last(), target);
        let before = in_domain(cands.drop_last(), target);
        let out = in_domain(cands, target);
        assert forall|i: int| 0 <= i < out.len() implies in_registered_domain(
            (#[trigger] out[i]).1,
            target,
        ) by {
            if i < before.len() {
                assert(out[i] == before[i]);
            }
        }
    }
}

/// Each pair that `chosen` picks is the (name, protocol) of a candidate.
pub proof fn lemma_chosen_from(cands: Seq<(Seq<char>, Seq<char>, Seq<char>)>, new_keys: Seq<Seq<char>>)
    ensures
        forall|i: int| 0 <= i < chosen(cands, new_keys).len() ==> exists|k: int|
            0 <= k < cands.len() && #[trigger] chosen(cands, new_keys)[i] == (
            cands[k].1,
            cands[k].2,
        ),
    decreases cands.len(),
{
    if cands.len() > 0 {
        let rest = cands.drop_last();
        lemma_chosen_from(rest, new_keys);
        let before = chosen(rest, new_keys);
        let out = chosen(cands, new_keys);
        assert forall|i: int| 0 <= i < out.len() implies exists|k: int|
            0 <= k < cands.len() && #[trigger] out[i] == (cands[k].1, cands[k].2) by {
            if i < before.len() {
                assert(out[i] == before[i]);
                let k = choose|k: int| 0 <= k < rest.len() && before[i] == (rest[k].1, rest[k].2);
                assert(cands[k] == rest[k]);
            } else {
                assert(out[i] == (cands[cands.len() - 1].1, cands[cands.len() - 1].2));
            }
        }
    }
}

/// Each child is made for one of the links asked about, one level below
/// the job, in the job's crawl, and starts COMPLETED when it is at the
/// requested depth, else PENDING.
pub proof fn lemma_children_from(
    job: UrlJob,
    pending: Seq<(Seq<char>, Seq<char>)>,
    stats: Seq<Option<(Seq<char>, Seq<char>)>>,
    request_time: Seq<char>,
)
    ensures
        forall|i: int|
            0 <= i < resolved_children(job, pending, stats, request_time).len() ==> {
                let c = #[trigger] resolved_children(job, pending, stats, request_time)[i];
                &&& exists|k: int| 0 <= k < pending.len() && pending[k] == (c.name, c.http_type)
                &&& c.current_depth == (job.current_depth + 1) as i64
                &&& c.requested_depth == job.requested_depth
                &&& c.crawl_id == job.crawl_id@
                &&& c.job_status == initial_status(c.current_depth, c.requested_depth)
            },
    decreases pending.len(),
{
    if pending.len() > 0 && stats.len() > 0 {
        let rest = pending.drop_last();
        lemma_children_from(job, rest, stats.drop_last(), request_time);
        let before = resolved_children(job, rest, stats.drop_last(), request_time);
        let out = resolved_children(job, pending, stats, request_time);
        assert forall|i: int| 0 <= i < out.len() implies {
            let c = #[trigger] out[i];
            &&& exists|k: int| 0 <= k < pending.len() && pending[k] == (c.name, c.http_type)
            &&& c.current_depth == (job.current_depth + 1) as i64
            &&& c.requested_depth == job.requested_depth
            &&& c.crawl_id == job.crawl_id@
            &&& c.job_status == initial_status(c.current_depth, c.requested_depth)
        } by {
            if i < before.len() {
                assert(out[i] == before[i]);
                let c = out[i];
                let k = choose|k: int| 0 <= k < rest.len() && rest[k] == (c.name, c.http_type);
                assert(pending[k] == rest[k]);
            } else {
                assert(pending[pending.len() - 1] == (out[i].name, out[i].http_type));
            }
        }
    }
}

/// A targeted job only creates children in its target domain: whatever the
/// page holds, whichever keys the graph reports new and however the names
/// resolve, every child's name lies in the job's target domain.
pub proof fn lemma_targeted_children_in_domain(
    job: UrlJob,
    cands: Seq<(Seq<char>, Seq<char>, Seq<char>)>,
    new_keys: Seq<Seq<char>>,
    stats: Seq<Option<(Seq<char>, Seq<char>)>>,
    request_time: Seq<char>,
)
    requires
        job.is_targeted(),
    ensures
        forall|i: int|
            0 <= i < resolved_children(
                job,
                chosen(in_scope(job, cands), new_keys),
                stats,
                request_time,
            ).len() ==> in_registered_domain(
                (#[trigger] resolved_children(
                    job,
                    chosen(in_scope(job, cands), new_keys),
                    stats,
                    request_time,
                )[i]).name,
                job.target_domain@,
            ),
{
    let scoped = in_scope(job, cands);
    let pending = chosen(scoped, new_keys);
    let kids = resolved_children(job, pending, stats, request_time);
    lemma_in_domain_in_target(cands, job.target_domain@);
    lemma_chosen_from(scoped, new_keys);
    lemma_children_from(job, pending, stats, request_time);
    assert forall|i: int| 0 <= i < kids.len() implies in_registered_domain(
        (#[trigger] kids[i]).name,
        job.target_domain@,
    ) by {
        let c = kids[i];
        let k = choose|k: int| 0 <= k < pending.len() && pending[k] == (c.name, c.http_type);
        let m = choose|m: int| 0 <= m < scoped.len() && pending[k] == (scoped[m].1, scoped[m].2);
        assert(in_registered_domain(scoped[m].1, job.target_domain@));
    }
}

} // verus!
