//! The decisions of processing one URL job, as a state machine.
//!
//! The feeder claims a job, then alternates outside work (reading the graph,
//! fetching the page, resolving names, writing nodes) with the decisions
//! made here. `Feeding::start` and `Feeding::step` take what the outside
//! work gave and say what to do next:
//!
//! check cancellation -> fetch -> extract, normalize, deduplicate, scope ->
//! find the new links -> resolve them -> check cancellation again ->
//! create the children -> mark the job COMPLETED.
use vstd::prelude::*;

use crate::crawler::{extract_urls, extracted_urls, views, NetworkStats};
use crate::error::CrawlerError;
use crate::job::{
    after_failure, build_children, names_of_pairs, pair_names, candidate_keys, candidate_views, cancelled, child_views,
    chosen, deduplicate, deduplicated, in_scope, is_cancelled_status, keep_in_scope, pair_views,
    resolved_children, select_new, stats_views, status_after_failure, well_keyed, Candidate,
    ChildNode, JobStatus, UrlJob,
};

verus! {

broadcast use vstd::seq_lib::group_seq_properties;

/// Where the processing of a job stands.
pub enum FeedStage {
    /// Waiting for the job's status, to see whether its crawl was cancelled.
    CheckingCancel,
    /// Waiting for the page of the job.
    Fetching,
    /// Waiting for the keys of the links that are new in the crawl.
    FindingNew { candidates: Vec<Candidate>, request_time: String },
    /// Waiting for the new links to be resolved, in the order given.
    Resolving { pending: Vec<(String, String)>, request_time: String },
    /// Waiting for the job's status once more before children are created.
    Rechecking { children: Vec<ChildNode> },
    /// Waiting for the children to be created.
    Creating,
    /// Waiting for the job's status to be written; then the job ends with
    /// `result`.
    WritingStatus { result: bool },
    /// Processing ended: `true` when the job completed.
    Done { result: bool },
}

/// What the outside work gave.
pub enum FeedEvent {
    /// The status stored on the job's node, `None` when the node is gone.
    CancelStatus(Option<String>),
    /// The page was fetched; `request_time` is how long the request took.
    PageFetched { html: String, request_time: String },
    /// The page could not be fetched.
    PageFailed(CrawlerError),
    /// Of the keys asked about, those that are not yet in the crawl.
    NewUrls(Vec<String>),
    /// How each link asked about resolved, in the same order.
    Resolved(Vec<Option<NetworkStats>>),
    /// The children were created.
    ChildrenCreated,
    /// The job's status was written.
    StatusWritten,
}

/// What to do next.
pub enum FeedAction {
    /// Read the status of the job's node.
    CheckCancelled,
    /// Fetch the page at this URL.
    FetchPage(String),
    /// Find which of these keys are not yet in the job's crawl.
    FindNewUrls(Vec<String>),
    /// Resolve these host names, in order.
    Resolve(Vec<String>),
    /// Create these children below the job, with their links from it.
    CreateChildren(Vec<ChildNode>),
    /// Write this status and attempts count to the job (unless cancelled).
    WriteStatus(JobStatus, Option<i64>),
    /// Stop: `true` when the job completed.
    Finish(bool),
}

/// The processing of one job.
pub struct Feeding {
    pub(crate) job: UrlJob,
    pub(crate) stage: FeedStage,
    /// After this many failed fetches a job is given up.
    pub(crate) max_attempts: i64,
}

/// The links that a fetched page gives a job: extracted against the job's
/// URL, normalized, one per key, and kept in scope.
pub open spec fn page_candidates(job: UrlJob, html: Seq<char>) -> Seq<(Seq<char>, Seq<char>, Seq<char>)> {
    in_scope(job, deduplicated(extracted_urls(html, job.url())))
}

/// Two jobs agree on everything but the attempts count.
pub open spec fn same_job_but_attempts(a: UrlJob, b: UrlJob) -> bool {
    &&& a.name == b.name
    &&& a.http_type == b.http_type
    &&& a.requested_depth == b.requested_depth
    &&& a.current_depth == b.current_depth
    &&& a.crawl_id == b.crawl_id
    &&& a.targeted == b.targeted
    &&& a.target_domain == b.target_domain
}

impl Feeding {
    /// What every state keeps: the candidates held have distinct keys.
    #[verifier::type_invariant]
    pub(crate) closed spec fn wf(&self) -> bool {
        self.stage matches FeedStage::FindingNew { candidates, .. } ==> well_keyed(
            candidate_views(candidates@),
        )
    }

    /// The job being processed.
    pub closed spec fn job_of(&self) -> UrlJob {
        self.job
    }

    /// Where the processing stands.
    pub closed spec fn stage_of(&self) -> FeedStage {
        self.stage
    }

    /// After this many failed fetches a job is given up.
    pub closed spec fn limit_of(&self) -> i64 {
        self.max_attempts
    }

    /// The job being processed.
    pub fn job(&self) -> (j: &UrlJob)
        ensures
            *j == self.job_of(),
    {
        &self.job
    }

    /// Where the processing stands.
    pub fn stage(&self) -> (s: &FeedStage)
        ensures
            *s == self.stage_of(),
    {
        &self.stage
    }

    /// The job being processed, taken out of the machine.
    pub fn into_job(self) -> (j: UrlJob)
        ensures
            j == self.job_of(),
    {
        self.job
    }

    /// The job's counters leave room for what the event makes of them: one
    /// more attempt after a failed fetch, and one more level of depth for
    /// children when some link resolved.
    pub open spec fn counts_fit(&self, event: FeedEvent) -> bool {
        &&& (self.stage_of() is Fetching && event is PageFailed) ==> self.job_of().attempts.unwrap_or(0)
            < i64::MAX
        &&& (self.stage_of() is Resolving && event is Resolved) ==> (self.job_of().current_depth < i64::MAX
            || none_resolved(stats_views(event->Resolved_0@)))
    }

    /// Whether the job's counters leave room for what the event makes of them.
    pub fn fits(&self, event: &FeedEvent) -> (res: bool)
        ensures
            res == self.counts_fit(*event),
    {
        match (&self.stage, event) {
            (FeedStage::Fetching, FeedEvent::PageFailed(_)) => {
                match self.job.attempts {
                    Some(n) => n < i64::MAX,
                    None => true,
                }
            },
            (FeedStage::Resolving { .. }, FeedEvent::Resolved(stats)) => {
                self.job.current_depth < i64::MAX || all_unresolved(stats)
            },
            _ => true,
        }
    }

    /// Starts processing `job`: the first thing to do is to check whether
    /// its crawl was cancelled.
    pub fn start(job: UrlJob, max_attempts: i64) -> (res: (Feeding, FeedAction))
        ensures
            res.0.job_of() == job,
            res.0.limit_of() == max_attempts,
            res.0.stage_of() is CheckingCancel,
            res.1 is CheckCancelled,
    {
        (Feeding { job, stage: FeedStage::CheckingCancel, max_attempts }, FeedAction::CheckCancelled)
    }

    /// Ends with `false`.
    fn stop(job: UrlJob, max_attempts: i64) -> (res: (Feeding, FeedAction))
        ensures
            res.0.job_of() == job,
            res.0.limit_of() == max_attempts,
            res.0.stage_of() == (FeedStage::Done { result: false }),
            res.1 == FeedAction::Finish(false),
    {
        (Feeding { job, stage: FeedStage::Done { result: false }, max_attempts }, FeedAction::Finish(false))
    }

    /// Takes what the outside work gave and says what to do next.
    ///
    /// An event that the stage does not wait for, or resolutions that do not
    /// match the links asked about one for one, end the processing with
    /// `false`.
    pub fn step(self, event: FeedEvent) -> (res: (Feeding, FeedAction))
        requires
            self.counts_fit(event),
        ensures
            res.0.limit_of() == self.limit_of(),
            same_job_but_attempts(res.0.job_of(), self.job_of()),
            !(self.stage_of() is Fetching && event is PageFailed) ==> res.0.job_of() == self.job_of(),
            // First check: stop when cancelled, else fetch the job's URL.
            self.stage_of() is CheckingCancel ==> (event matches FeedEvent::CancelStatus(st) ==> if is_cancelled_status(st) {
                res.0.stage_of() == (FeedStage::Done { result: false }) && res.1 == FeedAction::Finish(false)
            } else {
                res.0.stage_of() is Fetching && (res.1 matches FeedAction::FetchPage(url) && url@ == self.job_of().url())
            }),
            // A fetched page: extract, normalize, deduplicate and scope the
            // links, and ask which of their keys are new.
            self.stage_of() is Fetching ==> (event matches FeedEvent::PageFetched { html, request_time } ==> (
            res.0.stage_of() matches FeedStage::FindingNew { candidates, request_time: rt }
                && candidate_views(candidates@) == page_candidates(self.job_of(), html@)
                && rt@ == request_time@
                && (res.1 matches FeedAction::FindNewUrls(keys)
                && views(keys@) == candidate_views(candidates@).map_values(
                |c: (Seq<char>, Seq<char>, Seq<char>)| c.0,
            )))),
            // A failed fetch: one more attempt is counted, and the job is
            // written FAILED (permanent failure or limit reached) or PENDING.
            self.stage_of() is Fetching ==> (event matches FeedEvent::PageFailed(err) ==> (
            res.0.job_of().attempts == Some((self.job_of().attempts.unwrap_or(0) + 1) as i64)
                && res.0.stage_of() == (FeedStage::WritingStatus { result: false })
                && res.1 == FeedAction::WriteStatus(
                status_after_failure(err, self.job_of().attempts.unwrap_or(0) + 1, self.limit_of()),
                Some((self.job_of().attempts.unwrap_or(0) + 1) as i64),
            ))),
            // No new links: the job is complete. Else resolve the new ones.
            self.stage_of() matches FeedStage::FindingNew { candidates, request_time } ==> (
            event matches FeedEvent::NewUrls(keys) ==> if keys.len() == 0 {
                res.0.stage_of() == (FeedStage::WritingStatus { result: true }) && res.1
                    == FeedAction::WriteStatus(JobStatus::Completed, self.job_of().attempts)
            } else {
                res.0.stage_of() matches FeedStage::Resolving { pending, request_time: rt }
                    && pair_views(pending@) == chosen(candidate_views(candidates@), views(keys@))
                    && rt@ == request_time@
                    && (res.1 matches FeedAction::Resolve(names) && views(names@) == pair_names(pending@))
            }),
            // Resolved links become children; none at all fails the job,
            // else the crawl is checked for cancellation once more.
            self.stage_of() matches FeedStage::Resolving { pending, request_time } ==> (
            event matches FeedEvent::Resolved(stats) ==> if stats.len() != pending.len() {
                res.0.stage_of() == (FeedStage::Done { result: false }) && res.1 == FeedAction::Finish(false)
            } else if resolved_children(
                self.job_of(),
                pair_views(pending@),
                stats_views(stats@),
                request_time@,
            ).len() == 0 {
                res.0.stage_of() == (FeedStage::WritingStatus { result: false }) && res.1
                    == FeedAction::WriteStatus(JobStatus::Failed, self.job_of().attempts)
            } else {
                res.0.stage_of() matches FeedStage::Rechecking { children } && child_views(children@)
                    == resolved_children(
                    self.job_of(),
                    pair_views(pending@),
                    stats_views(stats@),
                    request_time@,
                ) && res.1 is CheckCancelled
            }),
            // Second check: stop when cancelled, else create the children.
            self.stage_of() matches FeedStage::Rechecking { children } ==> (
            event matches FeedEvent::CancelStatus(st) ==> if is_cancelled_status(st) {
                res.0.stage_of() == (FeedStage::Done { result: false }) && res.1 == FeedAction::Finish(false)
            } else {
                res.0.stage_of() is Creating && (res.1 matches FeedAction::CreateChildren(made)
                    && child_views(made@) == child_views(children@))
            }),
            // Children created: the job is complete.
            self.stage_of() is Creating ==> (event is ChildrenCreated ==> res.0.stage_of() == (
            FeedStage::WritingStatus { result: true }) && res.1 == FeedAction::WriteStatus(
                JobStatus::Completed,
                self.job_of().attempts,
            )),
            // Status written: finish with the result decided before.
            self.stage_of() matches FeedStage::WritingStatus { result } ==> (event is StatusWritten
                ==> res.0.stage_of() == (FeedStage::Done { result }) && res.1 == FeedAction::Finish(result)),
            // Anything else ends the processing with `false`.
            !expected(self.stage_of(), event) ==> res.0.stage_of() == (FeedStage::Done { result: false })
                && res.1 == FeedAction::Finish(false),
            // Children are created only right after a check that found the
            // crawl not cancelled.
            res.1 is CreateChildren ==> self.stage_of() is Rechecking && (event matches FeedEvent::CancelStatus(
                st,
            ) && !is_cancelled_status(st)),
            // A job finishes as completed only once COMPLETED was written.
            res.1 == FeedAction::Finish(true) ==> self.stage_of() == (FeedStage::WritingStatus {
                result: true,
            }),
            res.0.stage_of() == (FeedStage::WritingStatus { result: true }) ==> res.1 == FeedAction::WriteStatus(
                JobStatus::Completed,
                self.job_of().attempts,
            ),
    {
        proof {
            use_type_invariant(&self);
        }
        let Feeding { job, stage, max_attempts } = self;
        match stage {
            FeedStage::CheckingCancel => match event {
                FeedEvent::CancelStatus(status) => {
                    if cancelled(&status) {
                        Self::stop(job, max_attempts)
                    } else {
                        let url = job.full_url();
                        (Feeding { job, stage: FeedStage::Fetching, max_attempts }, FeedAction::FetchPage(url))
                    }
                },
                _ => Self::stop(job, max_attempts),
            },
            FeedStage::Fetching => match event {
                FeedEvent::PageFetched { html, request_time } => {
                    let url = job.full_url();
                    let links = extract_urls(html.as_str(), url.as_str());
                    let unique = deduplicate(&links);
                    let candidates = keep_in_scope(&job, unique);
                    let keys = candidate_keys(&candidates);
                    (
                        Feeding {
                            job,
                            stage: FeedStage::FindingNew { candidates, request_time },
                            max_attempts,
                        },
                        FeedAction::FindNewUrls(keys),
                    )
                },
                FeedEvent::PageFailed(err) => {
                    let (count, status) = after_failure(job.attempts, &err, max_attempts);
                    let mut job = job;
                    job.attempts = Some(count);
                    (
                        Feeding { job, stage: FeedStage::WritingStatus { result: false }, max_attempts },
                        FeedAction::WriteStatus(status, Some(count)),
                    )
                },
                _ => Self::stop(job, max_attempts),
            },
            FeedStage::FindingNew { candidates, request_time } => match event {
                FeedEvent::NewUrls(keys) => {
                    if keys.len() == 0 {
                        let attempts = job.attempts;
                        (
                            Feeding { job, stage: FeedStage::WritingStatus { result: true }, max_attempts },
                            FeedAction::WriteStatus(JobStatus::Completed, attempts),
                        )
                    } else {
                        let pending = select_new(&candidates, &keys);
                        let names = names_of_pairs(&pending);
                        (
                            Feeding { job, stage: FeedStage::Resolving { pending, request_time }, max_attempts },
                            FeedAction::Resolve(names),
                        )
                    }
                },
                _ => Self::stop(job, max_attempts),
            },
            FeedStage::Resolving { pending, request_time } => match event {
                FeedEvent::Resolved(stats) => {
                    if stats.len() != pending.len() {
                        Self::stop(job, max_attempts)
                    } else {
                        let children = if job.current_depth < i64::MAX {
                            build_children(&job, &pending, &stats, &request_time)
                        } else {
                            proof {
                                lemma_none_resolved(job, pair_views(pending@), stats_views(stats@), request_time@);
                            }
                            Vec::new()
                        };
                        if children.len() == 0 {
                            let attempts = job.attempts;
                            (
                                Feeding { job, stage: FeedStage::WritingStatus { result: false }, max_attempts },
                                FeedAction::WriteStatus(JobStatus::Failed, attempts),
                            )
                        } else {
                            (
                                Feeding { job, stage: FeedStage::Rechecking { children }, max_attempts },
                                FeedAction::CheckCancelled,
                            )
                        }
                    }
                },
                _ => Self::stop(job, max_attempts),
            },
            FeedStage::Rechecking { children } => match event {
                FeedEvent::CancelStatus(status) => {
                    if cancelled(&status) {
                        Self::stop(job, max_attempts)
                    } else {
                        (
                            Feeding { job, stage: FeedStage::Creating, max_attempts },
                            FeedAction::CreateChildren(children),
                        )
                    }
                },
                _ => Self::stop(job, max_attempts),
            },
            FeedStage::Creating => match event {
                FeedEvent::ChildrenCreated => {
                    let attempts = job.attempts;
                    (
                        Feeding { job, stage: FeedStage::WritingStatus { result: true }, max_attempts },
                        FeedAction::WriteStatus(JobStatus::Completed, attempts),
                    )
                },
                _ => Self::stop(job, max_attempts),
            },
            FeedStage::WritingStatus { result } => match event {
                FeedEvent::StatusWritten => (
                    Feeding { job, stage: FeedStage::Done { result }, max_attempts },
                    FeedAction::Finish(result),
                ),
                _ => Self::stop(job, max_attempts),
            },
            FeedStage::Done { .. } => Self::stop(job, max_attempts),
        }
    }
}

/// Whether a stage waits for this kind of event.
pub open spec fn expected(stage: FeedStage, event: FeedEvent) -> bool {
    match stage {
        FeedStage::CheckingCancel => event is CancelStatus,
        FeedStage::Fetching => event is PageFetched || event is PageFailed,
        FeedStage::FindingNew { .. } => event is NewUrls,
        FeedStage::Resolving { .. } => event is Resolved,
        FeedStage::Rechecking { .. } => event is CancelStatus,
        FeedStage::Creating => event is ChildrenCreated,
        FeedStage::WritingStatus { .. } => event is StatusWritten,
        FeedStage::Done { .. } => false,
    }
}

/// No link resolved.
pub open spec fn none_resolved(stats: Seq<Option<(Seq<char>, Seq<char>)>>) -> bool {
    forall|i: int| 0 <= i < stats.len() ==> (#[trigger] stats[i]) is None
}

/// Whether no link resolved.
fn all_unresolved(stats: &Vec<Option<NetworkStats>>) -> (res: bool)
    ensures
        res == none_resolved(stats_views(stats@)),
{
    let mut i: usize = 0;
    while i < stats.len()
        invariant
            i <= stats.len(),
            forall|j: int| 0 <= j < i ==> (#[trigger] stats_views(stats@)[j]) is None,
        decreases stats.len() - i,
    {
        if stats[i].is_some() {
            assert(stats_views(stats@)[i as int] is Some);
            return false;
        }
        i = i + 1;
    }
    true
}

/// When no link resolved there are no children.
proof fn lemma_none_resolved(
    job: UrlJob,
    pending: Seq<(Seq<char>, Seq<char>)>,
    stats: Seq<Option<(Seq<char>, Seq<char>)>>,
    request_time: Seq<char>,
)
    requires
        none_resolved(stats),
    ensures
        resolved_children(job, pending, stats, request_time).len() == 0,
    decreases pending.len(),
{
    if pending.len() > 0 && stats.len() > 0 {
        assert(stats.last() is None);
        lemma_none_resolved(job, pending.drop_last(), stats.drop_last(), request_time);
    }
}

} // verus!
