use webcrawler::crawler::NetworkStats;
use webcrawler::error::CrawlerError;
use webcrawler::job::{
    after_failure, attempts_param, build_children, candidate_keys, cancelled, deduplicate,
    is_permanent, is_well_keyed, keep_in_scope, select_new, status_for_depth, Candidate, JobStatus,
    UrlJob,
};

fn job(targeted: bool, target: &str) -> UrlJob {
    UrlJob::from_node(
        "EXAMPLE.COM".to_string(),
        "HTTPS://".to_string(),
        3,
        1,
        Some(2),
        Some("crawl-1".to_string()),
        Some(targeted),
        Some(target.to_string()),
    )
}

#[test]
fn from_node_fills_defaults() {
    let j = UrlJob::from_node("A.COM".into(), "HTTP://".into(), 2, 0, None, None, None, None);
    assert_eq!(j.crawl_id, "");
    assert!(!j.targeted);
    assert_eq!(j.target_domain, "");
    assert_eq!(j.attempts, None);
    assert_eq!(j.full_url(), "HTTP://A.COM");
    assert!(!j.targets_domain());
    let t = job(true, "EXAMPLE.COM");
    assert!(t.targets_domain());
    assert!(!job(true, "").targets_domain());
}

#[test]
fn status_labels() {
    assert_eq!(JobStatus::Pending.as_str(), "PENDING");
    assert_eq!(JobStatus::InProgress.as_str(), "IN-PROGRESS");
    assert_eq!(JobStatus::Completed.as_str(), "COMPLETED");
    assert_eq!(JobStatus::Failed.as_str(), "FAILED");
    assert_eq!(JobStatus::Cancelled.as_str(), "CANCELLED");
    assert_eq!(attempts_param(None), 0);
    assert_eq!(attempts_param(Some(4)), 4);
}

#[test]
fn cancellation_is_read_from_status() {
    assert!(cancelled(&Some("CANCELLED".to_string())));
    assert!(!cancelled(&Some("cancelled".to_string())));
    assert!(!cancelled(&Some("IN-PROGRESS".to_string())));
    assert!(!cancelled(&None));
}

#[test]
fn four_hundreds_fail_at_once() {
    let e = CrawlerError::HttpStatus { url: "u".into(), status: 404 };
    assert!(is_permanent(&e));
    assert_eq!(after_failure(None, &e, 5), (1, JobStatus::Failed));
    let e = CrawlerError::HttpStatus { url: "u".into(), status: 499 };
    assert_eq!(after_failure(Some(0), &e, 5), (1, JobStatus::Failed));
}

#[test]
fn other_failures_retry_until_the_limit() {
    let e = CrawlerError::HttpStatus { url: "u".into(), status: 500 };
    assert!(!is_permanent(&e));
    assert_eq!(after_failure(None, &e, 3), (1, JobStatus::Pending));
    assert_eq!(after_failure(Some(1), &e, 3), (2, JobStatus::Pending));
    assert_eq!(after_failure(Some(2), &e, 3), (3, JobStatus::Failed));
    let t = CrawlerError::HttpTimeout { url: "u".into() };
    assert!(!is_permanent(&t));
    assert_eq!(after_failure(Some(7), &t, 3), (8, JobStatus::Failed));
    let s = CrawlerError::HttpStatus { url: "u".into(), status: 399 };
    assert_eq!(after_failure(None, &s, 2), (1, JobStatus::Pending));
}

#[test]
fn dedup_keeps_first_link_per_key() {
    let urls: Vec<String> = vec![
        "https://www.a.com/x".into(),
        "https://A.com/y".into(),
        "http://a.com".into(),
        "https://b.org:8080/".into(),
    ];
    let cands = deduplicate(&urls);
    let keys: Vec<String> = candidate_keys(&cands);
    assert_eq!(keys, vec!["HTTPS://A.COM", "HTTP://A.COM", "HTTPS://B.ORG:8080"]);
    assert_eq!(cands[0].name, "A.COM");
    assert_eq!(cands[0].http_type, "HTTPS://");
    assert_eq!(cands[2].name, "B.ORG:8080");
}

#[test]
fn targeted_jobs_keep_their_domain_only() {
    let urls: Vec<String> = vec![
        "https://blog.example.com/".into(),
        "https://google.com/".into(),
        "http://example.com:81".into(),
        "https://example.co.uk".into(),
    ];
    let kept = keep_in_scope(&job(true, "EXAMPLE.COM"), deduplicate(&urls));
    let names: Vec<&str> = kept.iter().map(|c| c.name.as_str()).collect();
    assert_eq!(names, vec!["BLOG.EXAMPLE.COM", "EXAMPLE.COM:81"]);
    let all = keep_in_scope(&job(false, "EXAMPLE.COM"), deduplicate(&urls));
    assert_eq!(all.len(), 4);
    let empty_target = keep_in_scope(&job(true, ""), deduplicate(&urls));
    assert_eq!(empty_target.len(), 4);
}

#[test]
fn select_new_picks_reported_keys() {
    let urls: Vec<String> = vec!["https://a.com".into(), "https://b.com".into(), "http://c.com".into()];
    let cands = deduplicate(&urls);
    let picked = select_new(&cands, &vec!["HTTP://C.COM".to_string(), "HTTPS://A.COM".to_string(), "HTTPS://Z.COM".to_string()]);
    assert_eq!(
        picked,
        vec![("A.COM".to_string(), "HTTPS://".to_string()), ("C.COM".to_string(), "HTTP://".to_string())]
    );
    assert!(select_new(&cands, &vec![]).is_empty());
}

#[test]
fn children_are_one_level_deeper() {
    let j = job(true, "EXAMPLE.COM");
    let pending = vec![
        ("A.EXAMPLE.COM".to_string(), "HTTPS://".to_string()),
        ("B.EXAMPLE.COM".to_string(), "HTTP://".to_string()),
    ];
    let stats = vec![None, Some(NetworkStats { ip: "1.2.3.4".into(), domain: "EXAMPLE.COM".into() })];
    let kids = build_children(&j, &pending, &stats, &"12ms".to_string());
    assert_eq!(kids.len(), 1);
    let c = &kids[0];
    assert_eq!(c.name, "B.EXAMPLE.COM");
    assert_eq!(c.http_type, "HTTP://");
    assert_eq!(c.ip, "1.2.3.4");
    assert_eq!(c.domain, "EXAMPLE.COM");
    assert_eq!(c.current_depth, 2);
    assert_eq!(c.requested_depth, 3);
    assert_eq!(c.request_time, "12ms");
    assert_eq!(c.crawl_id, "crawl-1");
    assert!(c.targeted);
    assert_eq!(c.target_domain, "EXAMPLE.COM");
    assert_eq!(c.job_status, JobStatus::Pending);
}

#[test]
fn children_at_the_requested_depth_are_complete() {
    let j = UrlJob::from_node(
        "EXAMPLE.COM".to_string(),
        "HTTPS://".to_string(),
        2,
        1,
        None,
        Some("crawl-2".to_string()),
        None,
        None,
    );
    let pending = vec![("A.ORG".to_string(), "HTTPS://".to_string())];
    let stats = vec![Some(NetworkStats { ip: "5.6.7.8".into(), domain: "A.ORG".into() })];
    let kids = build_children(&j, &pending, &stats, &"3ms".to_string());
    assert_eq!(kids.len(), 1);
    assert_eq!(kids[0].current_depth, 2);
    assert_eq!(kids[0].requested_depth, 2);
    assert_eq!(kids[0].job_status, JobStatus::Completed);
    assert_eq!(kids[0].job_status.as_str(), "COMPLETED");
}

#[test]
fn initial_status_follows_depth() {
    assert_eq!(status_for_depth(1, 1), JobStatus::Completed);
    assert_eq!(status_for_depth(3, 3), JobStatus::Completed);
    assert_eq!(status_for_depth(2, 3), JobStatus::Pending);
    assert_eq!(status_for_depth(1, 5), JobStatus::Pending);
}

#[test]
fn well_keyed_candidates() {
    let urls: Vec<String> = vec!["https://a.com".into(), "http://a.com".into()];
    let mut cands = deduplicate(&urls);
    assert!(is_well_keyed(&cands));
    cands.push(Candidate { key: "HTTPS://A.COM".into(), name: "A.COM".into(), http_type: "HTTPS://".into() });
    assert!(!is_well_keyed(&cands));
    let bad = vec![Candidate { key: "X".into(), name: "A.COM".into(), http_type: "HTTPS://".into() }];
    assert!(!is_well_keyed(&bad));
}
