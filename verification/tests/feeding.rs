use webcrawler::crawler::NetworkStats;
use webcrawler::error::CrawlerError;
use webcrawler::feeding::{FeedAction, FeedEvent, FeedStage, Feeding};
use webcrawler::job::{JobStatus, UrlJob};

fn job(targeted: bool) -> UrlJob {
    UrlJob::from_node(
        "EXAMPLE.COM".into(),
        "HTTPS://".into(),
        3,
        1,
        None,
        Some("c1".into()),
        Some(targeted),
        Some(if targeted { "EXAMPLE.COM".into() } else { String::new() }),
    )
}

const PAGE: &str = r#"<a href="/about">a</a> <a href="https://blog.example.com/x">b</a>
<a href="https://other.org/">c</a> <a href="mailto:x@y.z">m</a> <a href="/about#top">d</a>"#;

fn stats(ip: &str) -> Option<NetworkStats> {
    Some(NetworkStats { ip: ip.into(), domain: "D".into() })
}

#[test]
fn full_cycle_completes() {
    let (f, a) = Feeding::start(job(false), 3);
    assert!(matches!(a, FeedAction::CheckCancelled));
    let (f, a) = f.step(FeedEvent::CancelStatus(Some("IN-PROGRESS".into())));
    match &a {
        FeedAction::FetchPage(url) => assert_eq!(url, "HTTPS://EXAMPLE.COM"),
        _ => panic!("expected a fetch"),
    }
    let (f, a) = f.step(FeedEvent::PageFetched { html: PAGE.into(), request_time: "5ms".into() });
    let keys = match a {
        FeedAction::FindNewUrls(keys) => keys,
        _ => panic!("expected keys"),
    };
    assert_eq!(keys, vec!["HTTPS://EXAMPLE.COM", "HTTPS://BLOG.EXAMPLE.COM", "HTTPS://OTHER.ORG"]);
    let (f, a) = f.step(FeedEvent::NewUrls(vec!["HTTPS://OTHER.ORG".into(), "HTTPS://BLOG.EXAMPLE.COM".into()]));
    let names = match a {
        FeedAction::Resolve(names) => names,
        _ => panic!("expected names"),
    };
    assert_eq!(names, vec!["BLOG.EXAMPLE.COM", "OTHER.ORG"]);
    let (f, a) = f.step(FeedEvent::Resolved(vec![stats("1.1.1.1"), None]));
    assert!(matches!(a, FeedAction::CheckCancelled));
    let (f, a) = f.step(FeedEvent::CancelStatus(Some("IN-PROGRESS".into())));
    let kids = match a {
        FeedAction::CreateChildren(kids) => kids,
        _ => panic!("expected children"),
    };
    assert_eq!(kids.len(), 1);
    assert_eq!(kids[0].name, "BLOG.EXAMPLE.COM");
    assert_eq!(kids[0].current_depth, 2);
    assert_eq!(kids[0].request_time, "5ms");
    let (f, a) = f.step(FeedEvent::ChildrenCreated);
    assert!(matches!(a, FeedAction::WriteStatus(JobStatus::Completed, None)));
    let (f, a) = f.step(FeedEvent::StatusWritten);
    assert!(matches!(a, FeedAction::Finish(true)));
    assert!(matches!(f.stage(), FeedStage::Done { result: true }));
}

#[test]
fn cancelled_before_fetch_stops() {
    let (f, _) = Feeding::start(job(false), 3);
    let (f, a) = f.step(FeedEvent::CancelStatus(Some("CANCELLED".into())));
    assert!(matches!(a, FeedAction::Finish(false)));
    assert!(matches!(f.stage(), FeedStage::Done { result: false }));
}

#[test]
fn cancelled_before_creating_children_stops() {
    let (f, _) = Feeding::start(job(false), 3);
    let (f, _) = f.step(FeedEvent::CancelStatus(None));
    let (f, _) = f.step(FeedEvent::PageFetched { html: PAGE.into(), request_time: "1s".into() });
    let (f, _) = f.step(FeedEvent::NewUrls(vec!["HTTPS://OTHER.ORG".into()]));
    let (f, a) = f.step(FeedEvent::Resolved(vec![stats("9.9.9.9")]));
    assert!(matches!(a, FeedAction::CheckCancelled));
    let (_, a) = f.step(FeedEvent::CancelStatus(Some("CANCELLED".into())));
    assert!(matches!(a, FeedAction::Finish(false)));
}

#[test]
fn failed_fetch_counts_an_attempt() {
    let (f, _) = Feeding::start(job(false), 3);
    let (f, _) = f.step(FeedEvent::CancelStatus(None));
    let (f, a) = f.step(FeedEvent::PageFailed(CrawlerError::HttpTimeout { url: "u".into() }));
    assert!(matches!(a, FeedAction::WriteStatus(JobStatus::Pending, Some(1))));
    assert_eq!(f.job().attempts, Some(1));
    let (_, a) = f.step(FeedEvent::StatusWritten);
    assert!(matches!(a, FeedAction::Finish(false)));

    let (f, _) = Feeding::start(job(false), 3);
    let (f, _) = f.step(FeedEvent::CancelStatus(None));
    let (_, a) = f.step(FeedEvent::PageFailed(CrawlerError::HttpStatus { url: "u".into(), status: 410 }));
    assert!(matches!(a, FeedAction::WriteStatus(JobStatus::Failed, Some(1))));
}

#[test]
fn no_new_links_completes() {
    let (f, _) = Feeding::start(job(false), 3);
    let (f, _) = f.step(FeedEvent::CancelStatus(None));
    let (f, _) = f.step(FeedEvent::PageFetched { html: PAGE.into(), request_time: "1s".into() });
    let (f, a) = f.step(FeedEvent::NewUrls(vec![]));
    assert!(matches!(a, FeedAction::WriteStatus(JobStatus::Completed, None)));
    let (_, a) = f.step(FeedEvent::StatusWritten);
    assert!(matches!(a, FeedAction::Finish(true)));
}

#[test]
fn nothing_resolved_fails() {
    let (f, _) = Feeding::start(job(false), 3);
    let (f, _) = f.step(FeedEvent::CancelStatus(None));
    let (f, _) = f.step(FeedEvent::PageFetched { html: PAGE.into(), request_time: "1s".into() });
    let (f, _) = f.step(FeedEvent::NewUrls(vec!["HTTPS://OTHER.ORG".into()]));
    let (f, a) = f.step(FeedEvent::Resolved(vec![None]));
    assert!(matches!(a, FeedAction::WriteStatus(JobStatus::Failed, None)));
    let (_, a) = f.step(FeedEvent::StatusWritten);
    assert!(matches!(a, FeedAction::Finish(false)));
}

#[test]
fn targeted_job_asks_only_about_its_domain() {
    let (f, _) = Feeding::start(job(true), 3);
    let (f, _) = f.step(FeedEvent::CancelStatus(None));
    let (_, a) = f.step(FeedEvent::PageFetched { html: PAGE.into(), request_time: "1s".into() });
    match a {
        FeedAction::FindNewUrls(keys) => {
            assert_eq!(keys, vec!["HTTPS://EXAMPLE.COM", "HTTPS://BLOG.EXAMPLE.COM"])
        },
        _ => panic!("expected keys"),
    }
}

#[test]
fn unexpected_event_ends_with_false() {
    let (f, _) = Feeding::start(job(false), 3);
    let (f, a) = f.step(FeedEvent::ChildrenCreated);
    assert!(matches!(a, FeedAction::Finish(false)));
    let (_, a) = f.step(FeedEvent::StatusWritten);
    assert!(matches!(a, FeedAction::Finish(false)));
    let (f, _) = Feeding::start(job(false), 3);
    let (f, _) = f.step(FeedEvent::CancelStatus(None));
    let (f, _) = f.step(FeedEvent::PageFetched { html: PAGE.into(), request_time: "1s".into() });
    let (f, _) = f.step(FeedEvent::NewUrls(vec!["HTTPS://OTHER.ORG".into()]));
    let (_, a) = f.step(FeedEvent::Resolved(vec![]));
    assert!(matches!(a, FeedAction::Finish(false)));
}

#[test]
fn counters_must_leave_room() {
    let mut j = job(false);
    j.attempts = Some(i64::MAX);
    let (f, _) = Feeding::start(j, 3);
    let (f, _) = f.step(FeedEvent::CancelStatus(None));
    let failed = FeedEvent::PageFailed(CrawlerError::HttpTimeout { url: "u".into() });
    assert!(!f.fits(&failed));
    assert!(f.fits(&FeedEvent::PageFetched { html: String::new(), request_time: "1s".into() }));

    let mut j = job(false);
    j.current_depth = i64::MAX;
    let (f, _) = Feeding::start(j, 3);
    let (f, _) = f.step(FeedEvent::CancelStatus(None));
    let (f, _) = f.step(FeedEvent::PageFetched { html: PAGE.into(), request_time: "1s".into() });
    let (f, _) = f.step(FeedEvent::NewUrls(vec!["HTTPS://OTHER.ORG".into()]));
    assert!(!f.fits(&FeedEvent::Resolved(vec![stats("1.1.1.1")])));
    let none = FeedEvent::Resolved(vec![None]);
    assert!(f.fits(&none));
    let (_, a) = f.step(none);
    assert!(matches!(a, FeedAction::WriteStatus(JobStatus::Failed, None)));
}
