use webcrawler::crawler::{request_failure, status_failure, NetworkStats};
use webcrawler::error::CrawlerError;
use webcrawler::models::CrawlRequest;
use webcrawler::poll::Backoff;
use webcrawler::routes::{
    cancel_reply, crawl_links, crawler_error_to_status, depth_allowed, resolved_root_children,
    CancelReply, CrawlReply, CreateAction, CreateCrawl, CreateEvent, MAX_CRAWL_DEPTH,
};

fn request(url: &str, depth: i64, targeted: Option<bool>) -> CrawlRequest {
    CrawlRequest { url: url.into(), depth, targeted }
}

#[test]
fn error_statuses() {
    assert_eq!(crawler_error_to_status(&CrawlerError::HttpTimeout { url: "u".into() }), 504);
    assert_eq!(crawler_error_to_status(&CrawlerError::HttpStatus { url: "u".into(), status: 404 }), 404);
    assert_eq!(crawler_error_to_status(&CrawlerError::HttpStatus { url: "u".into(), status: 403 }), 502);
    assert_eq!(crawler_error_to_status(&CrawlerError::HttpRequest { url: "u".into(), message: "m".into() }), 502);
    assert_eq!(crawler_error_to_status(&CrawlerError::HttpBodyRead { url: "u".into(), message: "m".into() }), 502);
    assert_eq!(crawler_error_to_status(&CrawlerError::DnsResolution { name: "n".into(), message: "m".into() }), 502);
    assert_eq!(crawler_error_to_status(&CrawlerError::Neo4jConnection("x".into())), 500);
    assert_eq!(crawler_error_to_status(&CrawlerError::Neo4jQuery("x".into())), 500);
}

#[test]
fn fetch_failures() {
    assert!(status_failure("u", 200).is_none());
    assert!(status_failure("u", 299).is_none());
    assert!(matches!(status_failure("u", 301), Some(CrawlerError::HttpStatus { status: 301, .. })));
    assert!(matches!(status_failure("u", 199), Some(CrawlerError::HttpStatus { status: 199, .. })));
    assert!(matches!(request_failure("u", true, "t".into()), CrawlerError::HttpTimeout { .. }));
    match request_failure("http://x", false, "boom".into()) {
        CrawlerError::HttpRequest { url, message } => {
            assert_eq!(url, "http://x");
            assert_eq!(message, "boom");
        },
        _ => panic!("expected a request failure"),
    }
}

#[test]
fn depth_bounds() {
    assert_eq!(MAX_CRAWL_DEPTH, 5);
    assert!(!depth_allowed(0));
    assert!(depth_allowed(1));
    assert!(depth_allowed(5));
    assert!(!depth_allowed(6));
    assert!(!depth_allowed(-3));
}

#[test]
fn bad_depth_is_refused() {
    for d in [0, 6, i64::MIN, i64::MAX] {
        let (_, a) = CreateCrawl::start(request("https://example.com", d, None));
        match a {
            CreateAction::Reply(r) => {
                assert!(matches!(r, CrawlReply::DepthOutOfRange));
                assert_eq!(r.status(), 400);
            },
            _ => panic!("expected a reply"),
        }
    }
}

#[test]
fn targeted_crawl_needs_a_registered_domain() {
    let (_, a) = CreateCrawl::start(request("https://github.io/", 2, Some(true)));
    match a {
        CreateAction::Reply(r) => {
            assert!(matches!(r, CrawlReply::NoRegisteredDomain));
            assert_eq!(r.status(), 400);
        },
        _ => panic!("expected a reply"),
    }
    let (c, a) = CreateCrawl::start(request("https://www.Blog.Example.com/x", 2, Some(true)));
    assert!(matches!(a, CreateAction::FetchPage(_)));
    assert_eq!(c.target_domain(), "EXAMPLE.COM");
    assert_eq!(c.root_name(), "BLOG.EXAMPLE.COM");
    assert_eq!(c.request().depth, 2);
    let (refused, a) = CreateCrawl::start(request("https://example.com", 9, None));
    assert!(matches!(a, CreateAction::Reply(CrawlReply::DepthOutOfRange)));
    assert!(!refused.expects(&CreateEvent::CrawlId("id".into())));
}

#[test]
fn crawl_is_created() {
    let (c, a) = CreateCrawl::start(request(" https://example.com/start ", 2, Some(true)));
    match &a {
        CreateAction::FetchPage(url) => assert_eq!(url, " https://example.com/start "),
        _ => panic!("expected a fetch"),
    }
    let html = r#"<a href="/a">a</a><a href="https://other.org/">o</a><a href="https://x.example.com/">x</a>"#;
    let ev = CreateEvent::PageFetched { html: html.into(), request_time: "3ms".into() };
    assert!(c.expects(&ev));
    let (c, a) = c.step(ev);
    assert!(matches!(a, CreateAction::NewCrawlId));
    let (c, a) = c.step(CreateEvent::CrawlId("id-1".into()));
    match &a {
        CreateAction::ResolveRoot(name) => assert_eq!(name, "EXAMPLE.COM"),
        _ => panic!("expected the root"),
    }
    let root = NetworkStats { ip: "10.0.0.1".into(), domain: "EXAMPLE.COM".into() };
    let (c, a) = c.step(CreateEvent::RootResolved(Ok(root)));
    let names = match a {
        CreateAction::ResolveLinks(names) => names,
        _ => panic!("expected names"),
    };
    assert_eq!(names, vec!["EXAMPLE.COM", "X.EXAMPLE.COM"]);
    let stats = vec![None, Some(NetworkStats { ip: "10.0.0.2".into(), domain: "EXAMPLE.COM".into() })];
    assert!(!c.expects(&CreateEvent::LinksResolved(vec![])));
    let (c, a) = c.step(CreateEvent::LinksResolved(stats));
    let g = match a {
        CreateAction::WriteGraph(g) => g,
        _ => panic!("expected the graph"),
    };
    assert_eq!(g.crawl_id, "id-1");
    assert_eq!(g.root_name, "EXAMPLE.COM");
    assert_eq!(g.root_ip, "10.0.0.1");
    assert_eq!(g.http_type, "HTTPS://");
    assert_eq!(g.depth, 2);
    assert_eq!(g.request_time, "3ms");
    assert!(g.targeted);
    assert_eq!(g.target_domain, "EXAMPLE.COM");
    assert_eq!(
        g.children,
        vec![("X.EXAMPLE.COM".to_string(), "10.0.0.2".to_string(), "EXAMPLE.COM".to_string(), "HTTPS://".to_string())]
    );
    let (_, a) = c.step(CreateEvent::GraphWritten(true));
    match a {
        CreateAction::Reply(r) => {
            assert_eq!(r.status(), 201);
            match r {
                CrawlReply::Created { crawl_id } => assert_eq!(crawl_id, "id-1"),
                _ => panic!("expected created"),
            }
        },
        _ => panic!("expected a reply"),
    }
}

#[test]
fn crawl_failures_are_answered() {
    let (c, _) = CreateCrawl::start(request("https://example.com", 1, None));
    let (_, a) = c.step(CreateEvent::PageFailed(CrawlerError::HttpStatus { url: "u".into(), status: 404 }));
    match a {
        CreateAction::Reply(r) => assert_eq!(r.status(), 404),
        _ => panic!("expected a reply"),
    }
    let (c, _) = CreateCrawl::start(request("https://example.com", 1, None));
    let (c, _) = c.step(CreateEvent::PageFetched { html: String::new(), request_time: "1ms".into() });
    let (c, _) = c.step(CreateEvent::CrawlId("id".into()));
    let (_, a) = c.step(CreateEvent::RootResolved(Err(CrawlerError::DnsResolution { name: "n".into(), message: "m".into() })));
    match a {
        CreateAction::Reply(r) => assert_eq!(r.status(), 502),
        _ => panic!("expected a reply"),
    }
    let (c, _) = CreateCrawl::start(request("https://example.com", 1, None));
    let (c, _) = c.step(CreateEvent::PageFetched { html: String::new(), request_time: "1ms".into() });
    let (c, _) = c.step(CreateEvent::CrawlId("id".into()));
    let (c, _) = c.step(CreateEvent::RootResolved(Ok(NetworkStats { ip: "i".into(), domain: "d".into() })));
    let (c, _) = c.step(CreateEvent::LinksResolved(vec![]));
    let (_, a) = c.step(CreateEvent::GraphWritten(false));
    match a {
        CreateAction::Reply(r) => {
            assert!(matches!(r, CrawlReply::DatabaseError));
            assert_eq!(r.status(), 500);
        },
        _ => panic!("expected a reply"),
    }
}

#[test]
fn untargeted_links_keep_duplicates() {
    let urls: Vec<String> = vec!["https://a.com/x".into(), "https://www.a.com/y".into(), "not a url".into()];
    let links = crawl_links(&urls, false, &String::new());
    assert_eq!(
        links,
        vec![
            ("A.COM".to_string(), "HTTPS://".to_string()),
            ("A.COM".to_string(), "HTTPS://".to_string()),
            ("NOT A URL".to_string(), "HTTP://".to_string()),
        ]
    );
    let kids = resolved_root_children(&links, &vec![None, Some(NetworkStats { ip: "i".into(), domain: "d".into() }), None]);
    assert_eq!(kids, vec![("A.COM".to_string(), "i".to_string(), "d".to_string(), "HTTPS://".to_string())]);
}

#[test]
fn cancel_replies() {
    assert_eq!(cancel_reply(Some(true)), (200, CancelReply::Cancelled));
    assert_eq!(cancel_reply(Some(false)), (404, CancelReply::NotFound));
    assert_eq!(cancel_reply(None), (500, CancelReply::DatabaseError));
}

#[test]
fn backoff_doubles_to_the_maximum_and_resets() {
    let mut b = Backoff::new(100, 1000);
    assert_eq!(b.current_ms, 100);
    b.on_idle();
    assert_eq!(b.current_ms, 200);
    b.on_idle();
    b.on_idle();
    assert_eq!(b.current_ms, 800);
    b.on_idle();
    assert_eq!(b.current_ms, 1000);
    b.on_idle();
    assert_eq!(b.current_ms, 1000);
    b.on_work();
    assert_eq!(b.current_ms, 100);
    let mut odd = Backoff::new(500, 300);
    odd.on_idle();
    assert_eq!(odd.current_ms, 300);
}

#[test]
fn non_web_url_is_refused_before_any_fetch() {
    for url in ["ftp://example.com", "mailto:a@example.com", "not a url", "file:///etc/hosts", "//example.com"] {
        let (c, a) = CreateCrawl::start(request(url, 2, None));
        match a {
            CreateAction::Reply(r) => {
                assert!(matches!(r, CrawlReply::InvalidUrl), "{url}");
                assert_eq!(r.status(), 400);
            },
            _ => panic!("{url} should be refused"),
        }
        assert!(!c.expects(&CreateEvent::PageFetched { html: String::new(), request_time: "1ms".into() }));
    }
    let (_, a) = CreateCrawl::start(request("ftp://example.com", 0, None));
    assert!(matches!(a, CreateAction::Reply(CrawlReply::DepthOutOfRange)));
    let (_, a) = CreateCrawl::start(request("HTTP://Example.com/x", 1, None));
    assert!(matches!(a, CreateAction::FetchPage(_)));
}
