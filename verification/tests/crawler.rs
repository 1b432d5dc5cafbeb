use webcrawler::crawler::extract_urls;


const BASE: &str = "https://example.com/page";

#[test]
fn test_extract_urls_basic() {
    let html = r#"<a href="https://google.com">link</a> <a href="http://example.org">other</a>"#;
    let urls = extract_urls(html, BASE);
    assert_eq!(
        urls,
        vec!["https://google.com/", "http://example.org/"]
    );
}

#[test]
fn test_extract_urls_preserves_paths() {
    let html = r#"<a href="https://example.com/path/to/page">link</a>"#;
    let urls = extract_urls(html, BASE);
    assert_eq!(urls, vec!["https://example.com/path/to/page"]);
}

#[test]
fn test_extract_urls_empty() {
    assert!(extract_urls("no urls here", BASE).is_empty());
}

#[test]
fn test_extract_urls_no_anchor_tags() {
    let html = "<p>https://example.com</p>";
    assert!(extract_urls(html, BASE).is_empty());
}

#[test]
fn test_extract_urls_multiple() {
    let html = r#"<a href="https://a.com">A</a> <a href="https://b.com">B</a> <a href="http://c.org">C</a>"#;
    let urls = extract_urls(html, BASE);
    assert_eq!(
        urls,
        vec!["https://a.com/", "https://b.com/", "http://c.org/"]
    );
}

#[test]
fn test_extract_urls_with_hyphens_and_dots() {
    let html = r#"<a href="https://my-site.co.uk">1</a> <a href="http://sub.example-domain.com">2</a>"#;
    let urls = extract_urls(html, BASE);
    assert_eq!(
        urls,
        vec!["https://my-site.co.uk/", "http://sub.example-domain.com/"]
    );
}

#[test]
fn test_extract_urls_with_ports() {
    let html = r#"<a href="https://example.com:8080/path">1</a> <a href="http://localhost:3000">2</a>"#;
    let urls = extract_urls(html, BASE);
    assert_eq!(
        urls,
        vec!["https://example.com:8080/path", "http://localhost:3000/"]
    );
}

#[test]
fn test_extract_urls_relative_path() {
    let html = r#"<a href="/about">About</a>"#;
    let urls = extract_urls(html, "https://example.com/index.html");
    assert_eq!(urls, vec!["https://example.com/about"]);
}

#[test]
fn test_extract_urls_relative_sibling() {
    let html = r#"<a href="contact.html">Contact</a>"#;
    let urls = extract_urls(html, "https://example.com/pages/index.html");
    assert_eq!(urls, vec!["https://example.com/pages/contact.html"]);
}

#[test]
fn test_extract_urls_with_query_and_fragment() {
    let html = r#"<a href="https://example.com/search?q=rust#results">Search</a>"#;
    let urls = extract_urls(html, BASE);
    assert_eq!(urls, vec!["https://example.com/search?q=rust#results"]);
}

#[test]
fn test_extract_urls_skips_non_http() {
    let html = r#"<a href="mailto:user@example.com">Email</a> <a href="ftp://files.example.com">FTP</a> <a href="https://example.com">Web</a>"#;
    let urls = extract_urls(html, BASE);
    assert_eq!(urls, vec!["https://example.com/"]);
}

#[test]
fn test_extract_urls_skips_javascript() {
    let html = r#"<a href="javascript:void(0)">Click</a> <a href="https://real.com">Real</a>"#;
    let urls = extract_urls(html, BASE);
    assert_eq!(urls, vec!["https://real.com/"]);
}

#[test]
fn test_extract_urls_invalid_base() {
    let html = r#"<a href="/about">About</a>"#;
    assert!(extract_urls(html, "not-a-url").is_empty());
}

#[test]
fn test_extract_urls_protocol_relative() {
    let html = r#"<a href="//cdn.example.com/lib.js">CDN</a>"#;
    let urls = extract_urls(html, "https://example.com/page");
    assert_eq!(urls, vec!["https://cdn.example.com/lib.js"]);
}
