use webcrawler::crawler::{extract_urls, present_values, web_links_of};
use webcrawler::url_normalize::{
    domain_from_bytes, host_part, is_same_registered_domain, name_of_text, name_of_url,
    normalize_url, registered_domain,
};

#[test]
fn protocol_is_always_http_or_https() {
    for url in ["ftp://files.example.com/x", "HTTPS://WWW.A.COM", "", "   ", "mailto:a@b.c", "https://x.org"] {
        let (_, proto) = normalize_url(url);
        assert!(proto == "HTTPS://" || proto == "HTTP://", "{url} gave {proto}");
    }
    assert_eq!(normalize_url("ftp://files.example.com/x").1, "HTTP://");
    assert_eq!(normalize_url("HTTPS://WWW.A.COM").1, "HTTPS://");
}

#[test]
fn name_never_keeps_path_query_or_fragment() {
    for url in [
        "https://example.com/a/b?q=1#f",
        "not a url/with/path?x#y",
        "https://www.example.com:8080/p?q#r",
        "%%%/x",
        "http://[::1]:8080/x",
    ] {
        let (name, _) = normalize_url(url);
        assert!(!name.contains('/') && !name.contains('?') && !name.contains('#'), "{url} gave {name}");
    }
    assert_eq!(normalize_url("not a url/with/path?x#y").0, "NOT A URL");
}

#[test]
fn names_never_hold_ascii_lowercase() {
    for url in ["ftp://\u{e9}t\u{e9}.example/x", "caf\u{e9} sans url", "https://b\u{fc}cher.example/", "stra\u{df}e.de", "\u{3000}https://example.com\u{3000}"] {
        let (name, _) = normalize_url(url);
        assert!(!name.chars().any(|c| c.is_ascii_lowercase()), "{url} gave {name}");
    }
    assert_eq!(normalize_url("stra\u{df}e.de").0, "XN--STRAE-OQA.DE");
    assert_eq!(normalize_url("stra\u{df}e de/x").0, "STRASSE DE");
    assert_eq!(normalize_url("\u{3000}https://example.com\u{3000}").0, "EXAMPLE.COM");
}

#[test]
fn registered_domain_is_a_label_suffix_of_the_host() {
    for name in ["BLOG.EXAMPLE.CO.UK:80", "A.B.C.EXAMPLE.COM", "EXAMPLE.COM", "X.SOMETHING.UNKNOWNTLD"] {
        let host = name.split(':').next().unwrap();
        if let Some(rd) = registered_domain(name) {
            assert!(host == rd || host.ends_with(&format!(".{rd}")), "{name} gave {rd}");
            assert_eq!(rd, rd.to_ascii_uppercase());
            assert!(rd[..rd.len() - 1].contains('.'), "{name} gave {rd}");
        }
    }
}

#[test]
fn registered_domains_have_two_labels() {
    assert_eq!(registered_domain("X.SOMETHING.UNKNOWNTLD"), Some("SOMETHING.UNKNOWNTLD".to_string()));
    assert_eq!(registered_domain("GITHUB.IO"), None);
    assert_eq!(registered_domain("COM"), None);
    assert_eq!(registered_domain("USER.GITHUB.IO"), Some("USER.GITHUB.IO".to_string()));
}

#[test]
fn ascii_names_are_uppercase() {
    let (name, proto) = normalize_url("  http://ExAmple.com:81/Some/Path  ");
    assert_eq!(name, "EXAMPLE.COM:81");
    assert_eq!(proto, "HTTP://");
    let (name, _) = normalize_url("hTTps://Www.Mixed.Org");
    assert_eq!(name, "MIXED.ORG");
}

#[test]
fn explicit_port_is_kept_default_port_dropped() {
    assert_eq!(normalize_url("https://www.example.com:8443/").0, "EXAMPLE.COM:8443");
    assert_eq!(normalize_url("http://example.com:80/").0, "EXAMPLE.COM");
    assert_eq!(normalize_url("ssh://host.example.com:22").0, "HOST.EXAMPLE.COM:22");
}

#[test]
fn fallback_strips_scheme_and_www() {
    let (name, proto) = name_of_text("HTTPS://WWW.BAD HOST/path");
    assert_eq!(name, "BAD HOST");
    assert_eq!(proto, "HTTPS://");
    let (name, proto) = name_of_text("http://www.x y?z");
    assert_eq!(name, "X Y");
    assert_eq!(proto, "HTTP://");
    let (name, proto) = name_of_text("");
    assert_eq!(name, "");
    assert_eq!(proto, "HTTP://");
}

#[test]
fn name_of_url_builds_host_port_and_protocol() {
    assert_eq!(name_of_url("https", "www.example.com", Some(8080)), ("EXAMPLE.COM:8080".to_string(), "HTTPS://".to_string()));
    assert_eq!(name_of_url("http", "api.example.com", None), ("API.EXAMPLE.COM".to_string(), "HTTP://".to_string()));
    assert_eq!(name_of_url("ftp", "www.www.example.com", None), ("WWW.EXAMPLE.COM".to_string(), "HTTP://".to_string()));
    assert_eq!(name_of_url("https", "www", Some(1)), ("WWW:1".to_string(), "HTTPS://".to_string()));
}

#[test]
fn trims_surrounding_white_space() {
    assert_eq!(normalize_url("\t https://www.example.com \n").0, "EXAMPLE.COM");
}

#[test]
fn port_is_stripped_before_lookup() {
    assert_eq!(registered_domain("SHOP.EXAMPLE.CO.UK:8443"), registered_domain("SHOP.EXAMPLE.CO.UK"));
    assert_eq!(registered_domain("A.B.EXAMPLE.ORG:1"), Some("EXAMPLE.ORG".to_string()));
    assert_eq!(host_part("EXAMPLE.COM:8080:9"), "EXAMPLE.COM");
    assert_eq!(host_part("EXAMPLE.COM"), "EXAMPLE.COM");
}

#[test]
fn registered_domain_is_uppercase_and_lowercase_lookup() {
    assert_eq!(registered_domain("blog.example.com"), Some("EXAMPLE.COM".to_string()));
    assert_eq!(registered_domain(""), None);
}

#[test]
fn domain_from_bytes_decodes_and_uppercases() {
    assert_eq!(domain_from_bytes(Some(b"example.co.uk".to_vec())), Some("EXAMPLE.CO.UK".to_string()));
    assert_eq!(domain_from_bytes(Some(vec![0xff, 0xfe])), None);
    assert_eq!(domain_from_bytes(None), None);
}

#[test]
fn same_registered_domain_iff_equal_domains() {
    let names = ["BLOG.EXAMPLE.COM", "EXAMPLE.COM:99", "GOOGLE.COM", "COM", "GITHUB.IO", "A.GITHUB.IO"];
    let targets = ["EXAMPLE.COM", "GOOGLE.COM", "A.GITHUB.IO", ""];
    for n in names {
        for t in targets {
            let expected = registered_domain(n).as_deref() == Some(t);
            assert_eq!(is_same_registered_domain(n, t), expected, "{n} vs {t}");
        }
    }
    assert!(!is_same_registered_domain("EXAMPLE.COM", "example.com"));
}

#[test]
fn web_links_keep_http_and_https_only() {
    let joined = vec![
        Some(("https".to_string(), "https://a.com/".to_string())),
        None,
        Some(("mailto".to_string(), "mailto:x@y.z".to_string())),
        Some(("http".to_string(), "http://b.org/".to_string())),
        Some(("HTTP".to_string(), "weird".to_string())),
    ];
    assert_eq!(web_links_of(&joined), vec!["https://a.com/", "http://b.org/"]);
}

#[test]
fn extract_keeps_document_order_and_duplicates() {
    let html = r#"<a href="/b">b</a><a name="x">no</a><a href="/a">a</a><a href="/b">b</a>"#;
    assert_eq!(
        extract_urls(html, "http://site.test/dir/page"),
        vec!["http://site.test/b", "http://site.test/a", "http://site.test/b"]
    );
}

#[test]
fn normalized_name_feeds_registered_domain() {
    let (name, _) = normalize_url("https://shop.example.co.uk:8443/cart");
    assert_eq!(name, "SHOP.EXAMPLE.CO.UK:8443");
    assert_eq!(registered_domain(&name), Some("EXAMPLE.CO.UK".to_string()));
}

#[test]
fn present_values_drop_missing_attributes() {
    let values = vec![Some("/a".to_string()), None, Some("".to_string()), None, Some("b".to_string())];
    assert_eq!(present_values(&values), vec!["/a".to_string(), "".to_string(), "b".to_string()]);
    assert!(present_values(&vec![None, None]).is_empty());
    assert!(present_values(&vec![]).is_empty());
}

#[test]
fn anchors_without_href_are_skipped() {
    let html = r#"<a name="top">t</a><a href="/x">x</a><a>y</a>"#;
    assert_eq!(extract_urls(html, "https://example.com/"), vec!["https://example.com/x".to_string()]);
}
