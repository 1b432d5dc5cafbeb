//! Pages and the links found in them.
use vstd::prelude::*;

use crate::error::CrawlerError;
use crate::text::{chars_eq, chars_of};
use crate::url_normalize::{parse_url, url_parts};

verus! {

broadcast use vstd::seq_lib::group_seq_properties;

/// A fetched page: its HTML and the time the request took.
pub struct PageData {
    pub html: String,
    pub elapsed: std::time::Duration,
}

/// What resolving a host name gave: its address and the domain it belongs to.
pub struct NetworkStats {
    pub ip: String,
    pub domain: String,
}

/// Named: for each element that matches the CSS selector `selector` in the
/// HTML document `html`, its attribute `attr` (`None` where it has none), as
/// `scraper` parses the document, in the order in which `Html::select`
/// walks the parsed tree; `None` when the selector does not parse. The four calls
/// behind it (selector parse, document parse, select, attribute read) pass
/// only `scraper`'s own opaque values between them, so they are named as one.
pub uninterp spec fn html_attr_values(
    html: Seq<char>,
    selector: Seq<char>,
    attr: Seq<char>,
) -> Option<Seq<Option<Seq<char>>>>;

/// Named: the URL that `url::Url::join` resolves `href` to against the
/// base URL that `url::Url::parse` reads from `base`, as (scheme,
/// serialization); `None` when either fails. The base passes between the
/// two calls as an opaque `Url`, so they are named as one.
pub uninterp spec fn url_join(base: Seq<char>, href: Seq<char>) -> Option<(Seq<char>, Seq<char>)>;

/// The views of a list of strings.
pub open spec fn views(v: Seq<String>) -> Seq<Seq<char>> {
    v.map_values(|s: String| s@)
}

/// The views of a list of optional strings.
pub open spec fn opt_views(v: Seq<Option<String>>) -> Seq<Option<Seq<char>>> {
    v.map_values(
        |o: Option<String>|
            match o {
                Some(t) => Some(t@),
                None => None,
            },
    )
}

/// Calls `scraper::Selector::parse`, `scraper::Html::parse_document` and
/// `Html::select`, and reads the attribute `attr` (`Element::attr`) of each
/// element selected, `None` where it has none. The result is named by
/// `html_attr_values`.
#[verifier::external_body]
fn select_attr_values(html: &str, selector: &str, attr: &str) -> (res: Option<Vec<Option<String>>>)
    ensures
        res is None <==> html_attr_values(html@, selector@, attr@) is None,
        res matches Some(v) ==> html_attr_values(html@, selector@, attr@) == Some(opt_views(v@)),
{
    let selector = match scraper::Selector::parse(selector) {
        Ok(s) => s,
        Err(_) => return None,
    };
    let document = scraper::Html::parse_document(html);
    Some(document.select(&selector).map(|el| el.value().attr(attr).map(|v| v.to_string())).collect())
}

/// The values that are present, in order.
pub open spec fn present(values: Seq<Option<Seq<char>>>) -> Seq<Seq<char>>
    decreases values.len(),
{
    if values.len() == 0 {
        Seq::empty()
    } else {
        let before = present(values.drop_last());
        match values.last() {
            Some(v) => before.push(v),
            None => before,
        }
    }
}

/// The positions of the present entries of `s`, in increasing order.
pub open spec fn some_indices<A>(s: Seq<Option<A>>) -> Seq<int>
    decreases s.len(),
{
    if s.len() == 0 {
        Seq::empty()
    } else {
        let before = some_indices(s.drop_last());
        if s.last() is Some {
            before.push(s.len() - 1)
        } else {
            before
        }
    }
}

/// `idx` lists exactly the positions of the present entries of `s`, each
/// once, in increasing order.
pub open spec fn lists_present_positions<A>(idx: Seq<int>, s: Seq<Option<A>>) -> bool {
    &&& forall|j: int| 0 <= j < idx.len() ==> 0 <= #[trigger] idx[j] < s.len() && s[idx[j]] is Some
    &&& forall|j1: int, j2: int| 0 <= j1 < j2 < idx.len() ==> #[trigger] idx[j1] < #[trigger] idx[j2]
    &&& forall|k: int|
        0 <= k < s.len() && (#[trigger] s[k]) is Some ==> exists|j: int| 0 <= j < idx.len() && idx[j] == k
}

/// `some_indices` lists exactly the positions of the present entries.
pub proof fn lemma_some_indices<A>(s: Seq<Option<A>>)
    ensures
        lists_present_positions(some_indices(s), s),
    decreases s.len(),
{
    if s.len() > 0 {
        let t = s.drop_last();
        lemma_some_indices(t);
        let bi = some_indices(t);
        let idx = some_indices(s);
        assert forall|j: int| 0 <= j < idx.len() implies 0 <= #[trigger] idx[j] < s.len() && s[idx[j]] is Some by {
            if j < bi.len() {
                assert(idx[j] == bi[j]);
                assert(s[bi[j]] == t[bi[j]]);
            }
        }
        assert forall|k: int| 0 <= k < s.len() && (#[trigger] s[k]) is Some implies exists|j: int|
            0 <= j < idx.len() && idx[j] == k by {
            if k < s.len() - 1 {
                assert(t[k] == s[k]);
                let j = choose|j: int| 0 <= j < bi.len() && bi[j] == k;
                assert(idx[j] == k);
            } else {
                assert(idx[idx.len() - 1] == k);
            }
        }
    }
}

/// The present values are the entries at the present positions, in
/// order: one value for each `Some`, none for a `None`.
pub proof fn lemma_present_values_are_the_somes(values: Seq<Option<Seq<char>>>)
    ensures
        lists_present_positions(some_indices(values), values),
        present(values).len() == some_indices(values).len(),
        forall|j: int|
            0 <= j < present(values).len() ==> #[trigger] present(values)[j]
                == values[some_indices(values)[j]]->Some_0,
    decreases values.len(),
{
    lemma_some_indices(values);
    if values.len() > 0 {
        let t = values.drop_last();
        lemma_present_values_are_the_somes(t);
        lemma_some_indices(t);
        assert forall|j: int| 0 <= j < present(values).len() implies #[trigger] present(values)[j]
            == values[some_indices(values)[j]]->Some_0 by {
            if j < present(t).len() {
                assert(present(values)[j] == present(t)[j]);
                assert(some_indices(values)[j] == some_indices(t)[j]);
                assert(values[some_indices(t)[j]] == t[some_indices(t)[j]]);
            }
        }
    }
}

/// Keeps the values that are present, in order.
pub fn present_values(values: &Vec<Option<String>>) -> (res: Vec<String>)
    ensures
        views(res@) == present(opt_views(values@)),
{
    let ghost all = opt_views(values@);
    let mut res: Vec<String> = Vec::new();
    let mut i: usize = 0;
    while i < values.len()
        invariant
            i <= values.len(),
            all == opt_views(values@),
            views(res@) == present(all.take(i as int)),
        decreases values.len() - i,
    {
        assert(all.take((i + 1) as int).drop_last() == all.take(i as int));
        assert(all.take((i + 1) as int).last() == all[i as int]);
        let ghost before = res@;
        match &values[i] {
            Some(v) => {
                res.push(v.clone());
                assert(views(res@) == views(before).push(v@));
            },
            None => {},
        }
        i = i + 1;
    }
    assert(all.take(values.len() as int) == all);
    res
}

/// A joined URL: its scheme and its serialization.
struct JoinedUrl {
    scheme: String,
    text: String,
}

/// Calls `url::Url::parse` on `base` and `Url::join` with `href`, and reads
/// the scheme and the serialization of the result. The result is named by
/// `url_join`.
#[verifier::external_body]
fn join_url(base: &str, href: &str) -> (res: Option<JoinedUrl>)
    ensures
        res is None <==> url_join(base@, href@) is None,
        res matches Some(j) ==> url_join(base@, href@) == Some((j.scheme@, j.text@)),
{
    match url::Url::parse(base) {
        Ok(b) => match b.join(href) {
            Ok(u) => Some(JoinedUrl { scheme: u.scheme().to_string(), text: u.to_string() }),
            Err(_) => None,
        },
        Err(_) => None,
    }
}

/// A scheme that the crawler follows.
pub open spec fn is_web_scheme(scheme: Seq<char>) -> bool {
    scheme == "http"@ || scheme == "https"@
}

/// Of resolved links, given as (scheme, serialization) or `None` for a link
/// that did not resolve, the serializations with an http or https scheme,
/// in order.
pub open spec fn web_only(joins: Seq<Option<(Seq<char>, Seq<char>)>>) -> Seq<Seq<char>>
    decreases joins.len(),
{
    if joins.len() == 0 {
        Seq::empty()
    } else {
        let before = web_only(joins.drop_last());
        match joins.last() {
            Some((scheme, text)) => if is_web_scheme(scheme) {
                before.push(text)
            } else {
                before
            },
            None => before,
        }
    }
}

/// The serializations of the links `hrefs` resolved against `base`, keeping
/// those that resolve and have an http or https scheme, in order.
pub open spec fn web_links(base: Seq<char>, hrefs: Seq<Seq<char>>) -> Seq<Seq<char>> {
    web_only(hrefs.map_values(|h: Seq<char>| url_join(base, h)))
}

/// What `extract_urls` returns: nothing when the base is no URL, else the
/// web links of the `href`s of the document's `a[href]` elements.
pub open spec fn extracted_urls(html: Seq<char>, base: Seq<char>) -> Seq<Seq<char>> {
    if url_parts(base) is None {
        Seq::empty()
    } else {
        match html_attr_values(html, "a[href]"@, "href"@) {
            Some(values) => web_links(base, present(values)),
            None => Seq::empty(),
        }
    }
}

/// The serialization of a resolved link when its scheme is http or https.
pub open spec fn web_text(j: Option<(Seq<char>, Seq<char>)>) -> Option<Seq<char>> {
    match j {
        Some((scheme, text)) => if scheme == "http"@ || scheme == "https"@ {
            Some(text)
        } else {
            None
        },
        None => None,
    }
}

/// Of resolved links, exactly those with an http or https scheme are kept,
/// in order, as their serializations: a link that did not resolve, or whose
/// scheme is another (`mailto`, `javascript`, `ftp`, ...), gives nothing.
pub proof fn lemma_only_web_links_are_kept(joins: Seq<Option<(Seq<char>, Seq<char>)>>)
    ensures
        web_only(joins) == present(joins.map_values(|j: Option<(Seq<char>, Seq<char>)>| web_text(j))),
    decreases joins.len(),
{
    let m = joins.map_values(|j: Option<(Seq<char>, Seq<char>)>| web_text(j));
    if joins.len() > 0 {
        let t = joins.drop_last();
        lemma_only_web_links_are_kept(t);
        assert(m.drop_last() =~= t.map_values(|j: Option<(Seq<char>, Seq<char>)>| web_text(j)));
        assert(m.last() == web_text(joins.last()));
    } else {
        assert(m.len() == 0);
    }
}

/// Whether a scheme is http or https.
pub(crate) fn web_scheme(scheme: &str) -> (res: bool)
    ensures
        res == is_web_scheme(scheme@),
{
    let s = chars_of(scheme);
    let http = chars_of("http");
    let https = chars_of("https");
    chars_eq(&s, &http) || chars_eq(&s, &https)
}

/// (scheme, serialization) of resolved links.
pub open spec fn join_views(v: Seq<Option<(String, String)>>) -> Seq<Option<(Seq<char>, Seq<char>)>> {
    v.map_values(
        |j: Option<(String, String)>|
            match j {
                Some((scheme, text)) => Some((scheme@, text@)),
                None => None,
            },
    )
}

/// Keeps, of resolved links, the serializations with an http or https
/// scheme, in order.
pub fn web_links_of(joined: &Vec<Option<(String, String)>>) -> (urls: Vec<String>)
    ensures
        views(urls@) == web_only(join_views(joined@)),
{
    let ghost all = join_views(joined@);
    let mut urls: Vec<String> = Vec::new();
    let mut i: usize = 0;
    while i < joined.len()
        invariant
            i <= joined.len(),
            all == join_views(joined@),
            views(urls@) == web_only(all.take(i as int)),
        decreases joined.len() - i,
    {
        assert(all.take((i + 1) as int).drop_last() == all.take(i as int));
        assert(all.take((i + 1) as int).last() == all[i as int]);
        let ghost before = urls@;
        match &joined[i] {
            Some((scheme, text)) => {
                if web_scheme(scheme.as_str()) {
                    urls.push(text.clone());
                    assert(views(urls@) == views(before).push(text@));
                }
            },
            None => {},
        }
        i = i + 1;
    }
    assert(all.take(joined.len() as int) == all);
    urls
}

/// Extracts URLs from `<a href="...">` tags in HTML content.
/// Resolves relative URLs against the given base URL.
/// Only returns URLs with http or https schemes.
pub fn extract_urls(html: &str, base_url: &str) -> (urls: Vec<String>)
    ensures
        views(urls@) == extracted_urls(html@, base_url@),
        // No link without a base URL to resolve it against.
        url_parts(base_url@) is None ==> urls@.len() == 0,
        // The links are the `href`s of the `<a>` elements that have one,
        // resolved against the base, and nothing else.
        url_parts(base_url@) is Some ==> match html_attr_values(html@, "a[href]"@, "href"@) {
            Some(values) => views(urls@) == web_links(base_url@, present(values)),
            None => urls@.len() == 0,
        },
{
    if parse_url(base_url).is_none() {
        return Vec::new();
    }
    let values = match select_attr_values(html, "a[href]", "href") {
        Some(v) => v,
        None => return Vec::new(),
    };
    let hrefs = present_values(&values);
    let ghost all = views(hrefs@);
    let ghost joins = all.map_values(|h: Seq<char>| url_join(base_url@, h));
    let mut joined: Vec<Option<(String, String)>> = Vec::new();
    let mut i: usize = 0;
    while i < hrefs.len()
        invariant
            i <= hrefs.len(),
            all == views(hrefs@),
            joins == all.map_values(|h: Seq<char>| url_join(base_url@, h)),
            join_views(joined@) == joins.take(i as int),
        decreases hrefs.len() - i,
    {
        let ghost before = join_views(joined@);
        let j = match join_url(base_url, hrefs[i].as_str()) {
            Some(r) => Some((r.scheme, r.text)),
            None => None,
        };
        joined.push(j);
        assert(join_views(joined@) =~= before.push(joins[i as int]));
        i = i + 1;
    }
    assert(joins.take(hrefs.len() as int) =~= joins);
    web_links_of(&joined)
}

/// A reply status counts as success when it is 2xx.
pub open spec fn is_success_status(status: u16) -> bool {
    200 <= status && status < 300
}

/// The error for a reply from `url` with `status`, or `None` when the
/// status is a success.
pub fn status_failure(url: &str, status: u16) -> (res: Option<CrawlerError>)
    ensures
        res is None <==> is_success_status(status),
        res matches Some(e) ==> (e matches CrawlerError::HttpStatus { url: u, status: st } && u@
            == url@ && st == status),
{
    if 200 <= status && status < 300 {
        None
    } else {
        Some(CrawlerError::HttpStatus { url: url.to_owned(), status })
    }
}

/// The error for a request to `url` that failed: a timeout when it timed
/// out, else a request failure with its message.
pub fn request_failure(url: &str, timed_out: bool, message: String) -> (e: CrawlerError)
    ensures
        timed_out ==> (e matches CrawlerError::HttpTimeout { url: u } && u@ == url@),
        !timed_out ==> (e matches CrawlerError::HttpRequest { url: u, message: m } && u@ == url@
            && m == message),
{
    if timed_out {
        CrawlerError::HttpTimeout { url: url.to_owned() }
    } else {
        CrawlerError::HttpRequest { url: url.to_owned(), message }
    }
}

} // verus!
