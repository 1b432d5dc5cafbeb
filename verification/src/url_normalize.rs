//! Normalizing URLs to host names and finding their registered domain.
use vstd::prelude::*;
use vstd::utf8::{decode_utf8, encode_utf8, is_ascii_chars, valid_utf8};

use crate::text::{
    ascii_lower, ascii_upper, avoids, before_any, chars_eq, chars_of, decimal,
    has_no_ascii_lower, has_prefix, is_ascii_lower, lemma_before_any_avoids,
    lemma_decimal_digits, push_char, push_chars, push_decimal, skip_chars, starts_with,
    string_of, strip_prefix_chars, strip_prefix_or_keep, take_before_any, to_lowercase,
    to_uppercase, trim_chars, trimmed, unicode_lowercase, unicode_uppercase,
};

verus! {

broadcast use vstd::seq_lib::group_seq_properties;

// ---------------------------------------------------------------------
// The outside calls
// ---------------------------------------------------------------------

/// Named: what `url::Url::parse` makes of `input`, as far as this library
/// reads it: `None` when no absolute URL parses, else the scheme
/// (`Url::scheme`), the host (`Url::host_str`) and the explicit port
/// (`Url::port`, `None` for a scheme's default port).
pub uninterp spec fn url_parts(input: Seq<char>) -> Option<(Seq<char>, Option<Seq<char>>, Option<u16>)>;

/// Named: the registrable domain (eTLD+1) that `psl::List.domain` finds in
/// the lowercase domain name `name`, as bytes, or `None`.
pub uninterp spec fn psl_domain(name: Seq<u8>) -> Option<Seq<u8>>;

/// A parsed URL, reduced to the parts the normalizer reads.
pub(crate) struct ParsedUrl {
    pub(crate) scheme: String,
    pub(crate) host: Option<String>,
    pub(crate) port: Option<u16>,
}

pub(crate) open spec fn host_view(host: Option<String>) -> Option<Seq<char>> {
    match host {
        Some(h) => Some(h@),
        None => None,
    }
}

/// The characters that end the host part of a URL.
pub open spec fn url_delimiters() -> Seq<char> {
    seq!['/', '?', '#']
}

/// Calls `url::Url::parse` and reads `scheme`, `host_str` and `port` of the
/// result. The result is named by `url_parts`. Stated besides, from the
/// crate's source and documentation: a host is ASCII (non-ASCII domains are
/// punycode- or percent-encoded) and holds none of `/`, `?`, `#` (they end
/// the authority, and their decoded forms are refused by the host parser).
#[verifier::external_body]
pub(crate) fn parse_url(input: &str) -> (res: Option<ParsedUrl>)
    ensures
        res is None <==> url_parts(input@) is None,
        res matches Some(p) ==> url_parts(input@) == Some((p.scheme@, host_view(p.host), p.port)),
        res matches Some(p) ==> (p.host matches Some(h) ==> is_ascii_chars(h@) && avoids(
            h@,
            url_delimiters(),
        )),
{
    match url::Url::parse(input) {
        Ok(u) => Some(
            ParsedUrl {
                scheme: u.scheme().to_string(),
                host: u.host_str().map(|h| h.to_string()),
                port: u.port(),
            },
        ),
        Err(_) => None,
    }
}

/// Calls `psl::List.domain` on `name` and copies the bytes of the domain it
/// finds. The result is named by `psl_domain`. Stated besides, from
/// `psl_types::List::domain`: it is cut from the end of `name`
/// (`name.get(offset..)`), and it starts at a label: either it is all of
/// `name`, or the byte before it is the `.` that ends the subdomain
/// (`subdomain.rsplitn(2, '.')`). And it is that label, the byte before the
/// public suffix and the suffix (`root_label.len() + 1 + suffix_len`, with a
/// suffix of at least one byte); `psl`'s lookup measures the suffix in whole
/// labels (`acc + 1 + label.len()`), so that byte is a `.`: the domain holds a
/// `.` before its last byte.
#[verifier::external_body]
fn registrable_domain(name: &[u8]) -> (res: Option<Vec<u8>>)
    ensures
        res is None <==> psl_domain(name@) is None,
        res matches Some(d) ==> psl_domain(name@) == Some(d@),
        res matches Some(d) ==> d@.len() <= name@.len() && d@ == name@.skip(
            name@.len() - d@.len(),
        ),
        res matches Some(d) ==> d@.len() == name@.len() || name@[name@.len() - d@.len() - 1] == 46u8,
        res matches Some(d) ==> exists|k: int| 0 <= k < d@.len() - 1 && #[trigger] d@[k] == 46u8,
{
    psl::Psl::domain(&psl::List, name).map(|d| d.as_bytes().to_vec())
}

/// Calls `std::str::from_utf8`: `Some` exactly when the bytes are valid
/// UTF-8, holding the characters they encode.
#[verifier::external_body]
fn utf8_to_string(bytes: &[u8]) -> (res: Option<String>)
    ensures
        res is Some <==> valid_utf8(bytes@),
        res matches Some(s) ==> s@ == decode_utf8(bytes@),
{
    match std::str::from_utf8(bytes) {
        Ok(s) => Some(s.to_string()),
        Err(_) => None,
    }
}

// ---------------------------------------------------------------------
// Specification
// ---------------------------------------------------------------------

/// The parts of a parse of `input` that has a host: scheme, host, port.
pub open spec fn with_host(
    parts: Option<(Seq<char>, Option<Seq<char>>, Option<u16>)>,
) -> Option<(Seq<char>, Seq<char>, Option<u16>)> {
    match parts {
        Some((scheme, Some(host), port)) => Some((scheme, host, port)),
        _ => None,
    }
}

/// The URL found in the trimmed input `t`: `t` itself when it parses with a
/// host, else `t` read with the default scheme `http://` (after dropping a
/// leading `//` of a scheme-relative URL).
pub open spec fn located_url(t: Seq<char>) -> Option<(Seq<char>, Seq<char>, Option<u16>)> {
    match with_host(url_parts(t)) {
        Some(found) => Some(found),
        None => with_host(url_parts("http://"@ + strip_prefix_or_keep(t, "//"@))),
    }
}

/// The protocol that a scheme is reported as.
pub open spec fn protocol_of(scheme: Seq<char>) -> Seq<char> {
    if scheme == "https"@ {
        "HTTPS://"@
    } else {
        "HTTP://"@
    }
}

/// The uppercased host, with `:port` where the URL names a non-default port.
pub open spec fn host_with_port(host: Seq<char>, port: Option<u16>) -> Seq<char> {
    match port {
        Some(p) => unicode_uppercase(host) + seq![':'] + decimal(p as nat),
        None => unicode_uppercase(host),
    }
}

/// The best-effort reading of an input that is no URL: uppercase it, take
/// off `HTTPS://` or `HTTP://`, keep what comes before the first `/`, `?`
/// or `#`, and drop a leading `WWW.`. Returns (name, protocol).
pub open spec fn fallback_normalized(t: Seq<char>) -> (Seq<char>, Seq<char>) {
    let upper = unicode_uppercase(t);
    let (rest, proto) = if starts_with(upper, "HTTPS://"@) {
        (upper.skip("HTTPS://"@.len() as int), "HTTPS://"@)
    } else if starts_with(upper, "HTTP://"@) {
        (upper.skip("HTTP://"@.len() as int), "HTTP://"@)
    } else {
        (upper, "HTTP://"@)
    };
    (strip_prefix_or_keep(before_any(rest, url_delimiters()), "WWW."@), proto)
}

/// What `normalize_url` returns for `url`: (normalized name, protocol).
pub open spec fn normalized_url(url: Seq<char>) -> (Seq<char>, Seq<char>) {
    let t = trimmed(url);
    match located_url(t) {
        Some((scheme, host, port)) => (
            strip_prefix_or_keep(host_with_port(host, port), "WWW."@),
            protocol_of(scheme),
        ),
        None => fallback_normalized(t),
    }
}

/// The host part of a normalized name: what precedes the first `:`.
pub open spec fn host_of_name(name: Seq<char>) -> Seq<char> {
    before_any(name, seq![':'])
}

/// The uppercase text of the domain bytes the public suffix list found:
/// `None` when it found none or the bytes are no UTF-8.
pub open spec fn domain_text(found: Option<Seq<u8>>) -> Option<Seq<char>> {
    match found {
        Some(bytes) => if valid_utf8(bytes) {
            Some(unicode_uppercase(decode_utf8(bytes)))
        } else {
            None
        },
        None => None,
    }
}

/// What `registered_domain` returns for a normalized name: the uppercase
/// eTLD+1 of its host, looked up in lowercase, or `None`.
pub open spec fn registered_domain_of(name: Seq<char>) -> Option<Seq<char>> {
    domain_text(psl_domain(encode_utf8(unicode_lowercase(host_of_name(name)))))
}

/// Whether a normalized name lies in the registered domain `target`.
pub open spec fn in_registered_domain(name: Seq<char>, target: Seq<char>) -> bool {
    registered_domain_of(name) == Some(target)
}

// ---------------------------------------------------------------------
// Executable functions
// ---------------------------------------------------------------------

/// A located URL: scheme, host and explicit port.
struct Located {
    scheme: String,
    host: String,
    port: Option<u16>,
}

spec fn located_view(l: Option<Located>) -> Option<(Seq<char>, Seq<char>, Option<u16>)> {
    match l {
        Some(p) => Some((p.scheme@, p.host@, p.port)),
        None => None,
    }
}

/// Parses `s` and keeps the result only when it has a host.
fn parse_with_host(s: &str) -> (res: Option<Located>)
    ensures
        located_view(res) == with_host(url_parts(s@)),
        res matches Some(l) ==> is_ascii_chars(l.host@) && avoids(l.host@, url_delimiters()),
{
    match parse_url(s) {
        Some(p) => match p.host {
            Some(h) => Some(Located { scheme: p.scheme, host: h, port: p.port }),
            None => None,
        },
        None => None,
    }
}

/// Finds the URL in the trimmed input, retrying with `http://` in front.
fn locate_url(t: &str) -> (res: Option<Located>)
    ensures
        located_view(res) == located_url(t@),
        res matches Some(l) ==> is_ascii_chars(l.host@) && avoids(l.host@, url_delimiters()),
{
    match parse_with_host(t) {
        Some(found) => Some(found),
        None => {
            let tv = chars_of(t);
            let slashes = chars_of("//");
            let rest = strip_prefix_chars(&tv, &slashes);
            let mut candidate = "http://".to_owned();
            push_chars(&mut candidate, &rest);
            parse_with_host(candidate.as_str())
        },
    }
}

/// The ASCII uppercase of a sequence avoids what the sequence avoids among
/// characters that are no lowercase letters, and has no lowercase letter.
proof fn lemma_ascii_upper_map(s: Seq<char>, stops: Seq<char>)
    requires
        avoids(s, stops),
        forall|i: int| 0 <= i < stops.len() ==> !is_ascii_lower(#[trigger] stops[i]) && !(
        'A' <= stops[i] && stops[i] <= 'Z'),
    ensures
        avoids(s.map_values(|c: char| ascii_upper(c)), stops),
        has_no_ascii_lower(s.map_values(|c: char| ascii_upper(c))),
{
    let u = s.map_values(|c: char| ascii_upper(c));
    assert forall|i: int| 0 <= i < u.len() implies !stops.contains(#[trigger] u[i]) by {
        assert(u[i] == ascii_upper(s[i]));
        if is_ascii_lower(s[i]) {
            assert('A' <= u[i] && u[i] <= 'Z');
            if stops.contains(u[i]) {
                let k = choose|k: int| 0 <= k < stops.len() && stops[k] == u[i];
                assert(!('A' <= stops[k] && stops[k] <= 'Z'));
            }
        } else {
            assert(!stops.contains(s[i]));
        }
    }
    assert forall|i: int| 0 <= i < u.len() implies !is_ascii_lower(#[trigger] u[i]) by {
        assert(u[i] == ascii_upper(s[i]));
    }
}

/// Dropping a prefix keeps what a sequence avoids and its lack of lowercase.
proof fn lemma_strip_keeps(s: Seq<char>, p: Seq<char>, stops: Seq<char>)
    ensures
        avoids(s, stops) ==> avoids(strip_prefix_or_keep(s, p), stops),
        has_no_ascii_lower(s) ==> has_no_ascii_lower(strip_prefix_or_keep(s, p)),
{
    let r = strip_prefix_or_keep(s, p);
    if starts_with(s, p) {
        assert forall|i: int| 0 <= i < r.len() implies r[i] == s[i + p.len()] by {}
    }
}

/// The normalized name and protocol of a URL that parsed with a host:
/// the uppercased host, `:port` for an explicit port, without a leading
/// `WWW.`; `HTTPS://` for the https scheme, else `HTTP://`.
pub fn name_of_url(scheme: &str, host: &str, port: Option<u16>) -> (res: (String, String))
    ensures
        res.0@ == strip_prefix_or_keep(host_with_port(host@, port), "WWW."@),
        res.1@ == protocol_of(scheme@),
        is_ascii_chars(host@) && avoids(host@, url_delimiters()) ==> avoids(res.0@, url_delimiters()),
        has_no_ascii_lower(res.0@),
{
    let www = chars_of("WWW.");
    let https = chars_of("https");
    let scheme_chars = chars_of(scheme);
    let proto = if chars_eq(&scheme_chars, &https) {
        "HTTPS://".to_owned()
    } else {
        "HTTP://".to_owned()
    };
    let mut full = to_uppercase(host);
    let ghost upper = full@;
    let ghost clean = is_ascii_chars(host@) && avoids(host@, url_delimiters());
    proof {
        if clean {
            lemma_ascii_upper_map(host@, url_delimiters());
        }
    }
    if let Some(p) = port {
        push_char(&mut full, ':');
        push_decimal(&mut full, p);
        proof {
            lemma_decimal_digits(p as nat);
            let d = decimal(p as nat);
            assert forall|i: int| 0 <= i < full@.len() implies !is_ascii_lower(#[trigger] full@[i]) by {
                if i < upper.len() {
                    assert(full@[i] == upper[i]);
                } else if i == upper.len() {
                    assert(full@[i] == ':');
                } else {
                    assert(full@[i] == d[i - upper.len() - 1]);
                }
            }
            if clean {
                assert forall|i: int| 0 <= i < full@.len() implies !url_delimiters().contains(
                    #[trigger] full@[i],
                ) by {
                    if i < upper.len() {
                        assert(full@[i] == upper[i]);
                    } else if i == upper.len() {
                        assert(full@[i] == ':');
                    } else {
                        assert(full@[i] == d[i - upper.len() - 1]);
                    }
                }
            }
        }
    }
    let fv = chars_of(full.as_str());
    let name = strip_prefix_chars(&fv, &www);
    proof {
        lemma_strip_keeps(fv@, www@, url_delimiters());
        assert(full@ == host_with_port(host@, port));
    }
    (string_of(&name), proto)
}

/// The best-effort name and protocol of a text that is no URL: uppercase
/// it, take off `HTTPS://` or `HTTP://`, keep what comes before the first
/// `/`, `?` or `#`, and drop a leading `WWW.`.
pub fn name_of_text(text: &str) -> (res: (String, String))
    ensures
        res.0@ == fallback_normalized(text@).0,
        res.1@ == fallback_normalized(text@).1,
        avoids(res.0@, url_delimiters()),
        has_no_ascii_lower(res.0@),
{
    let www = chars_of("WWW.");
    let stops: Vec<char> = vec!['/', '?', '#'];
    assert(stops@ == url_delimiters());
    let upper = to_uppercase(text);
    let uv = chars_of(upper.as_str());
    let https = chars_of("HTTPS://");
    let http = chars_of("HTTP://");
    let (rest, proto) = if has_prefix(&uv, &https) {
        (skip_chars(&uv, https.len()), "HTTPS://".to_owned())
    } else if has_prefix(&uv, &http) {
        (skip_chars(&uv, http.len()), "HTTP://".to_owned())
    } else {
        (uv, "HTTP://".to_owned())
    };
    let host = take_before_any(&rest, &stops);
    let name = strip_prefix_chars(&host, &www);
    proof {
        lemma_before_any_avoids(rest@, url_delimiters());
        lemma_strip_keeps(host@, www@, url_delimiters());
        assert(has_no_ascii_lower(rest@));
        assert forall|i: int| 0 <= i < host@.len() implies !is_ascii_lower(#[trigger] host@[i]) by {
            assert(host@[i] == rest@[i]);
        }
    }
    (string_of(&name), proto)
}

/// Normalizes a URL to its uppercase host, with the protocol returned
/// separately: (normalized name, protocol).
///
/// The path, query and fragment are discarded; an explicit non-default port
/// is kept as `:port`; a leading `WWW.` is dropped. Inputs that are not
/// absolute URLs are read with `http://` in front, and inputs that are no
/// URL at all are cut down by prefix stripping.
pub fn normalize_url(url: &str) -> (res: (String, String))
    ensures
        res.0@ == normalized_url(url@).0,
        res.1@ == normalized_url(url@).1,
        res.1@ == "HTTPS://"@ || res.1@ == "HTTP://"@,
        avoids(res.0@, url_delimiters()),
        has_no_ascii_lower(res.0@),
{
    let chars = chars_of(url);
    let kept = trim_chars(&chars);
    let text = string_of(&kept);
    match locate_url(text.as_str()) {
        Some(found) => name_of_url(found.scheme.as_str(), found.host.as_str(), found.port),
        None => name_of_text(text.as_str()),
    }
}

/// The host part of a normalized name: what precedes the first `:`.
pub fn host_part(name: &str) -> (host: String)
    ensures
        host@ == host_of_name(name@),
{
    let nv = chars_of(name);
    let colon: Vec<char> = vec![':'];
    assert(colon@ == seq![':']);
    let host = take_before_any(&nv, &colon);
    string_of(&host)
}

/// The uppercase registered domain from the bytes the public suffix list
/// found, if they are UTF-8.
pub fn domain_from_bytes(found: Option<Vec<u8>>) -> (res: Option<String>)
    ensures
        res is None <==> domain_text(bytes_view(found)) is None,
        res matches Some(d) ==> domain_text(bytes_view(found)) == Some(d@),
        res matches Some(d) ==> has_no_ascii_lower(d@),
        res matches Some(d) ==> (is_ascii_chars(decode_utf8(bytes_view(found)->Some_0)) ==> d@
            == decode_utf8(bytes_view(found)->Some_0).map_values(|c: char| ascii_upper(c))),
{
    match found {
        Some(bytes) => match utf8_to_string(bytes.as_slice()) {
            Some(text) => Some(to_uppercase(text.as_str())),
            None => None,
        },
        None => None,
    }
}

/// The bytes of an optional byte vector.
pub open spec fn bytes_view(found: Option<Vec<u8>>) -> Option<Seq<u8>> {
    match found {
        Some(v) => Some(v@),
        None => None,
    }
}

/// Extracts the registered domain (eTLD+1) from a normalized name.
///
/// The name should be uppercase with no protocol and no `WWW.`. A port
/// (`:` and what follows) is stripped before the lookup, which is made in
/// lowercase. Returns the uppercase eTLD+1, or `None` for a bare public
/// suffix or a name the list does not cover.
pub fn registered_domain(normalized_name: &str) -> (res: Option<String>)
    ensures
        res is None <==> registered_domain_of(normalized_name@) is None,
        res matches Some(d) ==> registered_domain_of(normalized_name@) == Some(d@),
        res matches Some(d) ==> has_no_ascii_lower(d@),
        // For an ASCII host, the registered domain is a trailing run of
        // whole labels of the uppercased host.
        res matches Some(d) ==> (is_ascii_chars(host_of_name(normalized_name@)) ==> is_label_suffix(
            d@,
            host_of_name(normalized_name@).map_values(|c: char| ascii_upper(c)),
        )),
        // The registered domain of an ASCII host has at least two labels.
        res matches Some(d) ==> (is_ascii_chars(host_of_name(normalized_name@)) ==> has_inner_dot(d@)),
{
    let host = host_part(normalized_name);
    let lower = to_lowercase(host.as_str());
    let bytes = lower.as_str().as_bytes();
    let found = registrable_domain(bytes);
    assert(bytes_view(found) == psl_domain(encode_utf8(unicode_lowercase(host_of_name(normalized_name@)))));
    let ghost found_view = bytes_view(found);
    let res = domain_from_bytes(found);
    proof {
        if res is Some && is_ascii_chars(host@) {
            lemma_ascii_domain_suffix(host@, lower@, bytes@, found_view->Some_0, res->Some_0@);
        }
    }
    res
}

/// `d` is a trailing run of whole `.`-separated labels of `h`: all of `h`,
/// or a suffix that a `.` precedes.
pub open spec fn is_label_suffix(d: Seq<char>, h: Seq<char>) -> bool {
    &&& d.len() <= h.len()
    &&& h.skip(h.len() - d.len()) == d
    &&& (d.len() == h.len() || h[h.len() - d.len() - 1] == '.')
}

/// `d` holds a `.` before its last character: it has at least two labels.
pub open spec fn has_inner_dot(d: Seq<char>) -> bool {
    exists|k: int| 0 <= k < d.len() - 1 && #[trigger] d[k] == '.'
}

/// An ASCII character encodes as its own code.
proof fn lemma_ascii_byte(c: char, b: u8)
    requires
        c <= '\u{7f}',
        c as u8 == b,
    ensures
        b == 46u8 ==> c == '.',
{
    assert(c as u32 <= 127);
}

/// The uppercase of the lowercase of a character is its uppercase.
proof fn lemma_upper_of_lower(c: char)
    ensures
        ascii_upper(ascii_lower(c)) == ascii_upper(c),
        ascii_lower(c) == '.' ==> c == '.',
        c <= '\u{7f}' ==> ascii_lower(c) <= '\u{7f}',
{
}

/// The registered domain of an ASCII host, found as bytes of its lowercase,
/// decoded and uppercased, is a label suffix of the uppercased host.
proof fn lemma_ascii_domain_suffix(
    host: Seq<char>,
    lower: Seq<char>,
    bytes: Seq<u8>,
    found: Seq<u8>,
    d: Seq<char>,
)
    requires
        is_ascii_chars(host),
        lower == host.map_values(|c: char| ascii_lower(c)),
        bytes == encode_utf8(lower),
        found.len() <= bytes.len(),
        found == bytes.skip(bytes.len() - found.len()),
        found.len() == bytes.len() || bytes[bytes.len() - found.len() - 1] == 46u8,
        exists|k: int| 0 <= k < found.len() - 1 && #[trigger] found[k] == 46u8,
        valid_utf8(found),
        d == unicode_uppercase(decode_utf8(found)),
        is_ascii_chars(decode_utf8(found)) ==> d == decode_utf8(found).map_values(
            |c: char| ascii_upper(c),
        ),
    ensures
        is_label_suffix(d, host.map_values(|c: char| ascii_upper(c))),
        has_inner_dot(d),
{
    assert forall|i: int| 0 <= i < lower.len() implies '\0' <= #[trigger] lower[i] <= '\u{7f}' by {
        lemma_upper_of_lower(host[i]);
    }
    assert(is_ascii_chars(lower));
    vstd::utf8::is_ascii_chars_encode_utf8(lower);
    let m = bytes.len() - found.len();
    let tail = lower.skip(m);
    assert(is_ascii_chars(tail));
    vstd::utf8::is_ascii_chars_encode_utf8(tail);
    assert(found =~= encode_utf8(tail)) by {
        assert forall|i: int| 0 <= i < found.len() implies found[i] == encode_utf8(tail)[i] by {
            assert(found[i] == bytes[i + m]);
            assert(tail[i] == lower[i + m]);
        }
    }
    vstd::utf8::encode_utf8_decode_utf8(tail);
    assert(decode_utf8(found) == tail);
    let big = host.map_values(|c: char| ascii_upper(c));
    assert(d =~= big.skip(m)) by {
        assert forall|i: int| 0 <= i < d.len() implies d[i] == big.skip(m)[i] by {
            assert(d[i] == ascii_upper(tail[i]));
            assert(tail[i] == ascii_lower(host[i + m]));
            lemma_upper_of_lower(host[i + m]);
        }
    }
    let k = choose|k: int| 0 <= k < found.len() - 1 && #[trigger] found[k] == 46u8;
    assert(bytes[k + m] == 46u8);
    assert(lower[k + m] as u8 == bytes[k + m]);
    lemma_ascii_byte(lower[k + m], bytes[k + m]);
    assert(tail[k] == '.');
    assert(d[k] == ascii_upper(tail[k]));
    assert(d[k] == '.');
    if m > 0 {
        assert(bytes[m - 1] == 46u8);
        assert(lower[m - 1] as u8 == bytes[m - 1]);
        lemma_ascii_byte(lower[m - 1], bytes[m - 1]);
        lemma_upper_of_lower(host[m - 1]);
        assert(lower[m - 1] == ascii_lower(host[m - 1]));
        assert(host[m - 1] == '.');
        assert(big[m - 1] == ascii_upper(host[m - 1]));
    }
}

/// Checks whether a normalized name belongs to the registered domain
/// `target_domain` (itself an output of `registered_domain`).
pub fn is_same_registered_domain(normalized_name: &str, target_domain: &str) -> (res: bool)
    ensures
        res == in_registered_domain(normalized_name@, target_domain@),
{
    match registered_domain(normalized_name) {
        Some(rd) => {
            let a = chars_of(rd.as_str());
            let b = chars_of(target_domain);
            chars_eq(&a, &b)
        },
        None => false,
    }
}

// ---------------------------------------------------------------------
// Laws
// ---------------------------------------------------------------------

/// Ports are stripped before the lookup: a host followed by `:` and a port
/// has the registered domain of the host alone.
pub proof fn lemma_port_stripped(host: Seq<char>, port: Seq<char>)
    requires
        !host.contains(':'),
    ensures
        registered_domain_of(host + seq![':'] + port) == registered_domain_of(host),
{
    let full = host + seq![':'] + port;
    assert forall|j: int| 0 <= j < host.len() implies !seq![':'].contains(#[trigger] full[j]) by {
        assert(full[j] == host[j]);
        if seq![':'].contains(full[j]) {
            assert(seq![':'][0] == ':');
            assert(full[j] == ':');
            assert(host.contains(host[j]));
        }
    }
    assert(full[host.len() as int] == ':');
    assert(seq![':'].contains(':')) by {
        assert(seq![':'][0] == ':');
    }
    crate::text::lemma_before_any_cut(full, seq![':'], host.len() as int);
    assert forall|j: int| 0 <= j < host.len() implies !seq![':'].contains(#[trigger] host[j]) by {
        if seq![':'].contains(host[j]) {
            assert(seq![':'][0] == ':');
            assert(host.contains(host[j]));
        }
    }
    crate::text::lemma_before_any_cut(host, seq![':'], host.len() as int);
    assert(full.take(host.len() as int) =~= host);
    assert(host.take(host.len() as int) =~= host);
}

/// An explicit non-default port is kept: when the located URL names a
/// port, the normalized name ends with `:` and that port in decimal.
pub proof fn lemma_explicit_port_kept(url: Seq<char>)
    requires
        located_url(trimmed(url)) matches Some((_, _, Some(_))),
    ensures
        ({
            let name = normalized_url(url).0;
            let port = located_url(trimmed(url))->Some_0.2->Some_0;
            let suffix = seq![':'] + decimal(port as nat);
            suffix.len() <= name.len() && name.skip(name.len() - suffix.len()) == suffix
        }),
{
    let (scheme, host, port_opt) = located_url(trimmed(url))->Some_0;
    let port = port_opt->Some_0;
    let upper = unicode_uppercase(host);
    let suffix = seq![':'] + decimal(port as nat);
    let full = host_with_port(host, port_opt);
    assert(full =~= upper + suffix);
    let name = strip_prefix_or_keep(full, "WWW."@);
    assert(name == normalized_url(url).0);
    if starts_with(full, "WWW."@) {
        reveal_strlit("WWW.");
        if upper.len() < 4 {
            assert(full[upper.len() as int] == ':');
            assert(full.take(4)[upper.len() as int] == "WWW."@[upper.len() as int]);
            assert(false);
        }
        assert(name =~= full.skip(4));
        assert(name.skip(name.len() - suffix.len()) =~= suffix);
    } else {
        assert(name.skip(name.len() - suffix.len()) =~= suffix);
    }
}

} // verus!
