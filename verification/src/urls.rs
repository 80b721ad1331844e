//! Hosts and request targets in their normal form.

use crate::config::Config;
use crate::text;
use vstd::prelude::*;
use vstd::string::*;

verus! {

/// The parts of a URL that requests are routed by.
pub struct UrlParts {
    pub host: Option<String>,
    pub path: String,
    pub query: Option<String>,
}

/// The texts of a `UrlParts`.
pub struct UrlPartsView {
    pub host: Option<Seq<char>>,
    pub path: Seq<char>,
    pub query: Option<Seq<char>>,
}

impl View for UrlParts {
    type V = UrlPartsView;

    open spec fn view(&self) -> UrlPartsView {
        UrlPartsView {
            host: text::opt_text(self.host),
            path: self.path@,
            query: text::opt_text(self.query),
        }
    }
}

/// Whether `s` starts like an absolute URL of the web.
pub open spec fn has_web_scheme(s: Seq<char>) -> bool {
    "http://"@.is_prefix_of(s) || "https://"@.is_prefix_of(s)
}

/// The parts that `url::Url::parse` finds in a text, where it finds a URL there.
pub uninterp spec fn parsed_url(s: Seq<char>) -> Option<UrlPartsView>;

/// Calls `url::Url::parse`, and reads host, path and query off the URL with
/// `Url::host`, `Url::path` and `Url::query`.
///
/// Trusted: what comes back depends on the text alone. Where the text starts with
/// `http://` or `https://` and is a URL, its path starts with a slash, and path and
/// query, being percent-encoded, hold neither spaces nor control characters below
/// the space.
#[verifier::external_body]
fn parse_url(input: &str) -> (parts: Option<UrlParts>)
    ensures
        opt_parts(parts) == parsed_url(input@),
        parts matches Some(p) ==> has_web_scheme(input@) ==> p.path@.len() > 0 && p.path@[0]
            == '/',
        parts matches Some(p) ==> has_web_scheme(input@) ==> text::is_unspaced(p.path@),
        parts matches Some(UrlParts { query: Some(q), .. }) ==> has_web_scheme(input@)
            ==> text::is_unspaced(q@),
{
    match url::Url::parse(input) {
        Ok(parsed) => Some(UrlParts {
            host: parsed.host().map(|host| host.to_string()),
            path: parsed.path().to_string(),
            query: parsed.query().map(|query| query.to_string()),
        }),
        Err(_) => None,
    }
}

/// The view of an optional `UrlParts`.
pub open spec fn opt_parts(parts: Option<UrlParts>) -> Option<UrlPartsView> {
    match parts {
        Some(p) => Some(p@),
        None => None,
    }
}

/// The host of a URL, where there is a URL and it has one.
pub open spec fn url_host(parsed: Option<UrlPartsView>) -> Option<Seq<char>> {
    match parsed {
        Some(parts) => parts.host,
        None => None,
    }
}

/// The normal form of a host, given as in a `Host` header: the host of the URL that it
/// makes behind `http://`.
pub open spec fn normal_host(host: Seq<char>) -> Option<Seq<char>> {
    url_host(parsed_url("http://"@ + host))
}

/// Reads the host off what was found in the text of a URL.
pub fn host_of_url(parsed: Option<UrlParts>) -> (host: Option<String>)
    ensures
        text::opt_text(host) == url_host(opt_parts(parsed)),
{
    match parsed {
        Some(parts) => parts.host,
        None => None,
    }
}

/// Brings a host, given as in a `Host` header, into its normal form.
pub fn normalize_host(host: &str) -> (normal: Option<String>)
    ensures
        text::opt_text(normal) == normal_host(host@),
{
    let url = String::from_str("http://").concat(host);
    host_of_url(parse_url(url.as_str()))
}

/// Whether requests may be addressed to `host`.
pub fn is_allowed_host(config: &Config, host: &str) -> (allowed: bool)
    ensures
        allowed == config@.allowed_hosts.contains(host@),
{
    text::list_contains(&config.allowed_hosts, host)
}

/// The request target that path and query of a URL make.
pub open spec fn origin_form(parts: UrlPartsView) -> Seq<char> {
    match parts.query {
        Some(query) => parts.path + "?"@ + query,
        None => parts.path,
    }
}

/// The request target that is left of `target`, given what was found in it as a URL:
/// path and query, or all of it where it is no URL.
pub open spec fn url_target(target: Seq<char>, parsed: Option<UrlPartsView>) -> Seq<char> {
    match parsed {
        Some(parts) => origin_form(parts),
        None => target,
    }
}

/// The normal form of a request target. A target that is an absolute URL of the web is
/// cut down to its path and query. Any other stays as it is.
pub open spec fn normal_target(target: Seq<char>) -> Seq<char> {
    if has_web_scheme(target) {
        url_target(target, parsed_url(target))
    } else {
        target
    }
}

/// Cuts an absolute URL down to its path and query.
pub fn target_of_url(target: &str, parsed: Option<UrlParts>) -> (cut: String)
    ensures
        cut@ == url_target(target@, opt_parts(parsed)),
{
    match parsed {
        Some(parts) => {
            let mut normalized: String = parts.path;
            if let Some(query) = parts.query {
                normalized.append("?");
                normalized.append(query.as_str());
            }
            normalized
        },
        None => target.to_owned(),
    }
}

/// Brings a request target into its normal form. The normal form of a normal form is
/// itself, and a target without spaces and control characters below the space gets none.
pub fn normalize_path(path: &str) -> (normal: String)
    ensures
        normal@ == normal_target(path@),
        normal_target(normal@) == normal@,
        text::is_unspaced(path@) ==> text::is_unspaced(normal@),
{
    proof {
        reveal_strlit("http://");
        reveal_strlit("https://");
        reveal_strlit("?");
    }
    if text::starts_with(path, "http://") || text::starts_with(path, "https://") {
        let parsed = parse_url(path);
        assert(parsed is Some ==> url_target(path@, opt_parts(parsed))[0] == '/');
        assert("http://"@[0] == 'h');
        assert("https://"@[0] == 'h');
        target_of_url(path, parsed)
    } else {
        path.to_owned()
    }
}

/// A target that starts with a slash is in normal form.
pub proof fn law_paths_are_normal(path: Seq<char>)
    requires
        path.len() > 0,
        path[0] == '/',
    ensures
        normal_target(path) == path,
{
    reveal_strlit("http://");
    reveal_strlit("https://");
    if "http://"@.is_prefix_of(path) {
        assert("http://"@[0] == path[0]);
    }
    if "https://"@.is_prefix_of(path) {
        assert("https://"@[0] == path[0]);
    }
}

/// Whether a target is routed and handed on as `normal`. An absolute URL, behind `http://`
/// or `https://`, stands for its path and, behind a question mark, its query. Everything
/// else stands for itself.
pub open spec fn stands_for(target: Seq<char>, normal: Seq<char>) -> bool {
    if (target.len() >= 7 && target.take(7) == "http://"@) || (target.len() >= 8 && target.take(8)
        == "https://"@) {
        match parsed_url(target) {
            Some(UrlPartsView { path, query: Some(query), .. }) => normal == path + seq!['?']
                + query,
            Some(UrlPartsView { path, query: None, .. }) => normal == path,
            None => normal == target,
        }
    } else {
        normal == target
    }
}

/// The normal form of a target is what it stands for.
pub proof fn law_targets_stand_for_their_normal_form(target: Seq<char>, normal: Seq<char>)
    ensures
        stands_for(target, normal) <==> normal_target(target) == normal,
{
    reveal_strlit("http://");
    reveal_strlit("https://");
    reveal_strlit("?");
    assert("?"@ =~= seq!['?']);
    assert(target.len() >= 7 ==> target.take(7) =~= target.subrange(0, 7));
    assert(target.len() >= 8 ==> target.take(8) =~= target.subrange(0, 8));
}

/// The normal form of a host is the host of the URL that it makes, where it makes one.
pub proof fn law_hosts_are_hosts_of_urls(host: Seq<char>)
    ensures
        match parsed_url("http://"@ + host) {
            Some(parts) => normal_host(host) == parts.host,
            None => normal_host(host) is None,
        },
{
}

/// A URL gives its own host, and its path with its query behind a question mark; what is no
/// URL gives no host, and stays as it is.
pub proof fn law_urls_give_their_parts(target: Seq<char>, parts: UrlPartsView)
    ensures
        url_host(Some(parts)) == parts.host,
        url_host(None) is None,
        url_target(target, None) == target,
        parts.query is None ==> url_target(target, Some(parts)) == parts.path,
        parts.query matches Some(query) ==> url_target(target, Some(parts)) == parts.path
            + seq!['?'] + query,
{
    reveal_strlit("?");
    assert("?"@ =~= seq!['?']);
}

/// The view of the parts of a URL says all that they say.
pub proof fn law_urls_are_seen_whole(parts: UrlParts)
    ensures
        opt_parts(Some(parts)) == Some(parts@),
        opt_parts(None) is None,
        parts@.path == parts.path@,
        parts@.host is Some <==> parts.host is Some,
        parts.host is Some ==> parts@.host == Some(parts.host->0@),
        parts@.query is Some <==> parts.query is Some,
        parts.query is Some ==> parts@.query == Some(parts.query->0@),
{
}

} // verus!
