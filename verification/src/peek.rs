//! The first look at a connection: whom is it for?

use crate::forward;
use crate::forward::MAX_HEADERS;
use crate::http;
use crate::http::RequestHead;
use crate::http::RequestHeadView;
use crate::text;
use crate::urls;
use vstd::prelude::*;
use vstd::string::*;

verus! {

/// How many bytes of a connection are looked at. A request whose `Host` header does not
/// come within them is dropped.
pub const MAX_HEADER_PEEK: usize = 4096;

/// What the first look at a request found.
pub struct PeekedRequest {
    /// The host that it is addressed to, as it gives it.
    pub host: String,
    /// Its target, in normal form.
    pub path: String,
    /// Whom it was forwarded for, as it gives it; empty where it does not say.
    pub forwarded_for: String,
}

/// The texts of a `PeekedRequest`.
pub struct PeekedRequestView {
    pub host: Seq<char>,
    pub path: Seq<char>,
    pub forwarded_for: Seq<char>,
}

impl View for PeekedRequest {
    type V = PeekedRequestView;

    open spec fn view(&self) -> PeekedRequestView {
        PeekedRequestView {
            host: self.host@,
            path: self.path@,
            forwarded_for: self.forwarded_for@,
        }
    }
}

/// What comes of the first look at a connection.
pub enum Peeked {
    /// Nothing to be answered.
    Nothing,
    /// Someone asks whether the server is in good health.
    HealthCheck,
    /// A request.
    Request(PeekedRequest),
}

/// A `Peeked` with the view of its request.
pub enum PeekedView {
    Nothing,
    HealthCheck,
    Request(PeekedRequestView),
}

impl View for Peeked {
    type V = PeekedView;

    open spec fn view(&self) -> PeekedView {
        match self {
            Peeked::Nothing => PeekedView::Nothing,
            Peeked::HealthCheck => PeekedView::HealthCheck,
            Peeked::Request(request) => PeekedView::Request(request@),
        }
    }
}

/// The text, empty where there is none.
pub open spec fn or_empty(t: Option<Seq<char>>) -> Seq<char> {
    match t {
        Some(s) => s,
        None => Seq::empty(),
    }
}

/// What comes of the first look, given what parsing found. The head need not be complete.
pub open spec fn peeked_given(parsed: Option<RequestHeadView>) -> PeekedView {
    match parsed {
        None => PeekedView::Nothing,
        Some(head) => {
            let path = urls::normal_target(forward::target_of(head));
            if path == "/0xDEADBEEF_HEALTH_CHECK"@ {
                PeekedView::HealthCheck
            } else {
                match http::first_text(head.headers, "host"@) {
                    Some(host) => PeekedView::Request(
                        PeekedRequestView {
                            host,
                            path,
                            forwarded_for: or_empty(
                                http::first_text(head.headers, "x-forwarded-for"@),
                            ),
                        },
                    ),
                    None => PeekedView::Nothing,
                }
            }
        },
    }
}

/// The bytes that are looked at.
pub open spec fn window(received: Seq<u8>) -> Seq<u8> {
    received.take(forward::at_most(MAX_HEADER_PEEK, received.len()))
}

/// What comes of the first look at a connection on which these bytes came in.
pub open spec fn peeked(received: Seq<u8>) -> PeekedView {
    if received.len() == 0 {
        PeekedView::Nothing
    } else {
        peeked_given(http::parsed_request(window(received), MAX_HEADERS as nat))
    }
}

/// Takes the first look at a request, given what parsing found in it.
pub fn peek_given(parsed: Option<RequestHead>) -> (result: Peeked)
    ensures
        result@ == peeked_given(http::opt_head(parsed)),
{
    let head = match parsed {
        Some(head) => head,
        None => return Peeked::Nothing,
    };
    let target = match head.path {
        Some(path) => path,
        None => String::new(),
    };
    let path = urls::normalize_path(target.as_str());
    if text::str_eq(path.as_str(), "/0xDEADBEEF_HEALTH_CHECK") {
        return Peeked::HealthCheck;
    }
    let forwarded_for = match http::header_text(head.headers.as_slice(), "x-forwarded-for") {
        Some(value) => value.to_owned(),
        None => String::new(),
    };
    match http::header_text(head.headers.as_slice(), "host") {
        Some(host) => Peeked::Request(
            PeekedRequest { host: host.to_owned(), path, forwarded_for },
        ),
        None => Peeked::Nothing,
    }
}

/// Takes the first look at a connection on which these bytes came in.
pub fn peek_http_request_host(received: &[u8]) -> (result: Peeked)
    ensures
        result@ == peeked(received@),
{
    if received.is_empty() {
        return Peeked::Nothing;
    }
    let available: usize = received.len();
    let n: usize = if MAX_HEADER_PEEK <= available {
        MAX_HEADER_PEEK
    } else {
        available
    };
    let seen = vstd::slice::slice_subrange(received, 0, n);
    assert(seen@ =~= window(received@));
    peek_given(http::parse_request::<MAX_HEADERS>(seen))
}

/// Only the first bytes of a connection count for the first look at it.
pub proof fn law_only_the_window_counts(received: Seq<u8>, more: Seq<u8>)
    requires
        received.len() >= MAX_HEADER_PEEK,
    ensures
        peeked(received + more) == peeked(received),
{
    assert(window(received + more) =~= window(received));
}

/// A health check is recognized whatever headers come with it.
pub proof fn law_health_checks_need_no_headers(head: RequestHeadView)
    requires
        head.path == Some("/0xDEADBEEF_HEALTH_CHECK"@),
    ensures
        peeked_given(Some(head)) is HealthCheck,
{
    reveal_strlit("/0xDEADBEEF_HEALTH_CHECK");
    urls::law_paths_are_normal("/0xDEADBEEF_HEALTH_CHECK"@);
}

/// All that came in counts, up to 4096 bytes of it, with room for 64 headers.
pub proof fn law_the_first_bytes_are_parsed(received: Seq<u8>)
    requires
        received.len() > 0,
    ensures
        received.len() <= 4096 ==> peeked(received) == peeked_given(
            http::parsed_request(received, 64),
        ),
        received.len() > 4096 ==> peeked(received) == peeked_given(
            http::parsed_request(received.subrange(0, 4096), 64),
        ),
{
    assert(received.len() <= 4096 ==> window(received) =~= received);
    assert(received.len() > 4096 ==> window(received) =~= received.subrange(0, 4096));
}

/// Nothing is answered where nothing came in or where it is no request.
pub proof fn law_what_is_no_request_is_not_answered()
    ensures
        peeked(Seq::empty()) is Nothing,
        peeked_given(None) is Nothing,
{
}

/// A request is a health check exactly if its target stands for the path of health checks,
/// whatever headers come with it.
pub proof fn law_health_checks_are_told_by_their_target(
    head: RequestHeadView,
    target: Seq<char>,
    normal: Seq<char>,
)
    requires
        head.path == Some(target),
        urls::stands_for(target, normal),
    ensures
        peeked_given(Some(head)) is HealthCheck <==> normal == "/0xDEADBEEF_HEALTH_CHECK"@,
{
    urls::law_targets_stand_for_their_normal_form(target, normal);
}

/// Of every other request with a `Host` header that header is taken for the host, the target
/// is taken in its normal form, and the `X-Forwarded-For` header, where there is one, for
/// whom it was forwarded for. Whether the head is complete makes no difference.
pub proof fn law_requests_tell_their_host(
    head: RequestHeadView,
    target: Seq<char>,
    normal: Seq<char>,
    host: Seq<char>,
    forwarded_for: Seq<char>,
)
    requires
        head.path == Some(target),
        urls::stands_for(target, normal),
        normal != "/0xDEADBEEF_HEALTH_CHECK"@,
        http::says(head.headers, "host"@, host),
        http::says(head.headers, "x-forwarded-for"@, forwarded_for) || (http::says_nothing(
            head.headers,
            "x-forwarded-for"@,
        ) && forwarded_for.len() == 0),
    ensures
        peeked_given(Some(head)) == PeekedView::Request(
            PeekedRequestView { host, path: normal, forwarded_for },
        ),
{
    urls::law_targets_stand_for_their_normal_form(target, normal);
    http::law_headers_say_their_text(head.headers, "host"@);
    http::law_headers_say_their_text(head.headers, "x-forwarded-for"@);
    assert(forwarded_for.len() == 0 ==> forwarded_for =~= Seq::<char>::empty());
}

/// A request that reached no target yet is taken for one with an empty target.
pub proof fn law_a_missing_target_is_empty(head: RequestHeadView)
    requires
        head.path is None,
    ensures
        peeked_given(Some(head)) == peeked_given(
            Some(RequestHeadView { path: Some(Seq::empty()), ..head }),
        ),
{
}

/// A request that is no health check is dropped where it tells no host.
pub proof fn law_requests_without_a_host_are_dropped(head: RequestHeadView)
    requires
        http::says_nothing(head.headers, "host"@),
        !(peeked_given(Some(head)) is HealthCheck),
    ensures
        peeked_given(Some(head)) is Nothing,
{
    http::law_headers_say_their_text(head.headers, "host"@);
}

/// The view of what was seen says all of it.
pub proof fn law_what_was_seen_is_seen_whole(peeked: Peeked)
    ensures
        match peeked {
            Peeked::Nothing => peeked@ is Nothing,
            Peeked::HealthCheck => peeked@ is HealthCheck,
            Peeked::Request(request) => peeked@ == PeekedView::Request(
                PeekedRequestView {
                    host: request.host@,
                    path: request.path@,
                    forwarded_for: request.forwarded_for@,
                },
            ),
        },
{
}

} // verus!
