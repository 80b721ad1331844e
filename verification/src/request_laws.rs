//! What becomes of a request, said of its head and its bytes.

use crate::bytes;
use crate::forward;
use crate::forward::BodyState;
use crate::forward::ForwarderView;
use crate::forward::HeadVerdictView;
use crate::forward::Refusal;
use crate::forward::RouteView;
use crate::forward::StreamEnd;
use crate::forward::StreamEventView;
use crate::forward_laws;
use crate::http;
use crate::http::HeaderView;
use crate::http::RequestHeadView;
use crate::paths;
use crate::sink::StreamMessageView;
use crate::text;
use crate::tunnel_id::NamedBy;
use crate::urls;
use vstd::prelude::*;

verus! {

/// Whether a request with these headers may use the tunnel: the tunnel has no token, or the
/// request shows it.
pub open spec fn may_use(route: RouteView, headers: Seq<HeaderView>) -> bool {
    match route.auth_token {
        Some(token) => http::shows(headers, route.auth_header, token),
        None => true,
    }
}

/// Whether the target of a head stands for `normal`. A head without a target has an empty
/// one.
pub open spec fn asks_for(head: RequestHeadView, normal: Seq<char>) -> bool {
    match head.path {
        Some(target) => urls::stands_for(target, normal),
        None => normal.len() == 0,
    }
}

/// What the words above mean for a head.
proof fn lemma_head(route: RouteView, head: RequestHeadView, normal: Seq<char>)
    ensures
        forward::authorized(route, head.headers) <==> may_use(route, head.headers),
        asks_for(head, normal) ==> urls::normal_target(forward::target_of(head)) == normal,
{
    if let Some(token) = route.auth_token {
        http::law_tokens_are_shown(head.headers, route.auth_header, token);
    }
    urls::law_targets_stand_for_their_normal_form(forward::target_of(head), normal);
    if head.path is None && normal.len() == 0 {
        assert(normal =~= Seq::<char>::empty());
        assert(urls::stands_for(Seq::empty(), Seq::empty()));
    }
}

/// Where the path names the tunnel, a request for a slash, the id of the tunnel and
/// something behind it that may use the tunnel is handed on as a request for that
/// something, with a slash before it unless it starts with one.
pub proof fn law_the_id_is_taken_off(route: RouteView, head: RequestHeadView, rest: Seq<char>)
    requires
        route.named_by == NamedBy::Path,
        head.complete,
        asks_for(head, seq!['/'] + route.tunnel_id + rest),
        paths::follows_a_segment(rest),
        may_use(route, head.headers),
    ensures
        forward::judged(route, Some(head)) matches HeadVerdictView::Forward(target, _) && target
            == if rest.len() > 0 && rest[0] == '/' {
            rest
        } else {
            seq!['/'] + rest
        },
{
    lemma_head(route, head, seq!['/'] + route.tunnel_id + rest);
    paths::law_what_follows_the_tunnel_is_left(route.tunnel_id, rest);
}

/// Where the host names the tunnel, a request that may use the tunnel is handed on for what
/// it asks for.
pub proof fn law_targets_below_a_host_stay(
    route: RouteView,
    head: RequestHeadView,
    normal: Seq<char>,
)
    requires
        route.named_by == NamedBy::Host,
        head.complete,
        asks_for(head, normal),
        may_use(route, head.headers),
    ensures
        forward::judged(route, Some(head)) matches HeadVerdictView::Forward(target, _) && target
            == normal,
{
    lemma_head(route, head, normal);
}

/// Where the path names the tunnel, a request for anything but a slash, the id of the tunnel
/// and something that can follow a segment is refused, whatever its headers are.
pub proof fn law_requests_for_others_are_refused(
    route: RouteView,
    head: RequestHeadView,
    normal: Seq<char>,
)
    requires
        route.named_by == NamedBy::Path,
        head.complete,
        asks_for(head, normal),
        forall|rest: Seq<char>|
            paths::follows_a_segment(rest) ==> normal != #[trigger] (seq!['/'] + route.tunnel_id
                + rest),
    ensures
        forward::judged(route, Some(head)) == HeadVerdictView::Refuse(Refusal::NoTunnelPrefix),
{
    lemma_head(route, head, normal);
    paths::law_other_paths_keep_the_tunnel(normal, route.tunnel_id);
}

/// A request for the tunnel that may not use it is refused.
pub proof fn law_requests_without_the_token_are_refused(
    route: RouteView,
    head: RequestHeadView,
    rest: Seq<char>,
)
    requires
        head.complete,
        !may_use(route, head.headers),
        route.named_by == NamedBy::Path ==> asks_for(head, seq!['/'] + route.tunnel_id + rest)
            && paths::follows_a_segment(rest),
    ensures
        forward::judged(route, Some(head)) == HeadVerdictView::Refuse(Refusal::Unauthorized),
{
    lemma_head(route, head, seq!['/'] + route.tunnel_id + rest);
    if route.named_by == NamedBy::Path {
        paths::law_what_follows_the_tunnel_is_left(route.tunnel_id, rest);
    }
}

/// A request is judged only where its head was parsed and is complete.
pub proof fn law_only_complete_heads_are_judged(route: RouteView, head: RequestHeadView)
    ensures
        forward::judged(route, None) is Malformed,
        forward::judged(route, Some(head)) is Incomplete <==> !head.complete,
        !(forward::judged(route, Some(head)) is Malformed),
{
}

/// A request with a header that announces chunks is followed by a body of unknown length,
/// whatever length it gives.
pub proof fn law_chunked_bodies_have_no_known_length(
    route: RouteView,
    head: RequestHeadView,
    target: Seq<char>,
    body: BodyState,
    i: int,
)
    requires
        forward::judged(route, Some(head)) == HeadVerdictView::Forward(target, body),
        0 <= i < head.headers.len(),
        http::announces_chunks(head.headers[i]),
    ensures
        body == BodyState::Unknown,
{
    http::law_chunks_are_announced(head.headers);
}

/// A request without chunks is followed by as many bytes as its first `Content-Length`
/// header writes in decimal, white space around it aside. A number that the machine cannot
/// hold counts for none.
pub proof fn law_bodies_are_as_long_as_said(
    route: RouteView,
    head: RequestHeadView,
    target: Seq<char>,
    body: BodyState,
    before: Seq<char>,
    n: nat,
    plus: bool,
    zeros: nat,
    after: Seq<char>,
)
    requires
        forward::judged(route, Some(head)) == HeadVerdictView::Forward(target, body),
        forall|i: int|
            0 <= i < head.headers.len() ==> !http::announces_chunks(#[trigger] head.headers[i]),
        text::all_white(before),
        text::all_white(after),
        http::says(
            head.headers,
            "content-length"@,
            before + text::written_as(n, plus, zeros) + after,
        ),
    ensures
        0 < n <= usize::MAX ==> body == BodyState::Fixed(n as usize),
        n == 0 || n > usize::MAX ==> body == BodyState::NoBody,
{
    http::law_chunks_are_announced(head.headers);
    http::law_lengths_are_read(head.headers, before, after, n, plus, zeros);
}

/// A request without chunks, whose first `Content-Length` header is missing, not UTF-8 or no
/// number, is followed by no body. `i` is where the text shows that it is no number.
pub proof fn law_other_requests_have_no_body(
    route: RouteView,
    head: RequestHeadView,
    target: Seq<char>,
    body: BodyState,
    before: Seq<char>,
    core: Seq<char>,
    after: Seq<char>,
    i: int,
)
    requires
        forward::judged(route, Some(head)) == HeadVerdictView::Forward(target, body),
        forall|j: int|
            0 <= j < head.headers.len() ==> !http::announces_chunks(#[trigger] head.headers[j]),
        text::all_white(before),
        text::is_bare(core),
        text::all_white(after),
        http::says_nothing(head.headers, "content-length"@) || (http::says(
            head.headers,
            "content-length"@,
            before + core + after,
        ) && text::shows_no_number(core, i)),
    ensures
        body == BodyState::NoBody,
{
    http::law_chunks_are_announced(head.headers);
    http::law_other_lengths_are_not_read(head.headers, before, core, after, i);
}

/// A connection that waits for the head of a request, with these bytes left.
pub open spec fn awaiting(route: RouteView, pending: Seq<u8>) -> ForwarderView {
    ForwarderView { route, pending, body: BodyState::NoBody }
}

/// What is found in the bytes of a connection that start with a whole head.
proof fn lemma_whole_head(head: Seq<u8>, rest: Seq<u8>)
    requires
        bytes::is_whole_head(head),
    ensures
        forward::is_one_head(head),
        forward::head_of(head + rest) == Some(head),
        forward::parsed_head(head + rest) == http::parsed_request(head, 64),
        forward::parsed_head(head) == http::parsed_request(head, 64),
{
    bytes::law_heads_end_with_an_empty_line(head, rest);
    assert((head + rest).take(head.len() as int) =~= head);
    assert(head.take(head.len() as int) =~= head);
}

/// A request that is to be handed on goes to the client with its new target and otherwise
/// byte for byte: method, version, headers and body, as soon as its last bytes are read. It
/// is parsed with room for 64 headers. What comes behind it is taken for the next request.
pub proof fn law_requests_go_through(
    route: RouteView,
    method: Seq<u8>,
    target: Seq<u8>,
    version: Seq<u8>,
    lines: Seq<u8>,
    data: Seq<u8>,
    next: Seq<u8>,
    pending: Seq<u8>,
    read: Seq<u8>,
    head: RequestHeadView,
    new_target: Seq<char>,
    body: BodyState,
)
    requires
        bytes::is_one_word(method),
        bytes::is_one_word(target),
        bytes::is_one_line(method + seq![32u8] + target + seq![32u8] + version),
        bytes::is_whole_head(
            method + seq![32u8] + target + seq![32u8] + version + seq![13u8, 10u8] + lines,
        ),
        http::parsed_request(
            method + seq![32u8] + target + seq![32u8] + version + seq![13u8, 10u8] + lines,
            64,
        ) == Some(head),
        forward::judged(route, Some(head)) == HeadVerdictView::Forward(new_target, body),
        forward_laws::is_whole_body(body, data, next),
        read.len() > 0,
        pending + read == method + seq![32u8] + target + seq![32u8] + version + seq![13u8, 10u8]
            + lines + data + next,
    ensures
        ({
            let turn = forward::turn(awaiting(route, pending), StreamEventView::Read(read));
            let after = forward::after_turn(awaiting(route, pending), StreamEventView::Read(read));
            let rest = forward::drained(
                route,
                next,
                if body is Unknown {
                    BodyState::Unknown
                } else {
                    BodyState::NoBody
                },
            );
            &&& forward_laws::joined(turn.packets) == method + seq![32u8]
                + vstd::utf8::encode_utf8(new_target) + seq![32u8] + version + seq![13u8, 10u8]
                + lines + data + forward_laws::joined(rest.packets)
            &&& turn.end == forward::refused_end(rest.refusal)
            &&& after == (ForwarderView { route, pending: rest.pending, body: rest.body })
        }),
{
    let request = method + seq![32u8] + target + seq![32u8] + version + seq![13u8, 10u8] + lines;
    lemma_whole_head(request, Seq::empty());
    bytes::law_rewriting_puts_the_target_in_place(
        method,
        target,
        version,
        lines,
        vstd::utf8::encode_utf8(new_target),
    );
    forward_laws::law_requests_are_handed_on_whole(route, request, data, next, new_target, body);
}

/// A request that is refused ends the connection. Nothing is handed on of it or of what
/// comes behind it.
pub proof fn law_refused_requests_end_the_connection(
    route: RouteView,
    request: Seq<u8>,
    next: Seq<u8>,
    pending: Seq<u8>,
    read: Seq<u8>,
    refusal: Refusal,
)
    requires
        bytes::is_whole_head(request),
        forward::judged(route, http::parsed_request(request, 64)) == HeadVerdictView::Refuse(
            refusal,
        ),
        read.len() > 0,
        pending + read == request + next,
    ensures
        ({
            let turn = forward::turn(awaiting(route, pending), StreamEventView::Read(read));
            turn.packets.len() == 0 && turn.end == Some(StreamEnd::Refused(refusal))
        }),
{
    lemma_whole_head(request, next);
}

/// Where what is read up to an empty line is no request, it is handed on as it is, with all
/// that came behind it, and the connection goes on.
pub proof fn law_what_is_no_request_goes_through(
    route: RouteView,
    start: Seq<u8>,
    next: Seq<u8>,
    pending: Seq<u8>,
    read: Seq<u8>,
)
    requires
        bytes::is_whole_head(start),
        http::parsed_request(start, 64) is None,
        read.len() > 0,
        pending + read == start + next,
    ensures
        ({
            let turn = forward::turn(awaiting(route, pending), StreamEventView::Read(read));
            let after = forward::after_turn(awaiting(route, pending), StreamEventView::Read(read));
            &&& forward_laws::joined(turn.packets) == pending + read
            &&& turn.end is None
            &&& after == awaiting(route, Seq::empty())
        }),
{
    let all = pending + read;
    lemma_whole_head(start, next);
    assert forall|i: int| !#[trigger] bytes::empty_line_at(Seq::empty(), i) by {}
    bytes::law_no_head_without_an_empty_line(Seq::empty());
    let rest = forward::drained(route, Seq::empty(), BodyState::NoBody);
    assert(rest.packets =~= Seq::<Seq<u8>>::empty());
    let packets = forward::drained(route, all, BodyState::NoBody).packets;
    assert(packets == seq![all] + rest.packets);
    assert(packets =~= seq![all]);
    assert(packets.skip(1) =~= Seq::<Seq<u8>>::empty());
    assert(forward_laws::joined(packets.skip(1)) =~= Seq::<u8>::empty());
    assert(forward_laws::joined(packets) =~= all);
}

/// As long as a head is not there with its empty line, or is not complete, nothing is handed
/// on and nothing is lost.
pub proof fn law_heads_are_waited_for(
    route: RouteView,
    pending: Seq<u8>,
    read: Seq<u8>,
    start: Seq<u8>,
    next: Seq<u8>,
)
    requires
        read.len() > 0,
        (forall|i: int| !#[trigger] bytes::empty_line_at(pending + read, i)) || (
        bytes::is_whole_head(start) && pending + read == start + next && (http::parsed_request(
            start,
            64,
        ) matches Some(head) && !head.complete)),
    ensures
        ({
            let turn = forward::turn(awaiting(route, pending), StreamEventView::Read(read));
            let after = forward::after_turn(awaiting(route, pending), StreamEventView::Read(read));
            &&& turn.packets.len() == 0
            &&& turn.end is None
            &&& after == awaiting(route, pending + read)
        }),
{
    if forall|i: int| !#[trigger] bytes::empty_line_at(pending + read, i) {
        bytes::law_no_head_without_an_empty_line(pending + read);
    } else {
        lemma_whole_head(start, next);
    }
}

/// Within a body every byte that is read is handed on, until the body is complete, and then
/// the next request is waited for. Within a body of unknown length every byte is, for good.
pub proof fn law_bodies_go_through(route: RouteView, read: Seq<u8>, remaining: usize)
    requires
        0 < read.len() <= remaining,
    ensures
        ({
            let state = ForwarderView {
                route,
                pending: Seq::empty(),
                body: BodyState::Fixed(remaining),
            };
            let turn = forward::turn(state, StreamEventView::Read(read));
            let after = forward::after_turn(state, StreamEventView::Read(read));
            &&& forward_laws::joined(turn.packets) == read
            &&& turn.end is None
            &&& after.route == route
            &&& after.pending.len() == 0
            &&& after.body == if read.len() < remaining {
                BodyState::Fixed((remaining - read.len()) as usize)
            } else {
                BodyState::NoBody
            }
        }),
        ({
            let state = ForwarderView { route, pending: Seq::empty(), body: BodyState::Unknown };
            let turn = forward::turn(state, StreamEventView::Read(read));
            let after = forward::after_turn(state, StreamEventView::Read(read));
            &&& forward_laws::joined(turn.packets) == read
            &&& turn.end is None
            &&& after == state
        }),
{
    let none = Seq::<u8>::empty();
    assert(none + read =~= read);
    forward_laws::law_chunked_streams_pass_unchanged(route, read);
    if read.len() < remaining {
        forward_laws::law_parts_of_bodies_pass_unchanged(route, read, remaining);
    } else {
        assert(read + none =~= read);
        forward_laws::law_bodies_pass_unchanged(route, read, none);
        assert forall|i: int| !#[trigger] bytes::empty_line_at(none, i) by {}
        bytes::law_no_head_without_an_empty_line(none);
        let rest = forward::drained(route, none, BodyState::NoBody);
        let packets = forward::drained(route, read, BodyState::Fixed(remaining)).packets;
        assert(packets =~= seq![read]);
        assert(packets.skip(1) =~= Seq::<Seq<u8>>::empty());
        assert(forward_laws::joined(packets.skip(1)) =~= none);
        assert(forward_laws::joined(packets) =~= read);
    }
}

/// A connection ends where its client is gone, where reading fails and where the remote side
/// closes, in each case without handing anything on; and, where something was read, only for
/// a request that is refused.
pub proof fn law_connections_end_for_a_reason(state: ForwarderView, event: StreamEventView)
    ensures
        ({
            let turn = forward::turn(state, event);
            match event {
                StreamEventView::ClientGone => turn.packets.len() == 0 && turn.end == Some(
                    StreamEnd::ClientGone,
                ) && forward::after_turn(state, event) == state,
                StreamEventView::ReadFailed => turn.packets.len() == 0 && turn.end == Some(
                    StreamEnd::ReadFailed,
                ) && forward::after_turn(state, event) == state,
                StreamEventView::Read(data) => if data.len() == 0 {
                    turn.packets.len() == 0 && turn.end == Some(StreamEnd::Ended)
                        && forward::after_turn(state, event) == state
                } else {
                    turn.end is None || turn.end->0 is Refused
                },
            }
        }),
{
}

/// At the end of a connection the remote side is told that there is no tunnel where the
/// client is gone or the request did not name the tunnel, that it is not authorized where it
/// lacked the token, and nothing otherwise. The queue to it is closed where the client is
/// gone. The client is told of the end where the remote side closed or a request was
/// refused, and is forgotten where nothing could be sent to it.
pub proof fn law_ends_are_told(end: StreamEnd)
    ensures
        ({
            let closing = forward::closing_of(end);
            &&& closing.notify == Some(StreamMessageView::NoClientTunnel) <==> end
                == StreamEnd::ClientGone || end == StreamEnd::Refused(Refusal::NoTunnelPrefix)
            &&& closing.notify == Some(StreamMessageView::Unauthorized) <==> end
                == StreamEnd::Refused(Refusal::Unauthorized)
            &&& closing.notify is None <==> end == StreamEnd::ReadFailed || end == StreamEnd::Ended
                || end == StreamEnd::SendFailed
            &&& closing.close_queue <==> end == StreamEnd::ClientGone
            &&& closing.end_client <==> end == StreamEnd::Ended || end is Refused
            &&& closing.drop_client <==> end == StreamEnd::SendFailed
        }),
{
}

/// What is read is put behind what was left, and all of it goes the same way at once.
pub proof fn law_reads_are_put_behind_what_is_left(state: ForwarderView, read: Seq<u8>)
    requires
        read.len() > 0,
    ensures
        ({
            let turn = forward::turn(state, StreamEventView::Read(read));
            let after = forward::after_turn(state, StreamEventView::Read(read));
            let result = forward::drained(state.route, state.pending + read, state.body);
            &&& turn.packets == result.packets
            &&& turn.end matches Some(end) ==> result.refusal matches Some(refusal) && end
                == StreamEnd::Refused(refusal)
            &&& turn.end is None ==> result.refusal is None
            &&& after == (ForwarderView {
                route: state.route,
                pending: result.pending,
                body: result.body,
            })
        }),
{
}

/// The views of routes, verdicts, events, turns and closings say all that they say.
pub proof fn law_streams_are_seen_whole(
    route: forward::Route,
    verdict: forward::HeadVerdict,
    event: forward::StreamEvent,
    turn: forward::Turn,
    closing: forward::Closing,
)
    ensures
        route@.tunnel_id == route.tunnel_id@,
        route@.named_by == route.named_by,
        route@.auth_header == route.auth_header@,
        match route.auth_token {
            Some(token) => route@.auth_token == Some(token@),
            None => route@.auth_token is None,
        },
        match verdict {
            forward::HeadVerdict::Malformed => verdict@ is Malformed,
            forward::HeadVerdict::Incomplete => verdict@ is Incomplete,
            forward::HeadVerdict::Refuse(refusal) => verdict@ == HeadVerdictView::Refuse(refusal),
            forward::HeadVerdict::Forward(target, body) => verdict@ == HeadVerdictView::Forward(
                target@,
                body,
            ),
        },
        match event {
            forward::StreamEvent::ClientGone => event@ is ClientGone,
            forward::StreamEvent::ReadFailed => event@ is ReadFailed,
            forward::StreamEvent::Read(data) => event@ == StreamEventView::Read(data@),
        },
        turn@.end == turn.end,
        turn@.packets.len() == turn.packets@.len(),
        forall|i: int|
            0 <= i < turn.packets@.len() ==> #[trigger] turn@.packets[i] == turn.packets@[i]@,
        closing@.notify == crate::sink::opt_message(closing.notify),
        closing@.close_queue == closing.close_queue,
        closing@.end_client == closing.end_client,
        closing@.drop_client == closing.drop_client,
{
}

} // verus!
