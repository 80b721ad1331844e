//! What holds of every connection, however its bytes come in.

use crate::bytes;
use crate::forward::BodyState;
use crate::forward::Drained;
use crate::forward::ForwarderView;
use crate::forward::HeadVerdictView;
use crate::forward::Refusal;
use crate::forward::RouteView;
use crate::forward::StepView;
use crate::forward::StreamEnd;
use crate::forward::StreamEventView;
use crate::forward;
use crate::http;
use crate::paths;
use crate::responses::Response;
use crate::sink;
use crate::sink::SinkActionView;
use crate::tunnel_id;
use crate::tunnel_id::NamedBy;
use crate::urls;
use vstd::prelude::*;

verus! {

/// The bytes of a list of packets, one after the other.
pub open spec fn joined(packets: Seq<Seq<u8>>) -> Seq<u8>
    decreases packets.len(),
{
    if packets.len() == 0 {
        Seq::empty()
    } else {
        packets[0] + joined(packets.skip(1))
    }
}

/// One packet before others.
proof fn lemma_joined_first(packet: Seq<u8>, rest: Seq<Seq<u8>>)
    ensures
        joined(seq![packet] + rest) == packet + joined(rest),
{
    assert((seq![packet] + rest).skip(1) =~= rest);
}

/// Whether none of the heads that are reached in `pending` is malformed.
pub open spec fn well_formed(route: RouteView, pending: Seq<u8>, body: BodyState) -> bool
    decreases
            pending.len(),
            if body is Fixed {
                1int
            } else {
                0int
            },
{
    proof {
        forward::lemma_head_of(pending);
    }
    match forward::step(route, pending, body) {
        StepView::Send(_, left, next) => {
            &&& !(body is NoBody && forward::judged(route, forward::parsed_head(pending))
                is Malformed)
            &&& well_formed(route, left, next)
        },
        _ => true,
    }
}

/// Whether two outcomes are the same but for how the bytes handed on are parted into
/// packets.
pub open spec fn same_but_for_packets(a: Drained, b: Drained) -> bool {
    &&& joined(a.packets) == joined(b.packets)
    &&& a.pending == b.pending
    &&& a.body == b.body
    &&& a.refusal == b.refusal
}

/// One outcome, and then another on what the first left.
pub open spec fn then_drained(first: Drained, route: RouteView, data: Seq<u8>) -> Drained {
    let second = forward::drained(route, first.pending + data, first.body);
    Drained { packets: first.packets + second.packets, ..second }
}

/// The bytes of two lists of packets.
proof fn lemma_joined_add(a: Seq<Seq<u8>>, b: Seq<Seq<u8>>)
    ensures
        joined(a + b) == joined(a) + joined(b),
    decreases a.len(),
{
    if a.len() == 0 {
        assert(a + b =~= b);
        assert(Seq::<u8>::empty() + joined(b) =~= joined(b));
    } else {
        lemma_joined_add(a.skip(1), b);
        assert((a + b).skip(1) =~= a.skip(1) + b);
        assert(a[0] + (joined(a.skip(1)) + joined(b)) =~= a[0] + joined(a.skip(1)) + joined(b));
    }
}

/// Every step that hands bytes on leaves fewer of them.
pub proof fn law_every_packet_makes_progress(
    route: RouteView,
    pending: Seq<u8>,
    body: BodyState,
)
    requires
        body != BodyState::Fixed(0),
    ensures
        forward::step(route, pending, body) matches StepView::Send(_, left, next) ==> left.len()
            < pending.len() && next != BodyState::Fixed(0),
{
    forward::lemma_head_of(pending);
}

/// A rewritten head is not empty.
proof fn lemma_with_target_is_not_empty(head: Seq<u8>, target: Seq<u8>)
    requires
        head.len() > 0,
    ensures
        bytes::with_target(head, target).len() > 0,
{
    bytes::lemma_found(head, bytes::crlf());
}

/// No packet that is handed on is empty.
pub proof fn law_packets_are_not_empty(route: RouteView, pending: Seq<u8>, body: BodyState)
    requires
        body != BodyState::Fixed(0),
    ensures
        forall|i: int|
            0 <= i < forward::drained(route, pending, body).packets.len()
                ==> #[trigger] forward::drained(route, pending, body).packets[i].len() > 0,
    decreases
            pending.len(),
            if body is Fixed {
                1int
            } else {
                0int
            },
{
    forward::lemma_head_of(pending);
    if let StepView::Send(packet, left, next) = forward::step(route, pending, body) {
        law_every_packet_makes_progress(route, pending, body);
        law_packets_are_not_empty(route, left, next);
        if let HeadVerdictView::Forward(target, _) = forward::judged(
            route,
            forward::parsed_head(pending),
        ) {
            if body is NoBody {
                lemma_with_target_is_not_empty(
                    forward::head_of(pending)->0,
                    vstd::utf8::encode_utf8(target),
                );
            }
        }
        assert(packet.len() > 0);
        let rest = forward::drained(route, left, next).packets;
        let all = forward::drained(route, pending, body).packets;
        assert(all == seq![packet] + rest);
        assert forall|i: int| 0 <= i < all.len() implies #[trigger] all[i].len() > 0 by {
            if i > 0 {
                assert(all[i] == rest[i - 1]);
            }
        }
    }
}

/// A body of known length is handed on byte for byte, and what comes behind it is taken
/// for the next request.
pub proof fn law_bodies_pass_unchanged(route: RouteView, data: Seq<u8>, next: Seq<u8>)
    requires
        0 < data.len() <= usize::MAX,
    ensures
        ({
            let result = forward::drained(
                route,
                data + next,
                BodyState::Fixed(data.len() as usize),
            );
            let rest = forward::drained(route, next, BodyState::NoBody);
            &&& result.packets == seq![data] + rest.packets
            &&& result.pending == rest.pending
            &&& result.body == rest.body
            &&& result.refusal == rest.refusal
        }),
{
    assert((data + next).take(data.len() as int) =~= data);
    assert((data + next).skip(data.len() as int) =~= next);
}

/// A body of which only a part has come is handed on as far as it has come, and the rest
/// of it is waited for.
pub proof fn law_parts_of_bodies_pass_unchanged(
    route: RouteView,
    part: Seq<u8>,
    remaining: usize,
)
    requires
        part.len() < remaining,
    ensures
        ({
            let result = forward::drained(route, part, BodyState::Fixed(remaining));
            &&& joined(result.packets) == part
            &&& result.pending == Seq::<u8>::empty()
            &&& result.body == BodyState::Fixed((remaining - part.len()) as usize)
            &&& result.refusal is None
        }),
{
    if part.len() > 0 {
        assert(part.take(part.len() as int) =~= part);
        assert(part.skip(part.len() as int) =~= Seq::<u8>::empty());
        let rest = forward::drained(
            route,
            Seq::empty(),
            BodyState::Fixed((remaining - part.len()) as usize),
        );
        lemma_joined_first(part, rest.packets);
        assert(part + Seq::<u8>::empty() =~= part);
    } else {
        assert(part =~= Seq::<u8>::empty());
    }
}

/// From a body of unknown length on, every byte is handed on as it is, for good.
pub proof fn law_chunked_streams_pass_unchanged(route: RouteView, data: Seq<u8>)
    ensures
        ({
            let result = forward::drained(route, data, BodyState::Unknown);
            &&& joined(result.packets) == data
            &&& result.pending == Seq::<u8>::empty()
            &&& result.body == BodyState::Unknown
            &&& result.refusal is None
        }),
{
    if data.len() > 0 {
        let rest = forward::drained(route, Seq::empty(), BodyState::Unknown);
        lemma_joined_first(data, rest.packets);
        assert(data + Seq::<u8>::empty() =~= data);
    } else {
        assert(data =~= Seq::<u8>::empty());
    }
}

/// More bytes behind a head make no other head of it.
proof fn lemma_same_head(first: Seq<u8>, data: Seq<u8>)
    requires
        forward::head_of(first) is Some,
    ensures
        forward::head_of(first + data) == forward::head_of(first),
        forward::parsed_head(first + data) == forward::parsed_head(first),
{
    forward::lemma_head_of(first);
    bytes::law_header_end_is_stable(first, data);
    let end = bytes::header_end(first)->0;
    assert((first + data).take(end) =~= first.take(end));
}

/// A packet before two outcomes, and before the first of two outcomes.
proof fn lemma_prepend(packet: Seq<u8>, a: Seq<Seq<u8>>, b: Seq<Seq<u8>>)
    ensures
        joined(seq![packet] + a + b) == packet + joined(a + b),
{
    assert(seq![packet] + a + b =~= seq![packet] + (a + b));
    lemma_joined_first(packet, a + b);
}

/// `law_reads_can_be_joined` where the first read ends within a body.
proof fn lemma_part_of_body(route: RouteView, first: Seq<u8>, data: Seq<u8>, remaining: usize)
    requires
        0 < first.len() < remaining,
    ensures
        ({
            let once = forward::drained(route, first, BodyState::Fixed(remaining));
            let whole = forward::drained(route, first + data, BodyState::Fixed(remaining));
            &&& once.refusal is None
            &&& same_but_for_packets(whole, then_drained(once, route, data))
        }),
{
    let body = BodyState::Fixed(remaining);
    let left = (remaining - first.len()) as usize;
    let once = forward::drained(route, first, body);
    let whole = forward::drained(route, first + data, body);
    law_parts_of_bodies_pass_unchanged(route, first, remaining);
    let second = forward::drained(route, once.pending + data, once.body);
    assert(once.pending + data =~= data);
    lemma_joined_add(once.packets, second.packets);
    if data.len() == 0 {
        assert(data =~= Seq::<u8>::empty());
        assert(first + data =~= first);
        assert(first + Seq::<u8>::empty() =~= first);
    } else {
        let take = forward::at_most(left, data.len());
        let both = first.len() + take;
        assert(forward::at_most(remaining, (first + data).len()) == both);
        assert((first + data).take(both) =~= first + data.take(take));
        assert((first + data).skip(both) =~= data.skip(take));
        let next = if take == left {
            BodyState::NoBody
        } else {
            BodyState::Fixed((left - take) as usize)
        };
        let rest = forward::drained(route, data.skip(take), next);
        lemma_joined_first(first + data.take(take), rest.packets);
        lemma_joined_first(data.take(take), rest.packets);
        assert(first + data.take(take) + joined(rest.packets) =~= first + (data.take(take) + joined(
            rest.packets,
        )));
    }
}

/// How the bytes of a connection are parted into reads makes no difference to what is
/// handed on, to what is left and to whether a request is refused: reading `first` and
/// then `data` is like reading both at once. This holds as long as no malformed head is
/// met in `first`.
pub proof fn law_reads_can_be_joined(
    route: RouteView,
    first: Seq<u8>,
    data: Seq<u8>,
    body: BodyState,
)
    requires
        well_formed(route, first, body),
    ensures
        ({
            let once = forward::drained(route, first, body);
            let whole = forward::drained(route, first + data, body);
            if once.refusal is None {
                same_but_for_packets(whole, then_drained(once, route, data))
            } else {
                whole.refusal == once.refusal && joined(whole.packets) == joined(once.packets)
            }
        }),
    decreases
            first.len(),
            if body is Fixed {
                1int
            } else {
                0int
            },
{
    let once = forward::drained(route, first, body);
    let whole = forward::drained(route, first + data, body);
    let second = forward::drained(route, once.pending + data, once.body);
    forward::lemma_head_of(first);
    match forward::step(route, first, body) {
        StepView::AwaitRead => {
            assert(Seq::<Seq<u8>>::empty() + second.packets =~= second.packets);
        },
        StepView::Refuse(refusal) => {
            lemma_same_head(first, data);
        },
        StepView::Send(packet, left, next) => match body {
            BodyState::Unknown => {
                law_chunked_streams_pass_unchanged(route, first);
                law_chunked_streams_pass_unchanged(route, data);
                law_chunked_streams_pass_unchanged(route, first + data);
                assert(once.pending + data =~= data);
                lemma_joined_add(once.packets, second.packets);
            },
            _ => {
                if body is Fixed && first.len() < body->Fixed_0 {
                    lemma_part_of_body(route, first, data, body->Fixed_0);
                } else {
                    if body is NoBody {
                        lemma_same_head(first, data);
                    }
                    let n = first.len() - left.len();
                    assert((first + data).take(n) =~= first.take(n));
                    assert((first + data).skip(n) =~= first.skip(n) + data);
                    law_reads_can_be_joined(route, left, data, next);
                    let rest_once = forward::drained(route, left, next);
                    let rest_whole = forward::drained(route, left + data, next);
                    assert(forward::step(route, first + data, body) == StepView::Send(
                        packet,
                        left + data,
                        next,
                    ));
                    lemma_joined_first(packet, rest_whole.packets);
                    lemma_joined_first(packet, rest_once.packets);
                    lemma_prepend(packet, rest_once.packets, second.packets);
                }
            },
        },
    }
}

/// What comes of a number of turns.
pub struct Run {
    /// What is handed on, piece by piece.
    pub packets: Seq<Seq<u8>>,
    /// What is left of the connection.
    pub state: ForwarderView,
    /// Why the connection ends, where it does.
    pub end: Option<StreamEnd>,
}

/// What comes of a connection on which `reads` come in, one after the other, until it ends.
pub open spec fn run(state: ForwarderView, reads: Seq<Seq<u8>>) -> Run
    decreases reads.len(),
{
    if reads.len() == 0 {
        Run { packets: Seq::empty(), state, end: None }
    } else {
        let turn = forward::turn(state, StreamEventView::Read(reads[0]));
        let after = forward::after_turn(state, StreamEventView::Read(reads[0]));
        if turn.end is Some {
            Run { packets: turn.packets, state: after, end: turn.end }
        } else {
            let rest = run(after, reads.skip(1));
            Run { packets: turn.packets + rest.packets, ..rest }
        }
    }
}

/// Whether something comes in with each of `reads`, and no malformed head is met.
pub open spec fn well_formed_run(state: ForwarderView, reads: Seq<Seq<u8>>) -> bool
    decreases reads.len(),
{
    reads.len() > 0 ==> {
        let turn = forward::turn(state, StreamEventView::Read(reads[0]));
        let after = forward::after_turn(state, StreamEventView::Read(reads[0]));
        &&& reads[0].len() > 0
        &&& well_formed(state.route, state.pending + reads[0], state.body)
        &&& turn.end is None ==> well_formed_run(after, reads.skip(1))
    }
}

/// Whether the same bytes are handed on, the connection ends for the same reason, if it
/// ends, and, if it does not, the same is left.
pub open spec fn same_for_both_sides(a: Run, b: Run) -> bool {
    &&& joined(a.packets) == joined(b.packets)
    &&& a.end == b.end
    &&& a.end is None ==> a.state == b.state
}

/// Any number of reads is like one read of all their bytes.
pub proof fn law_reads_are_like_one(state: ForwarderView, reads: Seq<Seq<u8>>)
    requires
        reads.len() > 0,
        well_formed_run(state, reads),
    ensures
        same_for_both_sides(run(state, reads), run(state, seq![joined(reads)])),
    decreases reads.len(),
{
    reveal_with_fuel(run, 2);
    reveal_with_fuel(well_formed_run, 2);
    let route = state.route;
    let body = state.body;
    let first = state.pending + reads[0];
    let rest = reads.skip(1);
    let all = joined(reads);
    let one = seq![all];
    let once = forward::drained(route, first, body);
    let whole = forward::drained(route, state.pending + all, body);
    assert(state.pending + all =~= first + joined(rest));
    assert(one.skip(1) =~= Seq::<Seq<u8>>::empty());
    assert(whole.packets + Seq::<Seq<u8>>::empty() =~= whole.packets);
    law_reads_can_be_joined(route, first, joined(rest), body);
    if once.refusal is None {
        let after = forward::after_turn(state, StreamEventView::Read(reads[0]));
        let later = run(after, rest);
        lemma_joined_add(once.packets, later.packets);
        if rest.len() == 0 {
            assert(first + joined(rest) =~= first);
            assert(joined(once.packets) + joined(later.packets) =~= joined(once.packets));
        } else {
            law_reads_are_like_one(after, rest);
            let second = forward::drained(route, once.pending + joined(rest), once.body);
            assert(joined(rest).len() > 0);
            assert(seq![joined(rest)].skip(1) =~= Seq::<Seq<u8>>::empty());
            assert(second.packets + Seq::<Seq<u8>>::empty() =~= second.packets);
            lemma_joined_add(once.packets, second.packets);
        }
    }
}

/// Nothing follows the end of a connection: what comes in behind it makes no difference,
/// so that no packet is handed on and no other end is reached.
pub proof fn law_nothing_follows_the_end(
    state: ForwarderView,
    reads: Seq<Seq<u8>>,
    more: Seq<Seq<u8>>,
)
    requires
        run(state, reads).end is Some,
    ensures
        run(state, reads + more) == run(state, reads),
    decreases reads.len(),
{
    let after = forward::after_turn(state, StreamEventView::Read(reads[0]));
    assert((reads + more)[0] == reads[0]);
    if forward::turn(state, StreamEventView::Read(reads[0])).end is None {
        assert((reads + more).skip(1) =~= reads.skip(1) + more);
        law_nothing_follows_the_end(after, reads.skip(1), more);
    }
}

/// A body that is still to come after steps on a connection is not empty.
proof fn lemma_drained_wf(route: RouteView, pending: Seq<u8>, body: BodyState)
    requires
        body != BodyState::Fixed(0),
    ensures
        forward::drained(route, pending, body).body != BodyState::Fixed(0),
    decreases
            pending.len(),
            if body is Fixed {
                1int
            } else {
                0int
            },
{
    forward::lemma_head_of(pending);
    if let StepView::Send(_, left, next) = forward::step(route, pending, body) {
        law_every_packet_makes_progress(route, pending, body);
        lemma_drained_wf(route, left, next);
    }
}

/// Every turn keeps a connection well-formed.
pub proof fn law_turns_keep_wf(state: ForwarderView, event: StreamEventView)
    requires
        state.wf(),
    ensures
        forward::after_turn(state, event).wf(),
{
    if let StreamEventView::Read(data) = event {
        lemma_drained_wf(state.route, state.pending + data, state.body);
    }
}

/// In every turn of a connection no packet is empty.
pub proof fn law_turns_hand_on_no_empty_packets(state: ForwarderView, event: StreamEventView)
    requires
        state.wf(),
    ensures
        forall|i: int|
            0 <= i < forward::turn(state, event).packets.len() ==> #[trigger] forward::turn(
                state,
                event,
            ).packets[i].len() > 0,
{
    if let StreamEventView::Read(data) = event {
        law_packets_are_not_empty(state.route, state.pending + data, state.body);
    }
}

/// It makes no difference to either side of a connection how its bytes are parted into
/// reads.
pub proof fn law_parting_makes_no_difference(
    state: ForwarderView,
    reads: Seq<Seq<u8>>,
    others: Seq<Seq<u8>>,
)
    requires
        reads.len() > 0,
        others.len() > 0,
        joined(reads) == joined(others),
        well_formed_run(state, reads),
        well_formed_run(state, others),
    ensures
        same_for_both_sides(run(state, reads), run(state, others)),
{
    law_reads_are_like_one(state, reads);
    law_reads_are_like_one(state, others);
}

/// Nothing is handed on of a request that is refused: its head is still there, unsent,
/// when the connection ends.
pub proof fn law_refused_requests_are_not_handed_on(
    route: RouteView,
    pending: Seq<u8>,
    body: BodyState,
)
    ensures
        ({
            let result = forward::drained(route, pending, body);
            result.refusal matches Some(refusal) ==> {
                &&& result.body is NoBody
                &&& forward::head_of(result.pending) is Some
                &&& forward::judged(route, forward::parsed_head(result.pending))
                    == HeadVerdictView::Refuse(refusal)
            }
        }),
    decreases
            pending.len(),
            if body is Fixed {
                1int
            } else {
                0int
            },
{
    forward::lemma_head_of(pending);
    if let StepView::Send(_, left, next) = forward::step(route, pending, body) {
        law_refused_requests_are_not_handed_on(route, left, next);
    }
}

/// A head is handed on only where its path names the tunnel, unless the host does, and where
/// it carries the token of the tunnel, if there is one. It is handed on with its target in
/// normal form, a tunnel that the path names taken off it, and unchanged otherwise. The one exception is a malformed head, which is handed on as it is
/// with all that came behind it.
pub proof fn law_handed_on_heads_are_authorized(route: RouteView, pending: Seq<u8>)
    ensures
        forward::step(route, pending, BodyState::NoBody) matches StepView::Send(
            packet,
            left,
            next,
        ) ==> {
            &&& forward::head_of(pending) is Some
            &&& match forward::parsed_head(pending) {
                None => packet == pending && left == Seq::<u8>::empty() && next
                    == BodyState::NoBody,
                Some(head) => {
                    let target = forward::handed_on_target(
                        route,
                        urls::normal_target(forward::target_of(head)),
                    );
                    &&& head.complete
                    &&& target is Some
                    &&& route.auth_token matches Some(token) ==> http::carries(
                        head.headers,
                        route.auth_header,
                        token,
                    )
                    &&& packet == bytes::with_target(
                        forward::head_of(pending)->0,
                        vstd::utf8::encode_utf8(target->0),
                    )
                    &&& pending == forward::head_of(pending)->0 + left
                    &&& next == forward::body_after(head.headers)
                },
            }
        },
{
    forward::lemma_head_of(pending);
    if let Some(head) = forward::head_of(pending) {
        assert(pending =~= head + pending.skip(head.len() as int));
    }
}

/// Where the path names the tunnel, every well-formed request that is handed on is for the
/// tunnel that its connection is bound to, also where it comes behind others.
pub proof fn law_handed_on_requests_are_for_this_tunnel(route: RouteView, pending: Seq<u8>)
    requires
        route.named_by == NamedBy::Path,
        tunnel_id::is_canonical(route.tunnel_id),
        forward::judged(route, forward::parsed_head(pending)) is Forward,
    ensures
        paths::tunnel_of(
            urls::normal_target(forward::target_of(forward::parsed_head(pending)->0)),
        ) == Some(route.tunnel_id),
{
    let head = forward::parsed_head(pending)->0;
    paths::law_taken_off_ids_are_the_ones_found(
        urls::normal_target(forward::target_of(head)),
        route.tunnel_id,
    );
}

/// Where the host names the tunnel, a complete head that carries the token of the tunnel, if
/// there is one, is handed on with its target in normal form, whatever the path is.
pub proof fn law_hosts_need_no_path(route: RouteView, head: http::RequestHeadView)
    requires
        route.named_by == NamedBy::Host,
        head.complete,
        forward::authorized(route, head.headers),
    ensures
        forward::judged(route, Some(head)) == HeadVerdictView::Forward(
            urls::normal_target(forward::target_of(head)),
            forward::body_after(head.headers),
        ),
{
}

/// Whether `data` is all of the body of a request, and `next` all that comes behind it.
pub open spec fn is_whole_body(body: BodyState, data: Seq<u8>, next: Seq<u8>) -> bool {
    match body {
        BodyState::NoBody => data.len() == 0,
        BodyState::Fixed(n) => data.len() == n && n > 0,
        BodyState::Unknown => next.len() == 0,
    }
}

/// A request that may be handed on reaches the client whole and in order: its head with
/// its new target, then its body byte for byte. What comes behind it is
/// taken for the next request.
pub proof fn law_requests_are_handed_on_whole(
    route: RouteView,
    head: Seq<u8>,
    data: Seq<u8>,
    next: Seq<u8>,
    target: Seq<char>,
    body: BodyState,
)
    requires
        forward::is_one_head(head),
        forward::judged(route, forward::parsed_head(head)) == HeadVerdictView::Forward(
            target,
            body,
        ),
        is_whole_body(body, data, next),
    ensures
        ({
            let result = forward::drained(route, head + data + next, BodyState::NoBody);
            let rest = forward::drained(
                route,
                next,
                if body is Unknown {
                    BodyState::Unknown
                } else {
                    BodyState::NoBody
                },
            );
            &&& joined(result.packets) == bytes::with_target(
                head,
                vstd::utf8::encode_utf8(target),
            ) + data + joined(rest.packets)
            &&& result.pending == rest.pending
            &&& result.body == rest.body
            &&& result.refusal == rest.refusal
        }),
{
    let packet = bytes::with_target(head, vstd::utf8::encode_utf8(target));
    let all = head + data + next;
    let n = head.len() as int;
    assert(head.take(n) =~= head);
    assert(all =~= head + (data + next));
    lemma_same_head(head, data + next);
    assert(all.skip(n) =~= data + next);
    let after = forward::drained(route, data + next, body);
    lemma_joined_first(packet, after.packets);
    match body {
        BodyState::NoBody => {
            assert(data + next =~= next);
            assert(packet + data =~= packet);
        },
        BodyState::Fixed(_) => {
            law_bodies_pass_unchanged(route, data, next);
            let rest = forward::drained(route, next, BodyState::NoBody);
            lemma_joined_first(data, rest.packets);
            assert(packet + (data + joined(rest.packets)) =~= packet + data + joined(
                rest.packets,
            ));
        },
        BodyState::Unknown => {
            assert(data + next =~= data);
            law_chunked_streams_pass_unchanged(route, data);
            law_chunked_streams_pass_unchanged(route, next);
            assert(packet + data + joined(
                forward::drained(route, next, BodyState::Unknown).packets,
            ) =~= packet + data);
        },
    }
}

/// The answer to a request that is refused.
pub open spec fn refusal_response(refusal: Refusal) -> Response {
    match refusal {
        Refusal::NoTunnelPrefix => Response::NotFound,
        Refusal::Unauthorized => Response::Unauthorized,
    }
}

/// A request that does not name the tunnel is answered that there is no such tunnel, one
/// without the token that it is not authorized, and in both cases the client is told that
/// the connection ended and is kept.
pub proof fn law_refused_requests_are_answered(refusal: Refusal)
    ensures
        ({
            let closing = forward::closing_of(StreamEnd::Refused(refusal));
            &&& closing.notify is Some
            &&& sink::sink_action(closing.notify) == SinkActionView::Finish(
                Some(refusal_response(refusal)),
            )
            &&& closing.end_client
            &&& !closing.drop_client
        }),
{
}

/// Where the client of a tunnel is gone, the remote side is answered that there is no
/// such tunnel.
pub proof fn law_gone_clients_are_answered_for(state: ForwarderView)
    ensures
        ({
            let turn = forward::turn(state, StreamEventView::ClientGone);
            &&& turn.packets.len() == 0
            &&& turn.end == Some(StreamEnd::ClientGone)
            &&& sink::sink_action(forward::closing_of(StreamEnd::ClientGone).notify)
                == SinkActionView::Finish(Some(Response::NotFound))
        }),
{
}

} // verus!
