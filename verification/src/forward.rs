//! From the remote side to the client: cutting a stream into requests, and handing each
//! on to the client of its tunnel.

use crate::bytes;
use crate::http;
use crate::http::RequestHead;
use crate::http::RequestHeadView;
use crate::paths;
use crate::sink::StreamMessage;
use crate::sink::StreamMessageView;
use crate::text;
use crate::tunnel_id::NamedBy;
use crate::urls;
use vstd::prelude::*;
use vstd::string::*;

verus! {

/// How many headers a request may have.
pub const MAX_HEADERS: usize = 64;

/// What is still to come of the request that is being handed on.
#[derive(Clone, Copy, Debug, PartialEq, Eq, Structural)]
pub enum BodyState {
    /// Nothing: the next thing is the head of a request.
    NoBody,
    /// So many bytes of a body.
    Fixed(usize),
    /// A body of unknown length; all that follows is taken for a part of it.
    Unknown,
}

/// Why a request is not handed on.
#[derive(Clone, Copy, Debug, PartialEq, Eq, Structural)]
pub enum Refusal {
    /// Its path should name the tunnel that the connection is bound to, and does not.
    NoTunnelPrefix,
    /// It lacks the token of the tunnel.
    Unauthorized,
}

/// The tunnel that a connection is bound to.
pub struct Route {
    pub tunnel_id: String,
    /// What names the tunnel.
    pub named_by: NamedBy,
    /// The name of the header that carries the token.
    pub auth_header: String,
    /// The token, where the tunnel is protected by one.
    pub auth_token: Option<String>,
}

/// The texts of a `Route`.
pub struct RouteView {
    pub tunnel_id: Seq<char>,
    pub named_by: NamedBy,
    pub auth_header: Seq<char>,
    pub auth_token: Option<Seq<char>>,
}

impl View for Route {
    type V = RouteView;

    open spec fn view(&self) -> RouteView {
        RouteView {
            tunnel_id: self.tunnel_id@,
            named_by: self.named_by,
            auth_header: self.auth_header@,
            auth_token: text::opt_text(self.auth_token),
        }
    }
}

/// What is to be done about the head of a request.
pub enum HeadVerdict {
    /// It is no request.
    Malformed,
    /// It is not complete.
    Incomplete,
    /// The request is not to be handed on.
    Refuse(Refusal),
    /// The request is to be handed on with this target, and this is what follows the head.
    Forward(String, BodyState),
}

/// A `HeadVerdict` with the text of its target.
pub enum HeadVerdictView {
    Malformed,
    Incomplete,
    Refuse(Refusal),
    Forward(Seq<char>, BodyState),
}

impl View for HeadVerdict {
    type V = HeadVerdictView;

    open spec fn view(&self) -> HeadVerdictView {
        match self {
            HeadVerdict::Malformed => HeadVerdictView::Malformed,
            HeadVerdict::Incomplete => HeadVerdictView::Incomplete,
            HeadVerdict::Refuse(refusal) => HeadVerdictView::Refuse(*refusal),
            HeadVerdict::Forward(target, body) => HeadVerdictView::Forward(target@, *body),
        }
    }
}

/// The target of a request, empty where it has none.
pub open spec fn target_of(head: RequestHeadView) -> Seq<char> {
    match head.path {
        Some(path) => path,
        None => Seq::empty(),
    }
}

/// What follows a head with these headers.
pub open spec fn body_after(headers: Seq<http::HeaderView>) -> BodyState {
    if http::chunked(headers) {
        BodyState::Unknown
    } else {
        match http::declared_length(headers) {
            Some(n) => if n == 0 {
                BodyState::NoBody
            } else {
                BodyState::Fixed(n)
            },
            None => BodyState::NoBody,
        }
    }
}

/// Whether a request may use the tunnel.
pub open spec fn authorized(route: RouteView, headers: Seq<http::HeaderView>) -> bool {
    match route.auth_token {
        Some(token) => http::carries(headers, route.auth_header, token),
        None => true,
    }
}

/// The target that a request is handed on with, given its target in normal form. Where the
/// path names the tunnel, the tunnel is taken off; `None` where the path does not name it.
/// Where the host names the tunnel, the target stays as it is.
pub open spec fn handed_on_target(route: RouteView, target: Seq<char>) -> Option<Seq<char>> {
    match route.named_by {
        NamedBy::Path => paths::without_tunnel(target, route.tunnel_id),
        NamedBy::Host => Some(target),
    }
}

/// What is to be done about a head, given what parsing found in it.
pub open spec fn judged(route: RouteView, parsed: Option<RequestHeadView>) -> HeadVerdictView {
    match parsed {
        None => HeadVerdictView::Malformed,
        Some(head) => if !head.complete {
            HeadVerdictView::Incomplete
        } else {
            match handed_on_target(route, urls::normal_target(target_of(head))) {
                None => HeadVerdictView::Refuse(Refusal::NoTunnelPrefix),
                Some(target) => if !authorized(route, head.headers) {
                    HeadVerdictView::Refuse(Refusal::Unauthorized)
                } else {
                    HeadVerdictView::Forward(target, body_after(head.headers))
                },
            }
        },
    }
}

/// Whether the target of a parsed head, where it has one, is free of spaces and control
/// characters below the space.
pub open spec fn has_unspaced_target(parsed: Option<RequestHeadView>) -> bool {
    parsed matches Some(head) ==> text::is_unspaced(target_of(head))
}

/// Decides about the head of a request, given what parsing found in it.
pub fn judge_head(route: &Route, parsed: Option<RequestHead>) -> (verdict: HeadVerdict)
    ensures
        verdict@ == judged(route@, http::opt_head(parsed)),
        has_unspaced_target(http::opt_head(parsed)) ==> (verdict matches HeadVerdict::Forward(
            target,
            _,
        ) ==> text::is_unspaced(target@)),
{
    let head = match parsed {
        Some(head) => head,
        None => return HeadVerdict::Malformed,
    };
    if !head.complete {
        return HeadVerdict::Incomplete;
    }
    let path = match head.path {
        Some(path) => path,
        None => String::new(),
    };
    let normalized = urls::normalize_path(path.as_str());
    let target = match route.named_by {
        NamedBy::Host => normalized,
        NamedBy::Path => match paths::strip_tunnel_prefix(
            normalized.as_str(),
            route.tunnel_id.as_str(),
        ) {
            Some(target) => target,
            None => return HeadVerdict::Refuse(Refusal::NoTunnelPrefix),
        },
    };
    if let Some(expected) = &route.auth_token {
        if !http::auth_header_matches(
            head.headers.as_slice(),
            route.auth_header.as_str(),
            expected.as_str(),
        ) {
            return HeadVerdict::Refuse(Refusal::Unauthorized);
        }
    }
    if http::has_chunked_body(head.headers.as_slice()) {
        return HeadVerdict::Forward(target, BodyState::Unknown);
    }
    let length: usize = match http::content_length(head.headers.as_slice()) {
        Some(n) => n,
        None => 0,
    };
    if length == 0 {
        HeadVerdict::Forward(target, BodyState::NoBody)
    } else {
        HeadVerdict::Forward(target, BodyState::Fixed(length))
    }
}

/// The next thing to do with the bytes of a connection that were not handed on yet.
pub enum StepView {
    /// Nothing, until more bytes come.
    AwaitRead,
    /// Hand these bytes on; these are left, and this is still to come.
    Send(Seq<u8>, Seq<u8>, BodyState),
    /// End the connection.
    Refuse(Refusal),
}

/// The head of a request that `pending` starts with, where it holds all of it.
pub open spec fn head_of(pending: Seq<u8>) -> Option<Seq<u8>> {
    match bytes::header_end(pending) {
        Some(end) => Some(pending.take(end)),
        None => None,
    }
}

/// What to do with `pending`, given the verdict on the head that it starts with.
pub open spec fn head_step(pending: Seq<u8>, head: Seq<u8>, verdict: HeadVerdictView) -> StepView {
    match verdict {
        HeadVerdictView::Malformed => StepView::Send(pending, Seq::empty(), BodyState::NoBody),
        HeadVerdictView::Incomplete => StepView::AwaitRead,
        HeadVerdictView::Refuse(refusal) => StepView::Refuse(refusal),
        HeadVerdictView::Forward(target, body) => StepView::Send(
            bytes::with_target(head, vstd::utf8::encode_utf8(target)),
            pending.skip(head.len() as int),
            body,
        ),
    }
}

/// The smaller of a number and a length.
pub open spec fn at_most(n: usize, len: nat) -> int {
    if n <= len {
        n as int
    } else {
        len as int
    }
}

/// The next thing to do on a connection with `pending` bytes and `body` still to come,
/// given what parsing found in the head that `pending` starts with.
pub open spec fn step_given(
    route: RouteView,
    pending: Seq<u8>,
    body: BodyState,
    parsed: Option<RequestHeadView>,
) -> StepView {
    match body {
        BodyState::Unknown => if pending.len() == 0 {
            StepView::AwaitRead
        } else {
            StepView::Send(pending, Seq::empty(), BodyState::Unknown)
        },
        BodyState::Fixed(remaining) => if pending.len() == 0 {
            StepView::AwaitRead
        } else {
            let take = at_most(remaining, pending.len());
            StepView::Send(
                pending.take(take),
                pending.skip(take),
                if take == remaining {
                    BodyState::NoBody
                } else {
                    BodyState::Fixed((remaining - take) as usize)
                },
            )
        },
        BodyState::NoBody => match head_of(pending) {
            None => StepView::AwaitRead,
            Some(head) => head_step(pending, head, judged(route, parsed)),
        },
    }
}

/// What parsing finds in the head that `pending` starts with.
pub open spec fn parsed_head(pending: Seq<u8>) -> Option<RequestHeadView> {
    match head_of(pending) {
        Some(head) => http::parsed_request(head, MAX_HEADERS as nat),
        None => None,
    }
}

/// The next thing to do on a connection with `pending` bytes and `body` still to come.
pub open spec fn step(route: RouteView, pending: Seq<u8>, body: BodyState) -> StepView {
    step_given(route, pending, body, parsed_head(pending))
}

/// A head is at least an empty line long, and no longer than what it was cut from.
pub proof fn lemma_head_of(pending: Seq<u8>)
    ensures
        bytes::header_end(pending) matches Some(end) ==> 4 <= end <= pending.len(),
        head_of(pending) matches Some(head) ==> 4 <= head.len() <= pending.len(),
{
    bytes::lemma_found(pending, bytes::blank_line());
}

/// What comes of the bytes of a connection, before more are read.
pub struct Drained {
    /// What is handed on, piece by piece.
    pub packets: Seq<Seq<u8>>,
    /// What is left.
    pub pending: Seq<u8>,
    /// What is still to come of the request.
    pub body: BodyState,
    /// Why the connection ends, where it does.
    pub refusal: Option<Refusal>,
}

/// What comes of `pending` bytes with `body` still to come: one step after the other,
/// until more bytes are needed or a request is refused.
pub open spec fn drained(route: RouteView, pending: Seq<u8>, body: BodyState) -> Drained
    decreases
            pending.len(),
            if body is Fixed {
                1int
            } else {
                0int
            },
{
    proof {
        lemma_head_of(pending);
    }
    match step(route, pending, body) {
        StepView::AwaitRead => Drained { packets: Seq::empty(), pending, body, refusal: None },
        StepView::Refuse(refusal) => Drained {
            packets: Seq::empty(),
            pending,
            body,
            refusal: Some(refusal),
        },
        StepView::Send(packet, left, next) => {
            let rest = drained(route, left, next);
            Drained { packets: seq![packet] + rest.packets, ..rest }
        },
    }
}

/// The next thing to do with the bytes of a connection.
pub enum Step {
    /// Nothing, until more bytes come.
    AwaitRead,
    /// Hand these bytes on.
    Send(Vec<u8>),
    /// End the connection.
    Refuse(Refusal),
}

/// One connection from the remote side, bound to a tunnel.
pub struct Forwarder {
    route: Route,
    pending: Vec<u8>,
    body_state: BodyState,
}

/// What a `Forwarder` holds, as mathematical values.
pub struct ForwarderView {
    pub route: RouteView,
    pub pending: Seq<u8>,
    pub body: BodyState,
}

impl View for Forwarder {
    type V = ForwarderView;

    closed spec fn view(&self) -> ForwarderView {
        ForwarderView { route: self.route@, pending: self.pending@, body: self.body_state }
    }
}

impl ForwarderView {
    /// A body that is still to come is not empty.
    pub open spec fn wf(self) -> bool {
        self.body != BodyState::Fixed(0)
    }

    /// What a step makes of the connection.
    pub open spec fn after(self, step: StepView) -> ForwarderView {
        match step {
            StepView::Send(_, pending, body) => ForwarderView { pending, body, ..self },
            _ => self,
        }
    }
}

/// The step that a `Step` stands for, on the connection that it leaves behind.
pub open spec fn step_view(step: Step, left: ForwarderView) -> StepView {
    match step {
        Step::AwaitRead => StepView::AwaitRead,
        Step::Send(packet) => StepView::Send(packet@, left.pending, left.body),
        Step::Refuse(refusal) => StepView::Refuse(refusal),
    }
}

/// Whether `packet` is one whole head.
pub open spec fn is_one_head(packet: Seq<u8>) -> bool {
    bytes::header_end(packet) == Some(packet.len() as int)
}

impl Forwarder {
    /// A connection on which nothing was read yet.
    pub fn new(route: Route) -> (forwarder: Forwarder)
        ensures
            forwarder@ == (ForwarderView {
                route: route@,
                pending: Seq::empty(),
                body: BodyState::NoBody,
            }),
            forwarder@.wf(),
    {
        Forwarder { route, pending: Vec::new(), body_state: BodyState::NoBody }
    }

    /// Takes the first `n` bytes off those that were not handed on yet.
    fn take(&mut self, n: usize) -> (front: Vec<u8>)
        requires
            n <= old(self).pending@.len(),
        ensures
            front@ == old(self).pending@.take(n as int),
            final(self).pending@ == old(self).pending@.skip(n as int),
            final(self).route == old(self).route,
            final(self).body_state == old(self).body_state,
    {
        let ghost before = self.pending@;
        let mut rest: Vec<u8> = self.pending.split_off(n);
        assert(self.pending@ =~= before.take(n as int));
        assert(rest@ =~= before.skip(n as int));
        std::mem::swap(&mut self.pending, &mut rest);
        rest
    }

    /// Parses the head that the bytes which were not handed on yet start with.
    fn parse_head(&self) -> (parsed: Option<RequestHead>)
        ensures
            http::opt_head(parsed) == parsed_head(self@.pending),
            has_unspaced_target(http::opt_head(parsed)),
    {
        match bytes::find_header_end(self.pending.as_slice()) {
            Some(end) => {
                let head = vstd::slice::slice_subrange(self.pending.as_slice(), 0, end);
                assert(head@ =~= self.pending@.take(end as int));
                http::parse_request::<MAX_HEADERS>(head)
            },
            None => None,
        }
    }

    /// Does the next thing with the bytes that were read, given what parsing found in the
    /// head that they start with. A head that is handed on is one whole head.
    pub fn take_step(&mut self, parsed: Option<RequestHead>) -> (next: Step)
        ensures
            step_view(next, final(self)@) == step_given(
                old(self)@.route,
                old(self)@.pending,
                old(self)@.body,
                http::opt_head(parsed),
            ),
            final(self)@ == old(self)@.after(step_view(next, final(self)@)),
            old(self)@.wf() ==> final(self)@.wf(),
            old(self)@.body is NoBody && has_unspaced_target(http::opt_head(parsed)) && judged(
                old(self)@.route,
                http::opt_head(parsed),
            ) is Forward ==> (next matches Step::Send(packet) ==> is_one_head(packet@)),
    {
        match self.body_state {
            BodyState::Unknown => {
                if self.pending.is_empty() {
                    return Step::AwaitRead;
                }
                let all: usize = self.pending.len();
                let packet = self.take(all);
                assert(packet@ =~= old(self).pending@);
                assert(self.pending@ =~= Seq::<u8>::empty());
                Step::Send(packet)
            },
            BodyState::Fixed(remaining) => {
                if self.pending.is_empty() {
                    return Step::AwaitRead;
                }
                let available: usize = self.pending.len();
                let take: usize = if remaining <= available {
                    remaining
                } else {
                    available
                };
                let chunk = self.take(take);
                self.body_state = if take == remaining {
                    BodyState::NoBody
                } else {
                    BodyState::Fixed(remaining - take)
                };
                Step::Send(chunk)
            },
            BodyState::NoBody => {
                let end: usize = match bytes::find_header_end(self.pending.as_slice()) {
                    Some(end) => end,
                    None => return Step::AwaitRead,
                };
                let ghost unspaced = has_unspaced_target(http::opt_head(parsed));
                match judge_head(&self.route, parsed) {
                    HeadVerdict::Malformed => {
                        let all: usize = self.pending.len();
                        let packet = self.take(all);
                        assert(packet@ =~= old(self).pending@);
                        assert(self.pending@ =~= Seq::<u8>::empty());
                        Step::Send(packet)
                    },
                    HeadVerdict::Incomplete => Step::AwaitRead,
                    HeadVerdict::Refuse(refusal) => Step::Refuse(refusal),
                    HeadVerdict::Forward(target, body) => {
                        let head = self.take(end);
                        let packet = bytes::rewrite_request_path(head.as_slice(), target.as_str());
                        proof {
                            if unspaced {
                                bytes::lemma_unspaced_target(target@);
                                bytes::lemma_head_is_one_head(old(self).pending@);
                                bytes::law_rewrite_keeps_one_head(
                                    head@,
                                    vstd::utf8::encode_utf8(target@),
                                );
                            }
                        }
                        self.body_state = body;
                        Step::Send(packet)
                    },
                }
            },
        }
    }

    /// Does the next thing with the bytes that were read.
    pub fn next_step(&mut self) -> (next: Step)
        ensures
            step_view(next, final(self)@) == step(
                old(self)@.route,
                old(self)@.pending,
                old(self)@.body,
            ),
            final(self)@ == old(self)@.after(step_view(next, final(self)@)),
            old(self)@.wf() ==> final(self)@.wf(),
            old(self)@.body is NoBody && judged(
                old(self)@.route,
                parsed_head(old(self)@.pending),
            ) is Forward ==> (next matches Step::Send(packet) ==> is_one_head(packet@)),
    {
        let parsed = match self.body_state {
            BodyState::NoBody => self.parse_head(),
            _ => None,
        };
        self.take_step(parsed)
    }
}

/// The bytes of a list of packets.
pub open spec fn packet_views(packets: Seq<Vec<u8>>) -> Seq<Seq<u8>> {
    Seq::new(packets.len(), |i: int| packets[i]@)
}

/// What one turn at the remote side of a connection found.
pub enum StreamEvent {
    /// The client of the tunnel is no longer connected.
    ClientGone,
    /// Reading failed.
    ReadFailed,
    /// These bytes were read; none where the remote side closed.
    Read(Vec<u8>),
}

/// A `StreamEvent` with its bytes.
pub enum StreamEventView {
    ClientGone,
    ReadFailed,
    Read(Seq<u8>),
}

impl View for StreamEvent {
    type V = StreamEventView;

    open spec fn view(&self) -> StreamEventView {
        match self {
            StreamEvent::ClientGone => StreamEventView::ClientGone,
            StreamEvent::ReadFailed => StreamEventView::ReadFailed,
            StreamEvent::Read(data) => StreamEventView::Read(data@),
        }
    }
}

/// Why nothing more is handed on.
#[derive(Clone, Copy, Debug, PartialEq, Eq, Structural)]
pub enum StreamEnd {
    /// The client of the tunnel is no longer connected.
    ClientGone,
    /// Reading failed.
    ReadFailed,
    /// The remote side closed.
    Ended,
    /// A request is not to be handed on.
    Refused(Refusal),
    /// A packet could not be handed on: the client went away.
    SendFailed,
}

/// What one turn makes of a connection: packets to hand on, in order, and then the end,
/// where it comes to one.
pub struct Turn {
    pub packets: Vec<Vec<u8>>,
    pub end: Option<StreamEnd>,
}

/// A `Turn` with the bytes of its packets.
pub struct TurnView {
    pub packets: Seq<Seq<u8>>,
    pub end: Option<StreamEnd>,
}

impl View for Turn {
    type V = TurnView;

    open spec fn view(&self) -> TurnView {
        TurnView { packets: packet_views(self.packets@), end: self.end }
    }
}

/// The end that a refusal is.
pub open spec fn refused_end(refusal: Option<Refusal>) -> Option<StreamEnd> {
    match refusal {
        Some(r) => Some(StreamEnd::Refused(r)),
        None => None,
    }
}

/// What a connection does about what a turn found.
pub open spec fn turn(state: ForwarderView, event: StreamEventView) -> TurnView {
    match event {
        StreamEventView::ClientGone => TurnView {
            packets: Seq::empty(),
            end: Some(StreamEnd::ClientGone),
        },
        StreamEventView::ReadFailed => TurnView {
            packets: Seq::empty(),
            end: Some(StreamEnd::ReadFailed),
        },
        StreamEventView::Read(data) => if data.len() == 0 {
            TurnView { packets: Seq::empty(), end: Some(StreamEnd::Ended) }
        } else {
            let result = drained(state.route, state.pending + data, state.body);
            TurnView { packets: result.packets, end: refused_end(result.refusal) }
        },
    }
}

/// What is left of a connection after a turn.
pub open spec fn after_turn(state: ForwarderView, event: StreamEventView) -> ForwarderView {
    match event {
        StreamEventView::Read(data) => if data.len() == 0 {
            state
        } else {
            let result = drained(state.route, state.pending + data, state.body);
            ForwarderView { route: state.route, pending: result.pending, body: result.body }
        },
        _ => state,
    }
}

impl Forwarder {
    /// Hands on what can be handed on of the bytes that were read.
    fn drain(&mut self) -> (turn: Turn)
        ensures
            turn@.packets == drained(old(self)@.route, old(self)@.pending, old(self)@.body).packets,
            turn@.end == refused_end(
                drained(old(self)@.route, old(self)@.pending, old(self)@.body).refusal,
            ),
            final(self)@.route == old(self)@.route,
            final(self)@.pending == drained(
                old(self)@.route,
                old(self)@.pending,
                old(self)@.body,
            ).pending,
            final(self)@.body == drained(
                old(self)@.route,
                old(self)@.pending,
                old(self)@.body,
            ).body,
            old(self)@.wf() ==> final(self)@.wf(),
    {
        let ghost before = self@;
        let ghost whole = drained(before.route, before.pending, before.body);
        let mut packets: Vec<Vec<u8>> = Vec::new();
        assert(packet_views(packets@) + whole.packets =~= whole.packets);
        loop
            invariant
                before == old(self)@,
                self@.route == before.route,
                before.wf() ==> self@.wf(),
                whole == drained(before.route, before.pending, before.body),
                ({
                    let rest = drained(self@.route, self@.pending, self@.body);
                    &&& whole.packets == packet_views(packets@) + rest.packets
                    &&& whole.pending == rest.pending
                    &&& whole.body == rest.body
                    &&& whole.refusal == rest.refusal
                }),
            decreases
                    self@.pending.len(),
                    if self@.body is Fixed {
                        1int
                    } else {
                        0int
                    },
        {
            let ghost here = self@;
            proof {
                lemma_head_of(here.pending);
            }
            match self.next_step() {
                Step::AwaitRead => {
                    assert(packet_views(packets@) + Seq::<Seq<u8>>::empty() =~= packet_views(
                        packets@,
                    ));
                    return Turn { packets, end: None };
                },
                Step::Refuse(refusal) => {
                    assert(packet_views(packets@) + Seq::<Seq<u8>>::empty() =~= packet_views(
                        packets@,
                    ));
                    return Turn { packets, end: Some(StreamEnd::Refused(refusal)) };
                },
                Step::Send(packet) => {
                    let ghost sent = packet@;
                    let ghost rest = drained(self@.route, self@.pending, self@.body);
                    let ghost sent_before = packet_views(packets@);
                    packets.push(packet);
                    assert(packet_views(packets@) =~= sent_before.push(sent));
                    assert(sent_before + (seq![sent] + rest.packets) =~= sent_before.push(sent)
                        + rest.packets);
                },
            }
        }
    }

    /// Takes one turn at the remote side of a connection.
    pub fn process_tcp_stream(&mut self, event: StreamEvent) -> (result: Turn)
        ensures
            result@ == turn(old(self)@, event@),
            final(self)@ == after_turn(old(self)@, event@),
            old(self)@.wf() ==> final(self)@.wf(),
    {
        assert(packet_views(Seq::empty()) =~= Seq::<Seq<u8>>::empty());
        match event {
            StreamEvent::ClientGone => Turn {
                packets: Vec::new(),
                end: Some(StreamEnd::ClientGone),
            },
            StreamEvent::ReadFailed => Turn {
                packets: Vec::new(),
                end: Some(StreamEnd::ReadFailed),
            },
            StreamEvent::Read(data) => {
                if data.is_empty() {
                    return Turn { packets: Vec::new(), end: Some(StreamEnd::Ended) };
                }
                self.pending.extend_from_slice(data.as_slice());
                assert(self.pending@ =~= old(self).pending@ + data@);
                self.drain()
            },
        }
    }
}

/// What is to be done when nothing more is handed on, in the order of the fields.
pub struct Closing {
    /// Say this to the remote side of the connection.
    pub notify: Option<StreamMessage>,
    /// Close the queue of messages to the remote side.
    pub close_queue: bool,
    /// Tell the client that the connection ended.
    pub end_client: bool,
    /// Forget the client.
    pub drop_client: bool,
}

/// A `Closing` with the view of its message.
pub struct ClosingView {
    pub notify: Option<StreamMessageView>,
    pub close_queue: bool,
    pub end_client: bool,
    pub drop_client: bool,
}

impl View for Closing {
    type V = ClosingView;

    open spec fn view(&self) -> ClosingView {
        ClosingView {
            notify: crate::sink::opt_message(self.notify),
            close_queue: self.close_queue,
            end_client: self.end_client,
            drop_client: self.drop_client,
        }
    }
}

/// What is to be done at an end.
pub open spec fn closing_of(end: StreamEnd) -> ClosingView {
    ClosingView {
        notify: match end {
            StreamEnd::ClientGone => Some(StreamMessageView::NoClientTunnel),
            StreamEnd::Refused(Refusal::NoTunnelPrefix) => Some(StreamMessageView::NoClientTunnel),
            StreamEnd::Refused(Refusal::Unauthorized) => Some(StreamMessageView::Unauthorized),
            _ => None,
        },
        close_queue: end is ClientGone,
        end_client: end is Ended || end is Refused,
        drop_client: end is SendFailed,
    }
}

/// Decides what is to be done at an end.
pub fn closing(end: StreamEnd) -> (result: Closing)
    ensures
        result@ == closing_of(end),
{
    match end {
        StreamEnd::ClientGone => Closing {
            notify: Some(StreamMessage::NoClientTunnel),
            close_queue: true,
            end_client: false,
            drop_client: false,
        },
        StreamEnd::ReadFailed => Closing {
            notify: None,
            close_queue: false,
            end_client: false,
            drop_client: false,
        },
        StreamEnd::Ended => Closing {
            notify: None,
            close_queue: false,
            end_client: true,
            drop_client: false,
        },
        StreamEnd::Refused(Refusal::NoTunnelPrefix) => Closing {
            notify: Some(StreamMessage::NoClientTunnel),
            close_queue: false,
            end_client: true,
            drop_client: false,
        },
        StreamEnd::Refused(Refusal::Unauthorized) => Closing {
            notify: Some(StreamMessage::Unauthorized),
            close_queue: false,
            end_client: true,
            drop_client: false,
        },
        StreamEnd::SendFailed => Closing {
            notify: None,
            close_queue: false,
            end_client: false,
            drop_client: true,
        },
    }
}

} // verus!
