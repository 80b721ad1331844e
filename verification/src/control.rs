//! What a client is told of a connection: that it opens, what comes in on it, and that it
//! ends.

use crate::forward;
use crate::forward::BodyState;
use crate::forward::Forwarder;
use crate::forward::ForwarderView;
use crate::forward::Route;
use crate::forward::RouteView;
use crate::forward::StreamEnd;
use crate::forward::StreamEvent;
use crate::forward::StreamEventView;
use crate::forward_laws;
use crate::sink::StreamMessage;
use crate::sink::StreamMessageView;
use vstd::prelude::*;
use vstd::string::*;

verus! {

/// The name of the stream between a connection and a client.
#[derive(Debug, PartialEq, Eq, Hash)]
pub struct StreamId(pub String);

impl Clone for StreamId {
    fn clone(&self) -> (copy: StreamId)
        ensures
            copy.0@ == self.0@,
    {
        StreamId(self.0.clone())
    }
}

/// What is sent to a client.
#[derive(Debug)]
pub enum ControlPacket {
    /// A stream opens.
    Init(StreamId),
    /// These bytes came in on a stream.
    Data(StreamId, Vec<u8>),
    /// A stream ended.
    End(StreamId),
}

/// A `ControlPacket` with the text of its stream and its bytes.
pub enum ControlPacketView {
    Init(Seq<char>),
    Data(Seq<char>, Seq<u8>),
    End(Seq<char>),
}

impl View for ControlPacket {
    type V = ControlPacketView;

    open spec fn view(&self) -> ControlPacketView {
        match self {
            ControlPacket::Init(id) => ControlPacketView::Init(id.0@),
            ControlPacket::Data(id, data) => ControlPacketView::Data(id.0@, data@),
            ControlPacket::End(id) => ControlPacketView::End(id.0@),
        }
    }
}

/// The views of a list of packets.
pub open spec fn control_views(packets: Seq<ControlPacket>) -> Seq<ControlPacketView> {
    Seq::new(packets.len(), |i: int| packets[i]@)
}

/// The packets that carry these pieces of data.
pub open spec fn data_packets(id: Seq<char>, data: Seq<Seq<u8>>) -> Seq<ControlPacketView> {
    Seq::new(data.len(), |i: int| ControlPacketView::Data(id, data[i]))
}

/// The stream between a connection and the client of its tunnel. There is none before its
/// client was told of it, and none any more once it is closed.
pub struct ClientStream {
    id: StreamId,
    forwarder: Forwarder,
}

/// What a `ClientStream` holds, as mathematical values.
pub struct ClientStreamView {
    pub id: Seq<char>,
    pub forwarder: ForwarderView,
}

impl View for ClientStream {
    type V = ClientStreamView;

    closed spec fn view(&self) -> ClientStreamView {
        ClientStreamView { id: self.id.0@, forwarder: self.forwarder@ }
    }
}

/// A connection on which nothing was read yet.
pub open spec fn fresh(route: RouteView) -> ForwarderView {
    ForwarderView { route, pending: Seq::empty(), body: BodyState::NoBody }
}

/// What one turn makes of a stream: packets to send to the client, in order, and then the
/// end, where it comes to one.
pub struct StreamTurn {
    pub packets: Vec<ControlPacket>,
    pub end: Option<StreamEnd>,
}

/// What is to be done when a stream is closed, in the order of the fields.
pub struct StreamClosing {
    /// Say this to the remote side of the connection.
    pub notify: Option<StreamMessage>,
    /// Close the queue of messages to the remote side.
    pub close_queue: bool,
    /// Send this to the client, and nothing more.
    pub last: Option<ControlPacket>,
    /// Forget the client.
    pub drop_client: bool,
}

/// A `StreamClosing` with the views of its message and its packet.
pub struct StreamClosingView {
    pub notify: Option<StreamMessageView>,
    pub close_queue: bool,
    pub last: Option<ControlPacketView>,
    pub drop_client: bool,
}

impl View for StreamClosing {
    type V = StreamClosingView;

    open spec fn view(&self) -> StreamClosingView {
        StreamClosingView {
            notify: crate::sink::opt_message(self.notify),
            close_queue: self.close_queue,
            last: match self.last {
                Some(packet) => Some(packet@),
                None => None,
            },
            drop_client: self.drop_client,
        }
    }
}

/// The last packet to the client at an end, where it is told of the end.
pub open spec fn last_packet(id: Seq<char>, end: StreamEnd) -> Option<ControlPacketView> {
    if forward::closing_of(end).end_client {
        Some(ControlPacketView::End(id))
    } else {
        None
    }
}

impl ClientStream {
    /// Opens a stream. The packet that comes with it is the first that the client is sent.
    pub fn open(id: StreamId, route: Route) -> (opened: (ClientStream, ControlPacket))
        ensures
            opened.0@ == (ClientStreamView { id: id.0@, forwarder: fresh(route@) }),
            opened.1@ == ControlPacketView::Init(id.0@),
    {
        let first = ControlPacket::Init(id.clone());
        (ClientStream { id, forwarder: Forwarder::new(route) }, first)
    }

    /// Takes one turn at the remote side of the connection.
    pub fn turn(&mut self, event: StreamEvent) -> (turn: StreamTurn)
        ensures
            control_views(turn.packets@) == data_packets(
                old(self)@.id,
                forward::turn(old(self)@.forwarder, event@).packets,
            ),
            turn.end == forward::turn(old(self)@.forwarder, event@).end,
            final(self)@ == (ClientStreamView {
                id: old(self)@.id,
                forwarder: forward::after_turn(old(self)@.forwarder, event@),
            }),
    {
        let ghost id = self.id.0@;
        let turn = self.forwarder.process_tcp_stream(event);
        let ghost data = forward::packet_views(turn.packets@);
        let mut rest: Vec<Vec<u8>> = turn.packets;
        let mut packets: Vec<ControlPacket> = Vec::new();
        let n: usize = rest.len();
        let mut i: usize = 0;
        while i < n
            invariant
                i <= n,
                n == rest@.len(),
                n == data.len(),
                self.id.0@ == id,
                forall|j: int| i <= j < n ==> #[trigger] rest@[j]@ == data[j],
                packets@.len() == i,
                forall|j: int|
                    0 <= j < i ==> #[trigger] packets@[j]@ == ControlPacketView::Data(id, data[j]),
            decreases n - i,
        {
            let mut piece: Vec<u8> = Vec::new();
            std::mem::swap(&mut piece, &mut rest[i]);
            packets.push(ControlPacket::Data(self.id.clone(), piece));
            i = i + 1;
        }
        assert(control_views(packets@) =~= data_packets(id, data));
        StreamTurn { packets, end: turn.end }
    }

    /// Closes the stream.
    pub fn close(self, end: StreamEnd) -> (closing: StreamClosing)
        ensures
            closing@ == (StreamClosingView {
                notify: forward::closing_of(end).notify,
                close_queue: forward::closing_of(end).close_queue,
                last: last_packet(self@.id, end),
                drop_client: forward::closing_of(end).drop_client,
            }),
    {
        let closing = forward::closing(end);
        let last = if closing.end_client {
            Some(ControlPacket::End(self.id))
        } else {
            None
        };
        StreamClosing {
            notify: closing.notify,
            close_queue: closing.close_queue,
            last,
            drop_client: closing.drop_client,
        }
    }
}

/// What a client is sent of an open stream on which `events` happen, until it ends.
pub open spec fn sent_from(
    id: Seq<char>,
    state: ForwarderView,
    events: Seq<StreamEventView>,
) -> Seq<ControlPacketView>
    decreases events.len(),
{
    if events.len() == 0 {
        Seq::empty()
    } else {
        let turn = forward::turn(state, events[0]);
        data_packets(id, turn.packets) + match turn.end {
            Some(end) => match last_packet(id, end) {
                Some(packet) => seq![packet],
                None => Seq::empty(),
            },
            None => sent_from(id, forward::after_turn(state, events[0]), events.skip(1)),
        }
    }
}

/// What a client is sent of a stream on which `events` happen, from its opening on.
pub open spec fn sent_to_client(
    id: Seq<char>,
    route: RouteView,
    events: Seq<StreamEventView>,
) -> Seq<ControlPacketView> {
    seq![ControlPacketView::Init(id)] + sent_from(id, fresh(route), events)
}

/// Whether a packet may stand at position `i` of `len` behind the opening of a stream: it
/// carries data, or it is the last and says that the stream ended.
pub open spec fn in_its_place(packet: ControlPacketView, id: Seq<char>, i: int, len: nat) -> bool {
    match packet {
        ControlPacketView::Init(_) => false,
        ControlPacketView::Data(of, data) => of == id && data.len() > 0,
        ControlPacketView::End(of) => of == id && i == len - 1,
    }
}

/// What follows the opening of a stream.
proof fn lemma_sent_from(id: Seq<char>, state: ForwarderView, events: Seq<StreamEventView>)
    requires
        state.wf(),
    ensures
        forall|i: int|
            0 <= i < sent_from(id, state, events).len() ==> in_its_place(
                #[trigger] sent_from(id, state, events)[i],
                id,
                i,
                sent_from(id, state, events).len(),
            ),
    decreases events.len(),
{
    if events.len() > 0 {
        let turn = forward::turn(state, events[0]);
        let after = forward::after_turn(state, events[0]);
        let data = data_packets(id, turn.packets);
        let all = sent_from(id, state, events);
        let rest = all.skip(data.len() as int);
        forward_laws::law_turns_hand_on_no_empty_packets(state, events[0]);
        if turn.end is None {
            forward_laws::law_turns_keep_wf(state, events[0]);
            lemma_sent_from(id, after, events.skip(1));
            assert(rest =~= sent_from(id, after, events.skip(1)));
        }
        assert forall|i: int| 0 <= i < all.len() implies in_its_place(
            #[trigger] all[i],
            id,
            i,
            all.len(),
        ) by {
            if i < data.len() {
                assert(all[i] == data[i]);
                assert(turn.packets[i].len() > 0);
            } else {
                assert(all[i] == rest[i - data.len()]);
            }
        }
    }
}

/// The first thing that a client is sent of a stream is that it opens, before anything is
/// read, and it is sent that once. What follows is data, none of it empty, and at most one
/// end, behind which nothing comes. All of it carries the id of the stream. Where a packet
/// cannot be sent, those before it were, so that the same holds of them.
pub proof fn law_clients_see_streams_open_and_end(
    id: Seq<char>,
    route: RouteView,
    events: Seq<StreamEventView>,
)
    ensures
        sent_to_client(id, route, events).len() > 0,
        sent_to_client(id, route, events)[0] == ControlPacketView::Init(id),
        sent_to_client(id, route, Seq::empty()) == seq![ControlPacketView::Init(id)],
        forall|i: int|
            0 < i < sent_to_client(id, route, events).len() ==> in_its_place(
                #[trigger] sent_to_client(id, route, events)[i],
                id,
                i,
                sent_to_client(id, route, events).len(),
            ),
{
    let rest = sent_from(id, fresh(route), events);
    let all = sent_to_client(id, route, events);
    lemma_sent_from(id, fresh(route), events);
    assert(sent_to_client(id, route, Seq::empty()) =~= seq![ControlPacketView::Init(id)]);
    assert forall|i: int| 0 < i < all.len() implies in_its_place(
        #[trigger] all[i],
        id,
        i,
        all.len(),
    ) by {
        assert(all[i] == rest[i - 1]);
    }
}

/// The data of a connection is sent to its client piece by piece, in order and unchanged,
/// and an end is sent exactly where the remote side closed or a request was refused.
pub proof fn law_data_is_sent_unchanged(id: Seq<char>, data: Seq<Seq<u8>>, end: StreamEnd)
    ensures
        data_packets(id, data).len() == data.len(),
        forall|i: int|
            0 <= i < data.len() ==> #[trigger] data_packets(id, data)[i] == ControlPacketView::Data(
                id,
                data[i],
            ),
        last_packet(id, end) == Some(ControlPacketView::End(id)) <==> end == StreamEnd::Ended
            || end is Refused,
        last_packet(id, end) is None <==> end == StreamEnd::ClientGone || end
            == StreamEnd::ReadFailed || end == StreamEnd::SendFailed,
{
}

/// The views of packets and closings say all that they say.
pub proof fn law_packets_are_seen_whole(packets: Seq<ControlPacket>, closing: StreamClosing)
    ensures
        control_views(packets).len() == packets.len(),
        forall|i: int|
            0 <= i < packets.len() ==> (#[trigger] control_views(packets)[i] == match packets[i] {
                ControlPacket::Init(id) => ControlPacketView::Init(id.0@),
                ControlPacket::Data(id, data) => ControlPacketView::Data(id.0@, data@),
                ControlPacket::End(id) => ControlPacketView::End(id.0@),
            }),
        closing@.notify == crate::sink::opt_message(closing.notify),
        closing@.close_queue == closing.close_queue,
        closing@.last is Some <==> closing.last is Some,
        closing.last is Some ==> closing@.last == Some(closing.last->0@),
        closing@.drop_client == closing.drop_client,
{
}

} // verus!
