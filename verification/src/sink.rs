//! From the client to the remote side: what the messages of a client make of a
//! connection.

use crate::forward_laws;
use crate::responses::Response;
use vstd::prelude::*;

verus! {

/// What the client of a tunnel, or the server for it, says to a connection.
pub enum StreamMessage {
    /// Bytes to write.
    Data(Vec<u8>),
    /// The client refused the connection.
    TunnelRefused,
    /// There is no client for the tunnel.
    NoClientTunnel,
    /// The request may not use the tunnel.
    Unauthorized,
}

/// A `StreamMessage` with the bytes that it carries.
pub enum StreamMessageView {
    Data(Seq<u8>),
    TunnelRefused,
    NoClientTunnel,
    Unauthorized,
}

impl View for StreamMessage {
    type V = StreamMessageView;

    open spec fn view(&self) -> StreamMessageView {
        match self {
            StreamMessage::Data(data) => StreamMessageView::Data(data@),
            StreamMessage::TunnelRefused => StreamMessageView::TunnelRefused,
            StreamMessage::NoClientTunnel => StreamMessageView::NoClientTunnel,
            StreamMessage::Unauthorized => StreamMessageView::Unauthorized,
        }
    }
}

/// What is to be done about a message.
pub enum SinkAction {
    /// Write these bytes to the connection, and go on with the next message.
    Write(Vec<u8>),
    /// Write this answer, if there is one, then shut the connection down and forget it.
    Finish(Option<Response>),
}

/// A `SinkAction` with the bytes that it carries.
pub enum SinkActionView {
    Write(Seq<u8>),
    Finish(Option<Response>),
}

impl View for SinkAction {
    type V = SinkActionView;

    open spec fn view(&self) -> SinkActionView {
        match self {
            SinkAction::Write(data) => SinkActionView::Write(data@),
            SinkAction::Finish(response) => SinkActionView::Finish(*response),
        }
    }
}

/// The view of an optional message.
pub open spec fn opt_message(message: Option<StreamMessage>) -> Option<StreamMessageView> {
    match message {
        Some(m) => Some(m@),
        None => None,
    }
}

/// What is to be done about the next message of a connection, or about there being none
/// any more.
pub open spec fn sink_action(message: Option<StreamMessageView>) -> SinkActionView {
    match message {
        Some(StreamMessageView::Data(data)) => SinkActionView::Write(data),
        Some(StreamMessageView::TunnelRefused) => SinkActionView::Finish(
            Some(Response::TunnelRefused),
        ),
        Some(StreamMessageView::NoClientTunnel) => SinkActionView::Finish(
            Some(Response::NotFound),
        ),
        Some(StreamMessageView::Unauthorized) => SinkActionView::Finish(
            Some(Response::Unauthorized),
        ),
        None => SinkActionView::Finish(None),
    }
}

/// Decides about the next message of a connection, or about there being none any more.
pub fn tunnel_to_stream(message: Option<StreamMessage>) -> (action: SinkAction)
    ensures
        action@ == sink_action(opt_message(message)),
{
    match message {
        Some(StreamMessage::Data(data)) => SinkAction::Write(data),
        Some(StreamMessage::TunnelRefused) => SinkAction::Finish(Some(Response::TunnelRefused)),
        Some(StreamMessage::NoClientTunnel) => SinkAction::Finish(Some(Response::NotFound)),
        Some(StreamMessage::Unauthorized) => SinkAction::Finish(Some(Response::Unauthorized)),
        None => SinkAction::Finish(None),
    }
}

/// What to do once bytes were written.
#[derive(Clone, Copy, Debug, PartialEq, Eq, Structural)]
pub enum AfterWrite {
    /// Take the next message.
    NextMessage,
    /// Leave the connection as it is: the other side closed it.
    Abandon,
}

/// Decides how to go on after bytes were written, or could not be.
pub fn after_write(written: bool) -> (next: AfterWrite)
    ensures
        next == (if written {
            AfterWrite::NextMessage
        } else {
            AfterWrite::Abandon
        }),
{
    if written {
        AfterWrite::NextMessage
    } else {
        AfterWrite::Abandon
    }
}

/// All that the messages of a client write to its connection: the bytes of the messages as
/// long as they carry data.
pub open spec fn written_of(messages: Seq<StreamMessageView>) -> Seq<u8>
    decreases messages.len(),
{
    if messages.len() == 0 {
        Seq::empty()
    } else {
        match sink_action(Some(messages[0])) {
            SinkActionView::Write(data) => data + written_of(messages.skip(1)),
            SinkActionView::Finish(_) => Seq::empty(),
        }
    }
}

/// The data of a message is written whole and unchanged.
pub proof fn law_data_is_written_whole(data: Seq<u8>)
    ensures
        sink_action(Some(StreamMessageView::Data(data))) == SinkActionView::Write(data),
{
}

/// What a client sends in any number of messages is what is written, byte for byte and in
/// order, and nothing else.
pub proof fn law_what_is_sent_is_written(pieces: Seq<Seq<u8>>, messages: Seq<StreamMessageView>)
    requires
        messages.len() == pieces.len(),
        forall|i: int|
            0 <= i < pieces.len() ==> #[trigger] messages[i] == StreamMessageView::Data(pieces[i]),
    ensures
        written_of(messages) == forward_laws::joined(pieces),
    decreases pieces.len(),
{
    if pieces.len() > 0 {
        assert(messages[0] == StreamMessageView::Data(pieces[0]));
        let rest = messages.skip(1);
        assert forall|i: int| 0 <= i < rest.len() implies #[trigger] rest[i]
            == StreamMessageView::Data(pieces.skip(1)[i]) by {
            assert(rest[i] == messages[i + 1]);
        }
        law_what_is_sent_is_written(pieces.skip(1), rest);
    }
}

/// A connection goes on exactly as long as its messages carry data. Any other message, and
/// the end of the messages, finishes it; a message is answered in plain words, the end is
/// not.
pub proof fn law_only_data_keeps_a_connection_open(message: Option<StreamMessageView>)
    ensures
        sink_action(message) is Write <==> (message matches Some(m) && m is Data),
        sink_action(message) == SinkActionView::Finish(None) <==> message is None,
        message matches Some(StreamMessageView::TunnelRefused) ==> sink_action(message)
            == SinkActionView::Finish(Some(Response::TunnelRefused)),
        message matches Some(StreamMessageView::NoClientTunnel) ==> sink_action(message)
            == SinkActionView::Finish(Some(Response::NotFound)),
        message matches Some(StreamMessageView::Unauthorized) ==> sink_action(message)
            == SinkActionView::Finish(Some(Response::Unauthorized)),
{
}

/// The views of messages and actions say all that they say.
pub proof fn law_messages_are_seen_whole(message: StreamMessage, action: SinkAction)
    ensures
        opt_message(Some(message)) == Some(message@),
        opt_message(None) is None,
        match message {
            StreamMessage::Data(data) => message@ == StreamMessageView::Data(data@),
            StreamMessage::TunnelRefused => message@ is TunnelRefused,
            StreamMessage::NoClientTunnel => message@ is NoClientTunnel,
            StreamMessage::Unauthorized => message@ is Unauthorized,
        },
        match action {
            SinkAction::Write(data) => action@ == SinkActionView::Write(data@),
            SinkAction::Finish(response) => action@ == SinkActionView::Finish(response),
        },
{
}

} // verus!
