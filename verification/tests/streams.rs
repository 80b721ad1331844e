use tunnelto_server::client_auth::{auth_client, ClientHello, ClientType, HelloAction};
use tunnelto_server::config::Config;
use tunnelto_server::control::{ClientStream, ControlPacket, StreamId};
use tunnelto_server::forward::{
    closing, judge_head, BodyState, Forwarder, HeadVerdict, Refusal, Route, Step, StreamEnd,
    StreamEvent,
};
use tunnelto_server::http::{Header, RequestHead};
use tunnelto_server::responses::Response;
use tunnelto_server::sink::{after_write, tunnel_to_stream, AfterWrite, SinkAction, StreamMessage};
use tunnelto_server::tunnel_id::NamedBy;

const ID: &str = "67e55044-10b1-426f-9247-bb680e5fe0c8";

fn route(token: Option<&str>) -> Route {
    Route {
        tunnel_id: ID.to_string(),
        named_by: NamedBy::Path,
        auth_header: "X-Tunnel-Auth".to_string(),
        auth_token: token.map(|t| t.to_string()),
    }
}

fn run(token: Option<&str>, reads: &[&[u8]]) -> (Vec<u8>, Option<StreamEnd>) {
    run_on(route(token), reads)
}

fn run_on(route: Route, reads: &[&[u8]]) -> (Vec<u8>, Option<StreamEnd>) {
    let mut forwarder = Forwarder::new(route);
    let mut sent = Vec::new();
    for read in reads {
        let turn = forwarder.process_tcp_stream(StreamEvent::Read(read.to_vec()));
        for packet in turn.packets {
            assert!(!packet.is_empty());
            sent.extend_from_slice(&packet);
        }
        if turn.end.is_some() {
            return (sent, turn.end);
        }
    }
    (sent, None)
}

fn request(path: &str, headers: &str, body: &str) -> Vec<u8> {
    format!("POST {} HTTP/1.1\r\nHost: a\r\n{}\r\n{}", path, headers, body).into_bytes()
}

fn own(rest: &str) -> String {
    format!("/{}{}", ID, rest)
}

#[test]
fn a_request_without_a_body() {
    let (sent, end) = run(None, &[&request(&own("/x?y"), "", "")]);
    assert_eq!(sent, request("/x?y", "", ""));
    assert_eq!(end, None);
}

#[test]
fn requests_follow_each_other() {
    let mut all = request(&own("/1"), "Content-Length: 3\r\n", "abc");
    all.extend_from_slice(&request(&own("/2"), "", ""));
    all.extend_from_slice(&request(&own("?3"), "content-length: 2\r\n", "de"));
    let mut expected = request("/1", "Content-Length: 3\r\n", "abc");
    expected.extend_from_slice(&request("/2", "", ""));
    expected.extend_from_slice(&request("/?3", "content-length: 2\r\n", "de"));
    assert_eq!(run(None, &[&all]), (expected, None));
}

#[test]
fn parting_into_reads_makes_no_difference() {
    let mut all = request(&own("/1"), "Content-Length: 3\r\n", "abc");
    all.extend_from_slice(&request(&own("/2"), "Transfer-Encoding: chunked\r\n", "1\r\na\r\n0\r\n\r\nGET"));
    let at_once = run(None, &[&all]);
    let single: Vec<&[u8]> = all.chunks(1).collect();
    assert_eq!(run(None, &single), at_once);
    for at in 1..all.len() {
        assert_eq!(run(None, &[&all[..at], &all[at..]]), at_once);
    }
}

#[test]
fn packets_come_one_by_one() {
    let mut forwarder = Forwarder::new(route(None));
    let read = request(&own(""), "Content-Length: 5\r\n", "abc");
    let turn = forwarder.process_tcp_stream(StreamEvent::Read(read));
    assert_eq!(turn.packets, vec![request("/", "Content-Length: 5\r\n", ""), b"abc".to_vec()]);
    let turn = forwarder.process_tcp_stream(StreamEvent::Read(b"defgh".to_vec()));
    assert_eq!(turn.packets, vec![b"de".to_vec()]);
    assert_eq!(turn.end, None);
}

#[test]
fn chunked_bodies_are_never_looked_into() {
    let mut forwarder = Forwarder::new(route(Some("t")));
    let read = request(&own(""), "X-Tunnel-Auth: t\r\nTransfer-Encoding: chunked\r\n", "");
    forwarder.process_tcp_stream(StreamEvent::Read(read));
    let other = request("/other", "", "");
    let turn = forwarder.process_tcp_stream(StreamEvent::Read(other.clone()));
    assert_eq!(turn.packets, vec![other]);
    assert_eq!(turn.end, None);
}

#[test]
fn requests_to_other_tunnels_are_refused() {
    let mut all = request(&own("/1"), "", "");
    let first = request("/1", "", "");
    all.extend_from_slice(&request("/other", "", ""));
    all.extend_from_slice(&request(&own("/2"), "", ""));
    assert_eq!(
        run(None, &[&all]),
        (first, Some(StreamEnd::Refused(Refusal::NoTunnelPrefix)))
    );
}

#[test]
fn requests_without_the_token_are_refused() {
    let refused = Some(StreamEnd::Refused(Refusal::Unauthorized));
    assert_eq!(run(Some("t"), &[&request(&own(""), "", "")]), (vec![], refused));
    assert_eq!(run(Some("t"), &[&request(&own(""), "x-tunnel-auth: T\r\n", "")]), (vec![], refused));
    let right = request(&own(""), "x-tunnel-auth: t \r\n", "");
    assert_eq!(run(Some("t"), &[&right]).1, None);
    assert_eq!(
        run(Some("t"), &[&request("/other", "", "")]),
        (vec![], Some(StreamEnd::Refused(Refusal::NoTunnelPrefix)))
    );
}

#[test]
fn kept_tokens_can_be_carried() {
    let config = Config {
        allow_anonymous: true,
        allowed_hosts: vec![],
        blocked_sub_domains: vec![],
        tunnel_auth_header: "X-Tunnel-Auth".to_string(),
    };
    let hello = ClientHello {
        client_type: ClientType::Anonymous,
        reconnect_token: None,
        sub_domain: None,
        auth_token: Some("\t let me in  ".to_string()),
    };
    let kept = match auth_client(&config, hello) {
        HelloAction::RequestTunnel(admission) => admission.auth_token,
        _ => panic!(),
    };
    assert_eq!(kept.as_deref(), Some("let me in"));
    for carried in ["let me in", "\t let me in  "] {
        let headers = format!("X-Tunnel-Auth:{}\r\n", carried);
        let (sent, end) = run(kept.as_deref(), &[&request(&own("/x"), &headers, "")]);
        assert_eq!(sent, request("/x", &headers, ""));
        assert_eq!(end, None);
    }
}

#[test]
fn later_requests_are_for_the_same_tunnel() {
    let other = "/67e55044-10b1-426f-9247-bb680e5fe0c9/x";
    let mut all = request(&own("/1"), "Content-Length: 1\r\n", "a");
    all.extend_from_slice(&request(other, "", ""));
    assert_eq!(
        run(None, &[&all]),
        (
            request("/1", "Content-Length: 1\r\n", "a"),
            Some(StreamEnd::Refused(Refusal::NoTunnelPrefix))
        )
    );
}

#[test]
fn capital_ids_are_not_taken_off() {
    let capital = format!("/{}/x", ID.to_uppercase());
    assert_eq!(
        run(None, &[&request(&capital, "", "")]),
        (vec![], Some(StreamEnd::Refused(Refusal::NoTunnelPrefix)))
    );
}

fn host_route(token: Option<&str>) -> Route {
    Route { tunnel_id: "mine".to_string(), named_by: NamedBy::Host, ..route(token) }
}

#[test]
fn tunnels_named_by_the_host_keep_their_targets() {
    let first = request("/some_path?with=somequery", "Content-Length: 2\r\n", "ab");
    let second = request(&own("/x"), "", "");
    let mut all = first.clone();
    all.extend_from_slice(&second);
    assert_eq!(run_on(host_route(None), &[&all]), (all.clone(), None));
    let absolute = request("http://mine.localhost/a?b", "", "");
    assert_eq!(run_on(host_route(None), &[&absolute]), (request("/a?b", "", ""), None));
}

#[test]
fn tunnels_named_by_the_host_can_be_protected() {
    let refused = Some(StreamEnd::Refused(Refusal::Unauthorized));
    assert_eq!(run_on(host_route(Some("t")), &[&request("/x", "", "")]), (vec![], refused));
    let right = request("/x", "x-tunnel-auth: t\r\n", "");
    assert_eq!(run_on(host_route(Some("t")), &[&right]), (right.clone(), None));
}

#[test]
fn nothing_follows_a_refusal() {
    let own_request = request(&own("/1"), "", "");
    let other = request("/other", "", "");
    let end = Some(StreamEnd::Refused(Refusal::NoTunnelPrefix));
    let short = run(None, &[&own_request, &other]);
    assert_eq!(short, (request("/1", "", ""), end));
    assert_eq!(run(None, &[&own_request, &other, &own_request, &other]), short);
}

#[test]
fn malformed_heads_pass_as_they_are() {
    let data = b"no request\r\n\r\nand more";
    assert_eq!(run(Some("t"), &[data]), (data.to_vec(), None));
}

#[test]
fn empty_lines_are_waited_behind() {
    let mut data = b"\r\n\r\n".to_vec();
    data.extend_from_slice(&request(&own(""), "", ""));
    assert_eq!(run(None, &[&data]), (vec![], None));
}

#[test]
fn absolute_targets_are_rewritten() {
    let (sent, _) = run(None, &[&request(&format!("http://a{}", own("/x")), "", "")]);
    assert_eq!(sent, request("/x", "", ""));
}

#[test]
fn steps_can_be_taken_one_by_one() {
    let mut forwarder = Forwarder::new(route(None));
    assert!(matches!(forwarder.next_step(), Step::AwaitRead));
    assert!(matches!(forwarder.take_step(None), Step::AwaitRead));
}

#[test]
fn turns_without_bytes() {
    let mut forwarder = Forwarder::new(route(None));
    assert_eq!(forwarder.process_tcp_stream(StreamEvent::ClientGone).end, Some(StreamEnd::ClientGone));
    assert_eq!(forwarder.process_tcp_stream(StreamEvent::ReadFailed).end, Some(StreamEnd::ReadFailed));
    assert_eq!(forwarder.process_tcp_stream(StreamEvent::Read(vec![])).end, Some(StreamEnd::Ended));
}

fn head(complete: bool, path: Option<&str>, headers: &[(&str, &str)]) -> Option<RequestHead> {
    let to_header = |(name, value): &(&str, &str)| Header {
        name: name.to_string(),
        value: value.as_bytes().to_vec(),
    };
    Some(RequestHead {
        complete,
        path: path.map(|p| p.to_string()),
        headers: headers.iter().map(to_header).collect(),
    })
}

#[test]
fn heads_are_judged() {
    let judge = |parsed| judge_head(&route(None), parsed);
    assert!(matches!(judge(None), HeadVerdict::Malformed));
    assert!(matches!(judge(head(false, Some("/"), &[])), HeadVerdict::Incomplete));
    assert!(matches!(judge(head(true, None, &[])), HeadVerdict::Refuse(Refusal::NoTunnelPrefix)));
    let own = own("/x");
    let bodies = [
        (vec![], BodyState::NoBody),
        (vec![("content-length", "0")], BodyState::NoBody),
        (vec![("content-length", "7")], BodyState::Fixed(7)),
        (vec![("content-length", "many")], BodyState::NoBody),
        (vec![("content-length", "7"), ("transfer-encoding", "chunked")], BodyState::Unknown),
    ];
    for (headers, body) in bodies {
        match judge(head(true, Some(&own), &headers)) {
            HeadVerdict::Forward(target, found) => {
                assert_eq!(target, "/x");
                assert_eq!(found, body);
            }
            _ => panic!(),
        }
    }
}

#[test]
fn ends_are_closed() {
    let end = closing(StreamEnd::ClientGone);
    assert!(matches!(end.notify, Some(StreamMessage::NoClientTunnel)));
    assert_eq!((end.close_queue, end.end_client, end.drop_client), (true, false, false));
    let end = closing(StreamEnd::ReadFailed);
    assert!(end.notify.is_none());
    assert_eq!((end.close_queue, end.end_client, end.drop_client), (false, false, false));
    let end = closing(StreamEnd::Ended);
    assert!(end.notify.is_none());
    assert_eq!((end.close_queue, end.end_client, end.drop_client), (false, true, false));
    let end = closing(StreamEnd::Refused(Refusal::NoTunnelPrefix));
    assert!(matches!(end.notify, Some(StreamMessage::NoClientTunnel)));
    assert_eq!((end.close_queue, end.end_client, end.drop_client), (false, true, false));
    let end = closing(StreamEnd::Refused(Refusal::Unauthorized));
    assert!(matches!(end.notify, Some(StreamMessage::Unauthorized)));
    assert_eq!((end.close_queue, end.end_client, end.drop_client), (false, true, false));
    let end = closing(StreamEnd::SendFailed);
    assert!(end.notify.is_none());
    assert_eq!((end.close_queue, end.end_client, end.drop_client), (false, false, true));
}

fn stream_of(token: Option<&str>, reads: &[&[u8]]) -> Vec<ControlPacket> {
    let (mut stream, first) = ClientStream::open(StreamId("s1".to_string()), route(token));
    let mut sent = vec![first];
    for read in reads {
        let turn = stream.turn(StreamEvent::Read(read.to_vec()));
        sent.extend(turn.packets);
        if let Some(end) = turn.end {
            sent.extend(stream.close(end).last);
            break;
        }
    }
    sent
}

fn described(packets: &[ControlPacket]) -> Vec<String> {
    packets
        .iter()
        .map(|packet| match packet {
            ControlPacket::Init(id) => format!("init {}", id.0),
            ControlPacket::Data(id, data) => format!("data {} {}", id.0, data.len()),
            ControlPacket::End(id) => format!("end {}", id.0),
        })
        .collect()
}

#[test]
fn clients_see_streams_open_and_end() {
    assert_eq!(described(&stream_of(None, &[])), ["init s1"]);
    assert_eq!(described(&stream_of(None, &[b""])), ["init s1", "end s1"]);
    let read = request(&own("/x"), "Content-Length: 3\r\n", "abc");
    let head = request("/x", "Content-Length: 3\r\n", "");
    let data = format!("data s1 {}", head.len());
    assert_eq!(
        described(&stream_of(None, &[&read, b"", &read])),
        ["init s1", data.as_str(), "data s1 3", "end s1"]
    );
    let other = request("/other", "", "");
    assert_eq!(described(&stream_of(None, &[&other, &read])), ["init s1", "end s1"]);
}

#[test]
fn streams_are_closed() {
    let close = |end| ClientStream::open(StreamId("s1".to_string()), route(None)).0.close(end);
    let gone = close(StreamEnd::ClientGone);
    assert!(matches!(gone.notify, Some(StreamMessage::NoClientTunnel)));
    assert!(gone.close_queue && gone.last.is_none() && !gone.drop_client);
    let failed = close(StreamEnd::SendFailed);
    assert!(failed.notify.is_none() && failed.last.is_none() && failed.drop_client);
    let refused = close(StreamEnd::Refused(Refusal::Unauthorized));
    assert!(matches!(refused.notify, Some(StreamMessage::Unauthorized)));
    assert!(matches!(refused.last, Some(ControlPacket::End(id)) if id.0 == "s1"));
}

#[test]
fn messages_are_written_or_answered() {
    match tunnel_to_stream(Some(StreamMessage::Data(b"abc".to_vec()))) {
        SinkAction::Write(data) => assert_eq!(data, b"abc".to_vec()),
        _ => panic!(),
    }
    assert!(matches!(
        tunnel_to_stream(Some(StreamMessage::TunnelRefused)),
        SinkAction::Finish(Some(Response::TunnelRefused))
    ));
    assert!(matches!(
        tunnel_to_stream(Some(StreamMessage::NoClientTunnel)),
        SinkAction::Finish(Some(Response::NotFound))
    ));
    assert!(matches!(
        tunnel_to_stream(Some(StreamMessage::Unauthorized)),
        SinkAction::Finish(Some(Response::Unauthorized))
    ));
    assert!(matches!(tunnel_to_stream(None), SinkAction::Finish(None)));
    assert_eq!(after_write(true), AfterWrite::NextMessage);
    assert_eq!(after_write(false), AfterWrite::Abandon);
}
