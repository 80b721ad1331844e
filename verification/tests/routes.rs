use tunnelto_server::accept::{
    accept_connection, on_client_lookup, on_instance_lookup, route_request, sub_domain, AcceptAction,
    ClientAction, InstanceAction, InstanceLookup,
};
use tunnelto_server::config::Config;
use tunnelto_server::paths::{extract_tunnel_id, strip_tunnel, strip_tunnel_prefix, tunnel_id_of_path};
use tunnelto_server::peek::{peek_given, peek_http_request_host, Peeked, MAX_HEADER_PEEK};
use tunnelto_server::responses::Response;
use tunnelto_server::tunnel_id::{is_valid_tunnel_id, request_tunnel_id, GuidReply, NamedBy};
use tunnelto_server::urls::{
    host_of_url, is_allowed_host, normalize_host, normalize_path, target_of_url, UrlParts,
};

const ID: &str = "67e55044-10b1-426f-9247-bb680e5fe0c8";

fn config() -> Config {
    Config {
        allow_anonymous: true,
        allowed_hosts: vec!["localhost".to_string(), "tunnel.example".to_string()],
        blocked_sub_domains: vec!["a1a2a3a4-b1b2-c1c2-d1d2-d3d4d5d6d7d8".to_string()],
        tunnel_auth_header: "x-tunnel-auth".to_string(),
    }
}

#[test]
fn hosts_are_normalized() {
    assert_eq!(normalize_host("LocalHost:8080"), Some("localhost".to_string()));
    assert_eq!(normalize_host("bücher.example"), Some("xn--bcher-kva.example".to_string()));
    assert_eq!(normalize_host("127.1"), Some("127.0.0.1".to_string()));
    assert_eq!(normalize_host("[::1]:80"), Some("[::1]".to_string()));
    assert_eq!(normalize_host("a.example/path?x"), Some("a.example".to_string()));
    assert_eq!(normalize_host(""), None);
    assert_eq!(normalize_host("a b"), None);
}

#[test]
fn hosts_of_urls() {
    let parts = UrlParts { host: Some("h".to_string()), path: "/p".to_string(), query: None };
    assert_eq!(host_of_url(Some(parts)), Some("h".to_string()));
    let parts = UrlParts { host: None, path: "/p".to_string(), query: None };
    assert_eq!(host_of_url(Some(parts)), None);
    assert_eq!(host_of_url(None), None);
}

#[test]
fn allowed_hosts() {
    assert!(is_allowed_host(&config(), "localhost"));
    assert!(!is_allowed_host(&config(), "Localhost"));
    assert!(!is_allowed_host(&config(), "other"));
    assert!(!is_allowed_host(&config(), ""));
}

#[test]
fn targets_are_normalized() {
    assert_eq!(normalize_path("/a/b?c"), "/a/b?c");
    assert_eq!(normalize_path(""), "");
    assert_eq!(normalize_path("*"), "*");
    assert_eq!(normalize_path("http://h.example"), "/");
    assert_eq!(normalize_path("http://h.example/a/../b?c=d#e"), "/b?c=d");
    assert_eq!(normalize_path("https://h.example:99?"), "/?");
    assert_eq!(normalize_path("http://"), "http://");
    assert_eq!(normalize_path("HTTP://h.example/a"), "HTTP://h.example/a");
    assert_eq!(normalize_path("ftp://h.example/a"), "ftp://h.example/a");
}

#[test]
fn normal_targets_stay_normal() {
    for target in ["/x", "http://h.example/a b?c", "https://h/", "http://", "x", "http://h.example//http://x"] {
        let once = normalize_path(target);
        assert_eq!(normalize_path(&once), once);
    }
}

#[test]
fn targets_of_urls() {
    let parts = UrlParts { host: None, path: "/p".to_string(), query: Some("q".to_string()) };
    assert_eq!(target_of_url("http://x/p?q", Some(parts)), "/p?q");
    assert_eq!(target_of_url("http://", None), "http://");
}

#[test]
fn tunnels_are_found_in_every_spelling() {
    for path in [
        "/67e55044-10b1-426f-9247-bb680e5fe0c8",
        "/67e55044-10b1-426f-9247-bb680e5fe0c8/a/b",
        "/67e55044-10b1-426f-9247-bb680e5fe0c8?a=/b",
        "/67E55044-10B1-426F-9247-BB680E5FE0C8/",
        "/67e5504410b1426f9247bb680e5fe0c8/x",
        "/{67e55044-10b1-426f-9247-bb680e5fe0c8}/x",
        "/urn:uuid:67e55044-10b1-426f-9247-bb680e5fe0c8/x",
        "/URN:UUID:67e55044-10b1-426f-9247-bb680e5fe0c8/x",
        "http://h.example/67e55044-10b1-426f-9247-bb680e5fe0c8/x",
    ] {
        assert_eq!(extract_tunnel_id(path), Some(ID.to_string()), "{}", path);
    }
}

#[test]
fn other_paths_name_no_tunnel() {
    for path in [
        "", "/", "//", "/?", "x", "67e55044-10b1-426f-9247-bb680e5fe0c8", "/wormhole/x",
        "/67e55044-10b1-426f-9247-bb680e5fe0c", "/67e55044-10b1-426f-9247-bb680e5fe0cg",
        "/67e55044_10b1_426f_9247_bb680e5fe0c8", "/67e55044-10b1-426f-9247-bb680e5fe0c8#x",
        "/67e5504-410b1-426f-9247-bb680e5fe0c8", "/{67e5504410b1426f9247bb680e5fe0c8}",
        "/urn:uuid:67e5504410b1426f9247bb680e5fe0c8", "/é7e55044-10b1-426f-9247-bb680e5fe0c8",
        "http://h.example/", "//67e55044-10b1-426f-9247-bb680e5fe0c8",
    ] {
        assert_eq!(extract_tunnel_id(path), None, "{}", path);
    }
    assert_eq!(tunnel_id_of_path("http://h.example/67e55044-10b1-426f-9247-bb680e5fe0c8"), None);
}

#[test]
fn tunnels_are_taken_off() {
    assert_eq!(strip_tunnel_prefix("/abc", "abc"), Some("/".to_string()));
    assert_eq!(strip_tunnel_prefix("/abc/", "abc"), Some("/".to_string()));
    assert_eq!(strip_tunnel_prefix("/abc/x/y?z", "abc"), Some("/x/y?z".to_string()));
    assert_eq!(strip_tunnel_prefix("/abc?z", "abc"), Some("/?z".to_string()));
    assert_eq!(strip_tunnel_prefix("http://h.example/abc/x?y", "abc"), Some("/x?y".to_string()));
    assert_eq!(strip_tunnel_prefix("/abcd", "abc"), None);
    assert_eq!(strip_tunnel_prefix("/ABC/x", "abc"), None);
    assert_eq!(strip_tunnel_prefix("/abc#x", "abc"), None);
    assert_eq!(strip_tunnel_prefix("abc/x", "abc"), None);
    assert_eq!(strip_tunnel_prefix("", "abc"), None);
    assert_eq!(strip_tunnel("http://h.example/abc/x", "abc"), None);
}

#[test]
fn found_tunnels_are_taken_off_again() {
    for rest in ["", "/", "/a", "?a", "/a?b"] {
        let path = format!("/{}{}", ID, rest);
        let id = extract_tunnel_id(&path).unwrap();
        let left = strip_tunnel_prefix(&path, &id).unwrap();
        assert!(left.starts_with('/'));
        assert!(left == rest || left == format!("/{}", rest));
    }
    let capital = format!("/{}/a", ID.to_uppercase());
    let id = extract_tunnel_id(&capital).unwrap();
    assert_eq!(strip_tunnel_prefix(&capital, &id), None);
}

#[test]
fn valid_tunnel_ids() {
    assert!(is_valid_tunnel_id(&config(), ID));
    assert!(is_valid_tunnel_id(&config(), "anything else"));
    assert!(!is_valid_tunnel_id(&config(), ""));
    assert!(!is_valid_tunnel_id(&config(), "a/b"));
    assert!(!is_valid_tunnel_id(&config(), "a?b"));
    assert!(!is_valid_tunnel_id(&config(), "wormhole"));
    assert!(!is_valid_tunnel_id(&config(), "a1a2a3a4-b1b2-c1c2-d1d2-d3d4d5d6d7d8"));
}

#[test]
fn tunnel_ids_are_taken_from_replies() {
    let ask = |reply| request_tunnel_id(&config(), reply);
    assert_eq!(ask(GuidReply::Guid(format!("\n {} ", ID.to_uppercase()))), Ok(ID.to_string()));
    assert_eq!(
        ask(GuidReply::Guid("67e5504410b1426f9247bb680e5fe0c8".to_string())),
        Ok(ID.to_string())
    );
    assert_eq!(
        ask(GuidReply::Guid("no id".to_string())),
        Err("guid response invalid: not a uuid".to_string())
    );
    assert_eq!(
        ask(GuidReply::Guid("A1A2A3A4-b1b2-c1c2-d1d2-d3d4d5d6d7d8".to_string())),
        Err("guid response invalid: illegal characters".to_string())
    );
    assert_eq!(
        ask(GuidReply::Unreachable("timed out".to_string())),
        Err("guid request failed: timed out".to_string())
    );
    assert_eq!(
        ask(GuidReply::BadStatus("503 Service Unavailable".to_string())),
        Err("guid request failed: status 503 Service Unavailable".to_string())
    );
    assert_eq!(
        ask(GuidReply::BadBody("eof".to_string())),
        Err("guid response invalid: eof".to_string())
    );
}

fn accepts(request: &str) -> AcceptAction {
    accept_connection(&config(), Some(request.as_bytes()))
}

#[test]
fn requests_are_routed() {
    let request = format!("GET /{}/x HTTP/1.1\r\nHost: LOCALHOST:80\r\n\r\n", ID.to_uppercase());
    match accepts(&request) {
        AcceptAction::FindClient(id, NamedBy::Path) => assert_eq!(id, ID),
        _ => panic!(),
    }
    assert!(matches!(
        accepts("GET / HTTP/1.1\r\nHost: wormhole.localhost\r\n\r\n"),
        AcceptAction::DirectToControl
    ));
    assert!(matches!(
        accepts("GET / HTTP/1.1\r\nHost: wormhole.other\r\n\r\n"),
        AcceptAction::Answer(Response::InvalidHost)
    ));
    assert!(matches!(
        accepts("GET / HTTP/1.1\r\nHost: other\r\n\r\n"),
        AcceptAction::Answer(Response::InvalidHost)
    ));
    assert!(matches!(
        accepts("GET / HTTP/1.1\r\nHost: a b\r\n\r\n"),
        AcceptAction::Answer(Response::InvalidHost)
    ));
    assert!(matches!(
        accepts("GET /x HTTP/1.1\r\nHost: localhost\r\n\r\n"),
        AcceptAction::Answer(Response::NotFound)
    ));
    assert!(matches!(
        accepts("GET /0xDEADBEEF_HEALTH_CHECK HTTP/1.1\r\n\r\n"),
        AcceptAction::Answer(Response::Healthy)
    ));
    assert!(matches!(
        accepts("GET http://h/0xDEADBEEF_HEALTH_CHECK HTTP/1.1\r\n\r\n"),
        AcceptAction::Answer(Response::Healthy)
    ));
    assert!(matches!(accepts("GET / HTTP/1.1\r\n\r\n"), AcceptAction::Drop));
    assert!(matches!(accepts(""), AcceptAction::Drop));
    assert!(matches!(accepts("\0\0\0"), AcceptAction::Drop));
    assert!(matches!(accept_connection(&config(), None), AcceptAction::Drop));
}

#[test]
fn routing_by_normal_host() {
    assert!(matches!(
        route_request(&config(), None, "/"),
        AcceptAction::Answer(Response::InvalidHost)
    ));
    let path = format!("/{}", ID);
    match route_request(&config(), Some("tunnel.example".to_string()), &path) {
        AcceptAction::FindClient(id, NamedBy::Path) => assert_eq!(id, ID),
        _ => panic!(),
    }
}

fn accepted_for(host: &str) -> Option<String> {
    let request = format!("GET /some_path?with=somequery HTTP/1.1\r\nHost: {}\r\n\r\n", host);
    match accepts(&request) {
        AcceptAction::FindClient(name, NamedBy::Host) => Some(name),
        _ => None,
    }
}

#[test]
fn sub_domains_lead_to_their_tunnel() {
    assert_eq!(accepted_for("mine.localhost"), Some("mine".to_string()));
    assert_eq!(accepted_for("MINE.localhost:8080"), Some("mine".to_string()));
    assert_eq!(accepted_for("mine.tunnel.example"), Some("mine".to_string()));
    assert_eq!(accepted_for("a.b.localhost"), Some("a.b".to_string()));
    assert_eq!(accepted_for(&format!("{}.localhost", ID)), Some(ID.to_string()));
    for other in ["localhost", "wormhole.localhost", ".localhost", "minelocalhost", "example", "mine.example"] {
        assert_eq!(accepted_for(other), None, "{}", other);
    }
    assert!(matches!(
        accepts("GET / HTTP/1.1\r\nHost: mine.example\r\n\r\n"),
        AcceptAction::Answer(Response::InvalidHost)
    ));
}

#[test]
fn the_longest_allowed_host_counts() {
    let mut config = config();
    config.allowed_hosts.push("inner.localhost".to_string());
    assert_eq!(sub_domain(&config, "a.inner.localhost"), Some("a".to_string()));
    assert_eq!(sub_domain(&config, "a.outer.localhost"), Some("a.outer".to_string()));
    assert_eq!(sub_domain(&config, "localhost"), None);
    assert!(matches!(
        route_request(&config, Some("inner.localhost".to_string()), "/"),
        AcceptAction::Answer(Response::NotFound)
    ));
    assert!(matches!(
        route_request(&config, Some("wormhole.inner.localhost".to_string()), "/"),
        AcceptAction::DirectToControl
    ));
}

#[test]
fn given_ids_lead_to_their_tunnel() {
    let id = request_tunnel_id(&config(), GuidReply::Guid(ID.to_uppercase())).unwrap();
    let request = format!("GET /{}/x?y HTTP/1.1\r\nHost: localhost\r\n\r\n", id);
    match accepts(&request) {
        AcceptAction::FindClient(found, NamedBy::Path) => assert_eq!(found, id),
        _ => panic!(),
    }
}

#[test]
fn peeked_requests() {
    let request = b"GET http://h/p?q HTTP/1.1\r\nhOsT: a\r\nHost: b\r\nX-Forwarded-For: 1.2.3.4, 5\r\n";
    match peek_http_request_host(request) {
        Peeked::Request(peeked) => {
            assert_eq!(peeked.host, "a");
            assert_eq!(peeked.path, "/p?q");
            assert_eq!(peeked.forwarded_for, "1.2.3.4, 5");
        }
        _ => panic!(),
    }
    match peek_http_request_host(b"GET / HTTP/1.1\r\nX-Forwarded-For: \xff\r\nHost: b\r\n\r\n") {
        Peeked::Request(peeked) => assert_eq!(peeked.forwarded_for, ""),
        _ => panic!(),
    }
    assert!(matches!(peek_http_request_host(b"GET / HTTP/1.1\r\nHost: \xff\r\nHost: b\r\n\r\n"), Peeked::Nothing));
    assert!(matches!(peek_given(None), Peeked::Nothing));
}

#[test]
fn host_has_to_come_early() {
    let mut request = b"GET / HTTP/1.1\r\nA: ".to_vec();
    while request.len() < MAX_HEADER_PEEK - 11 {
        request.push(b'x');
    }
    let mut early = request.clone();
    early.extend_from_slice(b"\r\nHost: b\r\n\r\n");
    assert!(matches!(peek_http_request_host(&early), Peeked::Request(_)));
    let mut late = request.clone();
    late.extend_from_slice(b"xx\r\nHost: b\r\n\r\n");
    assert!(matches!(peek_http_request_host(&late), Peeked::Nothing));
}

#[test]
fn too_many_headers_are_no_request() {
    let with = |n: usize| {
        let mut request = "GET / HTTP/1.1\r\nHost: a\r\n".to_string();
        for _ in 1..n {
            request.push_str("A: b\r\n");
        }
        request.push_str("\r\n");
        request
    };
    assert!(matches!(peek_http_request_host(with(64).as_bytes()), Peeked::Request(_)));
    assert!(matches!(peek_http_request_host(with(65).as_bytes()), Peeked::Nothing));
}

#[test]
fn lookups() {
    assert_eq!(on_client_lookup(true), ClientAction::OpenStream);
    assert_eq!(on_client_lookup(false), ClientAction::FindInstance);
    assert_eq!(on_instance_lookup(InstanceLookup::Found), InstanceAction::Proxy);
    assert_eq!(
        on_instance_lookup(InstanceLookup::DoesNotServeHost),
        InstanceAction::Answer(Response::NotFound)
    );
    assert_eq!(
        on_instance_lookup(InstanceLookup::Failed),
        InstanceAction::Answer(Response::ErrorLocatingHost)
    );
}

#[test]
fn answers_declare_the_length_of_their_body() {
    let all = [
        (Response::InvalidHost, "400", "Error: Invalid Hostname"),
        (Response::NotFound, "404", "Error: Tunnel Not Found"),
        (Response::ErrorLocatingHost, "500", "Error: Error finding tunnel"),
        (Response::TunnelRefused, "500", "Tunnel says: connection refused."),
        (Response::Unauthorized, "401", "Error: Unauthorized"),
        (Response::Healthy, "200 OK", "ok"),
    ];
    for (response, status, body) in all {
        let expected = format!("HTTP/1.1 {}\r\nContent-Length: {}\r\n\r\n{}", status, body.len(), body);
        assert_eq!(response.text(), expected);
    }
}
