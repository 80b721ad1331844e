use tunnelto_server::client_auth::{
    auth_client, auth_client_handshake, handle_reconnect_token, on_auth_result, on_claim,
    on_tunnel_id, Admission, AuthResult, Candidate, ClientHello, ClientId, ClientType,
    FirstMessage,
    HandshakeEnd, HelloAction, ReconnectToken, ReconnectTokenPayload, SecretKey, ServerHello,
    TunnelAction,
};
use tunnelto_server::config::Config;

fn config(allow_anonymous: bool) -> Config {
    Config {
        allow_anonymous,
        allowed_hosts: vec![],
        blocked_sub_domains: vec!["blocked".to_string()],
        tunnel_auth_header: "x-tunnel-auth".to_string(),
    }
}

fn hello(key: Option<&str>, reconnect: Option<&str>, token: Option<&str>) -> ClientHello {
    ClientHello {
        client_type: match key {
            Some(key) => ClientType::Auth { key: SecretKey(key.to_string()) },
            None => ClientType::Anonymous,
        },
        reconnect_token: reconnect.map(|t| ReconnectToken(t.to_string())),
        sub_domain: None,
        auth_token: token.map(|t| t.to_string()),
    }
}

#[test]
fn first_messages() {
    assert!(matches!(
        auth_client_handshake(&config(true), FirstMessage::Missing),
        HelloAction::Close
    ));
    assert!(matches!(
        auth_client_handshake(&config(true), FirstMessage::Unreadable),
        HelloAction::Reject(ServerHello::AuthFailed)
    ));
    assert!(matches!(
        auth_client_handshake(&config(true), FirstMessage::Hello(hello(None, None, None))),
        HelloAction::RequestTunnel(_)
    ));
}

#[test]
fn anonymous_clients_need_permission() {
    for reconnect in [None, Some("r")] {
        assert!(matches!(
            auth_client(&config(false), hello(None, reconnect, None)),
            HelloAction::Reject(ServerHello::AuthFailed)
        ));
    }
    assert!(matches!(
        auth_client(&config(false), hello(Some("k"), None, None)),
        HelloAction::RequestTunnel(_)
    ));
}

#[test]
fn reconnect_tokens_go_first() {
    for key in [None, Some("k")] {
        match auth_client(&config(true), hello(key, Some("r"), Some(" t "))) {
            HelloAction::VerifyToken(token, auth_token) => {
                assert_eq!(token.0, "r");
                assert_eq!(auth_token, Some("t".to_string()));
            }
            _ => panic!(),
        }
    }
}

#[test]
fn tokens_are_cleaned() {
    let cases = [(None, None), (Some(""), None), (Some(" \t"), None), (Some(" a b\n"), Some("a b"))];
    for (given, kept) in cases {
        match auth_client(&config(true), hello(Some("k"), None, given)) {
            HelloAction::RequestTunnel(admission) => {
                assert_eq!(admission.auth_token.as_deref(), kept);
                assert_eq!(admission.key.unwrap().0, "k");
            }
            _ => panic!(),
        }
    }
}

fn hello_for(key: Option<&str>, reconnect: Option<&str>, sub_domain: &str) -> ClientHello {
    ClientHello { sub_domain: Some(sub_domain.to_string()), ..hello(key, reconnect, Some(" t ")) }
}

#[test]
fn clients_get_the_sub_domain_they_ask_for() {
    for result in [AuthResult::Available, AuthResult::ReservedByYou] {
        let claim = match auth_client(&config(false), hello_for(Some("k"), None, "mine")) {
            HelloAction::ClaimSubDomain(claim) => claim,
            _ => panic!(),
        };
        assert_eq!((claim.key.0.as_str(), claim.sub_domain.as_str()), ("k", "mine"));
        let candidate = on_claim(claim, ClientId("c".to_string()));
        assert_eq!(candidate.key.0, "k");
        assert_eq!(candidate.tunnel_id, "mine");
        match on_auth_result(candidate, Some(result)) {
            HandshakeEnd::Accept(client) => {
                assert_eq!(client.id.0, "c");
                assert_eq!(client.sub_domain, "mine");
                assert!(!client.is_anonymous);
                assert_eq!(client.auth_token, Some("t".to_string()));
            }
            _ => panic!(),
        }
    }
}

#[test]
fn sub_domains_are_claimed_in_small_letters() {
    for asked in ["Foo-1.Bar", "foo-1.bar", "FOO-1.BAR"] {
        match auth_client(&config(true), hello_for(Some("k"), None, asked)) {
            HelloAction::ClaimSubDomain(claim) => assert_eq!(claim.sub_domain, "foo-1.bar"),
            _ => panic!("{}", asked),
        }
    }
}

#[test]
fn sub_domains_that_cannot_be_names_are_not_claimed() {
    for name in ["", "a/b", "a?b", "blocked", "Blocked", "wormhole", "WORMHOLE"] {
        match auth_client(&config(true), hello_for(Some("k"), None, name)) {
            HelloAction::RequestTunnel(admission) => {
                assert_eq!(admission.key.unwrap().0, "k");
                assert_eq!(admission.auth_token, Some("t".to_string()));
            }
            _ => panic!("{}", name),
        }
    }
}

#[test]
fn sub_domains_need_a_key_and_no_reconnect_token() {
    match auth_client(&config(true), hello_for(None, None, "mine")) {
        HelloAction::RequestTunnel(admission) => assert!(admission.key.is_none()),
        _ => panic!(),
    }
    assert!(matches!(
        auth_client(&config(true), hello_for(Some("k"), Some("r"), "mine")),
        HelloAction::VerifyToken(_, _)
    ));
}

#[test]
fn reconnecting() {
    let payload = ReconnectTokenPayload {
        client_id: ClientId("c".to_string()),
        sub_domain: "s".to_string(),
    };
    match handle_reconnect_token(Some(payload), Some("t".to_string())) {
        HandshakeEnd::Accept(client) => {
            assert_eq!(client.id.0, "c");
            assert_eq!(client.sub_domain, "s");
            assert!(client.is_anonymous);
            assert_eq!(client.auth_token, Some("t".to_string()));
        }
        _ => panic!(),
    }
    assert!(matches!(
        handle_reconnect_token(None, None),
        HandshakeEnd::Reject(ServerHello::AuthFailed)
    ));
}

fn admission(key: Option<&str>) -> Admission {
    Admission {
        key: key.map(|k| SecretKey(k.to_string())),
        auth_token: Some("t".to_string()),
    }
}

#[test]
fn tunnel_ids_are_handed_out() {
    match on_tunnel_id(admission(None), ClientId("c".to_string()), Ok("s".to_string())) {
        TunnelAction::Finish(HandshakeEnd::Accept(client)) => {
            assert_eq!(client.id.0, "c");
            assert_eq!(client.sub_domain, "s");
            assert!(client.is_anonymous);
            assert_eq!(client.auth_token, Some("t".to_string()));
        }
        _ => panic!(),
    }
    match on_tunnel_id(admission(Some("k")), ClientId("c".to_string()), Ok("s".to_string())) {
        TunnelAction::AuthSubDomain(candidate) => {
            assert_eq!(candidate.id.0, "c");
            assert_eq!(candidate.key.0, "k");
            assert_eq!(candidate.tunnel_id, "s");
            assert_eq!(candidate.auth_token, Some("t".to_string()));
        }
        _ => panic!(),
    }
    for key in [None, Some("k")] {
        match on_tunnel_id(admission(key), ClientId("c".to_string()), Err("why".to_string())) {
            TunnelAction::Finish(HandshakeEnd::Reject(ServerHello::Error(reason))) => {
                assert_eq!(reason, "why")
            }
            _ => panic!(),
        }
    }
}

fn candidate() -> Candidate {
    Candidate {
        id: ClientId("c".to_string()),
        key: SecretKey("k".to_string()),
        tunnel_id: "s".to_string(),
        auth_token: None,
    }
}

#[test]
fn tunnels_are_granted_or_not() {
    for result in [AuthResult::Available, AuthResult::ReservedByYou] {
        match on_auth_result(candidate(), Some(result)) {
            HandshakeEnd::Accept(client) => {
                assert_eq!(client.id.0, "c");
                assert_eq!(client.sub_domain, "s");
                assert!(!client.is_anonymous);
                assert_eq!(client.auth_token, None);
            }
            _ => panic!(),
        }
    }
    for result in [
        Some(AuthResult::ReservedByYouButDelinquent),
        Some(AuthResult::PaymentRequired),
        None,
    ] {
        assert!(matches!(
            on_auth_result(candidate(), result),
            HandshakeEnd::Reject(ServerHello::AuthFailed)
        ));
    }
    assert!(matches!(
        on_auth_result(candidate(), Some(AuthResult::ReservedByOther)),
        HandshakeEnd::Reject(ServerHello::SubDomainInUse)
    ));
}
