//! The handshake with a client that wants to open a tunnel.

use crate::config::Config;
use crate::config::ConfigView;
use crate::text;
use crate::tunnel_id;
use vstd::prelude::*;
use vstd::string::*;

verus! {

/// Who a client is.
pub struct ClientId(pub String);

/// The key that a client authenticates with.
pub struct SecretKey(pub String);

/// What a client shows to take up a tunnel that it had before.
pub struct ReconnectToken(pub String);

/// How a client presents itself.
pub enum ClientType {
    /// With an authentication key.
    Auth { key: SecretKey },
    /// Without one.
    Anonymous,
}

/// The first message of a client.
pub struct ClientHello {
    pub client_type: ClientType,
    /// Shown where the client wants to take up a tunnel that it had before.
    pub reconnect_token: Option<ReconnectToken>,
    /// The sub-domain that the client wants to have for its tunnel, if any. Capital letters
    /// in it count as small ones.
    pub sub_domain: Option<String>,
    /// The token that requests to the tunnel have to carry, where it is to be protected.
    pub auth_token: Option<String>,
}

/// What a client that is turned away is told.
pub enum ServerHello {
    /// It could not be authenticated.
    AuthFailed,
    /// The tunnel belongs to someone else.
    SubDomainInUse,
    /// Something went wrong; the text says what.
    Error(String),
}

/// A client that was let in.
pub struct ClientHandshake {
    pub id: ClientId,
    /// The tunnel that it serves.
    pub sub_domain: String,
    pub is_anonymous: bool,
    /// The token that requests to the tunnel have to carry.
    pub auth_token: Option<String>,
}

/// What a valid reconnect token says.
pub struct ReconnectTokenPayload {
    pub client_id: ClientId,
    pub sub_domain: String,
}

/// Whose tunnel it is, seen from a client.
#[derive(Clone, Copy, Debug, PartialEq, Eq, Structural)]
pub enum AuthResult {
    /// The client has it, but did not pay for it.
    ReservedByYouButDelinquent,
    /// The client has it.
    ReservedByYou,
    /// Someone else has it.
    ReservedByOther,
    /// The client would have to pay for it.
    PaymentRequired,
    /// Nobody has it.
    Available,
}

/// The texts of a `ClientHello`.
pub struct ClientHelloView {
    /// The key, where the client has one.
    pub key: Option<Seq<char>>,
    pub reconnect_token: Option<Seq<char>>,
    pub sub_domain: Option<Seq<char>>,
    pub auth_token: Option<Seq<char>>,
}

impl View for ClientHello {
    type V = ClientHelloView;

    open spec fn view(&self) -> ClientHelloView {
        ClientHelloView {
            key: match self.client_type {
                ClientType::Auth { key } => Some(key.0@),
                ClientType::Anonymous => None,
            },
            reconnect_token: match self.reconnect_token {
                Some(token) => Some(token.0@),
                None => None,
            },
            sub_domain: text::opt_text(self.sub_domain),
            auth_token: text::opt_text(self.auth_token),
        }
    }
}

/// A `ServerHello` with its text.
pub enum ServerHelloView {
    AuthFailed,
    SubDomainInUse,
    Error(Seq<char>),
}

impl View for ServerHello {
    type V = ServerHelloView;

    open spec fn view(&self) -> ServerHelloView {
        match self {
            ServerHello::AuthFailed => ServerHelloView::AuthFailed,
            ServerHello::SubDomainInUse => ServerHelloView::SubDomainInUse,
            ServerHello::Error(reason) => ServerHelloView::Error(reason@),
        }
    }
}

/// The texts of a `ClientHandshake`.
pub struct ClientHandshakeView {
    pub id: Seq<char>,
    pub sub_domain: Seq<char>,
    pub is_anonymous: bool,
    pub auth_token: Option<Seq<char>>,
}

impl View for ClientHandshake {
    type V = ClientHandshakeView;

    open spec fn view(&self) -> ClientHandshakeView {
        ClientHandshakeView {
            id: self.id.0@,
            sub_domain: self.sub_domain@,
            is_anonymous: self.is_anonymous,
            auth_token: text::opt_text(self.auth_token),
        }
    }
}

/// The texts of a `ReconnectTokenPayload`.
pub struct PayloadView {
    pub client_id: Seq<char>,
    pub sub_domain: Seq<char>,
}

impl View for ReconnectTokenPayload {
    type V = PayloadView;

    open spec fn view(&self) -> PayloadView {
        PayloadView { client_id: self.client_id.0@, sub_domain: self.sub_domain@ }
    }
}

/// The view of an optional payload.
pub open spec fn opt_payload(payload: Option<ReconnectTokenPayload>) -> Option<PayloadView> {
    match payload {
        Some(p) => Some(p@),
        None => None,
    }
}

/// How a handshake ends.
pub enum HandshakeEnd {
    /// The client is let in.
    Accept(ClientHandshake),
    /// The client is told this and turned away.
    Reject(ServerHello),
}

/// A `HandshakeEnd` with its view.
pub enum HandshakeEndView {
    Accept(ClientHandshakeView),
    Reject(ServerHelloView),
}

impl View for HandshakeEnd {
    type V = HandshakeEndView;

    open spec fn view(&self) -> HandshakeEndView {
        match self {
            HandshakeEnd::Accept(handshake) => HandshakeEndView::Accept(handshake@),
            HandshakeEnd::Reject(reply) => HandshakeEndView::Reject(reply@),
        }
    }
}

/// A client that gets a tunnel of its own, once there is an id for it.
pub struct Admission {
    /// The key, where the client is not anonymous.
    pub key: Option<SecretKey>,
    pub auth_token: Option<String>,
}

/// The texts of an `Admission`.
pub struct AdmissionView {
    pub key: Option<Seq<char>>,
    pub auth_token: Option<Seq<char>>,
}

impl View for Admission {
    type V = AdmissionView;

    open spec fn view(&self) -> AdmissionView {
        AdmissionView {
            key: match self.key {
                Some(key) => Some(key.0@),
                None => None,
            },
            auth_token: text::opt_text(self.auth_token),
        }
    }
}

/// A client with a key that wants to have a certain sub-domain.
pub struct Claim {
    pub key: SecretKey,
    pub sub_domain: String,
    pub auth_token: Option<String>,
}

/// The texts of a `Claim`.
pub struct ClaimView {
    pub key: Seq<char>,
    pub sub_domain: Seq<char>,
    pub auth_token: Option<Seq<char>>,
}

impl View for Claim {
    type V = ClaimView;

    open spec fn view(&self) -> ClaimView {
        ClaimView {
            key: self.key.0@,
            sub_domain: self.sub_domain@,
            auth_token: text::opt_text(self.auth_token),
        }
    }
}

/// What is to be done about the first message of a client.
pub enum HelloAction {
    /// Leave without a word.
    Close,
    /// Tell the client this and turn it away.
    Reject(ServerHello),
    /// Verify the reconnect token; the client wants its tunnel protected by the other.
    VerifyToken(ReconnectToken, Option<String>),
    /// Find out whether the client may have the sub-domain.
    ClaimSubDomain(Claim),
    /// Request an id for a new tunnel.
    RequestTunnel(Admission),
}

/// A `HelloAction` with its view.
pub enum HelloActionView {
    Close,
    Reject(ServerHelloView),
    VerifyToken(Seq<char>, Option<Seq<char>>),
    ClaimSubDomain(ClaimView),
    RequestTunnel(AdmissionView),
}

impl View for HelloAction {
    type V = HelloActionView;

    open spec fn view(&self) -> HelloActionView {
        match self {
            HelloAction::Close => HelloActionView::Close,
            HelloAction::Reject(reply) => HelloActionView::Reject(reply@),
            HelloAction::VerifyToken(token, auth_token) => HelloActionView::VerifyToken(
                token.0@,
                text::opt_text(*auth_token),
            ),
            HelloAction::ClaimSubDomain(claim) => HelloActionView::ClaimSubDomain(claim@),
            HelloAction::RequestTunnel(admission) => HelloActionView::RequestTunnel(admission@),
        }
    }
}

/// The first thing that comes from a client.
pub enum FirstMessage {
    /// Nothing, or nothing but an error.
    Missing,
    /// Something that is no `ClientHello`.
    Unreadable,
    /// A `ClientHello`.
    Hello(ClientHello),
}

/// A `FirstMessage` with its view.
pub enum FirstMessageView {
    Missing,
    Unreadable,
    Hello(ClientHelloView),
}

impl View for FirstMessage {
    type V = FirstMessageView;

    open spec fn view(&self) -> FirstMessageView {
        match self {
            FirstMessage::Missing => FirstMessageView::Missing,
            FirstMessage::Unreadable => FirstMessageView::Unreadable,
            FirstMessage::Hello(hello) => FirstMessageView::Hello(hello@),
        }
    }
}

/// The token of a tunnel as it is used: without white space around it, and none at all
/// where nothing is left.
pub open spec fn clean_token(token: Option<Seq<char>>) -> Option<Seq<char>> {
    match token {
        Some(value) => if text::trimmed(value).len() == 0 {
            None
        } else {
            Some(text::trimmed(value))
        },
        None => None,
    }
}

/// Cleans the token of a tunnel.
fn clean(token: Option<String>) -> (cleaned: Option<String>)
    ensures
        text::opt_text(cleaned) == clean_token(text::opt_text(token)),
{
    match token {
        Some(value) => {
            let trimmed = text::trim(value.as_str());
            if trimmed.is_empty() {
                None
            } else {
                Some(trimmed.to_owned())
            }
        },
        None => None,
    }
}

/// The name of the tunnel that a client gets which asks for this sub-domain: the sub-domain
/// in small letters, as hosts are written, where that is a valid name for a tunnel.
pub open spec fn tunnel_name(config: ConfigView, asked: Option<Seq<char>>) -> Option<Seq<char>> {
    match asked {
        Some(s) => if tunnel_id::valid_tunnel_id(config, text::lower(s)) {
            Some(text::lower(s))
        } else {
            None
        },
        None => None,
    }
}

/// The name that a client claims for its tunnel. Clients without a key claim none.
pub open spec fn claimed_name(config: ConfigView, hello: ClientHelloView) -> Option<Seq<char>> {
    if hello.key is Some {
        tunnel_name(config, hello.sub_domain)
    } else {
        None
    }
}

/// Makes a name for a tunnel of the sub-domain that a client asks for.
fn name_tunnel(config: &Config, asked: Option<String>) -> (name: Option<String>)
    ensures
        text::opt_text(name) == tunnel_name(config@, text::opt_text(asked)),
{
    match asked {
        Some(asked) => {
            let name = text::to_lower_case(asked.as_str());
            if tunnel_id::is_valid_tunnel_id(config, name.as_str()) {
                Some(name)
            } else {
                None
            }
        },
        None => None,
    }
}

/// What is to be done about the hello of a client. Anonymous clients are turned away
/// where they are not allowed. A reconnect token goes before everything else that is
/// allowed. A client with a key may ask for a sub-domain. A client that does not ask for
/// one that it can have gets a fresh id.
pub open spec fn hello_action(config: ConfigView, hello: ClientHelloView) -> HelloActionView {
    let auth_token = clean_token(hello.auth_token);
    if hello.key is None && !config.allow_anonymous {
        HelloActionView::Reject(ServerHelloView::AuthFailed)
    } else if hello.reconnect_token is Some {
        HelloActionView::VerifyToken(hello.reconnect_token->0, auth_token)
    } else {
        match (hello.key, claimed_name(config, hello)) {
            (Some(key), Some(sub_domain)) => HelloActionView::ClaimSubDomain(
                ClaimView { key, sub_domain, auth_token },
            ),
            _ => HelloActionView::RequestTunnel(AdmissionView { key: hello.key, auth_token }),
        }
    }
}

/// Decides about the hello of a client.
pub fn auth_client(config: &Config, hello: ClientHello) -> (action: HelloAction)
    ensures
        action@ == hello_action(config@, hello@),
{
    let auth_token = clean(hello.auth_token);
    match hello.client_type {
        ClientType::Anonymous => {
            if !config.allow_anonymous {
                return HelloAction::Reject(ServerHello::AuthFailed);
            }
            match hello.reconnect_token {
                Some(token) => HelloAction::VerifyToken(token, auth_token),
                None => HelloAction::RequestTunnel(Admission { key: None, auth_token }),
            }
        },
        ClientType::Auth { key } => match hello.reconnect_token {
            Some(token) => HelloAction::VerifyToken(token, auth_token),
            None => match name_tunnel(config, hello.sub_domain) {
                Some(sub_domain) => HelloAction::ClaimSubDomain(
                    Claim { key, sub_domain, auth_token },
                ),
                None => HelloAction::RequestTunnel(Admission { key: Some(key), auth_token }),
            },
        },
    }
}

/// What is to be done about the first thing that comes from a client.
pub open spec fn first_action(config: ConfigView, first: FirstMessageView) -> HelloActionView {
    match first {
        FirstMessageView::Missing => HelloActionView::Close,
        FirstMessageView::Unreadable => HelloActionView::Reject(ServerHelloView::AuthFailed),
        FirstMessageView::Hello(hello) => hello_action(config, hello),
    }
}

/// Decides about the first thing that comes from a client.
pub fn auth_client_handshake(config: &Config, first: FirstMessage) -> (action: HelloAction)
    ensures
        action@ == first_action(config@, first@),
{
    match first {
        FirstMessage::Missing => HelloAction::Close,
        FirstMessage::Unreadable => HelloAction::Reject(ServerHello::AuthFailed),
        FirstMessage::Hello(hello) => auth_client(config, hello),
    }
}

/// How the handshake ends with a client that shows a reconnect token, given what the
/// token says where it is valid.
pub open spec fn reconnected(
    payload: Option<PayloadView>,
    auth_token: Option<Seq<char>>,
) -> HandshakeEndView {
    match payload {
        Some(p) => HandshakeEndView::Accept(
            ClientHandshakeView {
                id: p.client_id,
                sub_domain: p.sub_domain,
                is_anonymous: true,
                auth_token,
            },
        ),
        None => HandshakeEndView::Reject(ServerHelloView::AuthFailed),
    }
}

/// Ends the handshake with a client that shows a reconnect token.
pub fn handle_reconnect_token(
    payload: Option<ReconnectTokenPayload>,
    auth_token: Option<String>,
) -> (end: HandshakeEnd)
    ensures
        end@ == reconnected(opt_payload(payload), text::opt_text(auth_token)),
{
    match payload {
        Some(payload) => HandshakeEnd::Accept(
            ClientHandshake {
                id: payload.client_id,
                sub_domain: payload.sub_domain,
                is_anonymous: true,
                auth_token,
            },
        ),
        None => HandshakeEnd::Reject(ServerHello::AuthFailed),
    }
}

/// A client with a key that waits for a tunnel id to be granted.
pub struct Candidate {
    pub id: ClientId,
    pub key: SecretKey,
    pub tunnel_id: String,
    pub auth_token: Option<String>,
}

/// The texts of a `Candidate`.
pub struct CandidateView {
    pub id: Seq<char>,
    pub key: Seq<char>,
    pub tunnel_id: Seq<char>,
    pub auth_token: Option<Seq<char>>,
}

impl View for Candidate {
    type V = CandidateView;

    open spec fn view(&self) -> CandidateView {
        CandidateView {
            id: self.id.0@,
            key: self.key.0@,
            tunnel_id: self.tunnel_id@,
            auth_token: text::opt_text(self.auth_token),
        }
    }
}

/// What a claim to a sub-domain makes of a client with this id: a candidate for it.
pub open spec fn claimed(claim: ClaimView, id: Seq<char>) -> CandidateView {
    CandidateView { id, key: claim.key, tunnel_id: claim.sub_domain, auth_token: claim.auth_token }
}

/// Makes a client with this id a candidate for the sub-domain that it claims.
pub fn on_claim(claim: Claim, id: ClientId) -> (candidate: Candidate)
    ensures
        candidate@ == claimed(claim@, id.0@),
{
    Candidate { id, key: claim.key, tunnel_id: claim.sub_domain, auth_token: claim.auth_token }
}

/// What is to be done once a tunnel id was requested.
pub enum TunnelAction {
    /// End the handshake.
    Finish(HandshakeEnd),
    /// Ask whose tunnel it is.
    AuthSubDomain(Candidate),
}

/// A `TunnelAction` with its view.
pub enum TunnelActionView {
    Finish(HandshakeEndView),
    AuthSubDomain(CandidateView),
}

impl View for TunnelAction {
    type V = TunnelActionView;

    open spec fn view(&self) -> TunnelActionView {
        match self {
            TunnelAction::Finish(end) => TunnelActionView::Finish(end@),
            TunnelAction::AuthSubDomain(candidate) => TunnelActionView::AuthSubDomain(candidate@),
        }
    }
}

/// What is to be done once a tunnel id was requested for a client with this id.
pub open spec fn tunnel_action(
    admission: AdmissionView,
    id: Seq<char>,
    tunnel: Result<Seq<char>, Seq<char>>,
) -> TunnelActionView {
    match tunnel {
        Err(reason) => TunnelActionView::Finish(
            HandshakeEndView::Reject(ServerHelloView::Error(reason)),
        ),
        Ok(tunnel_id) => match admission.key {
            None => TunnelActionView::Finish(
                HandshakeEndView::Accept(
                    ClientHandshakeView {
                        id,
                        sub_domain: tunnel_id,
                        is_anonymous: true,
                        auth_token: admission.auth_token,
                    },
                ),
            ),
            Some(key) => TunnelActionView::AuthSubDomain(
                CandidateView { id, key, tunnel_id, auth_token: admission.auth_token },
            ),
        },
    }
}

/// Decides how to go on once a tunnel id was requested for a client with this id.
pub fn on_tunnel_id(
    admission: Admission,
    id: ClientId,
    tunnel: Result<String, String>,
) -> (action: TunnelAction)
    ensures
        action@ == tunnel_action(admission@, id.0@, tunnel_id::result_texts(tunnel)),
{
    match tunnel {
        Err(reason) => TunnelAction::Finish(HandshakeEnd::Reject(ServerHello::Error(reason))),
        Ok(tunnel_id) => match admission.key {
            None => TunnelAction::Finish(
                HandshakeEnd::Accept(
                    ClientHandshake {
                        id,
                        sub_domain: tunnel_id,
                        is_anonymous: true,
                        auth_token: admission.auth_token,
                    },
                ),
            ),
            Some(key) => TunnelAction::AuthSubDomain(
                Candidate { id, key, tunnel_id, auth_token: admission.auth_token },
            ),
        },
    }
}

/// How the handshake ends with a client with a key, given whose tunnel it is, where that
/// could be found out.
pub open spec fn authenticated(
    candidate: CandidateView,
    result: Option<AuthResult>,
) -> HandshakeEndView {
    match result {
        Some(AuthResult::Available) | Some(AuthResult::ReservedByYou) => HandshakeEndView::Accept(
            ClientHandshakeView {
                id: candidate.id,
                sub_domain: candidate.tunnel_id,
                is_anonymous: false,
                auth_token: candidate.auth_token,
            },
        ),
        Some(AuthResult::ReservedByOther) => HandshakeEndView::Reject(
            ServerHelloView::SubDomainInUse,
        ),
        Some(AuthResult::ReservedByYouButDelinquent) | Some(AuthResult::PaymentRequired)
        | None => HandshakeEndView::Reject(ServerHelloView::AuthFailed),
    }
}

/// Ends the handshake with a client with a key, given whose tunnel it is, where that could
/// be found out.
pub fn on_auth_result(candidate: Candidate, result: Option<AuthResult>) -> (end: HandshakeEnd)
    ensures
        end@ == authenticated(candidate@, result),
{
    match result {
        Some(AuthResult::Available) | Some(AuthResult::ReservedByYou) => HandshakeEnd::Accept(
            ClientHandshake {
                id: candidate.id,
                sub_domain: candidate.tunnel_id,
                is_anonymous: false,
                auth_token: candidate.auth_token,
            },
        ),
        Some(AuthResult::ReservedByOther) => HandshakeEnd::Reject(ServerHello::SubDomainInUse),
        Some(AuthResult::ReservedByYouButDelinquent) | Some(AuthResult::PaymentRequired)
        | None => HandshakeEnd::Reject(ServerHello::AuthFailed),
    }
}

/// What the world answers in the course of a handshake.
pub struct Answers {
    /// What the reconnect token says, where it is valid.
    pub payload: Option<PayloadView>,
    /// The id that the client has or is given.
    pub client_id: Seq<char>,
    /// What the id service replies.
    pub guid: tunnel_id::GuidReplyView,
    /// Whose tunnel it is, where that can be found out.
    pub auth: Option<AuthResult>,
}

/// How a handshake ends from its first message on. `None` where it ends without a word.
pub open spec fn handshake(
    config: ConfigView,
    first: FirstMessageView,
    answers: Answers,
) -> Option<HandshakeEndView> {
    match first_action(config, first) {
        HelloActionView::Close => None,
        HelloActionView::Reject(reply) => Some(HandshakeEndView::Reject(reply)),
        HelloActionView::VerifyToken(_, auth_token) => Some(
            reconnected(answers.payload, auth_token),
        ),
        HelloActionView::ClaimSubDomain(claim) => Some(
            authenticated(claimed(claim, answers.client_id), answers.auth),
        ),
        HelloActionView::RequestTunnel(admission) => match tunnel_action(
            admission,
            answers.client_id,
            tunnel_id::requested_tunnel_id(config, answers.guid),
        ) {
            TunnelActionView::Finish(end) => Some(end),
            TunnelActionView::AuthSubDomain(candidate) => Some(
                authenticated(candidate, answers.auth),
            ),
        },
    }
}

/// Where anonymous clients are not allowed, a client without a key is turned away,
/// whatever else it shows.
pub proof fn law_anonymous_clients_need_permission(
    config: ConfigView,
    hello: ClientHelloView,
    answers: Answers,
)
    requires
        !config.allow_anonymous,
        hello.key is None,
    ensures
        handshake(config, FirstMessageView::Hello(hello), answers) == Some(
            HandshakeEndView::Reject(ServerHelloView::AuthFailed),
        ),
{
}

/// A client with a key gets the sub-domain that it asks for, in small letters, where that
/// is a valid name for a tunnel and is its own or nobody's. Where it is someone else's, or
/// not paid for, the client is told so, and gets no other.
pub proof fn law_clients_get_the_sub_domain_they_ask_for(
    config: ConfigView,
    hello: ClientHelloView,
    answers: Answers,
)
    requires
        hello.key is Some,
        hello.reconnect_token is None,
        hello.sub_domain is Some,
        tunnel_id::valid_tunnel_id(config, text::lower(hello.sub_domain->0)),
    ensures
        handshake(config, FirstMessageView::Hello(hello), answers) == Some(
            if answers.auth == Some(AuthResult::Available) || answers.auth == Some(
                AuthResult::ReservedByYou,
            ) {
                HandshakeEndView::Accept(
                    ClientHandshakeView {
                        id: answers.client_id,
                        sub_domain: text::lower(hello.sub_domain->0),
                        is_anonymous: false,
                        auth_token: clean_token(hello.auth_token),
                    },
                )
            } else if answers.auth == Some(AuthResult::ReservedByOther) {
                HandshakeEndView::Reject(ServerHelloView::SubDomainInUse)
            } else {
                HandshakeEndView::Reject(ServerHelloView::AuthFailed)
            },
        ),
{
}

/// A client that claims no sub-domain is treated as if it had not asked for one: it is
/// given a fresh id.
pub proof fn law_other_clients_get_a_fresh_id(
    config: ConfigView,
    hello: ClientHelloView,
    answers: Answers,
)
    requires
        claimed_name(config, hello) is None,
    ensures
        handshake(config, FirstMessageView::Hello(hello), answers) == handshake(
            config,
            FirstMessageView::Hello(ClientHelloView { sub_domain: None, ..hello }),
            answers,
        ),
        hello.reconnect_token is None ==> (handshake(
            config,
            FirstMessageView::Hello(hello),
            answers,
        ) matches Some(HandshakeEndView::Accept(client)) ==> tunnel_id::requested_tunnel_id(
            config,
            answers.guid,
        ) == Ok::<Seq<char>, Seq<char>>(client.sub_domain)),
{
}

/// The tunnel that a client serves which was let in without a reconnect token: the one it
/// claims, where it claims one, and one with a fresh id otherwise.
pub open spec fn is_tunnel_of(
    config: ConfigView,
    hello: ClientHelloView,
    answers: Answers,
    sub_domain: Seq<char>,
) -> bool {
    if claimed_name(config, hello) is Some {
        claimed_name(config, hello) == Some(sub_domain)
    } else {
        tunnel_id::requested_tunnel_id(config, answers.guid) == Ok::<Seq<char>, Seq<char>>(
            sub_domain,
        )
    }
}

/// A client is let in as one with a key only where it has a key, does not reconnect, and
/// the tunnel that it claims, or was given an id for, is its own or nobody's.
pub proof fn law_authenticated_clients_have_a_key(
    config: ConfigView,
    first: FirstMessageView,
    answers: Answers,
)
    ensures
        handshake(config, first, answers) matches Some(HandshakeEndView::Accept(client))
            ==> !client.is_anonymous ==> {
            &&& first matches FirstMessageView::Hello(hello) && hello.key is Some
                && hello.reconnect_token is None && is_tunnel_of(
                config,
                hello,
                answers,
                client.sub_domain,
            )
            &&& answers.auth == Some(AuthResult::Available) || answers.auth == Some(
                AuthResult::ReservedByYou,
            )
            &&& client.id == answers.client_id
        },
{
}

/// Every client that is let in serves a tunnel that it was entitled to: the one that a
/// valid reconnect token of its names, the sub-domain that it claims with its key, or
/// one with a fresh id. Without a reconnect token the name of the tunnel is valid, and a
/// fresh id is canonical.
pub proof fn law_accepted_clients_have_their_tunnel(
    config: ConfigView,
    first: FirstMessageView,
    answers: Answers,
)
    ensures
        handshake(config, first, answers) matches Some(HandshakeEndView::Accept(client)) ==> {
            &&& first matches FirstMessageView::Hello(hello)
            &&& if hello.reconnect_token is Some {
                answers.payload matches Some(p) && p.sub_domain == client.sub_domain
                    && p.client_id == client.id
            } else {
                &&& is_tunnel_of(config, hello, answers, client.sub_domain)
                &&& tunnel_id::valid_tunnel_id(config, client.sub_domain)
                &&& claimed_name(config, hello) is None ==> tunnel_id::is_canonical(
                    client.sub_domain,
                )
            }
        },
{
    tunnel_id::law_requested_ids_are_valid(config, answers.guid);
}

/// The token of a tunnel is the one that its client asked for, without the white space
/// around it, and is never empty.
pub proof fn law_tokens_are_kept(config: ConfigView, first: FirstMessageView, answers: Answers)
    ensures
        handshake(config, first, answers) matches Some(HandshakeEndView::Accept(client)) ==> {
            &&& first is Hello
            &&& client.auth_token == clean_token(first->Hello_0.auth_token)
            &&& client.auth_token matches Some(token) ==> token.len() > 0
        },
{
}

/// A request that carries the token of a tunnel, as its client gave it or as the server
/// keeps it, may use the tunnel.
pub proof fn law_kept_tokens_can_be_carried(
    given: Seq<char>,
    route: crate::forward::RouteView,
    headers: Seq<crate::http::HeaderView>,
)
    requires
        route.auth_token == clean_token(Some(given)),
        crate::http::first_text(headers, route.auth_header) == Some(given)
            || crate::http::first_text(headers, route.auth_header) == route.auth_token,
    ensures
        crate::forward::authorized(route, headers),
{
    text::law_trimmed_texts_stay(given);
}

/// A client that says nothing is left without a word. To every other message there is an
/// end: either the client is let in or it is told why not.
pub proof fn law_every_message_has_an_end(
    config: ConfigView,
    first: FirstMessageView,
    answers: Answers,
)
    ensures
        handshake(config, first, answers) is None <==> first is Missing,
{
}

/// Whether a token that a client gives is kept as `kept`: without the white space around it,
/// and not at all where it is nothing else.
pub open spec fn is_kept_as(given: Option<Seq<char>>, kept: Option<Seq<char>>) -> bool {
    match (given, kept) {
        (None, None) => true,
        (Some(token), None) => text::all_white(token),
        (Some(token), Some(core)) => {
            &&& core.len() > 0
            &&& text::is_bare(core)
            &&& exists|before: Seq<char>, after: Seq<char>|
                text::all_white(before) && text::all_white(after) && token == #[trigger] (before
                    + core + after)
        },
        (None, Some(_)) => false,
    }
}

/// The token of a tunnel is kept without the white space around it, and nothing else is
/// changed in it.
pub proof fn law_tokens_are_kept_bare(given: Option<Seq<char>>, kept: Option<Seq<char>>)
    ensures
        is_kept_as(given, kept) <==> clean_token(given) == kept,
{
    if let Some(token) = given {
        let parts = text::lemma_trimmed_parts(token);
        let none = Seq::<char>::empty();
        if text::all_white(token) {
            assert(token =~= token + none + none);
            text::law_trimming_takes_off_white_space(token, none, none);
        }
        if text::trimmed(token).len() == 0 {
            assert forall|i: int| 0 <= i < token.len() implies text::is_white_space(
                #[trigger] token[i],
            ) by {
                if i < parts.0.len() {
                    assert(token[i] == parts.0[i]);
                } else {
                    assert(token[i] == parts.1[i - parts.0.len()]);
                }
            }
        }
        if let Some(core) = kept {
            if is_kept_as(given, kept) {
                let (before, after) = choose|before: Seq<char>, after: Seq<char>|
                    text::all_white(before) && text::all_white(after) && token
                        == #[trigger] (before + core + after);
                text::law_trimming_takes_off_white_space(before, core, after);
            }
            if clean_token(given) == kept {
                assert(token == parts.0 + core + parts.1);
            }
        }
    }
}

/// Where anonymous clients are allowed, one that shows no reconnect token, and for which the
/// id service gives an id, is let in: under that id and the client id that it is given, as
/// an anonymous client, whether it gives a token for its tunnel or not, whatever sub-domain
/// it asks for, and whatever the auth service would say.
pub proof fn law_anonymous_clients_are_let_in(
    config: ConfigView,
    hello: ClientHelloView,
    answers: Answers,
    id: Seq<char>,
    kept: Option<Seq<char>>,
)
    requires
        config.allow_anonymous,
        hello.key is None,
        hello.reconnect_token is None,
        tunnel_id::requested_tunnel_id(config, answers.guid) == Ok::<Seq<char>, Seq<char>>(id),
        is_kept_as(hello.auth_token, kept),
    ensures
        handshake(config, FirstMessageView::Hello(hello), answers) == Some(
            HandshakeEndView::Accept(
                ClientHandshakeView {
                    id: answers.client_id,
                    sub_domain: id,
                    is_anonymous: true,
                    auth_token: kept,
                },
            ),
        ),
{
    law_tokens_are_kept_bare(hello.auth_token, kept);
}

/// Whether `name` is the sub-domain that a client asks for, in small letters, and can be the
/// name of a tunnel.
pub open spec fn can_have(config: ConfigView, asked: Option<Seq<char>>, name: Seq<char>) -> bool {
    &&& asked matches Some(s) && text::same_letters(s, name)
    &&& forall|i: int| 0 <= i < name.len() ==> !('A' <= #[trigger] name[i] && name[i] <= 'Z')
    &&& tunnel_id::valid_tunnel_id(config, name)
}

/// Whether `name` is what a client with a key gets as the name of its tunnel, if it may have
/// it: the sub-domain that it asks for and can have, or else the id that the id service
/// gives.
pub open spec fn is_name_for(
    config: ConfigView,
    hello: ClientHelloView,
    answers: Answers,
    name: Seq<char>,
) -> bool {
    ||| can_have(config, hello.sub_domain, name)
    ||| (forall|other: Seq<char>| !#[trigger] can_have(config, hello.sub_domain, other))
        && tunnel_id::requested_tunnel_id(config, answers.guid) == Ok::<Seq<char>, Seq<char>>(name)
}

/// What a client can have is the name that it claims.
proof fn lemma_can_have(config: ConfigView, asked: Option<Seq<char>>)
    ensures
        match tunnel_name(config, asked) {
            Some(name) => can_have(config, asked, name),
            None => forall|name: Seq<char>| !#[trigger] can_have(config, asked, name),
        },
        forall|name: Seq<char>|
            #[trigger] can_have(config, asked, name) ==> tunnel_name(config, asked) == Some(name),
{
    if let Some(s) = asked {
        text::law_small_letters_are_small(s);
        assert forall|name: Seq<char>| #[trigger] can_have(config, asked, name) implies name
            == text::lower(s) by {
            text::law_case_makes_no_difference(s, name);
            text::lemma_already_small(name);
        }
    }
}

/// A client with a key that shows no reconnect token ends up as the auth service says of the
/// name that it gets: let in under that name where the name is its own or nobody's, told that
/// the name is in use where it is someone else's, and that it could not be authenticated
/// where it would have to pay or the service does not answer.
pub proof fn law_clients_with_a_key_are_let_in(
    config: ConfigView,
    hello: ClientHelloView,
    answers: Answers,
    name: Seq<char>,
    kept: Option<Seq<char>>,
)
    requires
        hello.key is Some,
        hello.reconnect_token is None,
        is_name_for(config, hello, answers, name),
        is_kept_as(hello.auth_token, kept),
    ensures
        ({
            let end = handshake(config, FirstMessageView::Hello(hello), answers);
            &&& answers.auth == Some(AuthResult::Available) || answers.auth == Some(
                AuthResult::ReservedByYou,
            ) ==> end == Some(
                HandshakeEndView::Accept(
                    ClientHandshakeView {
                        id: answers.client_id,
                        sub_domain: name,
                        is_anonymous: false,
                        auth_token: kept,
                    },
                ),
            )
            &&& answers.auth == Some(AuthResult::ReservedByOther) ==> end == Some(
                HandshakeEndView::Reject(ServerHelloView::SubDomainInUse),
            )
            &&& answers.auth == Some(AuthResult::ReservedByYouButDelinquent) || answers.auth
                == Some(AuthResult::PaymentRequired) || answers.auth is None ==> end == Some(
                HandshakeEndView::Reject(ServerHelloView::AuthFailed),
            )
        }),
{
    law_tokens_are_kept_bare(hello.auth_token, kept);
    lemma_can_have(config, hello.sub_domain);
}

/// The auth service is asked about the key of the client and the name that it gets.
pub proof fn law_the_right_name_is_asked_for(
    config: ConfigView,
    hello: ClientHelloView,
    answers: Answers,
    name: Seq<char>,
    kept: Option<Seq<char>>,
)
    requires
        hello.key is Some,
        hello.reconnect_token is None,
        is_name_for(config, hello, answers, name),
        is_kept_as(hello.auth_token, kept),
    ensures
        ({
            let candidate = CandidateView {
                id: answers.client_id,
                key: hello.key->0,
                tunnel_id: name,
                auth_token: kept,
            };
            match hello_action(config, hello) {
                HelloActionView::ClaimSubDomain(claim) => claimed(claim, answers.client_id)
                    == candidate,
                HelloActionView::RequestTunnel(admission) => tunnel_action(
                    admission,
                    answers.client_id,
                    tunnel_id::requested_tunnel_id(config, answers.guid),
                ) == TunnelActionView::AuthSubDomain(candidate),
                _ => false,
            }
        }),
{
    law_tokens_are_kept_bare(hello.auth_token, kept);
    lemma_can_have(config, hello.sub_domain);
}

/// A client that is to be given an id is told why there is none, where there is none.
pub proof fn law_clients_are_told_why_there_is_no_id(
    config: ConfigView,
    hello: ClientHelloView,
    answers: Answers,
    reason: Seq<char>,
)
    requires
        hello.key is None ==> config.allow_anonymous,
        hello.reconnect_token is None,
        hello.key is Some ==> forall|name: Seq<char>|
            !#[trigger] can_have(config, hello.sub_domain, name),
        tunnel_id::requested_tunnel_id(config, answers.guid) == Err::<Seq<char>, Seq<char>>(reason),
    ensures
        handshake(config, FirstMessageView::Hello(hello), answers) == Some(
            HandshakeEndView::Reject(ServerHelloView::Error(reason)),
        ),
{
    lemma_can_have(config, hello.sub_domain);
}

/// A client that shows a reconnect token has that token verified and no other, and gets back
/// what a valid one says, whatever else it shows, whatever it asks for and whatever the
/// services would say. One with an invalid token is turned away.
pub proof fn law_clients_reconnect(
    config: ConfigView,
    hello: ClientHelloView,
    answers: Answers,
    kept: Option<Seq<char>>,
)
    requires
        hello.key is None ==> config.allow_anonymous,
        hello.reconnect_token is Some,
        is_kept_as(hello.auth_token, kept),
    ensures
        hello_action(config, hello) == HelloActionView::VerifyToken(hello.reconnect_token->0, kept),
        handshake(config, FirstMessageView::Hello(hello), answers) == Some(
            match answers.payload {
                Some(payload) => HandshakeEndView::Accept(
                    ClientHandshakeView {
                        id: payload.client_id,
                        sub_domain: payload.sub_domain,
                        is_anonymous: true,
                        auth_token: kept,
                    },
                ),
                None => HandshakeEndView::Reject(ServerHelloView::AuthFailed),
            },
        ),
{
    law_tokens_are_kept_bare(hello.auth_token, kept);
}

/// A client that says nothing is left without a word, and one whose message cannot be read
/// is told that it could not be authenticated.
pub proof fn law_other_messages_open_no_tunnel(config: ConfigView, answers: Answers)
    ensures
        handshake(config, FirstMessageView::Missing, answers) is None,
        handshake(config, FirstMessageView::Unreadable, answers) == Some(
            HandshakeEndView::Reject(ServerHelloView::AuthFailed),
        ),
{
}

/// The view of a hello says all that it says.
pub proof fn law_hellos_are_seen_whole(first: FirstMessage)
    ensures
        match first {
            FirstMessage::Missing => first@ is Missing,
            FirstMessage::Unreadable => first@ is Unreadable,
            FirstMessage::Hello(hello) => {
                &&& first@ == FirstMessageView::Hello(hello@)
                &&& match hello.client_type {
                    ClientType::Auth { key } => hello@.key == Some(key.0@),
                    ClientType::Anonymous => hello@.key is None,
                }
                &&& match hello.reconnect_token {
                    Some(token) => hello@.reconnect_token == Some(token.0@),
                    None => hello@.reconnect_token is None,
                }
                &&& match hello.sub_domain {
                    Some(name) => hello@.sub_domain == Some(name@),
                    None => hello@.sub_domain is None,
                }
                &&& match hello.auth_token {
                    Some(token) => hello@.auth_token == Some(token@),
                    None => hello@.auth_token is None,
                }
            },
        },
{
}

/// The view of how a handshake ends says all of it.
pub proof fn law_ends_are_seen_whole(end: HandshakeEnd)
    ensures
        match end {
            HandshakeEnd::Accept(client) => {
                &&& end@ == HandshakeEndView::Accept(client@)
                &&& client@.id == client.id.0@
                &&& client@.sub_domain == client.sub_domain@
                &&& client@.is_anonymous == client.is_anonymous
                &&& match client.auth_token {
                    Some(token) => client@.auth_token == Some(token@),
                    None => client@.auth_token is None,
                }
            },
            HandshakeEnd::Reject(ServerHello::AuthFailed) => end@ == HandshakeEndView::Reject(
                ServerHelloView::AuthFailed,
            ),
            HandshakeEnd::Reject(ServerHello::SubDomainInUse) => end@ == HandshakeEndView::Reject(
                ServerHelloView::SubDomainInUse,
            ),
            HandshakeEnd::Reject(ServerHello::Error(reason)) => end@ == HandshakeEndView::Reject(
                ServerHelloView::Error(reason@),
            ),
        },
{
}

} // verus!
