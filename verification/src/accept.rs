//! New connections from the remote side: to the control server, to the client of a
//! tunnel, to another instance of the server, or answered right away.

use crate::client_auth;
use crate::client_auth::ClientHandshakeView;
use crate::client_auth::ClientHelloView;
use crate::client_auth::FirstMessageView;
use crate::client_auth::HandshakeEndView;
use crate::config::Config;
use crate::config::ConfigView;
use crate::paths;
use crate::peek;
use crate::peek::Peeked;
use crate::peek::PeekedRequestView;
use crate::peek::PeekedView;
use crate::responses::Response;
use crate::text;
use crate::tunnel_id;
use crate::tunnel_id::NamedBy;
use crate::urls;
use vstd::prelude::*;
use vstd::string::*;

verus! {

/// What is to be done about a new connection.
pub enum AcceptAction {
    /// Drop it.
    Drop,
    /// Write this answer.
    Answer(Response),
    /// Hand it to the control server.
    DirectToControl,
    /// Look for the client of this tunnel, which was named like this.
    FindClient(String, NamedBy),
}

/// An `AcceptAction` with the text of its tunnel id.
pub enum AcceptActionView {
    Drop,
    Answer(Response),
    DirectToControl,
    FindClient(Seq<char>, NamedBy),
}

impl View for AcceptAction {
    type V = AcceptActionView;

    open spec fn view(&self) -> AcceptActionView {
        match self {
            AcceptAction::Drop => AcceptActionView::Drop,
            AcceptAction::Answer(response) => AcceptActionView::Answer(*response),
            AcceptAction::DirectToControl => AcceptActionView::DirectToControl,
            AcceptAction::FindClient(id, named_by) => AcceptActionView::FindClient(id@, *named_by),
        }
    }
}

/// Whether `host` is where the control server is reached: an allowed host behind
/// `wormhole.`.
pub open spec fn is_control_host(config: ConfigView, host: Seq<char>) -> bool {
    &&& "wormhole."@.is_prefix_of(host)
    &&& config.allowed_hosts.contains(host.skip("wormhole."@.len() as int))
}

/// Whether a dot stands at position `i` of `host`, with something before it and an allowed
/// host behind it.
pub open spec fn names_sub_domain(config: ConfigView, host: Seq<char>, i: int) -> bool {
    &&& 0 < i < host.len()
    &&& host[i] == '.'
    &&& config.allowed_hosts.contains(host.skip(i + 1))
}

/// The first position from `from` on at which `host` names a sub-domain.
pub open spec fn sub_domain_end(config: ConfigView, host: Seq<char>, from: int) -> Option<int>
    decreases host.len() - from,
{
    if from >= host.len() {
        None
    } else if names_sub_domain(config, host, from) {
        Some(from)
    } else {
        sub_domain_end(config, host, from + 1)
    }
}

/// The sub-domain of an allowed host that `host` is. Where several allowed hosts come into
/// question it is a sub-domain of the longest.
pub open spec fn sub_domain_of(config: ConfigView, host: Seq<char>) -> Option<Seq<char>> {
    match sub_domain_end(config, host, 0) {
        Some(end) => Some(host.take(end)),
        None => None,
    }
}

/// Finds the sub-domain of an allowed host that `host` is.
pub fn sub_domain(config: &Config, host: &str) -> (name: Option<String>)
    ensures
        text::opt_text(name) == sub_domain_of(config@, host@),
{
    let chars = text::chars_of(host);
    let n: usize = chars.len();
    let mut i: usize = 0;
    while i < n
        invariant
            i <= n,
            n == chars@.len(),
            chars@ == host@,
            sub_domain_end(config@, host@, 0) == sub_domain_end(config@, host@, i as int),
        decreases n - i,
    {
        if i > 0 && chars[i] == '.' {
            let base = host.substring_char(i + 1, n);
            assert(base@ =~= host@.skip(i + 1));
            if urls::is_allowed_host(config, base) {
                let name = host.substring_char(0, i);
                assert(name@ =~= host@.take(i as int));
                return Some(name.to_owned());
            }
        }
        i = i + 1;
    }
    None
}

/// What is to be done about a request, given the normal form of its host, if it has one,
/// and its target. On an allowed host the path names the tunnel; a sub-domain of an
/// allowed host names it by itself.
pub open spec fn routed(
    config: ConfigView,
    host: Option<Seq<char>>,
    path: Seq<char>,
) -> AcceptActionView {
    match host {
        None => AcceptActionView::Answer(Response::InvalidHost),
        Some(host) => if is_control_host(config, host) {
            AcceptActionView::DirectToControl
        } else if config.allowed_hosts.contains(host) {
            match paths::tunnel_of(urls::normal_target(path)) {
                Some(id) => AcceptActionView::FindClient(id, NamedBy::Path),
                None => AcceptActionView::Answer(Response::NotFound),
            }
        } else {
            match sub_domain_of(config, host) {
                Some(name) => AcceptActionView::FindClient(name, NamedBy::Host),
                None => AcceptActionView::Answer(Response::InvalidHost),
            }
        },
    }
}

/// What is to be done about a connection, given what the first look at it found.
pub open spec fn accepted(config: ConfigView, peeked: PeekedView) -> AcceptActionView {
    match peeked {
        PeekedView::Nothing => AcceptActionView::Drop,
        PeekedView::HealthCheck => AcceptActionView::Answer(Response::Healthy),
        PeekedView::Request(request) => routed(
            config,
            urls::normal_host(request.host),
            request.path,
        ),
    }
}

/// Decides about a request, given the normal form of its host, if it has one, and its
/// target.
pub fn route_request(config: &Config, host: Option<String>, path: &str) -> (action: AcceptAction)
    ensures
        action@ == routed(config@, text::opt_text(host), path@),
{
    let host = match host {
        Some(host) => host,
        None => return AcceptAction::Answer(Response::InvalidHost),
    };
    if let Some(base_host) = text::strip_prefix(host.as_str(), "wormhole.") {
        if urls::is_allowed_host(config, base_host.as_str()) {
            return AcceptAction::DirectToControl;
        }
    }
    if !urls::is_allowed_host(config, host.as_str()) {
        return match sub_domain(config, host.as_str()) {
            Some(name) => AcceptAction::FindClient(name, NamedBy::Host),
            None => AcceptAction::Answer(Response::InvalidHost),
        };
    }
    match paths::extract_tunnel_id(path) {
        Some(id) => AcceptAction::FindClient(id, NamedBy::Path),
        None => AcceptAction::Answer(Response::NotFound),
    }
}

/// Decides about a connection, given what the first look at it found.
pub fn accept_peeked(config: &Config, peeked: Peeked) -> (action: AcceptAction)
    ensures
        action@ == accepted(config@, peeked@),
{
    match peeked {
        Peeked::Nothing => AcceptAction::Drop,
        Peeked::HealthCheck => AcceptAction::Answer(Response::Healthy),
        Peeked::Request(request) => {
            let host = urls::normalize_host(request.host.as_str());
            route_request(config, host, request.path.as_str())
        },
    }
}

/// Decides about a new connection on which these bytes came in, or which could not be
/// read.
pub fn accept_connection(config: &Config, received: Option<&[u8]>) -> (action: AcceptAction)
    ensures
        action@ == (match received {
            Some(bytes) => accepted(config@, peek::peeked(bytes@)),
            None => AcceptActionView::Drop,
        }),
{
    match received {
        Some(bytes) => accept_peeked(config, peek::peek_http_request_host(bytes)),
        None => AcceptAction::Drop,
    }
}

/// What is to be done once the client of a tunnel was looked for.
#[derive(Clone, Copy, Debug, PartialEq, Eq, Structural)]
pub enum ClientAction {
    /// Open a stream to the client.
    OpenStream,
    /// Look for another instance of the server that serves the tunnel.
    FindInstance,
}

/// Decides how to go on once the client of a tunnel was looked for.
pub fn on_client_lookup(found: bool) -> (action: ClientAction)
    ensures
        action == (if found {
            ClientAction::OpenStream
        } else {
            ClientAction::FindInstance
        }),
{
    if found {
        ClientAction::OpenStream
    } else {
        ClientAction::FindInstance
    }
}

/// What came of looking for another instance that serves a tunnel.
#[derive(Clone, Copy, Debug, PartialEq, Eq, Structural)]
pub enum InstanceLookup {
    /// There is one.
    Found,
    /// There is none.
    DoesNotServeHost,
    /// It could not be found out.
    Failed,
}

/// What is to be done once another instance was looked for.
#[derive(Clone, Copy, Debug, PartialEq, Eq, Structural)]
pub enum InstanceAction {
    /// Hand the connection to the instance.
    Proxy,
    /// Write this answer.
    Answer(Response),
}

/// What is to be done once another instance was looked for.
pub open spec fn instance_action(lookup: InstanceLookup) -> InstanceAction {
    match lookup {
        InstanceLookup::Found => InstanceAction::Proxy,
        InstanceLookup::DoesNotServeHost => InstanceAction::Answer(Response::NotFound),
        InstanceLookup::Failed => InstanceAction::Answer(Response::ErrorLocatingHost),
    }
}

/// Decides how to go on once another instance was looked for.
pub fn on_instance_lookup(lookup: InstanceLookup) -> (action: InstanceAction)
    ensures
        action == instance_action(lookup),
{
    match lookup {
        InstanceLookup::Found => InstanceAction::Proxy,
        InstanceLookup::DoesNotServeHost => InstanceAction::Answer(Response::NotFound),
        InstanceLookup::Failed => InstanceAction::Answer(Response::ErrorLocatingHost),
    }
}

/// Where a sub-domain is found, its host names it there and nowhere before.
proof fn lemma_sub_domain_end(config: ConfigView, host: Seq<char>, from: int)
    ensures
        sub_domain_end(config, host, from) matches Some(end) ==> from <= end
            && names_sub_domain(config, host, end),
        forall|i: int|
            from <= i && #[trigger] names_sub_domain(config, host, i) ==> sub_domain_end(
                config,
                host,
                from,
            ) is Some && sub_domain_end(config, host, from)->0 <= i,
    decreases host.len() - from,
{
    if from < host.len() && !names_sub_domain(config, host, from) {
        lemma_sub_domain_end(config, host, from + 1);
    }
}

/// A client is looked for only on behalf of a request to an allowed host, under an id in
/// the canonical spelling, or to a sub-domain of an allowed host, under that sub-domain.
pub proof fn law_only_allowed_hosts_reach_tunnels(
    config: ConfigView,
    host: Option<Seq<char>>,
    path: Seq<char>,
)
    ensures
        routed(config, host, path) matches AcceptActionView::FindClient(id, NamedBy::Path)
            ==> host is Some && config.allowed_hosts.contains(host->0) && tunnel_id::is_canonical(
            id,
        ),
        routed(config, host, path) matches AcceptActionView::FindClient(id, NamedBy::Host)
            ==> host is Some && id.len() > 0 && exists|base: Seq<char>|
            config.allowed_hosts.contains(base) && host->0 == #[trigger] (id + "."@ + base),
        routed(config, host, path) is DirectToControl ==> host is Some && is_control_host(
            config,
            host->0,
        ),
{
    if let Some(segment) = paths::first_segment(urls::normal_target(path)) {
        if tunnel_id::canonical_uuid(segment) is Some {
            tunnel_id::law_ids_are_canonical(segment);
        }
    }
    if let AcceptActionView::FindClient(id, NamedBy::Host) = routed(config, host, path) {
        reveal_strlit(".");
        lemma_sub_domain_end(config, host->0, 0);
        let end = sub_domain_end(config, host->0, 0)->0;
        let base = host->0.skip(end + 1);
        assert(host->0 =~= id + "."@ + base);
    }
}

/// A host that is neither allowed, nor the host of the control server, nor a sub-domain of
/// an allowed host is answered that it is invalid, whatever the request asks for.
pub proof fn law_other_hosts_are_refused(config: ConfigView, host: Seq<char>, path: Seq<char>)
    requires
        !config.allowed_hosts.contains(host),
        !is_control_host(config, host),
        forall|i: int| !#[trigger] names_sub_domain(config, host, i),
    ensures
        routed(config, Some(host), path) == AcceptActionView::Answer(Response::InvalidHost),
{
    lemma_sub_domain_end(config, host, 0);
}

/// A sub-domain of an allowed host leads to the tunnel of that name, whatever the request
/// asks for. This holds unless the host is allowed itself, is the host of the control
/// server, or is a sub-domain of a longer allowed host.
pub proof fn law_sub_domains_reach_their_tunnel(
    config: ConfigView,
    name: Seq<char>,
    base: Seq<char>,
    path: Seq<char>,
)
    requires
        name.len() > 0,
        config.allowed_hosts.contains(base),
        !config.allowed_hosts.contains(name + "."@ + base),
        !is_control_host(config, name + "."@ + base),
        forall|i: int|
            0 <= i < name.len() ==> !#[trigger] names_sub_domain(config, name + "."@ + base, i),
    ensures
        routed(config, Some(name + "."@ + base), path) == AcceptActionView::FindClient(
            name,
            NamedBy::Host,
        ),
{
    reveal_strlit(".");
    let host = name + "."@ + base;
    let n = name.len() as int;
    assert(host.skip(n + 1) =~= base);
    assert(host.take(n) =~= name);
    assert(names_sub_domain(config, host, n));
    lemma_sub_domain_end(config, host, 0);
}

/// A name of one label, other than that of the control host, leads to the tunnel of that
/// name below every allowed host, unless the two together are an allowed host themselves.
pub proof fn law_labels_reach_their_tunnel(
    config: ConfigView,
    name: Seq<char>,
    base: Seq<char>,
    path: Seq<char>,
)
    requires
        name.len() > 0,
        name != "wormhole"@,
        !name.contains('.'),
        config.allowed_hosts.contains(base),
        !config.allowed_hosts.contains(name + "."@ + base),
    ensures
        routed(config, Some(name + "."@ + base), path) == AcceptActionView::FindClient(
            name,
            NamedBy::Host,
        ),
{
    reveal_strlit(".");
    reveal_strlit("wormhole");
    reveal_strlit("wormhole.");
    let host = name + "."@ + base;
    let n = name.len() as int;
    assert forall|i: int| 0 <= i < n implies !#[trigger] names_sub_domain(config, host, i) by {
        assert(host[i] == name[i]);
    }
    if is_control_host(config, host) {
        assert(host.subrange(0, 9) =~= "wormhole."@);
        assert forall|i: int| 0 <= i < 9 implies #[trigger] host[i] == "wormhole."@[i] by {
            assert(host[i] == host.subrange(0, 9)[i]);
        }
        if n < 8 {
            assert(host[n] == '.');
        } else if n > 8 {
            assert(name[8] == host[8]);
        } else {
            assert forall|i: int| 0 <= i < 8 implies #[trigger] name[i] == "wormhole"@[i] by {
                assert(name[i] == host[i]);
            }
            assert(name =~= "wormhole"@);
        }
    }
    law_sub_domains_reach_their_tunnel(config, name, base, path);
}

/// A client that was let in with the sub-domain that it asked for is found under it: a
/// request whose host is, in normal form, that sub-domain of an allowed host is for this
/// client, in whatever case the client or the request writes the name.
pub proof fn law_granted_sub_domains_lead_to_their_client(
    config: ConfigView,
    hello: ClientHelloView,
    answers: client_auth::Answers,
    client: ClientHandshakeView,
    base: Seq<char>,
    request: PeekedRequestView,
)
    requires
        hello.reconnect_token is None,
        client_auth::claimed_name(config, hello) is Some,
        client_auth::handshake(config, FirstMessageView::Hello(hello), answers) == Some(
            HandshakeEndView::Accept(client),
        ),
        !text::lower(hello.sub_domain->0).contains('.'),
        config.allowed_hosts.contains(base),
        !config.allowed_hosts.contains(text::lower(hello.sub_domain->0) + "."@ + base),
        urls::normal_host(request.host) == Some(text::lower(hello.sub_domain->0) + "."@ + base),
    ensures
        client.sub_domain == text::lower(hello.sub_domain->0),
        text::lower(client.sub_domain) == client.sub_domain,
        accepted(config, PeekedView::Request(request)) == AcceptActionView::FindClient(
            client.sub_domain,
            NamedBy::Host,
        ),
{
    text::law_small_letters_stay(hello.sub_domain->0);
    law_labels_reach_their_tunnel(config, client.sub_domain, base, request.path);
}

/// The id that the id service gives for a new tunnel leads requests to that tunnel: a
/// request to an allowed host whose path starts with the id is for the client under that
/// id, and the rest of the path is what the client gets to see.
pub proof fn law_requests_reach_their_tunnel(
    config: ConfigView,
    reply: tunnel_id::GuidReplyView,
    host: Seq<char>,
    rest: Seq<char>,
)
    requires
        tunnel_id::requested_tunnel_id(config, reply) is Ok,
        config.allowed_hosts.contains(host),
        !is_control_host(config, host),
        rest.len() > 0 ==> rest[0] == '/' || rest[0] == '?',
    ensures
        ({
            let id = tunnel_id::requested_tunnel_id(config, reply)->Ok_0;
            let path = seq!['/'] + id + rest;
            &&& routed(config, Some(host), path) == AcceptActionView::FindClient(
                id,
                NamedBy::Path,
            )
            &&& paths::without_tunnel(urls::normal_target(path), id) == Some(
                if rest.len() > 0 && rest[0] == '/' {
                    rest
                } else {
                    seq!['/'] + rest
                },
            )
        }),
{
    tunnel_id::law_requested_ids_are_valid(config, reply);
    paths::law_ids_are_found_in_their_paths(
        tunnel_id::requested_tunnel_id(config, reply)->Ok_0,
        rest,
    );
}

/// Whether `host` is `wormhole.` and an allowed host.
pub open spec fn is_below_wormhole(config: ConfigView, host: Seq<char>) -> bool {
    exists|base: Seq<char>|
        config.allowed_hosts.contains(base) && host == #[trigger] ("wormhole."@ + base)
}

/// `wormhole.` and an allowed host make the host of the control server, and nothing else
/// does.
proof fn lemma_control_host(config: ConfigView, host: Seq<char>)
    ensures
        is_control_host(config, host) <==> is_below_wormhole(config, host),
{
    reveal_strlit("wormhole.");
    if is_control_host(config, host) {
        let base = host.skip(9);
        assert(host =~= "wormhole."@ + base) by {
            assert(host.subrange(0, 9) =~= "wormhole."@);
            assert(host =~= host.subrange(0, 9) + host.skip(9));
        }
    }
    if is_below_wormhole(config, host) {
        let base = choose|base: Seq<char>|
            config.allowed_hosts.contains(base) && host == #[trigger] ("wormhole."@ + base);
        assert(host.skip(9) =~= base);
        assert(host.subrange(0, 9) =~= "wormhole."@);
    }
}

/// Every connection to `wormhole.` below an allowed host is handed to the control server,
/// whatever its path is, and no other connection is.
pub proof fn law_wormholes_lead_to_the_control_server(
    config: ConfigView,
    host: Option<Seq<char>>,
    path: Seq<char>,
)
    ensures
        routed(config, host, path) is DirectToControl <==> host is Some && is_below_wormhole(
            config,
            host->0,
        ),
        forall|base: Seq<char>|
            config.allowed_hosts.contains(base) ==> routed(
                config,
                Some(#[trigger] ("wormhole."@ + base)),
                path,
            ) is DirectToControl,
{
    if let Some(h) = host {
        lemma_control_host(config, h);
    }
    assert forall|base: Seq<char>| config.allowed_hosts.contains(base) implies routed(
        config,
        Some(#[trigger] ("wormhole."@ + base)),
        path,
    ) is DirectToControl by {
        lemma_control_host(config, "wormhole."@ + base);
    }
}

/// On an allowed host that is no host of the control server a request is for the tunnel
/// whose UUID the first segment of its path spells, under the canonical spelling. Where it
/// spells none, the request is answered that there is no such tunnel.
pub proof fn law_paths_choose_the_tunnel(
    config: ConfigView,
    host: Seq<char>,
    path: Seq<char>,
    segment: Seq<char>,
    rest: Seq<char>,
)
    requires
        config.allowed_hosts.contains(host),
        !is_below_wormhole(config, host),
        urls::stands_for(path, seq!['/'] + segment + rest),
        forall|i: int| 0 <= i < segment.len() ==> #[trigger] segment[i] != '/' && segment[i] != '?',
        paths::follows_a_segment(rest),
    ensures
        routed(config, Some(host), path) == (match tunnel_id::canonical_uuid(segment) {
            Some(id) => AcceptActionView::FindClient(id, NamedBy::Path),
            None => AcceptActionView::Answer(Response::NotFound),
        }),
{
    lemma_control_host(config, host);
    urls::law_targets_stand_for_their_normal_form(path, seq!['/'] + segment + rest);
    paths::law_first_segments_name_tunnels(segment, rest);
}

/// On an allowed host that is no host of the control server, a request whose target does not
/// stand for a path is answered that there is no such tunnel.
pub proof fn law_other_targets_find_no_tunnel(
    config: ConfigView,
    host: Seq<char>,
    path: Seq<char>,
    normal: Seq<char>,
)
    requires
        config.allowed_hosts.contains(host),
        !is_below_wormhole(config, host),
        urls::stands_for(path, normal),
        normal.len() == 0 || normal[0] != '/',
    ensures
        routed(config, Some(host), path) == AcceptActionView::Answer(Response::NotFound),
{
    lemma_control_host(config, host);
    urls::law_targets_stand_for_their_normal_form(path, normal);
    paths::law_other_targets_name_no_tunnel(normal);
}

/// Where `host` names a sub-domain, it is made of the sub-domain, a dot and an allowed host.
proof fn lemma_names_sub_domain(config: ConfigView, host: Seq<char>, i: int)
    ensures
        names_sub_domain(config, host, i) ==> host == host.take(i) + "."@ + host.skip(i + 1)
            && config.allowed_hosts.contains(host.skip(i + 1)) && host.take(i).len() == i && i > 0,
{
    reveal_strlit(".");
    if names_sub_domain(config, host, i) {
        assert(host =~= host.take(i) + "."@ + host.skip(i + 1));
    }
}

/// A host that is a name, a dot and an allowed host is for the tunnel of that name, whatever
/// its path is. Left out are hosts that are allowed themselves, hosts of the control server,
/// and hosts that are a shorter name, a dot and a longer allowed host.
pub proof fn law_names_before_a_dot_choose_the_tunnel(
    config: ConfigView,
    name: Seq<char>,
    base: Seq<char>,
    path: Seq<char>,
)
    requires
        name.len() > 0,
        config.allowed_hosts.contains(base),
        !config.allowed_hosts.contains(name + "."@ + base),
        !is_below_wormhole(config, name + "."@ + base),
        forall|shorter: Seq<char>, longer: Seq<char>|
            0 < shorter.len() < name.len() && config.allowed_hosts.contains(longer) ==> name
                + "."@ + base != #[trigger] (shorter + "."@ + longer),
    ensures
        routed(config, Some(name + "."@ + base), path) == AcceptActionView::FindClient(
            name,
            NamedBy::Host,
        ),
{
    let host = name + "."@ + base;
    lemma_control_host(config, host);
    assert forall|i: int| 0 <= i < name.len() implies !#[trigger] names_sub_domain(
        config,
        host,
        i,
    ) by {
        lemma_names_sub_domain(config, host, i);
    }
    law_sub_domains_reach_their_tunnel(config, name, base, path);
}

/// Every other host, and a request without one, is answered that the host is invalid.
pub proof fn law_foreign_hosts_are_invalid(
    config: ConfigView,
    host: Option<Seq<char>>,
    path: Seq<char>,
)
    requires
        host matches Some(h) ==> !config.allowed_hosts.contains(h) && !is_below_wormhole(config, h)
            && forall|name: Seq<char>, base: Seq<char>|
            name.len() > 0 && config.allowed_hosts.contains(base) ==> h != #[trigger] (name + "."@
                + base),
    ensures
        routed(config, host, path) == AcceptActionView::Answer(Response::InvalidHost),
{
    if let Some(h) = host {
        lemma_control_host(config, h);
        assert forall|i: int| !#[trigger] names_sub_domain(config, h, i) by {
            lemma_names_sub_domain(config, h, i);
        }
        law_other_hosts_are_refused(config, h, path);
    }
}

/// A connection is dropped where the first look found nothing, is answered that the server
/// is in good health where it is asked for that, and goes by its host and its path where it
/// is a request: by the host of the URL that its `Host` header makes.
pub proof fn law_what_was_seen_decides(config: ConfigView, request: PeekedRequestView)
    ensures
        accepted(config, PeekedView::Nothing) is Drop,
        accepted(config, PeekedView::HealthCheck) == AcceptActionView::Answer(Response::Healthy),
        accepted(config, PeekedView::Request(request)) == routed(
            config,
            match urls::parsed_url("http://"@ + request.host) {
                Some(parts) => parts.host,
                None => None,
            },
            request.path,
        ),
{
}

/// A connection is handed to another instance exactly if one serves the tunnel, is answered
/// that there is no tunnel exactly if none does, and that it could not be found out
/// otherwise.
pub proof fn law_instances_are_asked(lookup: InstanceLookup)
    ensures
        instance_action(lookup) is Proxy <==> lookup is Found,
        instance_action(lookup) == InstanceAction::Answer(Response::NotFound)
            <==> lookup is DoesNotServeHost,
        instance_action(lookup) == InstanceAction::Answer(Response::ErrorLocatingHost)
            <==> lookup is Failed,
{
}

/// A host that is a name, a dot and an allowed host is the sub-domain of that name, unless
/// it is also a shorter name, a dot and a longer allowed host.
pub proof fn law_sub_domains_stand_before_a_dot(
    config: ConfigView,
    name: Seq<char>,
    base: Seq<char>,
)
    requires
        name.len() > 0,
        config.allowed_hosts.contains(base),
        forall|shorter: Seq<char>, longer: Seq<char>|
            0 < shorter.len() < name.len() && config.allowed_hosts.contains(longer) ==> name
                + "."@ + base != #[trigger] (shorter + "."@ + longer),
    ensures
        sub_domain_of(config, name + "."@ + base) == Some(name),
{
    reveal_strlit(".");
    let host = name + "."@ + base;
    let n = name.len() as int;
    assert forall|i: int| 0 <= i < n implies !#[trigger] names_sub_domain(config, host, i) by {
        lemma_names_sub_domain(config, host, i);
    }
    assert(host.skip(n + 1) =~= base);
    assert(host.take(n) =~= name);
    assert(names_sub_domain(config, host, n));
    lemma_sub_domain_end(config, host, 0);
}

/// A host that is no name, dot and allowed host is no sub-domain.
pub proof fn law_other_hosts_are_no_sub_domains(config: ConfigView, host: Seq<char>)
    requires
        forall|name: Seq<char>, base: Seq<char>|
            name.len() > 0 && config.allowed_hosts.contains(base) ==> host != #[trigger] (name
                + "."@ + base),
    ensures
        sub_domain_of(config, host) is None,
{
    assert forall|i: int| !#[trigger] names_sub_domain(config, host, i) by {
        lemma_names_sub_domain(config, host, i);
    }
    lemma_sub_domain_end(config, host, 0);
}

/// The view of an action says all that the action says.
pub proof fn law_actions_are_seen_whole(action: AcceptAction)
    ensures
        match action {
            AcceptAction::Drop => action@ is Drop,
            AcceptAction::Answer(response) => action@ == AcceptActionView::Answer(response),
            AcceptAction::DirectToControl => action@ is DirectToControl,
            AcceptAction::FindClient(id, named_by) => action@ == AcceptActionView::FindClient(
                id@,
                named_by,
            ),
        },
{
}

} // verus!
