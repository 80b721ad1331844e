//! What the operator of a server decides.

use vstd::prelude::*;

verus! {

/// The settings that the decisions depend on.
pub struct Config {
    /// Whether clients without an authentication key may open a tunnel.
    pub allow_anonymous: bool,
    /// The host names that requests may be addressed to, and whose sub-domains name tunnels.
    pub allowed_hosts: Vec<String>,
    /// Names that no tunnel may have.
    pub blocked_sub_domains: Vec<String>,
    /// The name of the request header that carries the token of a protected tunnel.
    pub tunnel_auth_header: String,
}

/// What a `Config` says, as mathematical values.
pub struct ConfigView {
    pub allow_anonymous: bool,
    pub allowed_hosts: Seq<Seq<char>>,
    pub blocked_sub_domains: Seq<Seq<char>>,
    pub tunnel_auth_header: Seq<char>,
}

impl View for Config {
    type V = ConfigView;

    open spec fn view(&self) -> ConfigView {
        ConfigView {
            allow_anonymous: self.allow_anonymous,
            allowed_hosts: crate::text::texts(self.allowed_hosts@),
            blocked_sub_domains: crate::text::texts(self.blocked_sub_domains@),
            tunnel_auth_header: self.tunnel_auth_header@,
        }
    }
}

/// The view of a `Config` says all that it says.
pub proof fn law_configs_are_seen_whole(config: Config)
    ensures
        config@.allow_anonymous == config.allow_anonymous,
        config@.allowed_hosts.len() == config.allowed_hosts@.len(),
        forall|i: int|
            0 <= i < config.allowed_hosts@.len() ==> #[trigger] config@.allowed_hosts[i]
                == config.allowed_hosts@[i]@,
        config@.blocked_sub_domains.len() == config.blocked_sub_domains@.len(),
        forall|i: int|
            0 <= i < config.blocked_sub_domains@.len() ==> #[trigger] config@.blocked_sub_domains[i]
                == config.blocked_sub_domains@[i]@,
        config@.tunnel_auth_header == config.tunnel_auth_header@,
{
}

} // verus!
