//! Tunnel ids: UUIDs in the one spelling that a tunnel is known by.

use crate::config::Config;
use crate::config::ConfigView;
use crate::text;
use vstd::prelude::*;
use vstd::string::*;

verus! {

/// What names the tunnel that a connection is for.
#[derive(Clone, Copy, Debug, PartialEq, Eq, Structural)]
pub enum NamedBy {
    /// The first segment of the path of each request.
    Path,
    /// The host that the connection was opened for.
    Host,
}

/// Whether `c` is a hexadecimal digit, small or capital.
pub open spec fn is_hex(c: char) -> bool {
    ('0' <= c && c <= '9') || ('a' <= c && c <= 'f') || ('A' <= c && c <= 'F')
}

/// The characters of the five groups that four hyphens make of `s`, where `s` is
/// grouped like that.
pub open spec fn ungrouped(s: Seq<char>) -> Option<Seq<char>> {
    if s.len() == 36 && s[8] == '-' && s[13] == '-' && s[18] == '-' && s[23] == '-' {
        Some(
            s.subrange(0, 8) + s.subrange(9, 13) + s.subrange(14, 18) + s.subrange(19, 23)
                + s.subrange(24, 36),
        )
    } else {
        None
    }
}

/// Thirty-two characters in five groups with hyphens between them.
pub open spec fn grouped(digits: Seq<char>) -> Seq<char> {
    digits.subrange(0, 8) + seq!['-'] + digits.subrange(8, 12) + seq!['-'] + digits.subrange(
        12,
        16,
    ) + seq!['-'] + digits.subrange(16, 20) + seq!['-'] + digits.subrange(20, 32)
}

/// What is left of the text of a UUID without hyphens, braces and `urn:uuid:`.
pub open spec fn uuid_body(s: Seq<char>) -> Option<Seq<char>> {
    if s.len() == 32 {
        Some(s)
    } else if s.len() == 36 {
        ungrouped(s)
    } else if s.len() == 38 && s[0] == '{' && s[37] == '}' {
        ungrouped(s.subrange(1, 37))
    } else if s.len() == 45 && text::lower(s.take(9)) == "urn:uuid:"@ {
        ungrouped(s.skip(9))
    } else {
        None
    }
}

/// The spelling that a UUID has everywhere: small hexadecimal digits in five groups.
/// `None` where `s` is no UUID.
pub open spec fn canonical_uuid(s: Seq<char>) -> Option<Seq<char>> {
    match uuid_body(s) {
        Some(digits) => if forall|i: int| 0 <= i < digits.len() ==> is_hex(#[trigger] digits[i]) {
            Some(grouped(text::lower(digits)))
        } else {
            None
        },
        None => None,
    }
}

/// Calls `uuid::Uuid::parse_str`, and writes the UUID out with its `to_string`.
///
/// Trusted: a UUID is read from thirty-two hexadecimal digits, from the same with
/// hyphens after eight, twelve, sixteen and twenty of them, and from the latter in braces
/// or behind `urn:uuid:` in any case, and from nothing else. It is written with
/// hyphens and small letters.
#[verifier::external_body]
pub(crate) fn parse_uuid(s: &str) -> (canonical: Option<String>)
    ensures
        text::opt_text(canonical) == canonical_uuid(s@),
{
    match uuid::Uuid::parse_str(s) {
        Ok(parsed) => Some(parsed.to_string()),
        Err(_) => None,
    }
}

/// Whether `id` can be the id of a tunnel: it is not empty, can stand as the first
/// segment of a path, and is neither blocked nor the name of the control host.
pub open spec fn valid_tunnel_id(config: ConfigView, id: Seq<char>) -> bool {
    &&& id.len() > 0
    &&& !id.contains('/')
    &&& !id.contains('?')
    &&& !config.blocked_sub_domains.contains(id)
    &&& id != "wormhole"@
}

/// Whether `id` can be the id of a tunnel.
pub fn is_valid_tunnel_id(config: &Config, id: &str) -> (valid: bool)
    ensures
        valid == valid_tunnel_id(config@, id@),
{
    if id.is_empty() {
        return false;
    }
    if text::contains_char(id, '/') || text::contains_char(id, '?') {
        return false;
    }
    if text::list_contains(&config.blocked_sub_domains, id) {
        return false;
    }
    if text::str_eq(id, "wormhole") {
        return false;
    }
    true
}

/// A spelled-out tunnel id has thirty-six characters, each a hyphen, a decimal digit or
/// a small letter from `a` to `f`, with the hyphens in their places.
pub open spec fn is_canonical(id: Seq<char>) -> bool {
    &&& id.len() == 36
    &&& forall|i: int|
        0 <= i < 36 ==> if i == 8 || i == 13 || i == 18 || i == 23 {
            #[trigger] id[i] == '-'
        } else {
            ('0' <= id[i] && id[i] <= '9') || ('a' <= id[i] && id[i] <= 'f')
        }
}

/// Every UUID is written in the canonical spelling.
pub proof fn law_ids_are_canonical(s: Seq<char>)
    requires
        canonical_uuid(s) is Some,
    ensures
        is_canonical(canonical_uuid(s)->0),
{
    let digits = uuid_body(s)->0;
    assert(digits.len() == 32);
    let small = text::lower(digits);
    let id = grouped(small);
    assert forall|i: int| 0 <= i < 32 implies ('0' <= #[trigger] small[i] && small[i] <= '9') || (
    'a' <= small[i] && small[i] <= 'f') by {
        assert(is_hex(digits[i]));
    }
    assert(id.len() == 36);
    assert forall|i: int| 0 <= i < 36 implies if i == 8 || i == 13 || i == 18 || i == 23 {
        #[trigger] id[i] == '-'
    } else {
        ('0' <= id[i] && id[i] <= '9') || ('a' <= id[i] && id[i] <= 'f')
    } by {
        if i < 8 {
            assert(id[i] == small[i]);
        } else if 8 < i < 13 {
            assert(id[i] == small[i - 1]);
        } else if 13 < i < 18 {
            assert(id[i] == small[i - 2]);
        } else if 18 < i < 23 {
            assert(id[i] == small[i - 3]);
        } else if 23 < i {
            assert(id[i] == small[i - 4]);
        }
    }
}

/// A tunnel id in the canonical spelling is read back as itself.
pub proof fn law_canonical_ids_are_read_back(id: Seq<char>)
    requires
        is_canonical(id),
    ensures
        canonical_uuid(id) == Some(id),
{
    let digits = uuid_body(id)->0;
    assert(digits.len() == 32);
    assert forall|i: int| 0 <= i < 32 implies is_hex(#[trigger] digits[i]) && text::lower_char(
        digits[i],
    ) == digits[i] by {
        if i < 8 {
            assert(digits[i] == id[i]);
        } else if i < 12 {
            assert(digits[i] == id[i + 1]);
        } else if i < 16 {
            assert(digits[i] == id[i + 2]);
        } else if i < 20 {
            assert(digits[i] == id[i + 3]);
        } else {
            assert(digits[i] == id[i + 4]);
        }
    }
    assert(text::lower(digits) =~= digits);
    assert(grouped(digits) =~= id);
}

/// Of the UUIDs only blocked ones are refused as tunnel ids.
pub proof fn law_only_blocked_ids_are_refused(config: ConfigView, id: Seq<char>)
    requires
        is_canonical(id),
    ensures
        valid_tunnel_id(config, id) <==> !config.blocked_sub_domains.contains(id),
{
    reveal_strlit("wormhole");
    assert forall|i: int| 0 <= i < id.len() implies #[trigger] id[i] != '/' && id[i] != '?' by {
        assert(id[i] == id[i]);
    }
}

/// What became of the request for a fresh tunnel id.
pub enum GuidReply {
    /// The service could not be asked; the text says why.
    Unreachable(String),
    /// The service answered with this status, which is no success.
    BadStatus(String),
    /// The service answered with something unreadable; the text says why.
    BadBody(String),
    /// The service answered with this id.
    Guid(String),
}

/// The texts of a `GuidReply`.
pub enum GuidReplyView {
    Unreachable(Seq<char>),
    BadStatus(Seq<char>),
    BadBody(Seq<char>),
    Guid(Seq<char>),
}

impl View for GuidReply {
    type V = GuidReplyView;

    open spec fn view(&self) -> GuidReplyView {
        match self {
            GuidReply::Unreachable(reason) => GuidReplyView::Unreachable(reason@),
            GuidReply::BadStatus(status) => GuidReplyView::BadStatus(status@),
            GuidReply::BadBody(reason) => GuidReplyView::BadBody(reason@),
            GuidReply::Guid(guid) => GuidReplyView::Guid(guid@),
        }
    }
}

/// The tunnel id that a reply of the id service gives, or what is wrong with it.
pub open spec fn requested_tunnel_id(config: ConfigView, reply: GuidReplyView) -> Result<
    Seq<char>,
    Seq<char>,
> {
    match reply {
        GuidReplyView::Unreachable(reason) => Err("guid request failed: "@ + reason),
        GuidReplyView::BadStatus(status) => Err("guid request failed: status "@ + status),
        GuidReplyView::BadBody(reason) => Err("guid response invalid: "@ + reason),
        GuidReplyView::Guid(guid) => match canonical_uuid(text::trimmed(guid)) {
            None => Err("guid response invalid: not a uuid"@),
            Some(id) => if valid_tunnel_id(config, id) {
                Ok(id)
            } else {
                Err("guid response invalid: illegal characters"@)
            },
        },
    }
}

/// The texts of a result.
pub open spec fn result_texts(result: Result<String, String>) -> Result<Seq<char>, Seq<char>> {
    match result {
        Ok(t) => Ok(t@),
        Err(t) => Err(t@),
    }
}

/// Takes the id for a new tunnel from the reply of the id service.
pub fn request_tunnel_id(config: &Config, reply: GuidReply) -> (id: Result<String, String>)
    ensures
        result_texts(id) == requested_tunnel_id(config@, reply@),
{
    match reply {
        GuidReply::Unreachable(reason) => Err(
            String::from_str("guid request failed: ").concat(reason.as_str()),
        ),
        GuidReply::BadStatus(status) => Err(
            String::from_str("guid request failed: status ").concat(status.as_str()),
        ),
        GuidReply::BadBody(reason) => Err(
            String::from_str("guid response invalid: ").concat(reason.as_str()),
        ),
        GuidReply::Guid(guid) => match parse_uuid(text::trim(guid.as_str())) {
            None => Err(String::from_str("guid response invalid: not a uuid")),
            Some(id) => if is_valid_tunnel_id(config, id.as_str()) {
                Ok(id)
            } else {
                Err(String::from_str("guid response invalid: illegal characters"))
            },
        },
    }
}

/// A tunnel id from the id service is canonical and can be the id of a tunnel.
pub proof fn law_requested_ids_are_valid(config: ConfigView, reply: GuidReplyView)
    ensures
        requested_tunnel_id(config, reply) matches Ok(id) ==> is_canonical(id) && valid_tunnel_id(
            config,
            id,
        ),
{
    if let GuidReplyView::Guid(guid) = reply {
        if canonical_uuid(text::trimmed(guid)) is Some {
            law_ids_are_canonical(text::trimmed(guid));
        }
    }
}

/// A name is refused as that of a tunnel exactly if it is empty, has a slash or a question
/// mark in it, is blocked, or is the name of the control host.
pub proof fn law_names_are_refused_for_a_reason(config: ConfigView, id: Seq<char>)
    ensures
        !valid_tunnel_id(config, id) <==> {
            ||| id.len() == 0
            ||| exists|i: int| 0 <= i < id.len() && (#[trigger] id[i] == '/' || id[i] == '?')
            ||| exists|i: int|
                0 <= i < config.blocked_sub_domains.len() && #[trigger] config.blocked_sub_domains[i]
                    == id
            ||| id == "wormhole"@
        },
{
    if exists|i: int| 0 <= i < id.len() && (#[trigger] id[i] == '/' || id[i] == '?') {
        let i = choose|i: int| 0 <= i < id.len() && (#[trigger] id[i] == '/' || id[i] == '?');
        assert(id.contains(id[i]));
    }
    if id.contains('/') {
        let i = choose|i: int| 0 <= i < id.len() && id[i] == '/';
        assert(id[i] == '/');
    }
    if id.contains('?') {
        let i = choose|i: int| 0 <= i < id.len() && id[i] == '?';
        assert(id[i] == '?');
    }
    if exists|i: int|
        0 <= i < config.blocked_sub_domains.len() && #[trigger] config.blocked_sub_domains[i] == id {
        let i = choose|i: int|
            0 <= i < config.blocked_sub_domains.len() && #[trigger] config.blocked_sub_domains[i]
                == id;
        assert(config.blocked_sub_domains.contains(config.blocked_sub_domains[i]));
    }
}

/// A reply of the id service gives the id that it spells, white space around it aside, in
/// the canonical spelling, unless it spells none or one that is blocked.
pub proof fn law_replies_give_their_id(
    config: ConfigView,
    before: Seq<char>,
    spelled: Seq<char>,
    after: Seq<char>,
)
    requires
        text::all_white(before),
        text::is_bare(spelled),
        text::all_white(after),
    ensures
        requested_tunnel_id(config, GuidReplyView::Guid(before + spelled + after)) == (
        match canonical_uuid(spelled) {
            Some(id) => if config.blocked_sub_domains.contains(id) {
                Err("guid response invalid: illegal characters"@)
            } else {
                Ok(id)
            },
            None => Err("guid response invalid: not a uuid"@),
        }),
{
    text::law_trimming_takes_off_white_space(before, spelled, after);
    if canonical_uuid(spelled) is Some {
        law_ids_are_canonical(spelled);
        law_only_blocked_ids_are_refused(config, canonical_uuid(spelled)->0);
    }
}

/// A reply without an id gives none, but the reason why there is none.
pub proof fn law_failed_requests_give_the_reason(config: ConfigView, reason: Seq<char>)
    ensures
        requested_tunnel_id(config, GuidReplyView::Unreachable(reason)) == Err::<
            Seq<char>,
            Seq<char>,
        >("guid request failed: "@ + reason),
        requested_tunnel_id(config, GuidReplyView::BadStatus(reason)) == Err::<
            Seq<char>,
            Seq<char>,
        >("guid request failed: status "@ + reason),
        requested_tunnel_id(config, GuidReplyView::BadBody(reason)) == Err::<
            Seq<char>,
            Seq<char>,
        >("guid response invalid: "@ + reason),
{
}

/// A canonical id is read from every spelling of it: in capital letters, in braces, behind
/// `urn:uuid:`, and without hyphens.
pub proof fn law_ids_are_read_in_every_spelling(id: Seq<char>, spelled: Seq<char>, urn: Seq<char>)
    requires
        is_canonical(id),
        text::same_letters(spelled, id),
        text::same_letters(urn, "urn:uuid:"@),
    ensures
        canonical_uuid(spelled) == Some(id),
        canonical_uuid(seq!['{'] + spelled + seq!['}']) == Some(id),
        canonical_uuid(urn + spelled) == Some(id),
        canonical_uuid(
            spelled.subrange(0, 8) + spelled.subrange(9, 13) + spelled.subrange(14, 18)
                + spelled.subrange(19, 23) + spelled.subrange(24, 36),
        ) == Some(id),
{
    reveal_strlit("urn:uuid:");
    assert forall|i: int| 0 <= i < 36 implies (if i == 8 || i == 13 || i == 18 || i == 23 {
        #[trigger] spelled[i] == '-'
    } else {
        is_hex(spelled[i])
    }) by {
        assert(text::same_letter(spelled[i], id[i]));
        lemma_hex_letter(spelled[i], id[i], i == 8 || i == 13 || i == 18 || i == 23);
    }
    let digits = ungrouped(spelled)->0;
    assert(digits.len() == 32);
    assert forall|i: int| 0 <= i < 32 implies is_hex(#[trigger] digits[i]) by {
        if i < 8 {
            assert(digits[i] == spelled[i]);
        } else if i < 12 {
            assert(digits[i] == spelled[i + 1]);
        } else if i < 16 {
            assert(digits[i] == spelled[i + 2]);
        } else if i < 20 {
            assert(digits[i] == spelled[i + 3]);
        } else {
            assert(digits[i] == spelled[i + 4]);
        }
    }
    law_canonical_ids_are_read_back(id);
    text::law_case_makes_no_difference(spelled, id);
    assert(text::lower(digits) =~= ungrouped(text::lower(spelled))->0);
    assert(text::lower(ungrouped(id)->0) =~= ungrouped(text::lower(id))->0);
    let braced = seq!['{'] + spelled + seq!['}'];
    assert(braced.subrange(1, 37) =~= spelled);
    let named = urn + spelled;
    text::law_case_makes_no_difference(urn, "urn:uuid:"@);
    text::lemma_already_small("urn:uuid:"@);
    assert(named.take(9) =~= urn);
    assert(named.skip(9) =~= spelled);
}

/// What has the letter of a canonical id is a hexadecimal digit, or a hyphen where that is
/// one.
proof fn lemma_hex_letter(c: char, d: char, hyphen: bool)
    requires
        text::same_letter(c, d),
        if hyphen {
            d == '-'
        } else {
            ('0' <= d && d <= '9') || ('a' <= d && d <= 'f')
        },
    ensures
        if hyphen {
            c == '-'
        } else {
            is_hex(c)
        },
{
}

/// The views of replies and results say all that they say.
pub proof fn law_replies_are_seen_whole(reply: GuidReply, result: Result<String, String>)
    ensures
        match reply {
            GuidReply::Unreachable(t) => reply@ == GuidReplyView::Unreachable(t@),
            GuidReply::BadStatus(t) => reply@ == GuidReplyView::BadStatus(t@),
            GuidReply::BadBody(t) => reply@ == GuidReplyView::BadBody(t@),
            GuidReply::Guid(t) => reply@ == GuidReplyView::Guid(t@),
        },
        match result {
            Ok(t) => result_texts(result) == Ok::<Seq<char>, Seq<char>>(t@),
            Err(t) => result_texts(result) == Err::<Seq<char>, Seq<char>>(t@),
        },
{
}

} // verus!
