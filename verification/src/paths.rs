//! Paths of the form `/<tunnel id>/...`: finding the tunnel, and taking it off again.

use crate::text;
use crate::tunnel_id;
use crate::urls;
use vstd::prelude::*;
use vstd::string::*;

verus! {

/// How many characters of `s` come before its first slash or question mark.
pub open spec fn segment_len(s: Seq<char>) -> int
    decreases s.len(),
{
    if s.len() == 0 || s[0] == '/' || s[0] == '?' {
        0
    } else {
        1 + segment_len(s.skip(1))
    }
}

/// The first segment of a path that starts with a slash.
pub open spec fn first_segment(path: Seq<char>) -> Option<Seq<char>> {
    if path.len() > 0 && path[0] == '/' {
        Some(path.skip(1).take(segment_len(path.skip(1))))
    } else {
        None
    }
}

/// The tunnel that a request target in normal form is meant for: its first segment,
/// where that is a UUID.
pub open spec fn tunnel_of(path: Seq<char>) -> Option<Seq<char>> {
    match first_segment(path) {
        Some(segment) => tunnel_id::canonical_uuid(segment),
        None => None,
    }
}

/// What `segment_len` counts: no slash or question mark before it, and one at it unless
/// the text ends there.
pub proof fn lemma_segment_len(s: Seq<char>)
    ensures
        0 <= segment_len(s) <= s.len(),
        forall|i: int| 0 <= i < segment_len(s) ==> #[trigger] s[i] != '/' && s[i] != '?',
        segment_len(s) < s.len() ==> s[segment_len(s)] == '/' || s[segment_len(s)] == '?',
    decreases s.len(),
{
    if s.len() == 0 || s[0] == '/' || s[0] == '?' {
    } else {
        let rest = s.skip(1);
        lemma_segment_len(rest);
        assert forall|i: int| 0 <= i < segment_len(s) implies #[trigger] s[i] != '/' && s[i]
            != '?' by {
            if i > 0 {
                assert(s[i] == rest[i - 1]);
            }
        }
        if segment_len(s) < s.len() {
            assert(s[segment_len(s)] == rest[segment_len(rest)]);
        }
    }
}

/// There is only one such length.
pub proof fn lemma_segment_len_is(s: Seq<char>, n: int)
    requires
        0 <= n <= s.len(),
        forall|i: int| 0 <= i < n ==> #[trigger] s[i] != '/' && s[i] != '?',
        n < s.len() ==> s[n] == '/' || s[n] == '?',
    ensures
        segment_len(s) == n,
{
    lemma_segment_len(s);
    let m = segment_len(s);
    if m < n {
        assert(s[m] != '/' && s[m] != '?');
    } else if n < m {
        assert(s[n] != '/' && s[n] != '?');
    }
}

/// Finds the tunnel that a request target in normal form is meant for.
pub fn tunnel_id_of_path(path: &str) -> (id: Option<String>)
    ensures
        text::opt_text(id) == tunnel_of(path@),
{
    let chars = text::chars_of(path);
    let n: usize = chars.len();
    if n == 0 || chars[0] != '/' {
        return None;
    }
    let ghost trimmed = path@.skip(1);
    let mut end: usize = 1;
    while end < n && chars[end] != '/' && chars[end] != '?'
        invariant
            1 <= end <= n,
            n == chars@.len(),
            chars@ == path@,
            trimmed == path@.skip(1),
            forall|i: int| 0 <= i < end - 1 ==> #[trigger] trimmed[i] != '/' && trimmed[i] != '?',
        decreases n - end,
    {
        assert(trimmed[end - 1] == chars@[end as int]);
        end = end + 1;
    }
    proof {
        if end < n {
            assert(trimmed[end - 1] == chars@[end as int]);
        }
        lemma_segment_len_is(trimmed, end - 1);
        assert(path@.subrange(1, end as int) =~= trimmed.take(end - 1));
    }
    tunnel_id::parse_uuid(path.substring_char(1, end))
}

/// Finds the tunnel that a request target is meant for.
pub fn extract_tunnel_id(path: &str) -> (id: Option<String>)
    ensures
        text::opt_text(id) == tunnel_of(urls::normal_target(path@)),
{
    let path = urls::normalize_path(path);
    tunnel_id_of_path(path.as_str())
}

/// What is left of a path once the tunnel is taken off: the path that the server
/// behind the tunnel sees. `None` where the path does not name the tunnel.
pub open spec fn without_tunnel(path: Seq<char>, id: Seq<char>) -> Option<Seq<char>> {
    let prefix = seq!['/'] + id;
    if path == prefix {
        Some(seq!['/'])
    } else if (prefix + seq!['/']).is_prefix_of(path) {
        Some(path.skip(prefix.len() as int))
    } else if (prefix + seq!['?']).is_prefix_of(path) {
        Some(seq!['/'] + path.skip(prefix.len() as int))
    } else {
        None
    }
}

/// A text starts with `prefix` and one character more exactly if that character
/// follows the prefix.
proof fn lemma_prefix_and_one(prefix: Seq<char>, c: char, s: Seq<char>)
    ensures
        (prefix + seq![c]).is_prefix_of(s) <==> prefix.is_prefix_of(s) && s.len() > prefix.len()
            && s[prefix.len() as int] == c,
{
    let n = prefix.len() as int;
    let longer = prefix + seq![c];
    if longer.is_prefix_of(s) {
        assert(longer[n] == s.subrange(0, n + 1)[n]);
        assert(prefix =~= longer.subrange(0, n));
        assert(s.subrange(0, n) =~= s.subrange(0, n + 1).subrange(0, n));
    }
    if prefix.is_prefix_of(s) && s.len() > n && s[n] == c {
        assert(s.subrange(0, n + 1) =~= s.subrange(0, n) + seq![s[n]]);
    }
}

/// Takes the tunnel off a request target in normal form.
pub fn strip_tunnel(path: &str, tunnel_id: &str) -> (stripped: Option<String>)
    ensures
        text::opt_text(stripped) == without_tunnel(path@, tunnel_id@),
        text::is_unspaced(path@) && stripped is Some ==> text::is_unspaced(stripped->0@),
{
    proof {
        reveal_strlit("/");
        reveal_strlit("?");
        assert("/"@ =~= seq!['/']);
        assert("?"@ =~= seq!['?']);
    }
    let prefix = String::from_str("/").concat(tunnel_id);
    if text::str_eq(path, prefix.as_str()) {
        return Some(String::from_str("/"));
    }
    proof {
        let n = prefix@.len() as int;
        lemma_prefix_and_one(prefix@, '/', path@);
        lemma_prefix_and_one(prefix@, '?', path@);
        let rest = path@.skip(n);
        lemma_prefix_and_one(Seq::empty(), '/', rest);
        lemma_prefix_and_one(Seq::empty(), '?', rest);
        assert(Seq::<char>::empty() + seq!['/'] =~= seq!['/']);
        assert(Seq::<char>::empty() + seq!['?'] =~= seq!['?']);
    }
    match text::strip_prefix(path, prefix.as_str()) {
        None => None,
        Some(rest) => if text::starts_with(rest.as_str(), "/") {
            Some(rest)
        } else if text::starts_with(rest.as_str(), "?") {
            Some(String::from_str("/").concat(rest.as_str()))
        } else {
            None
        },
    }
}

/// Takes the tunnel off a request target.
pub fn strip_tunnel_prefix(path: &str, tunnel_id: &str) -> (stripped: Option<String>)
    ensures
        text::opt_text(stripped) == without_tunnel(urls::normal_target(path@), tunnel_id@),
        text::is_unspaced(path@) && stripped is Some ==> text::is_unspaced(stripped->0@),
{
    let path = urls::normalize_path(path);
    strip_tunnel(path.as_str(), tunnel_id)
}

/// The id of a tunnel is found again in the path that starts with it, whatever follows
/// it, and is taken off such that what follows is left.
pub proof fn law_ids_are_found_in_their_paths(id: Seq<char>, rest: Seq<char>)
    requires
        tunnel_id::is_canonical(id),
        rest.len() > 0 ==> rest[0] == '/' || rest[0] == '?',
    ensures
        tunnel_of(urls::normal_target(seq!['/'] + id + rest)) == Some(id),
        without_tunnel(urls::normal_target(seq!['/'] + id + rest), id) == Some(
            if rest.len() > 0 && rest[0] == '/' {
                rest
            } else {
                seq!['/'] + rest
            },
        ),
{
    let path = seq!['/'] + id + rest;
    let prefix = seq!['/'] + id;
    urls::law_paths_are_normal(path);
    let trimmed = path.skip(1);
    assert(trimmed =~= id + rest);
    assert forall|i: int| 0 <= i < 36 implies #[trigger] trimmed[i] != '/' && trimmed[i] != '?' by {
        assert(trimmed[i] == id[i]);
    }
    lemma_segment_len_is(trimmed, 36);
    assert(trimmed.take(36) =~= id);
    tunnel_id::law_canonical_ids_are_read_back(id);
    lemma_prefix_and_one(prefix, '/', path);
    lemma_prefix_and_one(prefix, '?', path);
    assert(prefix =~= path.subrange(0, 37));
    assert(path.skip(37) =~= rest);
    if rest.len() == 0 {
        assert(path =~= prefix);
        assert(seq!['/'] + rest =~= seq!['/']);
    } else {
        assert(path[37] == rest[0]);
        assert(path.len() != prefix.len());
    }
}

/// Where a path spells the tunnel that it names in the canonical way, the tunnel can
/// be taken off it.
pub proof fn law_found_ids_can_be_taken_off(path: Seq<char>)
    requires
        tunnel_of(path) is Some,
        first_segment(path) == tunnel_of(path),
    ensures
        without_tunnel(path, tunnel_of(path)->0) is Some,
{
    let id = tunnel_of(path)->0;
    let prefix = seq!['/'] + id;
    let trimmed = path.skip(1);
    lemma_segment_len(trimmed);
    let n = segment_len(trimmed);
    assert(path.subrange(0, n + 1) =~= prefix) by {
        assert forall|i: int| 0 < i <= n implies path[i] == #[trigger] prefix[i] by {
            assert(path[i] == trimmed[i - 1]);
            assert(prefix[i] == trimmed.take(n)[i - 1]);
        }
    }
    lemma_prefix_and_one(prefix, '/', path);
    lemma_prefix_and_one(prefix, '?', path);
    if n == trimmed.len() {
        assert(path =~= prefix);
    } else {
        assert(path[n + 1] == trimmed[n]);
    }
}

/// A path that a tunnel was taken off names that tunnel, and no other.
pub proof fn law_taken_off_ids_are_the_ones_found(path: Seq<char>, id: Seq<char>)
    requires
        tunnel_id::is_canonical(id),
        without_tunnel(path, id) is Some,
    ensures
        tunnel_of(path) == Some(id),
{
    let prefix = seq!['/'] + id;
    let rest = path.skip(37);
    lemma_prefix_and_one(prefix, '/', path);
    lemma_prefix_and_one(prefix, '?', path);
    assert(path =~= prefix + rest);
    urls::law_paths_are_normal(path);
    law_ids_are_found_in_their_paths(id, rest);
}

/// What is left of a path starts with a slash, and the tunnel put before it again, with
/// the slash or without it, gives the path back.
pub proof fn law_stripped_paths(path: Seq<char>, id: Seq<char>)
    requires
        without_tunnel(path, id) is Some,
    ensures
        ({
            let left = without_tunnel(path, id)->0;
            &&& left.len() > 0
            &&& left[0] == '/'
            &&& path == seq!['/'] + id + left || path == seq!['/'] + id + left.skip(1)
        }),
{
    let prefix = seq!['/'] + id;
    let n = prefix.len() as int;
    let left = without_tunnel(path, id)->0;
    lemma_prefix_and_one(prefix, '/', path);
    lemma_prefix_and_one(prefix, '?', path);
    if path == prefix {
        assert(path =~= prefix + left.skip(1));
    } else if (prefix + seq!['/']).is_prefix_of(path) {
        assert(path =~= prefix + left);
    } else {
        assert(left.skip(1) =~= path.skip(n));
        assert(path =~= prefix + left.skip(1));
    }
}

/// Whether `rest` can follow a segment of a path: nothing, or a slash or a question mark
/// and something behind it.
pub open spec fn follows_a_segment(rest: Seq<char>) -> bool {
    rest.len() == 0 || rest[0] == '/' || rest[0] == '?'
}

/// A path is for the tunnel whose UUID its first segment spells, whatever follows it, and
/// for none where its first segment spells none.
pub proof fn law_first_segments_name_tunnels(segment: Seq<char>, rest: Seq<char>)
    requires
        forall|i: int| 0 <= i < segment.len() ==> #[trigger] segment[i] != '/' && segment[i] != '?',
        follows_a_segment(rest),
    ensures
        tunnel_of(seq!['/'] + segment + rest) == tunnel_id::canonical_uuid(segment),
{
    let path = seq!['/'] + segment + rest;
    let trimmed = path.skip(1);
    let n = segment.len() as int;
    assert(trimmed =~= segment + rest);
    assert forall|i: int| 0 <= i < n implies #[trigger] trimmed[i] != '/' && trimmed[i] != '?' by {
        assert(trimmed[i] == segment[i]);
    }
    if n < trimmed.len() {
        assert(trimmed[n] == rest[0]);
    }
    lemma_segment_len_is(trimmed, n);
    assert(trimmed.take(n) =~= segment);
}

/// A target that does not start with a slash is for no tunnel.
pub proof fn law_other_targets_name_no_tunnel(path: Seq<char>)
    requires
        path.len() == 0 || path[0] != '/',
    ensures
        tunnel_of(path) is None,
{
}

/// Where a path is a slash, the name of a tunnel, and something else, what is left of it is
/// that something, with a slash before it unless it starts with one.
pub proof fn law_what_follows_the_tunnel_is_left(id: Seq<char>, rest: Seq<char>)
    requires
        follows_a_segment(rest),
    ensures
        without_tunnel(seq!['/'] + id + rest, id) == Some(
            if rest.len() > 0 && rest[0] == '/' {
                rest
            } else {
                seq!['/'] + rest
            },
        ),
{
    let path = seq!['/'] + id + rest;
    let prefix = seq!['/'] + id;
    let n = prefix.len() as int;
    lemma_prefix_and_one(prefix, '/', path);
    lemma_prefix_and_one(prefix, '?', path);
    assert(prefix =~= path.subrange(0, n));
    assert(path.skip(n) =~= rest);
    if rest.len() == 0 {
        assert(path =~= prefix);
        assert(seq!['/'] + rest =~= seq!['/']);
    } else {
        assert(path[n] == rest[0]);
        assert(path.len() != prefix.len());
    }
}

/// From every other path no tunnel can be taken off.
pub proof fn law_other_paths_keep_the_tunnel(path: Seq<char>, id: Seq<char>)
    requires
        forall|rest: Seq<char>|
            follows_a_segment(rest) ==> path != #[trigger] (seq!['/'] + id + rest),
    ensures
        without_tunnel(path, id) is None,
{
    if without_tunnel(path, id) is Some {
        let prefix = seq!['/'] + id;
        let n = prefix.len() as int;
        let rest = path.skip(n);
        lemma_prefix_and_one(prefix, '/', path);
        lemma_prefix_and_one(prefix, '?', path);
        assert(path =~= seq!['/'] + id + rest);
        assert(follows_a_segment(rest));
    }
}

} // verus!
