//! Byte sequences: finding a pattern, and cutting a request head out of a stream.

use vstd::prelude::*;
use vstd::slice::slice_subrange;

verus! {

/// The end of a line.
pub open spec fn crlf() -> Seq<u8> {
    seq![13u8, 10u8]
}

/// The end of a request head: the end of its last line and an empty line.
pub open spec fn blank_line() -> Seq<u8> {
    seq![13u8, 10u8, 13u8, 10u8]
}

/// What parts the three words of a request line.
pub open spec fn space() -> Seq<u8> {
    seq![32u8]
}

/// Whether `pattern` stands in `buf` at position `i`.
pub open spec fn stands_at(buf: Seq<u8>, pattern: Seq<u8>, i: int) -> bool {
    &&& 0 <= i
    &&& i + pattern.len() <= buf.len()
    &&& buf.subrange(i, i + pattern.len()) == pattern
}

/// Whether `i` is the first position at which `pattern` stands in `buf`.
pub open spec fn first_at(buf: Seq<u8>, pattern: Seq<u8>, i: int) -> bool {
    &&& stands_at(buf, pattern, i)
    &&& forall|j: int| 0 <= j < i ==> !#[trigger] stands_at(buf, pattern, j)
}

/// Whether `pattern` stands nowhere in `buf`.
pub open spec fn absent(buf: Seq<u8>, pattern: Seq<u8>) -> bool {
    forall|j: int| !#[trigger] stands_at(buf, pattern, j)
}

/// The first position at which `pattern` stands in `buf`.
pub open spec fn find(buf: Seq<u8>, pattern: Seq<u8>) -> Option<int> {
    if absent(buf, pattern) {
        None
    } else {
        Some(choose|i: int| first_at(buf, pattern, i))
    }
}

/// A pattern that stands somewhere has a first position.
proof fn lemma_first_exists(buf: Seq<u8>, pattern: Seq<u8>, i: int) -> (first: int)
    requires
        stands_at(buf, pattern, i),
    ensures
        first_at(buf, pattern, first),
        first <= i,
    decreases i,
{
    if forall|j: int| 0 <= j < i ==> !#[trigger] stands_at(buf, pattern, j) {
        i
    } else {
        let j = choose|j: int| 0 <= j < i && #[trigger] stands_at(buf, pattern, j);
        lemma_first_exists(buf, pattern, j)
    }
}

/// `find` gives the one first position.
pub proof fn lemma_find(buf: Seq<u8>, pattern: Seq<u8>, i: int)
    requires
        first_at(buf, pattern, i),
    ensures
        find(buf, pattern) == Some(i),
{
    assert(stands_at(buf, pattern, i));
    let k = choose|k: int| first_at(buf, pattern, k);
    assert(first_at(buf, pattern, k));
    if k < i {
        assert(!stands_at(buf, pattern, k));
    } else if i < k {
        assert(!stands_at(buf, pattern, i));
    }
}

/// Where `find` gives a position, it is the first.
pub proof fn lemma_found(buf: Seq<u8>, pattern: Seq<u8>)
    ensures
        find(buf, pattern) matches Some(i) ==> first_at(buf, pattern, i),
        find(buf, pattern) is None ==> absent(buf, pattern),
{
    if !absent(buf, pattern) {
        let j = choose|j: int| #[trigger] stands_at(buf, pattern, j);
        let first = lemma_first_exists(buf, pattern, j);
        lemma_find(buf, pattern, first);
    }
}

/// Finds the first position of a pattern.
fn find_bytes(buf: &[u8], pattern: &[u8]) -> (at: Option<usize>)
    requires
        pattern@.len() > 0,
    ensures
        at is Some <==> find(buf@, pattern@) is Some,
        at matches Some(i) ==> find(buf@, pattern@) == Some(i as int) && i + pattern@.len()
            <= buf@.len(),
{
    let n: usize = buf.len();
    let m: usize = pattern.len();
    let mut i: usize = 0;
    while i < n && m <= n - i
        invariant
            i <= n,
            n == buf@.len(),
            m == pattern@.len(),
            m > 0,
            forall|j: int| 0 <= j < i ==> !#[trigger] stands_at(buf@, pattern@, j),
        decreases n - i,
    {
        let mut k: usize = 0;
        while k < m && buf[i + k] == pattern[k]
            invariant
                k <= m,
                i + m <= n,
                n == buf@.len(),
                m == pattern@.len(),
                forall|j: int| 0 <= j < k ==> buf@[i + j] == #[trigger] pattern@[j],
            decreases m - k,
        {
            k = k + 1;
        }
        if k == m {
            assert(buf@.subrange(i as int, i + m) =~= pattern@);
            proof {
                lemma_find(buf@, pattern@, i as int);
            }
            return Some(i);
        }
        assert(buf@.subrange(i as int, i + m)[k as int] == buf@[i + k]);
        i = i + 1;
    }
    assert forall|j: int| !#[trigger] stands_at(buf@, pattern@, j) by {
        if stands_at(buf@, pattern@, j) {
            assert(j < i);
        }
    }
    None
}

/// The length of the request head that `buf` starts with: up to and with the first
/// empty line.
pub open spec fn header_end(buf: Seq<u8>) -> Option<int> {
    match find(buf, blank_line()) {
        Some(i) => Some(i + 4),
        None => None,
    }
}

/// Whether an empty line ends a line at position `i`.
pub open spec fn blank_line_at(buf: Seq<u8>, i: int) -> bool {
    &&& 0 <= i
    &&& i + 4 <= buf.len()
    &&& buf[i] == 13
    &&& buf[i + 1] == 10
    &&& buf[i + 2] == 13
    &&& buf[i + 3] == 10
}

/// Finds the end of the request head that `buf` starts with.
pub fn find_header_end(buf: &[u8]) -> (end: Option<usize>)
    ensures
        end matches Some(e) ==> blank_line_at(buf@, e - 4),
        end matches Some(e) ==> forall|j: int| 0 <= j < e - 4 ==> !#[trigger] blank_line_at(buf@, j),
        end is None ==> forall|j: int| !#[trigger] blank_line_at(buf@, j),
        end is Some <==> header_end(buf@) is Some,
        end matches Some(e) ==> header_end(buf@) == Some(e as int) && 4 <= e <= buf@.len(),
{
    let pattern: [u8; 4] = [13u8, 10u8, 13u8, 10u8];
    assert(pattern@ =~= blank_line());
    assert(buf.len() == buf@.len());
    proof {
        lemma_found(buf@, blank_line());
        assert forall|j: int| #[trigger] blank_line_at(buf@, j) == stands_at(
            buf@,
            blank_line(),
            j,
        ) by {
            lemma_stands_at(buf@, j);
        }
    }
    match find_bytes(buf, &pattern) {
        Some(i) => Some(i + 4),
        None => None,
    }
}

/// A request head with the target of its request line replaced by `target`. The
/// target is what stands between the first two spaces of the first line. A head
/// without an end of line, or with fewer spaces in its first line, is left as it is.
pub open spec fn with_target(head: Seq<u8>, target: Seq<u8>) -> Seq<u8> {
    match find(head, crlf()) {
        None => head,
        Some(line_end) => {
            let line = head.take(line_end);
            match find(line, space()) {
                None => head,
                Some(first) => match find(line.skip(first + 1), space()) {
                    None => head,
                    Some(second) => line.take(first + 1) + target + line.skip(first + 1 + second)
                        + crlf() + head.skip(line_end + 2),
                },
            }
        },
    }
}

/// Replaces the target in the request line of a request head.
pub fn rewrite_request_path(header_bytes: &[u8], new_path: &str) -> (rewritten: Vec<u8>)
    ensures
        rewritten@ == with_target(header_bytes@, vstd::utf8::encode_utf8(new_path@)),
{
    let end_of_line: [u8; 2] = [13u8, 10u8];
    let blank: [u8; 1] = [32u8];
    assert(end_of_line@ =~= crlf());
    assert(blank@ =~= space());
    let mut rewritten: Vec<u8> = Vec::new();
    let line_end: usize = match find_bytes(header_bytes, &end_of_line) {
        Some(end) => end,
        None => {
            rewritten.extend_from_slice(header_bytes);
            return rewritten;
        },
    };
    let line = slice_subrange(header_bytes, 0, line_end);
    assert(line@ =~= header_bytes@.take(line_end as int));
    let first_space: usize = match find_bytes(line, &blank) {
        Some(at) => at,
        None => {
            rewritten.extend_from_slice(header_bytes);
            return rewritten;
        },
    };
    let tail = slice_subrange(line, first_space + 1, line_end);
    assert(tail@ =~= line@.skip(first_space + 1));
    let second_space: usize = match find_bytes(tail, &blank) {
        Some(at) => at + first_space + 1,
        None => {
            rewritten.extend_from_slice(header_bytes);
            return rewritten;
        },
    };
    rewritten.extend_from_slice(slice_subrange(line, 0, first_space + 1));
    rewritten.extend_from_slice(new_path.as_bytes());
    rewritten.extend_from_slice(slice_subrange(line, second_space, line_end));
    rewritten.extend_from_slice(&end_of_line);
    let total: usize = header_bytes.len();
    rewritten.extend_from_slice(slice_subrange(header_bytes, line_end + 2, total));
    assert(line@.subrange(0, first_space + 1) =~= line@.take(first_space + 1));
    assert(line@.subrange(second_space as int, line_end as int) =~= line@.skip(
        second_space as int,
    ));
    assert(header_bytes@.subrange(line_end + 2, header_bytes@.len() as int)
        =~= header_bytes@.skip(line_end + 2));
    rewritten
}

/// What it is byte by byte for each of the patterns to stand at a position.
pub proof fn lemma_stands_at(buf: Seq<u8>, i: int)
    ensures
        stands_at(buf, space(), i) <==> 0 <= i < buf.len() && buf[i] == 32,
        stands_at(buf, crlf(), i) <==> 0 <= i && i + 2 <= buf.len() && buf[i] == 13 && buf[i + 1]
            == 10,
        stands_at(buf, blank_line(), i) <==> 0 <= i && i + 4 <= buf.len() && buf[i] == 13 && buf[i
            + 1] == 10 && buf[i + 2] == 13 && buf[i + 3] == 10,
{
    if 0 <= i && i + 1 <= buf.len() {
        let part = buf.subrange(i, i + 1);
        assert(part[0] == buf[i]);
        assert(buf[i] == 32 ==> part =~= space());
    }
    if 0 <= i && i + 2 <= buf.len() {
        let part = buf.subrange(i, i + 2);
        assert(part[0] == buf[i] && part[1] == buf[i + 1]);
        assert(buf[i] == 13 && buf[i + 1] == 10 ==> part =~= crlf());
    }
    if 0 <= i && i + 4 <= buf.len() {
        let part = buf.subrange(i, i + 4);
        assert(part[0] == buf[i] && part[1] == buf[i + 1] && part[2] == buf[i + 2] && part[3]
            == buf[i + 3]);
        assert(buf[i] == 13 && buf[i + 1] == 10 && buf[i + 2] == 13 && buf[i + 3] == 10 ==> part
            =~= blank_line());
    }
}

/// The first line ends where the first end of line stands.
#[verifier::spinoff_prover]
proof fn lemma_line_end(line: Seq<u8>, rest: Seq<u8>)
    requires
        absent(line, crlf()),
    ensures
        find(line + crlf() + rest, crlf()) == Some(line.len() as int),
{
    let head = line + crlf() + rest;
    let e = line.len() as int;
    assert(first_at(head, crlf(), e)) by {
        lemma_stands_at(head, e);
        assert forall|j: int| 0 <= j < e implies !#[trigger] stands_at(head, crlf(), j) by {
            lemma_stands_at(head, j);
            lemma_stands_at(line, j);
            assert(!stands_at(line, crlf(), j));
        }
    }
    lemma_find(head, crlf(), e);
}

/// The first word ends where the first space stands.
#[verifier::spinoff_prover]
proof fn lemma_word_end(word: Seq<u8>, rest: Seq<u8>)
    requires
        absent(word, space()),
    ensures
        find(word + space() + rest, space()) == Some(word.len() as int),
{
    let line = word + space() + rest;
    let e = word.len() as int;
    assert(first_at(line, space(), e)) by {
        lemma_stands_at(line, e);
        assert forall|j: int| 0 <= j < e implies !#[trigger] stands_at(line, space(), j) by {
            lemma_stands_at(line, j);
            lemma_stands_at(word, j);
            assert(!stands_at(word, space(), j));
        }
    }
    lemma_find(line, space(), e);
}

/// Rewriting a head changes the target of its request line and nothing else: the
/// method before it, the version after it and all that follows the first line stay.
pub proof fn law_rewrite_replaces_the_target(
    method: Seq<u8>,
    target: Seq<u8>,
    version: Seq<u8>,
    rest: Seq<u8>,
    new_target: Seq<u8>,
)
    requires
        absent(method, space()),
        absent(target, space()),
        absent(method + space() + target + space() + version, crlf()),
    ensures
        with_target(
            method + space() + target + space() + version + crlf() + rest,
            new_target,
        ) == method + space() + new_target + space() + version + crlf() + rest,
{
    let line = method + space() + target + space() + version;
    let tail = target + space() + version;
    let head = line + crlf() + rest;
    lemma_line_end(line, rest);
    let e: int = line.len() as int;
    let m: int = method.len() as int;
    let t: int = target.len() as int;
    assert(head.take(e) =~= line);
    assert(head.skip(e + 2) =~= rest);
    lemma_word_end(method, tail);
    assert(line =~= method + space() + tail);
    assert(line.take(m + 1) =~= method + space());
    assert(line.skip(m + 1) =~= tail);
    lemma_word_end(target, version);
    assert(line.skip(m + 1 + t) =~= space() + version);
    assert(method + space() + new_target + (space() + version) =~= method + space() + new_target
        + space() + version);
}

/// Replacing what stands between two spaces, `first` and `second`, by something without
/// an empty line keeps the first empty line where it was, counted from the end.
proof fn lemma_blank_line_moves_along(
    old: Seq<u8>,
    new: Seq<u8>,
    target: Seq<u8>,
    first: int,
    second: int,
    at: int,
)
    requires
        first_at(old, blank_line(), at),
        absent(target, blank_line()),
        0 <= first < second <= at,
        old[first] == 32,
        old[second] == 32,
        new == old.take(first + 1) + target + old.skip(second),
    ensures
        first_at(new, blank_line(), at + target.len() - (second - first - 1)),
{
    let d = target.len() - (second - first - 1);
    lemma_stands_at(old, at);
    lemma_stands_at(new, at + d);
    assert forall|j: int| 0 <= j < at + d implies !#[trigger] stands_at(new, blank_line(), j) by {
        lemma_stands_at(new, j);
        if stands_at(new, blank_line(), j) {
            assert(new[first] == 32);
            assert(new[second + d] == 32);
            if j < first {
                lemma_stands_at(old, j);
                assert(!stands_at(old, blank_line(), j));
            } else if j < second + d {
                lemma_stands_at(target, j - first - 1);
                assert(!stands_at(target, blank_line(), j - first - 1));
            } else {
                lemma_stands_at(old, j - d);
                assert(!stands_at(old, blank_line(), j - d));
            }
        }
    }
}

/// Rewriting keeps a head one whole head: where `head` ends with its first empty line
/// and the new target holds none, the rewritten head ends with its first empty line too.
pub proof fn law_rewrite_keeps_one_head(head: Seq<u8>, target: Seq<u8>)
    requires
        header_end(head) == Some(head.len() as int),
        header_end(target) is None,
    ensures
        header_end(with_target(head, target)) == Some(with_target(head, target).len() as int),
{
    lemma_found(head, blank_line());
    lemma_found(target, blank_line());
    let b = head.len() - 4;
    lemma_stands_at(head, b);
    lemma_found(head, crlf());
    assert(stands_at(head, crlf(), b));
    let e = find(head, crlf())->0;
    lemma_stands_at(head, e);
    let line = head.take(e);
    lemma_found(line, space());
    if find(line, space()) is Some {
        let f = find(line, space())->0;
        lemma_stands_at(line, f);
        let tail = line.skip(f + 1);
        lemma_found(tail, space());
        if find(tail, space()) is Some {
            let g = find(tail, space())->0;
            lemma_stands_at(tail, g);
            let s = f + 1 + g;
            let result = with_target(head, target);
            assert(head.skip(s) =~= line.skip(s) + crlf() + head.skip(e + 2));
            assert(head.take(f + 1) =~= line.take(f + 1));
            assert(result =~= head.take(f + 1) + target + head.skip(s));
            lemma_blank_line_moves_along(head, result, target, f, s, b);
            lemma_find(result, blank_line(), b + target.len() - g);
        }
    }
}

/// A head, cut off at its end, is one whole head.
pub proof fn lemma_head_is_one_head(buf: Seq<u8>)
    requires
        header_end(buf) is Some,
    ensures
        header_end(buf.take(header_end(buf)->0)) == header_end(buf),
        buf.take(header_end(buf)->0).len() == header_end(buf)->0,
{
    lemma_found(buf, blank_line());
    let i = find(buf, blank_line())->0;
    let head = buf.take(i + 4);
    assert(first_at(head, blank_line(), i)) by {
        lemma_stands_at(buf, i);
        lemma_stands_at(head, i);
        assert forall|j: int| 0 <= j < i implies !#[trigger] stands_at(head, blank_line(), j) by {
            lemma_stands_at(buf, j);
            lemma_stands_at(head, j);
            assert(!stands_at(buf, blank_line(), j));
        }
    }
    lemma_find(head, blank_line(), i);
}

/// More bytes after a head do not move its end.
pub proof fn law_header_end_is_stable(buf: Seq<u8>, more: Seq<u8>)
    requires
        header_end(buf) is Some,
    ensures
        header_end(buf + more) == header_end(buf),
{
    lemma_found(buf, blank_line());
    let i = find(buf, blank_line())->0;
    assert(first_at(buf + more, blank_line(), i)) by {
        lemma_stands_at(buf, i);
        lemma_stands_at(buf + more, i);
        assert forall|j: int| 0 <= j < i implies !#[trigger] stands_at(
            buf + more,
            blank_line(),
            j,
        ) by {
            lemma_stands_at(buf, j);
            lemma_stands_at(buf + more, j);
            assert(!stands_at(buf, blank_line(), j));
        }
    }
    lemma_find(buf + more, blank_line(), i);
}

/// The bytes of a character above the space are above the space.
proof fn lemma_char_bytes(c: char)
    requires
        c > ' ',
    ensures
        forall|i: int|
            0 <= i < vstd::utf8::encode_scalar(c as u32).len()
                ==> #[trigger] vstd::utf8::encode_scalar(c as u32)[i] > 32,
{
    let v = c as u32;
    assert(v > 32 && v <= 0x7f ==> (v & 0x7F) as u8 > 32) by (bit_vector);
    assert(0xC0u8 | ((v >> 6) & 0x1F) as u8 > 32) by (bit_vector);
    assert(0xE0u8 | ((v >> 12) & 0x0F) as u8 > 32) by (bit_vector);
    assert(0xF0u8 | ((v >> 18) & 0x7) as u8 > 32) by (bit_vector);
    assert(0x80u8 | (v & 0x3F) as u8 > 32) by (bit_vector);
    assert(0x80u8 | ((v >> 6) & 0x3F) as u8 > 32) by (bit_vector);
    assert(0x80u8 | ((v >> 12) & 0x3F) as u8 > 32) by (bit_vector);
}

/// A text without spaces and control characters below the space has none in its bytes.
pub proof fn lemma_unspaced_bytes(chars: Seq<char>)
    requires
        crate::text::is_unspaced(chars),
    ensures
        forall|i: int|
            0 <= i < vstd::utf8::encode_utf8(chars).len() ==> #[trigger] vstd::utf8::encode_utf8(
                chars,
            )[i] > 32,
    decreases chars.len(),
{
    if chars.len() > 0 {
        let first = vstd::utf8::encode_scalar(chars[0] as u32);
        let rest = vstd::utf8::encode_utf8(chars.drop_first());
        lemma_char_bytes(chars[0]);
        assert forall|i: int| 0 <= i < chars.drop_first().len() implies #[trigger] chars.drop_first()[i]
            > ' ' by {
            assert(chars.drop_first()[i] == chars[i + 1]);
        }
        lemma_unspaced_bytes(chars.drop_first());
        let all = vstd::utf8::encode_utf8(chars);
        assert(all == first + rest);
        assert forall|i: int| 0 <= i < all.len() implies #[trigger] all[i] > 32 by {
            if i < first.len() {
                assert(all[i] == first[i]);
            } else {
                assert(all[i] == rest[i - first.len()]);
            }
        }
    }
}

/// A target without spaces and control characters below the space holds no empty line.
pub proof fn lemma_unspaced_target(chars: Seq<char>)
    requires
        crate::text::is_unspaced(chars),
    ensures
        header_end(vstd::utf8::encode_utf8(chars)) is None,
{
    let target = vstd::utf8::encode_utf8(chars);
    lemma_unspaced_bytes(chars);
    assert forall|j: int| !#[trigger] stands_at(target, blank_line(), j) by {
        lemma_stands_at(target, j);
    }
}

/// Whether the four bytes that end a line and make an empty one stand at position `i`.
pub open spec fn empty_line_at(buf: Seq<u8>, i: int) -> bool {
    0 <= i && i + 4 <= buf.len() && buf.subrange(i, i + 4) == seq![13u8, 10u8, 13u8, 10u8]
}

/// Whether `head` ends with an empty line and holds none before.
pub open spec fn is_whole_head(head: Seq<u8>) -> bool {
    &&& empty_line_at(head, head.len() - 4)
    &&& forall|i: int| 0 <= i < head.len() - 4 ==> !#[trigger] empty_line_at(head, i)
}

/// A head ends with the first empty line, whatever comes behind it.
pub proof fn law_heads_end_with_an_empty_line(head: Seq<u8>, rest: Seq<u8>)
    requires
        is_whole_head(head),
    ensures
        header_end(head + rest) == Some(head.len() as int),
        header_end(head) == Some(head.len() as int),
{
    let at = head.len() - 4;
    assert(first_at(head, blank_line(), at)) by {
        assert forall|j: int| 0 <= j < at implies !#[trigger] stands_at(head, blank_line(), j) by {
            assert(!empty_line_at(head, j));
        }
    }
    lemma_find(head, blank_line(), at);
    law_header_end_is_stable(head, rest);
}

/// Where there is no empty line there is no whole head.
pub proof fn law_no_head_without_an_empty_line(buf: Seq<u8>)
    requires
        forall|i: int| !#[trigger] empty_line_at(buf, i),
    ensures
        header_end(buf) is None,
{
    assert forall|j: int| !#[trigger] stands_at(buf, blank_line(), j) by {
        assert(!empty_line_at(buf, j));
    }
}

/// Whether `line` holds no end of a line.
pub open spec fn is_one_line(line: Seq<u8>) -> bool {
    forall|i: int| 0 <= i < line.len() - 1 ==> !(#[trigger] line[i] == 13 && line[i + 1] == 10)
}

/// Whether `word` holds no space.
pub open spec fn is_one_word(word: Seq<u8>) -> bool {
    forall|i: int| 0 <= i < word.len() ==> #[trigger] word[i] != 32
}

/// A line that holds no end of a line, and a word that holds no space.
proof fn lemma_one_line_and_word(s: Seq<u8>)
    ensures
        is_one_line(s) ==> absent(s, crlf()),
        is_one_word(s) ==> absent(s, space()),
{
    assert forall|j: int| is_one_line(s) implies !#[trigger] stands_at(s, crlf(), j) by {
        lemma_stands_at(s, j);
    }
    assert forall|j: int| is_one_word(s) implies !#[trigger] stands_at(s, space(), j) by {
        lemma_stands_at(s, j);
    }
}

/// In a head that starts with a method, a space, a target, a space and a version, the new
/// target takes the place of the old one, and all else stays byte for byte.
pub proof fn law_rewriting_puts_the_target_in_place(
    method: Seq<u8>,
    target: Seq<u8>,
    version: Seq<u8>,
    rest: Seq<u8>,
    new_target: Seq<u8>,
)
    requires
        is_one_word(method),
        is_one_word(target),
        is_one_line(method + seq![32u8] + target + seq![32u8] + version),
    ensures
        with_target(
            method + seq![32u8] + target + seq![32u8] + version + seq![13u8, 10u8] + rest,
            new_target,
        ) == method + seq![32u8] + new_target + seq![32u8] + version + seq![13u8, 10u8] + rest,
{
    lemma_one_line_and_word(method);
    lemma_one_line_and_word(target);
    lemma_one_line_and_word(method + seq![32u8] + target + seq![32u8] + version);
    law_rewrite_replaces_the_target(method, target, version, rest, new_target);
}

/// A head whose first line is one word has no target to replace and stays as it is.
pub proof fn law_single_words_stay(word: Seq<u8>, rest: Seq<u8>, new_target: Seq<u8>)
    requires
        is_one_word(word),
        is_one_line(word),
    ensures
        with_target(word + seq![13u8, 10u8] + rest, new_target) == word + seq![13u8, 10u8] + rest,
{
    let head = word + crlf() + rest;
    lemma_one_line_and_word(word);
    lemma_line_end(word, rest);
    assert(head.take(word.len() as int) =~= word);
    assert(find(word, space()) is None);
}

/// `law_pairs_of_words_stay`, said of what does not stand in the words and the line.
#[verifier::spinoff_prover]
proof fn lemma_pairs_of_words_stay(first: Seq<u8>, second: Seq<u8>, rest: Seq<u8>, new: Seq<u8>)
    requires
        absent(first, space()),
        absent(second, space()),
        absent(first + space() + second, crlf()),
    ensures
        with_target(first + space() + second + crlf() + rest, new) == first + space() + second
            + crlf() + rest,
{
    let line = first + space() + second;
    let head = line + crlf() + rest;
    lemma_line_end(line, rest);
    assert(head.take(line.len() as int) =~= line);
    lemma_word_end(first, second);
    let n: int = first.len() as int;
    assert(line.skip(n + 1) =~= second);
    assert(find(second, space()) is None);
}

/// A head whose first line is two words has no target to replace and stays as it is.
pub proof fn law_pairs_of_words_stay(
    first: Seq<u8>,
    second: Seq<u8>,
    rest: Seq<u8>,
    new_target: Seq<u8>,
)
    requires
        is_one_word(first),
        is_one_word(second),
        is_one_line(first + seq![32u8] + second),
    ensures
        with_target(first + seq![32u8] + second + seq![13u8, 10u8] + rest, new_target) == first
            + seq![32u8] + second + seq![13u8, 10u8] + rest,
{
    lemma_one_line_and_word(first);
    lemma_one_line_and_word(second);
    lemma_one_line_and_word(first + seq![32u8] + second);
    lemma_pairs_of_words_stay(first, second, rest, new_target);
}

/// A head whose first line does not end has no target to replace and stays as it is.
pub proof fn law_unended_lines_stay(line: Seq<u8>, new: Seq<u8>)
    requires
        is_one_line(line),
    ensures
        with_target(line, new) == line,
{
    lemma_one_line_and_word(line);
    assert(find(line, crlf()) is None);
}

} // verus!
