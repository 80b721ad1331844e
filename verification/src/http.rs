//! Request heads as they were parsed, and what their headers say.

use crate::text;
use vstd::prelude::*;
use vstd::string::*;

verus! {

/// One header of a request.
pub struct Header {
    pub name: String,
    pub value: Vec<u8>,
}

/// Name and value of a `Header`.
pub struct HeaderView {
    pub name: Seq<char>,
    pub value: Seq<u8>,
}

impl View for Header {
    type V = HeaderView;

    open spec fn view(&self) -> HeaderView {
        HeaderView { name: self.name@, value: self.value@ }
    }
}

/// The views of a list of headers.
pub open spec fn header_views(headers: Seq<Header>) -> Seq<HeaderView> {
    Seq::new(headers.len(), |i: int| headers[i]@)
}

/// What parsing found in the bytes of a request head.
pub struct RequestHead {
    /// Whether the bytes hold all of the head.
    pub complete: bool,
    /// The target of the request line, as far as the bytes go that far.
    pub path: Option<String>,
    /// The headers found. Where the head is not complete, unused slots stand at the end,
    /// with an empty name and an empty value.
    pub headers: Vec<Header>,
}

/// What a `RequestHead` holds, as mathematical values.
pub struct RequestHeadView {
    pub complete: bool,
    pub path: Option<Seq<char>>,
    pub headers: Seq<HeaderView>,
}

impl View for RequestHead {
    type V = RequestHeadView;

    open spec fn view(&self) -> RequestHeadView {
        RequestHeadView {
            complete: self.complete,
            path: text::opt_text(self.path),
            headers: header_views(self.headers@),
        }
    }
}

/// The view of an optional `RequestHead`.
pub open spec fn opt_head(head: Option<RequestHead>) -> Option<RequestHeadView> {
    match head {
        Some(h) => Some(h@),
        None => None,
    }
}

/// What `httparse::Request::parse` finds in `buf` with room for `slots` headers. `None`
/// where it finds an error.
pub uninterp spec fn parsed_request(buf: Seq<u8>, slots: nat) -> Option<RequestHeadView>;

/// Calls `httparse::Request::parse`, with room for `SLOTS` headers.
///
/// Trusted: what comes back depends on the bytes and on the room alone. A target holds
/// neither spaces nor control characters below the space.
#[verifier::external_body]
pub(crate) fn parse_request<const SLOTS: usize>(buf: &[u8]) -> (head: Option<RequestHead>)
    ensures
        opt_head(head) == parsed_request(buf@, SLOTS as nat),
        head matches Some(RequestHead { path: Some(path), .. }) ==> text::is_unspaced(path@),
{
    let mut slots = [httparse::EMPTY_HEADER; SLOTS];
    let mut request = httparse::Request::new(&mut slots);
    let status = request.parse(buf).ok()?;
    let to_header = |h: &httparse::Header| Header { name: h.name.to_string(), value: h.value.to_vec() };
    Some(RequestHead {
        complete: status.is_complete(),
        path: request.path.map(|path| path.to_string()),
        headers: request.headers.iter().map(to_header).collect(),
    })
}

/// Calls `std::str::from_utf8`.
///
/// Trusted: bytes are a string exactly if they are valid UTF-8, and it is the string that
/// they encode.
#[verifier::external_body]
fn utf8_text(bytes: &[u8]) -> (s: Option<&str>)
    ensures
        s is Some <==> vstd::utf8::valid_utf8(bytes@),
        s matches Some(t) ==> t@ == vstd::utf8::decode_utf8(bytes@),
{
    std::str::from_utf8(bytes).ok()
}

/// The text of a header value, where it is UTF-8.
pub open spec fn value_text(value: Seq<u8>) -> Option<Seq<char>> {
    if vstd::utf8::valid_utf8(value) {
        Some(vstd::utf8::decode_utf8(value))
    } else {
        None
    }
}

/// Whether two header names are the same: ASCII letters count in either case.
pub open spec fn same_name(a: Seq<char>, b: Seq<char>) -> bool {
    text::lower(a) == text::lower(b)
}

/// The value of the first header with a name.
pub open spec fn first_value(headers: Seq<HeaderView>, name: Seq<char>) -> Option<Seq<u8>>
    decreases headers.len(),
{
    if headers.len() == 0 {
        None
    } else if same_name(headers[0].name, name) {
        Some(headers[0].value)
    } else {
        first_value(headers.skip(1), name)
    }
}

/// The text of the first header with a name. `None` where there is no such header, and
/// where the first one is not UTF-8.
pub open spec fn first_text(headers: Seq<HeaderView>, name: Seq<char>) -> Option<Seq<char>> {
    match first_value(headers, name) {
        Some(value) => value_text(value),
        None => None,
    }
}

/// The text of the first header with a name.
pub fn header_text<'a>(headers: &'a [Header], name: &str) -> (t: Option<&'a str>)
    ensures
        t is Some <==> first_text(header_views(headers@), name@) is Some,
        t matches Some(s) ==> first_text(header_views(headers@), name@) == Some(s@),
{
    let ghost views = header_views(headers@);
    let n: usize = headers.len();
    let mut i: usize = 0;
    assert(views.skip(0) =~= views);
    while i < n
        invariant
            i <= n,
            n == headers@.len(),
            views == header_views(headers@),
            first_value(views, name@) == first_value(views.skip(i as int), name@),
        decreases n - i,
    {
        assert(views.skip(i as int)[0] == headers@[i as int]@);
        if text::eq_ignore_ascii_case(headers[i].name.as_str(), name) {
            return utf8_text(headers[i].value.as_slice());
        }
        assert(views.skip(i as int).skip(1) =~= views.skip(i + 1));
        i = i + 1;
    }
    None
}

/// Whether the first header called `name` carries `expected`, white space around it
/// aside.
pub open spec fn carries(headers: Seq<HeaderView>, name: Seq<char>, expected: Seq<char>) -> bool {
    match first_text(headers, name) {
        Some(value) => text::trimmed(value) == expected,
        None => false,
    }
}

/// Whether a request carries the token of a protected tunnel, in the header `name`.
pub fn auth_header_matches(headers: &[Header], name: &str, expected: &str) -> (matches: bool)
    ensures
        matches == carries(header_views(headers@), name@, expected@),
{
    match header_text(headers, name) {
        Some(value) => text::str_eq(text::trim(value), expected),
        None => false,
    }
}

/// The length that a request gives for its body, where it gives one that can be read.
pub open spec fn declared_length(headers: Seq<HeaderView>) -> Option<usize> {
    match first_text(headers, "content-length"@) {
        Some(value) => text::decimal(text::trimmed(value)),
        None => None,
    }
}

/// Reads the length that a request gives for its body.
pub fn content_length(headers: &[Header]) -> (length: Option<usize>)
    ensures
        length == declared_length(header_views(headers@)),
{
    match header_text(headers, "content-length") {
        Some(value) => text::parse_decimal(text::trim(value)),
        None => None,
    }
}

/// Whether a header says that the body of its request is chunked.
pub open spec fn says_chunked(header: HeaderView) -> bool {
    &&& same_name(header.name, "transfer-encoding"@)
    &&& value_text(header.value) matches Some(value) && text::occurs_in(
        "chunked"@,
        text::lower(value),
    )
}

/// Whether some header says that the body is chunked.
pub open spec fn chunked(headers: Seq<HeaderView>) -> bool {
    exists|i: int| 0 <= i < headers.len() && says_chunked(#[trigger] headers[i])
}

/// Whether the body of a request is chunked.
pub fn has_chunked_body(headers: &[Header]) -> (yes: bool)
    ensures
        yes == chunked(header_views(headers@)),
{
    let ghost views = header_views(headers@);
    let n: usize = headers.len();
    let mut i: usize = 0;
    while i < n
        invariant
            i <= n,
            n == headers@.len(),
            views == header_views(headers@),
            forall|j: int| 0 <= j < i ==> !says_chunked(#[trigger] views[j]),
        decreases n - i,
    {
        assert(views[i as int] == headers@[i as int]@);
        if text::eq_ignore_ascii_case(headers[i].name.as_str(), "transfer-encoding") {
            if let Some(value) = utf8_text(headers[i].value.as_slice()) {
                if text::contains_lower(value, "chunked") {
                    assert(says_chunked(views[i as int]));
                    return true;
                }
            }
        }
        i = i + 1;
    }
    false
}

/// Whether the header at position `i` is the first whose name has the letters of `name`.
pub open spec fn is_first(headers: Seq<HeaderView>, name: Seq<char>, i: int) -> bool {
    &&& 0 <= i < headers.len()
    &&& text::same_letters(headers[i].name, name)
    &&& forall|j: int| 0 <= j < i ==> !text::same_letters(#[trigger] headers[j].name, name)
}

/// Whether no header has a name with the letters of `name`.
pub open spec fn lacks(headers: Seq<HeaderView>, name: Seq<char>) -> bool {
    forall|j: int| 0 <= j < headers.len() ==> !text::same_letters(#[trigger] headers[j].name, name)
}

/// Whether the first header called `name` holds these characters, encoded in UTF-8.
pub open spec fn says(headers: Seq<HeaderView>, name: Seq<char>, value: Seq<char>) -> bool {
    exists|i: int|
        #[trigger] is_first(headers, name, i) && headers[i].value == vstd::utf8::encode_utf8(value)
}

/// Whether there is no header called `name`, or the first one is not UTF-8.
pub open spec fn says_nothing(headers: Seq<HeaderView>, name: Seq<char>) -> bool {
    lacks(headers, name) || exists|i: int|
        #[trigger] is_first(headers, name, i) && !vstd::utf8::valid_utf8(headers[i].value)
}

/// The first of some headers is the one that the search finds.
proof fn lemma_first_value(headers: Seq<HeaderView>, name: Seq<char>, i: int)
    requires
        is_first(headers, name, i),
    ensures
        first_value(headers, name) == Some(headers[i].value),
    decreases headers.len(),
{
    text::law_case_makes_no_difference(headers[0].name, name);
    if i > 0 {
        assert(!text::same_letters(headers[0].name, name));
        let rest = headers.skip(1);
        assert forall|j: int| 0 <= j < i - 1 implies !text::same_letters(
            #[trigger] rest[j].name,
            name,
        ) by {
            assert(rest[j] == headers[j + 1]);
        }
        lemma_first_value(rest, name, i - 1);
    }
}

/// Where no header has the name, none is found.
proof fn lemma_no_value(headers: Seq<HeaderView>, name: Seq<char>)
    requires
        lacks(headers, name),
    ensures
        first_value(headers, name) is None,
    decreases headers.len(),
{
    if headers.len() > 0 {
        text::law_case_makes_no_difference(headers[0].name, name);
        assert(!text::same_letters(headers[0].name, name));
        let rest = headers.skip(1);
        assert forall|j: int| 0 <= j < rest.len() implies !text::same_letters(
            #[trigger] rest[j].name,
            name,
        ) by {
            assert(rest[j] == headers[j + 1]);
        }
        lemma_no_value(rest, name);
    }
}

/// Among some headers there is a first one with the name, or none at all.
proof fn lemma_first_or_none(headers: Seq<HeaderView>, name: Seq<char>)
    ensures
        lacks(headers, name) || exists|i: int| is_first(headers, name, i),
    decreases headers.len(),
{
    if headers.len() > 0 {
        let front = headers.drop_last();
        let last = headers.len() - 1;
        lemma_first_or_none(front, name);
        if lacks(front, name) {
            assert forall|j: int| 0 <= j < last implies !text::same_letters(
                #[trigger] headers[j].name,
                name,
            ) by {
                assert(front[j] == headers[j]);
            }
            if text::same_letters(headers[last].name, name) {
                assert(is_first(headers, name, last));
            }
        } else {
            let i = choose|i: int| is_first(front, name, i);
            assert forall|j: int| 0 <= j < i implies !text::same_letters(
                #[trigger] headers[j].name,
                name,
            ) by {
                assert(front[j] == headers[j]);
            }
            assert(is_first(headers, name, i));
        }
    }
}

/// The text of a header is what the first header of that name says, whatever case the name
/// is written in, and nothing where it says nothing.
pub proof fn law_headers_say_their_text(headers: Seq<HeaderView>, name: Seq<char>)
    ensures
        match first_text(headers, name) {
            Some(value) => says(headers, name, value),
            None => says_nothing(headers, name),
        },
        forall|value: Seq<char>|
            #[trigger] says(headers, name, value) ==> first_text(headers, name) == Some(value),
        says_nothing(headers, name) ==> first_text(headers, name) is None,
{
    assert forall|value: Seq<char>| #[trigger] says(headers, name, value) implies first_text(
        headers,
        name,
    ) == Some(value) by {
        let i = choose|i: int|
            #[trigger] is_first(headers, name, i) && headers[i].value
                == vstd::utf8::encode_utf8(value);
        lemma_first_value(headers, name, i);
        vstd::utf8::encode_utf8_valid_utf8(value);
        vstd::utf8::encode_utf8_decode_utf8(value);
    }
    if lacks(headers, name) {
        lemma_no_value(headers, name);
    } else {
        lemma_first_or_none(headers, name);
        let i = choose|i: int| is_first(headers, name, i);
        lemma_first_value(headers, name, i);
        if vstd::utf8::valid_utf8(headers[i].value) {
            vstd::utf8::decode_utf8_encode_utf8(headers[i].value);
            assert(says(headers, name, vstd::utf8::decode_utf8(headers[i].value)));
        }
        assert forall|k: int| #[trigger] is_first(headers, name, k) implies k == i by {
            if k < i {
                assert(!text::same_letters(headers[k].name, name));
            } else if i < k {
                assert(!text::same_letters(headers[i].name, name));
            }
        }
    }
}

/// Whether the first header called `name` holds `token` with nothing but white space around
/// it.
pub open spec fn shows(headers: Seq<HeaderView>, name: Seq<char>, token: Seq<char>) -> bool {
    &&& text::is_bare(token)
    &&& exists|before: Seq<char>, after: Seq<char>|
        text::all_white(before) && text::all_white(after) && #[trigger] says(
            headers,
            name,
            before + token + after,
        )
}

/// A request carries a token exactly if the first header of that name shows it.
pub proof fn law_tokens_are_shown(headers: Seq<HeaderView>, name: Seq<char>, token: Seq<char>)
    ensures
        carries(headers, name, token) <==> shows(headers, name, token),
{
    law_headers_say_their_text(headers, name);
    if carries(headers, name, token) {
        let value = first_text(headers, name)->0;
        let parts = text::lemma_trimmed_parts(value);
        assert(says(headers, name, parts.0 + token + parts.1));
    }
    if shows(headers, name, token) {
        let (before, after) = choose|before: Seq<char>, after: Seq<char>|
            text::all_white(before) && text::all_white(after) && #[trigger] says(
                headers,
                name,
                before + token + after,
            );
        text::law_trimming_takes_off_white_space(before, token, after);
    }
}

/// The length of a body is the number that the first `Content-Length` header writes in
/// decimal, white space around it aside; none where it is too large for the machine.
pub proof fn law_lengths_are_read(
    headers: Seq<HeaderView>,
    before: Seq<char>,
    after: Seq<char>,
    n: nat,
    plus: bool,
    zeros: nat,
)
    requires
        text::all_white(before),
        text::all_white(after),
        says(headers, "content-length"@, before + text::written_as(n, plus, zeros) + after),
    ensures
        declared_length(headers) == if n <= usize::MAX {
            Some(n as usize)
        } else {
            None
        },
{
    law_headers_say_their_text(headers, "content-length"@);
    text::lemma_written_is_bare(n, plus, zeros);
    text::law_trimming_takes_off_white_space(before, text::written_as(n, plus, zeros), after);
    text::law_written_numbers_are_read_back(n, plus, zeros);
}

/// Where the first `Content-Length` header is missing, not UTF-8 or no number, white space
/// around it aside, no length is read. `i` is where the text shows that it is no number.
pub proof fn law_other_lengths_are_not_read(
    headers: Seq<HeaderView>,
    before: Seq<char>,
    core: Seq<char>,
    after: Seq<char>,
    i: int,
)
    requires
        text::all_white(before),
        text::is_bare(core),
        text::all_white(after),
        says_nothing(headers, "content-length"@) || (says(
            headers,
            "content-length"@,
            before + core + after,
        ) && text::shows_no_number(core, i)),
    ensures
        declared_length(headers) is None,
{
    law_headers_say_their_text(headers, "content-length"@);
    if !says_nothing(headers, "content-length"@) {
        text::law_trimming_takes_off_white_space(before, core, after);
        text::law_other_texts_are_no_numbers(core, i);
    }
}

/// Whether a `Transfer-Encoding` header holds the word `chunked` somewhere, in any case.
pub open spec fn announces_chunks(header: HeaderView) -> bool {
    &&& text::same_letters(header.name, "transfer-encoding"@)
    &&& exists|before: Seq<char>, word: Seq<char>, after: Seq<char>|
        text::same_letters(word, "chunked"@) && header.value == #[trigger] vstd::utf8::encode_utf8(
            before + word + after,
        )
}

/// A header says that its body is chunked exactly if it announces chunks.
proof fn lemma_announces(header: HeaderView)
    ensures
        says_chunked(header) <==> announces_chunks(header),
{
    let pattern = "chunked"@;
    text::law_case_makes_no_difference(header.name, "transfer-encoding"@);
    text::lemma_small_chunked();
    if says_chunked(header) {
        let value = vstd::utf8::decode_utf8(header.value);
        vstd::utf8::decode_utf8_encode_utf8(header.value);
        let i = choose|i: int| #[trigger] text::occurs_at(pattern, text::lower(value), i);
        let before = value.take(i);
        let word = value.subrange(i, i + pattern.len());
        let after = value.skip(i + pattern.len());
        assert(value =~= before + word + after);
        assert(text::lower(word) =~= text::lower(value).subrange(i, i + pattern.len()));
        text::law_case_makes_no_difference(word, pattern);
        assert(header.value == vstd::utf8::encode_utf8(before + word + after));
    }
    if announces_chunks(header) {
        let (before, word, after) = choose|before: Seq<char>, word: Seq<char>, after: Seq<char>|
            text::same_letters(word, pattern) && header.value
                == #[trigger] vstd::utf8::encode_utf8(before + word + after);
        let value = before + word + after;
        vstd::utf8::encode_utf8_valid_utf8(value);
        vstd::utf8::encode_utf8_decode_utf8(value);
        text::law_case_makes_no_difference(word, pattern);
        text::law_parts_occur(text::lower(before), text::lower(word), text::lower(after));
        assert(text::lower(value) =~= text::lower(before) + text::lower(word) + text::lower(after));
    }
}

/// A body is chunked exactly if some header announces chunks, wherever it stands.
pub proof fn law_chunks_are_announced(headers: Seq<HeaderView>)
    ensures
        chunked(headers) <==> exists|i: int|
            0 <= i < headers.len() && announces_chunks(#[trigger] headers[i]),
{
    if chunked(headers) {
        let i = choose|i: int| 0 <= i < headers.len() && says_chunked(#[trigger] headers[i]);
        lemma_announces(headers[i]);
    }
    if exists|i: int| 0 <= i < headers.len() && announces_chunks(#[trigger] headers[i]) {
        let i = choose|i: int| 0 <= i < headers.len() && announces_chunks(#[trigger] headers[i]);
        lemma_announces(headers[i]);
    }
}

/// The view of a head says all that it says, header for header.
pub proof fn law_heads_are_seen_whole(head: RequestHead)
    ensures
        opt_head(Some(head)) == Some(head@),
        opt_head(None) is None,
        head@.complete == head.complete,
        head@.path is Some <==> head.path is Some,
        head.path is Some ==> head@.path == Some(head.path->0@),
        head@.headers.len() == head.headers@.len(),
        forall|i: int|
            0 <= i < head.headers@.len() ==> #[trigger] head@.headers[i].name
                == head.headers@[i].name@ && head@.headers[i].value == head.headers@[i].value@,
{
}

} // verus!
