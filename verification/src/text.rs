//! Characters and text: the small operations on strings that the rest of the
//! library is written with, each with its meaning on the sequence of characters.

use vstd::prelude::*;
use vstd::string::*;

verus! {

/// `c` with an ASCII capital letter made small.
pub open spec fn lower_char(c: char) -> char {
    if 'A' <= c && c <= 'Z' {
        (c as u32 + 32) as char
    } else {
        c
    }
}

/// `s` with every ASCII capital letter made small.
pub open spec fn lower(s: Seq<char>) -> Seq<char> {
    Seq::new(s.len(), |i: int| lower_char(s[i]))
}

/// The characters with the Unicode property `White_Space`.
pub open spec fn is_white_space(c: char) -> bool {
    ||| 0x9 <= c as u32 <= 0xd
    ||| c as u32 == 0x20
    ||| c as u32 == 0x85
    ||| c as u32 == 0xa0
    ||| c as u32 == 0x1680
    ||| 0x2000 <= c as u32 <= 0x200a
    ||| c as u32 == 0x2028
    ||| c as u32 == 0x2029
    ||| c as u32 == 0x202f
    ||| c as u32 == 0x205f
    ||| c as u32 == 0x3000
}

/// `s` without the white space that it starts with.
pub open spec fn trim_start(s: Seq<char>) -> Seq<char>
    decreases s.len(),
{
    if s.len() > 0 && is_white_space(s[0]) {
        trim_start(s.skip(1))
    } else {
        s
    }
}

/// `s` without the white space that it ends with.
pub open spec fn trim_end(s: Seq<char>) -> Seq<char>
    decreases s.len(),
{
    if s.len() > 0 && is_white_space(s.last()) {
        trim_end(s.drop_last())
    } else {
        s
    }
}

/// `s` without the white space that it starts and ends with.
pub open spec fn trimmed(s: Seq<char>) -> Seq<char> {
    trim_end(trim_start(s))
}

/// The text of an optional string.
pub open spec fn opt_text(s: Option<String>) -> Option<Seq<char>> {
    match s {
        Some(t) => Some(t@),
        None => None,
    }
}

/// Whether `s` is free of spaces and control characters below the space.
pub open spec fn is_unspaced(s: Seq<char>) -> bool {
    forall|i: int| 0 <= i < s.len() ==> #[trigger] s[i] > ' '
}

/// The texts of a list of strings.
pub open spec fn texts(list: Seq<String>) -> Seq<Seq<char>> {
    Seq::new(list.len(), |i: int| list[i]@)
}

/// Whether `pattern` occurs somewhere in `s`.
pub open spec fn occurs_in(pattern: Seq<char>, s: Seq<char>) -> bool {
    exists|i: int| #[trigger] occurs_at(pattern, s, i)
}

/// Whether `pattern` occurs in `s` at position `i`.
pub open spec fn occurs_at(pattern: Seq<char>, s: Seq<char>, i: int) -> bool {
    &&& 0 <= i
    &&& i + pattern.len() <= s.len()
    &&& s.subrange(i, i + pattern.len()) == pattern
}

/// Whether every character of `s` is a decimal digit.
pub open spec fn all_digits(s: Seq<char>) -> bool {
    forall|i: int| 0 <= i < s.len() ==> '0' <= #[trigger] s[i] && s[i] <= '9'
}

/// The number that a sequence of decimal digits denotes.
pub open spec fn digits_value(s: Seq<char>) -> nat
    decreases s.len(),
{
    if s.len() == 0 {
        0
    } else {
        digits_value(s.drop_last()) * 10 + (s.last() as u32 - '0' as u32) as nat
    }
}

/// `s` without the plus sign that it may start with.
pub open spec fn without_plus(s: Seq<char>) -> Seq<char> {
    if s.len() > 0 && s[0] == '+' {
        s.skip(1)
    } else {
        s
    }
}

/// The number that `s` writes in decimal: an optional plus sign, then digits and
/// nothing else, at least one of them, with a value that a `usize` can hold.
pub open spec fn decimal(s: Seq<char>) -> Option<usize> {
    let digits = without_plus(s);
    if digits.len() > 0 && all_digits(digits) && digits_value(digits) <= usize::MAX {
        Some(digits_value(digits) as usize)
    } else {
        None
    }
}

/// The characters of `s`, one by one.
pub fn chars_of(s: &str) -> (chars: Vec<char>)
    ensures
        chars@ == s@,
{
    let mut chars: Vec<char> = Vec::new();
    for c in it: s.chars()
        invariant
            it.seq() == s@,
            chars@ == s@.take(it.index()),
    {
        chars.push(c);
        assert(s@.take(it.index() + 1) == s@.take(it.index()).push(c));
    }
    assert(s@.take(s@.len() as int) == s@);
    chars
}

/// Whether two strings are the same text.
pub fn str_eq(a: &str, b: &str) -> (same: bool)
    ensures
        same == (a@ == b@),
{
    let x = chars_of(a);
    let y = chars_of(b);
    if x.len() != y.len() {
        return false;
    }
    assert(x@.subrange(0, y@.len() as int) =~= x@);
    chars_at(&x, &y, 0)
}

/// Whether `pattern` stands in `s` at position `at`.
fn chars_at(s: &Vec<char>, pattern: &Vec<char>, at: usize) -> (found: bool)
    requires
        at + pattern@.len() <= s@.len(),
    ensures
        found == (s@.subrange(at as int, at + pattern@.len()) == pattern@),
{
    let total: usize = s.len();
    let mut i: usize = 0;
    while i < pattern.len()
        invariant
            i <= pattern@.len(),
            at + pattern@.len() <= s@.len(),
            s@.len() == total,
            forall|j: int| 0 <= j < i ==> s@[at + j] == #[trigger] pattern@[j],
        decreases pattern@.len() - i,
    {
        if s[at + i] != pattern[i] {
            assert(s@.subrange(at as int, at + pattern@.len())[i as int] == s@[at + i]);
            return false;
        }
        i = i + 1;
    }
    assert(s@.subrange(at as int, at + pattern@.len()) =~= pattern@);
    true
}

/// What follows `prefix` in `s`, where `s` starts with it.
pub fn strip_prefix(s: &str, prefix: &str) -> (rest: Option<String>)
    ensures
        rest is Some <==> prefix@.is_prefix_of(s@),
        rest matches Some(r) ==> r@ == s@.skip(prefix@.len() as int),
{
    let x = chars_of(s);
    let y = chars_of(prefix);
    if x.len() < y.len() || !chars_at(&x, &y, 0) {
        return None;
    }
    Some(s.substring_char(y.len(), x.len()).to_owned())
}

/// Whether `s` starts with `prefix`.
pub fn starts_with(s: &str, prefix: &str) -> (starts: bool)
    ensures
        starts == prefix@.is_prefix_of(s@),
{
    let x = chars_of(s);
    let y = chars_of(prefix);
    x.len() >= y.len() && chars_at(&x, &y, 0)
}

/// Makes an ASCII capital letter small and leaves every other character alone.
fn to_lower(c: char) -> (l: char)
    ensures
        l == lower_char(c),
{
    if 'A' <= c && c <= 'Z' {
        (c as u8 + 32) as char
    } else {
        c
    }
}

/// The characters of `s` with every ASCII capital letter made small.
fn lower_chars(s: &str) -> (chars: Vec<char>)
    ensures
        chars@ == lower(s@),
{
    let x = chars_of(s);
    let mut chars: Vec<char> = Vec::new();
    let mut i: usize = 0;
    while i < x.len()
        invariant
            i <= x@.len(),
            x@ == s@,
            chars@ == lower(s@).take(i as int),
        decreases x@.len() - i,
    {
        chars.push(to_lower(x[i]));
        i = i + 1;
        assert(chars@ =~= lower(s@).take(i as int));
    }
    assert(lower(s@).take(i as int) =~= lower(s@));
    chars
}

/// `s` with every ASCII capital letter made small.
pub fn to_lower_case(s: &str) -> (l: String)
    ensures
        l@ == lower(s@),
{
    let small = "abcdefghijklmnopqrstuvwxyz";
    proof {
        reveal_strlit("abcdefghijklmnopqrstuvwxyz");
    }
    let x = chars_of(s);
    let mut l: String = String::new();
    let mut i: usize = 0;
    while i < x.len()
        invariant
            i <= x@.len(),
            x@ == s@,
            small@ == "abcdefghijklmnopqrstuvwxyz"@,
            small@.len() == 26,
            forall|k: int| 0 <= k < 26 ==> #[trigger] small@[k] == ('a' as u32 + k) as char,
            l@ == lower(s@).take(i as int),
        decreases x@.len() - i,
    {
        let c: char = x[i];
        if 'A' <= c && c <= 'Z' {
            let k: usize = (c as u32 - 'A' as u32) as usize;
            l.append(small.substring_char(k, k + 1));
            assert(small@[k as int] == lower_char(c));
            assert(small@.subrange(k as int, k + 1) =~= seq![lower_char(c)]);
        } else {
            l.append(s.substring_char(i, i + 1));
            assert(s@.subrange(i as int, i + 1) =~= seq![lower_char(c)]);
        }
        assert(lower(s@).take(i + 1) =~= lower(s@).take(i as int) + seq![lower_char(c)]);
        i = i + 1;
    }
    assert(lower(s@).take(i as int) =~= lower(s@));
    l
}

/// Whether two strings differ in nothing but the case of ASCII letters.
pub fn eq_ignore_ascii_case(a: &str, b: &str) -> (same: bool)
    ensures
        same == (lower(a@) == lower(b@)),
{
    let x = lower_chars(a);
    let y = lower_chars(b);
    if x.len() != y.len() {
        return false;
    }
    assert(x@.subrange(0, y@.len() as int) =~= x@);
    chars_at(&x, &y, 0)
}

/// Whether `pattern` occurs in `s` once the ASCII capital letters of `s` are made small.
pub fn contains_lower(s: &str, pattern: &str) -> (found: bool)
    ensures
        found == occurs_in(pattern@, lower(s@)),
{
    let x = lower_chars(s);
    let y = chars_of(pattern);
    if x.len() < y.len() {
        return false;
    }
    let last: usize = x.len() - y.len();
    let mut i: usize = 0;
    while i <= last
        invariant
            i <= last + 1,
            last + y@.len() == x@.len(),
            x@ == lower(s@),
            y@ == pattern@,
            forall|j: int| 0 <= j < i ==> !#[trigger] occurs_at(pattern@, lower(s@), j),
        decreases last + 1 - i,
    {
        if chars_at(&x, &y, i) {
            assert(occurs_at(pattern@, lower(s@), i as int));
            return true;
        }
        if i == last {
            assert forall|j: int| !#[trigger] occurs_at(pattern@, lower(s@), j) by {
                if occurs_at(pattern@, lower(s@), j) {
                    assert(0 <= j <= last);
                }
            }
            return false;
        }
        i = i + 1;
    }
    false
}

/// Whether `s` holds the character `wanted`.
pub fn contains_char(s: &str, wanted: char) -> (found: bool)
    ensures
        found == s@.contains(wanted),
{
    let x = chars_of(s);
    let mut i: usize = 0;
    while i < x.len()
        invariant
            i <= x@.len(),
            x@ == s@,
            forall|j: int| 0 <= j < i ==> x@[j] != wanted,
        decreases x@.len() - i,
    {
        if x[i] == wanted {
            assert(s@[i as int] == wanted);
            return true;
        }
        i = i + 1;
    }
    false
}

/// Whether a character has the Unicode property `White_Space`.
fn white_space(c: char) -> (yes: bool)
    ensures
        yes == is_white_space(c),
{
    let code: u32 = c as u32;
    (0x9 <= code && code <= 0xd) || code == 0x20 || code == 0x85 || code == 0xa0 || code == 0x1680
        || (0x2000 <= code && code <= 0x200a) || code == 0x2028 || code == 0x2029 || code == 0x202f
        || code == 0x205f || code == 0x3000
}

/// `s` without the white space that it starts and ends with.
pub fn trim(s: &str) -> (t: &str)
    ensures
        t@ == trimmed(s@),
{
    let x = chars_of(s);
    let mut from: usize = 0;
    assert(s@.skip(0) =~= s@);
    while from < x.len() && white_space(x[from])
        invariant
            from <= x@.len(),
            x@ == s@,
            trim_start(s@) == trim_start(s@.skip(from as int)),
        decreases x@.len() - from,
    {
        assert(s@.skip(from as int)[0] == s@[from as int]);
        assert(s@.skip(from as int).skip(1) =~= s@.skip(from + 1));
        from = from + 1;
    }
    let mut to: usize = x.len();
    assert(s@.subrange(from as int, to as int) =~= s@.skip(from as int));
    while from < to && white_space(x[to - 1])
        invariant
            from <= to <= x@.len(),
            x@ == s@,
            trimmed(s@) == trim_end(s@.subrange(from as int, to as int)),
        decreases to,
    {
        assert(s@.subrange(from as int, to as int).last() == s@[to - 1]);
        assert(s@.subrange(from as int, to as int).drop_last() =~= s@.subrange(
            from as int,
            to - 1,
        ));
        to = to - 1;
    }
    s.substring_char(from, to)
}

/// Reads a decimal number.
pub fn parse_decimal(s: &str) -> (n: Option<usize>)
    ensures
        n == decimal(s@),
{
    let x = chars_of(s);
    let first: usize = if x.len() > 0 && x[0] == '+' {
        1
    } else {
        0
    };
    let ghost digits = without_plus(s@);
    assert(digits =~= s@.skip(first as int));
    if x.len() == first {
        return None;
    }
    let mut value: usize = 0;
    let mut overflowed: bool = false;
    let mut i: usize = first;
    assert(digits.take(0) =~= Seq::<char>::empty());
    while i < x.len()
        invariant
            first <= i <= x@.len(),
            x@ == s@,
            digits == s@.skip(first as int),
            digits == without_plus(s@),
            all_digits(digits.take(i - first)),
            overflowed ==> digits_value(digits.take(i - first)) > usize::MAX,
            !overflowed ==> value == digits_value(digits.take(i - first)),
        decreases x@.len() - i,
    {
        let c: char = x[i];
        assert(digits[i - first] == c);
        if c < '0' || '9' < c {
            return None;
        }
        let digit: usize = (c as u32 - '0' as u32) as usize;
        assert(digits.take(i + 1 - first).drop_last() =~= digits.take(i - first));
        if !overflowed {
            if value > (usize::MAX - digit) / 10 {
                overflowed = true;
            } else {
                value = value * 10 + digit;
            }
        }
        i = i + 1;
    }
    assert(digits.take(i - first) =~= digits);
    if overflowed {
        None
    } else {
        Some(value)
    }
}

/// Whether a list of strings holds `wanted`.
pub fn list_contains(list: &Vec<String>, wanted: &str) -> (found: bool)
    ensures
        found == texts(list@).contains(wanted@),
{
    let mut i: usize = 0;
    while i < list.len()
        invariant
            i <= list@.len(),
            forall|j: int| 0 <= j < i ==> texts(list@)[j] != wanted@,
        decreases list@.len() - i,
    {
        if str_eq(list[i].as_str(), wanted) {
            assert(texts(list@)[i as int] == wanted@);
            return true;
        }
        i = i + 1;
    }
    false
}

/// A text in small letters stays as it is when it is put in small letters again.
pub proof fn law_small_letters_stay(s: Seq<char>)
    ensures
        lower(lower(s)) == lower(s),
{
    assert(lower(lower(s)) =~= lower(s));
}

/// What is left without the white space at the start does not start with white space.
proof fn lemma_trim_start(s: Seq<char>)
    ensures
        trim_start(s).len() > 0 ==> !is_white_space(trim_start(s)[0]),
    decreases s.len(),
{
    if s.len() > 0 && is_white_space(s[0]) {
        lemma_trim_start(s.skip(1));
    }
}

/// What is left without the white space at the end does not end with white space, and
/// starts as before, if it is not empty.
proof fn lemma_trim_end(s: Seq<char>)
    ensures
        trim_end(s).len() > 0 ==> !is_white_space(trim_end(s).last()) && s.len() > 0 && trim_end(
            s,
        )[0] == s[0],
    decreases s.len(),
{
    if s.len() > 0 && is_white_space(s.last()) {
        lemma_trim_end(s.drop_last());
    }
}

/// A trimmed text stays as it is when it is trimmed again.
pub proof fn law_trimmed_texts_stay(s: Seq<char>)
    ensures
        trimmed(trimmed(s)) == trimmed(s),
{
    lemma_trim_start(s);
    lemma_trim_end(trim_start(s));
}

/// Whether all of `s` is white space.
pub open spec fn all_white(s: Seq<char>) -> bool {
    forall|i: int| 0 <= i < s.len() ==> is_white_space(#[trigger] s[i])
}

/// Whether `s` neither starts nor ends with white space.
pub open spec fn is_bare(s: Seq<char>) -> bool {
    s.len() > 0 ==> !is_white_space(s[0]) && !is_white_space(s.last())
}

/// White space at the start is taken off.
proof fn lemma_white_start(before: Seq<char>, s: Seq<char>)
    requires
        all_white(before),
    ensures
        trim_start(before + s) == trim_start(s),
    decreases before.len(),
{
    if before.len() == 0 {
        assert(before + s =~= s);
    } else {
        let rest = before.skip(1);
        assert forall|i: int| 0 <= i < rest.len() implies is_white_space(#[trigger] rest[i]) by {
            assert(rest[i] == before[i + 1]);
        }
        lemma_white_start(rest, s);
        assert((before + s)[0] == before[0]);
        assert((before + s).skip(1) =~= rest + s);
    }
}

/// White space at the end is taken off.
proof fn lemma_white_end(s: Seq<char>, after: Seq<char>)
    requires
        all_white(after),
    ensures
        trim_end(s + after) == trim_end(s),
    decreases after.len(),
{
    if after.len() == 0 {
        assert(s + after =~= s);
    } else {
        let rest = after.drop_last();
        assert forall|i: int| 0 <= i < rest.len() implies is_white_space(#[trigger] rest[i]) by {
            assert(rest[i] == after[i]);
        }
        lemma_white_end(s, rest);
        assert((s + after).last() == after[after.len() - 1]);
        assert((s + after).drop_last() =~= s + rest);
    }
}

/// Trimming takes off the white space around a text, all of it and nothing else.
pub proof fn law_trimming_takes_off_white_space(
    before: Seq<char>,
    core: Seq<char>,
    after: Seq<char>,
)
    requires
        all_white(before),
        is_bare(core),
        all_white(after),
    ensures
        trimmed(before + core + after) == core,
{
    assert(before + core + after =~= before + (core + after));
    lemma_white_start(before, core + after);
    if core.len() > 0 {
        assert((core + after)[0] == core[0]);
        lemma_white_end(core, after);
    } else {
        assert(core + after =~= after);
        assert(after + Seq::<char>::empty() =~= after);
        lemma_white_start(after, Seq::empty());
        assert(trim_start(after) =~= core);
    }
}

/// The white space that trimming takes off the start.
proof fn lemma_split_start(s: Seq<char>) -> (before: Seq<char>)
    ensures
        all_white(before),
        s == before + trim_start(s),
    decreases s.len(),
{
    if s.len() > 0 && is_white_space(s[0]) {
        let rest = lemma_split_start(s.skip(1));
        let before = seq![s[0]] + rest;
        assert(s =~= before + trim_start(s)) by {
            assert(s =~= seq![s[0]] + s.skip(1));
        }
        before
    } else {
        assert(s =~= Seq::<char>::empty() + s);
        Seq::empty()
    }
}

/// The white space that trimming takes off the end.
proof fn lemma_split_end(s: Seq<char>) -> (after: Seq<char>)
    ensures
        all_white(after),
        s == trim_end(s) + after,
    decreases s.len(),
{
    if s.len() > 0 && is_white_space(s.last()) {
        let rest = lemma_split_end(s.drop_last());
        let after = rest + seq![s.last()];
        assert(s =~= trim_end(s) + after) by {
            assert(s =~= s.drop_last() + seq![s.last()]);
        }
        after
    } else {
        assert(s =~= s + Seq::<char>::empty());
        Seq::empty()
    }
}

/// Every text is white space, what trimming leaves of it, and white space.
pub proof fn lemma_trimmed_parts(s: Seq<char>) -> (parts: (Seq<char>, Seq<char>))
    ensures
        all_white(parts.0),
        all_white(parts.1),
        is_bare(trimmed(s)),
        s == parts.0 + trimmed(s) + parts.1,
{
    let before = lemma_split_start(s);
    let after = lemma_split_end(trim_start(s));
    lemma_trim_start(s);
    lemma_trim_end(trim_start(s));
    assert(s =~= before + trimmed(s) + after);
    (before, after)
}

/// Whether two characters are the same letter: the same character, or one ASCII letter
/// as a capital and as a small letter.
pub open spec fn same_letter(c: char, d: char) -> bool {
    ||| c == d
    ||| 'A' <= c && c <= 'Z' && d as u32 == c as u32 + 32
    ||| 'A' <= d && d <= 'Z' && c as u32 == d as u32 + 32
}

/// Whether two texts have the same letters one by one.
pub open spec fn same_letters(a: Seq<char>, b: Seq<char>) -> bool {
    &&& a.len() == b.len()
    &&& forall|i: int| 0 <= i < a.len() ==> same_letter(#[trigger] a[i], b[i])
}

/// What making small does to one letter.
proof fn lemma_lower_char(c: char, d: char)
    ensures
        lower_char(c) == lower_char(d) <==> same_letter(c, d),
        same_letter(c, lower_char(c)),
        !('A' <= lower_char(c) && lower_char(c) <= 'Z'),
{
}

/// Two texts are the same in small letters exactly if they have the same letters.
pub proof fn law_case_makes_no_difference(a: Seq<char>, b: Seq<char>)
    ensures
        lower(a) == lower(b) <==> same_letters(a, b),
{
    if lower(a) == lower(b) {
        assert(lower(a).len() == lower(b).len());
        assert forall|i: int| 0 <= i < a.len() implies same_letter(#[trigger] a[i], b[i]) by {
            assert(lower(a)[i] == lower(b)[i]);
            lemma_lower_char(a[i], b[i]);
        }
    }
    if same_letters(a, b) {
        assert forall|i: int| 0 <= i < a.len() implies lower(a)[i] == lower(b)[i] by {
            assert(same_letter(a[i], b[i]));
            lemma_lower_char(a[i], b[i]);
        }
        assert(lower(a) =~= lower(b));
    }
}

/// A text in small letters has the letters of the text, and no capital one.
pub proof fn law_small_letters_are_small(s: Seq<char>)
    ensures
        same_letters(s, lower(s)),
        forall|i: int|
            0 <= i < lower(s).len() ==> !('A' <= #[trigger] lower(s)[i] && lower(s)[i] <= 'Z'),
{
    assert forall|i: int| 0 <= i < s.len() implies same_letter(#[trigger] s[i], lower(s)[i])
        && !('A' <= lower(s)[i] && lower(s)[i] <= 'Z') by {
        lemma_lower_char(s[i], s[i]);
    }
    assert forall|i: int| 0 <= i < lower(s).len() implies !('A' <= #[trigger] lower(s)[i]
        && lower(s)[i] <= 'Z') by {
        lemma_lower_char(s[i], s[i]);
    }
}

/// A text without capital letters is in small letters already.
pub proof fn lemma_already_small(s: Seq<char>)
    requires
        forall|i: int| 0 <= i < s.len() ==> !('A' <= #[trigger] s[i] && s[i] <= 'Z'),
    ensures
        lower(s) == s,
{
    assert(lower(s) =~= s);
}

/// A pattern occurs in every text that it is a part of.
pub proof fn law_parts_occur(before: Seq<char>, pattern: Seq<char>, after: Seq<char>)
    ensures
        occurs_in(pattern, before + pattern + after),
{
    let s = before + pattern + after;
    let n = before.len() as int;
    assert(s.subrange(n, n + pattern.len()) =~= pattern);
    assert(occurs_at(pattern, s, n));
}

/// A pattern that occurs in a text is a part of it: something before it and something
/// behind it make up the text.
pub proof fn law_what_occurs_is_a_part(pattern: Seq<char>, s: Seq<char>)
    requires
        occurs_in(pattern, s),
    ensures
        exists|before: Seq<char>, after: Seq<char>| s == #[trigger] (before + pattern + after),
{
    let i = choose|i: int| #[trigger] occurs_at(pattern, s, i);
    let before = s.take(i);
    let after = s.skip(i + pattern.len());
    assert(s =~= before + pattern + after) by {
        assert(s =~= s.take(i) + s.subrange(i, i + pattern.len()) + s.skip(i + pattern.len()));
    }
}

/// The digit for a number below ten.
pub open spec fn digit(n: nat) -> char {
    ('0' as u32 + n) as char
}

/// A number in decimal, without a sign and without needless zeros.
pub open spec fn written(n: nat) -> Seq<char>
    decreases n,
{
    if n < 10 {
        seq![digit(n)]
    } else {
        written(n / 10).push(digit(n % 10))
    }
}

/// So many zeros.
pub open spec fn zeros(count: nat) -> Seq<char> {
    Seq::new(count, |i: int| '0')
}

/// A number in decimal, with or without a plus sign, behind so many zeros.
pub open spec fn written_as(n: nat, plus: bool, count: nat) -> Seq<char> {
    (if plus {
        seq!['+']
    } else {
        Seq::empty()
    }) + zeros(count) + written(n)
}

/// A digit is one, and stands for its number.
proof fn lemma_digit(n: nat)
    requires
        n < 10,
    ensures
        '0' <= digit(n) && digit(n) <= '9',
        digit(n) as u32 - '0' as u32 == n,
{
}

/// What is written in decimal behind zeros has its number for value.
proof fn lemma_written(n: nat, count: nat)
    ensures
        written(n).len() > 0,
        all_digits(zeros(count) + written(n)),
        digits_value(zeros(count) + written(n)) == n,
    decreases n,
{
    let s = zeros(count) + written(n);
    lemma_digit(n % 10);
    if n < 10 {
        assert(s.drop_last() =~= zeros(count));
        lemma_zeros(count);
        assert(s.last() == digit(n));
    } else {
        lemma_written(n / 10, count);
        assert(s.drop_last() =~= zeros(count) + written(n / 10));
        assert(s.last() == digit(n % 10));
        assert forall|i: int| 0 <= i < s.len() implies '0' <= #[trigger] s[i] && s[i] <= '9' by {
            if i < s.len() - 1 {
                assert(s[i] == (zeros(count) + written(n / 10))[i]);
            }
        }
    }
}

/// Zeros have no value.
proof fn lemma_zeros(count: nat)
    ensures
        digits_value(zeros(count)) == 0,
    decreases count,
{
    if count > 0 {
        lemma_zeros((count - 1) as nat);
        assert(zeros(count).drop_last() =~= zeros((count - 1) as nat));
    }
}

/// A number is read back from how it is written in decimal, with or without a plus sign and
/// needless zeros, and is not read at all where it is too large.
pub proof fn law_written_numbers_are_read_back(n: nat, plus: bool, count: nat)
    ensures
        decimal(written_as(n, plus, count)) == if n <= usize::MAX {
            Some(n as usize)
        } else {
            None
        },
{
    let s = written_as(n, plus, count);
    let digits = zeros(count) + written(n);
    lemma_written(n, count);
    if plus {
        assert(s =~= seq!['+'] + digits);
        assert(s.skip(1) =~= digits);
    } else {
        assert(s =~= digits);
        assert('0' <= digits[0]);
    }
}

/// What is written in decimal has no white space around it.
pub proof fn lemma_written_is_bare(n: nat, plus: bool, count: nat)
    ensures
        is_bare(written_as(n, plus, count)),
{
    let s = written_as(n, plus, count);
    let digits = zeros(count) + written(n);
    lemma_written(n, count);
    assert('0' <= digits[0] && digits[0] <= '9');
    assert('0' <= digits.last() && digits.last() <= '9');
    assert(s.last() == digits.last());
    if !plus {
        assert(s =~= digits);
    }
}

/// The word `chunked` is in small letters.
pub proof fn lemma_small_chunked()
    ensures
        lower("chunked"@) == "chunked"@,
{
    reveal_strlit("chunked");
    lemma_already_small("chunked"@);
}

/// Whether position `i` shows that `s` is no number: something other than a digit stands
/// there, other than a plus sign before something else; or `s` ends there without a digit.
pub open spec fn shows_no_number(s: Seq<char>, i: int) -> bool {
    &&& 0 <= i <= s.len()
    &&& i < s.len() ==> s[i] < '0' || '9' < s[i]
    &&& i == s.len() ==> s.len() == 0 || s == seq!['+']
    &&& i == 0 && s.len() > 1 ==> s[0] != '+'
}

/// Nothing else is read as a number: neither a text with something other than a digit in
/// it, but for a plus sign at the start, nor one without digits.
pub proof fn law_other_texts_are_no_numbers(s: Seq<char>, i: int)
    requires
        shows_no_number(s, i),
    ensures
        decimal(s) is None,
{
    let digits = without_plus(s);
    if i < s.len() {
        if s[0] == '+' {
            if i > 0 {
                assert(digits[i - 1] == s[i]);
            }
        } else {
            assert(digits[i] == s[i]);
        }
    }
}

/// The texts of a list of strings are those of its strings, one for one.
pub proof fn law_texts_leave_nothing_out(list: Seq<String>, s: Option<String>)
    ensures
        texts(list).len() == list.len(),
        forall|i: int| 0 <= i < list.len() ==> #[trigger] texts(list)[i] == list[i]@,
        s is Some <==> opt_text(s) is Some,
        s is Some ==> opt_text(s) == Some(s->0@),
{
}

} // verus!
