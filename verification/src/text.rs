//! Text as the records and reasons carry it: character sequences, and the few
//! operations the rules need on them.

use vstd::prelude::*;

use crate::seqs::{
    group_seqs, lemma_sorted_keeps, lemma_sorted_map, ranking, sorted, stable_sort, take_next, Precedence,
};

verus! {

broadcast use group_seqs;

/// The character for a digit below ten.
pub open spec fn digit_char(d: int) -> char {
    (('0' as int) + d) as char
}

/// The decimal digits of `n`, without leading zeros.
pub open spec fn digits(n: nat) -> Seq<char>
    decreases n,
{
    if n < 10 {
        seq![digit_char(n as int)]
    } else {
        digits(n / 10).push(digit_char((n % 10) as int))
    }
}

/// `n` zeros.
pub open spec fn zeros(n: nat) -> Seq<char> {
    Seq::new(n, |i: int| '0')
}

/// `s` with zeros put in front until it is `width` characters long.
pub open spec fn zero_padded(s: Seq<char>, width: nat) -> Seq<char> {
    if s.len() < width {
        zeros((width - s.len()) as nat) + s
    } else {
        s
    }
}

/// An integer as it is printed.
pub open spec fn int_text(n: int) -> Seq<char> {
    if n < 0 {
        seq!['-'] + digits((-n) as nat)
    } else {
        digits(n as nat)
    }
}

/// Whether `needle` stands in `text` at `at`.
pub open spec fn occurs_at(text: Seq<char>, needle: Seq<char>, at: int) -> bool {
    &&& 0 <= at
    &&& at + needle.len() <= text.len()
    &&& text.subrange(at, at + needle.len()) == needle
}

/// The first place from `from` on at which `needle` stands in `text`.
pub open spec fn find_from(text: Seq<char>, needle: Seq<char>, from: int) -> Option<int>
    decreases text.len() + 1 - from,
{
    if from + needle.len() > text.len() {
        None
    } else if occurs_at(text, needle, from) {
        Some(from)
    } else {
        find_from(text, needle, from + 1)
    }
}

/// Whether `needle` stands anywhere in `text`.
pub open spec fn contains_text(text: Seq<char>, needle: Seq<char>) -> bool {
    exists|at: int| occurs_at(text, needle, at)
}

/// Everything before and after the first `needle`.
pub open spec fn split_once_at(text: Seq<char>, needle: Seq<char>) -> Option<
    (Seq<char>, Seq<char>),
> {
    match find_from(text, needle, 0) {
        Some(at) => Some((text.take(at), text.skip(at + needle.len() as int))),
        None => None,
    }
}

/// `text` with every `needle`, taken from the left, replaced by `with`.
pub open spec fn replaced(text: Seq<char>, needle: Seq<char>, with: Seq<char>) -> Seq<char>
    decreases text.len(),
{
    match find_from(text, needle, 0) {
        Some(at) => if needle.len() > 0 && 0 <= at && at + needle.len() <= text.len() {
            text.take(at) + with + replaced(text.skip(at + needle.len() as int), needle, with)
        } else {
            text
        },
        None => text,
    }
}

/// Whether `text` starts with `prefix`.
pub open spec fn has_prefix(text: Seq<char>, prefix: Seq<char>) -> bool {
    occurs_at(text, prefix, 0)
}

/// The Unicode characters that count as white space.
pub open spec fn is_white(c: char) -> bool {
    let n = c as int;
    ||| 0x9 <= n <= 0xd
    ||| n == 0x20
    ||| n == 0x85
    ||| n == 0xa0
    ||| n == 0x1680
    ||| 0x2000 <= n <= 0x200a
    ||| n == 0x2028
    ||| n == 0x2029
    ||| n == 0x202f
    ||| n == 0x205f
    ||| n == 0x3000
}

/// `text` without the white space in front.
pub open spec fn trimmed_start(text: Seq<char>) -> Seq<char>
    decreases text.len(),
{
    if text.len() > 0 && is_white(text[0]) {
        trimmed_start(text.skip(1))
    } else {
        text
    }
}

/// `text` without the white space behind.
pub open spec fn trimmed_end(text: Seq<char>) -> Seq<char>
    decreases text.len(),
{
    if text.len() > 0 && is_white(text.last()) {
        trimmed_end(text.drop_last())
    } else {
        text
    }
}

/// `text` without the white space around it.
pub open spec fn trimmed(text: Seq<char>) -> Seq<char> {
    trimmed_end(trimmed_start(text))
}

/// Nothing but white space.
pub open spec fn is_blank(text: Seq<char>) -> bool {
    forall|i: int| 0 <= i < text.len() ==> is_white(#[trigger] text[i])
}

pub open spec fn is_digit(c: char) -> bool {
    '0' <= c <= '9'
}

pub open spec fn is_ascii_alnum(c: char) -> bool {
    is_digit(c) || 'a' <= c <= 'z' || 'A' <= c <= 'Z'
}

/// The ASCII lower-case form of a character; others stay.
pub open spec fn ascii_lower(c: char) -> char {
    if 'A' <= c <= 'Z' {
        ((c as int) + 32) as char
    } else {
        c
    }
}

/// The ASCII upper-case form of a character; others stay.
pub open spec fn ascii_upper(c: char) -> char {
    if 'a' <= c <= 'z' {
        ((c as int) - 32) as char
    } else {
        c
    }
}

pub open spec fn ascii_lowered(text: Seq<char>) -> Seq<char> {
    text.map_values(|c: char| ascii_lower(c))
}

pub open spec fn ascii_uppered(text: Seq<char>) -> Seq<char> {
    text.map_values(|c: char| ascii_upper(c))
}

/// Equal up to the case of ASCII letters.
pub open spec fn same_ignoring_case(a: Seq<char>, b: Seq<char>) -> bool {
    ascii_lowered(a) == ascii_lowered(b)
}

/// Earlier in the order of code points.
pub open spec fn text_before(a: Seq<char>, b: Seq<char>) -> bool
    decreases a.len(),
{
    if b.len() == 0 {
        false
    } else if a.len() == 0 {
        true
    } else if a[0] != b[0] {
        (a[0] as int) < (b[0] as int)
    } else {
        text_before(a.skip(1), b.skip(1))
    }
}

/// The texts with `separator` between each two.
pub open spec fn joined(parts: Seq<Seq<char>>, separator: Seq<char>) -> Seq<char>
    decreases parts.len(),
{
    if parts.len() == 0 {
        seq![]
    } else if parts.len() == 1 {
        parts[0]
    } else {
        joined(parts.drop_last(), separator) + separator + parts.last()
    }
}

/// The views of owned texts.
pub open spec fn texts(parts: Seq<String>) -> Seq<Seq<char>> {
    parts.map_values(|s: String| s@)
}

/// The text inside an optional one.
pub open spec fn text_of(t: Option<String>) -> Option<Seq<char>> {
    match t {
        Some(s) => Some(s@),
        None => None,
    }
}

/// The lower-case form under the Unicode rules of a text that is not all ASCII.
pub uninterp spec fn unicode_lowered(text: Seq<char>) -> Seq<char>;

/// Whether a text is all ASCII.
pub open spec fn is_ascii_text(text: Seq<char>) -> bool {
    forall|i: int| 0 <= i < text.len() ==> (#[trigger] text[i]) as u32 <= 127
}

/// The lower-case form of a text: letter by letter for ASCII, and else under
/// the Unicode rules.
pub open spec fn lowered(text: Seq<char>) -> Seq<char> {
    if is_ascii_text(text) {
        ascii_lowered(text)
    } else {
        unicode_lowered(text)
    }
}

/// Whether Unicode counts a character among the letters and numbers.
pub uninterp spec fn unicode_alphanumeric(c: char) -> bool;

/// `str::to_lowercase`: the lower-case form under the Unicode rules, which for
/// ASCII is that of each letter, and else only has a name here.
#[verifier::external_body]
pub(crate) fn lowercase(text: &str) -> (result: String)
    ensures
        result@ == if is_ascii_text(text@) {
            ascii_lowered(text@)
        } else {
            unicode_lowered(text@)
        },
{
    text.to_lowercase()
}

/// `char::is_alphanumeric`: a Unicode property, which only has a name here.
#[verifier::external_body]
pub(crate) fn char_is_alphanumeric(c: char) -> (result: bool)
    ensures
        result == unicode_alphanumeric(c),
{
    c.is_alphanumeric()
}

/// `String::push`: the character goes to the end.
#[verifier::external_body]
pub(crate) fn push_char(text: &mut String, c: char)
    ensures
        final(text)@ == old(text)@.push(c),
{
    text.push(c)
}

/// `str == str`: the same characters in the same order.
#[verifier::external_body]
pub(crate) fn same(a: &str, b: &str) -> (result: bool)
    ensures
        result == (a@ == b@),
{
    a == b
}

pub fn digit_of(d: u8) -> (c: char)
    requires
        d < 10,
    ensures
        c == digit_char(d as int),
{
    match d {
        0 => '0',
        1 => '1',
        2 => '2',
        3 => '3',
        4 => '4',
        5 => '5',
        6 => '6',
        7 => '7',
        8 => '8',
        _ => '9',
    }
}

/// A text in quotes, with what needs it escaped.
pub uninterp spec fn quoted(text: Seq<char>) -> Seq<char>;

/// `std`'s `Debug` of a text: the text in quotes, escaped. Claimed: it is a
/// function of the text.
#[verifier::external_body]
pub(crate) fn quote(text: &str) -> (result: String)
    ensures
        result@ == quoted(text@),
{
    format!("{text:?}")
}

/// The decimal digits of `n`.
pub fn natural(n: u128) -> (result: String)
    ensures
        result@ == digits(n as nat),
    decreases n,
{
    if n < 10 {
        let mut out = String::new();
        push_char(&mut out, digit_of(n as u8));
        assert(out@ =~= digits(n as nat));
        out
    } else {
        let mut out = natural(n / 10);
        push_char(&mut out, digit_of((n % 10) as u8));
        out
    }
}

/// An integer as it is printed.
pub fn integer(n: i128) -> (result: String)
    requires
        n > i128::MIN,
    ensures
        result@ == int_text(n as int),
{
    if n < 0 {
        let mut out = String::new();
        push_char(&mut out, '-');
        let tail = natural((-n) as u128);
        out.append(tail.as_str());
        assert(out@ =~= int_text(n as int));
        out
    } else {
        natural(n as u128)
    }
}

/// `text` with zeros put in front until it is `width` characters long.
pub fn pad_zeros(text: &str, width: usize) -> (result: String)
    ensures
        result@ == zero_padded(text@, width as nat),
{
    let length: usize = text.unicode_len();
    let mut out = String::new();
    let mut k: usize = length;
    while k < width
        invariant
            length == text@.len(),
            length <= k,
            k <= width || k == length,
            out@ == zeros((k - length) as nat),
        decreases width - k,
    {
        push_char(&mut out, '0');
        k = k + 1;
        assert(out@ =~= zeros((k - length) as nat));
    }
    out.append(text);
    assert(out@ =~= zero_padded(text@, width as nat));
    out
}

/// A copy of a borrowed text.
pub fn owned(text: &str) -> (result: String)
    ensures
        result@ == text@,
{
    text.to_owned()
}

pub fn concat2(a: &str, b: &str) -> (result: String)
    ensures
        result@ == a@ + b@,
{
    let mut out = owned(a);
    out.append(b);
    out
}

pub fn concat3(a: &str, b: &str, c: &str) -> (result: String)
    ensures
        result@ == a@ + b@ + c@,
{
    let mut out = concat2(a, b);
    out.append(c);
    out
}

pub fn concat4(a: &str, b: &str, c: &str, d: &str) -> (result: String)
    ensures
        result@ == a@ + b@ + c@ + d@,
{
    let mut out = concat3(a, b, c);
    out.append(d);
    out
}

pub fn concat5(a: &str, b: &str, c: &str, d: &str, e: &str) -> (result: String)
    ensures
        result@ == a@ + b@ + c@ + d@ + e@,
{
    let mut out = concat4(a, b, c, d);
    out.append(e);
    out
}

pub fn concat6(a: &str, b: &str, c: &str, d: &str, e: &str, f: &str) -> (result: String)
    ensures
        result@ == a@ + b@ + c@ + d@ + e@ + f@,
{
    let mut out = concat5(a, b, c, d, e);
    out.append(f);
    out
}

/// The characters of a text.
pub fn chars(text: &str) -> (result: Vec<char>)
    ensures
        result@ == text@,
{
    let mut out: Vec<char> = Vec::new();
    for c in it: text.chars()
        invariant
            out@ == text@.take(it.index()),
            it.seq() == text@,
    {
        out.push(c);
        assert(out@ =~= text@.take(it.index() + 1));
    }
    assert(text@.take(text@.len() as int) =~= text@);
    out
}

/// The text made of characters `from` up to `to`.
pub fn from_range(source: &Vec<char>, from: usize, to: usize) -> (result: String)
    requires
        from <= to <= source@.len(),
    ensures
        result@ == source@.subrange(from as int, to as int),
{
    let mut out = String::new();
    let mut i: usize = from;
    while i < to
        invariant
            from <= i <= to <= source@.len(),
            out@ == source@.subrange(from as int, i as int),
        decreases to - i,
    {
        push_char(&mut out, source[i]);
        i = i + 1;
        assert(out@ =~= source@.subrange(from as int, i as int));
    }
    out
}

fn stands_at(text: &Vec<char>, needle: &Vec<char>, at: usize) -> (result: bool)
    ensures
        result == occurs_at(text@, needle@, at as int),
        !result && at <= text@.len() ==> needle@.len() > 0,
{
    let total: usize = text.len();
    if at > total || needle.len() > total - at {
        return false;
    }
    let mut i: usize = 0;
    while i < needle.len()
        invariant
            i <= needle@.len(),
            at + needle@.len() <= text@.len(),
            text@.len() == total,
            forall|j: int| 0 <= j < i ==> text@[at + j] == #[trigger] needle@[j],
        decreases needle@.len() - i,
    {
        if text[at + i] != needle[i] {
            assert(text@.subrange(at as int, at + needle@.len())[i as int] != needle@[i as int]);
            return false;
        }
        i = i + 1;
    }
    assert(text@.subrange(at as int, at + needle@.len()) =~= needle@);
    true
}

/// The first place from `from` on at which `needle` stands in `text`.
pub fn find(text: &Vec<char>, needle: &Vec<char>, from: usize) -> (result: Option<usize>)
    ensures
        match result {
            Some(at) => find_from(text@, needle@, from as int) == Some(at as int) && from <= at
                && at + needle@.len() <= text@.len(),
            None => find_from(text@, needle@, from as int) is None,
        },
{
    let total: usize = text.len();
    let mut at: usize = from;
    while at <= total && needle.len() <= total - at
        invariant
            from <= at,
            find_from(text@, needle@, from as int) == find_from(text@, needle@, at as int),
            text@.len() == total,
        decreases text@.len() + 1 - at,
    {
        if stands_at(text, needle, at) {
            return Some(at);
        }
        at = at + 1;
    }
    None
}

/// What a search finds is the first place; without one there is none.
pub proof fn lemma_find(text: Seq<char>, needle: Seq<char>, from: int)
    ensures
        match find_from(text, needle, from) {
            Some(at) => from <= at && at + needle.len() <= text.len() && (from >= 0 ==> occurs_at(
                text,
                needle,
                at,
            )) && forall|k: int| from <= k < at ==> !occurs_at(text, needle, k),
            None => forall|k: int| from <= k ==> !occurs_at(text, needle, k),
        },
    decreases text.len() + 1 - from,
{
    if from + needle.len() > text.len() {
    } else if occurs_at(text, needle, from) {
    } else {
        lemma_find(text, needle, from + 1);
    }
}

/// Whether `needle` stands anywhere in `text`.
pub fn contains(text: &str, needle: &str) -> (result: bool)
    ensures
        result == contains_text(text@, needle@),
{
    let t = chars(text);
    let n = chars(needle);
    let found = find(&t, &n, 0);
    proof {
        lemma_find(text@, needle@, 0);
    }
    found.is_some()
}

/// Whether `text` starts with `prefix`.
pub fn starts_with(text: &str, prefix: &str) -> (result: bool)
    ensures
        result == has_prefix(text@, prefix@),
{
    let t = chars(text);
    let p = chars(prefix);
    stands_at(&t, &p, 0)
}

/// What follows `prefix`, when `text` starts with it.
pub fn strip_prefix(text: &str, prefix: &str) -> (result: Option<String>)
    ensures
        result is Some <==> has_prefix(text@, prefix@),
        result matches Some(rest) ==> rest@ == text@.skip(prefix@.len() as int),
{
    let t = chars(text);
    let p = chars(prefix);
    if stands_at(&t, &p, 0) {
        let rest = from_range(&t, p.len(), t.len());
        assert(rest@ =~= text@.skip(prefix@.len() as int));
        Some(rest)
    } else {
        None
    }
}

/// Everything before and after the first `needle`.
pub fn split_once(text: &str, needle: &str) -> (result: Option<(String, String)>)
    ensures
        match result {
            Some((before, after)) => split_once_at(text@, needle@) == Some((before@, after@)),
            None => split_once_at(text@, needle@) is None,
        },
{
    let t = chars(text);
    let n = chars(needle);
    let total: usize = t.len();
    match find(&t, &n, 0) {
        Some(at) => {
            let before = from_range(&t, 0, at);
            let after = from_range(&t, at + n.len(), total);
            assert(before@ =~= text@.take(at as int));
            assert(after@ =~= text@.skip(at + n@.len()));
            Some((before, after))
        },
        None => None,
    }
}

/// Searching what follows `skip` characters is searching from there on.
proof fn lemma_find_skip(text: Seq<char>, needle: Seq<char>, skip: int, from: int)
    requires
        0 <= skip <= text.len(),
        0 <= from,
    ensures
        find_from(text.skip(skip), needle, from) == match find_from(text, needle, skip + from) {
            Some(at) => Some(at - skip),
            None => None,
        },
    decreases text.len() + 1 - skip - from,
{
    let tail = text.skip(skip);
    if skip + from + needle.len() > text.len() {
    } else {
        assert(tail.subrange(from, from + needle.len()) =~= text.subrange(
            skip + from,
            skip + from + needle.len(),
        ));
        if !occurs_at(text, needle, skip + from) {
            lemma_find_skip(text, needle, skip, from + 1);
        }
    }
}

/// `text` with every `needle`, taken from the left, replaced by `with`.
pub fn replace(text: &str, needle: &str, with: &str) -> (result: String)
    requires
        needle@.len() > 0,
    ensures
        result@ == replaced(text@, needle@, with@),
{
    let t = chars(text);
    let n = chars(needle);
    let total: usize = t.len();
    let mut out = String::new();
    let mut done: usize = 0;
    assert(text@.skip(0) =~= text@);
    assert(out@ + replaced(text@.skip(0), needle@, with@) =~= replaced(text@, needle@, with@));
    loop
        invariant
            n@ == needle@,
            t@ == text@,
            t@.len() == total,
            needle@.len() > 0,
            done <= t@.len(),
            out@ + replaced(text@.skip(done as int), needle@, with@) == replaced(
                text@,
                needle@,
                with@,
            ),
        decreases t@.len() - done,
    {
        let ghost tail = text@.skip(done as int);
        proof {
            lemma_find_skip(text@, needle@, done as int, 0);
        }
        match find(&t, &n, done) {
            Some(at) => {
                let piece = from_range(&t, done, at);
                let ghost before = out@;
                out.append(piece.as_str());
                out.append(with);
                proof {
                    let k = at - done;
                    assert(tail.take(k) =~= piece@);
                    assert(tail.skip(k + needle@.len()) =~= text@.skip(at + needle@.len()));
                    assert(before + replaced(tail, needle@, with@) =~= out@ + replaced(
                        text@.skip(at + needle@.len()),
                        needle@,
                        with@,
                    ));
                }
                done = at + n.len();
            },
            None => {
                let piece = from_range(&t, done, t.len());
                assert(piece@ =~= tail);
                out.append(piece.as_str());
                return out;
            },
        }
    }
}

/// Whether a character counts as white space.
pub fn white(c: char) -> (result: bool)
    ensures
        result == is_white(c),
{
    let n: u32 = c as u32;
    (0x9 <= n && n <= 0xd) || n == 0x20 || n == 0x85 || n == 0xa0 || n == 0x1680 || (0x2000 <= n && n
        <= 0x200a) || n == 0x2028 || n == 0x2029 || n == 0x202f || n == 0x205f || n == 0x3000
}

/// `text` without the white space in front.
pub fn trim_start(text: &str) -> (result: String)
    ensures
        result@ == trimmed_start(text@),
{
    let t = chars(text);
    let mut from: usize = 0;
    assert(text@.skip(0) =~= text@);
    while from < t.len() && white(t[from])
        invariant
            t@ == text@,
            from <= t@.len(),
            trimmed_start(text@.skip(from as int)) == trimmed_start(text@),
        decreases t@.len() - from,
    {
        assert(text@.skip(from as int).skip(1) =~= text@.skip(from + 1));
        from = from + 1;
    }
    let out = from_range(&t, from, t.len());
    assert(out@ =~= text@.skip(from as int));
    out
}

/// `text` without the white space around it.
pub fn trim(text: &str) -> (result: String)
    ensures
        result@ == trimmed(text@),
{
    let start = trim_start(text);
    let t = chars(start.as_str());
    let mut to: usize = t.len();
    assert(start@.take(to as int) =~= start@);
    while to > 0 && white(t[to - 1])
        invariant
            t@ == start@,
            to <= t@.len(),
            trimmed_end(start@.take(to as int)) == trimmed_end(start@),
        decreases to,
    {
        assert(start@.take(to as int).drop_last() =~= start@.take(to - 1));
        to = to - 1;
    }
    let out = from_range(&t, 0, to);
    assert(out@ =~= start@.take(to as int));
    out
}

/// Whether there is nothing but white space.
pub fn blank(text: &str) -> (result: bool)
    ensures
        result == is_blank(text@),
{
    let t = chars(text);
    let mut i: usize = 0;
    while i < t.len()
        invariant
            t@ == text@,
            i <= t@.len(),
            forall|j: int| 0 <= j < i ==> is_white(#[trigger] text@[j]),
        decreases t@.len() - i,
    {
        if !white(t[i]) {
            return false;
        }
        i = i + 1;
    }
    true
}

/// The ASCII lower-case form of a character; others stay.
pub fn lower_char(c: char) -> (result: char)
    ensures
        result == ascii_lower(c),
{
    if 'A' <= c && c <= 'Z' {
        ((c as u8) + 32) as char
    } else {
        c
    }
}

/// The ASCII upper-case form of a character; others stay.
pub fn upper_char(c: char) -> (result: char)
    ensures
        result == ascii_upper(c),
{
    if 'a' <= c && c <= 'z' {
        ((c as u8) - 32) as char
    } else {
        c
    }
}

/// `text` with its ASCII letters in lower case.
pub fn lower(text: &str) -> (result: String)
    ensures
        result@ == ascii_lowered(text@),
{
    let t = chars(text);
    let mut out = String::new();
    let mut i: usize = 0;
    while i < t.len()
        invariant
            t@ == text@,
            i <= t@.len(),
            out@ == ascii_lowered(text@.take(i as int)),
        decreases t@.len() - i,
    {
        push_char(&mut out, lower_char(t[i]));
        i = i + 1;
        assert(out@ =~= ascii_lowered(text@.take(i as int)));
    }
    assert(text@.take(i as int) =~= text@);
    out
}

/// `text` with its ASCII letters in upper case.
pub fn upper(text: &str) -> (result: String)
    ensures
        result@ == ascii_uppered(text@),
{
    let t = chars(text);
    let mut out = String::new();
    let mut i: usize = 0;
    while i < t.len()
        invariant
            t@ == text@,
            i <= t@.len(),
            out@ == ascii_uppered(text@.take(i as int)),
        decreases t@.len() - i,
    {
        push_char(&mut out, upper_char(t[i]));
        i = i + 1;
        assert(out@ =~= ascii_uppered(text@.take(i as int)));
    }
    assert(text@.take(i as int) =~= text@);
    out
}

/// Equal up to the case of ASCII letters.
pub fn same_any_case(a: &str, b: &str) -> (result: bool)
    ensures
        result == same_ignoring_case(a@, b@),
{
    let x = lower(a);
    let y = lower(b);
    same(x.as_str(), y.as_str())
}

/// Earlier in the order of code points.
pub fn before(a: &str, b: &str) -> (result: bool)
    ensures
        result == text_before(a@, b@),
{
    let x = chars(a);
    let y = chars(b);
    let mut i: usize = 0;
    assert(a@.skip(0) =~= a@);
    assert(b@.skip(0) =~= b@);
    loop
        invariant
            x@ == a@,
            y@ == b@,
            i <= x@.len(),
            i <= y@.len(),
            text_before(a@, b@) == text_before(a@.skip(i as int), b@.skip(i as int)),
        decreases x@.len() - i,
    {
        if i == y.len() {
            return false;
        }
        if i == x.len() {
            return true;
        }
        if x[i] != y[i] {
            let p: char = x[i];
            let q: char = y[i];
            return p < q;
        }
        assert(a@.skip(i as int).skip(1) =~= a@.skip(i + 1));
        assert(b@.skip(i as int).skip(1) =~= b@.skip(i + 1));
        i = i + 1;
    }
}

/// The texts with `separator` between each two.
pub fn join(parts: &Vec<String>, separator: &str) -> (result: String)
    ensures
        result@ == joined(texts(parts@), separator@),
{
    let mut out = String::new();
    let mut i: usize = 0;
    assert(out@ =~= joined(texts(parts@.take(0)), separator@));
    while i < parts.len()
        invariant
            i <= parts@.len(),
            out@ == joined(texts(parts@.take(i as int)), separator@),
        decreases parts@.len() - i,
    {
        let ghost done = texts(parts@.take(i as int));
        let ghost more = texts(parts@.take(i + 1));
        assert(more.drop_last() =~= done);
        assert(more.last() == parts@[i as int]@);
        if i > 0 {
            out.append(separator);
        }
        out.append(parts[i].as_str());
        i = i + 1;
        assert(out@ =~= joined(more, separator@));
    }
    assert(parts@.take(i as int) =~= parts@);
    out
}

/// A copy of a list of texts.
pub fn copy_texts(parts: &Vec<String>) -> (result: Vec<String>)
    ensures
        texts(result@) == texts(parts@),
{
    let mut out: Vec<String> = Vec::new();
    let mut i: usize = 0;
    while i < parts.len()
        invariant
            i <= parts@.len(),
            texts(out@) == texts(parts@.take(i as int)),
        decreases parts@.len() - i,
    {
        out.push(owned(parts[i].as_str()));
        proof {
            take_next(parts@, i as int);
        }
        i = i + 1;
    }
    assert(parts@.take(i as int) =~= parts@);
    out
}

/// A copy of an optional text.
pub fn copy_text(t: &Option<String>) -> (result: Option<String>)
    ensures
        text_of(result) == text_of(*t),
{
    match t {
        Some(s) => Some(s.clone()),
        None => None,
    }
}

/// The order of code points.
pub struct ByText;

impl Precedence<String> for ByText {
    open spec fn precedes(&self, a: String, b: String) -> bool {
        text_before(a@, b@)
    }

    fn first(&self, a: &String, b: &String) -> (result: bool) {
        before(a.as_str(), b.as_str())
    }
}

/// The order of code points, as a function of two texts.
pub open spec fn by_text() -> spec_fn(Seq<char>, Seq<char>) -> bool {
    |a: Seq<char>, b: Seq<char>| text_before(a, b)
}

/// The texts in the order of code points.
pub fn sort_texts(items: Vec<String>) -> (result: Vec<String>)
    ensures
        texts(result@) == sorted(texts(items@), by_text()),
{
    proof {
        lemma_sorted_map(items@, |s: String| s@, ranking(ByText), by_text());
    }
    stable_sort(items, &ByText)
}

/// The texts without those that came before.
pub open spec fn once(parts: Seq<Seq<char>>) -> Seq<Seq<char>>
    decreases parts.len(),
{
    if parts.len() == 0 {
        seq![]
    } else {
        let front = once(parts.drop_last());
        if front.contains(parts.last()) {
            front
        } else {
            front.push(parts.last())
        }
    }
}

/// Whether a text is among others.
pub fn among(parts: &Vec<String>, text: &str) -> (result: bool)
    ensures
        result == texts(parts@).contains(text@),
{
    let mut i: usize = 0;
    while i < parts.len()
        invariant
            i <= parts@.len(),
            forall|j: int| 0 <= j < i ==> texts(parts@)[j] != text@,
        decreases parts@.len() - i,
    {
        if same(parts[i].as_str(), text) {
            assert(texts(parts@)[i as int] == text@);
            return true;
        }
        i = i + 1;
    }
    false
}

/// Each text once, in the order of code points.
pub fn sort_distinct(items: &Vec<String>) -> (result: Vec<String>)
    ensures
        texts(result@) == sorted(once(texts(items@)), by_text()),
{
    let mut out: Vec<String> = Vec::new();
    let mut i: usize = 0;
    while i < items.len()
        invariant
            i <= items@.len(),
            texts(out@) == once(texts(items@.take(i as int))),
        decreases items@.len() - i,
    {
        proof {
            take_next(items@, i as int);
            let more = texts(items@.take(i + 1));
            assert(more.drop_last() =~= texts(items@.take(i as int)));
        }
        if !among(&out, items[i].as_str()) {
            out.push(items[i].clone());
        }
        i = i + 1;
    }
    sort_texts(out)
}

proof fn lemma_once(parts: Seq<Seq<char>>)
    ensures
        once(parts).no_duplicates(),
        forall|text: Seq<char>| #[trigger] once(parts).contains(text) <==> parts.contains(text),
    decreases parts.len(),
{
    if parts.len() > 0 {
        let front = parts.drop_last();
        let last = parts.last();
        lemma_once(front);
        let now = once(parts);
        assert(parts =~= front.push(last));
        assert forall|text: Seq<char>| #[trigger] now.contains(text) <==> parts.contains(text) by {
            if parts.contains(text) {
                let i = choose|i: int| 0 <= i < parts.len() && parts[i] == text;
                if i < front.len() {
                    assert(front[i] == text);
                    assert(front.contains(text));
                    assert(once(front).contains(text));
                    let k = choose|k: int| 0 <= k < once(front).len() && once(front)[k] == text;
                    assert(now[k] == text);
                } else if !once(front).contains(last) {
                    assert(now[now.len() - 1] == text);
                }
            }
            if now.contains(text) {
                if once(front).contains(text) {
                    assert(front.contains(text));
                    let i = choose|i: int| 0 <= i < front.len() && front[i] == text;
                    assert(parts[i] == text);
                } else {
                    let k = choose|k: int| 0 <= k < now.len() && now[k] == text;
                    assert(k < once(front).len() ==> once(front).contains(text));
                    assert(text == last);
                    assert(parts[parts.len() - 1] == text);
                }
            }
        }
    }
}

/// Every text is listed, exactly once.
pub proof fn distinct_texts_are_listed_once(parts: Seq<Seq<char>>)
    ensures
        sorted(once(parts), by_text()).no_duplicates(),
        forall|text: Seq<char>| #[trigger]
            sorted(once(parts), by_text()).contains(text) <==> parts.contains(text),
{
    broadcast use vstd::seq_lib::group_to_multiset_ensures;

    let list = sorted(once(parts), by_text());
    lemma_once(parts);
    lemma_sorted_keeps(once(parts), by_text());
    once(parts).lemma_multiset_has_no_duplicates();
    list.lemma_multiset_has_no_duplicates_conv();
    assert forall|text: Seq<char>| #[trigger] list.contains(text) <==> parts.contains(text) by {
        assert(list.contains(text) <==> list.to_multiset().count(text) > 0);
        assert(once(parts).contains(text) <==> once(parts).to_multiset().count(text) > 0);
    }
}

/// The order of texts leaves no two different ones unordered.
pub proof fn lemma_text_total(a: Seq<char>, b: Seq<char>)
    ensures
        !text_before(a, a),
        text_before(a, b) ==> !text_before(b, a),
        !text_before(a, b) && !text_before(b, a) ==> a == b,
    decreases a.len(),
{
    if a.len() > 0 {
        lemma_text_total(a.skip(1), a.skip(1));
        if b.len() > 0 {
            lemma_text_total(a.skip(1), b.skip(1));
            if a[0] == b[0] && a.skip(1) == b.skip(1) {
                assert(a =~= seq![a[0]] + a.skip(1));
                assert(b =~= seq![b[0]] + b.skip(1));
            }
        }
    }
    if a.len() == 0 && b.len() == 0 {
        assert(a =~= b);
    }
}

/// A text before one that is before a third is before the third.
pub proof fn lemma_text_transitive(a: Seq<char>, b: Seq<char>, c: Seq<char>)
    requires
        text_before(a, b),
        text_before(b, c),
    ensures
        text_before(a, c),
    decreases a.len(),
{
    if a.len() > 0 && b.len() > 0 && c.len() > 0 && a[0] == b[0] && b[0] == c[0] {
        lemma_text_transitive(a.skip(1), b.skip(1), c.skip(1));
    }
}

/// A text split at every white character.
pub open spec fn white_pieces(text: Seq<char>) -> Seq<Seq<char>>
    decreases text.len(),
{
    if text.len() == 0 {
        seq![Seq::<char>::empty()]
    } else {
        let front = white_pieces(text.drop_last());
        if is_white(text.last()) {
            front.push(Seq::empty())
        } else {
            front.drop_last().push(front.last().push(text.last()))
        }
    }
}

/// The words of a text: what stands between white characters.
pub open spec fn words(text: Seq<char>) -> Seq<Seq<char>> {
    white_pieces(text).filter(|word: Seq<char>| word.len() > 0)
}

/// The words of a text.
pub fn split_words(text: &str) -> (result: Vec<String>)
    ensures
        texts(result@) == words(text@),
{
    let all = chars(text);
    let ghost keep = |word: Seq<char>| word.len() > 0;
    let mut out: Vec<String> = Vec::new();
    let mut current = String::new();
    let mut empty = true;
    let ghost mut done: Seq<Seq<char>> = Seq::empty();
    let mut i: usize = 0;
    assert(done.push(current@) =~= white_pieces(all@.take(0)));
    while i < all.len()
        invariant
            all@ == text@,
            i <= all@.len(),
            keep == (|word: Seq<char>| word.len() > 0),
            empty == (current@.len() == 0),
            texts(out@) == done.filter(keep),
            done.push(current@) == white_pieces(all@.take(i as int)),
        decreases all@.len() - i,
    {
        proof {
            crate::seqs::take_next(all@, i as int);
            let front = white_pieces(all@.take(i as int));
            assert(front.drop_last() =~= done);
            assert(front.last() == current@);
        }
        if white(all[i]) {
            proof {
                reveal(Seq::filter);
                assert(done.push(current@).drop_last() =~= done);
                done = done.push(current@);
            }
            if !empty {
                out.push(current);
            }
            current = String::new();
            empty = true;
        } else {
            push_char(&mut current, all[i]);
            empty = false;
        }
        i = i + 1;
    }
    proof {
        reveal(Seq::filter);
        assert(done.push(current@).drop_last() =~= done);
    }
    if !empty {
        out.push(current);
    }
    out
}

/// The number that a run of digits is.
pub open spec fn digits_value(text: Seq<char>) -> int
    decreases text.len(),
{
    if text.len() == 0 {
        0
    } else {
        digits_value(text.drop_last()) * 10 + (text.last() as int - '0' as int)
    }
}

pub open spec fn all_digits(text: Seq<char>) -> bool {
    forall|i: int| 0 <= i < text.len() ==> is_digit(#[trigger] text[i])
}

/// A text as a natural number: digits, at least one, after a plus sign or
/// nothing.
pub open spec fn number_in(text: Seq<char>) -> Option<int> {
    let body = if text.len() > 0 && text[0] == '+' {
        text.skip(1)
    } else {
        text
    };
    if body.len() > 0 && all_digits(body) {
        Some(digits_value(body))
    } else {
        None
    }
}

proof fn lemma_digits_grow(text: Seq<char>, at: int)
    requires
        0 <= at <= text.len(),
        all_digits(text),
    ensures
        0 <= digits_value(text.take(at)) <= digits_value(text),
    decreases text.len(),
{
    if text.len() > 0 {
        assert(all_digits(text.drop_last())) by {
            assert(forall|i: int| 0 <= i < text.len() - 1 ==> text.drop_last()[i] == text[i]);
        }
        assert(is_digit(text[text.len() - 1]));
        if at < text.len() {
            lemma_digits_grow(text.drop_last(), at);
            assert(text.drop_last().take(at) =~= text.take(at));
        } else {
            lemma_digits_grow(text.drop_last(), at - 1);
            assert(text.take(at) =~= text);
        }
    }
}

/// Reads a natural number; `None` for anything else and for one above `most`.
pub fn parse_natural(text: &str, most: u64) -> (result: Option<u64>)
    ensures
        match result {
            Some(n) => number_in(text@) == Some(n as int) && n <= most,
            None => number_in(text@) matches Some(n) ==> n > most,
        },
{
    let all = chars(text);
    let signed: bool = all.len() > 0 && all[0] == '+';
    let start: usize = if signed {
        1
    } else {
        0
    };
    let ghost body = all@.skip(start as int);
    assert(start == 0 ==> body =~= all@);
    if start == all.len() {
        return None;
    }
    let mut n: u64 = 0;
    let mut i: usize = start;
    while i < all.len()
        invariant
            all@ == text@,
            start <= i <= all@.len(),
            start <= 1,
            signed == (all@.len() > 0 && all@[0] == '+'),
            start == (if signed { 1int } else { 0 }),
            body == all@.skip(start as int),
            body.len() > 0,
            n <= most,
            n == digits_value(body.take(i - start)),
            all_digits(body.take(i - start)),
        decreases all@.len() - i,
    {
        let c: char = all[i];
        proof {
            crate::seqs::take_next(body, i - start);
            assert(body[i - start] == c);
        }
        if !('0' <= c && c <= '9') {
            assert(!all_digits(body)) by {
                assert(!is_digit(body[i - start]));
            }
            assert(number_in(text@) is None) by {
                assert(!signed ==> body =~= text@);
            }
            return None;
        }
        let d: u64 = (c as u32 - '0' as u32) as u64;
        let wide: u128 = n as u128 * 10 + d as u128;
        assert(all_digits(body.take(i + 1 - start)));
        if wide > most as u128 {
            proof {
                if all_digits(body) {
                    lemma_digits_grow(body, i + 1 - start);
                }
                assert(!signed ==> body =~= text@);
            }
            return None;
        }
        n = wide as u64;
        i = i + 1;
    }
    proof {
        assert(body.take(i - start) =~= body);
        assert(!signed ==> body =~= text@);
    }
    Some(n)
}

/// How many digits a text starts with.
pub open spec fn leading_digits(text: Seq<char>) -> int
    decreases text.len(),
{
    if text.len() == 0 || !is_digit(text[0]) {
        0
    } else {
        1 + leading_digits(text.skip(1))
    }
}

/// Splits a text after the digits it starts with.
pub fn split_leading_digits(text: &str) -> (result: (String, String))
    ensures
        0 <= leading_digits(text@) <= text@.len(),
        result.0@ == text@.take(leading_digits(text@)),
        result.1@ == text@.skip(leading_digits(text@)),
{
    let all = chars(text);
    let mut i: usize = 0;
    assert(all@.skip(0) =~= all@);
    while i < all.len() && '0' <= all[i] && all[i] <= '9'
        invariant
            all@ == text@,
            i <= all@.len(),
            leading_digits(text@) == i + leading_digits(all@.skip(i as int)),
        decreases all@.len() - i,
    {
        assert(all@.skip(i as int)[0] == all@[i as int]);
        assert(all@.skip(i as int).skip(1) =~= all@.skip(i + 1));
        i = i + 1;
    }
    proof {
        if i < all@.len() {
            assert(all@.skip(i as int)[0] == all@[i as int]);
        }
        assert(leading_digits(all@.skip(i as int)) == 0);
        assert(all@.subrange(0, i as int) =~= text@.take(i as int));
        assert(all@.subrange(i as int, all@.len() as int) =~= text@.skip(i as int));
    }
    (from_range(&all, 0, i), from_range(&all, i, all.len()))
}

} // verus!
