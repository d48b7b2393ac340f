//! Searching in text: occurrences of a character or of a word, and the
//! literal between the quotes of an annotation.

use vstd::prelude::*;
use vstd::string::{StrSliceExecFns, StringSliceAdditionalSpecFns};
use vstd::utf8::{
    decode_utf8, encode_utf8, encode_utf8_decode_utf8, encode_utf8_valid_utf8, is_char_boundary,
    is_char_boundary_iff_not_is_continuation_byte, valid_utf8,
};

verus! {

/// The characters of a text, in order.
pub fn chars_of(text: &str) -> (res: Vec<char>)
    ensures
        res@ == text@,
{
    let mut res: Vec<char> = Vec::new();
    for c in it: text.chars()
        invariant
            res@ == it.seq().take(it.index() as int),
    {
        res.push(c);
    }
    res
}

/// `needle` stands in `hay` at position `at`.
pub open spec fn occurs_at(hay: Seq<char>, needle: Seq<char>, at: int) -> bool {
    0 <= at && at + needle.len() <= hay.len() && hay.subrange(at, at + needle.len()) == needle
}

/// `needle` stands somewhere in `hay`.
pub open spec fn has_text(hay: Seq<char>, needle: Seq<char>) -> bool {
    exists|at: int| occurs_at(hay, needle, at)
}

/// A character that an identifier is made of: a letter, a digit or the
/// underscore.
pub open spec fn is_word_char(c: char) -> bool {
    ||| 'a' <= c <= 'z'
    ||| 'A' <= c <= 'Z'
    ||| '0' <= c <= '9'
    ||| c == '_'
}

/// `word` stands in `hay` at position `at` as a token of its own: no
/// character of an identifier stands right before it or right after it.
pub open spec fn token_at(hay: Seq<char>, word: Seq<char>, at: int) -> bool {
    &&& occurs_at(hay, word, at)
    &&& at == 0 || !is_word_char(hay[at - 1])
    &&& at + word.len() == hay.len() || !is_word_char(hay[at + word.len()])
}

/// `word` stands somewhere in `hay` as a token of its own.
pub open spec fn has_token(hay: Seq<char>, word: Seq<char>) -> bool {
    exists|at: int| token_at(hay, word, at)
}

/// How often `c` stands in `text`.
pub open spec fn count_of(text: Seq<char>, c: char) -> nat
    decreases text.len(),
{
    if text.len() == 0 {
        0
    } else {
        count_of(text.drop_last(), c) + if text.last() == c {
            1nat
        } else {
            0nat
        }
    }
}

/// Whether `needle` stands in `hay` at position `at`.
fn matches_at(hay: &Vec<char>, needle: &Vec<char>, at: usize) -> (res: bool)
    requires
        at + needle.len() <= hay.len(),
    ensures
        res == occurs_at(hay@, needle@, at as int),
{
    let mut k: usize = 0;
    while k < needle.len()
        invariant
            k <= needle.len(),
            at + needle.len() <= hay.len(),
            forall|j: int| 0 <= j < k ==> hay@[at + j] == needle@[j],
        decreases needle.len() - k,
    {
        if hay[at + k] != needle[k] {
            assert(hay@.subrange(at as int, at + needle.len())[k as int] != needle@[k as int]);
            return false;
        }
        k += 1;
    }
    assert(hay@.subrange(at as int, at + needle.len()) =~= needle@);
    true
}

/// Whether `needle` stands somewhere in `hay`. The empty text stands in
/// every text.
pub fn contains_text(hay: &str, needle: &str) -> (res: bool)
    ensures
        res == has_text(hay@, needle@),
{
    let h = chars_of(hay);
    let n = chars_of(needle);
    if n.len() > h.len() {
        return false;
    }
    let last: usize = h.len() - n.len();
    let mut at: usize = 0;
    while at < last
        invariant
            at <= last,
            last + n.len() == h.len(),
            h@ == hay@,
            n@ == needle@,
            forall|j: int| 0 <= j < at ==> !occurs_at(h@, n@, j),
        decreases last - at,
    {
        if matches_at(&h, &n, at) {
            return true;
        }
        at += 1;
    }
    matches_at(&h, &n, last)
}

/// Whether a character is one that an identifier is made of.
pub fn is_word(c: char) -> (res: bool)
    ensures
        res == is_word_char(c),
{
    ('a' <= c && c <= 'z') || ('A' <= c && c <= 'Z') || ('0' <= c && c <= '9') || c == '_'
}

/// Whether `word` stands in `hay` at position `at` as a token of its own.
fn is_token_at(hay: &Vec<char>, word: &Vec<char>, at: usize) -> (res: bool)
    requires
        at + word.len() <= hay.len(),
    ensures
        res == token_at(hay@, word@, at as int),
{
    if !matches_at(hay, word, at) {
        return false;
    }
    if at > 0 && is_word(hay[at - 1]) {
        return false;
    }
    let after = at + word.len();
    !(after < hay.len() && is_word(hay[after]))
}

/// Whether `word` stands somewhere in `hay` as a token of its own.
pub fn contains_token(hay: &str, word: &str) -> (res: bool)
    ensures
        res == has_token(hay@, word@),
{
    let h = chars_of(hay);
    let n = chars_of(word);
    if n.len() > h.len() {
        return false;
    }
    let last: usize = h.len() - n.len();
    let mut at: usize = 0;
    while at < last
        invariant
            at <= last,
            last + n.len() == h.len(),
            h@ == hay@,
            n@ == word@,
            forall|j: int| 0 <= j < at ==> !token_at(h@, n@, j),
        decreases last - at,
    {
        if is_token_at(&h, &n, at) {
            return true;
        }
        at += 1;
    }
    is_token_at(&h, &n, last)
}

/// How often `c` stands in `text`.
pub fn count_char(text: &str, c: char) -> (res: usize)
    ensures
        res == count_of(text@, c),
{
    let chars = chars_of(text);
    let mut n: usize = 0;
    let mut i: usize = 0;
    while i < chars.len()
        invariant
            i <= chars.len(),
            chars@ == text@,
            n == count_of(chars@.take(i as int), c),
            n <= i,
        decreases chars.len() - i,
    {
        proof {
            assert(chars@.take(i + 1).drop_last() =~= chars@.take(i as int));
        }
        if chars[i] == c {
            n += 1;
        }
        i += 1;
    }
    proof {
        assert(chars@.take(chars.len() as int) =~= chars@);
    }
    n
}

/// Whether two texts hold the same characters.
pub fn same_text(a: &str, b: &str) -> (res: bool)
    ensures
        res == (a@ == b@),
{
    let x = chars_of(a);
    let y = chars_of(b);
    if x.len() != y.len() {
        return false;
    }
    let mut i: usize = 0;
    while i < x.len()
        invariant
            i <= x.len(),
            x.len() == y.len(),
            x@ == a@,
            y@ == b@,
            forall|j: int| 0 <= j < i ==> x@[j] == y@[j],
        decreases x.len() - i,
    {
        if x[i] != y[i] {
            return false;
        }
        i += 1;
    }
    assert(x@ =~= y@);
    true
}

/// The bytes between the first and the last double quote of `span`, if
/// there are two.
pub open spec fn quoted_bytes(span: Seq<u8>) -> Option<Seq<u8>> {
    match (span.index_of_first(0x22u8), span.index_of_last(0x22u8)) {
        (Some(first), Some(last)) => if first < last {
            Some(span.subrange(first + 1, last))
        } else {
            None
        },
        _ => None,
    }
}

/// The lines of a source text, each as its characters.
pub open spec fn lines_of(source: Seq<String>) -> Seq<Seq<char>> {
    Seq::new(source.len(), |i: int| source[i]@)
}

/// The literal of the annotation that covers the bytes from `start` up to
/// `end` of line `line`. Lines count from 1. Columns count from 0, in bytes
/// of the line as it is encoded in UTF-8, which is how the front end counts
/// them; in a line of ASCII text a byte is a character.
pub open spec fn annotation_at(source: Seq<Seq<char>>, line: int, start: int, end: int) -> Option<
    Seq<char>,
> {
    if 1 <= line <= source.len() {
        let bytes = encode_utf8(source[line - 1]);
        if 0 <= start <= end <= bytes.len() && start < bytes.len() {
            match quoted_bytes(bytes.subrange(start, end)) {
                Some(literal) => Some(decode_utf8(literal)),
                None => None,
            }
        } else {
            None
        }
    } else {
        None
    }
}

/// What follows the last space of `text`; all of it where it has no space.
pub open spec fn last_word(text: Seq<char>) -> Seq<char> {
    match text.index_of_last(' ') {
        Some(at) => text.subrange(at + 1, text.len() as int),
        None => text,
    }
}

/// The first position of `c` in `chars` from `from` up to `to`.
fn find_first(chars: &Vec<char>, c: char, from: usize, to: usize) -> (res: Option<usize>)
    requires
        from <= to <= chars.len(),
    ensures
        match res {
            Some(at) => from <= at < to && chars@.subrange(from as int, to as int).index_of_first(c)
                == Some(at - from),
            None => chars@.subrange(from as int, to as int).index_of_first(c) is None,
        },
{
    let ghost span = chars@.subrange(from as int, to as int);
    let mut i: usize = from;
    while i < to
        invariant
            from <= i <= to <= chars.len(),
            span == chars@.subrange(from as int, to as int),
            forall|j: int| 0 <= j < i - from ==> span[j] != c,
        decreases to - i,
    {
        if chars[i] == c {
            proof {
                assert(span[i - from] == c);
                span.index_of_first_ensures(c);
            }
            return Some(i);
        }
        i += 1;
    }
    proof {
        span.index_of_first_ensures(c);
    }
    None
}

/// The last position of `c` in `chars` from `from` up to `to`.
fn find_last(chars: &Vec<char>, c: char, from: usize, to: usize) -> (res: Option<usize>)
    requires
        from <= to <= chars.len(),
    ensures
        match res {
            Some(at) => from <= at < to && chars@.subrange(from as int, to as int).index_of_last(c)
                == Some(at - from),
            None => chars@.subrange(from as int, to as int).index_of_last(c) is None,
        },
{
    let ghost span = chars@.subrange(from as int, to as int);
    let mut i: usize = to;
    while i > from
        invariant
            from <= i <= to <= chars.len(),
            span == chars@.subrange(from as int, to as int),
            forall|j: int| i - from <= j < span.len() ==> span[j] != c,
        decreases i,
    {
        i -= 1;
        if chars[i] == c {
            proof {
                assert(span[i - from] == c);
                span.index_of_last_ensures(c);
            }
            return Some(i);
        }
    }
    proof {
        span.index_of_last_ensures(c);
    }
    None
}

/// The first position of `b` in `bytes` from `from` up to `to`.
fn find_first_byte(bytes: &[u8], b: u8, from: usize, to: usize) -> (res: Option<usize>)
    requires
        from <= to <= bytes.len(),
    ensures
        match res {
            Some(at) => from <= at < to && bytes@[at as int] == b && bytes@.subrange(
                from as int,
                to as int,
            ).index_of_first(b) == Some(at - from),
            None => bytes@.subrange(from as int, to as int).index_of_first(b) is None,
        },
{
    let ghost span = bytes@.subrange(from as int, to as int);
    let mut i: usize = from;
    while i < to
        invariant
            from <= i <= to <= bytes.len(),
            span == bytes@.subrange(from as int, to as int),
            forall|j: int| 0 <= j < i - from ==> span[j] != b,
        decreases to - i,
    {
        if bytes[i] == b {
            proof {
                assert(span[i - from] == b);
                span.index_of_first_ensures(b);
            }
            return Some(i);
        }
        i += 1;
    }
    proof {
        span.index_of_first_ensures(b);
    }
    None
}

/// The last position of `b` in `bytes` from `from` up to `to`.
fn find_last_byte(bytes: &[u8], b: u8, from: usize, to: usize) -> (res: Option<usize>)
    requires
        from <= to <= bytes.len(),
    ensures
        match res {
            Some(at) => from <= at < to && bytes@[at as int] == b && bytes@.subrange(
                from as int,
                to as int,
            ).index_of_last(b) == Some(at - from),
            None => bytes@.subrange(from as int, to as int).index_of_last(b) is None,
        },
{
    let ghost span = bytes@.subrange(from as int, to as int);
    let mut i: usize = to;
    while i > from
        invariant
            from <= i <= to <= bytes.len(),
            span == bytes@.subrange(from as int, to as int),
            forall|j: int| i - from <= j < span.len() ==> span[j] != b,
        decreases i,
    {
        i -= 1;
        if bytes[i] == b {
            proof {
                assert(span[i - from] == b);
                span.index_of_last_ensures(b);
            }
            return Some(i);
        }
    }
    proof {
        span.index_of_last_ensures(b);
    }
    None
}

/// A character starts wherever a byte of ASCII text stands.
proof fn lemma_boundary_at_ascii(bytes: Seq<u8>, at: int)
    requires
        valid_utf8(bytes),
        0 <= at < bytes.len(),
        bytes[at] < 0x80,
    ensures
        is_char_boundary(bytes, at),
{
    is_char_boundary_iff_not_is_continuation_byte(bytes, at);
}

/// A character ends where a leading byte of ASCII text ends.
proof fn lemma_boundary_after_ascii(bytes: Seq<u8>)
    requires
        valid_utf8(bytes),
        bytes.len() > 0,
        bytes[0] < 0x80,
    ensures
        is_char_boundary(bytes, 1),
{
    reveal_with_fuel(is_char_boundary, 2);
    reveal_with_fuel(valid_utf8, 2);
}

/// The literal between the first and the last double quote among the bytes
/// from `start` up to `end` of line `line` of `source`. There is none where
/// the line does not exist, where the span does not lie in the line, and
/// where the span holds fewer than two quotes.
pub fn extract_annotation_from_source(source: &Vec<String>, line: u64, start: u64, end: u64) -> (res:
    Option<String>)
    ensures
        match annotation_at(lines_of(source@), line as int, start as int, end as int) {
            Some(text) => res matches Some(found) && found@ == text,
            None => res is None,
        },
{
    if line == 0 || line > source.len() as u64 {
        return None;
    }
    let text: &str = source[(line - 1) as usize].as_str();
    let bytes = text.as_bytes();
    let len = bytes.len() as u64;
    if !(start < len && end <= len && start <= end) {
        return None;
    }
    let from = start as usize;
    let to = end as usize;
    match find_first_byte(bytes, 0x22, from, to) {
        None => None,
        Some(first) => match find_last_byte(bytes, 0x22, from, to) {
            None => None,
            Some(last) => if first < last {
                let ghost all = bytes@;
                proof {
                    encode_utf8_valid_utf8(text@);
                    lemma_boundary_at_ascii(all, first as int);
                }
                let (_, at_quote) = text.split_at(first);
                proof {
                    encode_utf8_valid_utf8(at_quote@);
                    assert(at_quote.spec_bytes()[0] == all[first as int]);
                    lemma_boundary_after_ascii(at_quote.spec_bytes());
                }
                let (_, after_quote) = at_quote.split_at(1);
                proof {
                    encode_utf8_valid_utf8(after_quote@);
                    assert(after_quote.spec_bytes() =~= all.subrange(first + 1, all.len() as int));
                    assert(after_quote.spec_bytes()[last - first - 1] == all[last as int]);
                    lemma_boundary_at_ascii(after_quote.spec_bytes(), last - first - 1);
                }
                let (literal, _) = after_quote.split_at(last - first - 1);
                proof {
                    assert(literal.spec_bytes() =~= all.subrange(from as int, to as int).subrange(
                        first - from + 1,
                        last - from,
                    ));
                    encode_utf8_decode_utf8(literal@);
                }
                Some(literal.to_owned())
            } else {
                None
            },
        },
    }
}

/// What follows the last space of `text`.
pub fn last_word_of(text: &str) -> (res: String)
    ensures
        res@ == last_word(text@),
{
    let chars = chars_of(text);
    proof {
        assert(chars@.subrange(0, chars.len() as int) =~= chars@);
    }
    match find_last(&chars, ' ', 0, chars.len()) {
        None => text.to_owned(),
        Some(at) => text.substring_char(at + 1, chars.len()).to_owned(),
    }
}

/// White space: the characters that Unicode gives the property
/// `White_Space`.
pub open spec fn is_space(c: char) -> bool {
    let n = c as u32;
    ||| 0x09 <= n <= 0x0D
    ||| n == 0x20
    ||| n == 0x85
    ||| n == 0xA0
    ||| n == 0x1680
    ||| 0x2000 <= n <= 0x200A
    ||| n == 0x2028
    ||| n == 0x2029
    ||| n == 0x202F
    ||| n == 0x205F
    ||| n == 0x3000
}

/// How many characters of white space `text` starts with.
pub open spec fn leading(text: Seq<char>) -> nat
    decreases text.len(),
{
    if text.len() == 0 || !is_space(text[0]) {
        0
    } else {
        1 + leading(text.drop_first())
    }
}

/// How many characters of white space `text` ends with.
pub open spec fn trailing(text: Seq<char>) -> nat
    decreases text.len(),
{
    if text.len() == 0 || !is_space(text.last()) {
        0
    } else {
        1 + trailing(text.drop_last())
    }
}

/// `text` without the white space it starts and ends with.
pub open spec fn trimmed(text: Seq<char>) -> Seq<char> {
    if leading(text) >= text.len() {
        Seq::empty()
    } else {
        text.subrange(leading(text) as int, text.len() - trailing(text))
    }
}

/// What stands before the first colon of `text` and what stands after it,
/// each without the white space around it.
pub open spec fn split_at_colon(text: Seq<char>) -> Option<(Seq<char>, Seq<char>)> {
    match text.index_of_first(':') {
        Some(at) => Some((trimmed(text.take(at)), trimmed(text.skip(at + 1)))),
        None => None,
    }
}

/// Whether a character is white space.
pub fn is_whitespace(c: char) -> (res: bool)
    ensures
        res == is_space(c),
{
    let n = c as u32;
    (0x09 <= n && n <= 0x0D) || n == 0x20 || n == 0x85 || n == 0xA0 || n == 0x1680 || (0x2000 <= n
        && n <= 0x200A) || n == 0x2028 || n == 0x2029 || n == 0x202F || n == 0x205F || n == 0x3000
}

/// White space up to a character that is none makes up the leading white
/// space.
proof fn lemma_leading(text: Seq<char>, n: int)
    requires
        0 <= n <= text.len(),
        forall|j: int| 0 <= j < n ==> is_space(#[trigger] text[j]),
        n < text.len() ==> !is_space(text[n]),
    ensures
        leading(text) == n,
    decreases n,
{
    if n > 0 {
        let rest = text.drop_first();
        assert forall|j: int| 0 <= j < n - 1 implies is_space(#[trigger] rest[j]) by {
            assert(rest[j] == text[j + 1]);
        }
        if n < text.len() {
            assert(rest[n - 1] == text[n]);
        }
        lemma_leading(rest, n - 1);
    }
}

/// White space down to a character that is none makes up the trailing
/// white space.
proof fn lemma_trailing(text: Seq<char>, n: int)
    requires
        0 <= n <= text.len(),
        forall|j: int| text.len() - n <= j < text.len() ==> is_space(#[trigger] text[j]),
        n < text.len() ==> !is_space(text[text.len() - n - 1]),
    ensures
        trailing(text) == n,
    decreases n,
{
    if n > 0 {
        let rest = text.drop_last();
        assert forall|j: int| rest.len() - (n - 1) <= j < rest.len() implies is_space(
            #[trigger] rest[j],
        ) by {
            assert(rest[j] == text[j]);
        }
        if n < text.len() {
            assert(rest[rest.len() - (n - 1) - 1] == text[text.len() - n - 1]);
        }
        lemma_trailing(rest, n - 1);
    }
}

/// The characters from `from` up to `to` of `text`, without the white
/// space around them.
fn trim_between(text: &str, chars: &Vec<char>, from: usize, to: usize) -> (res: String)
    requires
        chars@ == text@,
        from <= to <= chars.len(),
    ensures
        res@ == trimmed(text@.subrange(from as int, to as int)),
{
    let ghost part = text@.subrange(from as int, to as int);
    let mut lo: usize = from;
    while lo < to && is_whitespace(chars[lo])
        invariant
            from <= lo <= to <= chars.len(),
            chars@ == text@,
            part == text@.subrange(from as int, to as int),
            forall|j: int| 0 <= j < lo - from ==> is_space(#[trigger] part[j]),
        decreases to - lo,
    {
        lo += 1;
    }
    proof {
        if lo < to {
            assert(part[lo - from] == chars@[lo as int]);
        }
        lemma_leading(part, lo - from);
    }
    if lo == to {
        return String::new();
    }
    let mut hi: usize = to;
    while hi > lo && is_whitespace(chars[hi - 1])
        invariant
            from <= lo < to <= chars.len(),
            lo <= hi <= to,
            chars@ == text@,
            part == text@.subrange(from as int, to as int),
            !is_space(chars@[lo as int]),
            forall|j: int| hi - from <= j < part.len() ==> is_space(#[trigger] part[j]),
        decreases hi,
    {
        hi -= 1;
    }
    proof {
        assert(hi > lo);
        assert(part[hi - from - 1] == chars@[hi - 1]);
        lemma_trailing(part, to - hi);
        assert(part.subrange(lo - from, hi - from) =~= text@.subrange(lo as int, hi as int));
    }
    text.substring_char(lo, hi).to_owned()
}

/// `text` without the white space it starts and ends with.
pub fn trim_text(text: &str) -> (res: String)
    ensures
        res@ == trimmed(text@),
{
    let chars = chars_of(text);
    proof {
        assert(text@.subrange(0, chars.len() as int) =~= text@);
    }
    trim_between(text, &chars, 0, chars.len())
}

/// Splits a text at its first colon into what stands before and what
/// stands after, each without the white space around it. A text without a
/// colon is not split.
pub fn split(s: String) -> (res: Option<(String, String)>)
    ensures
        match split_at_colon(s@) {
            Some((label, value)) => res matches Some(found) && found.0@ == label && found.1@
                == value,
            None => res is None,
        },
{
    let text = s.as_str();
    let chars = chars_of(text);
    proof {
        assert(chars@.subrange(0, chars.len() as int) =~= chars@);
    }
    match find_first(&chars, ':', 0, chars.len()) {
        None => None,
        Some(at) => {
            proof {
                assert(text@.subrange(0, at as int) =~= text@.take(at as int));
                assert(text@.subrange(at + 1, chars.len() as int) =~= text@.skip(at + 1));
            }
            let label = trim_between(text, &chars, 0, at);
            let value = trim_between(text, &chars, at + 1, chars.len());
            Some((label, value))
        },
    }
}

} // verus!
