//! Text, read as a sequence of characters.

use vstd::prelude::*;

verus! {

/// `String::push`: appends one character and leaves what was there in place.
pub assume_specification[ String::push ](s: &mut String, ch: char)
    ensures
        final(s)@ == old(s)@.push(ch),
;

/// `String::from_utf8`: succeeds exactly on well-formed UTF-8, and the string it gives holds
/// the characters that the bytes encode.
#[verifier::external_body]
pub(crate) fn utf8_text(bytes: Vec<u8>) -> (text: Option<String>)
    ensures
        text is Some <==> vstd::utf8::valid_utf8(bytes@),
        text matches Some(t) ==> t@ == vstd::utf8::decode_utf8(bytes@),
{
    String::from_utf8(bytes).ok()
}

/// The characters of `text`, in order.
pub fn chars_of(text: &str) -> (chars: Vec<char>)
    ensures
        chars@ == text@,
{
    let mut chars: Vec<char> = Vec::new();
    for ch in it: text.chars()
        invariant
            it.seq() == text@,
            chars@ == text@.take(it.index()),
    {
        chars.push(ch);
    }
    chars
}

/// The character at position `i`.
pub fn char_at(chars: &Vec<char>, i: usize) -> (ch: char)
    requires
        i < chars@.len(),
    ensures
        ch == chars@[i as int],
{
    chars[i]
}

/// The string made of `chars`.
pub fn string_of(chars: &[char]) -> (text: String)
    ensures
        text@ == chars@,
{
    let mut text: String = String::new();
    let mut i: usize = 0;
    while i < chars.len()
        invariant
            i <= chars@.len(),
            text@ == chars@.take(i as int),
        decreases chars@.len() - i,
    {
        text.push(chars[i]);
        i += 1;
    }
    assert(chars@.take(i as int) == chars@);
    text
}

/// The position of the first `ch` in `s`, or the length of `s` where there is none.
pub open spec fn find(s: Seq<char>, ch: char) -> int
    decreases s.len(),
{
    if s.len() == 0 || s[0] == ch {
        0
    } else {
        1 + find(s.drop_first(), ch)
    }
}

/// What `find` gives: no `ch` stands before it, and one stands there unless it is the end.
pub proof fn lemma_find(s: Seq<char>, ch: char)
    ensures
        0 <= find(s, ch) <= s.len(),
        forall|j: int| 0 <= j < find(s, ch) ==> s[j] != ch,
        find(s, ch) < s.len() ==> s[find(s, ch)] == ch,
    decreases s.len(),
{
    if s.len() > 0 && s[0] != ch {
        lemma_find(s.drop_first(), ch);
        assert forall|j: int| 0 <= j < find(s, ch) implies s[j] != ch by {
            if j > 0 {
                assert(s.drop_first()[j - 1] == s[j]);
            }
        }
    }
}

/// `find` is the one position with those two properties.
pub proof fn lemma_find_unique(s: Seq<char>, ch: char, k: int)
    requires
        0 <= k <= s.len(),
        forall|j: int| 0 <= j < k ==> s[j] != ch,
        k < s.len() ==> s[k] == ch,
    ensures
        find(s, ch) == k,
{
    lemma_find(s, ch);
}

/// Finds the first `ch` in `chars`; the length of `chars` where there is none.
pub fn find_char(chars: &[char], ch: char) -> (k: usize)
    ensures
        k == find(chars@, ch),
        k <= chars@.len(),
{
    let mut k: usize = 0;
    while k < chars.len() && chars[k] != ch
        invariant
            k <= chars@.len(),
            forall|j: int| 0 <= j < k ==> chars@[j] != ch,
        decreases chars@.len() - k,
    {
        k += 1;
    }
    proof {
        lemma_find_unique(chars@, ch, k as int);
    }
    k
}

/// The characters with the Unicode property `White_Space`.
pub open spec fn white_space(ch: char) -> bool {
    ||| '\u{9}' <= ch <= '\u{d}'
    ||| ch == ' '
    ||| ch == '\u{85}'
    ||| ch == '\u{a0}'
    ||| ch == '\u{1680}'
    ||| '\u{2000}' <= ch <= '\u{200a}'
    ||| ch == '\u{2028}'
    ||| ch == '\u{2029}'
    ||| ch == '\u{202f}'
    ||| ch == '\u{205f}'
    ||| ch == '\u{3000}'
}

/// Whether `ch` is white space.
pub fn is_white_space(ch: char) -> (yes: bool)
    ensures
        yes == white_space(ch),
{
    ('\u{9}' <= ch && ch <= '\u{d}') || ch == ' ' || ch == '\u{85}' || ch == '\u{a0}' || ch
        == '\u{1680}' || ('\u{2000}' <= ch && ch <= '\u{200a}') || ch == '\u{2028}' || ch
        == '\u{2029}' || ch == '\u{202f}' || ch == '\u{205f}' || ch == '\u{3000}'
}

/// `s` without the white space it starts with.
pub open spec fn trimmed_start(s: Seq<char>) -> Seq<char>
    decreases s.len(),
{
    if s.len() > 0 && white_space(s[0]) {
        trimmed_start(s.drop_first())
    } else {
        s
    }
}

/// `s` without the white space it ends with.
pub open spec fn trimmed_end(s: Seq<char>) -> Seq<char>
    decreases s.len(),
{
    if s.len() > 0 && white_space(s.last()) {
        trimmed_end(s.drop_last())
    } else {
        s
    }
}

/// `s` without the white space at either end.
pub open spec fn trimmed(s: Seq<char>) -> Seq<char> {
    trimmed_end(trimmed_start(s))
}

/// Cuts the white space off both ends of `chars`.
pub fn trim(chars: &[char]) -> (rest: &[char])
    ensures
        rest@ == trimmed(chars@),
{
    let mut from: usize = 0;
    assert(chars@.skip(0) == chars@);
    while from < chars.len() && is_white_space(chars[from])
        invariant
            from <= chars@.len(),
            trimmed_start(chars@) == trimmed_start(chars@.skip(from as int)),
        decreases chars@.len() - from,
    {
        assert(chars@.skip(from as int).drop_first() == chars@.skip(from + 1));
        from += 1;
    }
    let ghost start = chars@.skip(from as int);
    let mut to: usize = chars.len();
    assert(start == chars@.subrange(from as int, to as int));
    while from < to && is_white_space(chars[to - 1])
        invariant
            from <= to <= chars@.len(),
            trimmed_end(start) == trimmed_end(chars@.subrange(from as int, to as int)),
        decreases to,
    {
        let ghost cut = chars@.subrange(from as int, to as int);
        assert(cut.drop_last() == chars@.subrange(from as int, to - 1));
        to -= 1;
    }
    vstd::slice::slice_subrange(chars, from, to)
}

/// `line` without one carriage return at its end.
pub open spec fn without_return(line: Seq<char>) -> Seq<char> {
    if line.len() > 0 && line.last() == '\r' {
        line.drop_last()
    } else {
        line
    }
}

/// The lines of `s`: each ends at a line feed or at a carriage return and a line feed, which
/// are no part of it; after the last line the ending may be missing.
pub open spec fn lines(s: Seq<char>) -> Seq<Seq<char>>
    decreases s.len(),
    via lines_decreases
{
    if s.len() == 0 {
        Seq::empty()
    } else {
        let end = find(s, '\n');
        if end == s.len() {
            seq![s]
        } else {
            seq![without_return(s.take(end))] + lines(s.skip(end + 1))
        }
    }
}

#[via_fn]
proof fn lines_decreases(s: Seq<char>) {
    lemma_find(s, '\n');
}

/// The lines of `chars`, as slices of it.
pub fn split_lines<'a>(chars: &'a [char]) -> (found: Vec<&'a [char]>)
    ensures
        found@.len() == lines(chars@).len(),
        forall|i: int| 0 <= i < found@.len() ==> (#[trigger] found@[i])@ == lines(chars@)[i],
{
    let mut found: Vec<&'a [char]> = Vec::new();
    let ghost mut done: Seq<Seq<char>> = Seq::empty();
    let mut rest: &'a [char] = chars;
    while rest.len() > 0
        invariant
            lines(chars@) == done + lines(rest@),
            found@.len() == done.len(),
            forall|i: int| 0 <= i < found@.len() ==> (#[trigger] found@[i])@ == done[i],
        decreases rest@.len(),
    {
        let end = find_char(rest, '\n');
        let len = rest.len();
        if end == len {
            found.push(rest);
            proof {
                done = done.push(rest@);
                assert(lines(chars@) == done + lines(Seq::empty()));
            }
            rest = vstd::slice::slice_subrange(rest, len, len);
            assert(rest@ == Seq::<char>::empty());
        } else {
            let line = if end > 0 && rest[end - 1] == '\r' {
                vstd::slice::slice_subrange(rest, 0, end - 1)
            } else {
                vstd::slice::slice_subrange(rest, 0, end)
            };
            found.push(line);
            proof {
                assert(line@ == without_return(rest@.take(end as int)));
                assert(lines(rest@) == seq![line@] + lines(rest@.skip(end + 1)));
                done = done.push(line@);
                assert(lines(chars@) == done + lines(rest@.skip(end + 1)));
            }
            rest = vstd::slice::slice_subrange(rest, end + 1, len);
            assert(rest@ == rest@.skip(0));
        }
    }
    assert(lines(chars@) == done);
    found
}

/// Whether `needle` stands in `s` at position `at`.
pub open spec fn occurs_at(s: Seq<char>, needle: Seq<char>, at: int) -> bool {
    &&& 0 <= at
    &&& at + needle.len() <= s.len()
    &&& s.subrange(at, at + needle.len()) == needle
}

/// Whether `needle` stands anywhere in `s`.
pub open spec fn contains(s: Seq<char>, needle: Seq<char>) -> bool {
    exists|at: int| occurs_at(s, needle, at)
}

/// Whether two slices hold the same characters.
pub fn same_chars(a: &[char], b: &[char]) -> (same: bool)
    ensures
        same == (a@ == b@),
{
    if a.len() != b.len() {
        return false;
    }
    let mut i: usize = 0;
    while i < a.len()
        invariant
            i <= a@.len(),
            a@.len() == b@.len(),
            forall|j: int| 0 <= j < i ==> a@[j] == b@[j],
        decreases a@.len() - i,
    {
        if a[i] != b[i] {
            assert(a@[i as int] != b@[i as int]);
            return false;
        }
        i += 1;
    }
    assert(a@ == b@);
    true
}

/// Whether two strings hold the same characters.
pub fn same_text(a: &str, b: &str) -> (same: bool)
    ensures
        same == (a@ == b@),
{
    same_chars(chars_of(a).as_slice(), chars_of(b).as_slice())
}

/// Whether `needle` stands anywhere in `text`.
pub fn contains_text(text: &str, needle: &str) -> (yes: bool)
    ensures
        yes == contains(text@, needle@),
{
    let chars = chars_of(text);
    let wanted = chars_of(needle);
    let width = wanted.len();
    if width > chars.len() {
        return false;
    }
    let last = chars.len() - width;
    let mut at: usize = 0;
    let mut found = same_chars(
        vstd::slice::slice_subrange(chars.as_slice(), 0, width),
        wanted.as_slice(),
    );
    while !found && at < last
        invariant
            chars@ == text@,
            wanted@ == needle@,
            width == needle@.len(),
            last + width == chars.len(),
            at <= last,
            found <==> occurs_at(text@, needle@, at as int),
            forall|k: int| 0 <= k < at ==> !occurs_at(text@, needle@, k),
        decreases last - at,
    {
        at += 1;
        found = same_chars(
            vstd::slice::slice_subrange(chars.as_slice(), at, at + width),
            wanted.as_slice(),
        );
    }
    found
}

} // verus!
