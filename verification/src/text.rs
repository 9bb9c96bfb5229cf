//! Text as sequences of characters: lines, words, trimming, searching, numbers.
//!
//! Callers split a text once with `chars_of` and then work on slices of it.

use vstd::prelude::*;
use vstd::slice::slice_subrange;

verus! {

/// `String::push` appends one character.
pub assume_specification[ String::push ](text: &mut String, c: char)
    ensures
        final(text)@ == old(text)@.push(c),
;

/// The characters of `text`.
pub fn chars_of(text: &str) -> (chars: Vec<char>)
    ensures
        chars@ == text@,
{
    let mut chars: Vec<char> = Vec::new();
    for c in it: text.chars()
        invariant
            it.seq() == text@,
            chars@ == text@.take(it.index() as int),
    {
        assert(text@.take(it.index() + 1) == text@.take(it.index() as int).push(c));
        chars.push(c);
    }
    assert(text@.take(text@.len() as int) == text@);
    chars
}

/// The string that consists of `chars`.
pub fn text_of(chars: &[char]) -> (text: String)
    ensures
        text@ == chars@,
{
    let mut text = String::new();
    let mut i: usize = 0;
    while i < chars.len()
        invariant
            i <= chars@.len(),
            text@ == chars@.take(i as int),
        decreases chars@.len() - i,
    {
        assert(chars@.take(i + 1) == chars@.take(i as int).push(chars@[i as int]));
        text.push(chars[i]);
        i += 1;
    }
    assert(chars@.take(i as int) == chars@);
    text
}

/// A text that may be missing.
pub open spec fn maybe_string(text: Option<String>) -> Option<Seq<char>> {
    match text {
        Some(text) => Some(text@),
        None => None,
    }
}

/// `first` followed by `second`.
pub fn join2(first: &str, second: &str) -> (text: String)
    ensures
        text@ == first@ + second@,
{
    let mut text = first.to_string();
    text.append(second);
    text
}

/// Three texts, one after the other.
pub fn join3(first: &str, second: &str, third: &str) -> (text: String)
    ensures
        text@ == first@ + second@ + third@,
{
    let mut text = join2(first, second);
    text.append(third);
    text
}

/// Four texts, one after the other.
pub fn join4(first: &str, second: &str, third: &str, fourth: &str) -> (text: String)
    ensures
        text@ == first@ + second@ + third@ + fourth@,
{
    let mut text = join3(first, second, third);
    text.append(fourth);
    text
}

/// Five texts, one after the other.
pub fn join5(first: &str, second: &str, third: &str, fourth: &str, fifth: &str) -> (text: String)
    ensures
        text@ == first@ + second@ + third@ + fourth@ + fifth@,
{
    let mut text = join4(first, second, third, fourth);
    text.append(fifth);
    text
}

/// The views of a sequence of slices.
pub open spec fn pieces<T>(slices: Seq<&[T]>) -> Seq<Seq<T>> {
    Seq::new(slices.len(), |i: int| slices[i]@)
}

/// The characters of a sequence of strings.
pub open spec fn texts(strings: Seq<String>) -> Seq<Seq<char>> {
    Seq::new(strings.len(), |i: int| strings[i]@)
}

/// The index of the first `wanted` in `s`, or the length of `s` where there is none.
pub open spec fn first_index<T>(s: Seq<T>, wanted: T) -> int
    decreases s.len(),
{
    if s.len() == 0 || s[0] == wanted {
        0
    } else {
        1 + first_index(s.skip(1), wanted)
    }
}

/// `first_index` is the only index that has no `wanted` before it and, inside `s`, a `wanted` at it.
pub proof fn lemma_first_index<T>(s: Seq<T>, wanted: T, n: int)
    requires
        0 <= n <= s.len(),
        forall|k: int| 0 <= k < n ==> s[k] != wanted,
        n < s.len() ==> s[n] == wanted,
    ensures
        first_index(s, wanted) == n,
    decreases s.len(),
{
    if n > 0 {
        assert forall|k: int| 0 <= k < n - 1 implies s.skip(1)[k] != wanted by {
            assert(s[k + 1] != wanted);
        }
        lemma_first_index(s.skip(1), wanted, n - 1);
    }
}

/// What `first_index` says of the elements before it and at it.
pub proof fn lemma_first_index_bounds<T>(s: Seq<T>, wanted: T)
    ensures
        0 <= first_index(s, wanted) <= s.len(),
        forall|k: int| 0 <= k < first_index(s, wanted) ==> s[k] != wanted,
        first_index(s, wanted) < s.len() ==> s[first_index(s, wanted)] == wanted,
    decreases s.len(),
{
    if s.len() > 0 && s[0] != wanted {
        lemma_first_index_bounds(s.skip(1), wanted);
        assert forall|k: int| 0 <= k < first_index(s, wanted) implies s[k] != wanted by {
            if k > 0 {
                assert(s.skip(1)[k - 1] != wanted);
            }
        }
    }
}

/// The index of the first `wanted` at or after `from`, or the length of `chars`.
fn find_char(chars: &[char], from: usize, wanted: char) -> (found: usize)
    requires
        from <= chars@.len(),
    ensures
        from <= found <= chars@.len(),
        found - from == first_index(chars@.skip(from as int), wanted),
{
    let mut i = from;
    while i < chars.len() && chars[i] != wanted
        invariant
            from <= i <= chars@.len(),
            forall|k: int| from <= k < i ==> chars@[k] != wanted,
        decreases chars@.len() - i,
    {
        i += 1;
    }
    proof {
        let rest = chars@.skip(from as int);
        assert forall|k: int| 0 <= k < i - from implies rest[k] != wanted by {
            assert(chars@[k + from] != wanted);
        }
        lemma_first_index(rest, wanted, i - from);
    }
    i
}

/// The runs of elements of `s` between occurrences of `separator`: one run more than there are
/// separators, empty ones among them.
pub open spec fn split<T>(s: Seq<T>, separator: T) -> Seq<Seq<T>>
    decreases s.len(),
{
    let n = first_index(s, separator);
    if 0 <= n < s.len() {
        seq![s.take(n)] + split(s.skip(n + 1), separator)
    } else {
        seq![s]
    }
}

/// The runs of characters between occurrences of `separator`.
pub fn split_chars<'a>(chars: &'a [char], separator: char) -> (parts: Vec<&'a [char]>)
    ensures
        pieces(parts@) == split(chars@, separator),
{
    let mut parts: Vec<&'a [char]> = Vec::new();
    let mut start: usize = 0;
    assert(chars@.skip(0) == chars@);
    assert(pieces(parts@) + split(chars@, separator) == split(chars@, separator));
    loop
        invariant
            start <= chars@.len(),
            split(chars@, separator) == pieces(parts@) + split(
                chars@.skip(start as int),
                separator,
            ),
        decreases chars@.len() - start,
    {
        let end = find_char(chars, start, separator);
        let part = slice_subrange(chars, start, end);
        let ghost rest = chars@.skip(start as int);
        let ghost before = pieces(parts@);
        assert(part@ == rest.take(end - start));
        parts.push(part);
        assert(pieces(parts@) == before.push(part@));
        if end == chars.len() {
            assert(part@ == rest);
            assert(before + seq![rest] == before.push(rest));
            return parts;
        }
        assert(chars@.skip(end + 1) == rest.skip(end - start + 1));
        assert(before + (seq![part@] + split(rest.skip(end - start + 1), separator))
            == before.push(part@) + split(rest.skip(end - start + 1), separator));
        start = end + 1;
    }
}

/// A line without the carriage return that ends it, where one does.
pub open spec fn without_return(line: Seq<char>) -> Seq<char> {
    if line.len() > 0 && line.last() == '\r' {
        line.drop_last()
    } else {
        line
    }
}

/// The lines of `s`. A line ends at a newline or at a carriage return and a newline, neither of
/// which belongs to it; the ending of the last line is optional.
pub open spec fn text_lines(s: Seq<char>) -> Seq<Seq<char>>
    decreases s.len(),
{
    let n = first_index(s, '\n');
    if s.len() == 0 {
        Seq::empty()
    } else if 0 <= n < s.len() {
        seq![without_return(s.take(n))] + text_lines(s.skip(n + 1))
    } else {
        seq![s]
    }
}

/// The lines of `chars`.
pub fn lines<'a>(chars: &'a [char]) -> (parts: Vec<&'a [char]>)
    ensures
        pieces(parts@) == text_lines(chars@),
{
    let mut parts: Vec<&'a [char]> = Vec::new();
    let mut start: usize = 0;
    assert(chars@.skip(0) == chars@);
    assert(pieces(parts@) + text_lines(chars@) == text_lines(chars@));
    while start < chars.len()
        invariant
            start <= chars@.len(),
            text_lines(chars@) == pieces(parts@) + text_lines(chars@.skip(start as int)),
        decreases chars@.len() - start,
    {
        let end = find_char(chars, start, '\n');
        let ghost rest = chars@.skip(start as int);
        let ghost before = pieces(parts@);
        if end == chars.len() {
            let part = slice_subrange(chars, start, end);
            assert(part@ == rest);
            parts.push(part);
            assert(pieces(parts@) == before.push(part@));
            assert(chars@.skip(end as int) == Seq::<char>::empty());
            assert(before + seq![rest] == before.push(rest) + Seq::<Seq<char>>::empty());
            start = end;
        } else {
            let stop = if end > start && chars[end - 1] == '\r' {
                end - 1
            } else {
                end
            };
            let part = slice_subrange(chars, start, stop);
            assert(part@ == without_return(rest.take(end - start)));
            parts.push(part);
            assert(pieces(parts@) == before.push(part@));
            assert(chars@.skip(end + 1) == rest.skip(end - start + 1));
            assert(before + (seq![part@] + text_lines(rest.skip(end - start + 1))) == before.push(
                part@,
            ) + text_lines(rest.skip(end - start + 1)));
            start = end + 1;
        }
    }
    assert(pieces(parts@) + Seq::<Seq<char>>::empty() == pieces(parts@));
    parts
}

/// The characters with the White_Space property of Unicode.
pub open spec fn white_space(c: char) -> bool {
    ||| '\u{9}' <= c <= '\u{d}'
    ||| c == '\u{20}'
    ||| c == '\u{85}'
    ||| c == '\u{a0}'
    ||| c == '\u{1680}'
    ||| '\u{2000}' <= c <= '\u{200a}'
    ||| c == '\u{2028}'
    ||| c == '\u{2029}'
    ||| c == '\u{202f}'
    ||| c == '\u{205f}'
    ||| c == '\u{3000}'
}

/// Whether `c` has the White_Space property of Unicode.
pub fn is_white_space(c: char) -> (r: bool)
    ensures
        r == white_space(c),
{
    ('\u{9}' <= c && c <= '\u{d}') || c == '\u{20}' || c == '\u{85}' || c == '\u{a0}' || c
        == '\u{1680}' || ('\u{2000}' <= c && c <= '\u{200a}') || c == '\u{2028}' || c == '\u{2029}'
        || c == '\u{202f}' || c == '\u{205f}' || c == '\u{3000}'
}

/// `s` without the white space it starts with.
pub open spec fn trim_start(s: Seq<char>) -> Seq<char>
    decreases s.len(),
{
    if s.len() > 0 && white_space(s[0]) {
        trim_start(s.skip(1))
    } else {
        s
    }
}

/// `s` without the white space it ends with.
pub open spec fn trim_end(s: Seq<char>) -> Seq<char>
    decreases s.len(),
{
    if s.len() > 0 && white_space(s.last()) {
        trim_end(s.drop_last())
    } else {
        s
    }
}

/// `s` without the white space it starts or ends with.
pub open spec fn trim(s: Seq<char>) -> Seq<char> {
    trim_end(trim_start(s))
}

/// `chars` without the white space it starts with.
pub fn trimmed_start<'a>(chars: &'a [char]) -> (trimmed: &'a [char])
    ensures
        trimmed@ == trim_start(chars@),
{
    let mut start: usize = 0;
    assert(chars@.skip(0) == chars@);
    while start < chars.len() && is_white_space(chars[start])
        invariant
            start <= chars@.len(),
            trim_start(chars@) == trim_start(chars@.skip(start as int)),
        decreases chars@.len() - start,
    {
        assert(chars@.skip(start as int).skip(1) == chars@.skip(start + 1));
        start += 1;
    }
    let trimmed = slice_subrange(chars, start, chars.len());
    assert(trimmed@ == chars@.skip(start as int));
    trimmed
}

/// `chars` without the white space it starts or ends with.
pub fn trimmed<'a>(chars: &'a [char]) -> (trimmed: &'a [char])
    ensures
        trimmed@ == trim(chars@),
{
    let inner = trimmed_start(chars);
    let mut end: usize = inner.len();
    assert(inner@.take(end as int) == inner@);
    while end > 0 && is_white_space(inner[end - 1])
        invariant
            end <= inner@.len(),
            trim_end(inner@) == trim_end(inner@.take(end as int)),
        decreases end,
    {
        assert(inner@.take(end as int).drop_last() == inner@.take(end - 1));
        end -= 1;
    }
    let trimmed = slice_subrange(inner, 0, end);
    assert(trimmed@ == inner@.take(end as int));
    trimmed
}

/// The ASCII characters that separate fields: space, tab, newline, form feed, carriage return.
pub open spec fn ascii_white_space(c: char) -> bool {
    c == ' ' || c == '\t' || c == '\n' || c == '\u{c}' || c == '\r'
}

/// Whether `c` separates words: by the White_Space property of Unicode, or in ASCII alone.
pub open spec fn separates(c: char, ascii_only: bool) -> bool {
    if ascii_only {
        ascii_white_space(c)
    } else {
        white_space(c)
    }
}

/// Whether `c` separates words.
pub fn is_separator(c: char, ascii_only: bool) -> (r: bool)
    ensures
        r == separates(c, ascii_only),
{
    if ascii_only {
        c == ' ' || c == '\t' || c == '\n' || c == '\u{c}' || c == '\r'
    } else {
        is_white_space(c)
    }
}

/// The length of the run of characters at the start of `s` that separate no words.
pub open spec fn word_length(s: Seq<char>, ascii_only: bool) -> int
    decreases s.len(),
{
    if s.len() == 0 || separates(s[0], ascii_only) {
        0
    } else {
        1 + word_length(s.skip(1), ascii_only)
    }
}

/// The words of `s`: its maximal runs of characters that separate no words.
pub open spec fn words(s: Seq<char>, ascii_only: bool) -> Seq<Seq<char>>
    decreases s.len(),
{
    let n = word_length(s, ascii_only);
    if s.len() == 0 {
        Seq::empty()
    } else if 0 < n <= s.len() {
        seq![s.take(n)] + words(s.skip(n), ascii_only)
    } else {
        words(s.skip(1), ascii_only)
    }
}

/// `word_length` is the only index with no separator before it and a separator, or the end, at it.
proof fn lemma_word_length(s: Seq<char>, ascii_only: bool, n: int)
    requires
        0 <= n <= s.len(),
        forall|k: int| 0 <= k < n ==> !separates(s[k], ascii_only),
        n < s.len() ==> separates(s[n], ascii_only),
    ensures
        word_length(s, ascii_only) == n,
    decreases s.len(),
{
    if n > 0 {
        assert forall|k: int| 0 <= k < n - 1 implies !separates(s.skip(1)[k], ascii_only) by {
            assert(!separates(s[k + 1], ascii_only));
        }
        lemma_word_length(s.skip(1), ascii_only, n - 1);
    }
}

/// The words of `chars`.
pub fn split_words<'a>(chars: &'a [char], ascii_only: bool) -> (parts: Vec<&'a [char]>)
    ensures
        pieces(parts@) == words(chars@, ascii_only),
{
    let mut parts: Vec<&'a [char]> = Vec::new();
    let mut start: usize = 0;
    assert(chars@.skip(0) == chars@);
    assert(pieces(parts@) + words(chars@, ascii_only) == words(chars@, ascii_only));
    while start < chars.len()
        invariant
            start <= chars@.len(),
            words(chars@, ascii_only) == pieces(parts@) + words(
                chars@.skip(start as int),
                ascii_only,
            ),
        decreases chars@.len() - start,
    {
        let ghost rest = chars@.skip(start as int);
        let ghost before = pieces(parts@);
        let mut end = start;
        while end < chars.len() && !is_separator(chars[end], ascii_only)
            invariant
                start <= end <= chars@.len(),
                forall|k: int| start <= k < end ==> !separates(chars@[k], ascii_only),
            decreases chars@.len() - end,
        {
            end += 1;
        }
        proof {
            assert forall|k: int| 0 <= k < end - start implies !separates(rest[k], ascii_only) by {
                assert(!separates(chars@[k + start], ascii_only));
            }
            lemma_word_length(rest, ascii_only, end - start);
        }
        if end > start {
            let part = slice_subrange(chars, start, end);
            assert(part@ == rest.take(end - start));
            parts.push(part);
            assert(pieces(parts@) == before.push(part@));
            assert(chars@.skip(end as int) == rest.skip(end - start));
            assert(before + (seq![part@] + words(rest.skip(end - start), ascii_only))
                == before.push(part@) + words(rest.skip(end - start), ascii_only));
            start = end;
        } else {
            assert(chars@.skip(start + 1) == rest.skip(1));
            start += 1;
        }
    }
    assert(chars@.skip(start as int) == Seq::<char>::empty());
    assert(pieces(parts@) + Seq::<Seq<char>>::empty() == pieces(parts@));
    parts
}

/// Whether two slices hold the same characters.
pub fn same_chars(left: &[char], right: &[char]) -> (r: bool)
    ensures
        r == (left@ == right@),
{
    if left.len() != right.len() {
        return false;
    }
    let mut i: usize = 0;
    while i < left.len()
        invariant
            i <= left@.len(),
            left@.len() == right@.len(),
            forall|k: int| 0 <= k < i ==> left@[k] == right@[k],
        decreases left@.len() - i,
    {
        if left[i] != right[i] {
            return false;
        }
        i += 1;
    }
    assert(left@ == right@);
    true
}

/// Whether `chars` spells `text`.
pub fn spells(chars: &[char], text: &str) -> (r: bool)
    ensures
        r == (chars@ == text@),
{
    same_chars(chars, chars_of(text).as_slice())
}

/// Whether two strings are the same.
pub fn same_text(left: &str, right: &str) -> (r: bool)
    ensures
        r == (left@ == right@),
{
    spells(chars_of(left).as_slice(), right)
}

/// Whether `prefix` is how `chars` starts.
pub fn starts_with(chars: &[char], prefix: &str) -> (r: bool)
    ensures
        r == prefix@.is_prefix_of(chars@),
{
    let wanted = chars_of(prefix);
    if wanted.len() > chars.len() {
        return false;
    }
    let head = slice_subrange(chars, 0, wanted.len());
    same_chars(head, wanted.as_slice())
}

/// What follows `prefix` in `s`.
pub open spec fn after_prefix<T>(s: Seq<T>, prefix: Seq<T>) -> Option<Seq<T>> {
    if prefix.is_prefix_of(s) {
        Some(s.skip(prefix.len() as int))
    } else {
        None
    }
}

/// A slice that may be missing, as the sequence it views.
pub open spec fn piece<T>(slice: Option<&[T]>) -> Option<Seq<T>> {
    match slice {
        Some(slice) => Some(slice@),
        None => None,
    }
}

/// What follows `prefix` in `chars`, where `chars` starts with it.
pub fn strip_prefix<'a>(chars: &'a [char], prefix: &str) -> (rest: Option<&'a [char]>)
    ensures
        piece(rest) == after_prefix(chars@, prefix@),
{
    if !starts_with(chars, prefix) {
        return None;
    }
    let length = chars_of(prefix).len();
    let rest = slice_subrange(chars, length, chars.len());
    assert(rest@ == chars@.skip(prefix@.len() as int));
    Some(rest)
}

/// What precedes `suffix` in `s`.
pub open spec fn before_suffix<T>(s: Seq<T>, suffix: Seq<T>) -> Option<Seq<T>> {
    if suffix.is_suffix_of(s) {
        Some(s.take(s.len() - suffix.len()))
    } else {
        None
    }
}

/// What precedes `suffix` in `chars`, where `chars` ends with it.
pub fn strip_suffix<'a>(chars: &'a [char], suffix: &str) -> (rest: Option<&'a [char]>)
    ensures
        piece(rest) == before_suffix(chars@, suffix@),
{
    let wanted = chars_of(suffix);
    if wanted.len() > chars.len() {
        return None;
    }
    let end = chars.len() - wanted.len();
    let tail = slice_subrange(chars, end, chars.len());
    if !same_chars(tail, wanted.as_slice()) {
        return None;
    }
    let rest = slice_subrange(chars, 0, end);
    assert(rest@ == chars@.take(end as int));
    Some(rest)
}

/// Whether `needle` stands in `s` at index `i`.
pub open spec fn occurs_at<T>(s: Seq<T>, needle: Seq<T>, i: int) -> bool {
    0 <= i && i + needle.len() <= s.len() && s.subrange(i, i + needle.len()) == needle
}

/// Whether `needle` stands anywhere in `s`.
pub open spec fn occurs<T>(s: Seq<T>, needle: Seq<T>) -> bool {
    exists|i: int| occurs_at(s, needle, i)
}

/// Whether `needle` stands anywhere in `chars`.
pub fn contains_text(chars: &[char], needle: &str) -> (r: bool)
    ensures
        r == occurs(chars@, needle@),
{
    let wanted = chars_of(needle);
    if wanted.len() > chars.len() {
        return false;
    }
    let length = chars.len();
    let last = length - wanted.len();
    let mut i: usize = 0;
    loop
        invariant
            i <= last,
            length == chars@.len(),
            last + wanted@.len() == length,
            wanted@ == needle@,
            forall|k: int| 0 <= k < i ==> !occurs_at(chars@, needle@, k),
        decreases last - i,
    {
        if same_chars(slice_subrange(chars, i, i + wanted.len()), wanted.as_slice()) {
            assert(occurs_at(chars@, needle@, i as int));
            return true;
        }
        if i == last {
            return false;
        }
        i += 1;
    }
}

/// The index of the last place where `needle` stands in `s`, or -1.
pub open spec fn last_occurrence<T>(s: Seq<T>, needle: Seq<T>) -> int
    decreases s.len(),
{
    if needle.is_suffix_of(s) {
        s.len() - needle.len()
    } else if s.len() == 0 {
        -1
    } else {
        last_occurrence(s.drop_last(), needle)
    }
}

/// The index of the last place where `needle` stands in `chars`.
pub fn find_last(chars: &[char], needle: &str) -> (found: Option<usize>)
    ensures
        match found {
            Some(i) => i == last_occurrence(chars@, needle@) && i + needle@.len() <= chars@.len(),
            None => last_occurrence(chars@, needle@) == -1,
        },
{
    let mut end: usize = chars.len();
    assert(chars@.take(end as int) == chars@);
    loop
        invariant
            end <= chars@.len(),
            last_occurrence(chars@, needle@) == last_occurrence(chars@.take(end as int), needle@),
        decreases end,
    {
        match strip_suffix(slice_subrange(chars, 0, end), needle) {
            Some(rest) => return Some(rest.len()),
            None => {},
        }
        if end == 0 {
            return None;
        }
        assert(chars@.take(end as int).drop_last() == chars@.take(end - 1));
        end -= 1;
    }
}

/// The part of the first of `lines` with the prefix `prefix` that follows it.
pub open spec fn first_after(lines: Seq<Seq<char>>, prefix: Seq<char>) -> Option<Seq<char>>
    decreases lines.len(),
{
    if lines.len() == 0 {
        None
    } else if prefix.is_prefix_of(lines[0]) {
        Some(lines[0].skip(prefix.len() as int))
    } else {
        first_after(lines.skip(1), prefix)
    }
}

/// The part of the first of `lines` with the prefix `prefix` that follows it.
pub fn find_after<'a>(lines: &Vec<&'a [char]>, prefix: &str) -> (found: Option<&'a [char]>)
    ensures
        piece(found) == first_after(pieces(lines@), prefix@),
{
    let ghost all = pieces(lines@);
    let mut i: usize = 0;
    assert(all.skip(0) == all);
    while i < lines.len()
        invariant
            i <= lines@.len(),
            all == pieces(lines@),
            first_after(all, prefix@) == first_after(all.skip(i as int), prefix@),
        decreases lines@.len() - i,
    {
        assert(all.skip(i as int)[0] == lines@[i as int]@);
        assert(all.skip(i as int).skip(1) == all.skip(i + 1));
        match strip_prefix(lines[i], prefix) {
            Some(rest) => return Some(rest),
            None => {},
        }
        i += 1;
    }
    None
}

/// Whether one of `lines` starts with `prefix`.
pub open spec fn some_line_starts(lines: Seq<Seq<char>>, prefix: Seq<char>) -> bool {
    exists|i: int| 0 <= i < lines.len() && prefix.is_prefix_of(#[trigger] lines[i])
}

/// Whether one of `lines` starts with `prefix`.
pub fn any_line_starts(lines: &Vec<&[char]>, prefix: &str) -> (r: bool)
    ensures
        r == some_line_starts(pieces(lines@), prefix@),
{
    let mut i: usize = 0;
    while i < lines.len()
        invariant
            i <= lines@.len(),
            forall|k: int| 0 <= k < i ==> !prefix@.is_prefix_of(#[trigger] pieces(lines@)[k]),
        decreases lines@.len() - i,
    {
        assert(pieces(lines@)[i as int] == lines@[i as int]@);
        if starts_with(lines[i], prefix) {
            return true;
        }
        i += 1;
    }
    false
}

/// The decimal digit with the value `d`.
pub open spec fn digit(d: int) -> char {
    ('0' as u32 + d) as char
}

/// `n` in decimal, without leading zeros.
pub open spec fn decimal(n: nat) -> Seq<char>
    decreases n,
{
    if n < 10 {
        seq![digit(n as int)]
    } else {
        decimal(n / 10).push(digit((n % 10) as int))
    }
}

/// The digit with the value `d`, in base sixteen with letters from `a` or from `A`.
pub open spec fn hex_digit(d: int, upper: bool) -> char {
    if d < 10 {
        digit(d)
    } else if upper {
        ('A' as u32 + d - 10) as char
    } else {
        ('a' as u32 + d - 10) as char
    }
}

/// The digit with the value `d`.
fn hex_digit_char(d: u8, upper: bool) -> (c: char)
    requires
        d < 16,
    ensures
        c == hex_digit(d as int, upper),
{
    if d < 10 {
        ('0' as u8 + d) as char
    } else if upper {
        ('A' as u8 + (d - 10)) as char
    } else {
        ('a' as u8 + (d - 10)) as char
    }
}

/// `n` in decimal.
pub fn decimal_text(n: u64) -> (text: String)
    ensures
        text@ == decimal(n as nat),
    decreases n,
{
    if n < 10 {
        let mut text = String::new();
        text.push(hex_digit_char(n as u8, false));
        assert(text@ == decimal(n as nat));
        text
    } else {
        let mut text = decimal_text(n / 10);
        text.push(hex_digit_char((n % 10) as u8, false));
        text
    }
}

/// A byte as two digits of base sixteen.
pub open spec fn hex_byte(byte: u8, upper: bool) -> Seq<char> {
    seq![hex_digit(byte as int / 16, upper), hex_digit(byte as int % 16, upper)]
}

/// Bytes as digits of base sixteen, two for each.
pub open spec fn hex(bytes: Seq<u8>, upper: bool) -> Seq<char>
    decreases bytes.len(),
{
    if bytes.len() == 0 {
        Seq::empty()
    } else {
        hex(bytes.drop_last(), upper) + hex_byte(bytes.last(), upper)
    }
}

/// Bytes as digits of base sixteen.
pub fn hex_text(bytes: &[u8], upper: bool) -> (text: String)
    ensures
        text@ == hex(bytes@, upper),
{
    let mut text = String::new();
    let mut i: usize = 0;
    while i < bytes.len()
        invariant
            i <= bytes@.len(),
            text@ == hex(bytes@.take(i as int), upper),
        decreases bytes@.len() - i,
    {
        let ghost before = text@;
        text.push(hex_digit_char(bytes[i] / 16, upper));
        text.push(hex_digit_char(bytes[i] % 16, upper));
        assert(bytes@.take(i + 1).drop_last() == bytes@.take(i as int));
        assert(text@ == before + hex_byte(bytes@[i as int], upper));
        i += 1;
    }
    assert(bytes@.take(i as int) == bytes@);
    text
}

/// The value of a sequence of decimal digits.
pub open spec fn decimal_value(digits: Seq<char>) -> nat
    decreases digits.len(),
{
    if digits.len() == 0 {
        0
    } else {
        10 * decimal_value(digits.drop_last()) + (digits.last() as u32 - '0' as u32) as nat
    }
}

/// Whether `c` is a decimal digit of ASCII.
pub open spec fn ascii_digit(c: char) -> bool {
    '0' <= c <= '9'
}

/// Whether every character is a decimal digit of ASCII.
pub open spec fn all_digits(s: Seq<char>) -> bool {
    forall|i: int| 0 <= i < s.len() ==> ascii_digit(#[trigger] s[i])
}

/// Whether every character is a decimal digit of ASCII.
pub fn are_digits(chars: &[char]) -> (r: bool)
    ensures
        r == all_digits(chars@),
{
    let mut i: usize = 0;
    while i < chars.len()
        invariant
            i <= chars@.len(),
            forall|k: int| 0 <= k < i ==> ascii_digit(#[trigger] chars@[k]),
        decreases chars@.len() - i,
    {
        if !('0' <= chars[i] && chars[i] <= '9') {
            return false;
        }
        i += 1;
    }
    true
}

/// A longer run of digits has no smaller value.
proof fn lemma_decimal_value_grows(digits: Seq<char>, n: int)
    requires
        0 <= n <= digits.len(),
        all_digits(digits),
    ensures
        decimal_value(digits.take(n)) <= decimal_value(digits),
    decreases digits.len(),
{
    if n == digits.len() {
        assert(digits.take(n) == digits);
    } else {
        assert(digits.drop_last().take(n) == digits.take(n));
        lemma_decimal_value_grows(digits.drop_last(), n);
    }
}

/// The value of a run of digits, where it fits in 32 bits.
pub fn parse_digits(chars: &[char]) -> (value: Option<u32>)
    requires
        all_digits(chars@),
    ensures
        value == (if decimal_value(chars@) <= u32::MAX {
            Some(decimal_value(chars@) as u32)
        } else {
            None::<u32>
        }),
{
    let mut value: u32 = 0;
    let mut i: usize = 0;
    while i < chars.len()
        invariant
            i <= chars@.len(),
            all_digits(chars@),
            value == decimal_value(chars@.take(i as int)),
        decreases chars@.len() - i,
    {
        assert(chars@.take(i + 1).drop_last() == chars@.take(i as int));
        assert(ascii_digit(chars@[i as int]));
        let next: u64 = 10 * (value as u64) + (chars[i] as u32 - '0' as u32) as u64;
        assert(next == decimal_value(chars@.take(i + 1)));
        if next > u32::MAX as u64 {
            proof {
                lemma_decimal_value_grows(chars@, i + 1);
            }
            return None;
        }
        value = next as u32;
        i += 1;
    }
    assert(chars@.take(i as int) == chars@);
    Some(value)
}

/// Splitting is undone by putting the separator back: the runs of what stands before and behind a
/// separator are those of the two parts, and what holds no separator is one run.
pub proof fn law_splits_at_every_separator<T>(before: Seq<T>, separator: T, behind: Seq<T>)
    ensures
        split(before.push(separator) + behind, separator) == split(before, separator) + split(
            behind,
            separator,
        ),
        !before.contains(separator) ==> split(before, separator) == seq![before],
    decreases before.len(),
{
    let whole = before.push(separator) + behind;
    let n = first_index(before, separator);
    lemma_first_index_bounds(before, separator);
    if n < before.len() {
        assert(before.contains(separator));
        assert forall|k: int| 0 <= k < n implies whole[k] != separator by {
            assert(whole[k] == before[k]);
        }
        assert(whole[n] == before[n]);
        lemma_first_index(whole, separator, n);
        let rest = before.skip(n + 1);
        law_splits_at_every_separator(rest, separator, behind);
        assert(whole.take(n) == before.take(n));
        assert(whole.skip(n + 1) == rest.push(separator) + behind);
        assert(seq![before.take(n)] + (split(rest, separator) + split(behind, separator)) == seq![
            before.take(n),
        ] + split(rest, separator) + split(behind, separator));
    } else {
        assert forall|k: int| 0 <= k < n implies whole[k] != separator by {
            assert(whole[k] == before[k]);
        }
        lemma_first_index(whole, separator, n);
        assert(whole.take(n) == before);
        assert(whole.skip(n + 1) == behind);
    }
}

/// No run holds a separator, and every run is what stands between two separators, or an end and one.
pub proof fn law_runs_stand_between_separators<T>(s: Seq<T>, separator: T, i: int)
    requires
        0 <= i < split(s, separator).len(),
    ensures
        !split(s, separator)[i].contains(separator),
        exists|start: int, end: int|
            0 <= start <= end <= s.len() && #[trigger] s.subrange(start, end) == split(
                s,
                separator,
            )[i] && (start == 0 || s[start - 1] == separator) && (end == s.len() || s[end]
                == separator),
    decreases s.len(),
{
    let n = first_index(s, separator);
    lemma_first_index_bounds(s, separator);
    let run = split(s, separator)[i];
    if n < s.len() {
        if i == 0 {
            assert(s.subrange(0, n) == run);
            assert forall|k: int| 0 <= k < run.len() implies run[k] != separator by {
                assert(s[k] != separator);
            }
        } else {
            let rest = s.skip(n + 1);
            law_runs_stand_between_separators(rest, separator, i - 1);
            assert(run == split(rest, separator)[i - 1]);
            let (start, end) = choose|start: int, end: int|
                0 <= start <= end <= rest.len() && #[trigger] rest.subrange(start, end) == run && (
                start == 0 || rest[start - 1] == separator) && (end == rest.len() || rest[end]
                    == separator);
            assert(s.subrange(start + n + 1, end + n + 1) == rest.subrange(start, end));
            if start > 0 {
                assert(rest[start - 1] == s[start + n]);
            }
            if end < rest.len() {
                assert(rest[end] == s[end + n + 1]);
            }
        }
    } else {
        assert(s.subrange(0, s.len() as int) == s);
        assert(run == s);
        assert forall|k: int| 0 <= k < run.len() implies run[k] != separator by {
            assert(s[k] != separator);
        }
    }
}

/// What stands between two separators, or an end and one, is a run.
pub proof fn law_what_stands_between_separators_is_a_run<T>(
    s: Seq<T>,
    separator: T,
    start: int,
    end: int,
)
    requires
        0 <= start <= end <= s.len(),
        start == 0 || s[start - 1] == separator,
        end == s.len() || s[end] == separator,
        !s.subrange(start, end).contains(separator),
    ensures
        split(s, separator).contains(s.subrange(start, end)),
{
    let run = s.subrange(start, end);
    let tail = s.skip(start);
    if start > 0 {
        let before = s.take(start - 1);
        law_splits_at_every_separator(before, separator, tail);
        assert(before.push(separator) + tail == s);
    } else {
        assert(tail == s);
    }
    assert(split(tail, separator).contains(run)) by {
        if end < s.len() {
            law_splits_at_every_separator(run, separator, s.skip(end + 1));
            assert(run.push(separator) + s.skip(end + 1) == tail);
            assert((seq![run] + split(s.skip(end + 1), separator))[0] == run);
        } else {
            law_splits_at_every_separator(run, separator, Seq::empty());
            assert(tail == run);
            assert(seq![run][0] == run);
        }
    }
    let k = choose|k: int| 0 <= k < split(tail, separator).len() && split(tail, separator)[k] == run;
    if start > 0 {
        let head = split(s.take(start - 1), separator);
        assert((head + split(tail, separator))[head.len() + k] == run);
    } else {
        assert(split(s, separator)[k] == run);
    }
}

/// A text of one line or none, without its ending, and the lines that follow a newline: the line loses
/// a carriage return before the newline, and nothing else.
pub proof fn law_lines_end_at_newlines(line: Seq<char>, behind: Seq<char>)
    requires
        !line.contains('\n'),
    ensures
        line.len() > 0 && line.last() == '\r' ==> text_lines(line.push('\n') + behind) == seq![
            line.drop_last(),
        ] + text_lines(behind),
        line.len() == 0 || line.last() != '\r' ==> text_lines(line.push('\n') + behind) == seq![
            line,
        ] + text_lines(behind),
        line.len() > 0 ==> text_lines(line) == seq![line],
        text_lines(Seq::<char>::empty()) == Seq::<Seq<char>>::empty(),
{
    let whole = line.push('\n') + behind;
    assert forall|k: int| 0 <= k < line.len() implies whole[k] != '\n' by {
        assert(whole[k] == line[k]);
    }
    assert forall|k: int| 0 <= k < line.len() implies line[k] != '\n' by {}
    lemma_first_index(whole, '\n', line.len() as int);
    lemma_first_index(line, '\n', line.len() as int);
    assert(whole.take(line.len() as int) == line);
    assert(whole.skip(line.len() as int + 1) == behind);
}

/// Lines that end with a newline are those of the text on their own, with those of what follows.
pub proof fn law_lines_follow_each_other(before: Seq<char>, behind: Seq<char>)
    requires
        before.len() > 0 && before.last() == '\n',
    ensures
        text_lines(before + behind) == text_lines(before) + text_lines(behind),
    decreases before.len(),
{
    let n = first_index(before, '\n');
    lemma_first_index_bounds(before, '\n');
    assert(before[before.len() - 1] == '\n');
    let line = before.take(n);
    let rest = before.skip(n + 1);
    assert(!line.contains('\n')) by {
        assert forall|k: int| 0 <= k < line.len() implies line[k] != '\n' by {
            assert(before[k] != '\n');
        }
    }
    assert(line.push('\n') + rest == before);
    assert(line.push('\n') + (rest + behind) == before + behind);
    law_lines_end_at_newlines(line, rest);
    law_lines_end_at_newlines(line, rest + behind);
    if rest.len() > 0 {
        assert(rest.last() == '\n');
        law_lines_follow_each_other(rest, behind);
    } else {
        assert(rest + behind == behind);
        assert(text_lines(rest) == Seq::<Seq<char>>::empty());
    }
    let first = if line.len() > 0 && line.last() == '\r' {
        line.drop_last()
    } else {
        line
    };
    assert(seq![first] + (text_lines(rest) + text_lines(behind)) == seq![first] + text_lines(rest)
        + text_lines(behind));
}

/// No line holds a newline.
pub proof fn law_lines_hold_no_newline(s: Seq<char>, i: int)
    requires
        0 <= i < text_lines(s).len(),
    ensures
        !text_lines(s)[i].contains('\n'),
    decreases s.len(),
{
    let n = first_index(s, '\n');
    lemma_first_index_bounds(s, '\n');
    let line = text_lines(s)[i];
    if n < s.len() && i > 0 {
        law_lines_hold_no_newline(s.skip(n + 1), i - 1);
        assert(line == text_lines(s.skip(n + 1))[i - 1]);
    } else {
        assert forall|k: int| 0 <= k < line.len() implies line[k] != '\n' by {
            assert(line[k] == s[k]);
        }
    }
}

/// Words are told apart by what separates them alone: those before and behind a separator are those of
/// the two parts, what holds none is one word, and nothing is no word.
pub proof fn law_words_are_separated(
    before: Seq<char>,
    separator: char,
    behind: Seq<char>,
    ascii_only: bool,
)
    requires
        separates(separator, ascii_only),
    ensures
        words(before.push(separator) + behind, ascii_only) == words(before, ascii_only) + words(
            behind,
            ascii_only,
        ),
        before.len() > 0 && (forall|k: int|
            0 <= k < before.len() ==> !separates(#[trigger] before[k], ascii_only)) ==> words(
            before,
            ascii_only,
        ) == seq![before],
        words(Seq::<char>::empty(), ascii_only) == Seq::<Seq<char>>::empty(),
    decreases before.len(),
{
    let whole = before.push(separator) + behind;
    if before.len() == 0 {
        lemma_word_length(whole, ascii_only, 0);
        assert(whole.skip(1) == behind);
    } else {
        let n = word_length(before, ascii_only);
        lemma_word_length_bounds(before, ascii_only);
        assert forall|k: int| 0 <= k < n implies !separates(whole[k], ascii_only) by {
            assert(whole[k] == before[k]);
        }
        if n < before.len() {
            assert(whole[n] == before[n]);
        }
        lemma_word_length(whole, ascii_only, n);
        if n > 0 {
            let rest = before.skip(n);
            law_words_are_separated(rest, separator, behind, ascii_only);
            assert(whole.take(n) == before.take(n));
            assert(whole.skip(n) == rest.push(separator) + behind);
            assert(seq![before.take(n)] + (words(rest, ascii_only) + words(behind, ascii_only))
                == seq![before.take(n)] + words(rest, ascii_only) + words(behind, ascii_only));
            if n == before.len() {
                assert(rest == Seq::<char>::empty());
                assert(before.take(n) == before);
                assert(seq![before] + Seq::<Seq<char>>::empty() == seq![before]);
            }
        } else {
            let rest = before.skip(1);
            law_words_are_separated(rest, separator, behind, ascii_only);
            assert(whole.skip(1) == rest.push(separator) + behind);
        }
    }
}

proof fn lemma_word_length_bounds(s: Seq<char>, ascii_only: bool)
    ensures
        0 <= word_length(s, ascii_only) <= s.len(),
        forall|k: int|
            0 <= k < word_length(s, ascii_only) ==> !separates(#[trigger] s[k], ascii_only),
        word_length(s, ascii_only) < s.len() ==> separates(
            s[word_length(s, ascii_only)],
            ascii_only,
        ),
    decreases s.len(),
{
    if s.len() > 0 && !separates(s[0], ascii_only) {
        lemma_word_length_bounds(s.skip(1), ascii_only);
        assert forall|k: int| 0 <= k < word_length(s, ascii_only) implies !separates(
            #[trigger] s[k],
            ascii_only,
        ) by {
            if k > 0 {
                assert(s.skip(1)[k - 1] == s[k]);
            }
        }
    }
}

/// No word is empty or holds a separator.
pub proof fn law_words_hold_no_separator(s: Seq<char>, ascii_only: bool, i: int, k: int)
    requires
        0 <= i < words(s, ascii_only).len(),
    ensures
        words(s, ascii_only)[i].len() > 0,
        0 <= k < words(s, ascii_only)[i].len() ==> !separates(
            words(s, ascii_only)[i][k],
            ascii_only,
        ),
    decreases s.len(),
{
    let n = word_length(s, ascii_only);
    lemma_word_length_bounds(s, ascii_only);
    if n > 0 {
        if i > 0 {
            law_words_hold_no_separator(s.skip(n), ascii_only, i - 1, k);
            assert(words(s, ascii_only)[i] == words(s.skip(n), ascii_only)[i - 1]);
        } else if 0 <= k < n {
            assert(s.take(n)[k] == s[k]);
        }
    } else {
        law_words_hold_no_separator(s.skip(1), ascii_only, i, k);
    }
}

/// What separates words, by number: in ASCII tab, newline, form feed, carriage return and space, and
/// besides them what Unicode has for white space.
pub proof fn law_white_space_by_number(c: char)
    ensures
        separates(c, true) <==> seq![9u32, 10, 12, 13, 32].contains(c as u32),
        separates(c, false) <==> seq![
            9u32,
            10,
            11,
            12,
            13,
            32,
            133,
            160,
            5760,
            8192,
            8193,
            8194,
            8195,
            8196,
            8197,
            8198,
            8199,
            8200,
            8201,
            8202,
            8232,
            8233,
            8239,
            8287,
            12288,
        ].contains(c as u32),
        white_space(c) <==> separates(c, false),
{
    let n = c as u32;
    let ascii = seq![9u32, 10, 12, 13, 32];
    let all = seq![
        9u32,
        10,
        11,
        12,
        13,
        32,
        133,
        160,
        5760,
        8192,
        8193,
        8194,
        8195,
        8196,
        8197,
        8198,
        8199,
        8200,
        8201,
        8202,
        8232,
        8233,
        8239,
        8287,
        12288,
    ];
    if separates(c, true) {
        assert(ascii[0] == n || ascii[1] == n || ascii[2] == n || ascii[3] == n || ascii[4] == n);
    }
    if white_space(c) {
        if n <= 13 {
            assert(all[n - 9] == n);
        } else if 8192 <= n <= 8202 {
            assert(all[n - 8192 + 9] == n);
        } else {
            assert(all[5] == n || all[6] == n || all[7] == n || all[8] == n || all[20] == n || all[21]
                == n || all[22] == n || all[23] == n || all[24] == n);
        }
    }
}

/// Trimming takes white space off both ends, all of it and nothing else.
pub proof fn law_trimming_takes_white_space_off(s: Seq<char>) -> (ends: (int, int))
    ensures
        0 <= ends.0 <= ends.1 <= s.len(),
        trim(s) == s.subrange(ends.0, ends.1),
        forall|k: int| 0 <= k < s.len() && !(ends.0 <= k < ends.1) ==> white_space(#[trigger] s[k]),
        trim(s).len() > 0 ==> !white_space(trim(s)[0]) && !white_space(trim(s).last()),
{
    let start = lemma_trim_start(s);
    let inner = trim_start(s);
    let end = lemma_trim_end(inner);
    assert(trim(s) == s.subrange(start, start + end));
    assert forall|k: int| 0 <= k < s.len() && !(start <= k < start + end) implies white_space(
        #[trigger] s[k],
    ) by {
        if k >= start {
            assert(inner[k - start] == s[k]);
        }
    }
    if trim(s).len() > 0 {
        assert(trim(s)[0] == inner[0]);
    }
    (start, start + end)
}

proof fn lemma_trim_start(s: Seq<char>) -> (start: int)
    ensures
        0 <= start <= s.len(),
        trim_start(s) == s.skip(start),
        forall|k: int| 0 <= k < start ==> white_space(#[trigger] s[k]),
        start < s.len() ==> !white_space(s[start]),
    decreases s.len(),
{
    if s.len() > 0 && white_space(s[0]) {
        let start = lemma_trim_start(s.skip(1));
        assert(s.skip(1).skip(start) == s.skip(start + 1));
        assert forall|k: int| 0 <= k < start + 1 implies white_space(#[trigger] s[k]) by {
            if k > 0 {
                assert(s.skip(1)[k - 1] == s[k]);
            }
        }
        start + 1
    } else {
        assert(s.skip(0) == s);
        0
    }
}

proof fn lemma_trim_end(s: Seq<char>) -> (end: int)
    ensures
        0 <= end <= s.len(),
        trim_end(s) == s.take(end),
        forall|k: int| end <= k < s.len() ==> white_space(#[trigger] s[k]),
        end > 0 ==> !white_space(s[end - 1]),
    decreases s.len(),
{
    if s.len() > 0 && white_space(s.last()) {
        let end = lemma_trim_end(s.drop_last());
        assert(s.drop_last().take(end) == s.take(end));
        assert forall|k: int| end <= k < s.len() implies white_space(#[trigger] s[k]) by {
            if k < s.len() - 1 {
                assert(s.drop_last()[k] == s[k]);
            }
        }
        if end > 0 {
            assert(s.drop_last()[end - 1] == s[end - 1]);
        }
        end
    } else {
        assert(s.take(s.len() as int) == s);
        s.len() as int
    }
}

/// Whether the elements of `needle` stand in `s` one after the other, the first of them at `i`.
pub open spec fn elements_stand_at<T>(s: Seq<T>, needle: Seq<T>, i: int) -> bool {
    0 <= i <= s.len() - needle.len() && forall|k: int|
        0 <= k < needle.len() ==> s[i + k] == #[trigger] needle[k]
}

/// A text occurs wherever its elements stand one after the other, and nowhere else.
pub proof fn law_occurring_is_element_by_element<T>(s: Seq<T>, needle: Seq<T>)
    ensures
        occurs(s, needle) <==> exists|i: int| elements_stand_at(s, needle, i),
{
    if occurs(s, needle) {
        let i = choose|i: int| occurs_at(s, needle, i);
        assert forall|k: int| 0 <= k < needle.len() implies s[i + k] == #[trigger] needle[k] by {
            assert(s.subrange(i, i + needle.len())[k] == s[i + k]);
        }
        assert(elements_stand_at(s, needle, i));
    }
    if exists|i: int| elements_stand_at(s, needle, i) {
        let i = choose|i: int| elements_stand_at(s, needle, i);
        assert(s.subrange(i, i + needle.len()) == needle);
        assert(occurs_at(s, needle, i));
    }
}

/// A text occurs in all that holds it.
pub proof fn law_what_is_held_occurs<T>(before: Seq<T>, needle: Seq<T>, behind: Seq<T>)
    ensures
        occurs(before + needle + behind, needle),
{
    let whole = before + needle + behind;
    assert(whole.subrange(before.len() as int, (before.len() + needle.len()) as int) == needle);
    assert(occurs_at(whole, needle, before.len() as int));
}

/// The last occurrence is one, and none follows it; without one there is none.
pub proof fn law_last_occurrence_is_last<T>(s: Seq<T>, needle: Seq<T>, i: int)
    ensures
        last_occurrence(s, needle) == -1 || occurs_at(s, needle, last_occurrence(s, needle)),
        occurs_at(s, needle, i) ==> i <= last_occurrence(s, needle),
    decreases s.len(),
{
    let n = s.len() - needle.len();
    if needle.is_suffix_of(s) {
        assert(s.subrange(n, n + needle.len()) == needle);
    } else if s.len() > 0 {
        let rest = s.drop_last();
        law_last_occurrence_is_last(rest, needle, i);
        let last = last_occurrence(rest, needle);
        if occurs_at(rest, needle, last) {
            assert(s.subrange(last, last + needle.len()) == rest.subrange(
                last,
                last + needle.len(),
            ));
        }
        if occurs_at(s, needle, i) {
            assert(i != n);
            assert(s.subrange(i, i + needle.len()) == rest.subrange(i, i + needle.len()));
        }
    } else if occurs_at(s, needle, i) {
        assert(s.subrange(i, i + needle.len()) == s);
    }
}

/// What follows a prefix in the first line that has it is found, whatever the lines behind it hold.
pub proof fn law_first_line_with_the_prefix_counts(
    before: Seq<Seq<char>>,
    prefix: Seq<char>,
    value: Seq<char>,
    behind: Seq<Seq<char>>,
)
    requires
        forall|i: int| 0 <= i < before.len() ==> !prefix.is_prefix_of(#[trigger] before[i]),
    ensures
        first_after(before.push(prefix + value) + behind, prefix) == Some(value),
        first_after(before, prefix) is None,
    decreases before.len(),
{
    let whole = before.push(prefix + value) + behind;
    if before.len() == 0 {
        assert(whole[0] == prefix + value);
        assert((prefix + value).subrange(0, prefix.len() as int) == prefix);
        assert((prefix + value).skip(prefix.len() as int) == value);
    } else {
        assert(whole[0] == before[0]);
        assert(whole.skip(1) == before.skip(1).push(prefix + value) + behind);
        law_first_line_with_the_prefix_counts(before.skip(1), prefix, value, behind);
    }
}

/// What is found behind a prefix stands behind it in a line.
pub proof fn law_found_values_stand_in_a_line(lines: Seq<Seq<char>>, prefix: Seq<char>)
    ensures
        match first_after(lines, prefix) {
            Some(value) => lines.contains(prefix + value),
            None => forall|i: int| 0 <= i < lines.len() ==> !prefix.is_prefix_of(#[trigger] lines[i]),
        },
        some_line_starts(lines, prefix) <==> first_after(lines, prefix) is Some,
    decreases lines.len(),
{
    if lines.len() > 0 {
        let rest = lines.skip(1);
        law_found_values_stand_in_a_line(rest, prefix);
        if prefix.is_prefix_of(lines[0]) {
            assert(prefix + lines[0].skip(prefix.len() as int) == lines[0]);
        } else {
            match first_after(rest, prefix) {
                Some(value) => {
                    let i = choose|i: int| 0 <= i < rest.len() && rest[i] == prefix + value;
                    assert(lines[i + 1] == rest[i]);
                    assert((prefix + value).subrange(0, prefix.len() as int) == prefix);
                },
                None => {
                    assert forall|i: int| 0 <= i < lines.len() implies !prefix.is_prefix_of(
                        #[trigger] lines[i],
                    ) by {
                        if i > 0 {
                            assert(rest[i - 1] == lines[i]);
                        }
                    }
                },
            }
        }
    }
}

/// A number in decimal is read back as the number, and starts with no zero but for zero itself.
pub proof fn law_decimals_are_read_back(n: nat)
    ensures
        decimal_value(decimal(n)) == n,
        all_digits(decimal(n)),
        decimal(n).len() > 0,
        n > 0 ==> decimal(n)[0] != '0',
    decreases n,
{
    if n < 10 {
        assert(decimal(n).drop_last() == Seq::<char>::empty());
        assert(decimal_value(Seq::<char>::empty()) == 0);
    } else {
        law_decimals_are_read_back(n / 10);
        let head = decimal(n / 10);
        assert(decimal(n).drop_last() == head);
        assert(decimal(n)[0] == head[0]);
        assert forall|i: int| 0 <= i < decimal(n).len() implies ascii_digit(
            #[trigger] decimal(n)[i],
        ) by {
            if i < head.len() {
                assert(decimal(n)[i] == head[i]);
            }
        }
    }
}

/// A digit counts ten times what one behind it counts.
pub proof fn law_digits_count_by_tens(head: Seq<char>, c: char)
    requires
        '0' <= c <= '9',
    ensures
        decimal_value(head.push(c)) == 10 * decimal_value(head) + (c as u32 - 48),
        all_digits(head.push(c)) == all_digits(head),
{
    assert(head.push(c).drop_last() == head);
    if all_digits(head) {
        assert forall|i: int| 0 <= i < head.push(c).len() implies ascii_digit(
            #[trigger] head.push(c)[i],
        ) by {
            if i < head.len() {
                assert(head.push(c)[i] == head[i]);
            }
        }
    }
    if all_digits(head.push(c)) {
        assert forall|i: int| 0 <= i < head.len() implies ascii_digit(#[trigger] head[i]) by {
            assert(head.push(c)[i] == head[i]);
        }
    }
}

/// Each byte stands as two digits, the high one first.
pub proof fn law_bytes_are_two_digits(bytes: Seq<u8>, upper: bool, i: int)
    requires
        0 <= i < bytes.len(),
    ensures
        hex(bytes, upper).len() == 2 * bytes.len(),
        hex(bytes, upper)[2 * i] == hex_digit(bytes[i] as int / 16, upper),
        hex(bytes, upper)[2 * i + 1] == hex_digit(bytes[i] as int % 16, upper),
    decreases bytes.len(),
{
    let rest = bytes.drop_last();
    if rest.len() > 0 {
        law_bytes_are_two_digits(rest, upper, if i < rest.len() {
            i
        } else {
            0
        });
    }
    assert(hex(rest, upper).len() == 2 * rest.len());
}

/// The sixteen digits, in their order.
pub proof fn law_digits_by_value(d: int)
    requires
        0 <= d < 16,
    ensures
        hex_digit(d, false) == "0123456789abcdef"@[d],
        hex_digit(d, true) == "0123456789ABCDEF"@[d],
{
    reveal_strlit("0123456789abcdef");
    reveal_strlit("0123456789ABCDEF");
}

/// What is wanted is kept.
pub proof fn lemma_wanted_is_kept<T>(items: Seq<T>, wanted: spec_fn(T) -> bool, i: int)
    requires
        0 <= i < items.len(),
        wanted(items[i]),
    ensures
        items.filter(wanted).len() > 0,
        items.filter(wanted).contains(items[i]),
    decreases items.len(),
{
    reveal(Seq::filter);
    let rest = items.drop_last();
    if i == rest.len() {
        assert(items.filter(wanted).last() == items[i]);
    } else {
        assert(rest[i] == items[i]);
        lemma_wanted_is_kept(rest, wanted, i);
        let kept = rest.filter(wanted);
        let k = choose|k: int| 0 <= k < kept.len() && kept[k] == items[i];
        assert(items.filter(wanted)[k] == items[i]);
    }
}

/// What is kept is wanted, and one of the items.
pub proof fn lemma_kept_is_wanted<T>(items: Seq<T>, wanted: spec_fn(T) -> bool, k: int) -> (i: int)
    requires
        0 <= k < items.filter(wanted).len(),
    ensures
        0 <= i < items.len(),
        items[i] == items.filter(wanted)[k],
        wanted(items[i]),
    decreases items.len(),
{
    reveal(Seq::filter);
    let rest = items.drop_last();
    if k < rest.filter(wanted).len() {
        let i = lemma_kept_is_wanted(rest, wanted, k);
        assert(items[i] == rest[i]);
        i
    } else {
        items.len() - 1
    }
}

/// Just one item is kept where just one is wanted.
pub proof fn lemma_one_is_kept<T>(items: Seq<T>, wanted: spec_fn(T) -> bool, i: int)
    requires
        0 <= i < items.len(),
        wanted(items[i]),
        forall|j: int| 0 <= j < items.len() && j != i ==> !wanted(#[trigger] items[j]),
    ensures
        items.filter(wanted) == seq![items[i]],
    decreases items.len(),
{
    reveal(Seq::filter);
    let rest = items.drop_last();
    if i == rest.len() {
        assert forall|j: int| 0 <= j < rest.len() implies !wanted(#[trigger] rest[j]) by {
            assert(rest[j] == items[j]);
        }
        lemma_none_is_kept(rest, wanted);
    } else {
        assert forall|j: int| 0 <= j < rest.len() && j != i implies !wanted(#[trigger] rest[j]) by {
            assert(rest[j] == items[j]);
        }
        assert(rest[i] == items[i]);
        assert(items[items.len() - 1] == items.last());
        lemma_one_is_kept(rest, wanted, i);
    }
}

/// Nothing is kept where nothing is wanted.
pub proof fn lemma_none_is_kept<T>(items: Seq<T>, wanted: spec_fn(T) -> bool)
    requires
        forall|j: int| 0 <= j < items.len() ==> !wanted(#[trigger] items[j]),
    ensures
        items.filter(wanted) == Seq::<T>::empty(),
    decreases items.len(),
{
    reveal(Seq::filter);
    if items.len() > 0 {
        let rest = items.drop_last();
        assert forall|j: int| 0 <= j < rest.len() implies !wanted(#[trigger] rest[j]) by {
            assert(rest[j] == items[j]);
        }
        assert(items[items.len() - 1] == items.last());
        lemma_none_is_kept(rest, wanted);
    }
}

/// Two are kept where two are wanted.
pub proof fn lemma_two_are_kept<T>(items: Seq<T>, wanted: spec_fn(T) -> bool, i: int, j: int)
    requires
        0 <= i < j < items.len(),
        wanted(items[i]),
        wanted(items[j]),
    ensures
        items.filter(wanted).len() >= 2,
    decreases items.len(),
{
    reveal(Seq::filter);
    let rest = items.drop_last();
    if j == rest.len() {
        assert(rest[i] == items[i]);
        lemma_wanted_is_kept(rest, wanted, i);
    } else {
        assert(rest[i] == items[i] && rest[j] == items[j]);
        lemma_two_are_kept(rest, wanted, i, j);
    }
}

} // verus!
