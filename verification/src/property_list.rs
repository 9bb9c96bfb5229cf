//! Property lists, as the `plist` crate reads and writes them.

use vstd::prelude::*;
use vstd::slice::slice_subrange;
use vstd::utf8::{encode_utf8, is_ascii_chars_encode_utf8};

use crate::bytes::same_bytes;
use crate::text::{join3, maybe_string};

verus! {

/// A value of the `plist` crate.
#[verifier::external_type_specification]
#[verifier::external_body]
pub struct PlistValue(plist::Value);

/// A dictionary of the `plist` crate.
#[verifier::external_type_specification]
#[verifier::external_body]
pub struct PlistDictionary(plist::Dictionary);

/// A moment, by its distance from the start of the year 1970 in UTC.
#[derive(Clone, Copy, Debug, PartialEq, Eq, Structural)]
pub struct Moment {
    /// Whether the moment is not before that start.
    pub after: bool,
    pub seconds: u64,
    pub nanoseconds: u32,
}

/// What a value of a property list holds.
#[verifier::ext_equal]
pub enum Item {
    Text(Seq<char>),
    Flag(bool),
    Integer(int),
    /// A number with a fraction, by the bits of its IEEE 754 form.
    Real(u64),
    Data(Seq<u8>),
    Date(Moment),
    List(Seq<Item>),
    Table(Seq<(Seq<char>, Item)>),
    /// A reference by number, as archives of objects hold it.
    Uid(u64),
}

/// What a value holds.
pub uninterp spec fn item(value: plist::Value) -> Item;

/// The entries of a dictionary, in their order. No two of them have one name.
pub uninterp spec fn entries(dictionary: plist::Dictionary) -> Seq<(Seq<char>, Item)>;

/// The XML that the `plist` crate writes for a value, or the text of its error.
pub uninterp spec fn xml(item: Item) -> Result<Seq<u8>, Seq<char>>;

/// What the `plist` crate reads in bytes: a value, or the texts of its error and of its cause.
pub uninterp spec fn property_list(bytes: Seq<u8>) -> Result<
    Item,
    (Seq<char>, Option<Seq<char>>),
>;

/// The last day before the year 10000. A date of that day with a negative offset can lie beyond it.
pub const LAST_DAY: &'static str = "9999-12-31";

/// How a property list in binary form starts.
pub const BINARY_START: &'static str = "bplist00";

/// Where the first `>` stands that is in no quotes, or, with `bracket`, the first `[` before it.
pub open spec fn unquoted(bytes: Seq<u8>, at: int, quote: Option<u8>, bracket: bool) -> int
    decreases bytes.len() - at,
{
    if at >= bytes.len() {
        bytes.len() as int
    } else if quote is Some {
        unquoted(
            bytes,
            at + 1,
            if bytes[at] == quote->Some_0 {
                None
            } else {
                quote
            },
            bracket,
        )
    } else if bytes[at] == '>' as u8 || bracket && bytes[at] == '[' as u8 {
        at
    } else if bytes[at] == '\'' as u8 || bytes[at] == '"' as u8 {
        unquoted(bytes, at + 1, Some(bytes[at]), bracket)
    } else {
        unquoted(bytes, at + 1, None, bracket)
    }
}

/// Whether a byte is white space in XML.
pub open spec fn is_space(byte: u8) -> bool {
    byte == ' ' as u8 || byte == '\t' as u8 || byte == '\r' as u8 || byte == '\n' as u8
}

/// Where the word ends that starts at `at`, in bytes up to `end`.
pub open spec fn word_end(bytes: Seq<u8>, at: int, end: int) -> int
    decreases end - at,
{
    if at >= end || is_space(bytes[at]) {
        at
    } else {
        word_end(bytes, at + 1, end)
    }
}

/// Whether an element with this name is a date, in whatever namespace.
pub open spec fn names_date(name: Seq<u8>) -> bool {
    ||| name == encode_utf8("date"@)
    ||| name.len() >= 5 && name.skip(name.len() - 5) == encode_utf8(":date"@)
}

/// Whether the tag of a date element starts at `start`. One that closes its element at once, with a
/// `/`, is none.
pub open spec fn opens_date(bytes: Seq<u8>, start: int) -> bool {
    let end = unquoted(bytes, start + 1, None, false);
    &&& 0 <= start < bytes.len()
    &&& bytes[start] == '<' as u8
    &&& start + 1 < end < bytes.len()
    &&& bytes[start + 1] != '/' as u8 && bytes[start + 1] != '!' as u8 && bytes[start + 1]
        != '?' as u8
    &&& bytes[end - 1] != '/' as u8
    &&& names_date(bytes.subrange(start + 1, word_end(bytes, start + 1, end)))
}

/// Just past the first `>` at `from` or later that follows `tail`.
pub open spec fn past_tail(bytes: Seq<u8>, from: int, tail: Seq<u8>) -> int
    decreases bytes.len() - from,
{
    if from >= bytes.len() {
        bytes.len() as int
    } else if bytes[from] == '>' as u8 && tail.len() <= from && bytes.subrange(
        from - tail.len(),
        from,
    ) == tail {
        from + 1
    } else {
        past_tail(bytes, from + 1, tail)
    }
}

/// Where the markup ends that starts at `start`: a comment, a CDATA section, an instruction, a document
/// type or a tag. What a document type declares in brackets is not looked into.
pub open spec fn markup_end(bytes: Seq<u8>, start: int) -> Option<int> {
    if start + 2 >= bytes.len() {
        Some(bytes.len() as int)
    } else if bytes[start + 1] == '?' as u8 {
        Some(past_tail(bytes, start + 2, encode_utf8("?"@)))
    } else if bytes[start + 1] == '!' as u8 && bytes[start + 2] == '-' as u8 {
        Some(past_tail(bytes, start + 6, encode_utf8("--"@)))
    } else if bytes[start + 1] == '!' as u8 && bytes[start + 2] == '[' as u8 {
        Some(past_tail(bytes, start + 5, encode_utf8("]]"@)))
    } else {
        let end = unquoted(bytes, start + 1, None, bytes[start + 1] == '!' as u8);
        if end >= bytes.len() {
            Some(bytes.len() as int)
        } else if bytes[end] == '>' as u8 {
            Some(end + 1)
        } else {
            None
        }
    }
}

/// Where a reference ends whose name starts at `at`: at a `;`, or where no reference can go on.
pub open spec fn reference_end(bytes: Seq<u8>, at: int) -> int
    decreases bytes.len() - at,
{
    if at >= bytes.len() || bytes[at] == ';' as u8 || bytes[at] == '&' as u8 || bytes[at]
        == '<' as u8 {
        at
    } else {
        reference_end(bytes, at + 1)
    }
}

/// What a digit stands for.
pub open spec fn digit(byte: u8, hexadecimal: bool) -> Option<int> {
    if '0' as u8 <= byte <= '9' as u8 {
        Some(byte - '0' as u8)
    } else if hexadecimal && 'a' as u8 <= byte <= 'f' as u8 {
        Some(byte - 'a' as u8 + 10)
    } else if hexadecimal && 'A' as u8 <= byte <= 'F' as u8 {
        Some(byte - 'A' as u8 + 10)
    } else {
        None
    }
}

/// The number that digits write.
pub open spec fn number(digits: Seq<u8>, hexadecimal: bool) -> Option<int>
    decreases digits.len(),
{
    if digits.len() == 0 {
        Some(0)
    } else {
        match (number(digits.drop_last(), hexadecimal), digit(digits.last(), hexadecimal)) {
            (Some(high), Some(low)) => Some(
                (if hexadecimal {
                    16 * high
                } else {
                    10 * high
                }) + low,
            ),
            _ => None,
        }
    }
}

/// The number of the character that a reference names by number.
pub open spec fn referred_number(name: Seq<u8>) -> Option<int> {
    if name.len() > 0 && name[0] == 'x' as u8 {
        number(name.skip(1), true)
    } else {
        number(name, false)
    }
}

/// Whether a name is one of the five that XML itself has.
pub open spec fn is_entity(name: Seq<u8>) -> bool {
    ||| name == encode_utf8("lt"@)
    ||| name == encode_utf8("gt"@)
    ||| name == encode_utf8("amp"@)
    ||| name == encode_utf8("apos"@)
    ||| name == encode_utf8("quot"@)
}

/// What a reference adds to the text of a date: an ASCII character by its number, zero for another
/// character, of which a date holds none but as the mark between day and time, and nothing for a name
/// that is not known.
pub open spec fn referred(name: Seq<u8>) -> Seq<u8> {
    if name.len() > 0 && name[0] == '#' as u8 {
        match referred_number(name.skip(1)) {
            Some(n) => if n < 128 {
                seq![n as u8]
            } else {
                seq![0u8]
            },
            None => seq![0u8],
        }
    } else if is_entity(name) {
        seq![0u8]
    } else {
        Seq::empty()
    }
}

/// The number that two decimal digits write.
pub open spec fn two_digits(text: Seq<u8>, at: int) -> Option<int> {
    match (digit(text[at], false), digit(text[at + 1], false)) {
        (Some(high), Some(low)) => Some(10 * high + low),
        _ => None,
    }
}

/// The minutes in hours and minutes of two digits each, with one character between them.
pub open spec fn minutes(text: Seq<u8>, at: int) -> Option<int> {
    match (two_digits(text, at), two_digits(text, at + 3)) {
        (Some(hours), Some(minutes)) => Some(60 * hours + minutes),
        _ => None,
    }
}

/// Whether a text is a date beyond the year 9999 in UTC, where it is a date at all.
pub open spec fn is_far(text: Seq<u8>) -> bool {
    &&& text.len() >= 25
    &&& encode_utf8(LAST_DAY@).is_prefix_of(text)
    &&& text[text.len() - 6] == '-' as u8
    &&& match (minutes(text, 11), minutes(text, text.len() - 5)) {
        (Some(time), Some(offset)) => time + offset >= 1440,
        _ => false,
    }
}

/// Whether an element of which `text` has been read before `at` is a date beyond the year 9999. Its
/// text is all that stands before its end tag, with its references resolved, and without comments,
/// CDATA sections, instructions and document types.
pub open spec fn ends_far(bytes: Seq<u8>, at: int, text: Seq<u8>) -> bool
    decreases bytes.len() - at,
{
    if at < 0 || at >= bytes.len() {
        false
    } else if bytes[at] == '&' as u8 {
        let end = reference_end(bytes, at + 1);
        at < end < bytes.len() && bytes[end] == ';' as u8 && ends_far(
            bytes,
            end + 1,
            text + referred(bytes.subrange(at + 1, end)),
        )
    } else if bytes[at] != '<' as u8 {
        ends_far(bytes, at + 1, text.push(bytes[at]))
    } else if at + 1 >= bytes.len() {
        false
    } else if bytes[at + 1] == '/' as u8 {
        is_far(text)
    } else if bytes[at + 1] == '?' as u8 || bytes[at + 1] == '!' as u8 {
        match markup_end(bytes, at) {
            Some(end) => at < end < bytes.len() && ends_far(bytes, end, text),
            None => true,
        }
    } else {
        false
    }
}

/// Whether a date element whose tag starts at `start` is a date beyond the year 9999.
pub open spec fn opens_far_date(bytes: Seq<u8>, start: int) -> bool {
    opens_date(bytes, start) && ends_far(
        bytes,
        unquoted(bytes, start + 1, None, false) + 1,
        Seq::empty(),
    )
}

/// Whether a date beyond the year 9999 can stand at `at` or later, where no markup has begun at `at`.
/// Behind a document type that declares something, it can stand anywhere.
pub open spec fn far_date_follows(bytes: Seq<u8>, at: int) -> bool
    decreases bytes.len() - at,
{
    if at < 0 || at >= bytes.len() {
        false
    } else if bytes[at] != '<' as u8 {
        far_date_follows(bytes, at + 1)
    } else {
        opens_far_date(bytes, at) || match markup_end(bytes, at) {
            Some(end) => at < end < bytes.len() && far_date_follows(bytes, end),
            None => exists|start: int| at < start && #[trigger] opens_far_date(bytes, start),
        }
    }
}

/// Whether a document in XML can hold a date beyond the year 9999.
pub open spec fn can_hold_far_date(bytes: Seq<u8>) -> bool {
    !encode_utf8(BINARY_START@).is_prefix_of(bytes) && far_date_follows(bytes, 0)
}

/// Where the first `>`, or bracket, in no quotes stands.
fn find_unquoted(bytes: &[u8], start: usize, bracket: bool) -> (end: usize)
    requires
        start <= bytes@.len(),
    ensures
        start <= end <= bytes@.len(),
        end == unquoted(bytes@, start as int, None, bracket),
        end < bytes@.len() ==> bytes@[end as int] == '>' as u8 || bytes@[end as int] == '[' as u8,
{
    let mut i = start;
    let mut quote: Option<u8> = None;
    while i < bytes.len()
        invariant
            start <= i <= bytes@.len(),
            unquoted(bytes@, start as int, None, bracket) == unquoted(
                bytes@,
                i as int,
                quote,
                bracket,
            ),
        decreases bytes@.len() - i,
    {
        let byte = bytes[i];
        match quote {
            Some(mark) => {
                if byte == mark {
                    quote = None;
                }
            },
            None => {
                if byte == '>' as u8 || bracket && byte == '[' as u8 {
                    return i;
                }
                if byte == '\'' as u8 || byte == '"' as u8 {
                    quote = Some(byte);
                }
            },
        }
        i += 1;
    }
    i
}

/// Where a word ends.
fn find_word_end(bytes: &[u8], start: usize, end: usize) -> (word: usize)
    requires
        start <= end <= bytes@.len(),
    ensures
        start <= word <= end,
        word == word_end(bytes@, start as int, end as int),
{
    let mut i = start;
    while i < end
        invariant
            start <= i <= end <= bytes@.len(),
            word_end(bytes@, start as int, end as int) == word_end(bytes@, i as int, end as int),
        decreases end - i,
    {
        let byte = bytes[i];
        if byte == ' ' as u8 || byte == '\t' as u8 || byte == '\r' as u8 || byte == '\n' as u8 {
            return i;
        }
        i += 1;
    }
    i
}

/// Just past the first `>` that follows `tail`.
fn find_past_tail(bytes: &[u8], from: usize, tail: &[u8]) -> (end: usize)
    requires
        from <= bytes@.len(),
    ensures
        from <= end <= bytes@.len(),
        end == past_tail(bytes@, from as int, tail@),
{
    let mut i = from;
    while i < bytes.len()
        invariant
            from <= i <= bytes@.len(),
            past_tail(bytes@, from as int, tail@) == past_tail(bytes@, i as int, tail@),
        decreases bytes@.len() - i,
    {
        if bytes[i] == '>' as u8 && tail.len() <= i && same_bytes(
            slice_subrange(bytes, i - tail.len(), i),
            tail,
        ) {
            return i + 1;
        }
        i += 1;
    }
    i
}

/// Where markup ends.
fn find_markup_end(bytes: &[u8], start: usize) -> (end: Option<usize>)
    requires
        start < bytes@.len(),
    ensures
        match end {
            Some(end) => start < end <= bytes@.len() && markup_end(bytes@, start as int) == Some(
                end as int,
            ),
            None => markup_end(bytes@, start as int) is None,
        },
{
    let length = bytes.len();
    let rest = length - start;
    if rest <= 2 {
        return Some(length);
    }
    let declares = bytes[start + 1] == '!' as u8;
    if bytes[start + 1] == '?' as u8 {
        return Some(find_past_tail(bytes, start + 2, "?".as_bytes()));
    }
    if declares && bytes[start + 2] == '-' as u8 {
        return Some(
            if rest <= 6 {
                length
            } else {
                find_past_tail(bytes, start + 6, "--".as_bytes())
            },
        );
    }
    if declares && bytes[start + 2] == '[' as u8 {
        return Some(
            if rest <= 5 {
                length
            } else {
                find_past_tail(bytes, start + 5, "]]".as_bytes())
            },
        );
    }
    let end = find_unquoted(bytes, start + 1, declares);
    if end >= length {
        Some(length)
    } else if bytes[end] == '>' as u8 {
        Some(end + 1)
    } else {
        None
    }
}

/// Where a reference ends.
fn find_reference_end(bytes: &[u8], start: usize) -> (end: usize)
    requires
        start <= bytes@.len(),
    ensures
        start <= end <= bytes@.len(),
        end == reference_end(bytes@, start as int),
{
    let mut i = start;
    while i < bytes.len()
        invariant
            start <= i <= bytes@.len(),
            reference_end(bytes@, start as int) == reference_end(bytes@, i as int),
        decreases bytes@.len() - i,
    {
        if bytes[i] == ';' as u8 || bytes[i] == '&' as u8 || bytes[i] == '<' as u8 {
            return i;
        }
        i += 1;
    }
    i
}

/// Whether `prefix` is how `bytes` start.
fn starts_with_bytes(bytes: &[u8], prefix: &[u8]) -> (r: bool)
    ensures
        r == prefix@.is_prefix_of(bytes@),
{
    if prefix.len() > bytes.len() {
        return false;
    }
    let start = slice_subrange(bytes, 0, prefix.len());
    let r = same_bytes(start, prefix);
    proof {
        if r {
            assert(prefix@.is_prefix_of(bytes@));
        } else if prefix@.is_prefix_of(bytes@) {
            assert(start@ =~= prefix@);
        }
    }
    r
}

/// Whether an element with this name is a date.
fn is_date_name(name: &[u8]) -> (r: bool)
    ensures
        r == names_date(name@),
{
    if same_bytes(name, "date".as_bytes()) {
        return true;
    }
    if name.len() < 5 {
        return false;
    }
    let tail = slice_subrange(name, name.len() - 5, name.len());
    assert(tail@ == name@.skip(name@.len() - 5));
    same_bytes(tail, ":date".as_bytes())
}

/// What a digit stands for.
fn read_digit(byte: u8, hexadecimal: bool) -> (value: Option<u8>)
    ensures
        match value {
            Some(value) => digit(byte, hexadecimal) == Some(value as int) && value < 16,
            None => digit(byte, hexadecimal) is None,
        },
        !hexadecimal && value is Some ==> value->Some_0 < 10,
{
    if '0' as u8 <= byte && byte <= '9' as u8 {
        Some(byte - '0' as u8)
    } else if hexadecimal && 'a' as u8 <= byte && byte <= 'f' as u8 {
        Some(byte - 'a' as u8 + 10)
    } else if hexadecimal && 'A' as u8 <= byte && byte <= 'F' as u8 {
        Some(byte - 'A' as u8 + 10)
    } else {
        None
    }
}

/// The number that digits write, or zero where it is no number below 128.
fn read_number(digits: &[u8], hexadecimal: bool) -> (value: u8)
    ensures
        match number(digits@, hexadecimal) {
            Some(n) => value == (if n < 128 {
                n
            } else {
                0
            }),
            None => value == 0,
        },
{
    let mut value: u16 = 0;
    let mut i: usize = 0;
    assert(digits@.take(0) == Seq::<u8>::empty());
    while i < digits.len()
        invariant
            i <= digits@.len(),
            value <= 2047,
            match number(digits@.take(i as int), hexadecimal) {
                Some(n) => n >= 0 && (if n < 128 {
                    value == n
                } else {
                    value >= 128
                }),
                None => false,
            },
        decreases digits@.len() - i,
    {
        assert(digits@.take(i + 1).drop_last() == digits@.take(i as int));
        match read_digit(digits[i], hexadecimal) {
            None => {
                proof {
                    lemma_number_stays_none(digits@, i + 1, hexadecimal);
                }
                return 0;
            },
            Some(low) => {
                if value < 128 {
                    value = if hexadecimal {
                        16 * value + low as u16
                    } else {
                        10 * value + low as u16
                    };
                }
            },
        }
        i += 1;
    }
    assert(digits@.take(digits@.len() as int) == digits@);
    if value < 128 {
        value as u8
    } else {
        0
    }
}

/// What starts with no number is none.
proof fn lemma_number_stays_none(digits: Seq<u8>, i: int, hexadecimal: bool)
    requires
        0 <= i <= digits.len(),
        number(digits.take(i), hexadecimal) is None,
    ensures
        number(digits, hexadecimal) is None,
    decreases digits.len() - i,
{
    if i == digits.len() {
        assert(digits.take(i) == digits);
    } else {
        assert(digits.take(i + 1).drop_last() == digits.take(i));
        lemma_number_stays_none(digits, i + 1, hexadecimal);
    }
}

/// Adds to the text of a date what a reference stands for.
fn refer(text: &mut Vec<u8>, name: &[u8])
    ensures
        final(text)@ == old(text)@ + referred(name@),
{
    if name.len() > 0 && name[0] == '#' as u8 {
        let rest = slice_subrange(name, 1, name.len());
        assert(rest@ == name@.skip(1));
        if rest.len() > 0 && rest[0] == 'x' as u8 {
            let digits = slice_subrange(rest, 1, rest.len());
            assert(digits@ == rest@.skip(1));
            text.push(read_number(digits, true));
        } else {
            text.push(read_number(rest, false));
        }
    } else if same_bytes(name, "lt".as_bytes()) || same_bytes(name, "gt".as_bytes()) || same_bytes(
        name,
        "amp".as_bytes(),
    ) || same_bytes(name, "apos".as_bytes()) || same_bytes(name, "quot".as_bytes()) {
        text.push(0);
    }
}

/// The number that two decimal digits write.
fn read_two_digits(text: &[u8], at: usize) -> (value: Option<u16>)
    requires
        at + 1 < text@.len(),
    ensures
        match value {
            Some(value) => two_digits(text@, at as int) == Some(value as int) && value < 100,
            None => two_digits(text@, at as int) is None,
        },
{
    match (read_digit(text[at], false), read_digit(text[at + 1], false)) {
        (Some(high), Some(low)) => Some(10 * high as u16 + low as u16),
        _ => None,
    }
}

/// The minutes in hours and minutes.
fn read_minutes(text: &[u8], at: usize) -> (value: Option<u16>)
    requires
        at + 4 < text.len(),
    ensures
        match value {
            Some(value) => minutes(text@, at as int) == Some(value as int) && value < 6100,
            None => minutes(text@, at as int) is None,
        },
{
    match (read_two_digits(text, at), read_two_digits(text, at + 3)) {
        (Some(hours), Some(minutes)) => Some(60 * hours + minutes),
        _ => None,
    }
}

/// Whether a text is a date beyond the year 9999.
fn is_far_date(text: &[u8]) -> (r: bool)
    ensures
        r == is_far(text@),
{
    if text.len() < 25 || !starts_with_bytes(text, LAST_DAY.as_bytes()) || text[text.len() - 6]
        != '-' as u8 {
        return false;
    }
    match (read_minutes(text, 11), read_minutes(text, text.len() - 5)) {
        (Some(time), Some(offset)) => time + offset >= 1440,
        _ => false,
    }
}

/// Whether an element whose contents start at `start` is a date beyond the year 9999.
fn may_end_far(bytes: &[u8], start: usize) -> (r: bool)
    requires
        start <= bytes@.len(),
    ensures
        r == ends_far(bytes@, start as int, Seq::empty()),
{
    let mut at = start;
    let mut text: Vec<u8> = Vec::new();
    while at < bytes.len()
        invariant
            at <= bytes@.len(),
            ends_far(bytes@, start as int, Seq::empty()) == ends_far(bytes@, at as int, text@),
        decreases bytes@.len() - at,
    {
        let byte = bytes[at];
        if byte == '&' as u8 {
            let end = find_reference_end(bytes, at + 1);
            if end == bytes.len() || bytes[end] != ';' as u8 {
                return false;
            }
            refer(&mut text, slice_subrange(bytes, at + 1, end));
            at = end + 1;
        } else if byte != '<' as u8 {
            text.push(byte);
            at += 1;
        } else if bytes.len() - at <= 1 {
            return false;
        } else if bytes[at + 1] == '/' as u8 {
            return is_far_date(text.as_slice());
        } else if bytes[at + 1] == '?' as u8 || bytes[at + 1] == '!' as u8 {
            match find_markup_end(bytes, at) {
                Some(end) => at = end,
                None => return true,
            }
        } else {
            return false;
        }
    }
    false
}

/// Whether a date element whose tag starts at `start` is a date beyond the year 9999.
fn may_open_far_date(bytes: &[u8], start: usize) -> (r: bool)
    requires
        start < bytes@.len(),
    ensures
        r == opens_far_date(bytes@, start as int),
{
    if bytes[start] != '<' as u8 {
        return false;
    }
    let end = find_unquoted(bytes, start + 1, false);
    if end == start + 1 || end == bytes.len() || bytes[end - 1] == '/' as u8 {
        return false;
    }
    let first = bytes[start + 1];
    if first == '/' as u8 || first == '!' as u8 || first == '?' as u8 {
        return false;
    }
    let name = find_word_end(bytes, start + 1, end);
    is_date_name(slice_subrange(bytes, start + 1, name)) && may_end_far(bytes, end + 1)
}

/// Whether a date beyond the year 9999 can stand anywhere behind `start`.
fn may_stand_behind(bytes: &[u8], start: usize) -> (r: bool)
    requires
        start < bytes.len(),
    ensures
        r == exists|k: int| start < k && #[trigger] opens_far_date(bytes@, k),
{
    let mut i = start + 1;
    while i < bytes.len()
        invariant
            start < i <= bytes@.len(),
            forall|k: int| start < k < i ==> !(#[trigger] opens_far_date(bytes@, k)),
        decreases bytes@.len() - i,
    {
        if may_open_far_date(bytes, i) {
            return true;
        }
        i += 1;
    }
    false
}

/// Whether a document in XML can hold a date beyond the year 9999.
fn may_hold_far_date(bytes: &[u8]) -> (r: bool)
    ensures
        r == can_hold_far_date(bytes@),
{
    if starts_with_bytes(bytes, BINARY_START.as_bytes()) {
        return false;
    }
    let mut at: usize = 0;
    while at < bytes.len()
        invariant
            at <= bytes@.len(),
            !encode_utf8(BINARY_START@).is_prefix_of(bytes@),
            far_date_follows(bytes@, 0) == far_date_follows(bytes@, at as int),
        decreases bytes@.len() - at,
    {
        if bytes[at] != '<' as u8 {
            at += 1;
        } else if may_open_far_date(bytes, at) {
            return true;
        } else {
            match find_markup_end(bytes, at) {
                Some(end) => at = end,
                None => return may_stand_behind(bytes, at),
            }
        }
    }
    false
}

/// `plist::Value::from_reader`: what is read, and the texts of the error and of the failure to read that
/// it wraps, as `plist::Error::as_io` gives it, are functions of the bytes. A date in XML that lies
/// beyond the year 9999 in UTC would make it panic.
#[verifier::external_body]
fn read_value(bytes: &[u8]) -> (result: Result<plist::Value, (String, Option<String>)>)
    requires
        !can_hold_far_date(bytes@),
    ensures
        match result {
            Ok(value) => property_list(bytes@) == Ok::<Item, (Seq<char>, Option<Seq<char>>)>(
                item(value),
            ),
            Err((fault, cause)) => property_list(bytes@) == Err::<
                Item,
                (Seq<char>, Option<Seq<char>>),
            >((fault@, maybe_string(cause))),
        },
{
    match plist::Value::from_reader(std::io::Cursor::new(bytes)) {
        Ok(value) => Ok(value),
        Err(error) => Err((error.to_string(), error.as_io().map(|cause| cause.to_string()))),
    }
}

/// The text of an error, with a line for its cause.
pub open spec fn with_cause(fault: Seq<char>, cause: Option<Seq<char>>) -> Seq<char> {
    match cause {
        Some(cause) => fault + "\ncaused by: "@ + cause,
        None => fault,
    }
}

/// Whether no two entries have one name.
pub open spec fn has_distinct_names(entries: Seq<(Seq<char>, Item)>) -> bool {
    forall|i: int, j: int|
        0 <= i < j < entries.len() ==> (#[trigger] entries[i]).0 != (#[trigger] entries[j]).0
}

/// `plist::Value::into_dictionary`: the dictionary that a value is, where it is one. It is a map: no
/// name is in it twice.
#[verifier::external_body]
fn into_dictionary(value: plist::Value) -> (dictionary: Option<plist::Dictionary>)
    ensures
        match dictionary {
            Some(dictionary) => item(value) == Item::Table(entries(dictionary))
                && has_distinct_names(entries(dictionary)),
            None => !(item(value) is Table),
        },
{
    value.into_dictionary()
}

/// `plist::Value::Dictionary`: a dictionary as a value.
#[verifier::external_body]
fn from_dictionary(dictionary: plist::Dictionary) -> (value: plist::Value)
    ensures
        item(value) == Item::Table(entries(dictionary)),
{
    plist::Value::Dictionary(dictionary)
}

/// The entry with the given name, where there is one.
pub open spec fn position(entries: Seq<(Seq<char>, Item)>, key: Seq<char>) -> Option<int>
    decreases entries.len(),
{
    if entries.len() == 0 {
        None
    } else if entries.last().0 == key {
        Some(entries.len() - 1)
    } else {
        position(entries.drop_last(), key)
    }
}

/// The value of `key`, where it is there and a string.
pub open spec fn string_at(entries: Seq<(Seq<char>, Item)>, key: Seq<char>) -> Option<Seq<char>> {
    match position(entries, key) {
        Some(i) => match entries[i].1 {
            Item::Text(text) => Some(text),
            _ => None,
        },
        None => None,
    }
}

/// The entries without the one with the given name. The last entry takes its place.
pub open spec fn without(entries: Seq<(Seq<char>, Item)>, key: Seq<char>) -> Seq<
    (Seq<char>, Item),
> {
    match position(entries, key) {
        Some(i) => entries.update(i, entries.last()).drop_last(),
        None => entries,
    }
}

/// `plist::Dictionary::get`, and `as_string` of the value: the string with the given key.
#[verifier::external_body]
pub(crate) fn get_string(dictionary: &plist::Dictionary, key: &str) -> (value: Option<String>)
    ensures
        match value {
            Some(text) => string_at(entries(*dictionary), key@) == Some(text@),
            None => string_at(entries(*dictionary), key@) is None,
        },
{
    dictionary.get(key).and_then(|value| value.as_string()).map(|text| text.to_string())
}

/// `plist::Dictionary::contains_key`: whether a key is there.
#[verifier::external_body]
pub(crate) fn has_key(dictionary: &plist::Dictionary, key: &str) -> (r: bool)
    ensures
        r == (position(entries(*dictionary), key@) is Some),
{
    dictionary.contains_key(key)
}

/// `plist::Dictionary::remove`: takes the entry with the key out, where it is there, and puts the last
/// entry in its place. No other entry changes.
#[verifier::external_body]
pub(crate) fn remove_key(dictionary: &mut plist::Dictionary, key: &str)
    ensures
        entries(*final(dictionary)) == without(entries(*old(dictionary)), key@),
{
    dictionary.remove(key);
}

/// Whether a moment lies in the years from 0 to 9999 in UTC.
pub open spec fn has_four_digits(moment: Moment) -> bool {
    if moment.after {
        moment.seconds < 253_402_300_800
    } else {
        moment.seconds < 62_167_219_200 || moment.seconds == 62_167_219_200 && moment.nanoseconds
            == 0
    }
}

/// Whether all dates in a value lie in the years from 0 to 9999.
pub open spec fn has_plain_dates(item: Item) -> bool
    decreases item,
{
    match item {
        Item::Date(moment) => has_four_digits(moment),
        Item::List(items) => forall|i: int|
            0 <= i < items.len() ==> has_plain_dates(#[trigger] items[i]),
        Item::Table(entries) => forall|i: int|
            0 <= i < entries.len() ==> has_plain_dates((#[trigger] entries[i]).1),
        _ => true,
    }
}

/// What several values hold.
pub open spec fn all_items(values: Seq<&plist::Value>) -> Seq<Item> {
    Seq::new(values.len(), |i: int| item(*values[i]))
}

/// `plist::Value::as_date`, and the distance of the `SystemTime` that a date is from
/// `SystemTime::UNIX_EPOCH`: the moment that a value is, where it is a date.
#[verifier::external_body]
fn moment_of(value: &plist::Value) -> (moment: Option<Moment>)
    ensures
        match moment {
            Some(moment) => item(*value) == Item::Date(moment),
            None => !(item(*value) is Date),
        },
{
    let time = std::time::SystemTime::from(value.as_date()?);
    let (after, distance) = match time.duration_since(std::time::SystemTime::UNIX_EPOCH) {
        Ok(distance) => (true, distance),
        Err(error) => (false, error.duration()),
    };
    let (seconds, nanoseconds) = (distance.as_secs(), distance.subsec_nanos());
    Some(Moment { after, seconds, nanoseconds })
}

/// `plist::Value::as_array`: the values in a list, where a value is one.
#[verifier::external_body]
fn list_in<'a>(value: &'a plist::Value) -> (values: Option<Vec<&'a plist::Value>>)
    ensures
        match values {
            Some(values) => item(*value) == Item::List(all_items(values@)),
            None => !(item(*value) is List),
        },
{
    value.as_array().map(|values| values.iter().collect())
}

/// `plist::Value::as_dictionary`, and `values` of the dictionary: the values in a dictionary, in the
/// order of its entries, where a value is one.
#[verifier::external_body]
fn table_in<'a>(value: &'a plist::Value) -> (values: Option<Vec<&'a plist::Value>>)
    ensures
        match values {
            Some(values) => item(*value) is Table && item(*value)->Table_0.len() == values@.len()
                && forall|i: int|
                0 <= i < values@.len() ==> item(*value)->Table_0[i].1 == item(
                    *(#[trigger] values@[i]),
                ),
            None => !(item(*value) is Table),
        },
{
    value.as_dictionary().map(|dictionary| dictionary.values().collect())
}

/// Whether all dates in several values lie in the years from 0 to 9999.
fn all_have_plain_dates(values: &Vec<&plist::Value>, Ghost(whole): Ghost<Item>) -> (r: bool)
    requires
        forall|i: int|
            0 <= i < values@.len() ==> decreases_to!(whole => item(*(#[trigger] values@[i]))),
    ensures
        r == forall|i: int| 0 <= i < values@.len() ==> has_plain_dates(item(*(#[trigger] values@[i]))),
    decreases whole, 0int,
{
    let mut i: usize = 0;
    while i < values.len()
        invariant
            i <= values@.len(),
            forall|k: int|
                0 <= k < values@.len() ==> decreases_to!(whole => item(*(#[trigger] values@[k]))),
            forall|k: int| 0 <= k < i ==> has_plain_dates(item(*(#[trigger] values@[k]))),
        decreases values@.len() - i,
    {
        let value = values[i];
        assert(decreases_to!(whole => item(*values@[i as int])));
        if !can_be_written(value) {
            assert(!has_plain_dates(item(*values@[i as int])));
            return false;
        }
        i += 1;
    }
    true
}

/// Whether all dates in a value lie in the years from 0 to 9999.
fn can_be_written(value: &plist::Value) -> (r: bool)
    ensures
        r == has_plain_dates(item(*value)),
    decreases item(*value), 1int,
{
    match moment_of(value) {
        Some(moment) => return if moment.after {
            moment.seconds < 253_402_300_800
        } else {
            moment.seconds < 62_167_219_200 || moment.seconds == 62_167_219_200
                && moment.nanoseconds == 0
        },
        None => {},
    }
    let ghost whole = item(*value);
    match list_in(value) {
        Some(values) => {
            proof {
                let items = whole->List_0;
                assert forall|i: int| 0 <= i < values@.len() implies decreases_to!(
                    whole => item(*(#[trigger] values@[i])),
                ) by {
                    assert(items[i] == item(*values@[i]));
                    assert(decreases_to!(whole => items));
                    assert(decreases_to!(items => items[i]));
                }
            }
            let r = all_have_plain_dates(&values, Ghost(whole));
            proof {
                let items = whole->List_0;
                assert forall|i: int| 0 <= i < items.len() implies items[i] == item(
                    *(#[trigger] values@[i]),
                ) by {}
            }
            return r;
        },
        None => {},
    }
    match table_in(value) {
        Some(values) => {
            proof {
                let entries = whole->Table_0;
                assert forall|i: int| 0 <= i < values@.len() implies decreases_to!(
                    whole => item(*(#[trigger] values@[i])),
                ) by {
                    assert(entries[i].1 == item(*values@[i]));
                    assert(decreases_to!(whole => entries));
                    assert(decreases_to!(entries => entries[i]));
                    assert(decreases_to!(entries[i] => entries[i].1));
                }
            }
            let r = all_have_plain_dates(&values, Ghost(whole));
            proof {
                let entries = whole->Table_0;
                if r {
                    assert forall|i: int| 0 <= i < entries.len() implies has_plain_dates(
                        (#[trigger] entries[i]).1,
                    ) by {
                        assert(has_plain_dates(item(*values@[i])));
                    }
                } else {
                    let i = choose|i: int|
                        0 <= i < values@.len() && !has_plain_dates(item(*(#[trigger] values@[i])));
                    assert(!has_plain_dates(entries[i].1));
                }
            }
            r
        },
        None => true,
    }
}

/// Whether a value holds the NaN of IEEE 754, which XML does not tell from another.
pub open spec fn holds_nan(item: Item) -> bool
    decreases item,
{
    match item {
        Item::Real(bits) => bits % 0x8000_0000_0000_0000 > 0x7ff0_0000_0000_0000,
        Item::List(items) => exists|i: int|
            0 <= i < items.len() && holds_nan(#[trigger] items[i]),
        Item::Table(entries) => exists|i: int|
            0 <= i < entries.len() && holds_nan((#[trigger] entries[i]).1),
        _ => false,
    }
}

/// `plist::Value::to_writer_xml`: what is written, and the text of the error, are functions of what
/// the value holds. Read again, where it can be read, what was written holds the same. A date outside
/// the years from 0 to 9999 would make it panic.
#[verifier::external_body]
fn write_value(value: &plist::Value) -> (result: Result<Vec<u8>, String>)
    requires
        has_plain_dates(item(*value)),
    ensures
        match result {
            Ok(bytes) => xml(item(*value)) == Ok::<Seq<u8>, Seq<char>>(bytes@),
            Err(fault) => xml(item(*value)) == Err::<Seq<u8>, Seq<char>>(fault@),
        },
        result is Ok && property_list(result->Ok_0@) is Ok && !holds_nan(item(*value))
            ==> property_list(result->Ok_0@)->Ok_0 == item(*value),
{
    let mut bytes: Vec<u8> = Vec::new();
    match value.to_writer_xml(&mut bytes) {
        Ok(()) => Ok(bytes),
        Err(error) => Err(error.to_string()),
    }
}

/// What a property list in bytes holds: the entries of a dictionary, or something else, or the reason
/// why it cannot be read.
pub open spec fn read_entries(bytes: Seq<u8>) -> Result<
    Option<Seq<(Seq<char>, Item)>>,
    Seq<char>,
> {
    if can_hold_far_date(bytes) {
        Err("property list holds a date beyond the year 9999"@)
    } else {
        match property_list(bytes) {
            Err((fault, cause)) => Err(with_cause(fault, cause)),
            Ok(Item::Table(entries)) => Ok(Some(entries)),
            Ok(_) => Ok(None),
        }
    }
}

/// The dictionary in a property list, where it is one. A document in XML that holds a date beyond the
/// year 9999 is refused. What a document type declares in brackets is not looked into: behind one, a
/// date counts also in a comment, and around one, a date counts whatever else it holds.
pub fn read_property_list(bytes: &[u8]) -> (result: Result<Option<plist::Dictionary>, String>)
    ensures
        match result {
            Ok(Some(dictionary)) => read_entries(bytes@) == Ok::<
                Option<Seq<(Seq<char>, Item)>>,
                Seq<char>,
            >(Some(entries(dictionary))),
            Ok(None) => read_entries(bytes@) == Ok::<Option<Seq<(Seq<char>, Item)>>, Seq<char>>(
                None,
            ),
            Err(fault) => read_entries(bytes@) == Err::<
                Option<Seq<(Seq<char>, Item)>>,
                Seq<char>,
            >(fault@),
        },
        result matches Ok(Some(dictionary)) ==> has_distinct_names(entries(dictionary)),
{
    if may_hold_far_date(bytes) {
        return Err("property list holds a date beyond the year 9999".to_string());
    }
    match read_value(bytes) {
        Ok(value) => Ok(into_dictionary(value)),
        Err((fault, cause)) => Err(
            match cause {
                Some(cause) => join3(fault.as_str(), "\ncaused by: ", cause.as_str()),
                None => fault,
            },
        ),
    }
}

/// What a dictionary with the given entries is written as.
pub open spec fn written_entries(entries: Seq<(Seq<char>, Item)>) -> Result<Seq<u8>, Seq<char>> {
    if has_plain_dates(Item::Table(entries)) {
        xml(Item::Table(entries))
    } else {
        Err("property list holds a date outside the years from 0 to 9999"@)
    }
}

/// Writes a dictionary as a property list in XML, which has no form for dates outside the years from 0
/// to 9999.
pub fn write_property_list(dictionary: plist::Dictionary) -> (result: Result<Vec<u8>, String>)
    ensures
        match result {
            Ok(bytes) => written_entries(entries(dictionary)) == Ok::<Seq<u8>, Seq<char>>(bytes@),
            Err(fault) => written_entries(entries(dictionary)) == Err::<Seq<u8>, Seq<char>>(fault@),
        },
        result is Ok && read_entries(result->Ok_0@) is Ok && !holds_nan(
            Item::Table(entries(dictionary)),
        ) ==> read_entries(result->Ok_0@)->Ok_0 == Some(entries(dictionary)),
{
    let value = from_dictionary(dictionary);
    if !can_be_written(&value) {
        return Err("property list holds a date outside the years from 0 to 9999".to_string());
    }
    write_value(&value)
}

proof fn lemma_position(entries: Seq<(Seq<char>, Item)>, key: Seq<char>)
    ensures
        match position(entries, key) {
            Some(i) => 0 <= i < entries.len() && entries[i].0 == key,
            None => forall|j: int| 0 <= j < entries.len() ==> (#[trigger] entries[j]).0 != key,
        },
    decreases entries.len(),
{
    if entries.len() > 0 && entries.last().0 != key {
        let before = entries.drop_last();
        lemma_position(before, key);
        assert forall|j: int| 0 <= j < before.len() implies before[j] == entries[j] by {}
        if position(entries, key) is None {
            assert forall|j: int| 0 <= j < entries.len() implies (#[trigger] entries[j]).0
                != key by {
                if j < before.len() {
                    assert(before[j].0 != key);
                }
            }
        }
    }
}

/// Taking an entry out keeps every entry with another name and adds none.
pub proof fn law_removing_keeps_the_rest(
    entries: Seq<(Seq<char>, Item)>,
    key: Seq<char>,
    entry: (Seq<char>, Item),
)
    ensures
        entry.0 != key && entries.contains(entry) ==> without(entries, key).contains(entry),
        without(entries, key).contains(entry) ==> entries.contains(entry),
{
    lemma_position(entries, key);
    let kept = without(entries, key);
    if let Some(i) = position(entries, key) {
        let last = entries.len() - 1;
        assert(kept.len() == last);
        assert forall|j: int| 0 <= j < kept.len() implies #[trigger] kept[j] == (if j == i {
            entries[last]
        } else {
            entries[j]
        }) by {}
        if entry.0 != key && entries.contains(entry) {
            let j = choose|j: int| 0 <= j < entries.len() && entries[j] == entry;
            if j == last {
                assert(kept[i] == entry);
            } else {
                assert(kept[j] == entry);
            }
        }
        if kept.contains(entry) {
            let j = choose|j: int| 0 <= j < kept.len() && kept[j] == entry;
            if j == i {
                assert(entries[last] == entry);
            } else {
                assert(entries[j] == entry);
            }
        }
    }
}

/// Where no name is there twice, taking an entry out leaves none with its name, and no name twice.
pub proof fn law_removed_is_gone(entries: Seq<(Seq<char>, Item)>, key: Seq<char>)
    requires
        has_distinct_names(entries),
    ensures
        position(without(entries, key), key) is None,
        has_distinct_names(without(entries, key)),
{
    lemma_position(entries, key);
    let kept = without(entries, key);
    lemma_position(kept, key);
    if let Some(i) = position(entries, key) {
        let last = entries.len() - 1;
        assert(kept.len() == last);
        assert forall|j: int| 0 <= j < kept.len() implies #[trigger] kept[j] == (if j == i {
            entries[last]
        } else {
            entries[j]
        }) by {}
        if position(kept, key) is Some {
            let j = position(kept, key)->Some_0;
            if j == i {
                assert(entries[i].0 == entries[last].0);
            } else {
                assert(entries[j].0 == entries[i].0);
            }
        }
    }
}

/// Where no name is there twice, the entry of a name is the one that has it, and its string is that
/// entry's value, if it is one.
pub proof fn law_values_are_found_by_their_name(
    entries: Seq<(Seq<char>, Item)>,
    key: Seq<char>,
    i: int,
)
    requires
        has_distinct_names(entries),
    ensures
        position(entries, key) is None <==> forall|j: int|
            0 <= j < entries.len() ==> (#[trigger] entries[j]).0 != key,
        position(entries, key) is None ==> string_at(entries, key) is None,
        0 <= i < entries.len() && entries[i].0 == key ==> position(entries, key) == Some(i)
            && string_at(entries, key) == (match entries[i].1 {
            Item::Text(text) => Some(text),
            _ => None,
        }),
{
    lemma_position(entries, key);
    if 0 <= i < entries.len() && entries[i].0 == key {
        let p = position(entries, key)->Some_0;
        if p < i {
            assert(entries[p].0 != entries[i].0);
        } else if i < p {
            assert(entries[i].0 != entries[p].0);
        }
    }
}

/// Taking an entry out leaves the string of every other name as it is.
pub proof fn law_removing_keeps_other_strings(
    entries: Seq<(Seq<char>, Item)>,
    key: Seq<char>,
    other: Seq<char>,
)
    requires
        has_distinct_names(entries),
        other != key,
    ensures
        string_at(without(entries, key), other) == string_at(entries, other),
        position(without(entries, key), other) is Some <==> position(entries, other) is Some,
{
    let kept = without(entries, key);
    law_removed_is_gone(entries, key);
    lemma_position(entries, other);
    lemma_position(kept, other);
    if position(entries, other) is Some {
        let i = position(entries, other)->Some_0;
        law_removing_keeps_the_rest(entries, key, entries[i]);
        let j = choose|j: int| 0 <= j < kept.len() && kept[j] == entries[i];
        law_values_are_found_by_their_name(kept, other, j);
    } else if position(kept, other) is Some {
        let j = position(kept, other)->Some_0;
        law_removing_keeps_the_rest(entries, key, kept[j]);
    }
}

/// Dates can be written in the years from 0 to 9999: from 62167219200 seconds before 1970 on, and before
/// 253402300800 seconds after it.
pub proof fn law_dates_that_can_be_written(moment: Moment)
    ensures
        has_plain_dates(Item::Date(moment)) <==> (if moment.after {
            moment.seconds < 253402300800
        } else {
            moment.seconds < 62167219200 || moment.seconds == 62167219200 && moment.nanoseconds == 0
        }),
{
}

/// One date that cannot be written, at whatever depth, is enough for a dictionary not to be.
pub proof fn law_a_single_date_can_be_in_the_way(
    items: Seq<Item>,
    entries: Seq<(Seq<char>, Item)>,
    i: int,
)
    ensures
        0 <= i < items.len() && !has_plain_dates(items[i]) ==> !has_plain_dates(Item::List(items)),
        0 <= i < entries.len() && !has_plain_dates(entries[i].1) ==> !has_plain_dates(
            Item::Table(entries),
        ) && written_entries(entries) is Err,
{
    let list = Item::List(items);
    let table = Item::Table(entries);
    if 0 <= i < items.len() {
        assert(list->List_0[i] == items[i]);
    }
    if 0 <= i < entries.len() {
        assert(table->Table_0[i] == entries[i]);
    }
}

/// What is read is the dictionary that the property list holds, if it is one and holds no date beyond
/// the year 9999.
pub proof fn law_dictionaries_are_read(bytes: Seq<u8>, entries: Seq<(Seq<char>, Item)>)
    ensures
        read_entries(bytes) == Ok::<Option<Seq<(Seq<char>, Item)>>, Seq<char>>(Some(entries))
            <==> !can_hold_far_date(bytes) && property_list(bytes) is Ok && property_list(bytes)->Ok_0
            == Item::Table(entries),
{
}

/// Whether two digits stand at this place, and write this number.
pub open spec fn writes(text: Seq<u8>, at: int, n: int) -> bool {
    &&& 0 <= n < 100
    &&& 48 <= text[at] <= 57
    &&& 48 <= text[at + 1] <= 57
    &&& text[at] == 48 + n / 10
    &&& text[at + 1] == 48 + n % 10
}

/// A date of the last day of the year 9999 lies beyond it in UTC where, and only where, its offset is
/// negative and reaches to midnight or past it.
pub proof fn law_offsets_can_pass_the_last_day(
    text: Seq<u8>,
    hour: int,
    minute: int,
    offset_hours: int,
    offset_minutes: int,
)
    requires
        text.len() >= 25,
        encode_utf8("9999-12-31"@).is_prefix_of(text),
        writes(text, 11, hour),
        writes(text, 14, minute),
        writes(text, text.len() - 5, offset_hours),
        writes(text, text.len() - 2, offset_minutes),
    ensures
        is_far(text) <==> text[text.len() - 6] == 45 && 60 * (hour + offset_hours) + minute
            + offset_minutes >= 24 * 60,
{
}

/// A date of another day is not beyond the year 9999, and neither is one without an offset.
pub proof fn law_other_days_are_not_far(text: Seq<u8>)
    requires
        is_far(text),
    ensures
        encode_utf8("9999-12-31"@).is_prefix_of(text),
        text.len() >= 25,
        text[text.len() - 6] == 45,
{
}

/// A date that is written as plain text is judged by that text, wherever its element stands.
pub proof fn law_plain_dates_are_judged_by_their_text(
    before: Seq<u8>,
    text: Seq<u8>,
    behind: Seq<u8>,
)
    requires
        !text.contains(38),
        !text.contains(60),
    ensures
        opens_far_date(
            before + encode_utf8("<date>"@) + text + encode_utf8("</"@) + behind,
            before.len() as int,
        ) <==> is_far(text),
{
    reveal_strlit("<date>");
    reveal_strlit("</");
    reveal_strlit("date");
    is_ascii_chars_encode_utf8("<date>"@);
    is_ascii_chars_encode_utf8("</"@);
    is_ascii_chars_encode_utf8("date"@);
    let tag = encode_utf8("<date>"@);
    let close = encode_utf8("</"@);
    let bytes = before + tag + text + close + behind;
    let start = before.len() as int;
    let inside = start + 6;
    assert(tag.len() == 6 && close.len() == 2);
    assert forall|k: int| 0 <= k < 6 implies #[trigger] bytes[start + k] == tag[k] by {}
    assert(bytes[start] == 60 && bytes[start + 1] == 100 && bytes[start + 2] == 97 && bytes[start + 3]
        == 116 && bytes[start + 4] == 101 && bytes[start + 5] == 62) by {
        assert(bytes[start + 0] == tag[0]);
        assert(bytes[start + 1] == tag[1]);
        assert(bytes[start + 2] == tag[2]);
        assert(bytes[start + 3] == tag[3]);
        assert(bytes[start + 4] == tag[4]);
        assert(bytes[start + 5] == tag[5]);
    }
    reveal_with_fuel(unquoted, 6);
    reveal_with_fuel(word_end, 6);
    assert(unquoted(bytes, start + 1, None, false) == start + 5);
    assert(word_end(bytes, start + 1, start + 5) == start + 5);
    let name = bytes.subrange(start + 1, start + 5);
    assert(name =~= encode_utf8("date"@));
    assert(opens_date(bytes, start));
    assert forall|k: int| 0 <= k < text.len() implies #[trigger] bytes[inside + k] == text[k] by {}
    assert(bytes[inside + text.len()] == close[0] && bytes[inside + text.len() + 1] == close[1]);
    lemma_plain_text_ends(bytes, inside, text, 0);
    assert(text.take(0) =~= Seq::<u8>::empty());
}

proof fn lemma_plain_text_ends(bytes: Seq<u8>, inside: int, text: Seq<u8>, k: int)
    requires
        0 <= k <= text.len(),
        0 <= inside,
        inside + text.len() + 2 <= bytes.len(),
        forall|j: int| 0 <= j < text.len() ==> #[trigger] bytes[inside + j] == text[j],
        bytes[inside + text.len()] == 60,
        bytes[inside + text.len() + 1] == 47,
        !text.contains(38),
        !text.contains(60),
    ensures
        ends_far(bytes, inside + k, text.take(k)) == is_far(text),
    decreases text.len() - k,
{
    if k < text.len() {
        assert(bytes[inside + k] == text[k]);
        assert(text.contains(text[k]));
        assert(text.take(k).push(text[k]) =~= text.take(k + 1));
        lemma_plain_text_ends(bytes, inside, text, k + 1);
    } else {
        assert(text.take(k) =~= text);
    }
}

/// A date beyond the year 9999 counts behind any text, and in no property list in binary form.
pub proof fn law_text_before_a_date_is_passed_over(before: Seq<u8>, behind: Seq<u8>)
    requires
        !before.contains(60),
    ensures
        far_date_follows(before + behind, 0) <==> far_date_follows(before + behind, before.len() as int),
        encode_utf8("bplist00"@).is_prefix_of(before + behind) ==> !can_hold_far_date(before + behind),
        !encode_utf8("bplist00"@).is_prefix_of(before + behind) && behind.len() > 0 && opens_far_date(
            before + behind,
            before.len() as int,
        ) ==> can_hold_far_date(before + behind),
{
    lemma_text_is_passed_over(before, behind, 0);
}

proof fn lemma_text_is_passed_over(before: Seq<u8>, behind: Seq<u8>, k: int)
    requires
        !before.contains(60),
        0 <= k <= before.len(),
    ensures
        far_date_follows(before + behind, k) <==> far_date_follows(
            before + behind,
            before.len() as int,
        ),
    decreases before.len() - k,
{
    if k < before.len() {
        assert((before + behind)[k] == before[k]);
        assert(before.contains(before[k]));
        lemma_text_is_passed_over(before, behind, k + 1);
    }
}

/// A comment is passed over as a whole, whatever it holds, so that a date in it does not count.
pub proof fn law_comments_are_passed_over(before: Seq<u8>, inside: Seq<u8>, behind: Seq<u8>)
    requires
        !inside.contains(62),
        behind.len() > 0,
    ensures
        ({
            let bytes = before + encode_utf8("<!--"@) + inside + encode_utf8("-->"@) + behind;
            far_date_follows(bytes, before.len() as int) <==> far_date_follows(
                bytes,
                before.len() as int + inside.len() + 7,
            )
        }),
{
    reveal_strlit("<!--");
    reveal_strlit("-->");
    reveal_strlit("--");
    is_ascii_chars_encode_utf8("<!--"@);
    is_ascii_chars_encode_utf8("-->"@);
    is_ascii_chars_encode_utf8("--"@);
    let open = encode_utf8("<!--"@);
    let close = encode_utf8("-->"@);
    let tail = encode_utf8("--"@);
    let bytes = before + open + inside + close + behind;
    let start = before.len() as int;
    let end = start + inside.len() + 6;
    assert(open.len() == 4 && close.len() == 3 && tail.len() == 2);
    assert(bytes[start] == open[0] && bytes[start + 1] == open[1] && bytes[start + 2] == open[2]
        && bytes[start + 3] == open[3]);
    assert forall|k: int| 0 <= k < inside.len() implies #[trigger] bytes[start + 4 + k]
        == inside[k] by {}
    assert(bytes[end] == close[2] && bytes[end - 1] == close[1] && bytes[end - 2] == close[0]);
    assert(bytes.subrange(end - 2, end) =~= tail);
    assert forall|i: int| start + 6 <= i < end implies bytes[i] != 62 by {
        if i < end - 2 {
            assert(bytes[start + 4 + (i - start - 4)] == inside[i - start - 4]);
            assert(inside.contains(inside[i - start - 4]));
        }
    }
    lemma_past_tail(bytes, start + 6, tail, end);
    assert(markup_end(bytes, start) == Some(end + 1));
}

proof fn lemma_past_tail(bytes: Seq<u8>, from: int, tail: Seq<u8>, end: int)
    requires
        0 <= from <= end < bytes.len(),
        forall|i: int| from <= i < end ==> bytes[i] != 62,
        bytes[end] == 62,
        tail.len() <= end,
        bytes.subrange(end - tail.len(), end) == tail,
    ensures
        past_tail(bytes, from, tail) == end + 1,
    decreases end - from,
{
    if from < end {
        lemma_past_tail(bytes, from + 1, tail, end);
    }
}

/// A reference in the text of a date counts as what it stands for.
pub proof fn law_references_in_dates_are_resolved(
    bytes: Seq<u8>,
    at: int,
    end: int,
    text: Seq<u8>,
)
    requires
        0 <= at < end < bytes.len(),
        bytes[at] == 38,
        bytes[end] == 59,
        forall|i: int|
            at < i < end ==> bytes[i] != 38 && #[trigger] bytes[i] != 59 && bytes[i] != 60,
    ensures
        ends_far(bytes, at, text) == ends_far(
            bytes,
            end + 1,
            text + referred(bytes.subrange(at + 1, end)),
        ),
{
    lemma_reference_end(bytes, at + 1, end);
}

proof fn lemma_reference_end(bytes: Seq<u8>, at: int, end: int)
    requires
        0 <= at <= end < bytes.len(),
        bytes[end] == 59,
        forall|i: int|
            at <= i < end ==> bytes[i] != 38 && #[trigger] bytes[i] != 59 && bytes[i] != 60,
    ensures
        reference_end(bytes, at) == end,
    decreases end - at,
{
    if at < end {
        lemma_reference_end(bytes, at + 1, end);
    }
}

/// Digits of a reference count by tens, or by sixteens behind an `x`, and letters from `a` to `f` are
/// digits there and nowhere else.
pub proof fn law_digits_of_references(digits: Seq<u8>, byte: u8, hexadecimal: bool)
    ensures
        number(Seq::empty(), hexadecimal) == Some(0int),
        48 <= byte <= 57 && number(digits, hexadecimal) is Some ==> number(
            digits.push(byte),
            hexadecimal,
        ) == Some((if hexadecimal {
            16int
        } else {
            10int
        }) * number(digits, hexadecimal)->Some_0 + (byte - 48)),
        97 <= byte <= 102 && number(digits, true) is Some ==> number(digits.push(byte), true) == Some(
            16 * number(digits, true)->Some_0 + (byte - 87),
        ),
        65 <= byte <= 70 && number(digits, true) is Some ==> number(digits.push(byte), true) == Some(
            16 * number(digits, true)->Some_0 + (byte - 55),
        ),
        !(48 <= byte <= 57) ==> number(digits.push(byte), false) is None,
        number(digits, hexadecimal) is None ==> number(digits.push(byte), hexadecimal) is None,
{
    let now = digits.push(byte);
    assert(now.drop_last() =~= digits);
    assert(now.last() == byte);
}

/// A reference by number stands for the ASCII character of that number, one to another character or by
/// one of the five names of XML for a byte that no date holds, and any other name for nothing.
pub proof fn law_what_references_stand_for(digits: Seq<u8>, name: Seq<u8>)
    ensures
        digits.len() > 0 && digits[0] != 120 && number(digits, false) is Some ==> referred(
            seq![35u8] + digits,
        ) == (if number(digits, false)->Some_0 < 128 {
            seq![number(digits, false)->Some_0 as u8]
        } else {
            seq![0u8]
        }),
        number(digits, true) is Some ==> referred(seq![35u8, 120u8] + digits) == (if number(
            digits,
            true,
        )->Some_0 < 128 {
            seq![number(digits, true)->Some_0 as u8]
        } else {
            seq![0u8]
        }),
        name == encode_utf8("lt"@) || name == encode_utf8("gt"@) || name == encode_utf8("amp"@)
            || name == encode_utf8("apos"@) || name == encode_utf8("quot"@) ==> (name.len() > 0
            && name[0] != 35 ==> referred(name) == seq![0u8]),
        name.len() > 0 && name[0] != 35 && name != encode_utf8("lt"@) && name != encode_utf8("gt"@)
            && name != encode_utf8("amp"@) && name != encode_utf8("apos"@) && name != encode_utf8(
            "quot"@,
        ) ==> referred(name).len() == 0,
{
    let plain = seq![35u8] + digits;
    assert(plain[0] == 35);
    assert(plain.skip(1) =~= digits);
    let marked = seq![35u8, 120u8] + digits;
    assert(marked[0] == 35);
    assert(marked.skip(1)[0] == 120);
    assert(marked.skip(1).skip(1) =~= digits);
}

/// An element is a date by its name, with any prefix and a colon before it, and by no other name.
pub proof fn law_dates_are_told_by_their_name(prefix: Seq<u8>, name: Seq<u8>)
    ensures
        names_date(encode_utf8("date"@)),
        names_date(prefix + encode_utf8(":date"@)),
        names_date(name) ==> name == encode_utf8("date"@) || encode_utf8(":date"@).is_suffix_of(name),
{
    reveal_strlit(":date");
    is_ascii_chars_encode_utf8(":date"@);
    let ending = encode_utf8(":date"@);
    let whole = prefix + ending;
    assert(whole.skip(whole.len() - 5) =~= ending);
    if name.len() >= 5 && name.skip(name.len() - 5) == ending {
        assert(name.subrange(name.len() - 5, name.len() as int) =~= ending);
    }
}

/// A `>` in quotes does not end a tag, and quotes of the other kind do not end quotes.
pub proof fn law_quoted_marks_end_no_tag(bytes: Seq<u8>, at: int, end: int, bracket: bool)
    requires
        0 <= at < end < bytes.len(),
        bytes[at] == 34 || bytes[at] == 39,
        bytes[end] == bytes[at],
        forall|i: int| at < i < end ==> #[trigger] bytes[i] != bytes[at],
    ensures
        unquoted(bytes, at, None, bracket) == unquoted(bytes, end + 1, None, bracket),
{
    lemma_quoted(bytes, at + 1, end, bytes[at], bracket);
}

proof fn lemma_quoted(bytes: Seq<u8>, at: int, end: int, quote: u8, bracket: bool)
    requires
        0 <= at <= end < bytes.len(),
        bytes[end] == quote,
        forall|i: int| at <= i < end ==> #[trigger] bytes[i] != quote,
    ensures
        unquoted(bytes, at, Some(quote), bracket) == unquoted(bytes, end + 1, None, bracket),
    decreases end - at,
{
    if at < end {
        lemma_quoted(bytes, at + 1, end, quote, bracket);
    }
}

/// Outside quotes a `>` ends a tag, and a bracket does where it is looked for; nothing else does.
pub proof fn law_marks_outside_quotes_end_a_tag(bytes: Seq<u8>, at: int, bracket: bool)
    requires
        0 <= at < bytes.len(),
        bytes[at] != 34,
        bytes[at] != 39,
    ensures
        bytes[at] == 62 || bracket && bytes[at] == 91 ==> unquoted(bytes, at, None, bracket) == at,
        bytes[at] != 62 && !(bracket && bytes[at] == 91) ==> unquoted(bytes, at, None, bracket)
            == unquoted(bytes, at + 1, None, bracket),
{
}

} // verus!
