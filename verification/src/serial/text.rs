//! Text as the serial leaf reads and writes it: ASCII classes, decimal numbers, and UTF-16.

use vstd::prelude::*;

pub mod laws;

verus! {

/// Whether a character has the Unicode property `White_Space`: the ASCII blanks and line ends, the
/// next-line control, and the spaces and separators of the other blocks.
pub open spec fn is_white_space(c: char) -> bool {
    let code = c as int;
    ||| 0x09 <= code <= 0x0D
    ||| code == 0x20
    ||| code == 0x85
    ||| code == 0xA0
    ||| code == 0x1680
    ||| 0x2000 <= code <= 0x200A
    ||| code == 0x2028 || code == 0x2029
    ||| code == 0x202F
    ||| code == 0x205F
    ||| code == 0x3000
}

/// `char::is_whitespace`: whether the character has the Unicode property `White_Space`.
#[verifier::external_body]
fn char_is_whitespace(c: char) -> (white: bool)
    ensures
        white == is_white_space(c),
{
    c.is_whitespace()
}

/// `char::from_u32`: the character with this code point; none for a surrogate and for a number above
/// the last code point.
#[verifier::external_body]
fn char_from_u32(value: u32) -> (c: Option<char>)
    ensures
        c is Some <==> is_scalar(value as int),
        c matches Some(c) ==> c as int == value,
{
    char::from_u32(value)
}

/// `String::push`: appends one character.
pub assume_specification[ String::push ](text: &mut String, c: char)
    ensures
        final(text)@ == old(text)@.push(c),
;

/// Whether a number is the code point of a character.
pub open spec fn is_scalar(value: int) -> bool {
    0 <= value < 0xD800 || 0xE000 <= value <= 0x10FFFF
}

proof fn lemma_code_point(c: char)
    ensures
        is_scalar(c as int),
{
}

/// Returns the code point of a character.
pub fn code_point(c: char) -> (code: u32)
    ensures
        code == c as int,
        is_scalar(code as int),
{
    c as u32
}

/// Returns the characters of a text.
pub fn chars_of(text: &str) -> (chars: Vec<char>)
    ensures
        chars@ == text@,
{
    let mut chars: Vec<char> = Vec::new();
    for c in walk: text.chars()
        invariant
            walk.seq() == text@,
            chars@ == text@.take(walk.index() as int),
    {
        chars.push(c);
        assert(text@.take(walk.index() as int + 1) =~= text@.take(walk.index() as int).push(c));
    }
    assert(text@.take(text@.len() as int) =~= text@);
    chars
}

/// Returns the text of a list of characters.
pub fn text_of(chars: &Vec<char>) -> (text: String)
    ensures
        text@ == chars@,
{
    let mut text = String::new();
    let mut k: usize = 0;
    while k < chars.len()
        invariant
            k <= chars.len(),
            text@ == chars@.take(k as int),
        decreases chars.len() - k,
    {
        text.push(chars[k]);
        assert(chars@.take(k + 1) =~= chars@.take(k as int).push(chars@[k as int]));
        k += 1;
    }
    assert(chars@.take(k as int) =~= chars@);
    text
}

/// Whether a text has nothing but white space.
pub open spec fn is_blank(text: Seq<char>) -> bool {
    forall|k: int| 0 <= k < text.len() ==> is_white_space(#[trigger] text[k])
}

/// Returns whether a text has nothing but white space.
pub fn blank(text: &str) -> (blank: bool)
    ensures
        blank == is_blank(text@),
{
    let chars = chars_of(text);
    let mut k: usize = 0;
    while k < chars.len()
        invariant
            k <= chars.len(),
            chars@ == text@,
            forall|j: int| 0 <= j < k ==> is_white_space(#[trigger] text@[j]),
        decreases chars.len() - k,
    {
        if !char_is_whitespace(chars[k]) {
            assert(!is_white_space(text@[k as int]));
            return false;
        }
        k += 1;
    }
    true
}

/// A letter of the ASCII alphabet in upper case; any other character as it is.
pub open spec fn upper(c: char) -> char {
    if 'a' <= c <= 'z' {
        ((c as int) - 32) as char
    } else {
        c
    }
}

/// Returns a character, an ASCII letter in upper case.
pub fn to_upper(c: char) -> (result: char)
    ensures
        result == upper(c),
{
    match c {
        'a' => 'A',
        'b' => 'B',
        'c' => 'C',
        'd' => 'D',
        'e' => 'E',
        'f' => 'F',
        'g' => 'G',
        'h' => 'H',
        'i' => 'I',
        'j' => 'J',
        'k' => 'K',
        'l' => 'L',
        'm' => 'M',
        'n' => 'N',
        'o' => 'O',
        'p' => 'P',
        'q' => 'Q',
        'r' => 'R',
        's' => 'S',
        't' => 'T',
        'u' => 'U',
        'v' => 'V',
        'w' => 'W',
        'x' => 'X',
        'y' => 'Y',
        'z' => 'Z',
        _ => c,
    }
}

/// Whether a character is a decimal digit.
pub open spec fn is_digit(c: char) -> bool {
    '0' <= c <= '9'
}

/// The value of a hexadecimal digit; none for any other character.
pub open spec fn hex_digit(c: char) -> Option<int> {
    if '0' <= c <= '9' {
        Some((c as int) - ('0' as int))
    } else if 'A' <= c <= 'F' {
        Some((c as int) - ('A' as int) + 10)
    } else if 'a' <= c <= 'f' {
        Some((c as int) - ('a' as int) + 10)
    } else {
        None
    }
}

/// Returns the value of a hexadecimal digit.
pub fn hex_digit_value(c: char) -> (value: Option<u16>)
    ensures
        value is Some <==> hex_digit(c) is Some,
        value matches Some(value) ==> value == hex_digit(c)->0 && value < 16,
{
    let code: u32 = c as u32;
    if '0' <= c && c <= '9' {
        Some((code - 48) as u16)
    } else if 'A' <= c && c <= 'F' {
        Some((code - 65 + 10) as u16)
    } else if 'a' <= c && c <= 'f' {
        Some((code - 97 + 10) as u16)
    } else {
        None
    }
}

/// The digit of a number below ten.
pub open spec fn digit_char(value: int) -> char {
    (('0' as int) + value) as char
}

/// A number in decimal.
pub open spec fn decimal(value: int) -> Seq<char>
    decreases value,
{
    if value < 10 {
        seq![digit_char(value)]
    } else {
        decimal(value / 10).push(digit_char(value % 10))
    }
}

/// Appends a number in decimal.
pub fn push_decimal(text: &mut String, value: u32)
    ensures
        final(text)@ == old(text)@ + decimal(value as int),
    decreases value,
{
    let digit: char = match value % 10 {
        0 => '0',
        1 => '1',
        2 => '2',
        3 => '3',
        4 => '4',
        5 => '5',
        6 => '6',
        7 => '7',
        8 => '8',
        _ => '9',
    };
    assert(digit == digit_char(value as int % 10));
    if value >= 10 {
        push_decimal(text, value / 10);
    }
    text.push(digit);
    assert(text@ =~= old(text)@ + decimal(value as int));
}

/// The UTF-16 code units of a character.
pub open spec fn units_of(c: char) -> Seq<u16> {
    let value = c as int;
    if value < 0x10000 {
        seq![value as u16]
    } else {
        seq![
            (0xD800 + (value - 0x10000) / 0x400) as u16,
            (0xDC00 + (value - 0x10000) % 0x400) as u16,
        ]
    }
}

/// A text in UTF-16.
pub open spec fn utf16(text: Seq<char>) -> Seq<u16>
    decreases text.len(),
{
    if text.len() == 0 {
        seq![]
    } else {
        utf16(text.drop_last()) + units_of(text.last())
    }
}

/// Returns a text in UTF-16, with a terminating zero.
pub fn wide_nul(value: &str) -> (units: Vec<u16>)
    ensures
        units@ == utf16(value@).push(0),
{
    let chars = chars_of(value);
    let mut units: Vec<u16> = Vec::new();
    let mut k: usize = 0;
    assert(chars@.take(0) =~= seq![]);
    while k < chars.len()
        invariant
            k <= chars.len(),
            chars@ == value@,
            units@ == utf16(chars@.take(k as int)),
        decreases chars.len() - k,
    {
        let c: char = chars[k];
        let code: u32 = code_point(c);
        proof {
            assert(chars@.take(k + 1).drop_last() =~= chars@.take(k as int));
            assert(chars@.take(k + 1).last() == c);
        }
        let ghost before = units@;
        if code < 0x10000 {
            units.push(code as u16);
        } else {
            let rest: u32 = code - 0x10000;
            units.push((0xD800 + rest / 0x400) as u16);
            units.push((0xDC00 + rest % 0x400) as u16);
        }
        assert(units@ =~= before + units_of(c));
        k += 1;
    }
    assert(chars@.take(k as int) =~= chars@);
    units.push(0);
    units
}

/// Whether a unit starts a surrogate pair.
pub open spec fn is_high(unit: u16) -> bool {
    0xD800 <= unit < 0xDC00
}

/// Whether a unit ends a surrogate pair.
pub open spec fn is_low(unit: u16) -> bool {
    0xDC00 <= unit < 0xE000
}

/// The text of UTF-16 code units; each unpaired surrogate becomes the replacement character.
pub open spec fn from_utf16(units: Seq<u16>) -> Seq<char>
    decreases units.len(),
{
    if units.len() == 0 {
        seq![]
    } else if !is_high(units[0]) && !is_low(units[0]) {
        seq![(units[0] as int) as char] + from_utf16(units.skip(1))
    } else if is_high(units[0]) && units.len() > 1 && is_low(units[1]) {
        seq![
            (0x10000 + (units[0] - 0xD800) * 0x400 + (units[1] - 0xDC00)) as char,
        ] + from_utf16(units.skip(2))
    } else {
        seq!['\u{FFFD}'] + from_utf16(units.skip(1))
    }
}

/// Returns the text of the UTF-16 code units from `start` up to `end`.
fn decode_units(units: &Vec<u16>, start: usize, end: usize) -> (text: String)
    requires
        start <= end <= units@.len(),
    ensures
        text@ == from_utf16(units@.subrange(start as int, end as int)),
{
    let ghost all = units@.subrange(start as int, end as int);
    let mut text = String::new();
    let mut k: usize = start;
    assert(units@.subrange(k as int, end as int) =~= all);
    assert(text@ + from_utf16(all) =~= from_utf16(all));
    while k < end
        invariant
            start <= k <= end <= units@.len(),
            all == units@.subrange(start as int, end as int),
            from_utf16(all) == text@ + from_utf16(units@.subrange(k as int, end as int)),
        decreases end - k,
    {
        let ghost rest = units@.subrange(k as int, end as int);
        let ghost before = text@;
        let unit: u16 = units[k];
        assert(rest[0] == unit);
        if unit < 0xD800 || unit >= 0xE000 {
            assert(is_scalar(unit as int));
            if let Some(c) = char_from_u32(unit as u32) {
                text.push(c);
                assert(c as int == unit as int);
                assert(c == (unit as int) as char);
            }
            assert(rest.skip(1) =~= units@.subrange(k + 1, end as int));
            k += 1;
        } else if unit < 0xDC00 && k + 1 < end && units[k + 1] >= 0xDC00 && units[k + 1] < 0xE000 {
            let low: u16 = units[k + 1];
            assert(rest[1] == low);
            let value: u32 = 0x10000 + (unit as u32 - 0xD800) * 0x400 + (low as u32 - 0xDC00);
            assert(is_scalar(value as int));
            if let Some(c) = char_from_u32(value) {
                text.push(c);
            }
            assert(rest.skip(2) =~= units@.subrange(k + 2, end as int));
            k += 2;
        } else {
            if k + 1 < end {
                assert(rest[1] == units@[k + 1]);
            }
            text.push('\u{FFFD}');
            assert(rest.skip(1) =~= units@.subrange(k + 1, end as int));
            k += 1;
        }
        assert(from_utf16(all) =~= text@ + from_utf16(units@.subrange(k as int, end as int)));
    }
    assert(units@.subrange(k as int, end as int) =~= seq![]);
    assert(text@ + from_utf16(seq![]) =~= text@);
    text
}

/// Where the first zero stands; the length where there is none.
pub open spec fn first_zero(units: Seq<u16>) -> int
    decreases units.len(),
{
    if units.len() == 0 || units[0] == 0 {
        0
    } else {
        1 + first_zero(units.skip(1))
    }
}

/// The text before the first zero; none where that is empty.
pub open spec fn wide_text(units: Seq<u16>) -> Option<Seq<char>> {
    let end = first_zero(units);
    if end == 0 {
        None
    } else {
        Some(from_utf16(units.take(end)))
    }
}

proof fn lemma_first_zero(units: Seq<u16>, k: int)
    requires
        0 <= k <= units.len(),
        forall|j: int| 0 <= j < k ==> (#[trigger] units[j]) != 0,
    ensures
        first_zero(units) == k + first_zero(units.skip(k)),
    decreases k,
{
    if k > 0 {
        assert(units[0] != 0);
        let rest = units.skip(1);
        assert forall|j: int| 0 <= j < k - 1 implies (#[trigger] rest[j]) != 0 by {
            assert(units[j + 1] != 0);
        }
        lemma_first_zero(rest, k - 1);
        assert(rest.skip(k - 1) =~= units.skip(k));
    } else {
        assert(units.skip(0) =~= units);
    }
}

/// Returns the text before the first zero of a buffer; none where that is empty.
pub fn decode_wide(units: &Vec<u16>) -> (text: Option<String>)
    ensures
        text is Some <==> wide_text(units@) is Some,
        text matches Some(text) ==> text@ == wide_text(units@)->0,
{
    let mut end: usize = 0;
    while end < units.len() && units[end] != 0
        invariant
            end <= units.len(),
            forall|j: int| 0 <= j < end ==> (#[trigger] units@[j]) != 0,
        decreases units.len() - end,
    {
        end += 1;
    }
    proof {
        lemma_first_zero(units@, end as int);
        assert(units@.subrange(0, end as int) =~= units@.take(end as int));
    }
    if end == 0 {
        return None;
    }
    Some(decode_units(units, 0, end))
}

/// The little-endian units of a buffer; an odd last byte is left out.
pub open spec fn le_units(bytes: Seq<u8>) -> Seq<u16>
    decreases bytes.len(),
{
    if bytes.len() < 2 {
        seq![]
    } else {
        seq![(bytes[0] as int + bytes[1] as int * 256) as u16] + le_units(bytes.skip(2))
    }
}

/// The texts between the zeros of a buffer, but for empty ones.
pub open spec fn wide_texts(units: Seq<u16>) -> Seq<Seq<char>>
    decreases units.len(),
{
    if units.len() == 0 {
        seq![]
    } else {
        let end = first_zero(units);
        let first = if end == 0 {
            Seq::<Seq<char>>::empty()
        } else {
            seq![from_utf16(units.take(end))]
        };
        if 0 <= end < units.len() {
            first + wide_texts(units.skip(end + 1))
        } else {
            first
        }
    }
}

/// The views of a list of texts.
pub open spec fn texts_view(texts: Seq<String>) -> Seq<Seq<char>> {
    texts.map_values(|text: String| text@)
}

/// Returns the texts of a buffer of little-endian UTF-16, one after each zero, but for empty ones.
pub fn decode_wide_strings(bytes: &Vec<u8>) -> (texts: Vec<String>)
    ensures
        texts_view(texts@) == wide_texts(le_units(bytes@)),
{
    let mut units: Vec<u16> = Vec::new();
    let mut k: usize = 0;
    assert(bytes@.skip(0) =~= bytes@);
    assert(units@ + le_units(bytes@) =~= le_units(bytes@));
    while k < bytes.len() && bytes.len() - k >= 2
        invariant
            k <= bytes.len(),
            le_units(bytes@) == units@ + le_units(bytes@.skip(k as int)),
        decreases bytes.len() - k,
    {
        let ghost rest = bytes@.skip(k as int);
        let ghost before = units@;
        let low: u16 = bytes[k] as u16;
        let high: u16 = bytes[k + 1] as u16;
        assert(rest[0] == bytes@[k as int] && rest[1] == bytes@[k + 1]);
        units.push(low + high * 256);
        assert(rest.skip(2) =~= bytes@.skip(k + 2));
        assert(before + (seq![(low + high * 256) as u16] + le_units(rest.skip(2))) =~= units@
            + le_units(rest.skip(2)));
        k += 2;
    }
    assert(units@ + le_units(bytes@.skip(k as int)) =~= units@);
    split_units(&units)
}

fn split_units(units: &Vec<u16>) -> (texts: Vec<String>)
    ensures
        texts_view(texts@) == wide_texts(units@),
{
    let mut texts: Vec<String> = Vec::new();
    let mut start: usize = 0;
    assert(units@.skip(0) =~= units@);
    assert(texts_view(texts@) + wide_texts(units@) =~= wide_texts(units@));
    while start < units.len()
        invariant
            start <= units.len(),
            wide_texts(units@) == texts_view(texts@) + wide_texts(units@.skip(start as int)),
        decreases units.len() - start,
    {
        let ghost rest = units@.skip(start as int);
        let ghost before = texts@;
        let mut end: usize = start;
        while end < units.len() && units[end] != 0
            invariant
                start <= end <= units.len(),
                rest == units@.skip(start as int),
                forall|j: int| start <= j < end ==> (#[trigger] units@[j]) != 0,
            decreases units.len() - end,
        {
            end += 1;
        }
        proof {
            let length = end - start;
            assert forall|j: int| 0 <= j < length implies (#[trigger] rest[j]) != 0 by {
                assert(units@[start + j] != 0);
            }
            lemma_first_zero(rest, length as int);
            if end < units.len() {
                assert(rest.skip(length as int)[0] == 0);
            } else {
                assert(rest.skip(length as int) =~= seq![]);
            }
            assert(first_zero(rest) == length);
            assert(units@.subrange(start as int, end as int) =~= rest.take(length as int));
        }
        if end > start {
            let text = decode_units(units, start, end);
            texts.push(text);
            assert(texts_view(texts@) =~= texts_view(before).push(text@));
        }
        let ghost first = if end == start {
            Seq::<Seq<char>>::empty()
        } else {
            seq![from_utf16(rest.take(end - start))]
        };
        assert(texts_view(texts@) =~= texts_view(before) + first);
        if end < units.len() {
            assert(rest.skip(end - start + 1) =~= units@.skip(end + 1));
            assert(wide_texts(rest) == first + wide_texts(units@.skip(end + 1)));
            start = end + 1;
        } else {
            assert(units@.skip(end as int) =~= seq![]);
            assert(wide_texts(rest) =~= first + wide_texts(units@.skip(end as int)));
            start = end;
        }
        assert(wide_texts(units@) =~= texts_view(texts@) + wide_texts(units@.skip(start as int)));
    }
    assert(units@.skip(start as int) =~= seq![]);
    assert(texts_view(texts@) + wide_texts(seq![]) =~= texts_view(texts@));
    texts
}

/// Returns the first text of a buffer of little-endian UTF-16.
pub fn decode_first_wide_string(bytes: &Vec<u8>) -> (text: Option<String>)
    ensures
        text is Some <==> wide_texts(le_units(bytes@)).len() > 0,
        text matches Some(text) ==> text@ == wide_texts(le_units(bytes@))[0],
{
    let texts = decode_wide_strings(bytes);
    if texts.len() > 0 {
        assert(texts_view(texts@)[0] == texts@[0]@);
        Some(texts[0].clone())
    } else {
        None
    }
}

/// What UTF-16 encodes, it decodes.
pub proof fn law_utf16_round_trip(text: Seq<char>)
    ensures
        from_utf16(utf16(text)) == text,
    decreases text.len(),
{
    if text.len() > 0 {
        let rest = text.drop_last();
        law_utf16_round_trip(rest);
        lemma_encoding_ends_whole(rest);
        lemma_decode_appended(utf16(rest), text.last(), rest);
        assert(rest.push(text.last()) =~= text);
    }
}

pub(crate) proof fn lemma_encoding_without_zero(text: Seq<char>)
    requires
        forall|k: int| 0 <= k < text.len() ==> (#[trigger] text[k]) != '\0',
    ensures
        utf16(text).len() >= text.len(),
        forall|k: int| 0 <= k < utf16(text).len() ==> (#[trigger] utf16(text)[k]) != 0,
    decreases text.len(),
{
    if text.len() > 0 {
        let rest = text.drop_last();
        assert forall|k: int| 0 <= k < rest.len() implies (#[trigger] rest[k]) != '\0' by {
            assert(text[k] != '\0');
        }
        lemma_encoding_without_zero(rest);
        lemma_code_point(text.last());
        assert(text[text.len() - 1] != '\0');
        let head = utf16(rest);
        let tail = units_of(text.last());
        assert forall|k: int| 0 <= k < utf16(text).len() implies (#[trigger] utf16(text)[k])
            != 0 by {
            if k < head.len() {
                assert(utf16(text)[k] == head[k]);
            } else {
                assert(utf16(text)[k] == tail[k - head.len()]);
            }
        }
    }
}

/// A text that is not empty and holds no zero comes back from its terminated encoding.
pub proof fn law_terminated_text_round_trip(text: Seq<char>)
    requires
        text.len() > 0,
        forall|k: int| 0 <= k < text.len() ==> (#[trigger] text[k]) != '\0',
    ensures
        wide_text(utf16(text).push(0)) == Some(text),
{
    let units = utf16(text);
    let closed = units.push(0);
    lemma_encoding_without_zero(text);
    assert forall|k: int| 0 <= k < units.len() implies (#[trigger] closed[k]) != 0 by {
        assert(closed[k] == units[k]);
    }
    lemma_first_zero(closed, units.len() as int);
    assert(closed.skip(units.len() as int)[0] == 0);
    assert(closed.take(units.len() as int) =~= units);
    law_utf16_round_trip(text);
}

proof fn lemma_encoding_ends_whole(text: Seq<char>)
    ensures
        utf16(text).len() == 0 || !is_high(utf16(text).last()),
{
    if text.len() > 0 {
        let units = units_of(text.last());
        lemma_code_point(text.last());
        assert(utf16(text).last() == units.last());
    }
}

proof fn lemma_decode_one(c: char)
    ensures
        from_utf16(units_of(c)) == seq![c],
{
    reveal_with_fuel(from_utf16, 3);
    let units = units_of(c);
    let value = c as int;
    if value < 0x10000 {
        assert(units.skip(1) =~= seq![]);
        assert(from_utf16(units) =~= seq![c]);
    } else {
        assert(units.skip(2) =~= seq![]);
        let rest = value - 0x10000;
        assert(rest == (rest / 0x400) * 0x400 + rest % 0x400);
        assert(from_utf16(units) =~= seq![c]);
    }
}

proof fn lemma_decode_appended(units: Seq<u16>, c: char, text: Seq<char>)
    requires
        from_utf16(units) == text,
        units.len() == 0 || !is_high(units.last()),
    ensures
        from_utf16(units + units_of(c)) == text.push(c),
    decreases units.len(),
{
    let more = units + units_of(c);
    if units.len() == 0 {
        lemma_decode_one(c);
        assert(more =~= units_of(c));
        assert(text.push(c) =~= seq![c]);
    } else if !is_high(units[0]) && !is_low(units[0]) {
        assert(more.skip(1) =~= units.skip(1) + units_of(c));
        let rest = from_utf16(units.skip(1));
        lemma_decode_appended(units.skip(1), c, rest);
        assert(text.push(c) =~= seq![text[0]] + rest.push(c));
    } else if is_high(units[0]) && units.len() > 1 && is_low(units[1]) {
        assert(more.skip(2) =~= units.skip(2) + units_of(c));
        let rest = from_utf16(units.skip(2));
        lemma_decode_appended(units.skip(2), c, rest);
        assert(text.push(c) =~= seq![text[0]] + rest.push(c));
    } else {
        assert(more.skip(1) =~= units.skip(1) + units_of(c));
        let rest = from_utf16(units.skip(1));
        lemma_decode_appended(units.skip(1), c, rest);
        assert(text.push(c) =~= seq![text[0]] + rest.push(c));
    }
}

} // verus!
