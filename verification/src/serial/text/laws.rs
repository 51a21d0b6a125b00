//! What the text of the serial leaf promises of its readings.

use crate::serial::text::{
    decimal, first_zero, from_utf16, hex_digit, is_blank, is_digit, is_white_space,
    law_utf16_round_trip, le_units, lemma_encoding_without_zero, upper, utf16, wide_text,
    wide_texts,
};
use vstd::prelude::*;

verus! {

/// The value of sixteen hexadecimal digits, and of no other character: the decimal digits count
/// from nought, the first six letters from ten, in either case.
pub proof fn law_hexadecimal_digits(c: char)
    ensures
        hex_digit(c) is Some <==> '0' <= c <= '9' || 'A' <= c <= 'F' || 'a' <= c <= 'f',
        '0' <= c <= '9' ==> hex_digit(c) == Some((c as int) - 48),
        'A' <= c <= 'F' ==> hex_digit(c) == Some((c as int) - 55),
        'a' <= c <= 'f' ==> hex_digit(c) == Some((c as int) - 87),
        is_digit(c) <==> 48 <= c as int <= 57,
{
}

/// The small letters of the ASCII alphabet move by a fixed distance; nothing else changes.
pub proof fn law_only_small_letters_are_raised(c: char)
    ensures
        97 <= c as int <= 122 ==> upper(c) as int == c as int - 32,
        !(97 <= c as int <= 122) ==> upper(c) == c,
        upper(upper(c)) == upper(c),
{
}

/// A text is blank exactly where it shows nothing: one character that is no white space suffices.
pub proof fn law_one_visible_character_suffices(text: Seq<char>)
    ensures
        is_blank(text) <==> !exists|k: int|
            0 <= k < text.len() && !is_white_space(#[trigger] text[k]),
        text.len() == 0 ==> is_blank(text),
{
}

/// The number that decimal digits write.
pub open spec fn number_of(digits: Seq<char>) -> int
    decreases digits.len(),
{
    if digits.len() == 0 {
        0
    } else {
        number_of(digits.drop_last()) * 10 + ((digits.last() as int) - 48)
    }
}

/// A number in decimal reads back as that number; it is written in digits alone, and without a
/// leading nought where it has more than one digit.
pub proof fn law_decimal_reads_back(value: int)
    requires
        value >= 0,
    ensures
        number_of(decimal(value)) == value,
        decimal(value).len() >= 1,
        decimal(value).len() == 1 <==> value < 10,
        forall|k: int| 0 <= k < decimal(value).len() ==> 48 <= (#[trigger] decimal(value)[k]) as int
            <= 57,
        decimal(value).len() > 1 ==> decimal(value)[0] != '0',
    decreases value,
{
    let text = decimal(value);
    if value < 10 {
        assert(text.drop_last() =~= Seq::<char>::empty());
        assert(number_of(text.drop_last()) == 0);
    } else {
        let rest = value / 10;
        law_decimal_reads_back(rest);
        assert(text.drop_last() =~= decimal(rest));
        assert(value == rest * 10 + value % 10);
        assert forall|k: int| 0 <= k < text.len() implies 48 <= (#[trigger] text[k]) as int
            <= 57 by {
            if k < decimal(rest).len() {
                assert(text[k] == decimal(rest)[k]);
            }
        }
        if rest < 10 {
            assert(decimal(rest)[0] as int == 48 + rest);
        }
        assert(text[0] == decimal(rest)[0]);
    }
}

/// Code units as a buffer holds them: the low byte of each before its high byte.
pub open spec fn le_bytes(units: Seq<u16>) -> Seq<u8>
    decreases units.len(),
{
    if units.len() == 0 {
        seq![]
    } else {
        seq![(units[0] as int % 256) as u8, (units[0] as int / 256) as u8] + le_bytes(units.skip(1))
    }
}

/// Code units read back from a buffer, and an odd byte at its end changes nothing.
pub proof fn law_units_read_back(units: Seq<u16>, odd: u8)
    ensures
        le_units(le_bytes(units)) == units,
        le_units(le_bytes(units).push(odd)) == units,
        le_bytes(units).len() == 2 * units.len(),
    decreases units.len(),
{
    let bytes = le_bytes(units);
    if units.len() > 0 {
        law_units_read_back(units.skip(1), odd);
        assert(bytes.skip(2) =~= le_bytes(units.skip(1)));
        assert(bytes.push(odd).skip(2) =~= le_bytes(units.skip(1)).push(odd));
        assert(units =~= seq![units[0]] + units.skip(1));
    }
}

/// Where the first nought stands, nothing before it is one.
pub proof fn law_first_zero(units: Seq<u16>)
    ensures
        0 <= first_zero(units) <= units.len(),
        forall|k: int| 0 <= k < first_zero(units) ==> (#[trigger] units[k]) != 0,
        first_zero(units) < units.len() ==> units[first_zero(units)] == 0,
    decreases units.len(),
{
    if units.len() > 0 && units[0] != 0 {
        let rest = units.skip(1);
        law_first_zero(rest);
        assert forall|k: int| 0 <= k < first_zero(units) implies (#[trigger] units[k]) != 0 by {
            if k > 0 {
                assert(units[k] == rest[k - 1]);
            }
        }
    }
}

/// A buffer shows the text before its first nought, whatever stands behind it.
pub proof fn law_only_the_text_before_a_zero_counts(text: Seq<u16>, behind: Seq<u16>)
    requires
        forall|k: int| 0 <= k < text.len() ==> (#[trigger] text[k]) != 0,
    ensures
        wide_text(text.push(0) + behind) == (if text.len() == 0 {
            None
        } else {
            Some(from_utf16(text))
        }),
        wide_text(text) == (if text.len() == 0 {
            None
        } else {
            Some(from_utf16(text))
        }),
        wide_texts(text.push(0) + behind) == (if text.len() == 0 {
            wide_texts(behind)
        } else {
            seq![from_utf16(text)] + wide_texts(behind)
        }),
{
    let units = text.push(0) + behind;
    law_first_zero(units);
    law_first_zero(text);
    let end = first_zero(units);
    if end < text.len() {
        assert(units[end] == text[end]);
    }
    assert(units[text.len() as int] == 0);
    assert(end == text.len());
    assert(units.take(end) =~= text);
    assert(units.skip(end + 1) =~= behind);
    let own = first_zero(text);
    assert(own == text.len());
    assert(text.take(own) =~= text);
    if text.len() == 0 {
        assert(Seq::<Seq<char>>::empty() + wide_texts(behind) =~= wide_texts(behind));
    }
}

/// Texts as a buffer holds them, each with a nought behind it.
pub open spec fn terminated(texts: Seq<Seq<char>>) -> Seq<u16>
    decreases texts.len(),
{
    if texts.len() == 0 {
        seq![]
    } else {
        utf16(texts[0]).push(0) + terminated(texts.skip(1))
    }
}

/// A list of texts, none of them empty and none with a nought, comes back from a buffer.
pub proof fn law_texts_read_back(texts: Seq<Seq<char>>)
    requires
        forall|i: int| 0 <= i < texts.len() ==> (#[trigger] texts[i]).len() > 0,
        forall|i: int, k: int|
            0 <= i < texts.len() && 0 <= k < texts[i].len() ==> (#[trigger] texts[i][k]) != '\0',
    ensures
        wide_texts(terminated(texts)) == texts,
    decreases texts.len(),
{
    if texts.len() > 0 {
        let rest = texts.skip(1);
        assert forall|i: int| 0 <= i < rest.len() implies (#[trigger] rest[i]).len() > 0 by {
            assert(rest[i] == texts[i + 1]);
        }
        assert forall|i: int, k: int|
            0 <= i < rest.len() && 0 <= k < rest[i].len() implies (#[trigger] rest[i][k])
            != '\0' by {
            assert(rest[i] == texts[i + 1]);
            assert(texts[i + 1][k] != '\0');
        }
        law_texts_read_back(rest);
        let first = texts[0];
        assert forall|k: int| 0 <= k < first.len() implies (#[trigger] first[k]) != '\0' by {
            assert(texts[0][k] != '\0');
        }
        lemma_encoding_without_zero(first);
        law_only_the_text_before_a_zero_counts(utf16(first), terminated(rest));
        law_utf16_round_trip(first);
        assert(texts =~= seq![first] + rest);
    }
}

/// A surrogate that has no partner becomes the replacement character, and the reading goes on
/// behind it; a high one with a low one behind it is one character.
pub proof fn law_lone_surrogates_are_replaced(units: Seq<u16>)
    requires
        units.len() > 0,
    ensures
        ({
            let high = 0xD800 <= units[0] < 0xDC00;
            let low = 0xDC00 <= units[0] < 0xE000;
            let paired = high && units.len() > 1 && 0xDC00 <= units[1] < 0xE000;
            &&& low || high && !paired ==> from_utf16(units) == seq!['\u{FFFD}'] + from_utf16(
                units.skip(1),
            )
            &&& paired ==> from_utf16(units).len() > 0 && from_utf16(units)[0] as int == 0x10000 + (
            units[0] - 0xD800) * 0x400 + (units[1] - 0xDC00) && from_utf16(units).skip(1)
                == from_utf16(units.skip(2))
            &&& !high && !low ==> from_utf16(units).len() > 0 && from_utf16(units)[0] as int
                == units[0] && from_utf16(units).skip(1) == from_utf16(units.skip(1))
        }),
{
    let rest = from_utf16(units.skip(1));
    let behind = from_utf16(units.skip(2));
    let all = from_utf16(units);
    if !(0xD800 <= units[0] < 0xE000) {
        assert(all.skip(1) =~= rest);
    } else if 0xD800 <= units[0] < 0xDC00 && units.len() > 1 && 0xDC00 <= units[1] < 0xE000 {
        assert(all.skip(1) =~= behind);
    }
}

} // verus!
