//! Player identifiers, written as pairs of hexadecimal digits with dashes
//! between them.

use vstd::prelude::*;
use vstd::utf8::*;

use crate::text::chars_of;

verus! {

/// The characters of `uuid` that are no dashes.
pub open spec fn without_dashes(uuid: Seq<char>) -> Seq<char> {
    uuid.filter(|c: char| c != '-')
}

/// The bytes of `uuid` from which the pairs are taken.
pub open spec fn uuid_text(uuid: Seq<char>) -> Seq<u8> {
    encode_utf8(without_dashes(uuid))
}

/// Whether `uuid` falls into pairs of bytes none of which begins or ends inside
/// a character.
pub open spec fn uuid_readable(uuid: Seq<char>) -> bool {
    let text = uuid_text(uuid);
    &&& text.len() % 2 == 0
    &&& forall|i: int|
        0 <= i < text.len() && i % 2 == 0 ==> #[trigger] is_char_boundary(text, i)
}

/// The value of a hexadecimal digit of either case.
pub open spec fn hex_value(b: u8) -> Option<u8> {
    if 0x30 <= b <= 0x39 {
        Some((b - 0x30) as u8)
    } else if 0x61 <= b <= 0x66 {
        Some((b - 0x61 + 10) as u8)
    } else if 0x41 <= b <= 0x46 {
        Some((b - 0x41 + 10) as u8)
    } else {
        None
    }
}

/// The number that a pair of bytes spells: two digits, or a plus sign and one
/// digit. Any other pair counts as zero.
pub open spec fn hex_pair(first: u8, second: u8) -> u8 {
    match (hex_value(first), hex_value(second)) {
        (Some(high), Some(low)) => (16 * high + low) as u8,
        (None, Some(low)) => if first == 0x2b {
            low
        } else {
            0
        },
        _ => 0,
    }
}

/// The numbers that the pairs of `text` spell.
pub open spec fn hex_bytes(text: Seq<u8>) -> Seq<u8> {
    Seq::new(text.len() / 2, |i: int| hex_pair(text[2 * i], text[2 * i + 1]))
}

/// The bytes of the identifier that `uuid` spells.
pub open spec fn uuid_bytes(uuid: Seq<char>) -> Seq<u8> {
    hex_bytes(uuid_text(uuid))
}

fn hex_digit(b: u8) -> (value: Option<u8>)
    ensures
        value == hex_value(b),
{
    if 0x30 <= b && b <= 0x39 {
        Some(b - 0x30)
    } else if 0x61 <= b && b <= 0x66 {
        Some(b - 0x61 + 10)
    } else if 0x41 <= b && b <= 0x46 {
        Some(b - 0x41 + 10)
    } else {
        None
    }
}

fn read_hex_pair(first: u8, second: u8) -> (value: u8)
    ensures
        value == hex_pair(first, second),
{
    match (hex_digit(first), hex_digit(second)) {
        (Some(high), Some(low)) => 16 * high + low,
        (None, Some(low)) => if first == 0x2b {
            low
        } else {
            0
        },
        _ => 0,
    }
}

fn drop_dashes(uuid: &str) -> (clean: String)
    ensures
        clean@ == without_dashes(uuid@),
{
    let chars = chars_of(uuid);
    let mut clean: String = String::new();
    let mut i: usize = 0;
    assert(clean@ =~= without_dashes(chars@.take(0))) by {
        reveal(Seq::filter);
    }
    while i < chars.len()
        invariant
            i <= chars.len(),
            clean@ == without_dashes(chars@.take(i as int)),
        decreases chars.len() - i,
    {
        let c = chars[i];
        if c != '-' {
            clean.push(c);
        }
        i = i + 1;
        proof {
            reveal(Seq::filter);
            assert(chars@.take(i as int).drop_last() =~= chars@.take(i - 1));
        }
    }
    assert(chars@.take(i as int) =~= uuid@);
    clean
}

/// The bytes of the identifier that `uuid` spells. Dashes do not count, and a
/// pair that is no number counts as zero.
pub fn parse_uuid(uuid: &str) -> (bytes: Vec<u8>)
    requires
        uuid_readable(uuid@),
    ensures
        bytes@ == uuid_bytes(uuid@),
{
    let clean = drop_dashes(uuid);
    let text = clean.as_str().as_bytes();
    let mut bytes: Vec<u8> = Vec::new();
    let mut i: usize = 0;
    while i < text.len()
        invariant
            text@ == uuid_text(uuid@),
            text@.len() % 2 == 0,
            i % 2 == 0,
            i <= text.len(),
            bytes@ == hex_bytes(text@).take(i as int / 2),
        decreases text.len() - i,
    {
        bytes.push(read_hex_pair(text[i], text[i + 1]));
        i = i + 2;
        assert(bytes@ =~= hex_bytes(text@).take(i as int / 2));
    }
    assert(hex_bytes(text@).take(i as int / 2) =~= hex_bytes(text@));
    bytes
}

/// Whether `digits` are the hexadecimal digits of `bytes`, two to a byte, each in
/// either case.
pub open spec fn spells(digits: Seq<char>, bytes: Seq<u8>) -> bool {
    &&& is_ascii_chars(digits)
    &&& digits.len() == 2 * bytes.len()
    &&& forall|i: int|
        #![trigger bytes[i]]
        0 <= i < bytes.len() ==> {
            &&& hex_value(digits[2 * i] as u8) == Some((bytes[i] / 16) as u8)
            &&& hex_value(digits[2 * i + 1] as u8) == Some((bytes[i] % 16) as u8)
        }
}

/// A hexadecimal digit has the value of its place among the sixteen, in either
/// case, and nothing else is one.
pub proof fn law_hex_digits(b: u8, d: u8)
    ensures
        hex_value(b) == Some(d) <==> d < 16 && (b as char == "0123456789abcdef"@[d as int]
            || b as char == "0123456789ABCDEF"@[d as int]),
{
    reveal_strlit("0123456789abcdef");
    reveal_strlit("0123456789ABCDEF");
}

/// Every pair of bytes of the text gives one byte of the identifier: the number
/// of two digits, that of one digit behind a plus sign, and zero for anything
/// else. Nothing else is in it.
pub proof fn law_uuid_by_pairs(uuid: Seq<char>, i: int)
    requires
        0 <= i < encode_utf8(without_dashes(uuid)).len() / 2,
    ensures
        uuid_bytes(uuid).len() == encode_utf8(without_dashes(uuid)).len() / 2,
        ({
            let first = encode_utf8(without_dashes(uuid))[2 * i];
            let second = encode_utf8(without_dashes(uuid))[2 * i + 1];
            let byte = uuid_bytes(uuid)[i];
            &&& hex_value(first) matches Some(high) ==> (hex_value(second) matches Some(low) ==> byte
                == 16 * high + low)
            &&& first as char == '+' ==> (hex_value(second) matches Some(low) ==> byte == low)
            &&& hex_value(first) is None && first as char != '+' ==> byte == 0
            &&& hex_value(second) is None ==> byte == 0
        }),
{
    let first = encode_utf8(without_dashes(uuid))[2 * i];
    let second = encode_utf8(without_dashes(uuid))[2 * i + 1];
    assert(uuid_bytes(uuid)[i] == hex_pair(first, second));
}

/// Of a text, what is left without dashes is what is left of its pieces, and of a
/// single character it is the character unless that is a dash.
pub proof fn law_without_dashes(before: Seq<char>, after: Seq<char>, c: char)
    ensures
        without_dashes(before + after) == without_dashes(before) + without_dashes(after),
        c != '-' ==> without_dashes(seq![c]) == seq![c],
        without_dashes(seq!['-']).len() == 0,
{
    Seq::filter_distributes_over_add(before, after, |c: char| c != '-');
    reveal(Seq::filter);
    assert(seq![c].drop_last() =~= Seq::empty());
    assert(seq!['-'].drop_last() =~= Seq::empty());
    assert(without_dashes(seq![c].drop_last()) =~= Seq::empty());
    assert(without_dashes(seq!['-'].drop_last()) =~= Seq::empty());
    if c != '-' {
        assert(without_dashes(seq![c]) =~= seq![c]);
    }
}

/// Text can be read in pairs exactly if it has an even number of bytes and every
/// pair begins where a character does, not counting dashes.
pub proof fn law_uuid_readable(uuid: Seq<char>)
    ensures
        uuid_readable(uuid) <==> {
            let text = encode_utf8(without_dashes(uuid));
            &&& text.len() % 2 == 0
            &&& forall|i: int|
                0 <= i < text.len() && i % 2 == 0 ==> #[trigger] is_char_boundary(text, i)
        },
{
}

/// Text of an even number of ASCII characters, not counting dashes, can be read
/// in pairs.
pub proof fn law_ascii_uuid_readable(uuid: Seq<char>)
    requires
        is_ascii_chars(without_dashes(uuid)),
        without_dashes(uuid).len() % 2 == 0,
    ensures
        uuid_readable(uuid),
        uuid_text(uuid).len() == without_dashes(uuid).len(),
        forall|i: int|
            0 <= i < without_dashes(uuid).len() ==> uuid_text(uuid)[i]
                == #[trigger] without_dashes(uuid)[i] as u8,
{
    let clean = without_dashes(uuid);
    let text = uuid_text(uuid);
    is_ascii_chars_encode_utf8(clean);
    encode_utf8_valid_utf8(clean);
    assert forall|i: int| 0 <= i < text.len() && i % 2 == 0 implies #[trigger] is_char_boundary(
        text,
        i,
    ) by {
        is_char_boundary_iff_not_is_continuation_byte(text, i);
        assert(clean[i] as u8 == text[i]);
    }
}

/// The digits of some bytes, with dashes put anywhere between them, are read
/// back as those bytes.
pub proof fn law_uuid_round_trip(uuid: Seq<char>, bytes: Seq<u8>)
    requires
        spells(without_dashes(uuid), bytes),
    ensures
        uuid_readable(uuid),
        uuid_bytes(uuid) == bytes,
{
    law_ascii_uuid_readable(uuid);
    let clean = without_dashes(uuid);
    let text = uuid_text(uuid);
    assert forall|i: int| 0 <= i < bytes.len() implies hex_pair(text[2 * i], text[2 * i + 1])
        == bytes[i] by {
        assert(text[2 * i] == clean[2 * i] as u8);
        assert(text[2 * i + 1] == clean[2 * i + 1] as u8);
    }
    assert(uuid_bytes(uuid) =~= bytes);
}

/// A dash put anywhere makes no difference.
pub proof fn law_uuid_dashes_do_not_count(before: Seq<char>, after: Seq<char>)
    ensures
        uuid_readable(before + seq!['-'] + after) == uuid_readable(before + after),
        uuid_bytes(before + seq!['-'] + after) == uuid_bytes(before + after),
{
    let keep = |c: char| c != '-';
    Seq::filter_distributes_over_add(before, after, keep);
    Seq::filter_distributes_over_add(before + seq!['-'], after, keep);
    assert((before + seq!['-']).drop_last() =~= before);
    assert((before + seq!['-']).filter(keep) == before.filter(keep)) by {
        reveal(Seq::filter);
    }
}

/// An identifier has half as many bytes as its text, without the dashes.
pub proof fn law_uuid_length(uuid: Seq<char>)
    requires
        uuid_readable(uuid),
    ensures
        2 * uuid_bytes(uuid).len() == uuid_text(uuid).len(),
{
}

} // verus!
