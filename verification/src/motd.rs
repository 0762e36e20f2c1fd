//! The message that a server shows in the server list. Servers send it as plain
//! text, as an object or as an array, with color codes in it.

use vstd::prelude::*;

use crate::text::chars_of;

verus! {

/// The character that starts a color code.
pub const SECTION_SIGN: char = '\u{a7}';

/// A JSON value, as far as a description is read.
#[derive(Debug)]
pub enum Json {
    Text(String),
    /// The fields of an object, each under its name.
    Object(Vec<(String, Json)>),
    Array(Vec<Json>),
    /// A number, a truth value or null.
    Other,
}

/// `s` without its color codes: every section sign, and the character behind it,
/// is left out.
pub open spec fn stripped(s: Seq<char>) -> Seq<char>
    decreases s.len(),
{
    if s.len() == 0 {
        s
    } else if s[0] != SECTION_SIGN {
        seq![s[0]] + stripped(s.skip(1))
    } else if s.len() == 1 {
        seq![]
    } else {
        stripped(s.skip(2))
    }
}

/// The value of the first field with the name `key`.
pub open spec fn field(fields: Seq<(String, Json)>, key: Seq<char>) -> Option<Json>
    decreases fields.len(),
{
    if fields.len() == 0 {
        None
    } else if fields[0].0@ == key {
        Some(fields[0].1)
    } else {
        field(fields.skip(1), key)
    }
}

/// The text that an object carries, without its color codes.
pub open spec fn object_text(fields: Seq<(String, Json)>) -> Seq<char> {
    match field(fields, "text"@) {
        Some(Json::Text(s)) => stripped(s@),
        _ => seq![],
    }
}

/// What an element of a description that is an array adds to the message.
pub open spec fn element_text(item: Json) -> Seq<char> {
    match item {
        Json::Object(fields) => object_text(fields@),
        _ => seq![],
    }
}

/// What an element of the extra parts of a description adds to the message.
pub open spec fn extra_text(item: Json) -> Seq<char> {
    match item {
        Json::Object(fields) => object_text(fields@),
        Json::Text(s) => stripped(s@),
        _ => seq![],
    }
}

/// What `part` makes of the items, one after the other.
pub open spec fn joined(items: Seq<Json>, part: spec_fn(Json) -> Seq<char>) -> Seq<char>
    decreases items.len(),
{
    if items.len() == 0 {
        seq![]
    } else {
        joined(items.drop_last(), part) + part(items.last())
    }
}

/// The text of the extra parts of a description.
pub open spec fn extra(value: Json) -> Seq<char> {
    match value {
        Json::Array(items) => joined(items@, |item: Json| extra_text(item)),
        _ => seq![],
    }
}

/// The message of a description.
pub open spec fn motd(desc: Json) -> Seq<char> {
    match desc {
        Json::Text(s) => stripped(s@),
        Json::Object(fields) => object_text(fields@) + match field(fields@, "extra"@) {
            Some(value) => extra(value),
            None => seq![],
        },
        Json::Array(items) => joined(items@, |item: Json| element_text(item)),
        Json::Other => seq![],
    }
}

/// `text` without its color codes.
pub fn strip_color_codes(text: &str) -> (result: String)
    ensures
        result@ == stripped(text@),
{
    let chars = chars_of(text);
    let mut result: String = String::new();
    let mut i: usize = 0;
    assert(chars@.skip(0) =~= text@);
    while i < chars.len()
        invariant
            i <= chars.len(),
            chars@ == text@,
            stripped(text@) == result@ + stripped(chars@.skip(i as int)),
        decreases chars.len() - i,
    {
        let ghost rest = chars@.skip(i as int);
        let c = chars[i];
        if c != SECTION_SIGN {
            assert(rest.skip(1) =~= chars@.skip(i as int + 1));
            let ghost before = result@;
            result.push(c);
            i = i + 1;
            assert(before + (seq![c] + stripped(chars@.skip(i as int))) =~= result@ + stripped(
                chars@.skip(i as int),
            ));
        } else if chars.len() - i == 1 {
            i = i + 1;
            assert(chars@.skip(i as int) =~= Seq::<char>::empty());
        } else {
            assert(rest.skip(2) =~= chars@.skip(i as int + 2));
            i = i + 2;
        }
    }
    assert(chars@.skip(i as int) =~= Seq::<char>::empty());
    assert(result@ + stripped(chars@.skip(i as int)) =~= result@);
    result
}

/// The value of the field with the name `key`.
pub fn get_field<'a>(fields: &'a Vec<(String, Json)>, key: &str) -> (value: Option<&'a Json>)
    ensures
        match value {
            Some(v) => field(fields@, key@) == Some(*v),
            None => field(fields@, key@) is None,
        },
{
    let wanted: String = key.to_owned();
    let mut i: usize = 0;
    assert(fields@.skip(0) =~= fields@);
    while i < fields.len()
        invariant
            i <= fields.len(),
            wanted@ == key@,
            field(fields@, key@) == field(fields@.skip(i as int), key@),
        decreases fields.len() - i,
    {
        if fields[i].0 == wanted {
            return Some(&fields[i].1);
        }
        assert(fields@.skip(i as int).skip(1) =~= fields@.skip(i as int + 1));
        i = i + 1;
    }
    None
}

/// The text that an object carries, without its color codes.
fn read_object_text(fields: &Vec<(String, Json)>) -> (text: String)
    ensures
        text@ == object_text(fields@),
{
    match get_field(fields, "text") {
        Some(Json::Text(s)) => strip_color_codes(s.as_str()),
        _ => String::new(),
    }
}

/// The text of the extra parts of a description: an array of objects and plain
/// texts. Whatever else stands there adds nothing.
pub fn parse_extra(value: &Json) -> (text: String)
    ensures
        text@ == extra(*value),
{
    let mut text: String = String::new();
    if let Json::Array(items) = value {
        let ghost part = |item: Json| extra_text(item);
        let mut i: usize = 0;
        while i < items.len()
            invariant
                i <= items.len(),
                part == (|item: Json| extra_text(item)),
                text@ == joined(items@.take(i as int), part),
            decreases items.len() - i,
        {
            match &items[i] {
                Json::Object(fields) => {
                    text.append(read_object_text(fields).as_str());
                },
                Json::Text(s) => {
                    text.append(strip_color_codes(s.as_str()).as_str());
                },
                _ => {},
            }
            i = i + 1;
            assert(items@.take(i as int).drop_last() =~= items@.take(i - 1));
            assert(text@ =~= joined(items@.take(i as int), part));
        }
        assert(items@.take(i as int) =~= items@);
    }
    text
}

/// The message of a description: plain text, an object with a text and extra
/// parts, or an array of objects with a text each.
pub fn parse_motd(desc: &Json) -> (text: String)
    ensures
        text@ == motd(*desc),
{
    match desc {
        Json::Text(s) => strip_color_codes(s.as_str()),
        Json::Object(fields) => {
            let mut text = read_object_text(fields);
            if let Some(value) = get_field(fields, "extra") {
                text.append(parse_extra(value).as_str());
            }
            assert(text@ =~= motd(*desc));
            text
        },
        Json::Array(items) => {
            let mut text: String = String::new();
            let ghost part = |item: Json| element_text(item);
            let mut i: usize = 0;
            while i < items.len()
                invariant
                    i <= items.len(),
                    part == (|item: Json| element_text(item)),
                    text@ == joined(items@.take(i as int), part),
                decreases items.len() - i,
            {
                if let Json::Object(fields) = &items[i] {
                    text.append(read_object_text(fields).as_str());
                }
                i = i + 1;
                assert(items@.take(i as int).drop_last() =~= items@.take(i - 1));
                assert(text@ =~= joined(items@.take(i as int), part));
            }
            assert(items@.take(i as int) =~= items@);
            text
        },
        Json::Other => String::new(),
    }
}

/// No section sign is left in stripped text.
pub proof fn law_stripped_has_no_codes(s: Seq<char>)
    ensures
        !stripped(s).contains(SECTION_SIGN),
    decreases s.len(),
{
    if s.len() > 0 && s[0] != SECTION_SIGN {
        law_stripped_has_no_codes(s.skip(1));
        let rest = stripped(s.skip(1));
        assert forall|i: int| 0 <= i < stripped(s).len() implies stripped(s)[i] != SECTION_SIGN by {
            if i > 0 {
                assert(rest.contains(rest[i - 1]));
            }
        }
    } else if s.len() > 1 {
        law_stripped_has_no_codes(s.skip(2));
    }
}

/// Text without a section sign stays as it is.
pub proof fn law_stripped_keeps_plain_text(s: Seq<char>)
    requires
        !s.contains(SECTION_SIGN),
    ensures
        stripped(s) == s,
    decreases s.len(),
{
    if s.len() > 0 {
        assert(s.contains(s[0]));
        assert forall|i: int| 0 <= i < s.skip(1).len() implies s.skip(1)[i] != SECTION_SIGN by {
            assert(s.contains(s[i + 1]));
        }
        law_stripped_keeps_plain_text(s.skip(1));
        assert(seq![s[0]] + s.skip(1) =~= s);
    }
}

/// A text is stripped piece by piece, if no color code lies across the pieces.
pub proof fn law_stripped_in_pieces(before: Seq<char>, after: Seq<char>)
    requires
        before.len() > 0 ==> before.last() != SECTION_SIGN,
    ensures
        stripped(before + after) == stripped(before) + stripped(after),
    decreases before.len(),
{
    let whole = before + after;
    if before.len() == 0 {
        assert(whole =~= after);
        assert(stripped(before) + stripped(after) =~= stripped(after));
    } else if before[0] != SECTION_SIGN {
        let rest = before.skip(1);
        law_stripped_in_pieces(rest, after);
        assert(whole.skip(1) =~= rest + after);
        assert(seq![before[0]] + (stripped(rest) + stripped(after)) =~= stripped(before)
            + stripped(after));
    } else {
        let rest = before.skip(2);
        law_stripped_in_pieces(rest, after);
        assert(whole.skip(2) =~= rest + after);
    }
}

/// A section sign with nothing behind it is left out, and nothing else with it.
pub proof fn law_lone_sign_is_left_out(before: Seq<char>)
    requires
        before.len() > 0 ==> before.last() != SECTION_SIGN,
    ensures
        stripped(before + seq![SECTION_SIGN]) == stripped(before),
{
    law_stripped_in_pieces(before, seq![SECTION_SIGN]);
    assert(stripped(before) + stripped(seq![SECTION_SIGN]) =~= stripped(before));
}

/// A color code is left out wherever it stands, and what stands before and behind
/// it is what it would be alone.
pub proof fn law_code_is_left_out(before: Seq<char>, code: char, after: Seq<char>)
    requires
        before.len() > 0 ==> before.last() != SECTION_SIGN,
    ensures
        stripped(before + seq![SECTION_SIGN, code] + after) == stripped(before) + stripped(after),
{
    let from_code = seq![SECTION_SIGN, code] + after;
    assert(before + seq![SECTION_SIGN, code] + after =~= before + from_code);
    law_stripped_in_pieces(before, from_code);
    assert(from_code.skip(2) =~= after);
}

/// Stripping twice is stripping once.
pub proof fn law_strip_twice(s: Seq<char>)
    ensures
        stripped(stripped(s)) == stripped(s),
{
    law_stripped_has_no_codes(s);
    law_stripped_keeps_plain_text(stripped(s));
}

proof fn lemma_object_text_has_no_codes(fields: Seq<(String, Json)>)
    ensures
        !object_text(fields).contains(SECTION_SIGN),
{
    if let Some(Json::Text(s)) = field(fields, "text"@) {
        law_stripped_has_no_codes(s@);
    }
}

proof fn lemma_joined_has_no_codes(items: Seq<Json>, part: spec_fn(Json) -> Seq<char>)
    requires
        forall|item: Json| !(#[trigger] part(item)).contains(SECTION_SIGN),
    ensures
        !joined(items, part).contains(SECTION_SIGN),
    decreases items.len(),
{
    if items.len() > 0 {
        lemma_joined_has_no_codes(items.drop_last(), part);
        let head = joined(items.drop_last(), part);
        let tail = part(items.last());
        assert forall|i: int| 0 <= i < (head + tail).len() implies (head + tail)[i]
            != SECTION_SIGN by {
            if i < head.len() {
                assert(head.contains(head[i]));
            } else {
                assert(tail.contains(tail[i - head.len()]));
            }
        }
    }
}

proof fn lemma_extra_has_no_codes(value: Json)
    ensures
        !extra(value).contains(SECTION_SIGN),
{
    if let Json::Array(items) = value {
        let part = |item: Json| extra_text(item);
        assert forall|item: Json| !(#[trigger] part(item)).contains(SECTION_SIGN) by {
            match item {
                Json::Object(fields) => lemma_object_text_has_no_codes(fields@),
                Json::Text(s) => law_stripped_has_no_codes(s@),
                _ => {},
            }
        }
        lemma_joined_has_no_codes(items@, part);
    }
}

/// No section sign is left in a message, in whichever form it was sent.
pub proof fn law_motd_has_no_codes(desc: Json)
    ensures
        !motd(desc).contains(SECTION_SIGN),
{
    match desc {
        Json::Text(s) => law_stripped_has_no_codes(s@),
        Json::Object(fields) => {
            lemma_object_text_has_no_codes(fields@);
            let head = object_text(fields@);
            if let Some(value) = field(fields@, "extra"@) {
                lemma_extra_has_no_codes(value);
                let tail = extra(value);
                assert forall|i: int| 0 <= i < (head + tail).len() implies (head + tail)[i]
                    != SECTION_SIGN by {
                    if i < head.len() {
                        assert(head.contains(head[i]));
                    } else {
                        assert(tail.contains(tail[i - head.len()]));
                    }
                }
            } else {
                assert(motd(desc) =~= head);
            }
        },
        Json::Array(items) => {
            let part = |item: Json| element_text(item);
            assert forall|item: Json| !(#[trigger] part(item)).contains(SECTION_SIGN) by {
                if let Json::Object(fields) = item {
                    lemma_object_text_has_no_codes(fields@);
                }
            }
            lemma_joined_has_no_codes(items@, part);
        },
        Json::Other => {},
    }
}

/// The same text gives the same message whether it is sent as plain text, as an
/// object that carries it, or as an array of that object.
pub proof fn law_motd_forms_agree(
    text: String,
    name: String,
    fields: Vec<(String, Json)>,
    items: Vec<Json>,
)
    requires
        name@ == "text"@,
        fields@ == seq![(name, Json::Text(text))],
        items@ == seq![Json::Object(fields)],
    ensures
        motd(Json::Text(text)) == stripped(text@),
        motd(Json::Object(fields)) == stripped(text@),
        motd(Json::Array(items)) == stripped(text@),
{
    reveal_strlit("text");
    reveal_strlit("extra");
    reveal_with_fuel(field, 2);
    reveal_with_fuel(joined, 2);
    assert("text"@.len() != "extra"@.len());
    assert(fields@.skip(1) =~= Seq::empty());
    assert(items@.drop_last() =~= Seq::empty());
    assert(motd(Json::Object(fields)) =~= stripped(text@));
    assert(motd(Json::Array(items)) =~= stripped(text@));
}

/// The same text gives the same message if it is sent as the only extra part of
/// an object, plain or as an object that carries it.
pub proof fn law_motd_extra_forms_agree(
    text: String,
    text_name: String,
    extra_name: String,
    inner: Vec<(String, Json)>,
    items: Vec<Json>,
    fields: Vec<(String, Json)>,
)
    requires
        text_name@ == "text"@,
        extra_name@ == "extra"@,
        inner@ == seq![(text_name, Json::Text(text))],
        items@ == seq![Json::Text(text)] || items@ == seq![Json::Object(inner)],
        fields@ == seq![(extra_name, Json::Array(items))],
    ensures
        motd(Json::Object(fields)) == stripped(text@),
        motd(Json::Object(fields)) == motd(Json::Text(text)),
{
    reveal_strlit("text");
    reveal_strlit("extra");
    reveal_with_fuel(field, 2);
    reveal_with_fuel(joined, 2);
    assert("text"@.len() != "extra"@.len());
    assert(fields@.skip(1) =~= Seq::empty());
    assert(inner@.skip(1) =~= Seq::empty());
    assert(items@.drop_last() =~= Seq::empty());
    assert(extra_text(items@[0]) =~= stripped(text@));
    assert(motd(Json::Object(fields)) =~= stripped(text@));
}

/// Extra parts follow one another in the message as they were sent: one more at
/// the end adds its text at the end. A plain text adds itself, an object the text
/// that it carries, and anything else nothing. All of it is without color codes.
pub proof fn law_extra_part_comes_last(items: Vec<Json>, longer: Vec<Json>, item: Json)
    requires
        longer@ == items@.push(item),
    ensures
        extra(Json::Array(longer)) == extra(Json::Array(items)) + extra_text(item),
        item matches Json::Text(t) ==> extra(Json::Array(longer)) == extra(Json::Array(items))
            + stripped(t@),
        item matches Json::Object(inner) ==> (field(inner@, "text"@) matches Some(Json::Text(t))
            ==> extra(Json::Array(longer)) == extra(Json::Array(items)) + stripped(t@)),
        item matches Json::Object(inner) ==> !(field(inner@, "text"@) matches Some(Json::Text(_)))
            ==> extra(Json::Array(longer)) == extra(Json::Array(items)),
        item is Array || item is Other ==> extra(Json::Array(longer)) == extra(Json::Array(items)),
{
    assert(longer@.drop_last() =~= items@);
    let before = extra(Json::Array(items));
    assert(before + Seq::<char>::empty() =~= before);
}

/// Without extra parts, or with something in their place that is no array, there
/// is nothing to add.
pub proof fn law_no_extra_parts(value: Json)
    requires
        value matches Json::Array(items) ==> items@.len() == 0,
    ensures
        extra(value).len() == 0,
{
}

/// The elements of a description that is an array follow one another in the
/// message: one more at the end adds at the end the text that it carries if it is
/// an object, without color codes, and nothing otherwise.
pub proof fn law_array_element_comes_last(items: Vec<Json>, longer: Vec<Json>, item: Json)
    requires
        longer@ == items@.push(item),
    ensures
        item matches Json::Object(inner) ==> (field(inner@, "text"@) matches Some(Json::Text(t))
            ==> motd(Json::Array(longer)) == motd(Json::Array(items)) + stripped(t@)),
        item matches Json::Object(inner) ==> !(field(inner@, "text"@) matches Some(Json::Text(_)))
            ==> motd(Json::Array(longer)) == motd(Json::Array(items)),
        !(item is Object) ==> motd(Json::Array(longer)) == motd(Json::Array(items)),
{
    assert(longer@.drop_last() =~= items@);
    let before = motd(Json::Array(items));
    assert(before + Seq::<char>::empty() =~= before);
}

/// The message of a plain text is the text without its color codes. That of an
/// array without elements is empty, and so is that of a number, a truth value or
/// null.
pub proof fn law_motd_of_simple_values(desc: Json)
    ensures
        desc matches Json::Text(t) ==> motd(desc) == stripped(t@),
        desc matches Json::Array(items) ==> items@.len() == 0 ==> motd(desc).len() == 0,
        desc is Other ==> motd(desc).len() == 0,
{
}

/// The message of an object is its text, if it has one that is plain, and behind
/// it its extra parts, whatever the text is.
pub proof fn law_motd_of_object(fields: Vec<(String, Json)>)
    ensures
        ({
            let own = field(fields@, "text"@);
            let parts = field(fields@, "extra"@);
            let message = motd(Json::Object(fields));
            let plain = own matches Some(Json::Text(_));
            &&& own matches Some(Json::Text(t)) ==> (parts matches Some(value) ==> message
                == stripped(t@) + extra(value))
            &&& own matches Some(Json::Text(t)) ==> parts is None ==> message == stripped(t@)
            &&& !plain ==> (parts matches Some(value) ==> message == extra(value))
            &&& !plain && parts is None ==> message.len() == 0
        }),
{
    if let Some(Json::Text(t)) = field(fields@, "text"@) {
        assert(stripped(t@) + Seq::<char>::empty() =~= stripped(t@));
    }
    if let Some(value) = field(fields@, "extra"@) {
        assert(Seq::<char>::empty() + extra(value) =~= extra(value));
    }
}

/// Wherever an object that has no name twice holds its text and its extra parts,
/// and whatever else it holds, the message is the text followed by the parts. The
/// text may be empty.
pub proof fn law_text_comes_before_extra_parts(
    fields: Vec<(String, Json)>,
    text_at: int,
    extra_at: int,
    text: String,
    items: Vec<Json>,
)
    requires
        forall|a: int, b: int|
            0 <= a < b < fields@.len() ==> #[trigger] fields@[a].0@ != #[trigger] fields@[b].0@,
        0 <= text_at < fields@.len(),
        0 <= extra_at < fields@.len(),
        fields@[text_at].0@ == "text"@,
        fields@[text_at].1 == Json::Text(text),
        fields@[extra_at].0@ == "extra"@,
        fields@[extra_at].1 == Json::Array(items),
    ensures
        motd(Json::Object(fields)) == stripped(text@) + extra(Json::Array(items)),
        text@.len() == 0 ==> motd(Json::Object(fields)) == extra(Json::Array(items)),
{
    law_field_by_name(fields@, text_at);
    law_field_by_name(fields@, extra_at);
    law_motd_of_object(fields);
    assert(Seq::<char>::empty() + extra(Json::Array(items)) =~= extra(Json::Array(items)));
}

/// A name finds the first field that has it, and nothing if none does.
pub proof fn law_field_is_the_first(fields: Seq<(String, Json)>, key: Seq<char>)
    ensures
        field(fields, key) is None <==> forall|i: int|
            0 <= i < fields.len() ==> (#[trigger] fields[i]).0@ != key,
        field(fields, key) matches Some(value) ==> exists|i: int|
            {
                &&& 0 <= i < fields.len()
                &&& (#[trigger] fields[i]).0@ == key
                &&& fields[i].1 == value
                &&& forall|j: int| 0 <= j < i ==> (#[trigger] fields[j]).0@ != key
            },
    decreases fields.len(),
{
    if fields.len() > 0 && fields[0].0@ != key {
        let rest = fields.skip(1);
        law_field_is_the_first(rest, key);
        assert forall|i: int| 0 <= i < rest.len() implies rest[i] == #[trigger] fields[i + 1] by {}
        if field(rest, key) is None {
            assert forall|i: int| 0 <= i < fields.len() implies (#[trigger] fields[i]).0@
                != key by {
                if i > 0 {
                    assert(rest[i - 1].0@ != key);
                }
            }
        } else {
            let at = choose|i: int|
                {
                    &&& 0 <= i < rest.len()
                    &&& (#[trigger] rest[i]).0@ == key
                    &&& rest[i].1 == field(rest, key)->0
                    &&& forall|j: int| 0 <= j < i ==> (#[trigger] rest[j]).0@ != key
                };
            assert(fields[at + 1].0@ == key);
            assert forall|j: int| 0 <= j < at + 1 implies (#[trigger] fields[j]).0@ != key by {
                if j > 0 {
                    assert(rest[j - 1].0@ != key);
                }
            }
        }
    } else if fields.len() > 0 {
        assert(fields[0].0@ == key);
    }
}

/// In an object that has no name twice, a field is found under its name wherever
/// it stands.
pub proof fn law_field_by_name(fields: Seq<(String, Json)>, i: int)
    requires
        0 <= i < fields.len(),
        forall|a: int, b: int|
            0 <= a < b < fields.len() ==> #[trigger] fields[a].0@ != #[trigger] fields[b].0@,
    ensures
        field(fields, fields[i].0@) == Some(fields[i].1),
    decreases i,
{
    if i > 0 {
        let rest = fields.skip(1);
        assert(fields[0].0@ != fields[i].0@);
        assert(rest[i - 1] == fields[i]);
        assert forall|a: int, b: int| 0 <= a < b < rest.len() implies #[trigger] rest[a].0@
            != #[trigger] rest[b].0@ by {
            assert(fields[a + 1].0@ != fields[b + 1].0@);
        }
        law_field_by_name(rest, i - 1);
    }
}

} // verus!
