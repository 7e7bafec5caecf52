//! JSON: documents that the library builds, and the calls into `serde_json` that
//! write them.

use serde_json::Value;
use vstd::prelude::*;

verus! {

/// What a JSON document says. The members of an object have no order. A number
/// stands for itself by its text.
pub enum Json {
    Null,
    Flag(bool),
    Number(Seq<char>),
    Text(Seq<char>),
    List(Seq<Json>),
    Object(Map<Seq<char>, Json>),
}

/// A JSON document without numbers.
#[derive(Debug, PartialEq, Eq)]
pub enum Document {
    Null,
    Flag(bool),
    Text(String),
    List(Vec<Document>),
    Object(Vec<(String, Document)>),
}

/// What each document of a list says.
pub open spec fn list_of(items: Seq<Document>) -> Seq<Json>
    decreases items,
{
    if items.len() == 0 {
        Seq::empty()
    } else {
        list_of(items.drop_last()).push(items[items.len() - 1].json())
    }
}

/// What the members of an object say, by their keys.
pub open spec fn members_of(fields: Seq<(String, Document)>) -> Map<Seq<char>, Json>
    decreases fields,
{
    if fields.len() == 0 {
        Map::empty()
    } else {
        members_of(fields.drop_last()).insert(
            fields[fields.len() - 1].0@,
            fields[fields.len() - 1].1.json(),
        )
    }
}

impl Document {
    /// What the document says.
    pub open spec fn json(self) -> Json
        decreases self,
    {
        match self {
            Document::Null => Json::Null,
            Document::Flag(flag) => Json::Flag(flag),
            Document::Text(text) => Json::Text(text@),
            Document::List(items) => Json::List(list_of(items@)),
            Document::Object(fields) => Json::Object(members_of(fields@)),
        }
    }

    /// No key occurs twice in an object.
    pub open spec fn wf(self) -> bool
        decreases self,
    {
        match self {
            Document::List(items) => forall|i: int|
                0 <= i < items@.len() ==> (#[trigger] items@[i]).wf(),
            Document::Object(fields) => {
                &&& distinct_keys(fields@)
                &&& forall|i: int| 0 <= i < fields@.len() ==> (#[trigger] fields@[i]).1.wf()
            },
            _ => true,
        }
    }
}

/// Whether no key occurs twice.
pub open spec fn distinct_keys<T>(fields: Seq<(String, T)>) -> bool {
    forall|i: int, j: int|
        0 <= i < j < fields.len() ==> (#[trigger] fields[i]).0@ != (#[trigger] fields[j]).0@
}

/// A JSON value of `serde_json`.
#[verifier::external_type_specification]
#[verifier::external_body]
pub struct ExValue(serde_json::Value);

/// What a value of `serde_json` holds.
pub uninterp spec fn held(value: Value) -> Json;

/// What each value of a list holds.
pub open spec fn held_list(values: Seq<Value>) -> Seq<Json> {
    Seq::new(values.len(), |i: int| held(values[i]))
}

/// What values hold, by their keys.
pub open spec fn held_members(fields: Seq<(String, Value)>) -> Map<Seq<char>, Json>
    decreases fields.len(),
{
    if fields.len() == 0 {
        Map::empty()
    } else {
        held_members(fields.drop_last()).insert(fields.last().0@, held(fields.last().1))
    }
}

/// `Value::from` on the unit value: null.
#[verifier::external_body]
fn null_value() -> (r: Value)
    ensures
        held(r) == Json::Null,
{
    Value::from(())
}

/// `Value::from` on a flag: that flag.
#[verifier::external_body]
fn flag_value(flag: bool) -> (r: Value)
    ensures
        held(r) == Json::Flag(flag),
{
    Value::from(flag)
}

/// `Value::from` on a text: that text.
#[verifier::external_body]
fn text_value(text: &str) -> (r: Value)
    ensures
        held(r) == Json::Text(text@),
{
    Value::from(text)
}

/// `Value::from` on a list of values: an array of them, in order.
#[verifier::external_body]
fn list_value(values: Vec<Value>) -> (r: Value)
    ensures
        held(r) == Json::List(held_list(values@)),
{
    Value::from(values)
}

/// `Value::from_iter` on keys with their values, no key twice: an object with
/// these members.
#[verifier::external_body]
fn object_value(fields: Vec<(String, Value)>) -> (r: Value)
    requires
        distinct_keys(fields@),
    ensures
        held(r) == Json::Object(held_members(fields@)),
{
    Value::from_iter(fields)
}

/// The bytes that `serde_json` writes for a document.
pub uninterp spec fn json_bytes(document: Json) -> Seq<u8>;

/// `serde_json::to_vec` on a value. A value has only texts as keys, so that
/// writing it into memory does not fail, and the bytes are a function of what it
/// holds.
#[verifier::external_body]
fn bytes_of_value(value: &Value) -> (r: Result<Vec<u8>, String>)
    ensures
        r is Ok,
        r->Ok_0@ == json_bytes(held(*value)),
{
    serde_json::to_vec(value).map_err(|error| error.to_string())
}

/// The value of `serde_json` that holds what a document says.
fn value_of(document: &Document) -> (r: Value)
    requires
        document.wf(),
    ensures
        held(r) == document.json(),
    decreases *document,
{
    match document {
        Document::Null => null_value(),
        Document::Flag(flag) => flag_value(*flag),
        Document::Text(text) => text_value(text.as_str()),
        Document::List(items) => {
            let mut values: Vec<Value> = Vec::new();
            let mut i: usize = 0;
            assert(held_list(values@) =~= list_of(items@.take(0)));
            while i < items.len()
                invariant
                    i <= items.len(),
                    *document == Document::List(*items),
                    document.wf(),
                    held_list(values@) == list_of(items@.take(i as int)),
                decreases items.len() - i,
            {
                let ghost before = values@;
                proof {
                    assert(items@.take(i + 1).drop_last() =~= items@.take(i as int));
                    assert(document->List_0 == *items);
                    assert(decreases_to!(*document => document->List_0));
                    assert(decreases_to!(*items => items@));
                    assert(decreases_to!(items@ => items@[i as int]));
                    assert(items@[i as int].wf());
                }
                values.push(value_of(&items[i]));
                assert(held_list(values@) =~= held_list(before).push(items@[i as int].json()));
                i = i + 1;
            }
            assert(items@.take(i as int) =~= items@);
            list_value(values)
        },
        Document::Object(fields) => {
            let mut values: Vec<(String, Value)> = Vec::new();
            let mut i: usize = 0;
            assert(held_members(values@) =~= members_of(fields@.take(0)));
            while i < fields.len()
                invariant
                    i <= fields.len(),
                    values@.len() == i,
                    *document == Document::Object(*fields),
                    document.wf(),
                    forall|k: int| 0 <= k < i ==> (#[trigger] values@[k]).0@ == fields@[k].0@,
                    held_members(values@) == members_of(fields@.take(i as int)),
                decreases fields.len() - i,
            {
                let ghost before = values@;
                proof {
                    assert(fields@.take(i + 1).drop_last() =~= fields@.take(i as int));
                    assert(fields@[i as int].1.wf());
                    assert(decreases_to!(*document => fields@[i as int].1));
                }
                values.push((fields[i].0.clone(), value_of(&fields[i].1)));
                assert(values@.drop_last() =~= before);
                i = i + 1;
            }
            assert(fields@.take(i as int) =~= fields@);
            object_value(values)
        },
    }
}

/// A document as bytes.
pub fn encoded(document: &Document) -> (r: Result<Vec<u8>, String>)
    requires
        document.wf(),
    ensures
        r is Ok,
        r->Ok_0@ == json_bytes(document.json()),
{
    bytes_of_value(&value_of(document))
}

/// A character inside a JSON string: escaped where it is a quote, a backslash or
/// a control character below the space.
pub open spec fn json_char(c: char) -> Seq<char> {
    if c == '"' || c == '\\' {
        seq!['\\', c]
    } else if c == '\x08' {
        seq!['\\', 'b']
    } else if c == '\t' {
        seq!['\\', 't']
    } else if c == '\n' {
        seq!['\\', 'n']
    } else if c == '\x0c' {
        seq!['\\', 'f']
    } else if c == '\r' {
        seq!['\\', 'r']
    } else if ' ' > c {
        seq!['\\', 'u', '0', '0'] + seq![
            crate::digest::hex_char(c as int / 16),
            crate::digest::hex_char(c as int % 16),
        ]
    } else {
        seq![c]
    }
}

/// The characters inside a JSON string.
pub open spec fn json_chars(s: Seq<char>) -> Seq<char>
    decreases s.len(),
{
    if s.len() == 0 {
        Seq::empty()
    } else {
        json_chars(s.drop_last()) + json_char(s.last())
    }
}

/// A text as a JSON string.
pub open spec fn json_text(s: Seq<char>) -> Seq<char> {
    seq!['"'] + json_chars(s) + seq!['"']
}

/// Texts as a JSON array of strings.
pub open spec fn json_text_array(list: Seq<Seq<char>>) -> Seq<char> {
    seq!['['] + crate::text::joined(
        Seq::new(list.len(), |i: int| json_text(list[i])),
        seq![','],
    ) + seq![']']
}

/// `serde_json::to_vec` on a list of strings: the UTF-8 bytes of the strings in
/// brackets, with commas between them and no space. Writing it into memory does
/// not fail.
#[verifier::external_body]
pub(crate) fn json_of_texts(list: &Vec<String>) -> (r: Result<Vec<u8>, String>)
    ensures
        r is Ok,
        r->Ok_0@ == vstd::utf8::encode_utf8(json_text_array(crate::text::texts(list@))),
{
    serde_json::to_vec(list).map_err(|error| error.to_string())
}

/// `serde_json::to_string` on a string: the string in quotes, with the escapes
/// that JSON asks for and no others. Writing it into memory does not fail.
#[verifier::external_body]
pub(crate) fn json_of_text(s: &str) -> (r: Result<String, String>)
    ensures
        r is Ok,
        r->Ok_0@ == json_text(s@),
{
    serde_json::to_string(s).map_err(|error| error.to_string())
}

/// Each character of a text is written in JSON on its own: a quote and a backslash
/// behind a backslash, the control characters by their escapes, every other as it
/// is.
pub proof fn json_is_by_character(a: Seq<char>, b: Seq<char>, c: char)
    ensures
        json_chars(a + b) == json_chars(a) + json_chars(b),
        json_chars(Seq::empty()) == Seq::<char>::empty(),
        json_chars(seq!['"']) == seq!['\\', '"'],
        json_chars(seq!['\\']) == seq!['\\', '\\'],
        json_chars(seq!['\n']) == seq!['\\', 'n'],
        json_chars(seq!['\r']) == seq!['\\', 'r'],
        json_chars(seq!['\t']) == seq!['\\', 't'],
        json_chars(seq!['\x08']) == seq!['\\', 'b'],
        json_chars(seq!['\x0c']) == seq!['\\', 'f'],
        c >= ' ' && c != '"' && c != '\\' ==> json_chars(seq![c]) == seq![c],
        ' ' > c && c != '\n' && c != '\r' && c != '\t' && c != '\x08' && c != '\x0c'
            ==> json_chars(seq![c]) == seq![
            '\\',
            'u',
            '0',
            '0',
            crate::digest::hex_char(c as int / 16),
            crate::digest::hex_char(c as int % 16),
        ],
    decreases b.len(),
{
    one_json_char('"');
    one_json_char('\\');
    one_json_char('\n');
    one_json_char('\r');
    one_json_char('\t');
    one_json_char('\x08');
    one_json_char('\x0c');
    one_json_char(c);
    if b.len() == 0 {
        assert(a + b =~= a);
        assert(json_chars(a) + json_chars(b) =~= json_chars(a));
    } else {
        json_is_by_character(a, b.drop_last(), c);
        assert((a + b).drop_last() =~= a + b.drop_last());
        assert(json_chars(a + b) =~= json_chars(a) + json_chars(b));
    }
}

proof fn one_json_char(c: char)
    ensures
        json_chars(seq![c]) == json_char(c),
{
    reveal_with_fuel(json_chars, 2);
    assert(seq![c].drop_last() =~= Seq::empty());
    assert(json_chars(seq![c]) =~= json_char(c));
}

/// A text stands in quotes.
pub proof fn json_text_stands_in_quotes(s: Seq<char>)
    ensures
        json_text(s).len() == json_chars(s).len() + 2,
        json_text(s)[0] == '"',
        json_text(s).last() == '"',
        json_text(s).subrange(1, json_text(s).len() - 1) == json_chars(s),
{
    assert(json_text(s).subrange(1, json_text(s).len() - 1) =~= json_chars(s));
}

/// A list of texts stands in brackets, with commas between the texts.
pub proof fn json_list_stands_in_brackets(list: Seq<Seq<char>>, s: Seq<char>)
    ensures
        json_text_array(Seq::empty()) == seq!['[', ']'],
        json_text_array(seq![s]) == seq!['['] + json_text(s) + seq![']'],
        list.len() > 0 ==> json_text_array(list.push(s)) == json_text_array(list).drop_last()
            + seq![','] + json_text(s) + seq![']'],
{
    let none = Seq::new(0, |i: int| json_text(Seq::<Seq<char>>::empty()[i]));
    assert(none =~= Seq::empty());
    assert(json_text_array(Seq::empty()) =~= seq!['[', ']']);
    let one = Seq::new(1, |i: int| json_text(seq![s][i]));
    assert(one =~= seq![json_text(s)]);
    let texts = Seq::new(list.len(), |i: int| json_text(list[i]));
    let more = Seq::new((list.len() + 1) as nat, |i: int| json_text(list.push(s)[i]));
    assert(more =~= texts.push(json_text(s)));
    assert(more.drop_last() =~= texts);
    reveal_with_fuel(crate::text::joined, 2);
    assert(json_text_array(seq![s]) =~= seq!['['] + json_text(s) + seq![']']);
    if list.len() > 0 {
        assert(json_text_array(list.push(s)) =~= json_text_array(list).drop_last() + seq![',']
            + json_text(s) + seq![']']);
    }
}

/// A list holds what its items hold, in order; an object holds under each key what
/// the field of that key holds.
pub proof fn documents_hold_their_items(
    items: Seq<Document>,
    fields: Seq<(String, Document)>,
    i: int,
)
    ensures
        list_of(items).len() == items.len(),
        0 <= i < items.len() ==> list_of(items)[i] == items[i].json(),
        distinct_keys(fields) && 0 <= i < fields.len() ==> members_of(fields).contains_key(
            fields[i].0@,
        ) && members_of(fields)[fields[i].0@] == fields[i].1.json(),
    decreases items.len() + fields.len(),
{
    if items.len() > 0 {
        documents_hold_their_items(items.drop_last(), Seq::empty(), i);
        if 0 <= i < items.len() - 1 {
            assert(items.drop_last()[i] == items[i]);
        }
    }
    if fields.len() > 0 && distinct_keys(fields) && 0 <= i < fields.len() {
        let fewer = fields.drop_last();
        if i < fewer.len() {
            assert(distinct_keys(fewer)) by {
                assert forall|x: int, y: int| 0 <= x < y < fewer.len() implies (
                #[trigger] fewer[x]).0@ != (#[trigger] fewer[y]).0@ by {
                    assert(fields[x].0@ != fields[y].0@);
                }
            }
            documents_hold_their_items(Seq::empty(), fewer, i);
            assert(fewer[i] == fields[i]);
            assert(fields[i].0@ != fields[fields.len() - 1].0@);
        }
    }
}

} // verus!
