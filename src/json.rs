//! A plain model of JSON documents. Parsing is done by serde_json; the
//! library walks the model it converts to, and renders its own request text.
use vstd::prelude::*;

verus! {

/// A JSON value. A number keeps the text that serde_json gives it; an
/// object keeps its members in serde_json's order, one per key.
pub enum Json {
    Null,
    Bool(bool),
    Number(String),
    Str(String),
    Array(Vec<Json>),
    Object(Vec<(String, Json)>),
}

/// What serde_json parses `text` into, converted to the library's model;
/// `None` where `text` is not one JSON document.
pub uninterp spec fn json_parsed(text: Seq<char>) -> Option<Json>;

/// Relies on `serde_json::from_str::<serde_json::Value>`: it parses one
/// complete JSON document and refuses anything else.
#[verifier::external_body]
pub(crate) fn parse_json(text: &str) -> (r: Option<Json>)
    ensures
        r == json_parsed(text@),
{
    match serde_json::from_str::<serde_json::Value>(text) {
        Ok(v) => Some(json_from_value(v)),
        Err(_) => None,
    }
}

/// serde_json's document value, carried only from the parser into
/// `json_from_value`.
#[verifier::external_type_specification]
#[verifier::external_body]
pub struct ExValue(serde_json::Value);

/// Moves a serde_json value into the library's model, variant for variant.
#[verifier::external_body]
fn json_from_value(v: serde_json::Value) -> Json {
    match v {
        serde_json::Value::Null => Json::Null,
        serde_json::Value::Bool(b) => Json::Bool(b),
        serde_json::Value::Number(n) => Json::Number(n.to_string()),
        serde_json::Value::String(s) => Json::Str(s),
        serde_json::Value::Array(a) => Json::Array(a.into_iter().map(json_from_value).collect()),
        serde_json::Value::Object(m) => Json::Object(
            m.into_iter().map(|(k, x)| (k, json_from_value(x))).collect(),
        ),
    }
}

/// The value of the first member named `key`.
pub open spec fn entry_value(entries: Seq<(String, Json)>, key: Seq<char>) -> Option<Json>
    decreases entries.len(),
{
    if entries.len() == 0 {
        None
    } else if entries[0].0@ == key {
        Some(entries[0].1)
    } else {
        entry_value(entries.drop_first(), key)
    }
}

/// The member `key` of an object; `None` for a missing key or a value that
/// is no object.
pub open spec fn member_of(v: Json, key: Seq<char>) -> Option<Json> {
    match v {
        Json::Object(entries) => entry_value(entries@, key),
        _ => None,
    }
}

/// The first element of an array; `None` for an empty array or a value that
/// is no array.
pub open spec fn first_of(v: Json) -> Option<Json> {
    match v {
        Json::Array(items) => if items@.len() > 0 {
            Some(items@[0])
        } else {
            None
        },
        _ => None,
    }
}

/// The characters of a string value.
pub open spec fn text_of(v: Json) -> Option<Seq<char>> {
    match v {
        Json::Str(s) => Some(s@),
        _ => None,
    }
}

pub open spec fn is_object(v: Json) -> bool {
    v is Object
}

pub open spec fn is_array(v: Json) -> bool {
    v is Array
}

/// Looks up the member `key` of `v`.
pub fn member<'a>(v: &'a Json, key: &str) -> (r: Option<&'a Json>)
    ensures
        match r {
            Some(x) => member_of(*v, key@) == Some(*x),
            None => member_of(*v, key@) is None,
        },
{
    match v {
        Json::Object(entries) => {
            assert(member_of(*v, key@) == entry_value(entries@, key@));
            let k = key.to_owned();
            let mut i: usize = 0;
            assert(entries@.subrange(0, entries@.len() as int) =~= entries@);
            while i < entries.len()
                invariant
                    k@ == key@,
                    member_of(*v, key@) == entry_value(entries@, key@),
                    i <= entries@.len(),
                    entry_value(entries@.subrange(i as int, entries@.len() as int), key@)
                        == entry_value(entries@, key@),
                decreases entries.len() - i,
            {
                let ghost rest = entries@.subrange(i as int, entries@.len() as int);
                assert(rest[0] == entries@[i as int]);
                if entries[i].0 == k {
                    return Some(&entries[i].1);
                }
                assert(rest.drop_first() =~= entries@.subrange(i + 1, entries@.len() as int));
                i = i + 1;
            }
            None
        },
        _ => None,
    }
}

/// The first element of `v`, where `v` is an array.
pub fn first<'a>(v: &'a Json) -> (r: Option<&'a Json>)
    ensures
        match r {
            Some(x) => first_of(*v) == Some(*x),
            None => first_of(*v) is None,
        },
{
    match v {
        Json::Array(items) => if items.len() > 0 {
            Some(&items[0])
        } else {
            None
        },
        _ => None,
    }
}

/// The characters of `v`, where `v` is a string.
pub fn text(v: &Json) -> (r: Option<Vec<char>>)
    ensures
        match r {
            Some(x) => text_of(*v) == Some(x@),
            None => text_of(*v) is None,
        },
{
    match v {
        Json::Str(s) => Some(crate::text::chars_of(s.as_str())),
        _ => None,
    }
}

/// A lower-case hexadecimal digit, for `0 <= d < 16`.
pub open spec fn hex_digit_char(d: int) -> char {
    if d < 10 {
        ((48 + d) as u8) as char
    } else {
        ((87 + d) as u8) as char
    }
}

/// How serde_json writes one character inside a string literal: a quote
/// and a backslash get a backslash, the five common control characters
/// their short escapes, other control characters below U+0020 `\u00xx`,
/// and every other character stands as it is.
pub open spec fn escaped_char(c: char) -> Seq<char> {
    let n = c as u32;
    if c == '"' {
        seq!['\\', '"']
    } else if c == '\\' {
        seq!['\\', '\\']
    } else if n == 8 {
        seq!['\\', 'b']
    } else if n == 9 {
        seq!['\\', 't']
    } else if n == 10 {
        seq!['\\', 'n']
    } else if n == 12 {
        seq!['\\', 'f']
    } else if n == 13 {
        seq!['\\', 'r']
    } else if n < 32 {
        seq!['\\', 'u', '0', '0', hex_digit_char((n / 16) as int), hex_digit_char((n % 16) as int)]
    } else {
        seq![c]
    }
}

/// The escaped characters of `s`, in order.
pub open spec fn escaped(s: Seq<char>) -> Seq<char>
    decreases s.len(),
{
    if s.len() == 0 {
        seq![]
    } else {
        escaped_char(s[0]) + escaped(s.drop_first())
    }
}

/// `s` written as a JSON string literal, quotes included.
pub open spec fn json_quoted(s: Seq<char>) -> Seq<char> {
    seq!['"'] + escaped(s) + seq!['"']
}

proof fn lemma_escaped_no_line_feed(s: Seq<char>)
    ensures
        forall|i: int| 0 <= i < escaped(s).len() ==> escaped(s)[i] != '\n',
    decreases s.len(),
{
    if s.len() > 0 {
        lemma_escaped_no_line_feed(s.drop_first());
        let e = escaped_char(s[0]);
        let r = escaped(s.drop_first());
        assert forall|i: int| 0 <= i < e.len() implies e[i] != '\n' by {
            let n = s[0] as u32;
            if n < 32 && n != 8 && n != 9 && n != 10 && n != 12 && n != 13 {
                assert(n / 16 < 2);
            }
        }
        assert forall|i: int| 0 <= i < (e + r).len() implies (e + r)[i] != '\n' by {
            if i >= e.len() {
                assert((e + r)[i] == r[i - e.len()]);
            }
        }
    }
}

/// A JSON string literal holds no line feed: one in the text is escaped.
pub proof fn lemma_quoted_one_line(s: Seq<char>)
    ensures
        forall|i: int| 0 <= i < json_quoted(s).len() ==> json_quoted(s)[i] != '\n',
{
    lemma_escaped_no_line_feed(s);
    let q = json_quoted(s);
    assert forall|i: int| 0 <= i < q.len() implies q[i] != '\n' by {
        if 0 < i < q.len() - 1 {
            assert(q[i] == escaped(s)[i - 1]);
        }
    }
}

/// Relies on `serde_json::to_string` on a `&str`: a quote, each character
/// escaped by serde_json's `ESCAPE` table, a quote; writing into memory
/// cannot fail.
#[verifier::external_body]
pub(crate) fn quote(s: &[char]) -> (r: Vec<char>)
    ensures
        r@ == json_quoted(s@),
{
    let t: String = s.iter().collect();
    serde_json::to_string(&t).unwrap().chars().collect()
}

} // verus!
