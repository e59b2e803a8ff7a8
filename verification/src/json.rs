//! A JSON document model that the verified logic reads and edits, with the
//! parsing and pretty-printing done by serde_json.

use serde_json::{Number as SerdeNumber, Value as SerdeValue};
use vstd::prelude::*;

use crate::text::{chars_of, decimal};

verus! {

/// serde_json's number type, carried opaquely so that a number read from a
/// document is written back unchanged.
#[verifier::external_type_specification]
#[verifier::external_body]
pub struct ExSerdeNumber(SerdeNumber);

/// serde_json's value type, only converted to and from [`JsonValue`].
#[verifier::external_type_specification]
#[verifier::external_body]
pub struct ExSerdeValue(SerdeValue);

/// A JSON number: its text as serde_json displays it, its value when that is
/// an integer in `i64`, and the number itself. Only serde_json makes one, so
/// the text and the integer always agree with the number.
pub struct JsonNumber {
    text: String,
    int: Option<i64>,
    raw: SerdeNumber,
}

impl JsonNumber {
    /// The number's text, as serde_json displays it.
    pub closed spec fn text_view(&self) -> Seq<char> {
        self.text@
    }

    /// The number's value, when it is an integer in `i64`.
    pub closed spec fn int_view(&self) -> Option<i64> {
        self.int
    }

    /// The number's text.
    pub fn text(&self) -> (res: &String)
        ensures
            res@ == self.text_view(),
    {
        &self.text
    }

    /// The number's value, when it is an integer in `i64`.
    pub fn as_i64(&self) -> (res: Option<i64>)
        ensures
            res == self.int_view(),
    {
        self.int
    }
}

/// A JSON value. Object members keep the order serde_json gives them (sorted
/// by key for parsed documents).
pub enum JsonValue {
    Null,
    Bool(bool),
    Number(JsonNumber),
    Str(String),
    Array(Vec<JsonValue>),
    Object(Vec<(String, JsonValue)>),
}

/// What serde_json parses `bytes` into, converted to a [`JsonValue`]; `None`
/// when the bytes are not one JSON value.
pub uninterp spec fn json_parse(bytes: Seq<u8>) -> Option<JsonValue>;

/// What serde_json parses `text` into, converted to a [`JsonValue`]; `None`
/// when the text is not one JSON value.
pub uninterp spec fn json_parse_text(text: Seq<char>) -> Option<JsonValue>;

/// The text `serde_json::to_string_pretty` writes for a value.
pub uninterp spec fn json_pretty(value: SJson) -> Seq<char>;

/// The lowercase hexadecimal digit for `n < 16`.
pub open spec fn lower_hex_digit(n: int) -> char {
    if n < 10 {
        ((48 + n) as u32) as char
    } else {
        ((87 + n) as u32) as char
    }
}

/// How serde_json writes one character inside a string: `"` and `\` after a
/// backslash; backspace, form feed, line feed, carriage return and tab as
/// `\b`, `\f`, `\n`, `\r`, `\t`; any other character below U+0020 as
/// `\u00` and two lowercase hexadecimal digits; anything else as it is.
pub open spec fn json_escape_char(c: char) -> Seq<char> {
    let v = c as u32 as int;
    if c == '"' {
        seq!['\\', '"']
    } else if c == '\\' {
        seq!['\\', '\\']
    } else if v == 8 {
        seq!['\\', 'b']
    } else if v == 12 {
        seq!['\\', 'f']
    } else if c == '\n' {
        seq!['\\', 'n']
    } else if c == '\r' {
        seq!['\\', 'r']
    } else if c == '\t' {
        seq!['\\', 't']
    } else if v < 32 {
        seq!['\\', 'u', '0', '0', lower_hex_digit(v / 16), lower_hex_digit(v % 16)]
    } else {
        seq![c]
    }
}

/// The characters of a string, each written as serde_json writes it.
pub open spec fn json_escaped(s: Seq<char>) -> Seq<char>
    decreases s.len(),
{
    if s.len() == 0 {
        Seq::empty()
    } else {
        json_escaped(s.drop_last()) + json_escape_char(s.last())
    }
}

/// The JSON string literal serde_json writes for a string: the escaped
/// characters between double quotes.
pub open spec fn json_quote(s: Seq<char>) -> Seq<char> {
    seq!['"'] + json_escaped(s) + seq!['"']
}

/// Calls `serde_json::from_slice::<serde_json::Value>` and converts the value;
/// a parse error becomes `None`. Claimed: the result is `json_parse(bytes@)`.
#[verifier::external_body]
pub fn parse_json(bytes: &[u8]) -> (res: Option<JsonValue>)
    ensures
        res == json_parse(bytes@),
{
    serde_json::from_slice::<SerdeValue>(bytes).ok().map(from_serde)
}

/// Calls `serde_json::from_str::<serde_json::Value>` and converts the value;
/// a parse error becomes `None`. Claimed: the result is `json_parse_text(text@)`.
#[verifier::external_body]
pub fn parse_json_text(text: &str) -> (res: Option<JsonValue>)
    ensures
        res == json_parse_text(text@),
{
    serde_json::from_str::<SerdeValue>(text).ok().map(from_serde)
}

/// Converts a `serde_json::Value`, variant by variant.
#[verifier::external_body]
fn from_serde(value: SerdeValue) -> JsonValue {
    match value {
        SerdeValue::Null => JsonValue::Null,
        SerdeValue::Bool(b) => JsonValue::Bool(b),
        SerdeValue::Number(n) => JsonValue::Number(JsonNumber { text: n.to_string(), int: n.as_i64(), raw: n }),
        SerdeValue::String(s) => JsonValue::Str(s),
        SerdeValue::Array(items) => JsonValue::Array(items.into_iter().map(from_serde).collect()),
        SerdeValue::Object(map) => JsonValue::Object(map.into_iter().map(|(k, v)| (k, from_serde(v))).collect()),
    }
}

/// Converts back to a `serde_json::Value`, variant by variant.
#[verifier::external_body]
fn to_serde(value: &JsonValue) -> SerdeValue {
    match value {
        JsonValue::Null => SerdeValue::Null,
        JsonValue::Bool(b) => SerdeValue::Bool(*b),
        JsonValue::Number(n) => SerdeValue::Number(n.raw.clone()),
        JsonValue::Str(s) => SerdeValue::String(s.clone()),
        JsonValue::Array(items) => SerdeValue::Array(items.iter().map(to_serde).collect()),
        JsonValue::Object(fields) => SerdeValue::Object(fields.iter().map(|(k, v)| (k.clone(), to_serde(v))).collect()),
    }
}

/// Calls `serde_json::to_string_pretty` on the value (which cannot fail for a
/// value whose map keys are strings). A number is written as its display,
/// which is its text, so the output depends on the value's mathematical
/// form only. Claimed: the result is `json_pretty(jview(*value))`.
#[verifier::external_body]
pub fn pretty_json(value: &JsonValue) -> (res: String)
    ensures
        res@ == json_pretty(jview(*value)),
{
    serde_json::to_string_pretty(&to_serde(value)).unwrap_or_default()
}

/// Calls `serde_json::to_string` on a string, which cannot fail (ser.rs,
/// `format_escaped_str` with the `ESCAPE` table and `write_char_escape`).
/// Claimed: the result is `json_quote(s@)`.
#[verifier::external_body]
pub fn quote_json(s: &str) -> (res: String)
    ensures
        res@ == json_quote(s@),
{
    serde_json::to_string(s).unwrap_or_default()
}

/// Calls `serde_json::Number::from(u64)`, whose display is the decimal
/// notation (itoa) and whose `as_i64` is the value when it fits.
#[verifier::external_body]
pub fn json_number(n: u64) -> (res: JsonNumber)
    ensures
        res.text_view() == decimal(n as nat),
        n <= i64::MAX ==> res.int_view() == Some(n as i64),
{
    let raw = SerdeNumber::from(n);
    JsonNumber { text: raw.to_string(), int: raw.as_i64(), raw }
}

/// The value stored under `key` (the first member with that key).
pub open spec fn obj_get(fields: Seq<(String, JsonValue)>, key: Seq<char>) -> Option<JsonValue>
    decreases fields.len(),
{
    if fields.len() == 0 {
        None
    } else if fields[0].0@ == key {
        Some(fields[0].1)
    } else {
        obj_get(fields.drop_first(), key)
    }
}

/// Index of the first member with `key`, if any.
pub open spec fn obj_index(fields: Seq<(String, JsonValue)>, key: Seq<char>) -> Option<int>
    decreases fields.len(),
{
    if fields.len() == 0 {
        None
    } else if fields[0].0@ == key {
        Some(0)
    } else {
        match obj_index(fields.drop_first(), key) {
            Some(i) => Some(i + 1),
            None => None,
        }
    }
}

/// `obj_index` finds the first member with the key, and `obj_get` its value.
pub proof fn lemma_obj_index(fields: Seq<(String, JsonValue)>, key: Seq<char>)
    ensures
        obj_index(fields, key) matches Some(i) ==> 0 <= i < fields.len() && fields[i].0@ == key
            && obj_get(fields, key) == Some(fields[i].1) && (forall|j: int|
            0 <= j < i ==> fields[j].0@ != key),
        obj_index(fields, key) is None ==> obj_get(fields, key) is None && (forall|j: int|
            0 <= j < fields.len() ==> fields[j].0@ != key),
    decreases fields.len(),
{
    if fields.len() > 0 && fields[0].0@ != key {
        lemma_obj_index(fields.drop_first(), key);
        assert forall|j: int| 1 <= j < fields.len() implies fields[j] == fields.drop_first()[j - 1] by {}
    }
}

/// Two strings with the same characters.
pub fn str_eq(a: &str, b: &str) -> (res: bool)
    ensures
        res == (a@ == b@),
{
    let x = chars_of(a);
    let y = chars_of(b);
    assert(x@ == a@ && y@ == b@);
    if x.len() != y.len() {
        return false;
    }
    let mut i: usize = 0;
    while i < x.len()
        invariant
            i <= x@.len(),
            x@ == a@,
            y@ == b@,
            x@.len() == y@.len(),
            forall|k: int| 0 <= k < i ==> x@[k] == y@[k],
        decreases x@.len() - i,
    {
        if x[i] != y[i] {
            assert(x@ != y@) by {
                if x@ == y@ {
                    assert(x@[i as int] == y@[i as int]);
                }
            }
            return false;
        }
        i = i + 1;
    }
    assert(x@ == y@);
    true
}

/// Index of the first member with `key`.
pub fn find_key(fields: &Vec<(String, JsonValue)>, key: &str) -> (res: Option<usize>)
    ensures
        res matches Some(i) ==> obj_index(fields@, key@) == Some(i as int),
        res is None ==> obj_index(fields@, key@) is None,
{
    proof {
        lemma_obj_index(fields@, key@);
    }
    let mut i: usize = 0;
    while i < fields.len()
        invariant
            i <= fields@.len(),
            forall|j: int| 0 <= j < i ==> fields@[j].0@ != key@,
        decreases fields@.len() - i,
    {
        if str_eq(fields[i].0.as_str(), key) {
            proof {
                lemma_obj_index_first(fields@, key@, i as int);
            }
            return Some(i);
        }
        i = i + 1;
    }
    proof {
        lemma_obj_index_none(fields@, key@);
    }
    None
}

proof fn lemma_obj_index_first(fields: Seq<(String, JsonValue)>, key: Seq<char>, i: int)
    requires
        0 <= i < fields.len(),
        fields[i].0@ == key,
        forall|j: int| 0 <= j < i ==> fields[j].0@ != key,
    ensures
        obj_index(fields, key) == Some(i),
    decreases fields.len(),
{
    if i > 0 {
        lemma_obj_index_first(fields.drop_first(), key, i - 1);
    }
}

proof fn lemma_obj_index_none(fields: Seq<(String, JsonValue)>, key: Seq<char>)
    requires
        forall|j: int| 0 <= j < fields.len() ==> fields[j].0@ != key,
    ensures
        obj_index(fields, key) is None,
    decreases fields.len(),
{
    if fields.len() > 0 {
        lemma_obj_index_none(fields.drop_first(), key);
    }
}

/// The value stored under `key`.
pub fn get<'a>(fields: &'a Vec<(String, JsonValue)>, key: &str) -> (res: Option<&'a JsonValue>)
    ensures
        res matches Some(v) ==> obj_get(fields@, key@) == Some(*v),
        res is None ==> obj_get(fields@, key@) is None,
{
    proof {
        lemma_obj_index(fields@, key@);
    }
    match find_key(fields, key) {
        Some(i) => Some(&fields[i].1),
        None => None,
    }
}

} // verus!

verus! {

/// A JSON value in mathematical form; a number is its text.
pub enum SJson {
    Null,
    Bool(bool),
    Num(Seq<char>),
    Str(Seq<char>),
    Arr(Seq<SJson>),
    Obj(Seq<(Seq<char>, SJson)>),
}

/// The mathematical form of a value.
pub open spec fn jview(v: JsonValue) -> SJson
    decreases v,
{
    match v {
        JsonValue::Null => SJson::Null,
        JsonValue::Bool(b) => SJson::Bool(b),
        JsonValue::Number(n) => SJson::Num(n.text_view()),
        JsonValue::Str(s) => SJson::Str(s@),
        JsonValue::Array(items) => SJson::Arr(jviews(items@)),
        JsonValue::Object(fields) => SJson::Obj(fviews(fields@)),
    }
}

/// The mathematical forms of a list of values.
pub open spec fn jviews(s: Seq<JsonValue>) -> Seq<SJson>
    decreases s,
{
    if s.len() == 0 {
        Seq::empty()
    } else {
        jviews(s.subrange(0, s.len() - 1)).push(jview(s[s.len() - 1]))
    }
}

/// The mathematical forms of object members.
pub open spec fn fviews(s: Seq<(String, JsonValue)>) -> Seq<(Seq<char>, SJson)>
    decreases s,
{
    if s.len() == 0 {
        Seq::empty()
    } else {
        fviews(s.subrange(0, s.len() - 1)).push((s[s.len() - 1].0@, jview(s[s.len() - 1].1)))
    }
}

} // verus!

verus! {

/// The forms of a list of values, one by one.
pub proof fn lemma_jviews(s: Seq<JsonValue>)
    ensures
        jviews(s).len() == s.len(),
        forall|i: int| 0 <= i < s.len() ==> #[trigger] jviews(s)[i] == jview(s[i]),
    decreases s.len(),
{
    if s.len() > 0 {
        lemma_jviews(s.subrange(0, s.len() - 1));
    }
}

/// The forms of object members, one by one.
pub proof fn lemma_fviews(s: Seq<(String, JsonValue)>)
    ensures
        fviews(s).len() == s.len(),
        forall|i: int|
            0 <= i < s.len() ==> #[trigger] fviews(s)[i] == (s[i].0@, jview(s[i].1)),
    decreases s.len(),
{
    if s.len() > 0 {
        lemma_fviews(s.subrange(0, s.len() - 1));
    }
}

/// The value under `key` in object members (the first member with that key).
pub open spec fn sget(fields: Seq<(Seq<char>, SJson)>, key: Seq<char>) -> Option<SJson>
    decreases fields.len(),
{
    if fields.len() == 0 {
        None
    } else if fields[0].0 == key {
        Some(fields[0].1)
    } else {
        sget(fields.drop_first(), key)
    }
}

/// Index of the first member with `key`.
pub open spec fn sindex(fields: Seq<(Seq<char>, SJson)>, key: Seq<char>) -> Option<int>
    decreases fields.len(),
{
    if fields.len() == 0 {
        None
    } else if fields[0].0 == key {
        Some(0)
    } else {
        match sindex(fields.drop_first(), key) {
            Some(i) => Some(i + 1),
            None => None,
        }
    }
}

/// `sindex` finds the first member with the key, and `sget` its value.
pub proof fn lemma_sindex(fields: Seq<(Seq<char>, SJson)>, key: Seq<char>)
    ensures
        sindex(fields, key) matches Some(i) ==> 0 <= i < fields.len() && fields[i].0 == key
            && sget(fields, key) == Some(fields[i].1) && (forall|j: int|
            0 <= j < i ==> fields[j].0 != key),
        sindex(fields, key) is None ==> sget(fields, key) is None && (forall|j: int|
            0 <= j < fields.len() ==> fields[j].0 != key),
    decreases fields.len(),
{
    if fields.len() > 0 && fields[0].0 != key {
        lemma_sindex(fields.drop_first(), key);
        assert forall|j: int| 1 <= j < fields.len() implies fields[j] == fields.drop_first()[j
            - 1] by {}
    }
}

/// The members with the value under `key` replaced (the first member with
/// that key), or a member added at the end when there is none.
pub open spec fn sset(fields: Seq<(Seq<char>, SJson)>, key: Seq<char>, v: SJson) -> Seq<
    (Seq<char>, SJson),
> {
    match sindex(fields, key) {
        Some(i) => fields.update(i, (key, v)),
        None => fields.push((key, v)),
    }
}

/// The members without the first one with `key`.
pub open spec fn sremove(fields: Seq<(Seq<char>, SJson)>, key: Seq<char>) -> Seq<
    (Seq<char>, SJson),
> {
    match sindex(fields, key) {
        Some(i) => fields.remove(i),
        None => fields,
    }
}

/// The member index that `obj_index` finds is the one `sindex` finds in the views.
pub proof fn lemma_index_view(fields: Seq<(String, JsonValue)>, key: Seq<char>)
    ensures
        sindex(fviews(fields), key) == obj_index(fields, key),
        sget(fviews(fields), key) == match obj_get(fields, key) {
            Some(v) => Some(jview(v)),
            None => None,
        },
{
    lemma_fviews(fields);
    lemma_obj_index(fields, key);
    lemma_sindex(fviews(fields), key);
    match obj_index(fields, key) {
        Some(i) => {
            lemma_sindex_first(fviews(fields), key, i);
        },
        None => {
            lemma_sindex_none(fviews(fields), key);
        },
    }
}

/// A member with the key and none before it is the one `sindex` finds.
pub proof fn lemma_sindex_first(fields: Seq<(Seq<char>, SJson)>, key: Seq<char>, i: int)
    requires
        0 <= i < fields.len(),
        fields[i].0 == key,
        forall|j: int| 0 <= j < i ==> fields[j].0 != key,
    ensures
        sindex(fields, key) == Some(i),
    decreases fields.len(),
{
    if i > 0 {
        lemma_sindex_first(fields.drop_first(), key, i - 1);
    }
}

/// Without a member with the key, `sindex` finds none.
pub proof fn lemma_sindex_none(fields: Seq<(Seq<char>, SJson)>, key: Seq<char>)
    requires
        forall|j: int| 0 <= j < fields.len() ==> fields[j].0 != key,
    ensures
        sindex(fields, key) is None,
    decreases fields.len(),
{
    if fields.len() > 0 {
        lemma_sindex_none(fields.drop_first(), key);
    }
}

/// A string value, if `v` is one.
pub open spec fn as_text(v: Option<SJson>) -> Option<Seq<char>> {
    match v {
        Some(SJson::Str(s)) => Some(s),
        _ => None,
    }
}

/// Values whose mathematical forms are, one by one, the given ones.
pub proof fn lemma_jviews_eq(s: Seq<JsonValue>, v: Seq<SJson>)
    requires
        s.len() == v.len(),
        forall|i: int| 0 <= i < s.len() ==> jview(#[trigger] s[i]) == v[i],
    ensures
        jviews(s) == v,
{
    lemma_jviews(s);
    assert(jviews(s) =~= v);
}

/// Members whose mathematical forms are, one by one, the given ones.
pub proof fn lemma_fviews_eq(s: Seq<(String, JsonValue)>, v: Seq<(Seq<char>, SJson)>)
    requires
        s.len() == v.len(),
        forall|i: int| 0 <= i < s.len() ==> (#[trigger] s[i]).0@ == v[i].0 && jview(s[i].1) == v[i].1,
    ensures
        fviews(s) == v,
{
    lemma_fviews(s);
    assert(fviews(s) =~= v);
}

/// Extending a prefix by one value extends its forms by that value's form.
pub proof fn lemma_jviews_prefix(s: Seq<JsonValue>, k: int)
    requires
        0 <= k < s.len(),
    ensures
        jviews(s.subrange(0, k + 1)) == jviews(s.subrange(0, k)).push(jview(s[k])),
        jviews(s.subrange(0, k + 1)).drop_last() == jviews(s.subrange(0, k)),
        jviews(s.subrange(0, k + 1)).last() == jview(s[k]),
{
    let t = s.subrange(0, k + 1);
    assert(t.subrange(0, k) =~= s.subrange(0, k));
    assert(jviews(t) == jviews(t.subrange(0, k)).push(jview(t[k])));
    assert(jviews(t).drop_last() =~= jviews(s.subrange(0, k)));
}

/// A replaced member has the replacement's form.
pub proof fn lemma_fviews_update(s: Seq<(String, JsonValue)>, i: int, m: (String, JsonValue))
    requires
        0 <= i < s.len(),
    ensures
        fviews(s.update(i, m)) == fviews(s).update(i, (m.0@, jview(m.1))),
{
    lemma_fviews(s);
    lemma_fviews_eq(s.update(i, m), fviews(s).update(i, (m.0@, jview(m.1))));
}

/// Removing a member removes its form.
pub proof fn lemma_fviews_remove(s: Seq<(String, JsonValue)>, i: int)
    requires
        0 <= i < s.len(),
    ensures
        fviews(s.remove(i)) == fviews(s).remove(i),
{
    lemma_fviews(s);
    lemma_fviews_eq(s.remove(i), fviews(s).remove(i));
}

/// An added member adds its form.
pub proof fn lemma_fviews_push(s: Seq<(String, JsonValue)>, m: (String, JsonValue))
    ensures
        fviews(s.push(m)) == fviews(s).push((m.0@, jview(m.1))),
{
    lemma_fviews(s);
    lemma_fviews_eq(s.push(m), fviews(s).push((m.0@, jview(m.1))));
}

/// An added value adds its form.
pub proof fn lemma_jviews_push(s: Seq<JsonValue>, v: JsonValue)
    ensures
        jviews(s.push(v)) == jviews(s).push(jview(v)),
{
    assert(s.push(v).subrange(0, s.len() as int) =~= s);
}

} // verus!
