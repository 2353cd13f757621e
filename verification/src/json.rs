//! JSON values as plain data.
//!
//! Parsing and printing go through `serde_json`; everything the library
//! reads out of a document, or builds into one, is verified against the
//! mathematical value [`JsonV`].

use vstd::prelude::*;

use serde_json::Value;

use crate::text::{chars_of, string_from, push_char};

verus! {

/// A JSON value. Numbers keep the text that `serde_json` prints for them;
/// an object keeps its entries in order.
#[derive(Debug, PartialEq)]
pub enum Json {
    Null,
    Bool(bool),
    Number(String),
    Str(String),
    Array(Vec<Json>),
    Object(Vec<(String, Json)>),
}

/// The mathematical value of a [`Json`].
pub enum JsonV {
    Null,
    Bool(bool),
    Number(Seq<char>),
    Str(Seq<char>),
    Array(Seq<JsonV>),
    Object(Seq<(Seq<char>, JsonV)>),
}

/// The value of `j`, element by element.
pub open spec fn json_view(j: Json) -> JsonV
    decreases j,
{
    match j {
        Json::Null => JsonV::Null,
        Json::Bool(b) => JsonV::Bool(b),
        Json::Number(n) => JsonV::Number(n@),
        Json::Str(s) => JsonV::Str(s@),
        Json::Array(items) => JsonV::Array(
            Seq::new(
                items.len() as nat,
                |i: int|
                    if 0 <= i < items.len() {
                        json_view(items[i])
                    } else {
                        JsonV::Null
                    },
            ),
        ),
        Json::Object(entries) => JsonV::Object(
            Seq::new(
                entries.len() as nat,
                |i: int|
                    if 0 <= i < entries.len() {
                        (entries[i].0@, json_view(entries[i].1))
                    } else {
                        (Seq::empty(), JsonV::Null)
                    },
            ),
        ),
    }
}

impl View for Json {
    type V = JsonV;

    open spec fn view(&self) -> JsonV {
        json_view(*self)
    }
}

/// The value stored under `key` among `entries`: that of the first entry
/// with that key.
pub open spec fn field(entries: Seq<(Seq<char>, JsonV)>, key: Seq<char>) -> Option<JsonV>
    decreases entries.len(),
{
    if entries.len() == 0 {
        None
    } else if entries[0].0 == key {
        Some(entries[0].1)
    } else {
        field(entries.drop_first(), key)
    }
}

impl JsonV {
    /// `Value::get` with a string key: the field of an object, `None` for
    /// anything else.
    pub open spec fn get(self, key: Seq<char>) -> Option<JsonV> {
        match self {
            JsonV::Object(entries) => field(entries, key),
            _ => None,
        }
    }

    /// `Value::as_str`.
    pub open spec fn as_str(self) -> Option<Seq<char>> {
        match self {
            JsonV::Str(s) => Some(s),
            _ => None,
        }
    }

    /// `Value::get(key)` followed by `Value::as_str`.
    pub open spec fn str_field(self, key: Seq<char>) -> Option<Seq<char>> {
        match self.get(key) {
            Some(v) => v.as_str(),
            None => None,
        }
    }
}

/// What `serde_json` makes of a text parsed as a `Value`: the value, or the
/// error's message.
pub uninterp spec fn json_parse(text: Seq<char>) -> Result<JsonV, Seq<char>>;

/// The compact text that `serde_json` prints for a value.
pub uninterp spec fn json_text(v: JsonV) -> Seq<char>;

/// `serde_json::Value`, the parser's and printer's tree.
#[verifier::external_type_specification]
#[verifier::external_body]
pub struct ExValue(serde_json::Value);

/// Converts a `serde_json::Value` into a [`Json`] of the same shape: a number
/// becomes its `Display` text, an object its entries in the map's order.
/// Nothing is claimed of it here; [`parse_json`] states what its callers
/// get.
#[verifier::external_body]
fn from_value(v: &Value) -> Json {
    match v {
        Value::Null => Json::Null,
        Value::Bool(b) => Json::Bool(*b),
        Value::Number(n) => Json::Number(n.to_string()),
        Value::String(s) => Json::Str(s.clone()),
        Value::Array(a) => Json::Array(a.iter().map(from_value).collect()),
        Value::Object(m) => Json::Object(m.iter().map(|(k, x)| (k.clone(), from_value(x))).collect()),
    }
}

/// Converts a [`Json`] into a `serde_json::Value` of the same shape; number
/// text is read with `serde_json::Number`'s `FromStr`, and text that it does
/// not read becomes `null`. Nothing is claimed of it here; [`print_json`]
/// states what its callers get.
#[verifier::external_body]
fn to_value(j: &Json) -> Value {
    match j {
        Json::Null => Value::Null,
        Json::Bool(b) => Value::Bool(*b),
        Json::Number(n) => match n.parse::<serde_json::Number>() {
            Ok(x) => Value::Number(x),
            Err(_) => Value::Null,
        },
        Json::Str(s) => Value::String(s.clone()),
        Json::Array(a) => Value::Array(a.iter().map(to_value).collect()),
        Json::Object(es) => Value::Object(es.iter().map(|(k, x)| (k.clone(), to_value(x))).collect()),
    }
}

/// Parses `text` with `serde_json::from_str::<Value>`; the outcome is named
/// by [`json_parse`]. On error, the message is the error's `Display` text.
#[verifier::external_body]
pub(crate) fn parse_json(text: &str) -> (r: Result<Json, String>)
    ensures
        match r {
            Ok(j) => json_parse(text@) == Ok::<JsonV, Seq<char>>(j@),
            Err(e) => json_parse(text@) == Err::<JsonV, Seq<char>>(e@),
        },
{
    match serde_json::from_str::<Value>(text) {
        Ok(v) => Ok(from_value(&v)),
        Err(e) => Err(e.to_string()),
    }
}

/// Prints `j` with `Value`'s compact `Display`; the text is named by
/// [`json_text`]. The compact form adds no whitespace and writes a line feed
/// inside a string as the escape `\n`, so the text holds no line feed. A
/// number whose text `serde_json` does not read as a number prints as
/// `null`; the contract leaves that to the name.
#[verifier::external_body]
pub(crate) fn print_json(j: &Json) -> (s: String)
    ensures
        s@ == json_text(j@),
        !s@.contains('\n'),
{
    to_value(j).to_string()
}

/// The decimal digits of `n`.
pub open spec fn digits_of(n: nat) -> Seq<char>
    decreases n,
{
    if n < 10 {
        seq![(n + 48) as char]
    } else {
        digits_of(n / 10).push(((n % 10) + 48) as char)
    }
}

/// The decimal text of an integer, with a leading `-` when negative.
pub open spec fn int_text(n: int) -> Seq<char> {
    if n < 0 {
        seq!['-'] + digits_of((-n) as nat)
    } else {
        digits_of(n as nat)
    }
}

/// The decimal digits of `n`.
pub fn u64_digits(n: u64) -> (s: String)
    ensures
        s@ == digits_of(n as nat),
    decreases n,
{
    if n < 10 {
        let mut s = String::new();
        let c = ((n as u8) + 48u8) as char;
        push_char(&mut s, c);
        assert(s@ == seq![c]);
        s
    } else {
        let mut s = u64_digits(n / 10);
        let c = (((n % 10) as u8) + 48u8) as char;
        push_char(&mut s, c);
        s
    }
}

/// The decimal text of `n`, with a leading `-` when negative.
pub fn i64_text(n: i64) -> (s: String)
    ensures
        s@ == int_text(n as int),
{
    if n < 0 {
        let m: u64 = if n == i64::MIN {
            9223372036854775808u64
        } else {
            (-n) as u64
        };
        let mut s = String::new();
        push_char(&mut s, '-');
        let d = u64_digits(m);
        let dv = chars_of(d.as_str());
        let mut i: usize = 0;
        while i < dv.len()
            invariant
                i <= dv@.len(),
                dv@ == digits_of(m as nat),
                s@ == seq!['-'] + dv@.take(i as int),
            decreases dv@.len() - i,
        {
            push_char(&mut s, dv[i]);
            assert(dv@.take(i + 1) == dv@.take(i as int).push(dv@[i as int]));
            i = i + 1;
        }
        assert(dv@.take(dv@.len() as int) == dv@);
        s
    } else {
        u64_digits(n as u64)
    }
}

impl Clone for Json {
    fn clone(&self) -> (r: Json)
        ensures
            r@ == self@,
    {
        self.copy()
    }
}

impl Json {
    /// A JSON string.
    pub fn string(s: &str) -> (j: Json)
        ensures
            j@ == JsonV::Str(s@),
    {
        let v = chars_of(s);
        Json::Str(string_from(&v))
    }

    /// A JSON number holding a non-negative integer.
    pub fn unsigned(n: u64) -> (j: Json)
        ensures
            j@ == JsonV::Number(digits_of(n as nat)),
    {
        Json::Number(u64_digits(n))
    }

    /// A JSON number holding an integer.
    pub fn signed(n: i64) -> (j: Json)
        ensures
            j@ == JsonV::Number(int_text(n as int)),
    {
        Json::Number(i64_text(n))
    }

    /// An exact copy.
    pub fn copy(&self) -> (r: Json)
        ensures
            r@ == self@,
        decreases self,
    {
        match self {
            Json::Null => Json::Null,
            Json::Bool(b) => Json::Bool(*b),
            Json::Number(n) => {
                let v = chars_of(n.as_str());
                Json::Number(string_from(&v))
            },
            Json::Str(s) => {
                let v = chars_of(s.as_str());
                Json::Str(string_from(&v))
            },
            Json::Array(items) => {
                let mut out: Vec<Json> = Vec::new();
                let mut i: usize = 0;
                while i < items.len()
                    invariant
                        i <= items@.len(),
                        out@.len() == i,
                        forall|k: int| 0 <= k < i ==> (#[trigger] out@[k])@ == items@[k]@,
                        *self == Json::Array(*items),
                    decreases items@.len() - i,
                {
                    proof {
                        vstd::std_specs::vec::axiom_vec_index_decreases(*items, i as int);
                        assert(decreases_to!(*self => (*self)->Array_0));
                        assert(decreases_to!(*self => items[i as int]));
                    }
                    out.push(items[i].copy());
                    i = i + 1;
                }
                let r = Json::Array(out);
                assert(r@ == self@) by {
                    if let JsonV::Array(a) = r@ {
                        if let JsonV::Array(b) = self@ {
                            assert(a =~= b);
                        }
                    }
                }
                r
            },
            Json::Object(entries) => {
                let mut out: Vec<(String, Json)> = Vec::new();
                let mut i: usize = 0;
                while i < entries.len()
                    invariant
                        i <= entries@.len(),
                        out@.len() == i,
                        forall|k: int|
                            0 <= k < i ==> (#[trigger] out@[k]).0@ == entries@[k].0@ && out@[k].1@
                                == entries@[k].1@,
                        *self == Json::Object(*entries),
                    decreases entries@.len() - i,
                {
                    proof {
                        vstd::std_specs::vec::axiom_vec_index_decreases(*entries, i as int);
                        assert(decreases_to!(*self => (*self)->Object_0));
                        assert(decreases_to!(*self => entries[i as int]));
                        assert(decreases_to!(*self => entries[i as int].1));
                    }
                    let kv = chars_of(entries[i].0.as_str());
                    out.push((string_from(&kv), entries[i].1.copy()));
                    i = i + 1;
                }
                let r = Json::Object(out);
                assert(r@ == self@) by {
                    if let JsonV::Object(a) = r@ {
                        if let JsonV::Object(b) = self@ {
                            assert(a =~= b);
                        }
                    }
                }
                r
            },
        }
    }
}

/// Whether two texts hold the same characters.
pub fn same_text(a: &str, b: &str) -> (r: bool)
    ensures
        r == (a@ == b@),
{
    let x = chars_of(a);
    let y = chars_of(b);
    if x.len() != y.len() {
        return false;
    }
    let mut i: usize = 0;
    while i < x.len()
        invariant
            x@.len() == y@.len(),
            x@ == a@,
            y@ == b@,
            i <= x@.len(),
            forall|k: int| 0 <= k < i ==> x@[k] == y@[k],
        decreases x@.len() - i,
    {
        if x[i] != y[i] {
            assert(x@[i as int] != y@[i as int]);
            return false;
        }
        i = i + 1;
    }
    assert(x@ =~= y@);
    true
}

impl Json {
    /// `Value::get` with a string key.
    pub fn get(&self, key: &str) -> (r: Option<&Json>)
        ensures
            match r {
                Some(v) => self@.get(key@) == Some(v@),
                None => self@.get(key@) is None,
            },
    {
        match self {
            Json::Object(entries) => {
                let ghost es = match self@ {
                    JsonV::Object(es) => es,
                    _ => Seq::empty(),
                };
                assert(es.subrange(0, es.len() as int) == es);
                let mut i: usize = 0;
                while i < entries.len()
                    invariant
                        i <= entries@.len(),
                        self@ == JsonV::Object(es),
                        es.len() == entries@.len(),
                        forall|k: int| 0 <= k < es.len() ==> (#[trigger] es[k]) == (entries@[k].0@, entries@[k].1@),
                        field(es, key@) == field(es.subrange(i as int, es.len() as int), key@),
                    decreases entries@.len() - i,
                {
                    let ghost rest = es.subrange(i as int, es.len() as int);
                    assert(rest.drop_first() == es.subrange(i + 1, es.len() as int));
                    assert(rest[0] == es[i as int]);
                    if same_text(entries[i].0.as_str(), key) {
                        assert(field(rest, key@) == Some(entries@[i as int].1@));
                        return Some(&entries[i].1);
                    }
                    i = i + 1;
                }
                None
            },
            _ => None,
        }
    }

    /// `Value::as_str`.
    pub fn as_str(&self) -> (r: Option<&String>)
        ensures
            match r {
                Some(s) => self@.as_str() == Some(s@),
                None => self@.as_str() is None,
            },
    {
        match self {
            Json::Str(s) => Some(s),
            _ => None,
        }
    }

    /// `Value::get(key)` followed by `Value::as_str`.
    pub fn str_field(&self, key: &str) -> (r: Option<&String>)
        ensures
            match r {
                Some(s) => self@.str_field(key@) == Some(s@),
                None => self@.str_field(key@) is None,
            },
    {
        match self.get(key) {
            Some(v) => v.as_str(),
            None => None,
        }
    }
}

/// The values of object entries.
pub open spec fn entries_view(es: Seq<(String, Json)>) -> Seq<(Seq<char>, JsonV)> {
    es.map_values(|e: (String, Json)| (e.0@, e.1@))
}

/// The values of array items.
pub open spec fn items_view(items: Seq<Json>) -> Seq<JsonV> {
    items.map_values(|j: Json| j@)
}

/// An object entry.
pub fn entry(key: &str, value: Json) -> (e: (String, Json))
    ensures
        e.0@ == key@,
        e.1@ == value@,
{
    let k = chars_of(key);
    (string_from(&k), value)
}

/// A JSON object with the given entries, in order.
pub fn object(es: Vec<(String, Json)>) -> (j: Json)
    ensures
        j@ == JsonV::Object(entries_view(es@)),
{
    let j = Json::Object(es);
    proof {
        if let JsonV::Object(a) = j@ {
            assert(a =~= entries_view(es@));
        }
    }
    j
}

/// A JSON array with the given items, in order.
pub fn array(items: Vec<Json>) -> (j: Json)
    ensures
        j@ == JsonV::Array(items_view(items@)),
{
    let j = Json::Array(items);
    proof {
        if let JsonV::Array(a) = j@ {
            assert(a =~= items_view(items@));
        }
    }
    j
}

/// The items of an array, as values.
pub proof fn lemma_array_items(items: Vec<Json>)
    ensures
        Json::Array(items)@ == JsonV::Array(items_view(items@)),
{
    if let JsonV::Array(a) = Json::Array(items)@ {
        assert(a =~= items_view(items@));
    }
}

} // verus!
