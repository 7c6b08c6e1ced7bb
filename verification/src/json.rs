//! The library's JSON value, its mathematical model, lookups, and the compact
//! text form in which the command line prints values.
use vstd::prelude::*;

use crate::text::{
    all_digits, chars_of, digits_value, is_digit, parse_digits, push_str, str_eq,
};

verus! {

broadcast use vstd::string::group_string_axioms;

/// A JSON document as the command line reads it. Numbers keep the text in
/// which they were written out (`serde_json`'s `Display`), object members
/// keep their order.
#[derive(Debug, PartialEq)]
pub enum Json {
    Null,
    Bool(bool),
    Number(String),
    Str(String),
    Array(Vec<Json>),
    Object(Vec<(String, Json)>),
}

/// The model of a [`Json`] value.
pub enum JsonV {
    Null,
    Bool(bool),
    Number(Seq<char>),
    Str(Seq<char>),
    Array(Seq<JsonV>),
    Object(Seq<(Seq<char>, JsonV)>),
}

impl Json {
    pub open spec fn model(self) -> JsonV
        decreases self,
    {
        match self {
            Json::Null => JsonV::Null,
            Json::Bool(b) => JsonV::Bool(b),
            Json::Number(t) => JsonV::Number(t@),
            Json::Str(t) => JsonV::Str(t@),
            Json::Array(items) => JsonV::Array(
                Seq::new(
                    items@.len(),
                    |i: int|
                        if 0 <= i < items@.len() {
                            items@[i].model()
                        } else {
                            JsonV::Null
                        },
                ),
            ),
            Json::Object(members) => JsonV::Object(
                Seq::new(
                    members@.len(),
                    |i: int|
                        if 0 <= i < members@.len() {
                            (members@[i].0@, members@[i].1.model())
                        } else {
                            (Seq::empty(), JsonV::Null)
                        },
                ),
            ),
        }
    }
}

impl View for Json {
    type V = JsonV;

    open spec fn view(&self) -> JsonV {
        self.model()
    }
}

/// The models of a list of values.
pub open spec fn models(s: Seq<Json>) -> Seq<JsonV> {
    Seq::new(s.len(), |i: int| s[i]@)
}

pub proof fn lemma_array_model(items: Vec<Json>)
    ensures
        Json::Array(items)@ == JsonV::Array(models(items@)),
{
    assert(Json::Array(items)@->Array_0 =~= models(items@));
}

// ---------------------------------------------------------------------------
// Copying
// ---------------------------------------------------------------------------

impl Json {
    /// A copy of the value with the same model.
    #[verifier::loop_isolation(false)]
    pub fn deep_copy(&self) -> (r: Json)
        ensures
            r@ == self@,
        decreases self,
    {
        match self {
            Json::Null => Json::Null,
            Json::Bool(b) => Json::Bool(*b),
            Json::Number(t) => Json::Number(t.clone()),
            Json::Str(t) => Json::Str(t.clone()),
            Json::Array(items) => {
                let mut out: Vec<Json> = Vec::new();
                let mut i: usize = 0;
                while i < items.len()
                    invariant
                        i <= items.len(),
                        out@.len() == i,
                        forall|k: int| 0 <= k < i ==> #[trigger] out@[k]@ == items@[k]@,
                    decreases items.len() - i,
                {
                    proof {
                        assert(decreases_to!(*self => items@[i as int]));
                    }
                    let c = items[i].deep_copy();
                    out.push(c);
                    i += 1;
                }
                let r = Json::Array(out);
                assert forall|k: int| 0 <= k < items@.len() implies #[trigger] r@->Array_0[k]
                    == self@->Array_0[k] by {
                    assert(out@[k]@ == items@[k]@);
                }
                assert(r@->Array_0 =~= self@->Array_0);
                r
            },
            Json::Object(members) => {
                let mut out: Vec<(String, Json)> = Vec::new();
                let mut i: usize = 0;
                while i < members.len()
                    invariant
                        i <= members.len(),
                        out@.len() == i,
                        forall|k: int|
                            0 <= k < i ==> #[trigger] out@[k].0@ == members@[k].0@ && out@[k].1@
                                == members@[k].1@,
                    decreases members.len() - i,
                {
                    proof {
                        assert(decreases_to!(*self => members@[i as int].1));
                    }
                    let c = members[i].1.deep_copy();
                    out.push((members[i].0.clone(), c));
                    i += 1;
                }
                let r = Json::Object(out);
                assert(r@->Object_0 =~= self@->Object_0);
                r
            },
        }
    }
}

// ---------------------------------------------------------------------------
// Lookups (`Value::get`, `as_str`, `as_array`, `as_object`)
// ---------------------------------------------------------------------------

/// The index of the first member named `key` at or after `i`, or the length.
pub open spec fn member_index_from(m: Seq<(Seq<char>, JsonV)>, key: Seq<char>, i: int) -> int
    decreases m.len() - i,
{
    if i < 0 || i >= m.len() {
        m.len() as int
    } else if m[i].0 == key {
        i
    } else {
        member_index_from(m, key, i + 1)
    }
}

/// The value of the first member named `key`.
pub open spec fn member(m: Seq<(Seq<char>, JsonV)>, key: Seq<char>) -> Option<JsonV> {
    let i = member_index_from(m, key, 0);
    if 0 <= i < m.len() {
        Some(m[i].1)
    } else {
        None
    }
}

pub proof fn lemma_member_index_from(m: Seq<(Seq<char>, JsonV)>, key: Seq<char>, i: int)
    requires
        0 <= i <= m.len(),
    ensures
        i <= member_index_from(m, key, i) <= m.len(),
    decreases m.len() - i,
{
    if i < m.len() && m[i].0 != key {
        lemma_member_index_from(m, key, i + 1);
    }
}

/// `Value::get(key)`: a member of an object, nothing for other values.
pub open spec fn get(v: JsonV, key: Seq<char>) -> Option<JsonV> {
    match v {
        JsonV::Object(m) => member(m, key),
        _ => None,
    }
}

/// `v.get(key).and_then(as_str)`.
pub open spec fn get_str(v: JsonV, key: Seq<char>) -> Option<Seq<char>> {
    match get(v, key) {
        Some(JsonV::Str(s)) => Some(s),
        _ => None,
    }
}

/// `v.get(key).and_then(as_array)`.
pub open spec fn get_array(v: JsonV, key: Seq<char>) -> Option<Seq<JsonV>> {
    match get(v, key) {
        Some(JsonV::Array(a)) => Some(a),
        _ => None,
    }
}

/// `v.get(key).and_then(as_bool)`.
pub open spec fn get_bool(v: JsonV, key: Seq<char>) -> Option<bool> {
    match get(v, key) {
        Some(JsonV::Bool(b)) => Some(b),
        _ => None,
    }
}

impl Json {
    /// `Value::get` with a string key.
    pub fn get(&self, key: &str) -> (r: Option<&Json>)
        ensures
            match r {
                Some(x) => get(self@, key@) == Some(x@),
                None => get(self@, key@) is None,
            },
    {
        match self {
            Json::Object(members) => {
                let ghost m = self@->Object_0;
                assert(self@ == JsonV::Object(m));
                let mut i: usize = 0;
                while i < members.len()
                    invariant
                        i <= members@.len(),
                        m == self@->Object_0,
                        self@ == JsonV::Object(m),
                        m.len() == members@.len(),
                        forall|k: int|
                            0 <= k < members@.len() ==> #[trigger] m[k] == (
                                members@[k].0@,
                                members@[k].1@,
                            ),
                        member_index_from(m, key@, 0) == member_index_from(m, key@, i as int),
                    decreases members.len() - i,
                {
                    if str_eq(members[i].0.as_str(), key) {
                        assert(m[i as int].0 == key@);
                        assert(member_index_from(m, key@, i as int) == i as int);
                        assert(member(m, key@) == Some(m[i as int].1));
                        return Some(&members[i].1);
                    }
                    i += 1;
                }
                None
            },
            _ => None,
        }
    }

    pub fn as_str(&self) -> (r: Option<&String>)
        ensures
            match r {
                Some(s) => self@ == JsonV::Str(s@),
                None => !(self@ is Str),
            },
    {
        match self {
            Json::Str(s) => Some(s),
            _ => None,
        }
    }

    /// `v.get(key).and_then(as_str)`.
    pub fn get_str(&self, key: &str) -> (r: Option<&String>)
        ensures
            match r {
                Some(s) => get_str(self@, key@) == Some(s@),
                None => get_str(self@, key@) is None,
            },
    {
        match self.get(key) {
            Some(v) => v.as_str(),
            None => None,
        }
    }

    /// `v.get(key).and_then(as_array)`.
    pub fn get_array(&self, key: &str) -> (r: Option<&Vec<Json>>)
        ensures
            match r {
                Some(a) => get_array(self@, key@) == Some(models(a@)),
                None => get_array(self@, key@) is None,
            },
    {
        match self.get(key) {
            Some(v) => match v {
                Json::Array(a) => {
                    proof {
                        lemma_array_model(*a);
                    }
                    Some(a)
                },
                _ => None,
            },
            None => None,
        }
    }

    /// `v.get(key).and_then(as_bool)`.
    pub fn get_bool(&self, key: &str) -> (r: Option<bool>)
        ensures
            r == get_bool(self@, key@),
    {
        match self.get(key) {
            Some(v) => match v {
                Json::Bool(b) => Some(*b),
                _ => None,
            },
            None => None,
        }
    }

    pub fn is_object(&self) -> (r: bool)
        ensures
            r == (self@ is Object),
    {
        match self {
            Json::Object(_) => true,
            _ => false,
        }
    }
}

// ---------------------------------------------------------------------------
// Numbers
// ---------------------------------------------------------------------------

/// `Number::as_u64` read from the number's text: a run of digits whose value
/// fits in a `u64` (the text of every non-negative integer `serde_json` holds
/// as one).
pub open spec fn number_as_u64(t: Seq<char>) -> Option<u64> {
    if t.len() > 0 && all_digits(t) && digits_value(t) <= u64::MAX {
        Some(digits_value(t) as u64)
    } else {
        None
    }
}

/// `v.as_u64()`.
pub open spec fn as_u64(v: JsonV) -> Option<u64> {
    match v {
        JsonV::Number(t) => number_as_u64(t),
        _ => None,
    }
}

impl Json {
    pub fn as_u64(&self) -> (r: Option<u64>)
        ensures
            r == as_u64(self@),
    {
        match self {
            Json::Number(t) => {
                assert(self@ == JsonV::Number(t@));
                let v = chars_of(t.as_str());
                if v.len() == 0 {
                    return None;
                }
                let mut i: usize = 0;
                while i < v.len()
                    invariant
                        i <= v@.len(),
                        self@ == JsonV::Number(v@),
                        forall|k: int| 0 <= k < i ==> #[trigger] is_digit(v@[k]),
                    decreases v.len() - i,
                {
                    if !(v[i] >= '0' && v[i] <= '9') {
                        assert(!is_digit(v@[i as int]));
                        assert(!all_digits(v@));
                        return None;
                    }
                    i += 1;
                }
                assert(v@.subrange(0, v@.len() as int) =~= v@);
                parse_digits(&v, 0, v.len(), u64::MAX)
            },
            _ => None,
        }
    }
}

// ---------------------------------------------------------------------------
// Compact text (`Display` of `serde_json::Value`)
// ---------------------------------------------------------------------------

pub open spec fn hex_lower(d: u32) -> char {
    if d < 10 {
        (('0' as u32) + d) as char
    } else {
        (('a' as u32) + d - 10) as char
    }
}

/// How `serde_json` writes one character inside a string literal.
pub open spec fn escape_char(c: char) -> Seq<char> {
    let u = c as u32;
    if c == '"' {
        seq!['\\', '"']
    } else if c == '\\' {
        seq!['\\', '\\']
    } else if u == 0x08 {
        seq!['\\', 'b']
    } else if u == 0x09 {
        seq!['\\', 't']
    } else if u == 0x0a {
        seq!['\\', 'n']
    } else if u == 0x0c {
        seq!['\\', 'f']
    } else if u == 0x0d {
        seq!['\\', 'r']
    } else if u < 0x20 {
        seq!['\\', 'u', '0', '0', hex_lower(u / 16), hex_lower(u % 16)]
    } else {
        seq![c]
    }
}

pub open spec fn escape_all(s: Seq<char>) -> Seq<char>
    decreases s.len(),
{
    if s.len() == 0 {
        Seq::empty()
    } else {
        escape_all(s.drop_last()) + escape_char(s.last())
    }
}

/// The JSON string literal for `s`, as `serde_json::to_string` writes it.
pub open spec fn quoted(s: Seq<char>) -> Seq<char> {
    seq!['"'] + escape_all(s) + seq!['"']
}

/// `serde_json::to_string` of a `&str`: the string between double quotes,
/// with `"`, `\` and the control characters below U+0020 escaped (`\b`, `\t`,
/// `\n`, `\f`, `\r`, else `\u00xx` in lower-case hex); every other character
/// is written as it is. Serialising a `&str` into memory does not fail.
#[verifier::external_body]
pub(crate) fn quote_json(s: &str) -> (r: String)
    ensures
        r@ == quoted(s@),
{
    match serde_json::to_string(s) {
        Ok(t) => t,
        Err(_) => String::new(),
    }
}

/// What `serde_json` makes of a text: parsed as a `Value` and written out
/// again in compact form, or nothing when the text is not JSON.
pub uninterp spec fn json_reencoded(text: Seq<char>) -> Option<Seq<char>>;

/// `serde_json::from_str::<Value>` followed by the compact `to_string` of the
/// value: the result is named by [`json_reencoded`].
#[verifier::external_body]
pub(crate) fn reencode_json(text: &str) -> (r: Option<String>)
    ensures
        match r {
            Some(s) => json_reencoded(text@) == Some(s@),
            None => json_reencoded(text@) is None,
        },
{
    match serde_json::from_str::<serde_json::Value>(text) {
        Ok(v) => Some(v.to_string()),
        Err(_) => None,
    }
}

/// The compact text of a value.
pub open spec fn compact(v: JsonV) -> Seq<char>
    decreases v, 0nat,
{
    match v {
        JsonV::Null => "null"@,
        JsonV::Bool(b) => if b {
            "true"@
        } else {
            "false"@
        },
        JsonV::Number(t) => t,
        JsonV::Str(s) => quoted(s),
        JsonV::Array(items) => "["@ + compact_items(items) + "]"@,
        JsonV::Object(m) => "{"@ + compact_members(m) + "}"@,
    }
}

/// Array elements separated by commas.
pub open spec fn compact_items(items: Seq<JsonV>) -> Seq<char>
    decreases items, 1nat,
{
    if items.len() == 0 {
        Seq::empty()
    } else if items.len() == 1 {
        compact(items[0])
    } else {
        compact_items(items.drop_last()) + ","@ + compact(items.last())
    }
}

/// Object members `"key":value` separated by commas.
pub open spec fn compact_members(m: Seq<(Seq<char>, JsonV)>) -> Seq<char>
    decreases m, 1nat,
{
    if m.len() == 0 {
        Seq::empty()
    } else if m.len() == 1 {
        quoted(m[0].0) + ":"@ + compact(m[0].1)
    } else {
        compact_members(m.drop_last()) + ","@ + quoted(m.last().0) + ":"@ + compact(
            m.last().1,
        )
    }
}

/// Appends the compact text of `j` to `out`.
#[verifier::loop_isolation(false)]
pub fn push_compact(out: &mut String, j: &Json)
    ensures
        final(out)@ == old(out)@ + compact(j@),
    decreases j,
{
    match j {
        Json::Null => push_str(out, "null"),
        Json::Bool(b) => {
            if *b {
                push_str(out, "true");
            } else {
                push_str(out, "false");
            }
        },
        Json::Number(t) => push_str(out, t.as_str()),
        Json::Str(s) => {
            let q = quote_json(s.as_str());
            push_str(out, q.as_str());
        },
        Json::Array(items) => {
            let ghost m = j@->Array_0;
            push_str(out, "[");
            let ghost start = out@;
            let mut i: usize = 0;
            while i < items.len()
                invariant
                    i <= items@.len(),
                    m == j@->Array_0,
                    m.len() == items@.len(),
                    forall|k: int| 0 <= k < items@.len() ==> #[trigger] m[k] == items@[k]@,
                    out@ == start + compact_items(m.take(i as int)),
                decreases items.len() - i,
            {
                proof {
                    assert(decreases_to!(*j => items@[i as int]));
                    assert(m.take(i + 1).drop_last() =~= m.take(i as int));
                    assert(m.take(i + 1).last() == items@[i as int]@);
                }
                if i > 0 {
                    push_str(out, ",");
                }
                push_compact(out, &items[i]);
                proof {
                    if i == 0 {
                        assert(compact_items(m.take(1)) == compact(m.take(1)[0]));
                        assert(out@ =~= start + compact_items(m.take(1)));
                    } else {
                        assert(out@ =~= start + compact_items(m.take(i + 1)));
                    }
                }
                i += 1;
            }
            assert(m.take(i as int) =~= m);
            push_str(out, "]");
            assert(out@ =~= old(out)@ + compact(j@));
        },
        Json::Object(members) => {
            let ghost m = j@->Object_0;
            push_str(out, "{");
            let ghost start = out@;
            let mut i: usize = 0;
            while i < members.len()
                invariant
                    i <= members@.len(),
                    m == j@->Object_0,
                    m.len() == members@.len(),
                    forall|k: int|
                        0 <= k < members@.len() ==> #[trigger] m[k] == (
                            members@[k].0@,
                            members@[k].1@,
                        ),
                    out@ == start + compact_members(m.take(i as int)),
                decreases members.len() - i,
            {
                proof {
                    assert(decreases_to!(*j => members@[i as int].1));
                    assert(m.take(i + 1).drop_last() =~= m.take(i as int));
                    assert(m.take(i + 1).last() == m[i as int]);
                }
                if i > 0 {
                    push_str(out, ",");
                }
                let q = quote_json(members[i].0.as_str());
                push_str(out, q.as_str());
                push_str(out, ":");
                push_compact(out, &members[i].1);
                proof {
                    if i == 0 {
                        assert(out@ =~= start + compact_members(m.take(1)));
                    } else {
                        assert(out@ =~= start + compact_members(m.take(i + 1)));
                    }
                }
                i += 1;
            }
            assert(m.take(i as int) =~= m);
            push_str(out, "}");
            assert(out@ =~= old(out)@ + compact(j@));
        },
    }
}

/// The compact text of `j`.
pub fn compact_string(j: &Json) -> (r: String)
    ensures
        r@ == compact(j@),
{
    let mut out = String::new();
    push_compact(&mut out, j);
    assert(out@ =~= compact(j@));
    out
}

} // verus!
