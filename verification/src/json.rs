//! JSON values.
use vstd::prelude::*;

use crate::text::str_eq;

verus! {

/// A number: an integer that fits in 64 bits, or another number by its text.
#[derive(Debug, PartialEq, Eq)]
pub enum JsonNumber {
    /// A non-negative integer.
    Unsigned(u64),
    /// A negative integer.
    Negative(i64),
    /// Any other number, as it is written.
    Other(String),
}

/// A JSON value. An object's entries are named once each.
#[derive(Debug, PartialEq, Eq)]
pub enum Json {
    Null,
    Bool(bool),
    Number(JsonNumber),
    Text(String),
    Array(Vec<Json>),
    Object(Vec<(String, Json)>),
}

#[verifier::ext_equal]
pub enum NumberView {
    Unsigned(u64),
    Negative(i64),
    Other(Seq<char>),
}

#[verifier::ext_equal]
pub enum JsonView {
    Null,
    Bool(bool),
    Number(NumberView),
    Text(Seq<char>),
    Array(Seq<JsonView>),
    Object(Seq<(Seq<char>, JsonView)>),
}

impl View for JsonNumber {
    type V = NumberView;

    open spec fn view(&self) -> NumberView {
        match self {
            JsonNumber::Unsigned(n) => NumberView::Unsigned(*n),
            JsonNumber::Negative(n) => NumberView::Negative(*n),
            JsonNumber::Other(t) => NumberView::Other(t@),
        }
    }
}

impl View for Json {
    type V = JsonView;

    open spec fn view(&self) -> JsonView
        decreases self,
    {
        match self {
            Json::Null => JsonView::Null,
            Json::Bool(b) => JsonView::Bool(*b),
            Json::Number(n) => JsonView::Number(n@),
            Json::Text(s) => JsonView::Text(s@),
            Json::Array(v) => JsonView::Array(items_view(v@)),
            Json::Object(v) => JsonView::Object(entries_view(v@)),
        }
    }
}

/// The views of the items of an array.
pub open spec fn items_view(v: Seq<Json>) -> Seq<JsonView>
    decreases v,
{
    Seq::new(
        v.len(),
        |i: int|
            if 0 <= i < v.len() {
                v[i].view()
            } else {
                JsonView::Null
            },
    )
}

/// The views of the entries of an object.
pub open spec fn entries_view(v: Seq<(String, Json)>) -> Seq<(Seq<char>, JsonView)>
    decreases v,
{
    Seq::new(
        v.len(),
        |i: int|
            if 0 <= i < v.len() {
                (v[i].0@, v[i].1.view())
            } else {
                (Seq::empty(), JsonView::Null)
            },
    )
}


/// The first entry of `entries` from `from` on that is named `k`.
pub open spec fn first_named(
    entries: Seq<(Seq<char>, JsonView)>,
    k: Seq<char>,
    from: int,
) -> Option<JsonView>
    decreases entries.len() - from,
{
    if from < 0 || from >= entries.len() {
        None
    } else if entries[from].0 == k {
        Some(entries[from].1)
    } else {
        first_named(entries, k, from + 1)
    }
}

impl JsonView {
    /// What an object holds under `k`; nothing for a value of another shape.
    pub open spec fn field(self, k: Seq<char>) -> Option<JsonView> {
        match self {
            JsonView::Object(entries) => first_named(entries, k, 0),
            _ => None,
        }
    }

    /// The text of a string value.
    pub open spec fn text(self) -> Option<Seq<char>> {
        match self {
            JsonView::Text(s) => Some(s),
            _ => None,
        }
    }

    /// The value of a non-negative integer.
    pub open spec fn unsigned(self) -> Option<u64> {
        match self {
            JsonView::Number(NumberView::Unsigned(n)) => Some(n),
            _ => None,
        }
    }

    /// The value of an integer that fits in a signed 64-bit number.
    pub open spec fn signed(self) -> Option<i64> {
        match self {
            JsonView::Number(NumberView::Unsigned(n)) => if n <= i64::MAX {
                Some(n as i64)
            } else {
                None
            },
            JsonView::Number(NumberView::Negative(n)) => Some(n),
            _ => None,
        }
    }

    /// The items of an array.
    pub open spec fn items(self) -> Option<Seq<JsonView>> {
        match self {
            JsonView::Array(v) => Some(v),
            _ => None,
        }
    }

    /// The text under `k`.
    pub open spec fn field_text(self, k: Seq<char>) -> Option<Seq<char>> {
        match self.field(k) {
            Some(v) => v.text(),
            None => None,
        }
    }

    /// The text under `k` in what stands under `outer`.
    pub open spec fn inner_text(self, outer: Seq<char>, k: Seq<char>) -> Option<Seq<char>> {
        match self.field(outer) {
            Some(v) => v.field_text(k),
            None => None,
        }
    }
}

/// The string items of `items`, in order; others are passed over.
pub open spec fn texts_of(items: Seq<JsonView>, n: nat) -> Seq<Seq<char>>
    decreases n,
{
    if n == 0 {
        Seq::empty()
    } else {
        match items[n - 1].text() {
            Some(s) => texts_of(items, (n - 1) as nat).push(s),
            None => texts_of(items, (n - 1) as nat),
        }
    }
}

impl JsonNumber {
    pub fn duplicate(&self) -> (r: JsonNumber)
        ensures
            r == *self,
    {
        match self {
            JsonNumber::Unsigned(n) => JsonNumber::Unsigned(*n),
            JsonNumber::Negative(n) => JsonNumber::Negative(*n),
            JsonNumber::Other(t) => JsonNumber::Other(t.clone()),
        }
    }
}

impl Json {
    /// A copy of the value.
    pub fn duplicate(&self) -> (r: Json)
        ensures
            r@ == self@,
        decreases self,
    {
        match self {
            Json::Null => Json::Null,
            Json::Bool(b) => Json::Bool(*b),
            Json::Number(n) => Json::Number(n.duplicate()),
            Json::Text(s) => Json::Text(s.clone()),
            Json::Array(v) => {
                let mut out: Vec<Json> = Vec::new();
                let mut i: usize = 0;
                while i < v.len()
                    invariant
                        i <= v.len(),
                        out.len() == i,
                        *self == Json::Array(*v),
                        forall|k: int| 0 <= k < i ==> (#[trigger] out@[k])@ == v@[k]@,
                    decreases v.len() - i,
                {
                    proof {
                        assert(decreases_to!(*self => self->Array_0));
                        assert(decreases_to!(*v => v@));
                        assert(decreases_to!(v@ => v@[i as int]));
                    }
                    out.push(v[i].duplicate());
                    i += 1;
                }
                assert(items_view(out@) =~= items_view(v@));
                Json::Array(out)
            },
            Json::Object(v) => {
                let mut out: Vec<(String, Json)> = Vec::new();
                let mut i: usize = 0;
                while i < v.len()
                    invariant
                        i <= v.len(),
                        out.len() == i,
                        *self == Json::Object(*v),
                        forall|k: int|
                            0 <= k < i ==> (#[trigger] out@[k]).0@ == v@[k].0@ && out@[k].1@
                                == v@[k].1@,
                    decreases v.len() - i,
                {
                    proof {
                        assert(decreases_to!(*self => self->Object_0));
                        assert(decreases_to!(*v => v@));
                        assert(decreases_to!(v@ => v@[i as int]));
                        assert(decreases_to!(v@[i as int] => v@[i as int].1));
                    }
                    out.push((v[i].0.clone(), v[i].1.duplicate()));
                    i += 1;
                }
                assert(entries_view(out@) =~= entries_view(v@));
                Json::Object(out)
            },
        }
    }

    /// `serde_json`-style lookup: what an object holds under `key`.
    pub fn get(&self, key: &str) -> (r: Option<&Json>)
        ensures
            r is Some == self@.field(key@) is Some,
            r matches Some(v) ==> self@.field(key@) == Some(v@),
    {
        match self {
            Json::Object(v) => {
                let ghost all = entries_view(v@);
                let mut i: usize = 0;
                while i < v.len()
                    invariant
                        i <= v.len(),
                        all == entries_view(v@),
                        self@ == JsonView::Object(all),
                        first_named(all, key@, 0) == first_named(all, key@, i as int),
                    decreases v.len() - i,
                {
                    assert(all[i as int] == (v@[i as int].0@, v@[i as int].1@));
                    if str_eq(v[i].0.as_str(), key) {
                        return Some(&v[i].1);
                    }
                    i += 1;
                }
                None
            },
            _ => None,
        }
    }

    pub fn as_str(&self) -> (r: Option<&str>)
        ensures
            r is Some == self@.text() is Some,
            r matches Some(s) ==> self@.text() == Some(s@),
    {
        match self {
            Json::Text(s) => Some(s.as_str()),
            _ => None,
        }
    }

    pub fn as_u64(&self) -> (r: Option<u64>)
        ensures
            r == self@.unsigned(),
    {
        match self {
            Json::Number(JsonNumber::Unsigned(n)) => Some(*n),
            _ => None,
        }
    }

    pub fn as_i64(&self) -> (r: Option<i64>)
        ensures
            r == self@.signed(),
    {
        match self {
            Json::Number(JsonNumber::Unsigned(n)) => if *n <= i64::MAX as u64 {
                Some(*n as i64)
            } else {
                None
            },
            Json::Number(JsonNumber::Negative(n)) => Some(*n),
            _ => None,
        }
    }

    pub fn as_array(&self) -> (r: Option<&Vec<Json>>)
        ensures
            r is Some == self@.items() is Some,
            r matches Some(v) ==> self@.items() == Some(items_view(v@)),
    {
        match self {
            Json::Array(v) => Some(v),
            _ => None,
        }
    }

    /// The text under `key`.
    pub fn get_str(&self, key: &str) -> (r: Option<&str>)
        ensures
            r is Some == self@.field_text(key@) is Some,
            r matches Some(s) ==> self@.field_text(key@) == Some(s@),
    {
        match self.get(key) {
            Some(v) => v.as_str(),
            None => None,
        }
    }

    /// The text under `key` in what stands under `outer`.
    pub fn inner_str(&self, outer: &str, key: &str) -> (r: Option<&str>)
        ensures
            r is Some == self@.inner_text(outer@, key@) is Some,
            r matches Some(s) ==> self@.inner_text(outer@, key@) == Some(s@),
    {
        match self.get(outer) {
            Some(v) => v.get_str(key),
            None => None,
        }
    }
}

impl Clone for Json {
    fn clone(&self) -> (r: Self)
        ensures
            r@ == self@,
    {
        self.duplicate()
    }
}

/// The string items of an array, in order.
pub fn collect_texts(items: &Vec<Json>) -> (out: Vec<String>)
    ensures
        crate::text::views(out@) == texts_of(items_view(items@), items.len() as nat),
{
    let ghost all = items_view(items@);
    let mut out: Vec<String> = Vec::new();
    let mut i: usize = 0;
    assert(crate::text::views(out@) =~= Seq::<Seq<char>>::empty());
    while i < items.len()
        invariant
            i <= items.len(),
            all == items_view(items@),
            crate::text::views(out@) == texts_of(all, i as nat),
        decreases items.len() - i,
    {
        assert(all[i as int] == items@[i as int]@);
        let ghost before = crate::text::views(out@);
        match items[i].as_str() {
            Some(s) => {
                out.push(s.to_owned());
                assert(crate::text::views(out@) =~= before.push(s@));
            },
            None => {},
        }
        i += 1;
    }
    out
}

// ---------------------------------------------------------------------------
// Values of the `serde_json` crate
// ---------------------------------------------------------------------------

/// A value of the `serde_json` crate; nothing is known of what is inside.
#[verifier::external_type_specification]
#[verifier::external_body]
pub struct ExValue(serde_json::Value);

/// Converts to `serde_json::Value`, one node for one node. Nothing is claimed
/// of the result. A number held as text goes through `serde_json::from_str`; a
/// text that it refuses becomes null.
#[verifier::external_body]
pub(crate) fn to_value(json: &Json) -> (v: serde_json::Value)
{
    match json {
        Json::Null => serde_json::Value::Null,
        Json::Bool(b) => serde_json::Value::Bool(*b),
        Json::Number(JsonNumber::Unsigned(n)) => serde_json::Value::from(*n),
        Json::Number(JsonNumber::Negative(n)) => serde_json::Value::from(*n),
        Json::Number(JsonNumber::Other(t)) => serde_json::from_str(t).unwrap_or_default(),
        Json::Text(s) => serde_json::Value::String(s.clone()),
        Json::Array(v) => serde_json::Value::Array(v.iter().map(to_value).collect()),
        Json::Object(v) => serde_json::Value::Object(
            v.iter().map(|e| (e.0.clone(), to_value(&e.1))).collect(),
        ),
    }
}

/// Converts from `serde_json::Value`, one node for one node. Nothing is claimed
/// of the result. A number that fits in no integer of 64 bits is held as text.
#[verifier::external_body]
fn from_value(value: serde_json::Value) -> (json: Json)
{
    match value {
        serde_json::Value::Null => Json::Null,
        serde_json::Value::Bool(b) => Json::Bool(b),
        serde_json::Value::Number(n) => Json::Number(match (n.as_u64(), n.as_i64()) {
            (Some(u), _) => JsonNumber::Unsigned(u),
            (None, Some(i)) => JsonNumber::Negative(i),
            (None, None) => JsonNumber::Other(n.to_string()),
        }),
        serde_json::Value::String(s) => Json::Text(s),
        serde_json::Value::Array(v) => Json::Array(v.into_iter().map(from_value).collect()),
        serde_json::Value::Object(m) => Json::Object(m.into_iter().map(|e| (e.0, from_value(e.1))).collect()),
    }
}

/// A parsed value, if there is one.
pub open spec fn opt_json_view(o: Option<Json>) -> Option<JsonView> {
    match o {
        Some(v) => Some(v@),
        None => None,
    }
}

/// The value that the `serde_json` crate reads out of bytes, if they are JSON.
pub uninterp spec fn json_of(bytes: Seq<u8>) -> Option<JsonView>;

/// Calls `serde_json::from_slice` for a `serde_json::Value`. The contract claims
/// that what is read, and whether, depends on the bytes alone.
#[verifier::external_body]
pub(crate) fn parse_json(bytes: &[u8]) -> (r: Option<Json>)
    ensures
        opt_json_view(r) == json_of(bytes@),
{
    serde_json::from_slice::<serde_json::Value>(bytes).ok().map(from_value)
}

/// The value that the `serde_json` crate reads out of a text, if it is JSON.
pub uninterp spec fn json_of_text(text: Seq<char>) -> Option<JsonView>;

/// Calls `serde_json::from_str` for a `serde_json::Value`. The contract claims
/// that what is read, and whether, depends on the text alone.
#[verifier::external_body]
pub(crate) fn parse_json_text(text: &str) -> (r: Option<Json>)
    ensures
        opt_json_view(r) == json_of_text(text@),
{
    serde_json::from_str::<serde_json::Value>(text).ok().map(from_value)
}

/// How the `serde_json` crate prints a value for debugging.
pub uninterp spec fn debug_value_text(v: JsonView) -> Seq<char>;

/// Calls the `Debug` formatting of `serde_json::Value`; the contract claims
/// that the output depends on the value alone.
#[verifier::external_body]
pub(crate) fn debug_value(json: &Json) -> (s: String)
    ensures
        s@ == debug_value_text(json@),
{
    format!("{:?}", to_value(json))
}

/// The JSON text that the `serde_json` crate writes for a value.
pub uninterp spec fn json_text(v: JsonView) -> Seq<char>;

/// Calls the `Display` formatting of `serde_json::Value`, which writes compact
/// JSON; the contract claims that the text depends on the value alone.
#[verifier::external_body]
pub(crate) fn write_json(json: &Json) -> (s: String)
    ensures
        s@ == json_text(json@),
{
    to_value(json).to_string()
}

proof fn lemma_first_named(
    entries: Seq<(Seq<char>, JsonView)>,
    k: Seq<char>,
    from: int,
    i: int,
)
    requires
        0 <= from <= i < entries.len(),
        entries[i].0 == k,
        forall|j: int| from <= j < i ==> (#[trigger] entries[j]).0 != k,
    ensures
        first_named(entries, k, from) == Some(entries[i].1),
    decreases i - from,
{
    if from < i {
        assert(entries[from].0 != k);
        lemma_first_named(entries, k, from + 1, i);
    }
}

proof fn lemma_none_named(entries: Seq<(Seq<char>, JsonView)>, k: Seq<char>, from: int)
    requires
        0 <= from <= entries.len(),
        forall|j: int| from <= j < entries.len() ==> (#[trigger] entries[j]).0 != k,
    ensures
        first_named(entries, k, from) is None,
    decreases entries.len() - from,
{
    if from < entries.len() {
        assert(entries[from].0 != k);
        lemma_none_named(entries, k, from + 1);
    }
}

/// An object holds under a name what its first entry of that name holds, and
/// nothing where no entry has the name; a value of another shape holds nothing.
pub proof fn law_field_is_the_entry_of_that_name(v: JsonView, k: Seq<char>, i: int)
    ensures
        v matches JsonView::Object(entries) ==> (0 <= i < entries.len() && entries[i].0 == k && (
        forall|j: int| 0 <= j < i ==> (#[trigger] entries[j]).0 != k) ==> v.field(k) == Some(
            entries[i].1,
        )),
        v matches JsonView::Object(entries) ==> ((forall|j: int|
            0 <= j < entries.len() ==> (#[trigger] entries[j]).0 != k) ==> v.field(k) is None),
        !(v is Object) ==> v.field(k) is None,
        v.field(k) matches Some(JsonView::Text(s)) ==> v.field_text(k) == Some(s),
        v.field_text(k) matches Some(s) ==> v.field(k) == Some(JsonView::Text(s)),
        v.items() matches Some(items) ==> v == JsonView::Array(items),
        v matches JsonView::Array(items) ==> v.items() == Some(items),
{
    if let JsonView::Object(entries) = v {
        if 0 <= i < entries.len() && entries[i].0 == k && (forall|j: int|
            0 <= j < i ==> (#[trigger] entries[j]).0 != k) {
            lemma_first_named(entries, k, 0, i);
        }
        if forall|j: int| 0 <= j < entries.len() ==> (#[trigger] entries[j]).0 != k {
            lemma_none_named(entries, k, 0);
        }
    }
}

} // verus!
