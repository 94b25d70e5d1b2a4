//! JSON data turned into template data. Numbers become their decimal text;
//! nulls are left out, and so are numbers and nulls inside an array that is
//! itself the value of a key or an item of an array being converted.

use vstd::prelude::*;
use crate::data::{Data, DataView, Entries, insert_entry};
use crate::builder::{HashBuilder, VecBuilder};
use crate::template::{int_text, digits, push_int_text, push_digit_text};
use crate::text::string_of;
use rustc_serialize::json::Json;

verus! {

/// A JSON value, as a parser gives it. A floating-point number is kept as
/// the text it is written out as.
#[derive(Debug, PartialEq)]
pub enum JsonValue {
    Null,
    Boolean(bool),
    I64(i64),
    U64(u64),
    F64(String),
    String(String),
    Array(Vec<JsonValue>),
    Object(Vec<(String, JsonValue)>),
}

/// The value of a `JsonValue`.
pub enum JsonView {
    Null,
    Boolean(bool),
    I64(int),
    U64(nat),
    F64(Seq<char>),
    String(Seq<char>),
    Array(Seq<JsonView>),
    Object(Seq<(Seq<char>, JsonView)>),
}

pub open spec fn json_view(j: JsonValue) -> JsonView
    decreases j,
{
    match j {
        JsonValue::Null => JsonView::Null,
        JsonValue::Boolean(b) => JsonView::Boolean(b),
        JsonValue::I64(n) => JsonView::I64(n as int),
        JsonValue::U64(n) => JsonView::U64(n as nat),
        JsonValue::F64(t) => JsonView::F64(t@),
        JsonValue::String(t) => JsonView::String(t@),
        JsonValue::Array(v) => JsonView::Array(jsons_view(v@)),
        JsonValue::Object(es) => JsonView::Object(members_view(es@)),
    }
}

pub open spec fn jsons_view(s: Seq<JsonValue>) -> Seq<JsonView>
    decreases s,
{
    if s.len() == 0 {
        seq![]
    } else {
        jsons_view(s.drop_last()).push(json_view(s.last()))
    }
}

pub open spec fn members_view(s: Seq<(String, JsonValue)>) -> Seq<(Seq<char>, JsonView)>
    decreases s,
{
    if s.len() == 0 {
        seq![]
    } else {
        let e = s.last();
        members_view(s.drop_last()).push((e.0@, json_view(e.1)))
    }
}

impl View for JsonValue {
    type V = JsonView;

    open spec fn view(&self) -> JsonView {
        json_view(*self)
    }
}

pub proof fn lemma_jsons_view(s: Seq<JsonValue>)
    ensures
        jsons_view(s).len() == s.len(),
        forall|i: int| 0 <= i < s.len() ==> #[trigger] jsons_view(s)[i] == json_view(s[i]),
    decreases s.len(),
{
    if s.len() > 0 {
        lemma_jsons_view(s.drop_last());
    }
}

pub proof fn lemma_members_view(s: Seq<(String, JsonValue)>)
    ensures
        members_view(s).len() == s.len(),
        forall|i: int|
            0 <= i < s.len() ==> #[trigger] members_view(s)[i] == (s[i].0@, json_view(s[i].1)),
    decreases s.len(),
{
    if s.len() > 0 {
        lemma_members_view(s.drop_last());
    }
}

/// The hash of the members of an object from `i` on, inserted into `acc`
/// in order: numbers as text, booleans and strings as they are, arrays and
/// objects converted, nulls left out.
pub open spec fn json_hash(ms: Seq<(Seq<char>, JsonView)>, i: int, acc: Entries) -> Entries
    decreases ms, ms.len() - i,
{
    if i < 0 || i >= ms.len() {
        acc
    } else {
        let k = ms[i].0;
        let next = match ms[i].1 {
            JsonView::I64(n) => insert_entry(acc, k, DataView::Strng(int_text(n))),
            JsonView::U64(n) => insert_entry(acc, k, DataView::Strng(digits(n))),
            JsonView::F64(t) => insert_entry(acc, k, DataView::Strng(t)),
            JsonView::Boolean(b) => insert_entry(acc, k, DataView::Bool(b)),
            JsonView::Array(list) => insert_entry(acc, k, DataView::Vector(json_items(list, 0, seq![]))),
            JsonView::Object(ms2) => insert_entry(acc, k, DataView::Hash(json_hash(ms2, 0, seq![]))),
            JsonView::Null => acc,
            JsonView::String(t) => insert_entry(acc, k, DataView::Strng(t)),
        };
        json_hash(ms, i + 1, next)
    }
}

/// The items of an array that is a member's value or an item of an array
/// being converted, from `i` on, pushed onto `acc`: objects, arrays, strings
/// and booleans are kept, numbers and nulls left out.
pub open spec fn json_items(list: Seq<JsonView>, i: int, acc: Seq<DataView>) -> Seq<DataView>
    decreases list, list.len() - i,
{
    if i < 0 || i >= list.len() {
        acc
    } else {
        let next = match list[i] {
            JsonView::Object(ms) => acc.push(DataView::Hash(json_hash(ms, 0, seq![]))),
            JsonView::Array(l2) => acc.push(DataView::Vector(json_vector(l2, 0, seq![]))),
            JsonView::String(t) => acc.push(DataView::Strng(t)),
            JsonView::Boolean(b) => acc.push(DataView::Bool(b)),
            _ => acc,
        };
        json_items(list, i + 1, next)
    }
}

/// The items of an array converted as a vector, from `i` on, pushed onto
/// `acc`: numbers as text, the rest as for a member's value.
pub open spec fn json_vector(list: Seq<JsonView>, i: int, acc: Seq<DataView>) -> Seq<DataView>
    decreases list, list.len() - i,
{
    if i < 0 || i >= list.len() {
        acc
    } else {
        let next = match list[i] {
            JsonView::I64(n) => acc.push(DataView::Strng(int_text(n))),
            JsonView::U64(n) => acc.push(DataView::Strng(digits(n))),
            JsonView::F64(t) => acc.push(DataView::Strng(t)),
            JsonView::Boolean(b) => acc.push(DataView::Bool(b)),
            JsonView::Array(l2) => acc.push(DataView::Vector(json_items(l2, 0, seq![]))),
            JsonView::Object(ms) => acc.push(DataView::Hash(json_hash(ms, 0, seq![]))),
            JsonView::Null => acc,
            JsonView::String(t) => acc.push(DataView::Strng(t)),
        };
        json_vector(list, i + 1, next)
    }
}

/// The text of an integer.
fn int_string(n: i64) -> (s: String)
    ensures
        s@ == int_text(n as int),
{
    let mut cs: Vec<char> = Vec::new();
    push_int_text(&mut cs, n);
    assert(cs@ =~= int_text(n as int));
    string_of(cs.as_slice())
}

/// The text of an unsigned integer.
fn uint_string(n: u64) -> (s: String)
    ensures
        s@ == digits(n as nat),
{
    let mut cs: Vec<char> = Vec::new();
    push_digit_text(&mut cs, n);
    assert(cs@ =~= digits(n as nat));
    string_of(cs.as_slice())
}

/// The hash of a JSON object (see `json_hash`).
pub fn parse_json(json: &JsonValue) -> (b: HashBuilder)
    requires
        json is Object,
    ensures
        b.entries() == json_hash(json@->Object_0, 0, seq![]),
        b.partials_path@ == Seq::<char>::empty(),
    decreases json, 0int,
{
    let mut data = HashBuilder::new();
    match json {
        JsonValue::Object(es) => {
            let ghost mv = members_view(es@);
            proof {
                lemma_members_view(es@);
            }
            let mut i: usize = 0;
            while i < es.len()
                invariant
                    *json == JsonValue::Object(*es),
                    mv == members_view(es@),
                    mv.len() == es@.len(),
                    forall|k: int| 0 <= k < es@.len() ==> #[trigger] mv[k] == (es@[k].0@, json_view(es@[k].1)),
                    i <= es@.len(),
                    data.partials_path@ == Seq::<char>::empty(),
                    json_hash(mv, 0, seq![]) == json_hash(mv, i as int, data.entries()),
                decreases es@.len() - i,
            {
                proof {
                    assert(decreases_to!(*json => (*json)->Object_0));
                    assert(decreases_to!(*es => es@));
                    assert(decreases_to!(es@ => es@[i as int]));
                    assert(decreases_to!(es@[i as int] => es@[i as int].1));
                }
                let k = es[i].0.as_str();
                match &es[i].1 {
                    JsonValue::I64(n) => {
                        data = data.insert(k, Data::Strng(int_string(*n)));
                    },
                    JsonValue::U64(n) => {
                        data = data.insert(k, Data::Strng(uint_string(*n)));
                    },
                    JsonValue::F64(t) => {
                        data = data.insert(k, Data::Strng(t.clone()));
                    },
                    JsonValue::Boolean(b) => {
                        data = data.insert(k, Data::Bool(*b));
                    },
                    JsonValue::Array(list) => {
                        proof {
                            assert(decreases_to!(es@[i as int].1 => (es@[i as int].1)->Array_0));
                        }
                        let v = array_builder(list);
                        data = data.insert(k, v.build());
                    },
                    JsonValue::Object(_) => {
                        let h = parse_json(&es[i].1);
                        data = data.insert(k, h.build());
                    },
                    JsonValue::Null => {},
                    JsonValue::String(t) => {
                        data = data.insert(k, Data::Strng(t.clone()));
                    },
                }
                i = i + 1;
            }
        },
        _ => {},
    }
    data
}

/// The items of an array that is a member's value or an item of an array
/// being converted (see `json_items`).
fn array_builder(list: &Vec<JsonValue>) -> (v: VecBuilder)
    ensures
        v.items() == json_items(jsons_view(list@), 0, seq![]),
    decreases list, 0int,
{
    let mut builder = VecBuilder::new();
    let ghost lv = jsons_view(list@);
    proof {
        lemma_jsons_view(list@);
    }
    let mut i: usize = 0;
    while i < list.len()
        invariant
            lv == jsons_view(list@),
            lv.len() == list@.len(),
            forall|k: int| 0 <= k < list@.len() ==> #[trigger] lv[k] == json_view(list@[k]),
            i <= list@.len(),
            json_items(lv, 0, seq![]) == json_items(lv, i as int, builder.items()),
        decreases list@.len() - i,
    {
        proof {
            assert(decreases_to!(*list => list@));
            assert(decreases_to!(list@ => list@[i as int]));
        }
        match &list[i] {
            JsonValue::Object(_) => {
                let h = parse_json(&list[i]);
                builder = builder.push(h.build());
            },
            JsonValue::Array(_) => {
                let v = parse_json_vector(&list[i]);
                builder = builder.push(v.build());
            },
            JsonValue::String(t) => {
                builder = builder.push(Data::Strng(t.clone()));
            },
            JsonValue::Boolean(b) => {
                builder = builder.push(Data::Bool(*b));
            },
            _ => {},
        }
        i = i + 1;
    }
    builder
}

/// The vector of a JSON array (see `json_vector`).
pub fn parse_json_vector(json: &JsonValue) -> (v: VecBuilder)
    requires
        json is Array,
    ensures
        v.items() == json_vector(json@->Array_0, 0, seq![]),
    decreases json, 0int,
{
    let mut data = VecBuilder::new();
    match json {
        JsonValue::Array(list) => {
            let ghost lv = jsons_view(list@);
            proof {
                lemma_jsons_view(list@);
            }
            let mut i: usize = 0;
            while i < list.len()
                invariant
                    *json == JsonValue::Array(*list),
                    lv == jsons_view(list@),
                    lv.len() == list@.len(),
                    forall|k: int| 0 <= k < list@.len() ==> #[trigger] lv[k] == json_view(list@[k]),
                    i <= list@.len(),
                    json_vector(lv, 0, seq![]) == json_vector(lv, i as int, data.items()),
                decreases list@.len() - i,
            {
                proof {
                    assert(decreases_to!(*json => (*json)->Array_0));
                    assert(decreases_to!(*list => list@));
                    assert(decreases_to!(list@ => list@[i as int]));
                }
                match &list[i] {
                    JsonValue::I64(n) => {
                        data = data.push(Data::Strng(int_string(*n)));
                    },
                    JsonValue::U64(n) => {
                        data = data.push(Data::Strng(uint_string(*n)));
                    },
                    JsonValue::F64(t) => {
                        data = data.push(Data::Strng(t.clone()));
                    },
                    JsonValue::Boolean(b) => {
                        data = data.push(Data::Bool(*b));
                    },
                    JsonValue::Array(l2) => {
                        proof {
                            assert(decreases_to!(list@[i as int] => list@[i as int]->Array_0));
                        }
                        let v = array_builder(l2);
                        data = data.push(v.build());
                    },
                    JsonValue::Object(_) => {
                        let h = parse_json(&list[i]);
                        data = data.push(h.build());
                    },
                    JsonValue::Null => {},
                    JsonValue::String(t) => {
                        data = data.push(Data::Strng(t.clone()));
                    },
                }
                i = i + 1;
            }
        },
        _ => {},
    }
    data
}

#[verifier::external_type_specification]
#[verifier::external_body]
pub struct ExJson(rustc_serialize::json::Json);

/// What `rustc_serialize::json::Json::from_str` gives for `text`, as a
/// `JsonView` (a floating-point number by the text `to_string` gives for
/// it), or the parser's error message (its `Display`).
pub uninterp spec fn parsed_json(text: Seq<char>) -> Result<JsonView, Seq<char>>;

/// The library's value of a parsed JSON value: one variant for each of
/// `rustc_serialize`'s, a floating-point number given by the text
/// `to_string` gives for it. Nothing is claimed of it; it is used only
/// inside `parse_json_text`.
#[verifier::external_body]
fn json_value_of(json: &Json) -> JsonValue {
    match json {
        Json::I64(n) => JsonValue::I64(*n),
        Json::U64(n) => JsonValue::U64(*n),
        Json::F64(n) => JsonValue::F64(n.to_string()),
        Json::String(t) => JsonValue::String(t.clone()),
        Json::Boolean(b) => JsonValue::Boolean(*b),
        Json::Array(items) => JsonValue::Array(items.iter().map(json_value_of).collect()),
        Json::Object(ms) => JsonValue::Object(ms.iter().map(|(k, v)| (k.clone(), json_value_of(v))).collect()),
        Json::Null => JsonValue::Null,
    }
}

/// Calls `rustc_serialize::json::Json::from_str` on `text`. Claimed: the
/// parsed value (converted one variant for one) or the error's message is
/// `parsed_json(text)`, a function of the text alone.
#[verifier::external_body]
pub fn parse_json_text(text: &str) -> (r: Result<JsonValue, String>)
    ensures
        match r {
            Ok(v) => parsed_json(text@) == Ok::<JsonView, Seq<char>>(v@),
            Err(m) => parsed_json(text@) == Err::<JsonView, Seq<char>>(m@),
        },
{
    match Json::from_str(text) {
        Ok(json) => Ok(json_value_of(&json)),
        Err(err) => Err(format!("{}", err)),
    }
}

} // verus!
