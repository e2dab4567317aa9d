use vstd::prelude::*;

use serde_json::Value;

use crate::text::{copy_string, str_eq};

verus! {

/// A JSON number as the parser reports it: a non-negative integer, a negative
/// integer, or any other number kept as its decimal text.
pub enum JsonNumber {
    PosInt(u64),
    NegInt(i64),
    Float(String),
}

/// A JSON document held as plain values.  Object members keep the order in
/// which they were read or inserted.
pub enum JsonValue {
    Null,
    Bool(bool),
    Number(JsonNumber),
    Str(String),
    Array(Vec<JsonValue>),
    Object(Vec<(String, JsonValue)>),
}

/// Mathematical view of a number.
pub ghost enum JNum {
    PosInt(u64),
    NegInt(i64),
    Float(Seq<char>),
}

/// Mathematical view of a JSON document.
pub ghost enum JVal {
    Null,
    Bool(bool),
    Number(JNum),
    Str(Seq<char>),
    Array(Seq<JVal>),
    Object(Seq<(Seq<char>, JVal)>),
}

impl JsonNumber {
    pub open spec fn view(&self) -> JNum {
        match self {
            JsonNumber::PosInt(u) => JNum::PosInt(*u),
            JsonNumber::NegInt(i) => JNum::NegInt(*i),
            JsonNumber::Float(s) => JNum::Float(s@),
        }
    }
}

pub open spec fn view_json(v: JsonValue) -> JVal
    decreases v,
{
    match v {
        JsonValue::Null => JVal::Null,
        JsonValue::Bool(b) => JVal::Bool(b),
        JsonValue::Number(n) => JVal::Number(n@),
        JsonValue::Str(s) => JVal::Str(s@),
        JsonValue::Array(a) => JVal::Array(
            Seq::new(a@.len(), |i: int| if 0 <= i < a@.len() { view_json(a@[i]) } else { JVal::Null }),
        ),
        JsonValue::Object(m) => JVal::Object(
            Seq::new(
                m@.len(),
                |i: int|
                    if 0 <= i < m@.len() {
                        (m@[i].0@, view_json(m@[i].1))
                    } else {
                        (Seq::empty(), JVal::Null)
                    },
            ),
        ),
    }
}

/// The value of the first member named `key`.
pub open spec fn obj_lookup(es: Seq<(Seq<char>, JVal)>, key: Seq<char>) -> Option<JVal>
    decreases es.len(),
{
    if es.len() == 0 {
        None
    } else if es[0].0 == key {
        Some(es[0].1)
    } else {
        obj_lookup(es.drop_first(), key)
    }
}

/// The member `key` of an object; nothing for any other value.
pub open spec fn field(j: JVal, key: Seq<char>) -> Option<JVal> {
    match j {
        JVal::Object(es) => obj_lookup(es, key),
        _ => None,
    }
}

/// The member `key` of an optional value.
pub open spec fn field_of(j: Option<JVal>, key: Seq<char>) -> Option<JVal> {
    match j {
        Some(v) => field(v, key),
        None => None,
    }
}

/// The element at `i` of an array; nothing for any other value.
pub open spec fn element(j: Option<JVal>, i: int) -> Option<JVal> {
    match j {
        Some(JVal::Array(a)) => if 0 <= i < a.len() {
            Some(a[i])
        } else {
            None
        },
        _ => None,
    }
}

/// The text of a string value.
pub open spec fn str_of(j: Option<JVal>) -> Option<Seq<char>> {
    match j {
        Some(JVal::Str(s)) => Some(s),
        _ => None,
    }
}

/// A number that is a non-negative integer, as `u64`.
pub open spec fn u64_of(j: Option<JVal>) -> Option<u64> {
    match j {
        Some(JVal::Number(JNum::PosInt(u))) => Some(u),
        _ => None,
    }
}

/// The members of an object value.
pub open spec fn members_of(j: Option<JVal>) -> Option<Seq<(Seq<char>, JVal)>> {
    match j {
        Some(JVal::Object(es)) => Some(es),
        _ => None,
    }
}

/// The elements of an array value.
pub open spec fn elements_of(j: Option<JVal>) -> Option<Seq<JVal>> {
    match j {
        Some(JVal::Array(a)) => Some(a),
        _ => None,
    }
}

/// Views of the members of an object held in a vector.
pub open spec fn view_members(m: Seq<(String, JsonValue)>) -> Seq<(Seq<char>, JVal)> {
    Seq::new(m.len(), |i: int| (m[i].0@, view_json(m[i].1)))
}

/// Views of the elements of an array held in a vector.
pub open spec fn view_elements(a: Seq<JsonValue>) -> Seq<JVal> {
    Seq::new(a.len(), |i: int| view_json(a[i]))
}

/// The view of an object is the view of its members.
pub proof fn lemma_view_object(m: Vec<(String, JsonValue)>)
    ensures
        view_json(JsonValue::Object(m)) == JVal::Object(view_members(m@)),
{
    let s = match view_json(JsonValue::Object(m)) {
        JVal::Object(s) => s,
        _ => Seq::empty(),
    };
    assert(s =~= view_members(m@));
}

/// The view of an array is the view of its elements.
pub proof fn lemma_view_array(a: Vec<JsonValue>)
    ensures
        view_json(JsonValue::Array(a)) == JVal::Array(view_elements(a@)),
{
    let s = match view_json(JsonValue::Array(a)) {
        JVal::Array(s) => s,
        _ => Seq::empty(),
    };
    assert(s =~= view_elements(a@));
}

/// Position of the first member named `key` in a vector of members.
pub fn find_member(m: &Vec<(String, JsonValue)>, key: &str) -> (r: Option<usize>)
    ensures
        match r {
            Some(i) => i < m@.len() && m@[i as int].0@ == key@ && obj_lookup(view_members(m@), key@)
                == Some(view_json(m@[i as int].1)),
            None => obj_lookup(view_members(m@), key@) is None,
        },
{
    let ghost es = view_members(m@);
    let mut i: usize = 0;
    assert(es.skip(0) == es);
    while i < m.len()
        invariant
            i <= m@.len(),
            es == view_members(m@),
            obj_lookup(es, key@) == obj_lookup(es.skip(i as int), key@),
        decreases m@.len() - i,
    {
        assert(es.skip(i as int)[0] == es[i as int]);
        if str_eq(m[i].0.as_str(), key) {
            return Some(i);
        }
        assert(es.skip(i as int).drop_first() == es.skip(i + 1));
        i = i + 1;
    }
    None
}

/// Position of the first member named `key`.
pub open spec fn first_key_index(es: Seq<(Seq<char>, JVal)>, key: Seq<char>) -> Option<int>
    decreases es.len(),
{
    if es.len() == 0 {
        None
    } else if es[0].0 == key {
        Some(0)
    } else {
        match first_key_index(es.drop_first(), key) {
            Some(i) => Some(i + 1),
            None => None,
        }
    }
}

/// What the first member named `key` says about a lookup.
pub proof fn lemma_first_key_index(es: Seq<(Seq<char>, JVal)>, key: Seq<char>)
    ensures
        match first_key_index(es, key) {
            Some(i) => 0 <= i < es.len() && es[i].0 == key && obj_lookup(es, key) == Some(es[i].1)
                && forall|j: int| 0 <= j < i ==> es[j].0 != key,
            None => obj_lookup(es, key) is None && forall|j: int| 0 <= j < es.len() ==> es[j].0 != key,
        },
    decreases es.len(),
{
    if es.len() > 0 && es[0].0 != key {
        lemma_first_key_index(es.drop_first(), key);
        match first_key_index(es.drop_first(), key) {
            Some(i) => {
                assert forall|j: int| 0 <= j < i + 1 implies es[j].0 != key by {
                    if j > 0 {
                        assert(es[j] == es.drop_first()[j - 1]);
                    }
                }
            },
            None => {
                assert forall|j: int| 0 <= j < es.len() implies es[j].0 != key by {
                    if j > 0 {
                        assert(es[j] == es.drop_first()[j - 1]);
                    }
                }
            },
        }
    }
}

/// The members with `key` set to `v`: the first member of that name gets
/// the new value in place, or a new member is added at the end.
pub open spec fn obj_insert(es: Seq<(Seq<char>, JVal)>, key: Seq<char>, v: JVal) -> Seq<(Seq<char>, JVal)> {
    match first_key_index(es, key) {
        Some(i) => es.update(i, (key, v)),
        None => es.push((key, v)),
    }
}

/// The members without the first member named `key`.
pub open spec fn obj_remove(es: Seq<(Seq<char>, JVal)>, key: Seq<char>) -> Seq<(Seq<char>, JVal)> {
    match first_key_index(es, key) {
        Some(i) => es.remove(i),
        None => es,
    }
}

/// Position of the first member named `key`, by the index view.
pub fn find_member_index(m: &Vec<(String, JsonValue)>, key: &str) -> (r: Option<usize>)
    ensures
        r matches Some(i) ==> i < m@.len() && first_key_index(view_members(m@), key@) == Some(
            i as int,
        ),
        r is None ==> first_key_index(view_members(m@), key@) is None,
{
    let ghost es = view_members(m@);
    proof {
        lemma_first_key_index(es, key@);
    }
    let mut i: usize = 0;
    while i < m.len()
        invariant
            i <= m@.len(),
            es == view_members(m@),
            forall|j: int| 0 <= j < i ==> es[j].0 != key@,
            match first_key_index(es, key@) {
                Some(k) => 0 <= k < es.len() && es[k].0 == key@ && forall|j: int| 0 <= j < k ==> es[j].0 != key@,
                None => forall|j: int| 0 <= j < es.len() ==> es[j].0 != key@,
            },
        decreases m@.len() - i,
    {
        if str_eq(m[i].0.as_str(), key) {
            proof {
                assert(es[i as int].0 == key@);
                match first_key_index(es, key@) {
                    Some(k) => {
                        if k < i {
                            assert(es[k].0 != key@);
                        } else if k > i {
                            assert(es[i as int].0 != key@);
                        }
                    },
                    None => {
                        assert(es[i as int].0 != key@);
                    },
                }
            }
            return Some(i);
        }
        i = i + 1;
    }
    proof {
        match first_key_index(es, key@) {
            Some(k) => {
                assert(es[k].0 != key@);
            },
            None => {},
        }
    }
    None
}

/// Sets member `key` of an object's members to `v`.
pub fn members_insert(m: &mut Vec<(String, JsonValue)>, key: String, v: JsonValue)
    ensures
        view_members(final(m)@) == obj_insert(view_members(old(m)@), key@, view_json(v)),
{
    let ghost es = view_members(m@);
    let ghost entry = (key@, view_json(v));
    proof {
        lemma_first_key_index(es, key@);
    }
    match find_member_index(m, key.as_str()) {
        Some(i) => {
            let _ = m.remove(i);
            m.insert(i, (key, v));
            assert(view_members(m@) =~= es.update(i as int, entry));
        },
        None => {
            m.push((key, v));
            assert(view_members(m@) =~= es.push(entry));
        },
    }
}

/// Removes member `key` from an object's members.
pub fn members_remove(m: &mut Vec<(String, JsonValue)>, key: &str)
    ensures
        view_members(final(m)@) == obj_remove(view_members(old(m)@), key@),
{
    let ghost es = view_members(m@);
    proof {
        lemma_first_key_index(es, key@);
    }
    match find_member_index(m, key) {
        Some(i) => {
            assert(first_key_index(es, key@) == Some(i as int));
            let _ = m.remove(i);
            assert(view_members(m@) =~= es.remove(i as int));
            assert(obj_remove(es, key@) == es.remove(i as int));
        },
        None => {
            assert(first_key_index(es, key@) is None);
            assert(view_members(m@) == es);
        },
    }
}

/// An object without members.
pub fn empty_object() -> (r: JsonValue)
    ensures
        view_json(r) == JVal::Object(Seq::empty()),
{
    let m: Vec<(String, JsonValue)> = Vec::new();
    proof {
        lemma_view_object(m);
        assert(view_members(m@) =~= Seq::empty());
    }
    JsonValue::Object(m)
}

/// A copy of member `key`, or an empty object when there is none.
pub fn member_or_empty(m: &Vec<(String, JsonValue)>, key: &str) -> (r: JsonValue)
    ensures
        view_json(r) == match obj_lookup(view_members(m@), key@) {
            Some(v) => v,
            None => JVal::Object(Seq::empty()),
        },
{
    proof {
        lemma_first_key_index(view_members(m@), key@);
    }
    match find_member_index(m, key) {
        Some(i) => copy_json(&m[i].1),
        None => empty_object(),
    }
}

/// A string value.
pub fn str_value(s: &String) -> (r: JsonValue)
    ensures
        view_json(r) == JVal::Str(s@),
{
    JsonValue::Str(copy_string(s))
}

/// A copy of an object's members.
pub fn copy_members(m: &Vec<(String, JsonValue)>) -> (r: Vec<(String, JsonValue)>)
    ensures
        view_members(r@) == view_members(m@),
{
    let mut out: Vec<(String, JsonValue)> = Vec::new();
    let mut i: usize = 0;
    while i < m.len()
        invariant
            i <= m@.len(),
            out@.len() == i,
            forall|j: int|
                0 <= j < i ==> (#[trigger] out@[j]).0@ == m@[j].0@ && view_json(out@[j].1) == view_json(
                    m@[j].1,
                ),
        decreases m@.len() - i,
    {
        out.push((copy_string(&m[i].0), copy_json(&m[i].1)));
        i = i + 1;
    }
    assert(view_members(out@) =~= view_members(m@));
    out
}

/// A boolean value.
pub open spec fn bool_of(j: Option<JVal>) -> Option<bool> {
    match j {
        Some(JVal::Bool(b)) => Some(b),
        _ => None,
    }
}

impl JsonValue {
    /// The member `key` of an object.
    pub fn get(&self, key: &str) -> (r: Option<&JsonValue>)
        ensures
            match r {
                Some(x) => field(view_json(*self), key@) == Some(view_json(*x)),
                None => field(view_json(*self), key@) is None,
            },
    {
        match self {
            JsonValue::Object(m) => {
                proof {
                    lemma_view_object(*m);
                }
                match find_member(m, key) {
                    Some(i) => Some(&m[i].1),
                    None => None,
                }
            },
            _ => None,
        }
    }

    /// The element at `i` of an array.
    pub fn at(&self, i: usize) -> (r: Option<&JsonValue>)
        ensures
            match r {
                Some(x) => element(Some(view_json(*self)), i as int) == Some(view_json(*x)),
                None => element(Some(view_json(*self)), i as int) is None,
            },
    {
        match self {
            JsonValue::Array(a) => {
                proof {
                    lemma_view_array(*a);
                }
                if i < a.len() {
                    Some(&a[i])
                } else {
                    None
                }
            },
            _ => None,
        }
    }

    /// The text of a string value.
    pub fn as_str(&self) -> (r: Option<&str>)
        ensures
            match r {
                Some(s) => str_of(Some(view_json(*self))) == Some(s@),
                None => str_of(Some(view_json(*self))) is None,
            },
    {
        match self {
            JsonValue::Str(s) => Some(s.as_str()),
            _ => None,
        }
    }

    /// A boolean value.
    pub fn as_bool(&self) -> (r: Option<bool>)
        ensures
            r == bool_of(Some(view_json(*self))),
    {
        match self {
            JsonValue::Bool(b) => Some(*b),
            _ => None,
        }
    }

    /// A non-negative integer number as `u64`.
    pub fn as_u64(&self) -> (r: Option<u64>)
        ensures
            r == u64_of(Some(view_json(*self))),
    {
        match self {
            JsonValue::Number(JsonNumber::PosInt(u)) => Some(*u),
            _ => None,
        }
    }

    /// The members of an object value.
    pub fn as_object(&self) -> (r: Option<&Vec<(String, JsonValue)>>)
        ensures
            match r {
                Some(m) => members_of(Some(view_json(*self))) == Some(view_members(m@)),
                None => members_of(Some(view_json(*self))) is None,
            },
    {
        match self {
            JsonValue::Object(m) => {
                proof {
                    lemma_view_object(*m);
                }
                Some(m)
            },
            _ => None,
        }
    }

    /// The elements of an array value.
    pub fn as_array(&self) -> (r: Option<&Vec<JsonValue>>)
        ensures
            match r {
                Some(a) => elements_of(Some(view_json(*self))) == Some(view_elements(a@)),
                None => elements_of(Some(view_json(*self))) is None,
            },
    {
        match self {
            JsonValue::Array(a) => {
                proof {
                    lemma_view_array(*a);
                }
                Some(a)
            },
            _ => None,
        }
    }
}

/// The member `key` of an optional value.
pub fn get_opt<'a>(v: Option<&'a JsonValue>, key: &str) -> (r: Option<&'a JsonValue>)
    ensures
        match r {
            Some(x) => field_of(opt_view(v), key@) == Some(view_json(*x)),
            None => field_of(opt_view(v), key@) is None,
        },
{
    match v {
        Some(x) => x.get(key),
        None => None,
    }
}

/// View of an optional reference to a value.
pub open spec fn opt_view(v: Option<&JsonValue>) -> Option<JVal> {
    match v {
        Some(x) => Some(view_json(*x)),
        None => None,
    }
}

/// A copy of a JSON value.
pub fn copy_json(v: &JsonValue) -> (r: JsonValue)
    ensures
        view_json(r) == view_json(*v),
    decreases v,
{
    match v {
        JsonValue::Null => JsonValue::Null,
        JsonValue::Bool(b) => JsonValue::Bool(*b),
        JsonValue::Number(JsonNumber::PosInt(u)) => JsonValue::Number(JsonNumber::PosInt(*u)),
        JsonValue::Number(JsonNumber::NegInt(i)) => JsonValue::Number(JsonNumber::NegInt(*i)),
        JsonValue::Number(JsonNumber::Float(s)) => JsonValue::Number(
            JsonNumber::Float(copy_string(s)),
        ),
        JsonValue::Str(s) => JsonValue::Str(copy_string(s)),
        JsonValue::Array(a) => {
            let mut out: Vec<JsonValue> = Vec::new();
            let mut i: usize = 0;
            while i < a.len()
                invariant
                    *v == JsonValue::Array(*a),
                    i <= a@.len(),
                    out@.len() == i,
                    forall|j: int| 0 <= j < i ==> view_json(#[trigger] out@[j]) == view_json(a@[j]),
                decreases a@.len() - i,
            {
                proof {
                    assert(decreases_to!(*v => (*v)->Array_0));
                    assert(decreases_to!(*a => a[i as int]));
                    assert(decreases_to!(*v => a[i as int]));
                }
                let c = copy_json(&a[i]);
                out.push(c);
                i = i + 1;
            }
            proof {
                lemma_view_array(*a);
                lemma_view_array(out);
                assert(view_elements(out@) =~= view_elements(a@));
            }
            JsonValue::Array(out)
        },
        JsonValue::Object(m) => {
            let mut out: Vec<(String, JsonValue)> = Vec::new();
            let mut i: usize = 0;
            while i < m.len()
                invariant
                    *v == JsonValue::Object(*m),
                    i <= m@.len(),
                    out@.len() == i,
                    forall|j: int|
                        0 <= j < i ==> (#[trigger] out@[j]).0@ == m@[j].0@ && view_json(out@[j].1)
                            == view_json(m@[j].1),
                decreases m@.len() - i,
            {
                let k = copy_string(&m[i].0);
                proof {
                    assert(decreases_to!(*v => (*v)->Object_0));
                    assert(decreases_to!(*m => m[i as int]));
                    assert(decreases_to!(m[i as int] => m[i as int].1));
                    assert(decreases_to!(*v => m[i as int].1));
                }
                let c = copy_json(&m[i].1);
                out.push((k, c));
                i = i + 1;
            }
            proof {
                lemma_view_object(*m);
                lemma_view_object(out);
                assert(view_members(out@) =~= view_members(m@));
            }
            JsonValue::Object(out)
        },
    }
}


/// The number under `key` of an optional object, as `u64`.
pub fn field_u64(v: Option<&JsonValue>, key: &str) -> (r: Option<u64>)
    ensures
        r == u64_of(field_of(opt_view(v), key@)),
{
    match get_opt(v, key) {
        Some(x) => x.as_u64(),
        None => None,
    }
}

/// A copy of the text under `key` of an optional object.
pub fn field_str(v: Option<&JsonValue>, key: &str) -> (r: Option<String>)
    ensures
        match r {
            Some(t) => str_of(field_of(opt_view(v), key@)) == Some(t@),
            None => str_of(field_of(opt_view(v), key@)) is None,
        },
{
    match get_opt(v, key) {
        Some(x) => match x.as_str() {
            Some(t) => Some(crate::text::owned(t)),
            None => None,
        },
        None => None,
    }
}

/// What a JSON pointer step `0` reaches: the member `"0"` of an object, or
/// the first element of an array.
pub open spec fn step_zero(j: Option<JVal>) -> Option<JVal> {
    match j {
        Some(JVal::Object(es)) => obj_lookup(es, seq!['0']),
        Some(JVal::Array(a)) => if a.len() > 0 {
            Some(a[0])
        } else {
            None
        },
        _ => None,
    }
}

/// The pointer step `0` of an optional value.
pub fn get_step_zero(v: Option<&JsonValue>) -> (r: Option<&JsonValue>)
    ensures
        opt_view(r) == step_zero(opt_view(v)),
{
    match v {
        Some(x) => match x {
            JsonValue::Object(m) => {
                let r = x.get("0");
                proof {
                    reveal_strlit("0");
                    assert("0"@ =~= seq!['0']);
                    lemma_view_object(*m);
                }
                r
            },
            JsonValue::Array(a) => {
                proof {
                    lemma_view_array(*a);
                }
                x.at(0)
            },
            _ => None,
        },
        None => None,
    }
}

/// `serde_json::Value`, the document type of the JSON crate, declared so
/// that the converters below can name it.
#[verifier::external_type_specification]
#[verifier::external_body]
pub struct ExSerdeValue(serde_json::Value);

/// `serde_json::Number`, the number type of the JSON crate.
#[verifier::external_type_specification]
#[verifier::external_body]
pub struct ExSerdeNumber(serde_json::Number);

/// Moves a `serde_json::Number` into a [`JsonNumber`]: `u64` when it fits,
/// else `i64` when it fits, else its decimal text.
#[verifier::external_body]
fn number_from_serde(n: serde_json::Number) -> JsonNumber {
    match (n.as_u64(), n.as_i64()) {
        (Some(u), _) => JsonNumber::PosInt(u),
        (None, Some(i)) => JsonNumber::NegInt(i),
        (None, None) => JsonNumber::Float(n.to_string()),
    }
}

/// Moves a [`JsonNumber`] into a `serde_json::Value`; a text that does not
/// read as a JSON number becomes `null`.
#[verifier::external_body]
fn number_to_serde(n: &JsonNumber) -> Value {
    match n {
        JsonNumber::PosInt(u) => Value::from(*u),
        JsonNumber::NegInt(i) => Value::from(*i),
        JsonNumber::Float(t) => t.parse::<serde_json::Number>().map(Value::Number).unwrap_or(Value::Null),
    }
}

/// Moves a `serde_json::Value` into a [`JsonValue`], variant for variant.
#[verifier::external_body]
fn from_serde(v: Value) -> JsonValue {
    match v {
        Value::Null => JsonValue::Null,
        Value::Bool(b) => JsonValue::Bool(b),
        Value::Number(n) => JsonValue::Number(number_from_serde(n)),
        Value::String(s) => JsonValue::Str(s),
        Value::Array(a) => JsonValue::Array(a.into_iter().map(from_serde).collect()),
        Value::Object(m) => JsonValue::Object(m.into_iter().map(|(k, x)| (k, from_serde(x))).collect()),
    }
}

/// Moves a [`JsonValue`] into a `serde_json::Value`, variant for variant.
#[verifier::external_body]
fn to_serde(v: &JsonValue) -> Value {
    match v {
        JsonValue::Null => Value::Null,
        JsonValue::Bool(b) => Value::Bool(*b),
        JsonValue::Number(n) => number_to_serde(n),
        JsonValue::Str(s) => Value::String(s.clone()),
        JsonValue::Array(a) => Value::Array(a.iter().map(to_serde).collect()),
        JsonValue::Object(m) => Value::Object(m.iter().map(|(k, x)| (k.clone(), to_serde(x))).collect()),
    }
}

/// Name for what `serde_json::from_str::<serde_json::Value>` makes of a text:
/// the document it reads, or nothing when the text is not one JSON document.
pub uninterp spec fn parsed_json(text: Seq<char>) -> Option<JVal>;

/// Name for the compact text that `serde_json::to_string` writes for a
/// document (members of an object in key order, as the crate's map keeps
/// them).
pub uninterp spec fn json_text(v: JVal) -> Seq<char>;

/// Reads one JSON document with `serde_json::from_str`.  The result depends
/// on the text alone; which texts are accepted is left to the crate.
#[verifier::external_body]
pub(crate) fn parse_json(text: &str) -> (r: Option<JsonValue>)
    ensures
        match r {
            Some(v) => parsed_json(text@) == Some(view_json(v)),
            None => parsed_json(text@) is None,
        },
{
    match serde_json::from_str::<Value>(text) {
        Ok(v) => Some(from_serde(v)),
        Err(_) => None,
    }
}

/// Name for the message (the `Display` text of the error) that
/// `serde_json::from_str::<serde_json::Value>` reports for a text it
/// rejects.
pub uninterp spec fn json_error_text(text: Seq<char>) -> Seq<char>;

/// Reads one JSON document with `serde_json::from_str`, or reports the
/// crate's error message for the text.
#[verifier::external_body]
pub(crate) fn parse_json_or_error(text: &str) -> (r: Result<JsonValue, String>)
    ensures
        match r {
            Ok(v) => parsed_json(text@) == Some(view_json(v)),
            Err(m) => parsed_json(text@) is None && m@ == json_error_text(text@),
        },
{
    match serde_json::from_str::<Value>(text) {
        Ok(v) => Ok(from_serde(v)),
        Err(e) => Err(e.to_string()),
    }
}

/// Writes a document as compact JSON text with `serde_json::to_string`,
/// which cannot fail on a document value.
#[verifier::external_body]
pub(crate) fn write_json(v: &JsonValue) -> (r: String)
    ensures
        r@ == json_text(view_json(*v)),
{
    serde_json::to_string(&to_serde(v)).unwrap_or_default()
}

} // verus!
