use vstd::prelude::*;

verus! {

/// A JSON value; object members keep the order in which they were written.
#[derive(Debug)]
pub enum JsonValue {
    Null,
    Bool(bool),
    /// The number as written by the JSON printer.
    Number(String),
    String(String),
    Array(Vec<JsonValue>),
    Object(Vec<(String, JsonValue)>),
}

/// Index of the first member at or after `i` whose key is `key`.
pub open spec fn obj_find_from(entries: Seq<(String, JsonValue)>, key: Seq<char>, i: int) -> Option<
    int,
>
    decreases entries.len() - i,
{
    if i < 0 || i >= entries.len() {
        None
    } else if entries[i].0@ == key {
        Some(i)
    } else {
        obj_find_from(entries, key, i + 1)
    }
}

/// Index of the first member whose key is `key`.
pub open spec fn obj_find(entries: Seq<(String, JsonValue)>, key: Seq<char>) -> Option<int> {
    obj_find_from(entries, key, 0)
}

pub proof fn lemma_obj_find_from(entries: Seq<(String, JsonValue)>, key: Seq<char>, i: int)
    requires
        0 <= i,
    ensures
        obj_find_from(entries, key, i) matches Some(k) ==> i <= k < entries.len()
            && entries[k].0@ == key && forall|j: int| i <= j < k ==> entries[j].0@ != key,
        obj_find_from(entries, key, i) is None ==> forall|j: int|
            i <= j < entries.len() ==> entries[j].0@ != key,
    decreases entries.len() - i,
{
    if i < entries.len() {
        lemma_obj_find_from(entries, key, i + 1);
    }
}

/// The member of an object named `key` (`serde_json::Value::get`): `None` for
/// other values and for missing keys.
pub open spec fn spec_get(v: JsonValue, key: Seq<char>) -> Option<JsonValue> {
    match v {
        JsonValue::Object(o) => match obj_find(o@, key) {
            Some(k) => Some(o@[k].1),
            None => None,
        },
        _ => None,
    }
}

/// The index of the first member of `entries` named `key`.
pub fn obj_index(entries: &Vec<(String, JsonValue)>, key: &str) -> (r: Option<usize>)
    ensures
        r matches Some(k) ==> obj_find(entries@, key@) == Some(k as int),
        r is None ==> obj_find(entries@, key@) is None,
{
    let mut i: usize = 0;
    while i < entries.len()
        invariant
            i <= entries@.len(),
            obj_find(entries@, key@) == obj_find_from(entries@, key@, i as int),
        decreases entries@.len() - i,
    {
        if crate::text::str_eq(entries[i].0.as_str(), key) {
            return Some(i);
        }
        i = i + 1;
    }
    None
}

impl JsonValue {
    /// The member named `key` of an object.
    pub fn get(&self, key: &str) -> (r: Option<&JsonValue>)
        ensures
            match r {
                Some(v) => spec_get(*self, key@) == Some(*v),
                None => spec_get(*self, key@) is None,
            },
    {
        match self {
            JsonValue::Object(o) => match obj_index(o, key) {
                Some(k) => {
                    proof {
                        lemma_obj_find_from(o@, key@, 0);
                    }
                    Some(&o[k].1)
                },
                None => None,
            },
            _ => None,
        }
    }

    /// The text of a string value.
    pub fn as_str(&self) -> (r: Option<&str>)
        ensures
            match (r, *self) {
                (Some(a), JsonValue::String(s)) => a@ == s@,
                (None, JsonValue::String(_)) => false,
                (None, _) => true,
                _ => false,
            },
    {
        match self {
            JsonValue::String(s) => Some(s.as_str()),
            _ => None,
        }
    }

    /// The value of a boolean.
    pub fn as_bool(&self) -> (r: Option<bool>)
        ensures
            r == (match *self {
                JsonValue::Bool(b) => Some(b),
                _ => None,
            }),
    {
        match self {
            JsonValue::Bool(b) => Some(*b),
            _ => None,
        }
    }

    /// The members of an object.
    pub fn as_object(&self) -> (r: Option<&Vec<(String, JsonValue)>>)
        ensures
            match (r, *self) {
                (Some(a), JsonValue::Object(o)) => *a == o,
                (None, JsonValue::Object(_)) => false,
                (None, _) => true,
                _ => false,
            },
    {
        match self {
            JsonValue::Object(o) => Some(o),
            _ => None,
        }
    }

    pub fn is_object(&self) -> (r: bool)
        ensures
            r == (*self is Object),
    {
        match self {
            JsonValue::Object(_) => true,
            _ => false,
        }
    }

    /// Parses JSON text.
    pub fn parse(text: &str) -> (r: Result<JsonValue, String>)
        ensures
            r is Ok <==> parsed_json(text@) is Some,
            r matches Ok(v) ==> parsed_json(text@) == Some(v),
    {
        parse_json_text(text)
    }
}

/// The value `serde_json::from_str::<serde_json::Value>` reads from a text, in
/// this library's model of JSON; `None` when the text is not JSON.
pub uninterp spec fn parsed_json(text: Seq<char>) -> Option<JsonValue>;

/// Calls `serde_json::from_str` into a `serde_json::Value` and converts it to a
/// [`JsonValue`] member by member. The contract claims that the outcome depends on
/// the text alone: a value exactly when the text parses. The error message is
/// `serde_json`'s own and nothing is claimed of it.
#[verifier::external_body]
fn parse_json_text(text: &str) -> (r: Result<JsonValue, String>)
    ensures
        r is Ok <==> parsed_json(text@) is Some,
        r matches Ok(v) ==> parsed_json(text@) == Some(v),
{
    match serde_json::from_str::<serde_json::Value>(text) {
        Ok(v) => Ok(from_serde(v)),
        Err(e) => Err(e.to_string()),
    }
}

/// Converts a `serde_json::Value` into a [`JsonValue`], variant by variant,
/// keeping the order of object members.
#[verifier::external_body]
fn from_serde(v: serde_json::Value) -> JsonValue {
    match v {
        serde_json::Value::Null => JsonValue::Null,
        serde_json::Value::Bool(b) => JsonValue::Bool(b),
        serde_json::Value::Number(n) => JsonValue::Number(n.to_string()),
        serde_json::Value::String(s) => JsonValue::String(s),
        serde_json::Value::Array(a) => JsonValue::Array(a.into_iter().map(from_serde).collect()),
        serde_json::Value::Object(m) => JsonValue::Object(
            m.into_iter().map(|(k, v)| (k, from_serde(v))).collect(),
        ),
    }
}

/// The text `Display` of `serde_json::Value` writes for a value: compact JSON.
pub uninterp spec fn printed_json(v: JsonModel) -> Seq<char>;

/// Calls `Display` of `serde_json::Value` (through `to_string`) on the value
/// converted to one member by member: the value as compact JSON text. The
/// contract claims only that the text depends on the value alone.
#[verifier::external_body]
pub(crate) fn json_text(v: &JsonValue) -> (r: String)
    ensures
        r@ == printed_json(json_model(*v)),
{
    to_serde(v).to_string()
}

/// Converts a [`JsonValue`] into a `serde_json::Value`, variant by variant,
/// keeping the order of object members; a number goes back through
/// `serde_json`'s reading of its text (a text that does not read as JSON, which
/// no parsed value holds, becomes `null`).
#[verifier::external_body]
fn to_serde(v: &JsonValue) -> serde_json::Value {
    match v {
        JsonValue::Null => serde_json::Value::Null,
        JsonValue::Bool(b) => serde_json::Value::Bool(*b),
        JsonValue::Number(n) => serde_json::from_str(n.as_str()).unwrap_or(serde_json::Value::Null),
        JsonValue::String(s) => serde_json::Value::String(s.clone()),
        JsonValue::Array(a) => serde_json::Value::Array(a.iter().map(to_serde).collect()),
        JsonValue::Object(m) => serde_json::Value::Object(m.iter().map(|(k, v)| (k.clone(), to_serde(v))).collect()),
    }
}

/// A JSON value as a mathematical object.
pub enum JsonModel {
    Null,
    Bool(bool),
    Number(Seq<char>),
    Str(Seq<char>),
    Array(Seq<JsonModel>),
    Object(Seq<(Seq<char>, JsonModel)>),
}

/// The mathematical object a JSON value stands for.
pub open spec fn json_model(v: JsonValue) -> JsonModel
    decreases v, 0int,
{
    match v {
        JsonValue::Null => JsonModel::Null,
        JsonValue::Bool(b) => JsonModel::Bool(b),
        JsonValue::Number(n) => JsonModel::Number(n@),
        JsonValue::String(s) => JsonModel::Str(s@),
        JsonValue::Array(items) => {
            proof {
                vstd::std_specs::vec::axiom_vec_decreases_to_view(items);
            }
            JsonModel::Array(item_models(items@, items@.len() as int))
        },
        JsonValue::Object(m) => {
            proof {
                vstd::std_specs::vec::axiom_vec_decreases_to_view(m);
            }
            JsonModel::Object(member_models(m@, m@.len() as int))
        },
    }
}

/// The models of the first `n` items of an array.
pub open spec fn item_models(s: Seq<JsonValue>, n: int) -> Seq<JsonModel>
    decreases s, n,
{
    if n <= 0 || n > s.len() {
        Seq::empty()
    } else {
        item_models(s, n - 1).push(json_model(s[n - 1]))
    }
}

/// The models of the first `n` members of an object.
pub open spec fn member_models(s: Seq<(String, JsonValue)>, n: int) -> Seq<(Seq<char>, JsonModel)>
    decreases s, n,
{
    if n <= 0 || n > s.len() {
        Seq::empty()
    } else {
        proof {
            assert(decreases_to!(s => s[n - 1].1));
        }
        member_models(s, n - 1).push((s[n - 1].0@, json_model(s[n - 1].1)))
    }
}

pub proof fn lemma_member_models(s: Seq<(String, JsonValue)>, n: int)
    requires
        0 <= n <= s.len(),
    ensures
        member_models(s, n).len() == n,
        forall|j: int| 0 <= j < n ==> #[trigger] member_models(s, n)[j] == (s[j].0@, json_model(s[j].1)),
    decreases n,
{
    if n > 0 {
        lemma_member_models(s, n - 1);
    }
}

/// The models of all members of an object.
pub open spec fn members_model(s: Seq<(String, JsonValue)>) -> Seq<(Seq<char>, JsonModel)> {
    member_models(s, s.len() as int)
}

/// Index of the first member at or after `i` whose key is `key`.
pub open spec fn model_find(m: Seq<(Seq<char>, JsonModel)>, key: Seq<char>, i: int) -> Option<int>
    decreases m.len() - i,
{
    if i < 0 || i >= m.len() {
        None
    } else if m[i].0 == key {
        Some(i)
    } else {
        model_find(m, key, i + 1)
    }
}

pub proof fn lemma_model_find(m: Seq<(Seq<char>, JsonModel)>, key: Seq<char>, i: int)
    requires
        0 <= i,
    ensures
        model_find(m, key, i) matches Some(k) ==> i <= k < m.len() && m[k].0 == key && forall|j: int|
            i <= j < k ==> m[j].0 != key,
        model_find(m, key, i) is None ==> forall|j: int| i <= j < m.len() ==> m[j].0 != key,
    decreases m.len() - i,
{
    if i < m.len() {
        lemma_model_find(m, key, i + 1);
    }
}

/// `b` merged into `a`: two objects merge member by member, a member of `b`
/// missing from `a` being added at the end; otherwise `b` takes the place of a
/// null `a`, and `a` stays.
pub open spec fn spec_merge(a: JsonModel, b: JsonModel) -> JsonModel
    decreases b, 1int,
{
    match (a, b) {
        (JsonModel::Object(am), JsonModel::Object(bm)) => JsonModel::Object(
            merge_members(am, bm, bm.len() as int),
        ),
        _ => if a is Null {
            b
        } else {
            a
        },
    }
}

/// The members of `acc` with the first `n` members of `bm` merged in, in order.
pub open spec fn merge_members(
    acc: Seq<(Seq<char>, JsonModel)>,
    bm: Seq<(Seq<char>, JsonModel)>,
    n: int,
) -> Seq<(Seq<char>, JsonModel)>
    decreases bm, n,
{
    if n <= 0 || n > bm.len() {
        acc
    } else {
        let prev = merge_members(acc, bm, n - 1);
        match model_find(prev, bm[n - 1].0, 0) {
            Some(i) => {
                proof {
                    assert(decreases_to!(bm => bm[n - 1].1));
                }
                prev.update(i, (prev[i].0, spec_merge(prev[i].1, bm[n - 1].1)))
            },
            None => prev.push(bm[n - 1]),
        }
    }
}

} // verus!
