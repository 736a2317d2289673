//! JSON values as the observer server sends them, and the reading of fields
//! out of them.
use vstd::prelude::*;
use crate::text::str_eq;
use serde_json::Value;

verus! {

#[verifier::external_type_specification]
#[verifier::external_body]
pub struct ExSerdeJsonValue(serde_json::Value);

/// A JSON value. A number with a fraction or an exponent keeps no value:
/// nothing in the protocol reads one.
pub enum JsonValue {
    Null,
    Bool(bool),
    /// A non-negative integer.
    UInt(u64),
    /// A negative integer.
    NegInt(i64),
    /// A number that is not an integer of 64 bits.
    Float,
    Str(String),
    Array(Vec<JsonValue>),
    /// The members of an object, in order.
    Object(Vec<(String, JsonValue)>),
}

/// The mathematical value of a [`JsonValue`].
pub enum JsonView {
    Null,
    Bool(bool),
    UInt(u64),
    NegInt(i64),
    Float,
    Str(Seq<char>),
    Array(Seq<JsonView>),
    Object(Seq<(Seq<char>, JsonView)>),
}

/// The view of a JSON value.
pub open spec fn json_view(j: JsonValue) -> JsonView
    decreases j,
{
    match j {
        JsonValue::Null => JsonView::Null,
        JsonValue::Bool(b) => JsonView::Bool(b),
        JsonValue::UInt(u) => JsonView::UInt(u),
        JsonValue::NegInt(i) => JsonView::NegInt(i),
        JsonValue::Float => JsonView::Float,
        JsonValue::Str(s) => JsonView::Str(s@),
        JsonValue::Array(v) => JsonView::Array(
            Seq::new(
                v@.len(),
                |i: int|
                    if 0 <= i < v@.len() {
                        json_view(v@[i])
                    } else {
                        JsonView::Null
                    },
            ),
        ),
        JsonValue::Object(v) => JsonView::Object(
            Seq::new(
                v@.len(),
                |i: int|
                    if 0 <= i < v@.len() {
                        (v@[i].0@, json_view(v@[i].1))
                    } else {
                        (Seq::empty(), JsonView::Null)
                    },
            ),
        ),
    }
}

impl View for JsonValue {
    type V = JsonView;

    open spec fn view(&self) -> JsonView {
        json_view(*self)
    }
}

/// The view of an optional JSON value.
pub open spec fn opt_json_view(o: Option<JsonValue>) -> Option<JsonView> {
    match o {
        Some(j) => Some(j@),
        None => None,
    }
}

/// The value serde_json reads from `text` into a `serde_json::Value`, or
/// `None` when it refuses the text.
pub uninterp spec fn json_of(text: Seq<char>) -> Option<JsonView>;

/// The value of the first member named `name` among `ps`.
pub open spec fn member(ps: Seq<(Seq<char>, JsonView)>, name: Seq<char>) -> Option<JsonView>
    decreases ps.len(),
{
    if ps.len() == 0 {
        None
    } else if ps[0].0 == name {
        Some(ps[0].1)
    } else {
        member(ps.drop_first(), name)
    }
}

/// The member `name` of an object; `None` for a value of another kind.
pub open spec fn get_field(j: JsonView, name: Seq<char>) -> Option<JsonView> {
    match j {
        JsonView::Object(ps) => member(ps, name),
        _ => None,
    }
}

/// The member `b` of the member `a` of `j`.
pub open spec fn get_path(j: JsonView, a: Seq<char>, b: Seq<char>) -> Option<JsonView> {
    match get_field(j, a) {
        Some(x) => get_field(x, b),
        None => None,
    }
}

/// The characters of a string value.
pub open spec fn str_of(o: Option<JsonView>) -> Option<Seq<char>> {
    match o {
        Some(JsonView::Str(s)) => Some(s),
        _ => None,
    }
}

/// The member names of an object value, in order; empty for anything else.
pub open spec fn keys_of(o: Option<JsonView>) -> Seq<Seq<char>> {
    match o {
        Some(JsonView::Object(ps)) => ps.map_values(|p: (Seq<char>, JsonView)| p.0),
        _ => Seq::empty(),
    }
}

/// The `serde_json::Value` `v` as a [`JsonValue`], variant for variant; a
/// number as serde_json stores it: a non-negative integer, a negative
/// integer, or neither.
#[verifier::external_body]
fn json_from_serde(v: Value) -> JsonValue {
    match v {
        Value::Null => JsonValue::Null,
        Value::Bool(b) => JsonValue::Bool(b),
        Value::Number(n) => match (n.as_u64(), n.as_i64()) {
            (Some(u), _) => JsonValue::UInt(u),
            (None, Some(i)) => JsonValue::NegInt(i),
            (None, None) => JsonValue::Float,
        },
        Value::String(s) => JsonValue::Str(s),
        Value::Array(a) => JsonValue::Array(a.into_iter().map(json_from_serde).collect()),
        Value::Object(m) => JsonValue::Object(
            m.into_iter().map(|(k, x)| (k, json_from_serde(x))).collect(),
        ),
    }
}

/// `serde_json::from_str` into a `serde_json::Value`, read back as a
/// [`JsonValue`]. Its result is named [`json_of`]: what it gives depends on
/// the text alone, and is `None` exactly when serde_json refuses the text.
#[verifier::external_body]
pub(crate) fn parse_json(text: &str) -> (v: Option<JsonValue>)
    ensures
        opt_json_view(v) == json_of(text@),
{
    match serde_json::from_str::<Value>(text) {
        Ok(v) => Some(json_from_serde(v)),
        Err(_) => None,
    }
}

/// The view of an optional reference to a JSON value.
pub open spec fn opt_ref_view(o: Option<&JsonValue>) -> Option<JsonView> {
    match o {
        Some(j) => Some(j@),
        None => None,
    }
}

proof fn lemma_member_skip(ps: Seq<(Seq<char>, JsonView)>, name: Seq<char>, i: int)
    requires
        0 <= i < ps.len(),
        ps[i].0 != name,
    ensures
        member(ps.skip(i), name) == member(ps.skip(i + 1), name),
{
    assert(ps.skip(i).drop_first() =~= ps.skip(i + 1));
}

/// The member `name` of `j` when `j` is an object.
pub fn field<'a>(j: &'a JsonValue, name: &str) -> (r: Option<&'a JsonValue>)
    ensures
        opt_ref_view(r) == get_field(j@, name@),
{
    match j {
        JsonValue::Object(v) => {
            let ghost ps = j@->Object_0;
            assert(j@ == JsonView::Object(ps));
            assert(ps.skip(0) =~= ps);
            let mut i: usize = 0;
            while i < v.len()
                invariant
                    j@ == JsonView::Object(ps),
                    i <= v@.len(),
                    ps.len() == v@.len(),
                    forall|k: int| 0 <= k < v@.len() ==> #[trigger] ps[k] == (v@[k].0@, v@[k].1@),
                    member(ps, name@) == member(ps.skip(i as int), name@),
                decreases v@.len() - i,
            {
                assert(ps[i as int] == (v@[i as int].0@, v@[i as int].1@));
                if str_eq(v[i].0.as_str(), name) {
                    assert(ps.skip(i as int)[0] == ps[i as int]);
                    assert(member(ps.skip(i as int), name@) == Some(ps[i as int].1));
                    assert(opt_ref_view(Some(&v[i as int].1)) == Some(ps[i as int].1));
                    return Some(&v[i].1);
                }
                proof {
                    lemma_member_skip(ps, name@, i as int);
                }
                i = i + 1;
            }
            assert(ps.skip(i as int).len() == 0);
            None
        },
        _ => None,
    }
}

/// The characters of `j` when it is a string.
pub fn as_string(j: Option<&JsonValue>) -> (r: Option<String>)
    ensures
        match r {
            Some(s) => str_of(opt_ref_view(j)) == Some(s@),
            None => str_of(opt_ref_view(j)) is None,
        },
{
    match j {
        Some(JsonValue::Str(s)) => Some(s.clone()),
        _ => None,
    }
}

/// The member names of `j` when it is an object, in order; empty otherwise.
pub fn keys(j: Option<&JsonValue>) -> (r: Vec<String>)
    ensures
        r@.map_values(|s: String| s@) == keys_of(opt_ref_view(j)),
{
    let mut r: Vec<String> = Vec::new();
    match j {
        Some(JsonValue::Object(v)) => {
            let ghost ps = j.unwrap()@->Object_0;
            let mut i: usize = 0;
            while i < v.len()
                invariant
                    i <= v@.len(),
                    ps.len() == v@.len(),
                    forall|k: int| 0 <= k < v@.len() ==> #[trigger] ps[k] == (v@[k].0@, v@[k].1@),
                    r@.len() == i,
                    forall|k: int| 0 <= k < i ==> #[trigger] r@[k]@ == ps[k].0,
                decreases v@.len() - i,
            {
                assert(ps[i as int] == (v@[i as int].0@, v@[i as int].1@));
                r.push(v[i].0.clone());
                i = i + 1;
            }
            proof {
                assert(r@.map_values(|s: String| s@) =~= ps.map_values(
                    |p: (Seq<char>, JsonView)| p.0,
                ));
            }
        },
        _ => {
            assert(r@.map_values(|s: String| s@) =~= Seq::<Seq<char>>::empty());
        },
    }
    r
}

} // verus!
