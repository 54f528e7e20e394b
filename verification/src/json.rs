use vstd::prelude::*;

verus! {

/// A JSON value. A number is kept as its text; an object holds its members in the
/// order the parser hands them out, each key once.
#[derive(Debug)]
pub enum JsonValue {
    Null,
    Bool(bool),
    Number(String),
    String(String),
    Array(Vec<JsonValue>),
    Object(Vec<(String, JsonValue)>),
}

/// What a JSON value denotes: texts by their characters.
pub enum JsonView {
    Null,
    Bool(bool),
    Number(Seq<char>),
    Str(Seq<char>),
    Array(Seq<JsonView>),
    Object(Seq<(Seq<char>, JsonView)>),
}

/// What a JSON value denotes.
pub open spec fn json_view(v: JsonValue) -> JsonView
    decreases v, 1int,
{
    match v {
        JsonValue::Null => JsonView::Null,
        JsonValue::Bool(b) => JsonView::Bool(b),
        JsonValue::Number(n) => JsonView::Number(n@),
        JsonValue::String(s) => JsonView::Str(s@),
        JsonValue::Array(a) => JsonView::Array(json_views(a@)),
        JsonValue::Object(ms) => JsonView::Object(json_members_view(ms@)),
    }
}

/// What a list of JSON values denotes.
pub open spec fn json_views(vs: Seq<JsonValue>) -> Seq<JsonView>
    decreases vs, 0int,
{
    if vs.len() == 0 {
        Seq::empty()
    } else {
        json_views(vs.drop_last()).push(json_view(vs.last()))
    }
}

/// What the members of a JSON object denote.
pub open spec fn json_members_view(ms: Seq<(String, JsonValue)>) -> Seq<(Seq<char>, JsonView)>
    decreases ms, 0int,
{
    if ms.len() == 0 {
        Seq::empty()
    } else {
        json_members_view(ms.drop_last()).push((ms.last().0@, json_view(ms.last().1)))
    }
}

impl View for JsonValue {
    type V = JsonView;

    open spec fn view(&self) -> JsonView {
        json_view(*self)
    }
}

/// The outside type of a parsed JSON value, carried only from the parse to its
/// conversion.
#[verifier::external_type_specification]
#[verifier::external_body]
pub struct ExJsonValue(serde_json::Value);

/// What `serde_json::from_str` reads from `text`, as a value of this library: `None`
/// where `text` is not JSON.
pub uninterp spec fn spec_parse_json(text: Seq<char>) -> Option<JsonView>;

/// Turns a `serde_json::Value` into the same value of this library, variant by variant;
/// a number becomes its text (`serde_json::Number`'s `Display`). It is the conversion
/// half of `parse_json`, which alone calls it, and claims nothing of its own.
#[verifier::external_body]
fn json_value_from(v: serde_json::Value) -> JsonValue {
    match v {
        serde_json::Value::Null => JsonValue::Null,
        serde_json::Value::Bool(b) => JsonValue::Bool(b),
        serde_json::Value::Number(n) => JsonValue::Number(n.to_string()),
        serde_json::Value::String(s) => JsonValue::String(s),
        serde_json::Value::Array(a) => JsonValue::Array(a.into_iter().map(json_value_from).collect()),
        serde_json::Value::Object(o) => JsonValue::Object(o.into_iter().map(|(k, v)| (k, json_value_from(v))).collect()),
    }
}

/// Reads `text` with `serde_json::from_str` into a `serde_json::Value` and hands it back
/// as a value of this library. Its contract claims only that the outcome is a function
/// of the text, named above: what JSON `text` holds is left to serde_json.
#[verifier::external_body]
pub fn parse_json(text: &str) -> (r: Result<JsonValue, serde_json::Error>)
    ensures
        match r {
            Ok(v) => spec_parse_json(text@) == Some(v@),
            Err(_) => spec_parse_json(text@) is None,
        },
{
    serde_json::from_str::<serde_json::Value>(text).map(json_value_from)
}

/// The position of the first member named `key`, if any.
pub open spec fn member_position(ms: Seq<(Seq<char>, JsonView)>, key: Seq<char>) -> Option<int>
    decreases ms.len(),
{
    if ms.len() == 0 {
        None
    } else {
        match member_position(ms.drop_last(), key) {
            Some(i) => Some(i),
            None => if ms.last().0 == key {
                Some(ms.len() - 1)
            } else {
                None
            },
        }
    }
}

/// The member `key` of an object; `None` where `v` is no object or lacks the member.
pub open spec fn json_member(v: JsonView, key: Seq<char>) -> Option<JsonView> {
    match v {
        JsonView::Object(ms) => match member_position(ms, key) {
            Some(i) => Some(ms[i].1),
            None => None,
        },
        _ => None,
    }
}

/// The string at member `key` of member `key` of `v`, if there is one.
pub open spec fn nested_string(v: JsonView, key: Seq<char>) -> Option<Seq<char>> {
    match json_member(v, key) {
        Some(inner) => match json_member(inner, key) {
            Some(JsonView::Str(s)) => Some(s),
            _ => None,
        },
        None => None,
    }
}

pub proof fn lemma_json_members_view_index(ms: Seq<(String, JsonValue)>, i: int)
    requires
        0 <= i < ms.len(),
    ensures
        json_members_view(ms).len() == ms.len(),
        json_members_view(ms)[i] == (ms[i].0@, json_view(ms[i].1)),
    decreases ms.len(),
{
    lemma_json_members_view_len(ms.drop_last());
    if i < ms.len() - 1 {
        lemma_json_members_view_index(ms.drop_last(), i);
    }
}

pub proof fn lemma_json_members_view_len(ms: Seq<(String, JsonValue)>)
    ensures
        json_members_view(ms).len() == ms.len(),
    decreases ms.len(),
{
    if ms.len() > 0 {
        lemma_json_members_view_len(ms.drop_last());
    }
}

/// Once a prefix holds a member of the name, the whole list finds it there.
proof fn lemma_member_position_prefix(ms: Seq<(Seq<char>, JsonView)>, key: Seq<char>, k: int)
    requires
        0 <= k <= ms.len(),
        member_position(ms.subrange(0, k), key) is Some,
    ensures
        member_position(ms, key) == member_position(ms.subrange(0, k), key),
    decreases ms.len() - k,
{
    if k < ms.len() {
        let t = ms.subrange(0, k + 1);
        assert(t.drop_last() =~= ms.subrange(0, k));
        lemma_member_position_prefix(ms, key, k + 1);
    } else {
        assert(ms.subrange(0, k) =~= ms);
    }
}

/// The member `key` of an object.
pub fn get_member<'a>(v: &'a JsonValue, key: &str) -> (r: Option<&'a JsonValue>)
    ensures
        match r {
            Some(m) => json_member(v@, key@) == Some(m@),
            None => json_member(v@, key@) is None,
        },
{
    match v {
        JsonValue::Object(ms) => {
            let ghost mv = json_members_view(ms@);
            proof {
                lemma_json_members_view_len(ms@);
            }
            let mut i: usize = 0;
            while i < ms.len()
                invariant
                    i <= ms@.len(),
                    *v == JsonValue::Object(*ms),
                    mv == json_members_view(ms@),
                    mv.len() == ms@.len(),
                    member_position(mv.subrange(0, i as int), key@) is None,
                decreases ms.len() - i,
            {
                proof {
                    lemma_json_members_view_index(ms@, i as int);
                    let t = mv.subrange(0, i + 1);
                    assert(t.drop_last() =~= mv.subrange(0, i as int));
                }
                if *ms[i].0.as_str() == *key {
                    proof {
                        lemma_member_position_prefix(mv, key@, i + 1);
                    }
                    return Some(&ms[i].1);
                }
                i = i + 1;
            }
            proof {
                assert(mv.subrange(0, i as int) =~= mv);
            }
            None
        },
        _ => None,
    }
}

/// The string at member `key` of member `key` of `v`, if there is one.
pub fn get_nested_string<'a>(v: &'a JsonValue, key: &str) -> (r: Option<&'a String>)
    ensures
        match r {
            Some(s) => nested_string(v@, key@) == Some(s@),
            None => nested_string(v@, key@) is None,
        },
{
    match get_member(v, key) {
        Some(inner) => match get_member(inner, key) {
            Some(JsonValue::String(s)) => Some(s),
            _ => None,
        },
        None => None,
    }
}

} // verus!
