//! JSON documents, as the logic that reads them sees them.
use vstd::prelude::*;
use crate::text;

verus! {

#[derive(Debug)]
pub enum Json {
    Null,
    Bool(bool),
    /// An integer that fits.
    Int(i64),
    /// Any other number, in decimal.
    Number(String),
    Text(String),
    Array(Vec<Json>),
    /// The members, in order; no name twice.
    Object(Vec<(String, Json)>),
}

/// A JSON document, its texts and lists as sequences.
#[verifier::ext_equal]
pub enum JsonView {
    Null,
    Bool(bool),
    Int(i64),
    Number(Seq<char>),
    Text(Seq<char>),
    Array(Seq<JsonView>),
    Object(Seq<(Seq<char>, JsonView)>),
}

impl View for Json {
    type V = JsonView;

    open spec fn view(&self) -> JsonView {
        viewed(*self)
    }
}

pub open spec fn viewed(j: Json) -> JsonView
    decreases j,
{
    match j {
        Json::Null => JsonView::Null,
        Json::Bool(b) => JsonView::Bool(b),
        Json::Int(n) => JsonView::Int(n),
        Json::Number(n) => JsonView::Number(n@),
        Json::Text(t) => JsonView::Text(t@),
        Json::Array(v) => JsonView::Array(list_of(v@)),
        Json::Object(m) => JsonView::Object(members_of(m@)),
    }
}

pub open spec fn list_of(v: Seq<Json>) -> Seq<JsonView>
    decreases v,
{
    if v.len() == 0 {
        seq![]
    } else {
        list_of(v.subrange(0, v.len() - 1)).push(viewed(v[v.len() - 1]))
    }
}

pub open spec fn members_of(m: Seq<(String, Json)>) -> Seq<(Seq<char>, JsonView)>
    decreases m,
{
    if m.len() == 0 {
        seq![]
    } else {
        members_of(m.subrange(0, m.len() - 1)).push(
            (m[m.len() - 1].0@, viewed(m[m.len() - 1].1)),
        )
    }
}

/// The view of a list is the views of its items.
pub proof fn lemma_list(v: Seq<Json>)
    ensures
        list_of(v).len() == v.len(),
        forall|i: int| 0 <= i < v.len() ==> (#[trigger] list_of(v)[i]) == v[i]@,
    decreases v.len(),
{
    if v.len() > 0 {
        let head = v.subrange(0, v.len() - 1);
        lemma_list(head);
        assert forall|i: int| 0 <= i < v.len() implies (#[trigger] list_of(v)[i]) == v[i]@ by {
            if i < head.len() {
                assert(list_of(head)[i] == head[i]@);
            }
        }
    }
}

proof fn lemma_members(m: Seq<(String, Json)>)
    ensures
        members_of(m).len() == m.len(),
        forall|i: int|
            0 <= i < m.len() ==> (#[trigger] members_of(m)[i]) == (m[i].0@, m[i].1@),
    decreases m.len(),
{
    if m.len() > 0 {
        let head = m.subrange(0, m.len() - 1);
        lemma_members(head);
        assert forall|i: int| 0 <= i < m.len() implies (#[trigger] members_of(m)[i]) == (
            m[i].0@,
            m[i].1@,
        ) by {
            if i < head.len() {
                assert(members_of(head)[i] == (head[i].0@, head[i].1@));
            }
        }
    }
}

/// The view of a document that may be there.
pub open spec fn opt_view(j: Option<Json>) -> Option<JsonView> {
    match j {
        Some(v) => Some(v@),
        None => None,
    }
}

/// A JSON value as `serde_json` holds it.
#[verifier::external_type_specification]
#[verifier::external_body]
pub struct ExValue(serde_json::Value);

/// What `serde_json::from_slice` reads: the document that the bytes are, none
/// where they are not one.
pub uninterp spec fn json_document(bytes: Seq<u8>) -> Option<JsonView>;

/// `serde_json::from_slice`, its value taken over variant by variant. The
/// document is a function of the bytes; what the bytes of one look like is
/// left to the name.
#[verifier::external_body]
fn read_document(bytes: &Vec<u8>) -> (r: Option<Json>)
    ensures
        opt_view(r) == json_document(bytes@),
{
    serde_json::from_slice(bytes).ok().map(taken_over)
}

/// The variants of a `serde_json::Value`, each as the one that stands for it.
/// Nothing is claimed of it but through `read_document`.
#[verifier::external_body]
fn taken_over(value: serde_json::Value) -> (r: Json)
{
    match value {
        serde_json::Value::Null => Json::Null,
        serde_json::Value::Bool(b) => Json::Bool(b),
        serde_json::Value::Number(n) => match n.as_i64() {
            Some(i) => Json::Int(i),
            None => Json::Number(n.to_string()),
        },
        serde_json::Value::String(s) => Json::Text(s),
        serde_json::Value::Array(v) => Json::Array(v.into_iter().map(taken_over).collect()),
        serde_json::Value::Object(m) => Json::Object(
            m.into_iter().map(|(k, v)| (k, taken_over(v))).collect(),
        ),
    }
}

/// The document that these bytes are, none where they are not one.
pub fn document(bytes: &Vec<u8>) -> (r: Option<Json>)
    ensures
        opt_view(r) == json_document(bytes@),
{
    read_document(bytes)
}

/// The first member of this name.
pub open spec fn member(members: Seq<(Seq<char>, JsonView)>, key: Seq<char>) -> Option<JsonView>
    decreases members.len(),
{
    if members.len() == 0 {
        None
    } else if members[0].0 == key {
        Some(members[0].1)
    } else {
        member(members.drop_first(), key)
    }
}

/// What stands under a name: nothing where there is no object.
pub open spec fn field(j: JsonView, key: Seq<char>) -> Option<JsonView> {
    match j {
        JsonView::Object(members) => member(members, key),
        _ => None,
    }
}

/// What stands under a name below another one.
pub open spec fn inner(j: JsonView, outer: Seq<char>, key: Seq<char>) -> Option<JsonView> {
    match field(j, outer) {
        Some(o) => field(o, key),
        None => None,
    }
}

pub open spec fn as_text(j: Option<JsonView>) -> Option<Seq<char>> {
    match j {
        Some(JsonView::Text(s)) => Some(s),
        _ => None,
    }
}

pub open spec fn as_int(j: Option<JsonView>) -> Option<i64> {
    match j {
        Some(JsonView::Int(n)) => Some(n),
        _ => None,
    }
}

/// The items of an array: none where there is no array.
pub open spec fn items(j: Option<JsonView>) -> Seq<JsonView> {
    match j {
        Some(JsonView::Array(v)) => v,
        _ => seq![],
    }
}

proof fn lemma_member(members: Seq<(Seq<char>, JsonView)>, key: Seq<char>, i: int)
    requires
        0 <= i <= members.len(),
        forall|k: int| 0 <= k < i ==> (#[trigger] members[k]).0 != key,
        i < members.len() ==> members[i].0 == key,
    ensures
        member(members, key) == (if i < members.len() {
            Some(members[i].1)
        } else {
            None
        }),
    decreases members.len(),
{
    if i > 0 {
        assert(members[0].0 != key);
        assert forall|k: int| 0 <= k < i - 1 implies (#[trigger] members.drop_first()[k]).0
            != key by {
            assert(members.drop_first()[k] == members[k + 1]);
        }
        lemma_member(members.drop_first(), key, i - 1);
        if i < members.len() {
            assert(members.drop_first()[i - 1] == members[i]);
        }
    }
}

pub open spec fn borrowed(j: Option<&Json>) -> Option<JsonView> {
    match j {
        Some(v) => Some(v@),
        None => None,
    }
}

impl Json {
    pub fn get(&self, key: &str) -> (r: Option<&Json>)
        ensures
            borrowed(r) == field(self@, key@),
    {
        match self {
            Json::Object(members) => {
                let ghost ms = members_of(members@);
                proof {
                    lemma_members(members@);
                }
                let mut i: usize = 0;
                while i < members.len()
                    invariant
                        i <= members.len(),
                        self@ == JsonView::Object(ms),
                        ms.len() == members@.len(),
                        forall|k: int|
                            0 <= k < ms.len() ==> (#[trigger] ms[k]) == (
                                members@[k].0@,
                                members@[k].1@,
                            ),
                        forall|k: int| 0 <= k < i ==> (#[trigger] ms[k]).0 != key@,
                    decreases members.len() - i,
                {
                    if text::same(members[i].0.as_str(), key) {
                        proof {
                            lemma_member(ms, key@, i as int);
                        }
                        return Some(&members[i].1);
                    }
                    i += 1;
                }
                proof {
                    lemma_member(ms, key@, i as int);
                }
                None
            },
            _ => None,
        }
    }

    /// What stands under `key` in the object under `outer`.
    pub fn get_inner(&self, outer: &str, key: &str) -> (r: Option<&Json>)
        ensures
            borrowed(r) == inner(self@, outer@, key@),
    {
        match self.get(outer) {
            Some(o) => o.get(key),
            None => None,
        }
    }
}

pub fn text_of(j: Option<&Json>) -> (r: Option<String>)
    ensures
        text::opt_text(r) == as_text(borrowed(j)),
{
    match j {
        Some(Json::Text(s)) => Some(s.clone()),
        _ => None,
    }
}

pub fn int_of(j: Option<&Json>) -> (r: Option<i64>)
    ensures
        r == as_int(borrowed(j)),
{
    match j {
        Some(Json::Int(n)) => Some(*n),
        _ => None,
    }
}

} // verus!
