//! JSON documents as plain values.
//!
//! `serde_json` parses; [`Json`] holds what came out, so that everything read
//! out of a document is read by verified code.

use serde_json::Value;
use vstd::prelude::*;

use crate::names::{insert_named, lemma_put_values, named, ordered};
use crate::text::str_eq;

verus! {

/// The outside parser's document type.
#[verifier::external_type_specification]
#[verifier::external_body]
pub struct ExValue(serde_json::Value);

/// What a document says. Of a number only its value as a `u64` is kept, where it
/// has one.
#[verifier::ext_equal]
pub enum JsonView {
    Null,
    Bool(bool),
    Number(Option<u64>),
    Text(Seq<char>),
    Array(Seq<JsonView>),
    Object(Seq<(Seq<char>, JsonView)>),
}

/// A JSON document.
pub enum Json {
    /// `null`
    Null,
    /// `true` or `false`
    Bool(bool),
    /// A number, with its value where it is an unsigned integer.
    Number(Option<u64>),
    /// A string.
    Text(String),
    /// An array.
    Array(Vec<Json>),
    /// An object, as its members.
    Object(Vec<(String, Json)>),
}

/// The position of the first member with a key.
pub open spec fn member_index(members: Seq<(Seq<char>, JsonView)>, key: Seq<char>, from: int) -> Option<int>
    decreases members.len() - from,
    when 0 <= from
{
    if from >= members.len() {
        None
    } else if members[from].0 == key {
        Some(from)
    } else {
        member_index(members, key, from + 1)
    }
}

impl JsonView {
    /// The member of an object with this key, if it is an object that has one.
    pub open spec fn get(self, key: Seq<char>) -> Option<JsonView> {
        match self {
            JsonView::Object(members) => match member_index(members, key, 0) {
                Some(i) => Some(members[i].1),
                None => None,
            },
            _ => None,
        }
    }

    /// The value of an unsigned integer.
    pub open spec fn as_u64(self) -> Option<u64> {
        match self {
            JsonView::Number(n) => n,
            _ => None,
        }
    }

    /// The text of a string.
    pub open spec fn as_text(self) -> Option<Seq<char>> {
        match self {
            JsonView::Text(s) => Some(s),
            _ => None,
        }
    }

    /// The elements of an array.
    pub open spec fn as_array(self) -> Option<Seq<JsonView>> {
        match self {
            JsonView::Array(a) => Some(a),
            _ => None,
        }
    }

    /// The members of an object.
    pub open spec fn as_object(self) -> Option<Seq<(Seq<char>, JsonView)>> {
        match self {
            JsonView::Object(m) => Some(m),
            _ => None,
        }
    }

    /// The members of an object in the order of their names. Of several of one
    /// name the last counts.
    pub open spec fn by_name(self) -> Option<Seq<(Seq<char>, JsonView)>> {
        match self {
            JsonView::Object(m) => Some(ordered(m)),
            _ => None,
        }
    }
}

/// What a document of the outside parser says.
pub uninterp spec fn value_tree(v: Value) -> JsonView;

/// What the outside parser makes of a text; nothing where it refuses it.
pub uninterp spec fn parsed_json(text: Seq<char>) -> Option<JsonView>;

impl Json {
    /// What the document says.
    pub open spec fn view(&self) -> JsonView
        decreases self,
    {
        match self {
            Json::Null => JsonView::Null,
            Json::Bool(b) => JsonView::Bool(*b),
            Json::Number(n) => JsonView::Number(*n),
            Json::Text(s) => JsonView::Text(s@),
            Json::Array(a) => JsonView::Array(
                Seq::new(
                    a@.len(),
                    |i: int|
                        if 0 <= i < a@.len() {
                            a@[i].view()
                        } else {
                            JsonView::Null
                        },
                ),
            ),
            Json::Object(m) => JsonView::Object(
                Seq::new(
                    m@.len(),
                    |i: int|
                        if 0 <= i < m@.len() {
                            (m@[i].0@, m@[i].1.view())
                        } else {
                            (seq![], JsonView::Null)
                        },
                ),
            ),
        }
    }
}

/// What the elements of an array say.
pub open spec fn items_view(items: Seq<Json>) -> Seq<JsonView> {
    items.map_values(|j: Json| j@)
}

/// What the members of an object say.
pub open spec fn members_view(members: Seq<(String, Json)>) -> Seq<(Seq<char>, JsonView)> {
    members.map_values(|m: (String, Json)| (m.0@, m.1@))
}

/// What borrowed members of an object say.
pub open spec fn borrowed_view(members: Seq<(String, &Json)>) -> Seq<(Seq<char>, JsonView)> {
    members.map_values(|m: (String, &Json)| (m.0@, m.1@))
}

/// One level of a document of the outside parser.
enum Node {
    Null,
    Bool(bool),
    Number(Option<u64>),
    Text(String),
    Array(Vec<Value>),
    Object(Vec<(String, Value)>),
}

impl Node {
    /// What the level says, its children taken by what they say.
    spec fn tree(self) -> JsonView {
        match self {
            Node::Null => JsonView::Null,
            Node::Bool(b) => JsonView::Bool(b),
            Node::Number(n) => JsonView::Number(n),
            Node::Text(s) => JsonView::Text(s@),
            Node::Array(a) => JsonView::Array(Seq::new(a@.len(), |i: int| value_tree(a@[i]))),
            Node::Object(m) => JsonView::Object(
                Seq::new(m@.len(), |i: int| (m@[i].0@, value_tree(m@[i].1))),
            ),
        }
    }
}

/// `serde_json::from_str` into a `Value`: either a document, whose contents are a
/// function of the text, or the error's own words, of which nothing is claimed.
#[verifier::external_body]
fn parse_value(text: &str) -> (r: Result<Value, String>)
    ensures
        r matches Ok(v) ==> parsed_json(text@) == Some(value_tree(v)),
        r is Err ==> parsed_json(text@) is None,
{
    serde_json::from_str(text).map_err(|e| e.to_string())
}

/// The variants of `serde_json::Value`, each taken apart; `Number::as_u64` gives
/// the value of a number.
#[verifier::external_body]
fn open_value(v: Value) -> (n: Node)
    ensures
        n.tree() == value_tree(v),
{
    match v {
        Value::Null => Node::Null,
        Value::Bool(b) => Node::Bool(b),
        Value::Number(n) => Node::Number(n.as_u64()),
        Value::String(s) => Node::Text(s),
        Value::Array(a) => Node::Array(a),
        Value::Object(m) => Node::Object(m.into_iter().collect()),
    }
}

/// Moves a document of the outside parser into a [`Json`].
fn convert(v: Value) -> (j: Json)
    ensures
        j@ == value_tree(v),
    decreases value_tree(v),
{
    let ghost tree = value_tree(v);
    match open_value(v) {
        Node::Null => Json::Null,
        Node::Bool(b) => Json::Bool(b),
        Node::Number(n) => Json::Number(n),
        Node::Text(s) => Json::Text(s),
        Node::Array(items) => {
            let ghost trees = Seq::new(items@.len(), |i: int| value_tree(items@[i]));
            let mut out: Vec<Json> = Vec::new();
            for item in it: items
                invariant
                    tree == value_tree(v),
                    tree == JsonView::Array(trees),
                    it.seq() == items@,
                    trees == Seq::new(items@.len(), |i: int| value_tree(items@[i])),
                    out@.len() == it.index(),
                    forall|i: int| 0 <= i < out@.len() ==> (#[trigger] out@[i])@ == trees[i],
            {
                assert(decreases_to!(tree => tree->Array_0));
                assert(decreases_to!(tree->Array_0 => tree->Array_0[it.index() as int]));
                let child = convert(item);
                out.push(child);
            }
            let j = Json::Array(out);
            assert(j@->Array_0 =~= trees);
            j
        },
        Node::Object(members) => {
            let ghost trees = Seq::new(members@.len(), |i: int| (members@[i].0@, value_tree(members@[i].1)));
            let mut out: Vec<(String, Json)> = Vec::new();
            for member in it: members
                invariant
                    tree == value_tree(v),
                    tree == JsonView::Object(trees),
                    it.seq() == members@,
                    trees == Seq::new(
                        members@.len(),
                        |i: int| (members@[i].0@, value_tree(members@[i].1)),
                    ),
                    out@.len() == it.index(),
                    forall|i: int|
                        0 <= i < out@.len() ==> (#[trigger] out@[i]).0@ == trees[i].0 && out@[i].1@
                            == trees[i].1,
            {
                let (key, value) = member;
                assert(decreases_to!(tree => tree->Object_0));
                assert(decreases_to!(tree->Object_0 => tree->Object_0[it.index() as int]));
                assert(decreases_to!(
                    tree->Object_0[it.index() as int] => tree->Object_0[it.index() as int].1
                ));
                let child = convert(value);
                out.push((key, child));
            }
            let j = Json::Object(out);
            assert(j@->Object_0 =~= trees);
            j
        },
    }
}

impl Json {
    /// Parses a text. The error is the parser's own account of what is wrong.
    pub fn parse(text: &str) -> (r: Result<Json, String>)
        ensures
            r matches Ok(j) ==> parsed_json(text@) == Some(j@),
            r is Err ==> parsed_json(text@) is None,
    {
        match parse_value(text) {
            Ok(v) => Ok(convert(v)),
            Err(e) => Err(e),
        }
    }

    /// The member of an object with this key, if it is an object that has one.
    pub fn get(&self, key: &str) -> (r: Option<&Json>)
        ensures
            r matches Some(j) ==> self@.get(key@) == Some(j@),
            r is None ==> self@.get(key@) is None,
    {
        match self {
            Json::Object(members) => {
                let ghost all = self@->Object_0;
                let mut i: usize = 0;
                while i < members.len()
                    invariant
                        i <= members@.len(),
                        self@ == JsonView::Object(all),
                        self == Json::Object(*members),
                        all.len() == members@.len(),
                        member_index(all, key@, 0) == member_index(all, key@, i as int),
                    decreases members@.len() - i,
                {
                    assert(all[i as int] == (members@[i as int].0@, members@[i as int].1@));
                    if str_eq(members[i].0.as_str(), key) {
                        return Some(&members[i].1);
                    }
                    i = i + 1;
                }
                None
            },
            _ => None,
        }
    }

    /// The value of an unsigned integer.
    pub fn as_u64(&self) -> (r: Option<u64>)
        ensures
            r == self@.as_u64(),
    {
        match self {
            Json::Number(n) => *n,
            _ => None,
        }
    }

    /// The text of a string.
    pub fn as_text(&self) -> (r: Option<&String>)
        ensures
            r matches Some(s) ==> self@.as_text() == Some(s@),
            r is None ==> self@.as_text() is None,
    {
        match self {
            Json::Text(s) => Some(s),
            _ => None,
        }
    }

    /// The elements of an array.
    pub fn as_array(&self) -> (r: Option<&Vec<Json>>)
        ensures
            r matches Some(a) ==> self@.as_array() == Some(items_view(a@)),
            r is None ==> self@.as_array() is None,
    {
        match self {
            Json::Array(a) => {
                assert(self@->Array_0 =~= items_view(a@));
                Some(a)
            },
            _ => None,
        }
    }

    /// The members of an object.
    pub fn as_object(&self) -> (r: Option<&Vec<(String, Json)>>)
        ensures
            r matches Some(m) ==> self@.as_object() == Some(members_view(m@)),
            r is None ==> self@.as_object() is None,
    {
        match self {
            Json::Object(m) => {
                assert(self@->Object_0 =~= members_view(m@));
                Some(m)
            },
            _ => None,
        }
    }

    /// The members of an object in the order of their names. Of several of one
    /// name the last counts.
    pub fn by_name(&self) -> (r: Option<Vec<(String, &Json)>>)
        ensures
            r matches Some(m) ==> self@.by_name() == Some(borrowed_view(m@)),
            r is None ==> self@.by_name() is None,
    {
        match self {
            Json::Object(members) => {
                let ghost all = members_view(members@);
                assert(self@->Object_0 =~= all);
                let mut out: Vec<(String, &Json)> = Vec::new();
                let mut i: usize = 0;
                assert(borrowed_view(out@) =~= ordered(all.take(0)));
                while i < members.len()
                    invariant
                        i <= members@.len(),
                        all == members_view(members@),
                        borrowed_view(out@) == ordered(all.take(i as int)),
                    decreases members@.len() - i,
                {
                    let ghost before = named(out@);
                    let key = members[i].0.clone();
                    let value = &members[i].1;
                    insert_named(&mut out, key, value);
                    proof {
                        let says = |j: &Json| j@;
                        let done = all.take(i as int);
                        let next = all.take(i + 1);
                        lemma_put_values(before, key@, value, says);
                        assert(before.map_values(|m: (Seq<char>, &Json)| (m.0, says(m.1)))
                            =~= ordered(done));
                        assert(borrowed_view(out@) =~= named(out@).map_values(
                            |m: (Seq<char>, &Json)| (m.0, says(m.1)),
                        ));
                        assert(next.drop_last() =~= done);
                        assert(next.last() == (key@, value@));
                    }
                    i = i + 1;
                }
                assert(all.take(i as int) =~= all);
                Some(out)
            },
            _ => None,
        }
    }
}

} // verus!
