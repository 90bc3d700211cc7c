//! JSON values, as settings and request bodies are made of.

use crate::text::{same_text, texts, texts_push};
use vstd::prelude::*;

verus! {

/// A JSON value. A number is kept as it is written.
#[derive(Debug, PartialEq)]
pub enum Json {
    Null,
    Bool(bool),
    Number(String),
    Text(String),
    Array(Vec<Json>),
    /// The members in order; no key occurs twice.
    Object(Vec<Member>),
}

/// A member of a JSON object.
#[derive(Debug, PartialEq)]
pub struct Member {
    pub key: String,
    pub value: Json,
}

/// The model of a [`Json`] value.
pub ghost enum JsonModel {
    Null,
    Bool(bool),
    Number(Seq<char>),
    Text(Seq<char>),
    Array(Seq<JsonModel>),
    Object(Seq<MemberModel>),
}

/// The model of a [`Member`].
pub ghost struct MemberModel {
    pub key: Seq<char>,
    pub value: JsonModel,
}

impl View for Json {
    type V = JsonModel;

    open spec fn view(&self) -> JsonModel
        decreases self,
    {
        match self {
            Json::Null => JsonModel::Null,
            Json::Bool(b) => JsonModel::Bool(*b),
            Json::Number(n) => JsonModel::Number(n@),
            Json::Text(t) => JsonModel::Text(t@),
            Json::Array(items) => JsonModel::Array(
                Seq::new(
                    items@.len(),
                    |i: int|
                        if 0 <= i < items@.len() {
                            items@[i].view()
                        } else {
                            JsonModel::Null
                        },
                ),
            ),
            Json::Object(members) => JsonModel::Object(
                Seq::new(
                    members@.len(),
                    |i: int|
                        if 0 <= i < members@.len() {
                            MemberModel {
                                key: members@[i].key@,
                                value: members@[i].value.view(),
                            }
                        } else {
                            MemberModel { key: Seq::empty(), value: JsonModel::Null }
                        },
                ),
            ),
        }
    }
}

impl View for Member {
    type V = MemberModel;

    open spec fn view(&self) -> MemberModel {
        MemberModel { key: self.key@, value: self.value@ }
    }
}

impl Clone for Json {
    fn clone(&self) -> (r: Self)
        ensures
            r@ == self@,
        decreases self,
    {
        match self {
            Json::Null => Json::Null,
            Json::Bool(b) => Json::Bool(*b),
            Json::Number(n) => Json::Number(n.clone()),
            Json::Text(t) => Json::Text(t.clone()),
            Json::Array(items) => {
                let mut out: Vec<Json> = Vec::new();
                let mut i: usize = 0;
                while i < items.len()
                    invariant
                        i <= items@.len(),
                        out@.len() == i,
                        *self == Json::Array(*items),
                        forall|j: int| 0 <= j < i ==> (#[trigger] out@[j])@ == items@[j]@,
                    decreases items@.len() - i,
                {
                    assert(decreases_to!(items => items@[i as int]));
                    assert(decreases_to!(*self => self->Array_0));
                    assert(decreases_to!(*self => items@[i as int]));
                    out.push(items[i].clone());
                    i = i + 1;
                }
                let r = Json::Array(out);
                proof {
                    assert(r@->Array_0 =~= self@->Array_0);
                }
                r
            },
            Json::Object(members) => {
                let mut out: Vec<Member> = Vec::new();
                let mut i: usize = 0;
                while i < members.len()
                    invariant
                        i <= members@.len(),
                        out@.len() == i,
                        *self == Json::Object(*members),
                        forall|j: int| 0 <= j < i ==> (#[trigger] out@[j])@ == members@[j]@,
                    decreases members@.len() - i,
                {
                    assert(decreases_to!(members => members@[i as int]));
                    assert(decreases_to!(members@[i as int] => members@[i as int].value));
                    assert(decreases_to!(*self => self->Object_0));
                    assert(decreases_to!(*self => members@[i as int].value));
                    out.push(
                        Member { key: members[i].key.clone(), value: members[i].value.clone() },
                    );
                    i = i + 1;
                }
                let r = Json::Object(out);
                proof {
                    assert forall|j: int| 0 <= j < out@.len() implies r@->Object_0[j]
                        == self@->Object_0[j] by {
                        assert(out@[j]@ == members@[j]@);
                    }
                    assert(r@->Object_0 =~= self@->Object_0);
                }
                r
            },
        }
    }
}

/// The value of the member `key`, where there is one.
pub open spec fn member(members: Seq<MemberModel>, key: Seq<char>) -> Option<JsonModel>
    decreases members.len(),
{
    if members.len() == 0 {
        None
    } else if members.last().key == key {
        Some(members.last().value)
    } else {
        member(members.drop_last(), key)
    }
}

/// The members of an object are the models of what it lists.
pub proof fn object_members(members: Vec<Member>)
    ensures
        Json::Object(members)@ == JsonModel::Object(members@.map_values(|m: Member| m@)),
{
    let whole = Json::Object(members);
    let listed = members@.map_values(|m: Member| m@);
    assert forall|i: int| 0 <= i < members@.len() implies whole@->Object_0[i] == listed[i] by {
        assert(listed[i] == members@[i]@);
    }
    assert(whole@->Object_0 =~= listed);
}

/// The items of an array are the models of what it lists.
pub proof fn array_items(items: Vec<Json>)
    ensures
        Json::Array(items)@ == JsonModel::Array(items@.map_values(|j: Json| j@)),
{
    let whole = Json::Array(items);
    assert(whole@->Array_0 =~= items@.map_values(|j: Json| j@));
}

/// The member `key` of an object, where there is one.
pub fn find_member<'a>(members: &'a Vec<Member>, key: &str) -> (r: Option<&'a Json>)
    ensures
        r is Some <==> member(members@.map_values(|m: Member| m@), key@) is Some,
        r matches Some(value) ==> Some(value@) == member(
            members@.map_values(|m: Member| m@),
            key@,
        ),
{
    let ghost all = members@.map_values(|m: Member| m@);
    let mut i: usize = members.len();
    proof {
        assert(all.take(all.len() as int) =~= all);
    }
    while i > 0
        invariant
            i <= members@.len(),
            all == members@.map_values(|m: Member| m@),
            member(all, key@) == member(all.take(i as int), key@),
        decreases i,
    {
        proof {
            assert(all.take(i as int).drop_last() =~= all.take(i - 1));
            assert(all.take(i as int).last() == members@[i - 1]@);
        }
        if same_text(members[i - 1].key.as_str(), key) {
            return Some(&members[i - 1].value);
        }
        i = i - 1;
    }
    None
}

/// The text that a value is, where it is one.
pub open spec fn as_text(value: JsonModel) -> Option<Seq<char>> {
    match value {
        JsonModel::Text(t) => Some(t),
        _ => None,
    }
}

/// The texts among a list of values.
pub fn texts_among(items: &Vec<Json>) -> (r: Vec<String>)
    ensures
        texts(r@) == items@.map_values(|j: Json| j@).filter_map(|j: JsonModel| as_text(j)),
{
    let ghost all = items@.map_values(|j: Json| j@);
    let ghost f = |j: JsonModel| as_text(j);
    let mut out: Vec<String> = Vec::new();
    let mut i: usize = 0;
    proof {
        assert(texts(out@) =~= all.take(0).filter_map(f));
    }
    while i < items.len()
        invariant
            i <= items@.len(),
            all == items@.map_values(|j: Json| j@),
            f == (|j: JsonModel| as_text(j)),
            texts(out@) == all.take(i as int).filter_map(f),
        decreases items@.len() - i,
    {
        proof {
            assert(all.take(i + 1).drop_last() =~= all.take(i as int));
            assert(all.take(i + 1).last() == items@[i as int]@);
        }
        match &items[i] {
            Json::Text(t) => {
                let text = t.clone();
                proof {
                    texts_push(out@, text);
                    assert(texts(out@) + seq![text@] =~= texts(out@).push(text@));
                }
                out.push(text);
            },
            _ => {},
        }
        i = i + 1;
    }
    proof {
        assert(all.take(all.len() as int) =~= all);
    }
    out
}

/// An array of texts.
pub open spec fn text_array(list: Seq<Seq<char>>) -> JsonModel {
    JsonModel::Array(list.map_values(|t: Seq<char>| JsonModel::Text(t)))
}

/// An array of texts.
pub fn array_of(list: Vec<String>) -> (r: Json)
    ensures
        r@ == text_array(texts(list@)),
{
    let mut out: Vec<Json> = Vec::new();
    let mut i: usize = 0;
    while i < list.len()
        invariant
            i <= list@.len(),
            out@.len() == i,
            forall|j: int| 0 <= j < i ==> (#[trigger] out@[j])@ == JsonModel::Text(list@[j]@),
        decreases list@.len() - i,
    {
        out.push(Json::Text(list[i].clone()));
        i = i + 1;
    }
    proof {
        array_items(out);
        let r = Json::Array(out);
        assert(r@->Array_0 =~= texts(list@).map_values(|t: Seq<char>| JsonModel::Text(t)));
    }
    Json::Array(out)
}

/// The texts of an array of texts are those it was made of.
pub proof fn text_array_read_back(list: Seq<Seq<char>>)
    ensures
        text_array(list)->Array_0.filter_map(|j: JsonModel| as_text(j)) == list,
    decreases list.len(),
{
    let f = |j: JsonModel| as_text(j);
    let all = text_array(list)->Array_0;
    if list.len() == 0 {
        assert(all =~= Seq::<JsonModel>::empty());
        assert(all.filter_map(f) =~= list);
    } else {
        text_array_read_back(list.drop_last());
        assert(all.drop_last() =~= text_array(list.drop_last())->Array_0);
        assert(list.drop_last() + seq![list.last()] =~= list);
    }
}

/// The value of a name is that of the last member with the name; there is one exactly where a
/// member has it.
pub proof fn last_of_a_name_counts(members: Seq<MemberModel>, key: Seq<char>)
    ensures
        member(members, key) is Some <==> exists|i: int|
            0 <= i < members.len() && (#[trigger] members[i]).key == key,
        forall|i: int|
            0 <= i < members.len() && (#[trigger] members[i]).key == key && (forall|j: int|
                i < j < members.len() ==> (#[trigger] members[j]).key != key) ==> member(
                members,
                key,
            ) == Some(members[i].value),
    decreases members.len(),
{
    if members.len() > 0 {
        let front = members.drop_last();
        let n = members.len() - 1;
        last_of_a_name_counts(front, key);
        if members.last().key != key {
            if member(front, key) is Some {
                let i = choose|i: int| 0 <= i < front.len() && (#[trigger] front[i]).key == key;
                assert(members[i].key == key);
            }
            assert forall|i: int|
                0 <= i < members.len() && (#[trigger] members[i]).key == key implies i < n
                && front[i] == members[i] by {}
            assert forall|i: int|
                0 <= i < members.len() && (#[trigger] members[i]).key == key && (forall|j: int|
                    i < j < members.len() ==> (#[trigger] members[j]).key != key) implies member(
                members,
                key,
            ) == Some(members[i].value) by {
                assert(front[i] == members[i]);
                assert forall|j: int| i < j < front.len() implies (#[trigger] front[j]).key
                    != key by {
                    assert(front[j] == members[j]);
                }
            }
        } else {
            assert(members[n].key == key);
        }
    }
}

/// A value is modelled as what it is.
pub proof fn values_are_modelled_as_they_are(
    b: bool,
    text: String,
    items: Vec<Json>,
    members: Vec<Member>,
    i: int,
)
    ensures
        Json::Null@ is Null,
        Json::Bool(b)@ == JsonModel::Bool(b),
        Json::Number(text)@ == JsonModel::Number(text@),
        Json::Text(text)@ == JsonModel::Text(text@),
        Json::Array(items)@ is Array && Json::Array(items)@->Array_0.len() == items@.len(),
        0 <= i < items@.len() ==> Json::Array(items)@->Array_0[i] == items@[i]@,
        Json::Object(members)@ is Object && Json::Object(members)@->Object_0.len()
            == members@.len(),
        0 <= i < members@.len() ==> Json::Object(members)@->Object_0[i].key == members@[i].key@
            && Json::Object(members)@->Object_0[i].value == members@[i].value@,
{
}

/// A value is a text exactly where it is written as one, and an array of texts holds each of them.
pub proof fn only_texts_are_texts(value: JsonModel, list: Seq<Seq<char>>, i: int)
    ensures
        value matches JsonModel::Text(text) ==> as_text(value) == Some(text),
        !(value is Text) ==> as_text(value) is None,
        text_array(list) is Array && text_array(list)->Array_0.len() == list.len(),
        0 <= i < list.len() ==> text_array(list)->Array_0[i] == JsonModel::Text(list[i]),
{
}

} // verus!
