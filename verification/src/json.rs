//! JSON values as the evaluator reads them.

use vstd::prelude::*;

verus! {

/// A JSON value.
///
/// A number is kept as the text it was written with: the evaluator only asks
/// whether a value is a number. An object is the list of its members.
#[derive(Debug, PartialEq, Eq)]
pub enum Json {
    Null,
    Bool(bool),
    Number(String),
    String(String),
    Array(Vec<Json>),
    Object(Vec<(String, Json)>),
}

/// The mathematical value of a [`Json`]: strings as character sequences,
/// lists as sequences.
pub enum JsonView {
    Null,
    Bool(bool),
    Number(Seq<char>),
    String(Seq<char>),
    Array(Seq<JsonView>),
    Object(Seq<(Seq<char>, JsonView)>),
}

/// The value of a JSON value.
pub open spec fn json_view(json: Json) -> JsonView
    decreases json,
{
    match json {
        Json::Null => JsonView::Null,
        Json::Bool(b) => JsonView::Bool(b),
        Json::Number(text) => JsonView::Number(text@),
        Json::String(text) => JsonView::String(text@),
        Json::Array(items) => JsonView::Array(items_view(items)),
        Json::Object(members) => JsonView::Object(members_view(members)),
    }
}

/// The values of the elements of an array.
pub open spec fn items_view(items: Vec<Json>) -> Seq<JsonView>
    decreases items,
{
    Seq::new(
        items@.len(),
        |i: int|
            if 0 <= i < items@.len() {
                json_view(items[i])
            } else {
                arbitrary()
            },
    )
}

/// The names and values of the members of an object.
pub open spec fn members_view(members: Vec<(String, Json)>) -> Seq<(Seq<char>, JsonView)>
    decreases members,
{
    Seq::new(
        members@.len(),
        |i: int|
            if 0 <= i < members@.len() {
                (members[i].0@, json_view(members[i].1))
            } else {
                arbitrary()
            },
    )
}

impl View for Json {
    type V = JsonView;

    open spec fn view(&self) -> JsonView {
        json_view(*self)
    }
}

impl Clone for Json {
    /// A copy with the same value.
    fn clone(&self) -> (copy: Json)
        ensures
            copy@ == self@,
        decreases self,
    {
        match self {
            Json::Null => Json::Null,
            Json::Bool(b) => Json::Bool(*b),
            Json::Number(text) => Json::Number(text.clone()),
            Json::String(text) => Json::String(text.clone()),
            Json::Array(items) => Json::Array(clone_items(items)),
            Json::Object(members) => Json::Object(clone_members(members)),
        }
    }
}

/// A copy of the elements of an array.
pub fn clone_items(items: &Vec<Json>) -> (copy: Vec<Json>)
    ensures
        items_view(copy) == items_view(*items),
    decreases items,
{
    let mut copy: Vec<Json> = Vec::new();
    let mut i: usize = 0;
    while i < items.len()
        invariant
            i <= items.len(),
            copy@.len() == i,
            forall|j: int| 0 <= j < i ==> json_view(#[trigger] copy@[j]) == json_view(items@[j]),
        decreases items.len() - i,
    {
        copy.push(items[i].clone());
        i += 1;
    }
    assert(items_view(copy) =~= items_view(*items));
    copy
}

/// A copy of the members of an object.
pub fn clone_members(members: &Vec<(String, Json)>) -> (copy: Vec<(String, Json)>)
    ensures
        members_view(copy) == members_view(*members),
    decreases members,
{
    let mut copy: Vec<(String, Json)> = Vec::new();
    let mut i: usize = 0;
    while i < members.len()
        invariant
            i <= members.len(),
            copy@.len() == i,
            forall|j: int|
                0 <= j < i ==> (#[trigger] copy@[j]).0@ == members@[j].0@ && json_view(copy@[j].1)
                    == json_view(members@[j].1),
        decreases members.len() - i,
    {
        copy.push((members[i].0.clone(), members[i].1.clone()));
        i += 1;
    }
    assert(members_view(copy) =~= members_view(*members));
    copy
}

/// `i` is the first position of `entries` whose key is `key`.
pub open spec fn is_first_at<V>(entries: Seq<(String, V)>, key: Seq<char>, i: int) -> bool {
    &&& 0 <= i < entries.len()
    &&& entries[i].0@ == key
    &&& forall|j: int| 0 <= j < i ==> (#[trigger] entries[j]).0@ != key
}

/// Some entry of `entries` has the key `key`.
pub open spec fn has_key<V>(entries: Seq<(String, V)>, key: Seq<char>) -> bool {
    exists|i: int| 0 <= i < entries.len() && (#[trigger] entries[i]).0@ == key
}

/// The first position of `entries` whose key is `key`, if there is one.
pub open spec fn position<V>(entries: Seq<(String, V)>, key: Seq<char>) -> Option<int> {
    if exists|i: int| is_first_at(entries, key, i) {
        Some(choose|i: int| is_first_at(entries, key, i))
    } else {
        None
    }
}

/// The first position of a key is the only one that `position` can name.
pub proof fn lemma_position_first<V>(entries: Seq<(String, V)>, key: Seq<char>, i: int)
    requires
        is_first_at(entries, key, i),
    ensures
        position(entries, key) == Some(i),
{
    let j = choose|j: int| is_first_at(entries, key, j);
    assert(is_first_at(entries, key, j));
    if j < i {
        assert(entries[j].0@ != key);
    }
    if i < j {
        assert(entries[i].0@ != key);
    }
}

/// No position is named for a key that no entry has.
pub proof fn lemma_position_none<V>(entries: Seq<(String, V)>, key: Seq<char>)
    requires
        forall|j: int| 0 <= j < entries.len() ==> (#[trigger] entries[j]).0@ != key,
    ensures
        position(entries, key).is_none(),
        !has_key(entries, key),
{
}

/// `position` names an entry exactly when some entry has the key.
pub proof fn lemma_position_has_key<V>(entries: Seq<(String, V)>, key: Seq<char>)
    ensures
        position(entries, key).is_some() <==> has_key(entries, key),
        position(entries, key) matches Some(i) ==> is_first_at(entries, key, i),
    decreases entries.len(),
{
    if has_key(entries, key) {
        let w = choose|i: int| 0 <= i < entries.len() && (#[trigger] entries[i]).0@ == key;
        lemma_first_exists(entries, key, w);
    }
}

proof fn lemma_first_exists<V>(entries: Seq<(String, V)>, key: Seq<char>, w: int)
    requires
        0 <= w < entries.len(),
        entries[w].0@ == key,
    ensures
        exists|i: int| is_first_at(entries, key, i),
    decreases w,
{
    if forall|j: int| 0 <= j < w ==> (#[trigger] entries[j]).0@ != key {
        assert(is_first_at(entries, key, w));
    } else {
        let j = choose|j: int| 0 <= j < w && (#[trigger] entries[j]).0@ == key;
        lemma_first_exists(entries, key, j);
    }
}

/// Finds the first entry with the given key.
pub fn find_key<V>(entries: &Vec<(String, V)>, key: &String) -> (r: Option<usize>)
    ensures
        match r {
            Some(i) => position(entries@, key@) == Some(i as int) && i < entries@.len(),
            None => position(entries@, key@).is_none(),
        },
        r.is_some() == has_key(entries@, key@),
{
    let mut i: usize = 0;
    while i < entries.len()
        invariant
            i <= entries.len(),
            forall|j: int| 0 <= j < i ==> (#[trigger] entries@[j]).0@ != key@,
        decreases entries.len() - i,
    {
        if entries[i].0 == *key {
            proof {
                lemma_position_first(entries@, key@, i as int);
                assert(entries@[i as int].0@ == key@);
            }
            return Some(i);
        }
        i += 1;
    }
    proof {
        lemma_position_none(entries@, key@);
    }
    None
}

} // verus!
