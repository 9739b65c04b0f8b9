//! A plain model of JSON documents, as the router sends and receives them.

use vstd::prelude::*;

verus! {

/// A JSON document.
///
/// Numbers are kept as their decimal text. An object keeps its members in
/// order; where a key occurs twice, the first member is the one that counts.
#[derive(Debug)]
pub enum JsonValue {
    Null,
    Bool(bool),
    Number(String),
    Text(String),
    Array(Vec<JsonValue>),
    Object(Vec<(String, JsonValue)>),
}

/// The mathematical value of a [`JsonValue`].
pub enum JsonView {
    Null,
    Bool(bool),
    Number(Seq<char>),
    Text(Seq<char>),
    Array(Seq<JsonView>),
    Object(Seq<MemberView>),
}

/// One member of an object: its key and its value.
pub struct MemberView {
    pub key: Seq<char>,
    pub value: JsonView,
}

impl View for JsonValue {
    type V = JsonView;

    open spec fn view(&self) -> JsonView
        decreases self,
    {
        match self {
            JsonValue::Null => JsonView::Null,
            JsonValue::Bool(b) => JsonView::Bool(*b),
            JsonValue::Number(n) => JsonView::Number(n@),
            JsonValue::Text(t) => JsonView::Text(t@),
            JsonValue::Array(items) => JsonView::Array(
                Seq::new(
                    items@.len(),
                    |i: int|
                        if 0 <= i < items@.len() {
                            items@[i]@
                        } else {
                            JsonView::Null
                        },
                ),
            ),
            JsonValue::Object(members) => JsonView::Object(
                Seq::new(
                    members@.len(),
                    |i: int|
                        if 0 <= i < members@.len() {
                            MemberView { key: members@[i].0@, value: members@[i].1@ }
                        } else {
                            MemberView { key: Seq::empty(), value: JsonView::Null }
                        },
                ),
            ),
        }
    }
}

/// The views of a sequence of documents.
pub open spec fn json_views(items: Seq<JsonValue>) -> Seq<JsonView> {
    Seq::new(items.len(), |i: int| items[i]@)
}

/// The views of the members of an object.
pub open spec fn member_views(members: Seq<(String, JsonValue)>) -> Seq<MemberView> {
    Seq::new(members.len(), |i: int| MemberView { key: members[i].0@, value: members[i].1@ })
}

/// The value of the first member at or after `from` whose key is `key`.
pub open spec fn lookup_from(members: Seq<MemberView>, key: Seq<char>, from: int) -> Option<
    JsonView,
>
    decreases members.len() - from,
{
    if from < 0 || from >= members.len() {
        None
    } else if members[from].key == key {
        Some(members[from].value)
    } else {
        lookup_from(members, key, from + 1)
    }
}

/// The view of an array is the views of its elements.
pub proof fn lemma_array_view(items: Vec<JsonValue>)
    ensures
        JsonValue::Array(items)@ == JsonView::Array(json_views(items@)),
{
    let whole = JsonValue::Array(items);
    assert forall|i: int| 0 <= i < items@.len() implies whole@->Array_0[i] == items@[i]@ by {
        assert(decreases_to!(items => items@[i]));
    }
    assert(whole@->Array_0 =~= json_views(items@));
}

/// The view of an object is the views of its members.
pub proof fn lemma_object_view(members: Vec<(String, JsonValue)>)
    ensures
        JsonValue::Object(members)@ == JsonView::Object(member_views(members@)),
{
    let whole = JsonValue::Object(members);
    assert forall|i: int| 0 <= i < members@.len() implies whole@->Object_0[i] == (MemberView {
        key: members@[i].0@,
        value: members@[i].1@,
    }) by {
        assert(decreases_to!(members => members@[i]));
        assert(decreases_to!(members@[i] => members@[i].1));
        assert(decreases_to!(whole => members));
        assert(decreases_to!(whole => members@[i].1));
    }
    assert(whole@->Object_0 =~= member_views(members@));
}

impl JsonView {
    /// The member `key` of an object; `None` for anything else.
    pub open spec fn member(self, key: Seq<char>) -> Option<JsonView> {
        match self {
            JsonView::Object(members) => lookup_from(members, key, 0),
            _ => None,
        }
    }

    /// The characters of a string; `None` for anything else.
    pub open spec fn text(self) -> Option<Seq<char>> {
        match self {
            JsonView::Text(t) => Some(t),
            _ => None,
        }
    }

    /// The value of a boolean; `None` for anything else.
    pub open spec fn boolean(self) -> Option<bool> {
        match self {
            JsonView::Bool(b) => Some(b),
            _ => None,
        }
    }

    /// The elements of an array; `None` for anything else.
    pub open spec fn elements(self) -> Option<Seq<JsonView>> {
        match self {
            JsonView::Array(items) => Some(items),
            _ => None,
        }
    }

    /// The members of an object; `None` for anything else.
    pub open spec fn members(self) -> Option<Seq<MemberView>> {
        match self {
            JsonView::Object(members) => Some(members),
            _ => None,
        }
    }

    /// The string held by the member `key`, where there is one.
    pub open spec fn text_member(self, key: Seq<char>) -> Option<Seq<char>> {
        match self.member(key) {
            Some(v) => v.text(),
            None => None,
        }
    }

    /// The boolean held by the member `key`, where there is one.
    pub open spec fn bool_member(self, key: Seq<char>) -> Option<bool> {
        match self.member(key) {
            Some(v) => v.boolean(),
            None => None,
        }
    }
}

impl JsonValue {
    /// A copy of this document.
    #[verifier::loop_isolation(false)]
    pub fn duplicate(&self) -> (out: Self)
        ensures
            out@ == self@,
        decreases self,
    {
        match self {
            JsonValue::Null => JsonValue::Null,
            JsonValue::Bool(b) => JsonValue::Bool(*b),
            JsonValue::Number(n) => JsonValue::Number(n.clone()),
            JsonValue::Text(t) => JsonValue::Text(t.clone()),
            JsonValue::Array(items) => {
                let mut copy: Vec<JsonValue> = Vec::new();
                let n: usize = items.len();
                let mut i: usize = 0;
                while i < n
                    invariant
                        n == items@.len(),
                        i <= n,
                        copy@.len() == i,
                        forall|k: int| 0 <= k < i ==> (#[trigger] copy@[k])@ == items@[k]@,
                    decreases n - i,
                {
                    assert(decreases_to!(*items => items@[i as int]));
                    let item = items[i].duplicate();
                    copy.push(item);
                    i += 1;
                }
                let out = JsonValue::Array(copy);
                proof {
                    lemma_array_view(copy);
                    lemma_array_view(*items);
                }
                assert(out@->Array_0 =~= self@->Array_0);
                out
            },
            JsonValue::Object(members) => {
                let mut copy: Vec<(String, JsonValue)> = Vec::new();
                let n: usize = members.len();
                let mut i: usize = 0;
                while i < n
                    invariant
                        n == members@.len(),
                        i <= n,
                        copy@.len() == i,
                        forall|k: int|
                            0 <= k < i ==> (#[trigger] copy@[k]).0@ == members@[k].0@
                                && copy@[k].1@ == members@[k].1@,
                    decreases n - i,
                {
                    assert(decreases_to!(*members => members@[i as int]));
                    assert(decreases_to!(members@[i as int] => members@[i as int].1));
                    let key = members[i].0.clone();
                    let value = members[i].1.duplicate();
                    copy.push((key, value));
                    i += 1;
                }
                let out = JsonValue::Object(copy);
                proof {
                    lemma_object_view(copy);
                    lemma_object_view(*members);
                }
                assert(out@->Object_0 =~= self@->Object_0);
                out
            },
        }
    }
}

impl JsonValue {
    /// Whether this is `null`.
    pub fn is_null(&self) -> (null: bool)
        ensures
            null == (self@ is Null),
    {
        match self {
            JsonValue::Null => true,
            _ => false,
        }
    }

    /// The characters of a string; `None` for anything else.
    pub fn as_str(&self) -> (out: Option<&str>)
        ensures
            match out {
                Some(t) => self@.text() == Some(t@),
                None => self@.text() is None,
            },
    {
        match self {
            JsonValue::Text(t) => Some(t.as_str()),
            _ => None,
        }
    }

    /// The value of a boolean; `None` for anything else.
    pub fn as_bool(&self) -> (out: Option<bool>)
        ensures
            out == self@.boolean(),
    {
        match self {
            JsonValue::Bool(b) => Some(*b),
            _ => None,
        }
    }

    /// The elements of an array; `None` for anything else.
    pub fn as_array(&self) -> (out: Option<&Vec<JsonValue>>)
        ensures
            match out {
                Some(items) => self@.elements() == Some(json_views(items@)),
                None => self@.elements() is None,
            },
    {
        match self {
            JsonValue::Array(items) => {
                proof {
                    lemma_array_view(*items);
                }
                Some(items)
            },
            _ => None,
        }
    }

    /// The members of an object; `None` for anything else.
    pub fn as_object(&self) -> (out: Option<&Vec<(String, JsonValue)>>)
        ensures
            match out {
                Some(members) => self@.members() == Some(member_views(members@)),
                None => self@.members() is None,
            },
    {
        match self {
            JsonValue::Object(members) => {
                proof {
                    lemma_object_view(*members);
                }
                Some(members)
            },
            _ => None,
        }
    }

    /// The member `key` of an object; `None` for anything else.
    pub fn get(&self, key: &str) -> (out: Option<&JsonValue>)
        ensures
            match out {
                Some(v) => self@.member(key@) == Some(v@),
                None => self@.member(key@) is None,
            },
    {
        match self {
            JsonValue::Object(members) => {
                let ghost all = member_views(members@);
                proof {
                    lemma_object_view(*members);
                }
                let wanted = crate::text::chars_of(key);
                let n: usize = members.len();
                let mut i: usize = 0;
                while i < n
                    invariant
                        n == members@.len(),
                        i <= n,
                        all == member_views(members@),
                        self@ == JsonView::Object(all),
                        wanted@ == key@,
                        lookup_from(all, key@, 0) == lookup_from(all, key@, i as int),
                    decreases n - i,
                {
                    let name = crate::text::chars_of(members[i].0.as_str());
                    if crate::text::same_text(name.as_slice(), wanted.as_slice()) {
                        return Some(&members[i].1);
                    }
                    i += 1;
                }
                None
            },
            _ => None,
        }
    }
}

} // verus!
