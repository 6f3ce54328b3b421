//! The JSON value tree and its mathematical model.

use vstd::prelude::*;

verus! {

/// A JSON value as mathematics sees it: strings are sequences of characters,
/// arrays are sequences of values, and an object is the sequence of its
/// members in the order in which they were inserted.
pub enum JsonModel {
    Null,
    Bool(bool),
    /// The decimal text of the number.
    Number(Seq<char>),
    Text(Seq<char>),
    Array(Seq<JsonModel>),
    Object(Seq<(Seq<char>, JsonModel)>),
}

impl JsonModel {
    /// Neither an array nor an object.
    pub open spec fn is_scalar(self) -> bool {
        !(self is Array) && !(self is Object)
    }
}

/// A JSON value. A number is held as its decimal text: this crate never
/// computes with it. An object keeps its members in insertion order. What
/// makes a value well-formed is said in the module `valid`.
#[derive(Debug)]
pub enum GenericValue {
    Null,
    Bool(bool),
    Number(String),
    String(String),
    Array(Vec<GenericValue>),
    Object(Vec<(String, GenericValue)>),
}

impl View for GenericValue {
    type V = JsonModel;

    open spec fn view(&self) -> JsonModel
        decreases self,
    {
        match self {
            GenericValue::Null => JsonModel::Null,
            GenericValue::Bool(b) => JsonModel::Bool(*b),
            GenericValue::Number(text) => JsonModel::Number(text@),
            GenericValue::String(text) => JsonModel::Text(text@),
            GenericValue::Array(items) => JsonModel::Array(
                Seq::new(
                    items@.len(),
                    |i: int|
                        if 0 <= i < items@.len() {
                            items@[i]@
                        } else {
                            JsonModel::Null
                        },
                ),
            ),
            GenericValue::Object(members) => JsonModel::Object(
                Seq::new(
                    members@.len(),
                    |i: int|
                        if 0 <= i < members@.len() {
                            (members@[i].0@, members@[i].1@)
                        } else {
                            (Seq::empty(), JsonModel::Null)
                        },
                ),
            ),
        }
    }
}

/// The models of a sequence of values, one by one.
pub open spec fn models(items: Seq<GenericValue>) -> Seq<JsonModel> {
    Seq::new(items.len(), |i: int| items[i]@)
}

/// The models of a sequence of members, one by one.
pub open spec fn member_models(members: Seq<(String, GenericValue)>) -> Seq<
    (Seq<char>, JsonModel),
> {
    Seq::new(members.len(), |i: int| (members[i].0@, members[i].1@))
}

/// The model of an array is the sequence of its items' models.
pub proof fn lemma_array_model(items: Vec<GenericValue>)
    ensures
        GenericValue::Array(items)@ == JsonModel::Array(models(items@)),
{
    let v = GenericValue::Array(items);
    assert(v@ is Array);
    assert(v@->Array_0 =~= models(items@));
}

/// The model of an object is the sequence of its members' models.
pub proof fn lemma_object_model(members: Vec<(String, GenericValue)>)
    ensures
        GenericValue::Object(members)@ == JsonModel::Object(member_models(members@)),
{
    reveal_with_fuel(<GenericValue as View>::view, 2);
    let v = GenericValue::Object(members);
    assert(v@->Object_0 =~= member_models(members@));
}

/// Where `key` first stands among `members`, or their number if it does not.
pub open spec fn key_position(members: Seq<(Seq<char>, JsonModel)>, key: Seq<char>) -> int
    decreases members.len(),
{
    if members.len() == 0 {
        0
    } else if members[0].0 == key {
        0
    } else {
        1 + key_position(members.drop_first(), key)
    }
}

/// `members` after `key` has been given `value`: a key that is already there
/// keeps its place and takes the new value, a new key goes to the end.
pub open spec fn with_member(
    members: Seq<(Seq<char>, JsonModel)>,
    key: Seq<char>,
    value: JsonModel,
) -> Seq<(Seq<char>, JsonModel)> {
    let at = key_position(members, key);
    if at < members.len() {
        members.update(at, (key, value))
    } else {
        members.push((key, value))
    }
}

/// `members` after every member of `more` has been given to it in turn.
pub open spec fn with_members(
    members: Seq<(Seq<char>, JsonModel)>,
    more: Seq<(Seq<char>, JsonModel)>,
) -> Seq<(Seq<char>, JsonModel)>
    decreases more.len(),
{
    if more.len() == 0 {
        members
    } else {
        with_member(with_members(members, more.drop_last()), more.last().0, more.last().1)
    }
}

/// No two members have one key.
pub open spec fn distinct_keys(members: Seq<(Seq<char>, JsonModel)>) -> bool {
    forall|i: int, j: int|
        0 <= i < j < members.len() ==> (#[trigger] members[i]).0 != (#[trigger] members[j]).0
}

/// The position that `key_position` gives is in range, holds `key` if it is
/// below the length, and no earlier member holds `key`.
pub proof fn lemma_key_position(members: Seq<(Seq<char>, JsonModel)>, key: Seq<char>)
    ensures
        0 <= key_position(members, key) <= members.len(),
        key_position(members, key) < members.len() ==> members[key_position(members, key)].0
            == key,
        forall|i: int| 0 <= i < key_position(members, key) ==> (#[trigger] members[i]).0 != key,
    decreases members.len(),
{
    if members.len() > 0 && members[0].0 != key {
        let rest = members.drop_first();
        lemma_key_position(rest, key);
        assert forall|i: int| 0 <= i < key_position(members, key) implies (#[trigger] members[i]).0
            != key by {
            if i > 0 {
                assert(members[i] == rest[i - 1]);
            }
        }
    }
}

/// Giving a member to members with distinct keys leaves the keys distinct.
pub proof fn lemma_with_member_distinct(
    members: Seq<(Seq<char>, JsonModel)>,
    key: Seq<char>,
    value: JsonModel,
)
    requires
        distinct_keys(members),
    ensures
        distinct_keys(with_member(members, key, value)),
{
    lemma_key_position(members, key);
    let at = key_position(members, key);
    let after = with_member(members, key, value);
    assert forall|i: int, j: int| 0 <= i < j < after.len() implies (#[trigger] after[i]).0 != (
    #[trigger] after[j]).0 by {
        if at < members.len() {
            assert(after[i].0 == members[i].0);
            assert(after[j].0 == members[j].0);
        } else if j < members.len() {
            assert(after[i] == members[i] && after[j] == members[j]);
        } else {
            assert(after[i] == members[i]);
        }
    }
}

/// Giving any members to members with distinct keys leaves the keys
/// distinct.
pub proof fn lemma_with_members_distinct(
    members: Seq<(Seq<char>, JsonModel)>,
    more: Seq<(Seq<char>, JsonModel)>,
)
    requires
        distinct_keys(members),
    ensures
        distinct_keys(with_members(members, more)),
    decreases more.len(),
{
    if more.len() > 0 {
        lemma_with_members_distinct(members, more.drop_last());
        lemma_with_member_distinct(
            with_members(members, more.drop_last()),
            more.last().0,
            more.last().1,
        );
    }
}

impl GenericValue {
    /// Whether the value is an object.
    pub fn is_object(&self) -> (yes: bool)
        ensures
            yes == (self@ is Object),
    {
        match self {
            GenericValue::Object(_) => true,
            _ => false,
        }
    }

    /// Whether the value is an array.
    pub fn is_array(&self) -> (yes: bool)
        ensures
            yes == (self@ is Array),
    {
        match self {
            GenericValue::Array(_) => true,
            _ => false,
        }
    }

    /// A deep copy.
    pub fn duplicate(&self) -> (copy: GenericValue)
        ensures
            copy@ == self@,
        decreases self,
    {
        match self {
            GenericValue::Null => GenericValue::Null,
            GenericValue::Bool(b) => GenericValue::Bool(*b),
            GenericValue::Number(text) => GenericValue::Number(text.clone()),
            GenericValue::String(text) => GenericValue::String(text.clone()),
            GenericValue::Array(items) => {
                let mut copies: Vec<GenericValue> = Vec::new();
                let mut i: usize = 0;
                while i < items.len()
                    invariant
                        *self == GenericValue::Array(*items),
                        i <= items.len(),
                        copies@.len() == i,
                        forall|k: int| 0 <= k < i ==> (#[trigger] copies@[k])@ == items@[k]@,
                    decreases items.len() - i,
                {
                    proof {
                        assert(decreases_to!(self => self->Array_0));
                        assert(decreases_to!(*items => items@[i as int]));
                    }
                    copies.push(items[i].duplicate());
                    i += 1;
                }
                proof {
                    lemma_array_model(*items);
                    lemma_array_model(copies);
                    assert(models(copies@) =~= models(items@));
                }
                GenericValue::Array(copies)
            },
            GenericValue::Object(members) => {
                let mut copies: Vec<(String, GenericValue)> = Vec::new();
                let mut i: usize = 0;
                while i < members.len()
                    invariant
                        *self == GenericValue::Object(*members),
                        i <= members.len(),
                        copies@.len() == i,
                        forall|k: int|
                            0 <= k < i ==> (#[trigger] copies@[k]).0@ == members@[k].0@
                                && copies@[k].1@ == members@[k].1@,
                    decreases members.len() - i,
                {
                    proof {
                        assert(decreases_to!(self => self->Object_0));
                        assert(decreases_to!(*members => members@[i as int]));
                        assert(decreases_to!(members@[i as int] => members@[i as int].1));
                    }
                    copies.push((members[i].0.clone(), members[i].1.duplicate()));
                    i += 1;
                }
                proof {
                    lemma_object_model(*members);
                    lemma_object_model(copies);
                    assert(member_models(copies@) =~= member_models(members@));
                }
                GenericValue::Object(copies)
            },
        }
    }
}

/// Gives `key` the value `value` in `members`, as a map that keeps insertion
/// order does: a key that is already there keeps its place.
pub fn insert_member(members: &mut Vec<(String, GenericValue)>, key: String, value: GenericValue)
    ensures
        member_models(final(members)@) == with_member(
            member_models(old(members)@),
            key@,
            value@,
        ),
{
    let ghost before = member_models(members@);
    assert(before.skip(0) =~= before);
    let mut i: usize = 0;
    while i < members.len()
        invariant
            i <= members.len(),
            before == member_models(old(members)@),
            member_models(members@) == before,
            key_position(before, key@) == i + key_position(before.skip(i as int), key@),
        decreases members.len() - i,
    {
        proof {
            assert(before.skip(i as int)[0] == before[i as int]);
            assert(before.skip(i as int).drop_first() =~= before.skip(i + 1));
        }
        if members[i].0 == key {
            proof {
                assert(before[i as int].0 == key@);
                assert(key_position(before.skip(i as int), key@) == 0);
            }
            members[i] = (key, value);
            proof {
                assert(member_models(members@) =~= before.update(i as int, (key@, value@)));
            }
            return ;
        }
        i += 1;
    }
    proof {
        assert(before.skip(i as int).len() == 0);
        assert(key_position(before, key@) == before.len());
    }
    members.push((key, value));
    proof {
        assert(member_models(members@) =~= before.push((key@, value@)));
    }
}

} // verus!
