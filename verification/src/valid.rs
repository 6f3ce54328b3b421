//! Which values are well-formed: those that hold every number as JSON
//! writes it, and no key twice in one object.

use crate::json::{compact_text, json_number, json_text, readable, reads_as_number};
use crate::value::{
    distinct_keys, lemma_array_model, lemma_object_model, member_models, models, GenericValue,
    JsonModel,
};
use vstd::prelude::*;

verus! {

/// The text of a number is canonical: it is a JSON number, and JSON writes
/// the number as this very text.
pub open spec fn canonical_number(text: Seq<char>) -> bool {
    json_number(text) && json_text(JsonModel::Number(text)) == text
}

/// A value is well-formed when the text of every number in it is canonical
/// and no object in it has two members with one key.
pub open spec fn well_formed(value: JsonModel) -> bool
    decreases value,
{
    match value {
        JsonModel::Number(text) => canonical_number(text),
        JsonModel::Array(items) => forall|i: int|
            0 <= i < items.len() ==> well_formed(#[trigger] items[i]),
        JsonModel::Object(members) => distinct_keys(members) && forall|i: int|
            0 <= i < members.len() ==> well_formed((#[trigger] members[i]).1),
        _ => true,
    }
}

/// A well-formed value can be written as JSON.
pub proof fn lemma_readable(value: JsonModel)
    requires
        well_formed(value),
    ensures
        readable(value),
    decreases value,
{
    match value {
        JsonModel::Array(items) => {
            assert forall|i: int| 0 <= i < items.len() implies readable(#[trigger] items[i]) by {
                lemma_readable(items[i]);
            }
        },
        JsonModel::Object(members) => {
            assert forall|i: int| 0 <= i < members.len() implies readable(
                (#[trigger] members[i]).1,
            ) by {
                lemma_readable(members[i].1);
            }
        },
        _ => {},
    }
}

/// Whether no two members have one key.
pub fn has_distinct_keys(members: &Vec<(String, GenericValue)>) -> (yes: bool)
    ensures
        yes == distinct_keys(member_models(members@)),
{
    let ghost all = member_models(members@);
    let mut j: usize = 0;
    while j < members.len()
        invariant
            j <= members.len(),
            all == member_models(members@),
            forall|a: int, b: int| 0 <= a < b < j ==> (#[trigger] all[a]).0 != (#[trigger] all[b]).0,
        decreases members.len() - j,
    {
        let mut i: usize = 0;
        while i < j
            invariant
                i <= j < members.len(),
                all == member_models(members@),
                forall|a: int| 0 <= a < i ==> (#[trigger] all[a]).0 != all[j as int].0,
            decreases j - i,
        {
            if members[i].0 == members[j].0 {
                proof {
                    assert(all[i as int].0 == all[j as int].0);
                }
                return false;
            }
            i += 1;
        }
        j += 1;
    }
    true
}

impl GenericValue {
    /// Whether the value is well-formed.
    pub fn is_well_formed(&self) -> (yes: bool)
        ensures
            yes == well_formed(self@),
        decreases self,
    {
        match self {
            GenericValue::Number(text) => {
                if !reads_as_number(text.as_str()) {
                    return false;
                }
                let written = compact_text(self);
                written == *text
            },
            GenericValue::Array(items) => {
                proof {
                    lemma_array_model(*items);
                }
                let mut i: usize = 0;
                while i < items.len()
                    invariant
                        *self == GenericValue::Array(*items),
                        self@ == JsonModel::Array(models(items@)),
                        i <= items.len(),
                        forall|k: int| 0 <= k < i ==> well_formed(#[trigger] models(items@)[k]),
                    decreases items.len() - i,
                {
                    proof {
                        assert(decreases_to!(self => self->Array_0));
                        assert(decreases_to!(*items => items@[i as int]));
                    }
                    if !items[i].is_well_formed() {
                        proof {
                            assert(self@->Array_0[i as int] == models(items@)[i as int]);
                        }
                        return false;
                    }
                    i += 1;
                }
                true
            },
            GenericValue::Object(members) => {
                proof {
                    lemma_object_model(*members);
                }
                if !has_distinct_keys(members) {
                    return false;
                }
                let mut i: usize = 0;
                while i < members.len()
                    invariant
                        *self == GenericValue::Object(*members),
                        self@ == JsonModel::Object(member_models(members@)),
                        distinct_keys(member_models(members@)),
                        i <= members.len(),
                        forall|k: int|
                            0 <= k < i ==> well_formed((#[trigger] member_models(members@)[k]).1),
                    decreases members.len() - i,
                {
                    proof {
                        assert(decreases_to!(self => self->Object_0));
                        assert(decreases_to!(*members => members@[i as int]));
                        assert(decreases_to!(members@[i as int] => members@[i as int].1));
                    }
                    if !members[i].1.is_well_formed() {
                        proof {
                            assert(self@->Object_0[i as int] == member_models(members@)[i as int]);
                        }
                        return false;
                    }
                    i += 1;
                }
                true
            },
            _ => true,
        }
    }
}

} // verus!
