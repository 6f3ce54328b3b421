//! The flattener: one value tree becomes a list of pairs, each a dotted key
//! and a text.

use crate::json::{compact_text, json_text};
use crate::valid::{lemma_readable, well_formed};
use crate::text::{lemma_pairs_push, pairs};
use crate::value::{
    lemma_array_model, lemma_object_model, member_models, models, GenericValue, JsonModel,
};
use vstd::prelude::*;
use vstd::string::StringExecFns;

verus! {

/// The key of a member below `prefix`: the member's own key at the root,
/// else the prefix, a dot and the key.
pub open spec fn child_key(prefix: Seq<char>, key: Seq<char>) -> Seq<char> {
    if prefix.len() == 0 {
        key
    } else {
        prefix + "."@ + key
    }
}

/// The text of a leaf: a string as it is, a number as its decimal text, a
/// boolean as `true` or `false`, and null as the empty text.
pub open spec fn leaf_text(value: JsonModel) -> Seq<char> {
    match value {
        JsonModel::Text(text) => text,
        JsonModel::Number(text) => text,
        JsonModel::Bool(b) => if b {
            "true"@
        } else {
            "false"@
        },
        _ => Seq::empty(),
    }
}

/// The text of a scalar inside a joined array: as a leaf, but null is
/// written `null`.
pub open spec fn element_text(value: JsonModel) -> Seq<char> {
    match value {
        JsonModel::Null => "null"@,
        _ => leaf_text(value),
    }
}

/// An array is joined when it has at most ten items, all of them scalars.
pub open spec fn joinable(items: Seq<JsonModel>) -> bool {
    items.len() <= 10 && forall|i: int| 0 <= i < items.len() ==> (#[trigger] items[i]).is_scalar()
}

/// The texts of the items, with a comma and a space between neighbours.
pub open spec fn joined(items: Seq<JsonModel>) -> Seq<char>
    decreases items.len(),
{
    if items.len() == 0 {
        Seq::empty()
    } else if items.len() == 1 {
        element_text(items[0])
    } else {
        joined(items.drop_last()) + ", "@ + element_text(items.last())
    }
}

/// The text that an array becomes: its items joined where it is joinable,
/// else its compact JSON text.
pub open spec fn array_text(items: Seq<JsonModel>) -> Seq<char> {
    if joinable(items) {
        joined(items)
    } else {
        json_text(JsonModel::Array(items))
    }
}

/// The pairs of a value below `prefix`, depth first, members in their order.
/// An object gives the pairs of its members and none of its own; every other
/// value gives one pair under `prefix`.
pub open spec fn flatten(prefix: Seq<char>, value: JsonModel) -> Seq<(Seq<char>, Seq<char>)>
    decreases value, 0nat,
{
    match value {
        JsonModel::Object(members) => flatten_members(prefix, members, members.len()),
        JsonModel::Array(items) => seq![(prefix, array_text(items))],
        _ => seq![(prefix, leaf_text(value))],
    }
}

/// The pairs of the first `count` members of an object below `prefix`.
pub open spec fn flatten_members(
    prefix: Seq<char>,
    members: Seq<(Seq<char>, JsonModel)>,
    count: nat,
) -> Seq<(Seq<char>, Seq<char>)>
    decreases members, count,
{
    if count == 0 || count > members.len() {
        Seq::empty()
    } else {
        flatten_members(prefix, members, (count - 1) as nat) + flatten(
            child_key(prefix, members[count - 1].0),
            members[count - 1].1,
        )
    }
}

/// The text of a scalar inside a joined array.
fn element_string(value: &GenericValue) -> (text: String)
    requires
        value@.is_scalar(),
    ensures
        text@ == element_text(value@),
{
    match value {
        GenericValue::String(text) => text.clone(),
        GenericValue::Number(text) => text.clone(),
        GenericValue::Bool(b) => if *b {
            "true".to_owned()
        } else {
            "false".to_owned()
        },
        _ => "null".to_owned(),
    }
}

/// Whether the items are at most ten and all scalars.
fn is_joinable(items: &Vec<GenericValue>) -> (yes: bool)
    ensures
        yes == joinable(models(items@)),
{
    if items.len() > 10 {
        return false;
    }
    let mut i: usize = 0;
    while i < items.len()
        invariant
            i <= items.len(),
            forall|k: int| 0 <= k < i ==> (#[trigger] models(items@)[k]).is_scalar(),
        decreases items.len() - i,
    {
        if items[i].is_object() || items[i].is_array() {
            assert(!models(items@)[i as int].is_scalar());
            return false;
        }
        i += 1;
    }
    true
}

/// The items' texts with a comma and a space between neighbours.
fn join_items(items: &Vec<GenericValue>) -> (text: String)
    requires
        joinable(models(items@)),
    ensures
        text@ == joined(models(items@)),
{
    let ghost all = models(items@);
    let mut text = String::new();
    let mut i: usize = 0;
    while i < items.len()
        invariant
            i <= items.len(),
            all == models(items@),
            joinable(all),
            text@ == joined(all.take(i as int)),
        decreases items.len() - i,
    {
        proof {
            assert(all.take(i + 1).drop_last() =~= all.take(i as int));
            assert(all.take(i + 1).last() == all[i as int]);
            assert(all[i as int].is_scalar());
        }
        if i > 0 {
            text.append(", ");
        }
        let item = element_string(&items[i]);
        text.append(item.as_str());
        i += 1;
    }
    proof {
        assert(all.take(i as int) =~= all);
    }
    text
}

/// Appends to `out` the pairs of `value` below `prefix`.
///
/// An object contributes the pairs of its members, each under the prefix, a
/// dot and the member's key (the bare key where the prefix is empty); any
/// other value contributes one pair under the prefix itself. An array of at
/// most ten scalars is written as its items joined by a comma and a space,
/// any other array as its compact JSON text.
pub fn flatten_object(prefix: &str, value: &GenericValue, out: &mut Vec<(String, String)>)
    requires
        well_formed(value@),
    ensures
        pairs(final(out)@) == pairs(old(out)@) + flatten(prefix@, value@),
    decreases value,
{
    let ghost before = pairs(out@);
    match value {
        GenericValue::Object(members) => {
            proof {
                lemma_object_model(*members);
            }
            let ghost all = member_models(members@);
            let mut i: usize = 0;
            while i < members.len()
                invariant
                    *value == GenericValue::Object(*members),
                    value@ == JsonModel::Object(all),
                    all == member_models(members@),
                    well_formed(value@),
                    i <= members.len(),
                    pairs(out@) == before + flatten_members(prefix@, all, i as nat),
                decreases members.len() - i,
            {
                let key = if prefix.is_empty() {
                    members[i].0.clone()
                } else {
                    let mut key = prefix.to_owned();
                    key.append(".");
                    key.append(members[i].0.as_str());
                    key
                };
                proof {
                    assert(decreases_to!(value => value->Object_0));
                    assert(decreases_to!(*members => members@[i as int]));
                    assert(decreases_to!(members@[i as int] => members@[i as int].1));
                    assert(all[i as int] == (members@[i as int].0@, members@[i as int].1@));
                    assert(well_formed(all[i as int].1)) by {
                        assert(well_formed(JsonModel::Object(all)));
                        assert(all[i as int] == value@->Object_0[i as int]);
                    }
                    assert(key@ == child_key(prefix@, all[i as int].0));
                }
                flatten_object(key.as_str(), &members[i].1, out);
                proof {
                    assert(pairs(out@) =~= before + flatten_members(
                        prefix@,
                        all,
                        (i + 1) as nat,
                    ));
                }
                i += 1;
            }
        },
        GenericValue::Array(items) => {
            proof {
                lemma_array_model(*items);
            }
            let text = if is_joinable(items) {
                join_items(items)
            } else {
                proof {
                    lemma_readable(value@);
                }
                compact_text(value)
            };
            let pair = (prefix.to_owned(), text);
            proof {
                lemma_pairs_push(out@, pair);
            }
            out.push(pair);
            proof {
                assert(pairs(out@) =~= before + flatten(prefix@, value@));
            }
        },
        _ => {
            let text = match value {
                GenericValue::String(text) => text.clone(),
                GenericValue::Number(text) => text.clone(),
                GenericValue::Bool(b) => if *b {
                    "true".to_owned()
                } else {
                    "false".to_owned()
                },
                _ => String::new(),
            };
            let pair = (prefix.to_owned(), text);
            proof {
                lemma_pairs_push(out@, pair);
            }
            out.push(pair);
            proof {
                assert(pairs(out@) =~= before + flatten(prefix@, value@));
            }
        },
    }
}

/// Appends to `out` the pairs of `value` below `prefix`, as
/// `flatten_object` does, where the value is well-formed;
/// says whether it did, and leaves `out` as it is where it did not.
pub fn try_flatten(prefix: &str, value: &GenericValue, out: &mut Vec<(String, String)>) -> (done:
    bool)
    ensures
        done == well_formed(value@),
        done ==> pairs(final(out)@) == pairs(old(out)@) + flatten(prefix@, value@),
        !done ==> final(out)@ == old(out)@,
{
    if value.is_well_formed() {
        flatten_object(prefix, value, out);
        true
    } else {
        false
    }
}

} // verus!
