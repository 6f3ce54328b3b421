//! The extractor: which values of a document are its rows.
//!
//! The rules, in order of precedence:
//! 1. an array is its own list of rows, and must not be empty;
//! 2. an object of whose members more than one, and at least half, are
//!    objects is a dictionary of rows, each row named by its key;
//! 3. an object that holds arrays of objects stands for the longest of them,
//!    the first one among equals;
//! 4. any other object is a single row;
//! 5. nothing else has rows.

use crate::error::{ErrorModel, TableError};
use crate::value::{
    insert_member, lemma_array_model, lemma_object_model, member_models, models, with_members,
    GenericValue, JsonModel,
};
use vstd::prelude::*;

verus! {

/// How many of the first `count` members are objects.
pub open spec fn count_objects(members: Seq<(Seq<char>, JsonModel)>, count: nat) -> nat
    decreases count,
{
    if count == 0 || count > members.len() {
        0
    } else {
        count_objects(members, (count - 1) as nat) + if members[count - 1].1 is Object {
            1nat
        } else {
            0nat
        }
    }
}

/// An object is a dictionary of rows when more than one of its members is
/// an object, and at least half of them are.
pub open spec fn is_dictionary(members: Seq<(Seq<char>, JsonModel)>) -> bool {
    let objects = count_objects(members, members.len());
    objects > 1 && 2 * objects >= members.len()
}

/// The row that a dictionary's member becomes: `Name` with the member's key
/// comes first, then the members of the body are given to it in their
/// order, so that a `Name` of the body replaces the key and stays in front.
pub open spec fn named_row(key: Seq<char>, body: Seq<(Seq<char>, JsonModel)>) -> JsonModel {
    JsonModel::Object(with_members(seq![("Name"@, JsonModel::Text(key))], body))
}

/// The rows of the first `count` members of a dictionary: one for every
/// member that is an object, in the members' order.
pub open spec fn dictionary_rows(members: Seq<(Seq<char>, JsonModel)>, count: nat) -> Seq<
    JsonModel,
>
    decreases count,
{
    if count == 0 || count > members.len() {
        Seq::empty()
    } else {
        let earlier = dictionary_rows(members, (count - 1) as nat);
        match members[count - 1].1 {
            JsonModel::Object(body) => earlier.push(named_row(members[count - 1].0, body)),
            _ => earlier,
        }
    }
}

/// A value that can stand for the rows of an object: an array that is not
/// empty and starts with an object.
pub open spec fn is_row_array(value: JsonModel) -> bool {
    value is Array && value->Array_0.len() > 0 && value->Array_0[0] is Object
}

/// The position, among the first `count` members, of the longest array of
/// rows; of the first one, where several are longest.
pub open spec fn longest_row_array(members: Seq<(Seq<char>, JsonModel)>, count: nat) -> Option<
    int,
>
    decreases count,
{
    if count == 0 || count > members.len() {
        None
    } else {
        let earlier = longest_row_array(members, (count - 1) as nat);
        let last = members[count - 1].1;
        if is_row_array(last) && (earlier is None || last->Array_0.len()
            > members[earlier->0].1->Array_0.len()) {
            Some(count - 1)
        } else {
            earlier
        }
    }
}

/// The rows of a document, or why it has none.
pub open spec fn extract_rows(document: JsonModel) -> Result<Seq<JsonModel>, ErrorModel> {
    match document {
        JsonModel::Array(items) => if items.len() == 0 {
            Err(ErrorModel::JsonEmptyArray)
        } else {
            Ok(items)
        },
        JsonModel::Object(members) => if is_dictionary(members) {
            Ok(dictionary_rows(members, members.len()))
        } else {
            match longest_row_array(members, members.len()) {
                Some(at) => Ok(members[at].1->Array_0),
                None => Ok(seq![document]),
            }
        },
        _ => Err(ErrorModel::JsonShape),
    }
}

/// What `longest_row_array` finds is an array of rows, no array of rows
/// among the members it looked at is longer, and none before it is as long.
pub proof fn lemma_longest_row_array(members: Seq<(Seq<char>, JsonModel)>, count: nat)
    requires
        count <= members.len(),
    ensures
        match longest_row_array(members, count) {
            Some(at) => {
                &&& 0 <= at < count
                &&& is_row_array(members[at].1)
                &&& forall|j: int|
                    0 <= j < count && is_row_array(#[trigger] members[j].1)
                        ==> members[j].1->Array_0.len() <= members[at].1->Array_0.len()
                &&& forall|j: int|
                    0 <= j < at && is_row_array(#[trigger] members[j].1)
                        ==> members[j].1->Array_0.len() < members[at].1->Array_0.len()
            },
            None => forall|j: int| 0 <= j < count ==> !is_row_array(#[trigger] members[j].1),
        },
    decreases count,
{
    if count > 0 {
        lemma_longest_row_array(members, (count - 1) as nat);
    }
}

/// The rows of a document.
///
/// An array is handed back as it is, and is refused where it is empty. Of
/// an object, the rules of this module apply in their order. Any other
/// document is refused.
pub fn extract_data_array(parsed: GenericValue) -> (outcome: Result<Vec<GenericValue>, TableError>)
    ensures
        match outcome {
            Ok(rows) => extract_rows(parsed@) == Ok::<Seq<JsonModel>, ErrorModel>(models(rows@)),
            Err(error) => extract_rows(parsed@) == Err::<Seq<JsonModel>, ErrorModel>(error@),
        },
{
    match parsed {
        GenericValue::Array(items) => {
            proof {
                lemma_array_model(items);
            }
            if items.len() == 0 {
                Err(TableError::JsonEmptyArray)
            } else {
                Ok(items)
            }
        },
        GenericValue::Object(members) => {
            proof {
                lemma_object_model(members);
            }
            let ghost all = member_models(members@);
            let objects: usize = object_count(&members);
            if objects > 1 && objects >= members.len() - objects {
                Ok(rows_of_dictionary(&members))
            } else {
                match find_longest_row_array(&members) {
                    Some(at) => {
                        proof {
                            lemma_longest_row_array(all, all.len());
                        }
                        let mut members = members;
                        let (_, value) = members.remove(at);
                        match value {
                            GenericValue::Array(items) => {
                                proof {
                                    lemma_array_model(items);
                                }
                                Ok(items)
                            },
                            _ => {
                                proof {
                                    assert(false);
                                }
                                Ok(Vec::new())
                            },
                        }
                    },
                    None => {
                        let ghost document = GenericValue::Object(members)@;
                        let row = GenericValue::Object(members);
                        let rows = vec![row];
                        proof {
                            assert(models(rows@) =~= seq![document]);
                        }
                        Ok(rows)
                    },
                }
            }
        },
        _ => Err(TableError::JsonShape),
    }
}

/// How many members are objects.
fn object_count(members: &Vec<(String, GenericValue)>) -> (count: usize)
    ensures
        count == count_objects(member_models(members@), members@.len()),
        count <= members@.len(),
{
    let ghost all = member_models(members@);
    let mut count: usize = 0;
    let mut i: usize = 0;
    while i < members.len()
        invariant
            i <= members.len(),
            all == member_models(members@),
            count == count_objects(all, i as nat),
            count <= i,
        decreases members.len() - i,
    {
        if members[i].1.is_object() {
            count += 1;
        }
        i += 1;
    }
    count
}

/// Whether the value is an array that is not empty and starts with an
/// object, and how long it is.
fn row_array_length(value: &GenericValue) -> (length: Option<usize>)
    ensures
        length is Some == is_row_array(value@),
        length is Some ==> length->0 == value@->Array_0.len(),
{
    match value {
        GenericValue::Array(items) => {
            proof {
                lemma_array_model(*items);
            }
            if items.len() > 0 && items[0].is_object() {
                Some(items.len())
            } else {
                None
            }
        },
        _ => None,
    }
}

/// Where the longest array of rows stands among the members.
fn find_longest_row_array(members: &Vec<(String, GenericValue)>) -> (found: Option<usize>)
    ensures
        found is Some == longest_row_array(member_models(members@), members@.len()) is Some,
        found is Some ==> found->0 == longest_row_array(
            member_models(members@),
            members@.len(),
        )->0,
        found is Some ==> found->0 < members@.len(),
{
    let ghost all = member_models(members@);
    let mut found: Option<usize> = None;
    let mut longest: usize = 0;
    let mut i: usize = 0;
    while i < members.len()
        invariant
            i <= members.len(),
            all == member_models(members@),
            found is Some == longest_row_array(all, i as nat) is Some,
            found is Some ==> found->0 == longest_row_array(all, i as nat)->0,
            found is Some ==> found->0 < i && longest == all[found->0 as int].1->Array_0.len(),
        decreases members.len() - i,
    {
        match row_array_length(&members[i].1) {
            Some(length) => {
                if found.is_none() || length > longest {
                    found = Some(i);
                    longest = length;
                }
            },
            None => {},
        }
        i += 1;
    }
    found
}

/// The row of one member of a dictionary.
fn row_of_member(key: &String, body: &Vec<(String, GenericValue)>) -> (row: GenericValue)
    ensures
        row@ == named_row(key@, member_models(body@)),
{
    let ghost start = seq![("Name"@, JsonModel::Text(key@))];
    let ghost all = member_models(body@);
    let mut row: Vec<(String, GenericValue)> = Vec::new();
    row.push(("Name".to_owned(), GenericValue::String(key.clone())));
    proof {
        assert(member_models(row@) =~= start);
        assert(all.take(0) =~= Seq::empty());
    }
    let mut i: usize = 0;
    while i < body.len()
        invariant
            i <= body.len(),
            all == member_models(body@),
            member_models(row@) == with_members(start, all.take(i as int)),
        decreases body.len() - i,
    {
        proof {
            assert(all.take(i + 1).drop_last() =~= all.take(i as int));
            assert(all.take(i + 1).last() == all[i as int]);
        }
        insert_member(&mut row, body[i].0.clone(), body[i].1.duplicate());
        i += 1;
    }
    proof {
        assert(all.take(i as int) =~= all);
        lemma_object_model(row);
    }
    GenericValue::Object(row)
}

/// The rows of a dictionary.
fn rows_of_dictionary(members: &Vec<(String, GenericValue)>) -> (rows: Vec<GenericValue>)
    ensures
        models(rows@) == dictionary_rows(member_models(members@), members@.len()),
{
    let ghost all = member_models(members@);
    let mut rows: Vec<GenericValue> = Vec::new();
    proof {
        assert(models(rows@) =~= Seq::empty());
    }
    let mut i: usize = 0;
    while i < members.len()
        invariant
            i <= members.len(),
            all == member_models(members@),
            models(rows@) == dictionary_rows(all, i as nat),
        decreases members.len() - i,
    {
        match &members[i].1 {
            GenericValue::Object(body) => {
                proof {
                    lemma_object_model(*body);
                }
                let row = row_of_member(&members[i].0, body);
                let ghost earlier = rows@;
                rows.push(row);
                proof {
                    assert(models(rows@) =~= models(earlier).push(row@));
                }
            },
            _ => {},
        }
        i += 1;
    }
    rows
}

} // verus!
