//! From JSON text to a table.

use crate::error::{ErrorModel, TableError};
use crate::extract::{
    dictionary_rows, extract_data_array, extract_rows, is_dictionary, lemma_longest_row_array,
    longest_row_array, named_row,
};
use crate::json::{json_document, read_json, reading_model, ReadingModel};
use crate::valid::well_formed;
use crate::table::{assemble, table_of_rows, FileData, TableModel};
use crate::value::{
    lemma_key_position, lemma_with_members_distinct, models, with_member, with_members,
    GenericValue, JsonModel,
};
use vstd::prelude::*;

verus! {

/// The model of what making a table gave: the table, or the failure.
pub open spec fn outcome_view(outcome: Result<FileData, TableError>) -> Result<
    TableModel,
    ErrorModel,
> {
    match outcome {
        Ok(table) => Ok(table@),
        Err(error) => Err(error@),
    }
}

/// The table of a document, or why it has none.
pub open spec fn document_table(document: JsonModel, file_name: Seq<char>) -> Result<
    TableModel,
    ErrorModel,
> {
    match extract_rows(document) {
        Ok(rows) => Ok(table_of_rows(rows, file_name)),
        Err(error) => Err(error),
    }
}

/// The table of what reading a text as JSON gave, or why there is none.
pub open spec fn reading_table(reading: ReadingModel, file_name: Seq<char>) -> Result<
    TableModel,
    ErrorModel,
> {
    match reading {
        Err(detail) => Err(ErrorModel::JsonSyntax(detail)),
        Ok(document) => if well_formed(document) {
            document_table(document, file_name)
        } else {
            Err(ErrorModel::JsonMalformed)
        },
    }
}

/// The table of a JSON text, or why it has none.
pub open spec fn json_table(content: Seq<char>, file_name: Seq<char>) -> Result<
    TableModel,
    ErrorModel,
> {
    reading_table(json_document(content), file_name)
}

/// Giving a well-formed value to members with well-formed values leaves
/// their values well-formed.
pub proof fn lemma_with_member_well_formed(
    members: Seq<(Seq<char>, JsonModel)>,
    key: Seq<char>,
    value: JsonModel,
)
    requires
        forall|i: int| 0 <= i < members.len() ==> well_formed((#[trigger] members[i]).1),
        well_formed(value),
    ensures
        forall|i: int|
            0 <= i < with_member(members, key, value).len() ==> well_formed(
                (#[trigger] with_member(members, key, value)[i]).1,
            ),
{
    lemma_key_position(members, key);
}

/// Giving members with well-formed values to members with well-formed values
/// leaves their values well-formed.
pub proof fn lemma_with_members_well_formed(
    members: Seq<(Seq<char>, JsonModel)>,
    more: Seq<(Seq<char>, JsonModel)>,
)
    requires
        forall|i: int| 0 <= i < members.len() ==> well_formed((#[trigger] members[i]).1),
        forall|i: int| 0 <= i < more.len() ==> well_formed((#[trigger] more[i]).1),
    ensures
        forall|i: int|
            0 <= i < with_members(members, more).len() ==> well_formed(
                (#[trigger] with_members(members, more)[i]).1,
            ),
    decreases more.len(),
{
    if more.len() > 0 {
        lemma_with_members_well_formed(members, more.drop_last());
        lemma_with_member_well_formed(
            with_members(members, more.drop_last()),
            more.last().0,
            more.last().1,
        );
    }
}

/// The rows of a dictionary with well-formed values are well-formed.
pub proof fn lemma_dictionary_rows_well_formed(members: Seq<(Seq<char>, JsonModel)>, count: nat)
    requires
        forall|i: int| 0 <= i < members.len() ==> well_formed((#[trigger] members[i]).1),
    ensures
        forall|i: int|
            0 <= i < dictionary_rows(members, count).len() ==> well_formed(
                #[trigger] dictionary_rows(members, count)[i],
            ),
    decreases count,
{
    if !(count == 0 || count > members.len()) {
        lemma_dictionary_rows_well_formed(members, (count - 1) as nat);
        let last = members[count - 1];
        match last.1 {
            JsonModel::Object(body) => {
                let start = seq![("Name"@, JsonModel::Text(last.0))];
                assert(well_formed(last.1));
                assert forall|i: int| 0 <= i < body.len() implies well_formed(
                    (#[trigger] body[i]).1,
                ) by {}
                assert forall|i: int| 0 <= i < start.len() implies well_formed(
                    (#[trigger] start[i]).1,
                ) by {}
                lemma_with_members_well_formed(start, body);
                lemma_with_members_distinct(start, body);
                let row = named_row(last.0, body);
                assert(well_formed(row)) by {
                    assert(row->Object_0 == with_members(start, body));
                }
                let earlier = dictionary_rows(members, (count - 1) as nat);
                assert(dictionary_rows(members, count) == earlier.push(row));
                assert forall|i: int| 0 <= i < earlier.push(row).len() implies well_formed(
                    #[trigger] earlier.push(row)[i],
                ) by {
                    if i < earlier.len() {
                        assert(earlier.push(row)[i] == earlier[i]);
                    }
                }
            },
            _ => {
                assert(dictionary_rows(members, count) == dictionary_rows(
                    members,
                    (count - 1) as nat,
                ));
            },
        }
    }
}

/// The rows of a well-formed document are well-formed.
pub proof fn lemma_rows_well_formed(document: JsonModel)
    requires
        well_formed(document),
        extract_rows(document) is Ok,
    ensures
        forall|i: int|
            0 <= i < extract_rows(document)->Ok_0.len() ==> well_formed(
                #[trigger] extract_rows(document)->Ok_0[i],
            ),
{
    match document {
        JsonModel::Object(members) => {
            assert forall|i: int| 0 <= i < members.len() implies well_formed(
                (#[trigger] members[i]).1,
            ) by {}
            if is_dictionary(members) {
                lemma_dictionary_rows_well_formed(members, members.len());
            } else {
                match longest_row_array(members, members.len()) {
                    Some(at) => {
                        lemma_longest_row_array(members, members.len());
                        assert(well_formed(members[at].1));
                    },
                    None => {},
                }
            }
        },
        _ => {},
    }
}

/// Makes the table of a document: its rows are extracted, flattened and
/// assembled.
pub fn table_of_document(parsed: GenericValue, file_name: &str) -> (outcome: Result<
    FileData,
    TableError,
>)
    requires
        well_formed(parsed@),
    ensures
        outcome_view(outcome) == document_table(parsed@, file_name@),
        outcome matches Ok(table) ==> table@.well_formed() && table@.headers.no_duplicates(),
{
    proof {
        if extract_rows(parsed@) is Ok {
            lemma_rows_well_formed(parsed@);
        }
    }
    match extract_data_array(parsed) {
        Ok(rows) => {
            proof {
                assert forall|i: int| 0 <= i < rows@.len() implies well_formed(
                    #[trigger] rows@[i]@,
                ) by {
                    assert(models(rows@)[i] == rows@[i]@);
                }
            }
            Ok(assemble(&rows, file_name))
        },
        Err(error) => Err(error),
    }
}

/// Makes the table of what reading a text as JSON gave.
///
/// The reader's error is passed on. A document is refused where it is not
/// well-formed, where it is an empty array, and where it is neither an
/// array nor an object.
pub fn table_of_reading(file_name: &str, reading: Result<GenericValue, String>) -> (outcome: Result<
    FileData,
    TableError,
>)
    ensures
        outcome_view(outcome) == reading_table(reading_model(reading), file_name@),
        outcome matches Ok(table) ==> table@.well_formed() && table@.headers.no_duplicates(),
{
    match reading {
        Err(detail) => Err(TableError::JsonSyntax(detail)),
        Ok(parsed) => {
            if parsed.is_well_formed() {
                table_of_document(parsed, file_name)
            } else {
                Err(TableError::JsonMalformed)
            }
        },
    }
}

/// Reads a JSON text and makes its table.
///
/// The text is refused where it is not JSON, and where the document is not
/// well-formed, is an empty array, or is neither an array nor an object.
pub fn parse_json(file_name: &str, content: &str) -> (outcome: Result<FileData, TableError>)
    ensures
        outcome_view(outcome) == json_table(content@, file_name@),
        outcome matches Ok(table) ==> table@.well_formed() && table@.headers.no_duplicates(),
{
    let reading = read_json(content);
    proof {
        assert(reading_model(reading) == json_document(content@));
    }
    table_of_reading(file_name, reading)
}

} // verus!
