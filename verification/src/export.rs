//! From a table to JSON text: one flat object for every row.

use crate::error::TableError;
use crate::json::{json_pretty_text, pretty_text};
use crate::valid::{lemma_readable, well_formed};
use crate::text::{grid, texts};
use crate::value::{
    distinct_keys, insert_member, lemma_array_model, lemma_object_model,
    lemma_with_member_distinct, member_models, models, with_member, GenericValue, JsonModel,
};
use vstd::prelude::*;
use vstd::string::StringExecFns;

verus! {

/// The members that the first `count` headers and cells of a row give: each
/// header is given the cell below it, as a string, for as long as the row
/// has cells.
pub open spec fn row_members(headers: Seq<Seq<char>>, cells: Seq<Seq<char>>, count: nat) -> Seq<
    (Seq<char>, JsonModel),
>
    decreases count,
{
    if count == 0 || count > headers.len() {
        Seq::empty()
    } else {
        let earlier = row_members(headers, cells, (count - 1) as nat);
        if count - 1 < cells.len() {
            with_member(earlier, headers[count - 1], JsonModel::Text(cells[count - 1]))
        } else {
            earlier
        }
    }
}

/// The object that a row becomes.
pub open spec fn row_object(headers: Seq<Seq<char>>, cells: Seq<Seq<char>>) -> JsonModel {
    JsonModel::Object(row_members(headers, cells, headers.len()))
}

/// The document that a table becomes: the array of its rows' objects.
pub open spec fn exported(headers: Seq<Seq<char>>, rows: Seq<Seq<Seq<char>>>) -> JsonModel {
    JsonModel::Array(Seq::new(rows.len(), |i: int| row_object(headers, rows[i])))
}

/// No key occurs twice in the object that a row of a table becomes,
/// whatever the headers are.
pub proof fn lemma_row_members_distinct(
    headers: Seq<Seq<char>>,
    cells: Seq<Seq<char>>,
    count: nat,
)
    ensures
        distinct_keys(row_members(headers, cells, count)),
    decreases count,
{
    if !(count == 0 || count > headers.len()) {
        lemma_row_members_distinct(headers, cells, (count - 1) as nat);
        lemma_with_member_distinct(
            row_members(headers, cells, (count - 1) as nat),
            headers[count - 1],
            JsonModel::Text(cells[count - 1]),
        );
    }
}

/// The members of a row hold strings only.
pub proof fn lemma_row_members_texts(headers: Seq<Seq<char>>, cells: Seq<Seq<char>>, count: nat)
    ensures
        forall|i: int|
            0 <= i < row_members(headers, cells, count).len() ==> (#[trigger] row_members(
                headers,
                cells,
                count,
            )[i]).1 is Text,
    decreases count,
{
    if !(count == 0 || count > headers.len()) {
        lemma_row_members_texts(headers, cells, (count - 1) as nat);
        crate::value::lemma_key_position(
            row_members(headers, cells, (count - 1) as nat),
            headers[count - 1],
        );
    }
}

/// What a table becomes holds no number and no key twice in one object, so
/// it is well-formed.
pub proof fn lemma_exported_well_formed(headers: Seq<Seq<char>>, rows: Seq<Seq<Seq<char>>>)
    ensures
        well_formed(exported(headers, rows)),
{
    let items = exported(headers, rows)->Array_0;
    assert forall|i: int| 0 <= i < items.len() implies well_formed(#[trigger] items[i]) by {
        lemma_row_members_texts(headers, rows[i], headers.len());
        lemma_row_members_distinct(headers, rows[i], headers.len());
        let members = row_members(headers, rows[i], headers.len());
        assert(items[i] == JsonModel::Object(members));
        assert forall|k: int| 0 <= k < members.len() implies well_formed(
            (#[trigger] members[k]).1,
        ) by {}
    }
}

/// The object of one row.
fn export_row(headers: &Vec<String>, cells: &Vec<String>) -> (row: GenericValue)
    ensures
        row@ == row_object(texts(headers@), texts(cells@)),
{
    let mut members: Vec<(String, GenericValue)> = Vec::new();
    proof {
        assert(member_models(members@) =~= Seq::empty());
    }
    let mut i: usize = 0;
    while i < headers.len()
        invariant
            i <= headers.len(),
            member_models(members@) == row_members(texts(headers@), texts(cells@), i as nat),
        decreases headers.len() - i,
    {
        if i < cells.len() {
            insert_member(&mut members, headers[i].clone(), GenericValue::String(cells[i].clone()));
        }
        i += 1;
    }
    proof {
        lemma_object_model(members);
    }
    GenericValue::Object(members)
}

/// The document of a table: an array with one object for every row, in
/// which every header holds the cell below it as a string. A header that
/// occurs twice holds the later cell; a header for which the row has no
/// cell is left out.
pub fn export_document(headers: &Vec<String>, rows: &Vec<Vec<String>>) -> (document: GenericValue)
    ensures
        document@ == exported(texts(headers@), grid(rows@)),
{
    let mut items: Vec<GenericValue> = Vec::new();
    let mut i: usize = 0;
    while i < rows.len()
        invariant
            i <= rows.len(),
            items@.len() == i,
            forall|k: int|
                0 <= k < i ==> (#[trigger] items@[k])@ == row_object(
                    texts(headers@),
                    texts(rows@[k]@),
                ),
        decreases rows.len() - i,
    {
        items.push(export_row(headers, &rows[i]));
        i += 1;
    }
    proof {
        lemma_array_model(items);
        assert(models(items@) =~= exported(texts(headers@), grid(rows@))->Array_0);
    }
    GenericValue::Array(items)
}

/// The JSON text of a table: the indented text of its document. Every
/// table has one.
pub fn export_json(headers: &Vec<String>, rows: &Vec<Vec<String>>) -> (outcome: Result<
    String,
    TableError,
>)
    ensures
        outcome matches Ok(written) && written@ == json_pretty_text(
            exported(texts(headers@), grid(rows@)),
        ),
{
    let document = export_document(headers, rows);
    proof {
        lemma_exported_well_formed(texts(headers@), grid(rows@));
        lemma_readable(document@);
    }
    match pretty_text(&document) {
        Ok(text) => Ok(text),
        Err(detail) => Err(TableError::JsonWrite(detail)),
    }
}

/// What a caller is told after a table has been written to `file_path`.
pub fn export_confirmation(file_path: &str) -> (text: String)
    ensures
        text@ == "Successfully exported to "@ + file_path@,
{
    let mut text = "Successfully exported to ".to_owned();
    text.append(file_path);
    text
}

} // verus!
