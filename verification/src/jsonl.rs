//! From JSON-lines text to a table: one object on every line that is not
//! blank, the members of the first one as the columns.

use crate::error::{ErrorModel, TableError};
use crate::flatten::leaf_text;
use crate::ingest::outcome_view;
use crate::json::{
    compact_text, json_document, json_text, read_json, reading_model, ReadingModel,
};
use crate::valid::{lemma_readable, well_formed};
use crate::lines::{blank_text, is_blank, lines_of, split_lines};
use crate::table::{FileData, FileType, TableModel};
use crate::text::{grid, lemma_grid_push, texts};
use crate::value::{
    distinct_keys, key_position, lemma_object_model, member_models, GenericValue, JsonModel,
};
use vstd::prelude::*;

verus! {

/// A line with its number in the text, counted from one.
pub type NumberedLine = (nat, Seq<char>);

/// What reading a line as JSON gave, with the number of the line.
pub type NumberedReading = (nat, ReadingModel);

/// Those of the first `count` lines that are not blank, each with its
/// number among all the lines, counted from one.
pub open spec fn nonblank(lines: Seq<Seq<char>>, count: nat) -> Seq<NumberedLine>
    decreases count,
{
    if count == 0 || count > lines.len() {
        Seq::empty()
    } else {
        let earlier = nonblank(lines, (count - 1) as nat);
        if blank_text(lines[count - 1]) {
            earlier
        } else {
            earlier.push((count, lines[count - 1]))
        }
    }
}

/// Every line that is kept is a line of the text that is not blank and
/// carries its own number among the lines, and the numbers rise.
pub proof fn lemma_nonblank(lines: Seq<Seq<char>>, count: nat)
    requires
        count <= lines.len(),
    ensures
        forall|k: int|
            0 <= k < nonblank(lines, count).len() ==> {
                let kept = #[trigger] nonblank(lines, count)[k];
                &&& 1 <= kept.0 <= count
                &&& lines[kept.0 - 1] == kept.1
                &&& !blank_text(kept.1)
            },
        forall|j: int, k: int|
            0 <= j < k < nonblank(lines, count).len() ==> (#[trigger] nonblank(lines, count)[j]).0
                < (#[trigger] nonblank(lines, count)[k]).0,
    decreases count,
{
    if count > 0 {
        lemma_nonblank(lines, (count - 1) as nat);
        let earlier = nonblank(lines, (count - 1) as nat);
        let now = nonblank(lines, count);
        if !blank_text(lines[count - 1]) {
            assert(now == earlier.push((count, lines[count - 1])));
        } else {
            assert(now == earlier);
        }
        assert forall|k: int| 0 <= k < now.len() implies {
            let kept = #[trigger] now[k];
            &&& 1 <= kept.0 <= count
            &&& lines[kept.0 - 1] == kept.1
            &&& !blank_text(kept.1)
        } by {
            if k < earlier.len() {
                assert(now[k] == earlier[k]);
            }
        }
        assert forall|j: int, k: int| 0 <= j < k < now.len() implies (#[trigger] now[j]).0 < (
        #[trigger] now[k]).0 by {
            assert(now[j] == earlier[j]);
            if k < earlier.len() {
                assert(now[k] == earlier[k]);
            }
        }
    }
}

/// The models of lines with their numbers.
pub open spec fn numbered(lines: Seq<(usize, String)>) -> Seq<NumberedLine> {
    Seq::new(lines.len(), |i: int| (lines[i].0 as nat, lines[i].1@))
}

/// The keys of the members, in their order.
pub open spec fn member_keys(members: Seq<(Seq<char>, JsonModel)>) -> Seq<Seq<char>> {
    Seq::new(members.len(), |i: int| members[i].0)
}

/// The text of a cell: that of a leaf for a scalar, the compact JSON text
/// for an array or an object.
pub open spec fn cell_text(value: JsonModel) -> Seq<char> {
    if value.is_scalar() {
        leaf_text(value)
    } else {
        json_text(value)
    }
}

/// The text that an object holds under `key`: the cell text of the first
/// member with that key, and the empty text where there is none.
pub open spec fn member_text(members: Seq<(Seq<char>, JsonModel)>, key: Seq<char>) -> Seq<char> {
    let at = key_position(members, key);
    if at < members.len() {
        cell_text(members[at].1)
    } else {
        Seq::empty()
    }
}

/// The cells of an object under the headers.
pub open spec fn object_row(headers: Seq<Seq<char>>, members: Seq<(Seq<char>, JsonModel)>) -> Seq<
    Seq<char>,
> {
    Seq::new(headers.len(), |j: int| member_text(members, headers[j]))
}

/// What the reading of the line with the number `number` holds: an object,
/// or why not. The first reading reports a text that is not JSON in words
/// of its own.
pub open spec fn reading_object(reading: ReadingModel, number: nat, first: bool) -> Result<
    Seq<(Seq<char>, JsonModel)>,
    ErrorModel,
> {
    match reading {
        Err(detail) => if first {
            Err(ErrorModel::JsonlFirstLine(number, detail))
        } else {
            Err(ErrorModel::JsonlLine(number, detail))
        },
        Ok(document) => if !well_formed(document) {
            Err(ErrorModel::JsonlMalformed(number))
        } else {
            match document {
                JsonModel::Object(members) => Ok(members),
                _ => Err(ErrorModel::JsonlShape),
            }
        },
    }
}

/// The rows of the first `count` readings under the headers, or the failure
/// of the first reading that has one.
pub open spec fn reading_rows(
    readings: Seq<NumberedReading>,
    headers: Seq<Seq<char>>,
    count: nat,
) -> Result<
    Seq<Seq<Seq<char>>>,
    ErrorModel,
>
    decreases count,
{
    if count == 0 || count > readings.len() {
        Ok(Seq::empty())
    } else {
        match reading_rows(readings, headers, (count - 1) as nat) {
            Err(error) => Err(error),
            Ok(rows) => match reading_object(
                readings[count - 1].1,
                readings[count - 1].0,
                count == 1,
            ) {
                Err(error) => Err(error),
                Ok(members) => Ok(rows.push(object_row(headers, members))),
            },
        }
    }
}

/// The table of the readings of the lines, or why there is none.
pub open spec fn readings_table(readings: Seq<NumberedReading>, file_name: Seq<char>) -> Result<
    TableModel,
    ErrorModel,
> {
    if readings.len() == 0 {
        Err(ErrorModel::JsonlEmpty)
    } else {
        match reading_object(readings[0].1, readings[0].0, true) {
            Err(error) => Err(error),
            Ok(first) => match reading_rows(readings, member_keys(first), readings.len()) {
                Err(error) => Err(error),
                Ok(rows) => Ok(
                    TableModel {
                        headers: member_keys(first),
                        rows,
                        row_count: rows.len(),
                        file_name,
                        file_type: FileType::Jsonl,
                    },
                ),
            },
        }
    }
}

/// What reading every line as JSON gives, with the number of the line.
pub open spec fn line_readings(lines: Seq<NumberedLine>) -> Seq<NumberedReading> {
    Seq::new(lines.len(), |i: int| (lines[i].0, json_document(lines[i].1)))
}

/// The table of a JSON-lines text, or why it has none.
pub open spec fn jsonl_table(content: Seq<char>, file_name: Seq<char>) -> Result<
    TableModel,
    ErrorModel,
> {
    let lines = lines_of(content);
    readings_table(line_readings(nonblank(lines, lines.len())), file_name)
}

/// The models of what reading the lines gave.
pub open spec fn reading_models(readings: Seq<(usize, Result<GenericValue, String>)>) -> Seq<
    NumberedReading,
> {
    Seq::new(readings.len(), |i: int| (readings[i].0 as nat, reading_model(readings[i].1)))
}

/// Where no two members have one key, no key occurs twice among the keys.
pub proof fn lemma_member_keys_distinct(members: Seq<(Seq<char>, JsonModel)>)
    requires
        distinct_keys(members),
    ensures
        member_keys(members).no_duplicates(),
{
    let keys = member_keys(members);
    assert forall|i: int, j: int| 0 <= i < keys.len() && 0 <= j < keys.len() && i != j implies keys[i]
        != keys[j] by {
        if i < j {
            assert(members[i].0 != members[j].0);
        } else {
            assert(members[j].0 != members[i].0);
        }
    }
}

/// As many rows as readings, each with one cell for every header.
pub proof fn lemma_reading_rows(
    readings: Seq<NumberedReading>,
    headers: Seq<Seq<char>>,
    count: nat,
)
    requires
        count <= readings.len(),
    ensures
        reading_rows(readings, headers, count) matches Ok(rows) ==> rows.len() == count && forall|
            i: int,
        | 0 <= i < rows.len() ==> (#[trigger] rows[i]).len() == headers.len(),
    decreases count,
{
    if count > 0 {
        lemma_reading_rows(readings, headers, (count - 1) as nat);
    }
}

/// The failure of a reading is the failure of all the readings after it.
pub proof fn lemma_reading_rows_fail(
    readings: Seq<NumberedReading>,
    headers: Seq<Seq<char>>,
    count: nat,
    more: nat,
)
    requires
        count <= more <= readings.len(),
        reading_rows(readings, headers, count) is Err,
    ensures
        reading_rows(readings, headers, more) == reading_rows(readings, headers, count),
    decreases more,
{
    if more > count {
        lemma_reading_rows_fail(readings, headers, count, (more - 1) as nat);
    }
}

/// The rows of the first readings do not depend on the later ones.
pub proof fn lemma_reading_rows_prefix(
    readings: Seq<NumberedReading>,
    shorter: Seq<NumberedReading>,
    headers: Seq<Seq<char>>,
    count: nat,
)
    requires
        count <= shorter.len() <= readings.len(),
        forall|i: int| 0 <= i < shorter.len() ==> shorter[i] == readings[i],
    ensures
        reading_rows(shorter, headers, count) == reading_rows(readings, headers, count),
    decreases count,
{
    if count > 0 {
        lemma_reading_rows_prefix(readings, shorter, headers, (count - 1) as nat);
    }
}

/// Readings that stop at the first text that is not JSON give the table of
/// all the readings.
pub proof fn lemma_readings_cut(
    readings: Seq<NumberedReading>,
    shorter: Seq<NumberedReading>,
    file_name: Seq<char>,
)
    requires
        shorter.len() <= readings.len(),
        forall|i: int| 0 <= i < shorter.len() ==> shorter[i] == readings[i],
        shorter.len() < readings.len() ==> shorter.len() > 0 && shorter.last().1 is Err,
    ensures
        readings_table(shorter, file_name) == readings_table(readings, file_name),
{
    if shorter.len() < readings.len() {
        let last = (shorter.len() - 1) as nat;
        match reading_object(readings[0].1, readings[0].0, true) {
            Ok(first) => {
                let headers = member_keys(first);
                lemma_reading_rows_prefix(readings, shorter, headers, shorter.len());
                assert(reading_rows(shorter, headers, shorter.len()) is Err) by {
                    assert(reading_object(
                        shorter[last as int].1,
                        shorter[last as int].0,
                        last == 0,
                    ) is Err);
                }
                lemma_reading_rows_fail(readings, headers, shorter.len(), readings.len());
            },
            Err(_) => {},
        }
    } else {
        assert(shorter =~= readings);
    }
}

/// The lines of a text that are not blank, each with its number in the
/// text, counted from one.
pub fn nonblank_lines(content: &str) -> (kept: Vec<(usize, String)>)
    ensures
        numbered(kept@) == nonblank(lines_of(content@), lines_of(content@).len()),
{
    let lines = split_lines(content);
    let ghost all = texts(lines@);
    let mut kept: Vec<(usize, String)> = Vec::new();
    proof {
        assert(numbered(kept@) =~= nonblank(all, 0));
    }
    let mut i: usize = 0;
    while i < lines.len()
        invariant
            i <= lines.len(),
            all == texts(lines@),
            numbered(kept@) == nonblank(all, i as nat),
        decreases lines.len() - i,
    {
        if !is_blank(lines[i].as_str()) {
            let line = (i + 1, lines[i].clone());
            proof {
                assert(numbered(kept@.push(line)) =~= numbered(kept@).push(
                    ((i + 1) as nat, line.1@),
                ));
            }
            kept.push(line);
        }
        i += 1;
    }
    kept
}

/// The keys of an object's members, in their order.
pub fn keys_of(members: &Vec<(String, GenericValue)>) -> (keys: Vec<String>)
    ensures
        texts(keys@) == member_keys(member_models(members@)),
{
    let mut keys: Vec<String> = Vec::new();
    let mut i: usize = 0;
    while i < members.len()
        invariant
            i <= members.len(),
            keys@.len() == i,
            forall|k: int| 0 <= k < i ==> (#[trigger] keys@[k])@ == members@[k].0@,
        decreases members.len() - i,
    {
        keys.push(members[i].0.clone());
        i += 1;
    }
    proof {
        assert(texts(keys@) =~= member_keys(member_models(members@)));
    }
    keys
}

/// The text of a cell.
pub fn cell_string(value: &GenericValue) -> (text: String)
    requires
        well_formed(value@),
    ensures
        text@ == cell_text(value@),
{
    match value {
        GenericValue::String(text) => text.clone(),
        GenericValue::Number(text) => text.clone(),
        GenericValue::Bool(b) => if *b {
            "true".to_owned()
        } else {
            "false".to_owned()
        },
        GenericValue::Null => String::new(),
        _ => {
            proof {
                lemma_readable(value@);
            }
            compact_text(value)
        },
    }
}

/// The text that the members hold under `key`.
fn member_string(members: &Vec<(String, GenericValue)>, key: &String) -> (text: String)
    requires
        forall|i: int|
            0 <= i < members@.len() ==> well_formed((#[trigger] member_models(members@)[i]).1),
    ensures
        text@ == member_text(member_models(members@), key@),
{
    let ghost all = member_models(members@);
    proof {
        assert(all.skip(0) =~= all);
    }
    let mut i: usize = 0;
    while i < members.len()
        invariant
            i <= members.len(),
            all == member_models(members@),
            forall|k: int| 0 <= k < members@.len() ==> well_formed((#[trigger] all[k]).1),
            key_position(all, key@) == i + key_position(all.skip(i as int), key@),
        decreases members.len() - i,
    {
        proof {
            assert(all.skip(i as int)[0] == all[i as int]);
            assert(all.skip(i as int).drop_first() =~= all.skip(i + 1));
        }
        if members[i].0 == *key {
            proof {
                assert(well_formed(all[i as int].1));
            }
            return cell_string(&members[i].1);
        }
        i += 1;
    }
    proof {
        assert(all.skip(i as int).len() == 0);
    }
    String::new()
}

/// The cells of an object under the headers: for every header the text of
/// the member with that key, or the empty string.
pub fn row_under_headers(headers: &Vec<String>, members: &Vec<(String, GenericValue)>) -> (cells:
    Vec<String>)
    requires
        forall|i: int|
            0 <= i < members@.len() ==> well_formed((#[trigger] member_models(members@)[i]).1),
    ensures
        texts(cells@) == object_row(texts(headers@), member_models(members@)),
{
    let mut cells: Vec<String> = Vec::new();
    let mut j: usize = 0;
    while j < headers.len()
        invariant
            j <= headers.len(),
            cells@.len() == j,
            forall|i: int|
                0 <= i < members@.len() ==> well_formed(
                    (#[trigger] member_models(members@)[i]).1,
                ),
            forall|k: int|
                0 <= k < j ==> (#[trigger] cells@[k])@ == member_text(
                    member_models(members@),
                    texts(headers@)[k],
                ),
        decreases headers.len() - j,
    {
        cells.push(member_string(members, &headers[j]));
        j += 1;
    }
    proof {
        assert(texts(cells@) =~= object_row(texts(headers@), member_models(members@)));
    }
    cells
}

/// The members of the reading of the line with the number `number`; `first`
/// says whether it is the first reading.
fn object_of_reading<'a>(
    reading: &'a Result<GenericValue, String>,
    number: usize,
    first: bool,
) -> (outcome: Result<&'a Vec<(String, GenericValue)>, TableError>)
    ensures
        match outcome {
            Ok(members) => reading_object(reading_model(*reading), number as nat, first) == Ok::<
                Seq<(Seq<char>, JsonModel)>,
                ErrorModel,
            >(member_models(members@)) && distinct_keys(member_models(members@)) && forall|i: int|
                0 <= i < members@.len() ==> well_formed((#[trigger] member_models(members@)[i]).1),
            Err(error) => reading_object(reading_model(*reading), number as nat, first) == Err::<
                Seq<(Seq<char>, JsonModel)>,
                ErrorModel,
            >(error@),
        },
{
    match reading {
        Err(detail) => {
            if first {
                Err(TableError::JsonlFirstLine(number, detail.clone()))
            } else {
                Err(TableError::JsonlLine(number, detail.clone()))
            }
        },
        Ok(document) => {
            if !document.is_well_formed() {
                Err(TableError::JsonlMalformed(number))
            } else {
                match document {
                    GenericValue::Object(members) => {
                        proof {
                            lemma_object_model(*members);
                            let all = member_models(members@);
                            assert forall|i: int| 0 <= i < members@.len() implies well_formed(
                                (#[trigger] all[i]).1,
                            ) by {
                                assert(all[i] == JsonModel::Object(all)->Object_0[i]);
                            }
                        }
                        Ok(members)
                    },
                    _ => Err(TableError::JsonlShape),
                }
            }
        },
    }
}

/// Makes the table of what reading the lines of a JSON-lines text gave:
/// one reading for every line that is not blank, each with the number of
/// its line in the text.
///
/// The members of the first line's object name the columns; every line
/// gives one row, with the empty string where its object lacks a column.
/// There must be a line. The first line that is not JSON, is not
/// well-formed, or is not an object is refused, under the number that came
/// with it, and the lines after it do not matter. No header of the table
/// occurs twice.
pub fn table_of_readings(
    file_name: &str,
    readings: &Vec<(usize, Result<GenericValue, String>)>,
) -> (outcome: Result<FileData, TableError>)
    ensures
        outcome_view(outcome) == readings_table(reading_models(readings@), file_name@),
        outcome matches Ok(table) ==> table@.well_formed() && table@.headers.no_duplicates(),
{
    let ghost all = reading_models(readings@);
    if readings.len() == 0 {
        return Err(TableError::JsonlEmpty);
    }
    let first = match object_of_reading(&readings[0].1, readings[0].0, true) {
        Ok(members) => members,
        Err(error) => {
            return Err(error);
        },
    };
    let headers = keys_of(first);
    let ghost columns = texts(headers@);
    let ghost first_members = member_models(first@);
    proof {
        lemma_member_keys_distinct(first_members);
    }
    let mut rows: Vec<Vec<String>> = Vec::new();
    let row = row_under_headers(&headers, first);
    proof {
        lemma_grid_push(rows@, row);
        assert(grid(rows@) =~= Seq::empty());
        assert(reading_rows(all, columns, 0) == Ok::<Seq<Seq<Seq<char>>>, ErrorModel>(
            Seq::empty(),
        ));
    }
    rows.push(row);
    let mut i: usize = 1;
    while i < readings.len()
        invariant
            1 <= i <= readings.len(),
            all == reading_models(readings@),
            columns == texts(headers@),
            columns == member_keys(first_members),
            columns.no_duplicates(),
            reading_object(all[0].1, all[0].0, true) == Ok::<
                Seq<(Seq<char>, JsonModel)>,
                ErrorModel,
            >(first_members),
            reading_rows(all, columns, i as nat) == Ok::<Seq<Seq<Seq<char>>>, ErrorModel>(
                grid(rows@),
            ),
        decreases readings.len() - i,
    {
        match object_of_reading(&readings[i].1, readings[i].0, false) {
            Err(error) => {
                proof {
                    lemma_reading_rows_fail(all, columns, (i + 1) as nat, all.len());
                }
                return Err(error);
            },
            Ok(members) => {
                let row = row_under_headers(&headers, members);
                proof {
                    lemma_grid_push(rows@, row);
                }
                rows.push(row);
            },
        }
        i += 1;
    }
    proof {
        lemma_reading_rows(all, columns, all.len());
    }
    let row_count: usize = rows.len();
    Ok(
        FileData {
            headers,
            rows,
            row_count,
            file_name: file_name.to_owned(),
            file_type: FileType::Jsonl,
        },
    )
}

/// Reads the lines as JSON, one after the other, up to the first one that
/// is not JSON; every reading keeps the number of its line.
pub fn read_lines(lines: &Vec<(usize, String)>) -> (readings: Vec<
    (usize, Result<GenericValue, String>),
>)
    ensures
        readings@.len() <= lines@.len(),
        forall|i: int|
            0 <= i < readings@.len() ==> (#[trigger] readings@[i]).0 == lines@[i].0
                && reading_model(readings@[i].1) == json_document(lines@[i].1@),
        readings@.len() < lines@.len() ==> readings@.len() > 0 && readings@.last().1 is Err,
        forall|i: int| 0 <= i < readings@.len() - 1 ==> (#[trigger] readings@[i]).1 is Ok,
{
    let mut readings: Vec<(usize, Result<GenericValue, String>)> = Vec::new();
    let mut i: usize = 0;
    while i < lines.len()
        invariant
            i <= lines.len(),
            readings@.len() == i,
            forall|k: int|
                0 <= k < i ==> (#[trigger] readings@[k]).0 == lines@[k].0 && reading_model(
                    readings@[k].1,
                ) == json_document(lines@[k].1@),
            forall|k: int| 0 <= k < i ==> (#[trigger] readings@[k]).1 is Ok,
        decreases lines.len() - i,
    {
        let reading = read_json(lines[i].1.as_str());
        let failed: bool = reading.is_err();
        readings.push((lines[i].0, reading));
        i += 1;
        if failed {
            return readings;
        }
    }
    readings
}

/// Reads a JSON-lines text and makes its table.
///
/// Blank lines are passed over. The members of the first line's object
/// name the columns; every line gives one row, with the empty string where
/// its object lacks a column. The text is refused where it has no line that
/// is not blank, and at the first line that is not JSON, holds a document
/// that is not well-formed, or holds no object; the failure names the
/// number of that line in the text, counted from one, blank lines counted
/// as well. No header of the table occurs twice.
pub fn parse_jsonl(file_name: &str, content: &str) -> (outcome: Result<FileData, TableError>)
    ensures
        outcome_view(outcome) == jsonl_table(content@, file_name@),
        outcome matches Ok(table) ==> table@.well_formed() && table@.headers.no_duplicates(),
{
    let lines = nonblank_lines(content);
    let readings = read_lines(&lines);
    proof {
        let all = line_readings(numbered(lines@));
        let cut = reading_models(readings@);
        assert forall|i: int| 0 <= i < cut.len() implies cut[i] == all[i] by {
            assert(numbered(lines@)[i] == (lines@[i].0 as nat, lines@[i].1@));
        }
        lemma_readings_cut(all, cut, file_name@);
    }
    table_of_readings(file_name, &readings)
}

} // verus!
