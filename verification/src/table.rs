//! The table, and the assembler that makes one of a list of rows.

use crate::flatten::{flatten, flatten_object};
use crate::valid::well_formed;
use crate::text::{grid, lemma_pair_lists_push, lemma_texts_push, pair_lists, pairs, texts};
use crate::value::{models, GenericValue, JsonModel};
use vstd::prelude::*;

verus! {

/// The format that a table was read from.
#[derive(Clone, Copy, Debug, PartialEq, Eq, Structural)]
pub enum FileType {
    Csv,
    Json,
    Jsonl,
}

impl FileType {
    /// `CSV`, `JSON` or `JSONL`.
    pub open spec fn name_of(self) -> Seq<char> {
        match self {
            FileType::Csv => "CSV"@,
            FileType::Json => "JSON"@,
            FileType::Jsonl => "JSONL"@,
        }
    }

    /// `CSV`, `JSON` or `JSONL`.
    pub fn name(&self) -> (text: String)
        ensures
            text@ == self.name_of(),
    {
        match self {
            FileType::Csv => "CSV".to_owned(),
            FileType::Json => "JSON".to_owned(),
            FileType::Jsonl => "JSONL".to_owned(),
        }
    }
}

/// A table as mathematics sees it.
pub struct TableModel {
    pub headers: Seq<Seq<char>>,
    pub rows: Seq<Seq<Seq<char>>>,
    pub row_count: nat,
    pub file_name: Seq<char>,
    pub file_type: FileType,
}

impl TableModel {
    /// Every row has one cell for every header, and `row_count` counts the
    /// rows.
    pub open spec fn well_formed(self) -> bool {
        &&& self.row_count == self.rows.len()
        &&& forall|i: int|
            0 <= i < self.rows.len() ==> (#[trigger] self.rows[i]).len() == self.headers.len()
    }
}

/// A table of strings: the column names, and under them the rows. A cell
/// that has no value holds the empty string.
#[derive(Debug)]
pub struct FileData {
    pub headers: Vec<String>,
    pub rows: Vec<Vec<String>>,
    pub row_count: usize,
    pub file_name: String,
    pub file_type: FileType,
}

impl View for FileData {
    type V = TableModel;

    open spec fn view(&self) -> TableModel {
        TableModel {
            headers: texts(self.headers@),
            rows: grid(self.rows@),
            row_count: self.row_count as nat,
            file_name: self.file_name@,
            file_type: self.file_type,
        }
    }
}

/// The headers after the keys of the first `count` pairs of a row have been
/// added: a key that is not among them yet goes to the end.
pub open spec fn add_keys(
    headers: Seq<Seq<char>>,
    row: Seq<(Seq<char>, Seq<char>)>,
    count: nat,
) -> Seq<Seq<char>>
    decreases count,
{
    if count == 0 || count > row.len() {
        headers
    } else {
        let earlier = add_keys(headers, row, (count - 1) as nat);
        if earlier.contains(row[count - 1].0) {
            earlier
        } else {
            earlier.push(row[count - 1].0)
        }
    }
}

/// The keys of the first `count` rows, each once, in the order in which
/// they first appear.
pub open spec fn header_union(rows: Seq<Seq<(Seq<char>, Seq<char>)>>, count: nat) -> Seq<
    Seq<char>,
>
    decreases count,
{
    if count == 0 || count > rows.len() {
        Seq::empty()
    } else {
        add_keys(header_union(rows, (count - 1) as nat), rows[count - 1], rows[count - 1].len())
    }
}

/// Where `key` first stands among the first `count` headers, or `count` if
/// it does not.
pub open spec fn first_position(headers: Seq<Seq<char>>, key: Seq<char>, count: nat) -> nat
    decreases count,
{
    if count == 0 || count > headers.len() {
        count
    } else {
        let earlier = first_position(headers, key, (count - 1) as nat);
        if earlier < count - 1 {
            earlier
        } else if headers[count - 1] == key {
            (count - 1) as nat
        } else {
            count
        }
    }
}

/// The headers with `Name` moved to the front, where it is among them and
/// not in front already.
pub open spec fn name_first(headers: Seq<Seq<char>>) -> Seq<Seq<char>> {
    let at = first_position(headers, "Name"@, headers.len()) as int;
    if 0 < at < headers.len() {
        headers.remove(at).insert(0, "Name"@)
    } else {
        headers
    }
}

/// The text that a row holds under `key`: that of the last of its first
/// `count` pairs with that key, and the empty text where there is none.
pub open spec fn lookup(row: Seq<(Seq<char>, Seq<char>)>, key: Seq<char>, count: nat) -> Seq<char>
    decreases count,
{
    if count == 0 || count > row.len() {
        Seq::empty()
    } else if row[count - 1].0 == key {
        row[count - 1].1
    } else {
        lookup(row, key, (count - 1) as nat)
    }
}

/// The cells of a row under the headers.
pub open spec fn aligned(headers: Seq<Seq<char>>, row: Seq<(Seq<char>, Seq<char>)>) -> Seq<
    Seq<char>,
> {
    Seq::new(headers.len(), |j: int| lookup(row, headers[j], row.len()))
}

/// The pairs of every row, each flattened from the root.
pub open spec fn flat_rows(rows: Seq<JsonModel>) -> Seq<Seq<(Seq<char>, Seq<char>)>> {
    Seq::new(rows.len(), |i: int| flatten(Seq::empty(), rows[i]))
}

/// The headers of the table of the rows: the union of their keys, `Name`
/// in front.
pub open spec fn table_headers(rows: Seq<JsonModel>) -> Seq<Seq<char>> {
    name_first(header_union(flat_rows(rows), rows.len()))
}

/// The cells of the table of the rows.
pub open spec fn table_cells(rows: Seq<JsonModel>) -> Seq<Seq<Seq<char>>> {
    Seq::new(rows.len(), |i: int| aligned(table_headers(rows), flat_rows(rows)[i]))
}

/// The table of the rows.
pub open spec fn table_of_rows(rows: Seq<JsonModel>, file_name: Seq<char>) -> TableModel {
    TableModel {
        headers: table_headers(rows),
        rows: table_cells(rows),
        row_count: rows.len(),
        file_name,
        file_type: FileType::Json,
    }
}

/// The table of any rows is well-formed, and none of its headers occurs
/// twice.
pub proof fn lemma_table_of_rows(rows: Seq<JsonModel>, file_name: Seq<char>)
    ensures
        table_of_rows(rows, file_name).well_formed(),
        table_of_rows(rows, file_name).headers.no_duplicates(),
{
    lemma_table_headers_distinct(rows);
}

/// Adding keys keeps the headers free of duplicates.
pub proof fn lemma_add_keys_distinct(
    headers: Seq<Seq<char>>,
    row: Seq<(Seq<char>, Seq<char>)>,
    count: nat,
)
    requires
        headers.no_duplicates(),
    ensures
        add_keys(headers, row, count).no_duplicates(),
    decreases count,
{
    if !(count == 0 || count > row.len()) {
        lemma_add_keys_distinct(headers, row, (count - 1) as nat);
    }
}

/// No header of a union occurs twice.
pub proof fn lemma_header_union_distinct(rows: Seq<Seq<(Seq<char>, Seq<char>)>>, count: nat)
    ensures
        header_union(rows, count).no_duplicates(),
    decreases count,
{
    if !(count == 0 || count > rows.len()) {
        lemma_header_union_distinct(rows, (count - 1) as nat);
        lemma_add_keys_distinct(
            header_union(rows, (count - 1) as nat),
            rows[count - 1],
            rows[count - 1].len(),
        );
    }
}

/// What `first_position` gives is at most `count`, holds the key where it
/// is below `count`, and nothing before it holds the key.
pub proof fn lemma_first_position(headers: Seq<Seq<char>>, key: Seq<char>, count: nat)
    requires
        count <= headers.len(),
    ensures
        first_position(headers, key, count) <= count,
        first_position(headers, key, count) < count ==> headers[first_position(
            headers,
            key,
            count,
        ) as int] == key,
        forall|i: int| 0 <= i < first_position(headers, key, count) ==> headers[i] != key,
    decreases count,
{
    if count > 0 {
        lemma_first_position(headers, key, (count - 1) as nat);
    }
}

/// A position that is found among the first `count` headers is the position
/// among any more of them.
pub proof fn lemma_first_position_stable(
    headers: Seq<Seq<char>>,
    key: Seq<char>,
    count: nat,
    more: nat,
)
    requires
        count <= more <= headers.len(),
        first_position(headers, key, count) < count,
    ensures
        first_position(headers, key, more) == first_position(headers, key, count),
    decreases more,
{
    if more > count {
        lemma_first_position_stable(headers, key, count, (more - 1) as nat);
    }
}

/// Moving `Name` to the front keeps the headers free of duplicates.
pub proof fn lemma_name_first_distinct(headers: Seq<Seq<char>>)
    requires
        headers.no_duplicates(),
    ensures
        name_first(headers).no_duplicates(),
        name_first(headers).len() == headers.len(),
{
    let at = first_position(headers, "Name"@, headers.len()) as int;
    lemma_first_position(headers, "Name"@, headers.len());
    if 0 < at < headers.len() {
        let removed = headers.remove(at);
        let moved = removed.insert(0, "Name"@);
        assert forall|i: int, j: int| 0 <= i < moved.len() && 0 <= j < moved.len() && i != j implies moved[i]
            != moved[j] by {
            let source = |k: int|
                if k == 0 {
                    at
                } else if k - 1 < at {
                    k - 1
                } else {
                    k
                };
            assert(moved[i] == headers[source(i)]);
            assert(moved[j] == headers[source(j)]);
        }
    }
}

/// No header of a table occurs twice.
pub proof fn lemma_table_headers_distinct(rows: Seq<JsonModel>)
    ensures
        table_headers(rows).no_duplicates(),
{
    lemma_header_union_distinct(flat_rows(rows), rows.len());
    lemma_name_first_distinct(header_union(flat_rows(rows), rows.len()));
}

/// Whether `key` is among the headers.
fn has_header(headers: &Vec<String>, key: &String) -> (yes: bool)
    ensures
        yes == texts(headers@).contains(key@),
{
    let mut i: usize = 0;
    while i < headers.len()
        invariant
            i <= headers.len(),
            forall|k: int| 0 <= k < i ==> texts(headers@)[k] != key@,
        decreases headers.len() - i,
    {
        if headers[i] == *key {
            assert(texts(headers@)[i as int] == key@);
            return true;
        }
        i += 1;
    }
    false
}

/// Adds to the headers every key of the row that is not among them yet.
fn add_row_keys(headers: &mut Vec<String>, row: &Vec<(String, String)>)
    ensures
        texts(final(headers)@) == add_keys(texts(old(headers)@), pairs(row@), row@.len()),
{
    let ghost start = texts(headers@);
    let ghost all = pairs(row@);
    let mut i: usize = 0;
    while i < row.len()
        invariant
            i <= row.len(),
            all == pairs(row@),
            texts(headers@) == add_keys(start, all, i as nat),
        decreases row.len() - i,
    {
        if !has_header(headers, &row[i].0) {
            let key = row[i].0.clone();
            proof {
                lemma_texts_push(headers@, key);
            }
            headers.push(key);
        }
        i += 1;
    }
}

/// Where `Name` first stands among the headers, or their number.
fn find_name(headers: &Vec<String>) -> (at: usize)
    ensures
        at == first_position(texts(headers@), "Name"@, headers@.len()),
{
    let name = "Name".to_owned();
    let mut i: usize = 0;
    while i < headers.len()
        invariant
            i <= headers.len(),
            name@ == "Name"@,
            i == first_position(texts(headers@), "Name"@, i as nat),
        decreases headers.len() - i,
    {
        if headers[i] == name {
            proof {
                assert(texts(headers@)[i as int] == "Name"@);
                lemma_first_position_stable(
                    texts(headers@),
                    "Name"@,
                    (i + 1) as nat,
                    headers@.len(),
                );
            }
            return i;
        }
        i += 1;
    }
    i
}

/// Moves `Name` to the front of the headers.
fn move_name_first(headers: &mut Vec<String>)
    ensures
        texts(final(headers)@) == name_first(texts(old(headers)@)),
{
    let at: usize = find_name(headers);
    if 0 < at && at < headers.len() {
        let ghost before = texts(headers@);
        proof {
            lemma_first_position(before, "Name"@, before.len());
        }
        let name = headers.remove(at);
        proof {
            assert(texts(headers@) =~= before.remove(at as int));
        }
        headers.insert(0, name);
        proof {
            assert(texts(headers@) =~= before.remove(at as int).insert(0, "Name"@));
        }
    }
}

/// The text of the row under `key`.
fn cell_of(row: &Vec<(String, String)>, key: &String) -> (text: String)
    ensures
        text@ == lookup(pairs(row@), key@, row@.len()),
{
    let ghost all = pairs(row@);
    let mut i: usize = row.len();
    while i > 0
        invariant
            i <= row.len(),
            all == pairs(row@),
            lookup(all, key@, row@.len()) == lookup(all, key@, i as nat),
        decreases i,
    {
        if row[i - 1].0 == *key {
            return row[i - 1].1.clone();
        }
        i -= 1;
    }
    String::new()
}

/// The cells of the row under the headers.
fn align_row(headers: &Vec<String>, row: &Vec<(String, String)>) -> (cells: Vec<String>)
    ensures
        texts(cells@) == aligned(texts(headers@), pairs(row@)),
        cells@.len() == headers@.len(),
{
    let mut cells: Vec<String> = Vec::new();
    let mut j: usize = 0;
    while j < headers.len()
        invariant
            j <= headers.len(),
            cells@.len() == j,
            forall|k: int|
                0 <= k < j ==> (#[trigger] cells@[k])@ == lookup(
                    pairs(row@),
                    texts(headers@)[k],
                    row@.len(),
                ),
        decreases headers.len() - j,
    {
        cells.push(cell_of(row, &headers[j]));
        j += 1;
    }
    proof {
        assert(texts(cells@) =~= aligned(texts(headers@), pairs(row@)));
    }
    cells
}

/// Makes the table of a list of rows.
///
/// Every row is flattened from the root. The headers are the keys of all
/// rows, each once, in the order in which they first appear, except that
/// `Name` is moved to the front. Every row of the table has one cell for
/// every header: the text that the row holds under it, or the empty text.
pub fn assemble(rows: &Vec<GenericValue>, file_name: &str) -> (table: FileData)
    requires
        forall|i: int| 0 <= i < rows@.len() ==> well_formed(#[trigger] rows@[i]@),
    ensures
        table@ == table_of_rows(models(rows@), file_name@),
        table@.well_formed(),
        table@.headers.no_duplicates(),
{
    let ghost all = models(rows@);
    let ghost flat = flat_rows(all);
    let mut lists: Vec<Vec<(String, String)>> = Vec::new();
    let mut headers: Vec<String> = Vec::new();
    proof {
        assert(texts(headers@) =~= header_union(flat, 0));
        assert(pair_lists(lists@) =~= flat.take(0));
    }
    let mut i: usize = 0;
    while i < rows.len()
        invariant
            i <= rows.len(),
            all == models(rows@),
            flat == flat_rows(all),
            forall|k: int| 0 <= k < rows@.len() ==> well_formed(#[trigger] rows@[k]@),
            pair_lists(lists@) == flat.take(i as int),
            texts(headers@) == header_union(flat, i as nat),
        decreases rows.len() - i,
    {
        let mut list: Vec<(String, String)> = Vec::new();
        proof {
            reveal_strlit("");
            assert(""@ =~= Seq::<char>::empty());
            assert(pairs(list@) =~= Seq::empty());
        }
        flatten_object("", &rows[i], &mut list);
        proof {
            assert(pairs(list@) =~= flat[i as int]);
        }
        add_row_keys(&mut headers, &list);
        proof {
            lemma_pair_lists_push(lists@, list);
            assert(flat.take(i as int).push(flat[i as int]) =~= flat.take(i + 1));
        }
        lists.push(list);
        i += 1;
    }
    proof {
        assert(flat.take(i as int) =~= flat);
    }
    move_name_first(&mut headers);
    let mut cells: Vec<Vec<String>> = Vec::new();
    let mut i: usize = 0;
    while i < lists.len()
        invariant
            i <= lists.len(),
            cells@.len() == i,
            forall|k: int|
                0 <= k < i ==> texts((#[trigger] cells@[k])@) == aligned(
                    texts(headers@),
                    pairs(lists@[k]@),
                ) && cells@[k]@.len() == headers@.len(),
        decreases lists.len() - i,
    {
        cells.push(align_row(&headers, &lists[i]));
        i += 1;
    }
    let row_count: usize = cells.len();
    let ghost name = file_name@;
    let table = FileData {
        headers,
        rows: cells,
        row_count,
        file_name: file_name.to_owned(),
        file_type: FileType::Json,
    };
    proof {
        assert(table@.headers == table_headers(all));
        assert forall|k: int| 0 <= k < all.len() implies #[trigger] table@.rows[k] == table_cells(
            all,
        )[k] by {
            assert(pair_lists(lists@)[k] == flat[k]);
        }
        assert(table@.rows =~= table_cells(all));
        lemma_table_of_rows(all, name);
    }
    table
}

} // verus!
