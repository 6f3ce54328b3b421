//! Laws of the engine: what holds of flattening, of extraction and of the
//! assembled table for every input.

use crate::error::{ErrorKind, ErrorModel};
use crate::export::{exported, row_members};
use crate::extract::{extract_rows, is_dictionary, named_row};
use crate::flatten::{array_text, child_key, flatten, flatten_members};
use crate::ingest::{document_table, json_table};
use crate::json::{json_document, json_text};
use crate::table::{
    add_keys, aligned, first_position, flat_rows, header_union, lookup, name_first,
    table_cells, table_headers, FileType, TableModel,
};
use crate::value::{
    distinct_keys, key_position, lemma_key_position, lemma_with_members_distinct, with_member,
    with_members, JsonModel,
};
use vstd::prelude::*;

verus! {

/// The key below `prefix` along a path of keys.
pub open spec fn path_key(prefix: Seq<char>, path: Seq<Seq<char>>) -> Seq<char>
    decreases path.len(),
{
    if path.len() == 0 {
        prefix
    } else {
        child_key(path_key(prefix, path.drop_last()), path.last())
    }
}

/// `value` wrapped in objects of one member each, the outermost under the
/// first key of the path.
pub open spec fn nested(path: Seq<Seq<char>>, value: JsonModel) -> JsonModel
    decreases path.len(),
{
    if path.len() == 0 {
        value
    } else {
        nested(path.drop_last(), JsonModel::Object(seq![(path.last(), value)]))
    }
}

/// An object with one member flattens to what its member flattens to under
/// the member's key.
pub proof fn lemma_flatten_single_member(prefix: Seq<char>, key: Seq<char>, value: JsonModel)
    ensures
        flatten(prefix, JsonModel::Object(seq![(key, value)])) == flatten(
            child_key(prefix, key),
            value,
        ),
{
    let members = seq![(key, value)];
    assert(flatten_members(prefix, members, 0) =~= Seq::empty());
    assert(flatten_members(prefix, members, 1) =~= flatten(child_key(prefix, key), value));
}

/// Nesting adds nothing but dots: a value under a path of objects with one
/// member each flattens to what it flattens to under the keys of the path,
/// joined by dots.
pub proof fn lemma_flatten_nested(prefix: Seq<char>, path: Seq<Seq<char>>, value: JsonModel)
    ensures
        flatten(prefix, nested(path, value)) == flatten(path_key(prefix, path), value),
    decreases path.len(),
{
    if path.len() > 0 {
        let inner = JsonModel::Object(seq![(path.last(), value)]);
        lemma_flatten_nested(prefix, path.drop_last(), inner);
        lemma_flatten_single_member(path_key(prefix, path.drop_last()), path.last(), value);
    }
}

/// Two scalars in an array are written with a comma and a space between
/// them.
pub proof fn lemma_joined_two(first: JsonModel, second: JsonModel)
    requires
        first.is_scalar(),
        second.is_scalar(),
    ensures
        array_text(seq![first, second]) == crate::flatten::element_text(first) + ", "@
            + crate::flatten::element_text(second),
{
    let items = seq![first, second];
    assert(items.drop_last() =~= seq![first]);
    assert(crate::flatten::joined(items.drop_last()) == crate::flatten::element_text(first));
}

/// An array gives one pair, under the prefix; an array of more than ten
/// items is written as its compact JSON text, whatever it holds.
pub proof fn lemma_flatten_array(prefix: Seq<char>, items: Seq<JsonModel>)
    ensures
        flatten(prefix, JsonModel::Array(items)) == seq![(prefix, array_text(items))],
        items.len() > 10 ==> array_text(items) == json_text(JsonModel::Array(items)),
{
}

/// An object that is no dictionary and holds no array of rows is one row.
pub proof fn lemma_single_object(members: Seq<(Seq<char>, JsonModel)>)
    requires
        !is_dictionary(members),
        forall|i: int|
            0 <= i < members.len() ==> !crate::extract::is_row_array((#[trigger] members[i]).1),
    ensures
        extract_rows(JsonModel::Object(members)) == Ok::<Seq<JsonModel>, ErrorModel>(
            seq![JsonModel::Object(members)],
        ),
{
    crate::extract::lemma_longest_row_array(members, members.len());
}

/// A dictionary has one row for every member that is an object.
pub proof fn lemma_dictionary_rows_count(members: Seq<(Seq<char>, JsonModel)>, count: nat)
    ensures
        crate::extract::dictionary_rows(members, count).len() == crate::extract::count_objects(
            members,
            count,
        ),
    decreases count,
{
    if !(count == 0 || count > members.len()) {
        lemma_dictionary_rows_count(members, (count - 1) as nat);
    }
}

/// No key occurs twice in the row of a dictionary's member, whatever the
/// body holds.
pub proof fn lemma_named_row_distinct(key: Seq<char>, body: Seq<(Seq<char>, JsonModel)>)
    ensures
        distinct_keys(named_row(key, body)->Object_0),
{
    lemma_with_members_distinct(seq![("Name"@, JsonModel::Text(key))], body);
}

/// The value that the last of the first `count` members with the key `key`
/// holds, or `otherwise` where there is none.
pub open spec fn last_value(
    members: Seq<(Seq<char>, JsonModel)>,
    key: Seq<char>,
    count: nat,
    otherwise: JsonModel,
) -> JsonModel
    decreases count,
{
    if count == 0 || count > members.len() {
        otherwise
    } else if members[count - 1].0 == key {
        members[count - 1].1
    } else {
        last_value(members, key, (count - 1) as nat, otherwise)
    }
}

/// `last_value` looks at the first `count` members only.
pub proof fn lemma_last_value_prefix(
    members: Seq<(Seq<char>, JsonModel)>,
    shorter: Seq<(Seq<char>, JsonModel)>,
    key: Seq<char>,
    count: nat,
    otherwise: JsonModel,
)
    requires
        count <= shorter.len() <= members.len(),
        forall|i: int| 0 <= i < shorter.len() ==> shorter[i] == members[i],
    ensures
        last_value(shorter, key, count, otherwise) == last_value(members, key, count, otherwise),
    decreases count,
{
    if count > 0 {
        lemma_last_value_prefix(members, shorter, key, (count - 1) as nat, otherwise);
    }
}

/// Giving members to a list that starts with the key `first` leaves that
/// key in front; it holds the value that the last given member with that
/// key brought, or the value it had.
pub proof fn lemma_front_member(
    first: Seq<char>,
    value: JsonModel,
    more: Seq<(Seq<char>, JsonModel)>,
)
    ensures
        with_members(seq![(first, value)], more).len() >= 1,
        with_members(seq![(first, value)], more)[0] == (
            first,
            last_value(more, first, more.len(), value),
        ),
    decreases more.len(),
{
    if more.len() > 0 {
        let rest = more.drop_last();
        lemma_front_member(first, value, rest);
        let earlier = with_members(seq![(first, value)], rest);
        lemma_key_position(earlier, more.last().0);
        assert(last_value(rest, first, rest.len(), value) == last_value(
            more,
            first,
            rest.len(),
            value,
        )) by {
            lemma_last_value_prefix(more, rest, first, rest.len(), value);
        }
    }
}

/// The row of a dictionary's member starts with `Name`. Where the body has
/// no member `Name`, it holds the member's key; where the body has one, it
/// holds that member's value.
pub proof fn lemma_named_row(key: Seq<char>, body: Seq<(Seq<char>, JsonModel)>)
    ensures
        named_row(key, body) is Object,
        named_row(key, body)->Object_0.len() >= 1,
        named_row(key, body)->Object_0[0] == (
            "Name"@,
            last_value(body, "Name"@, body.len(), JsonModel::Text(key)),
        ),
{
    lemma_front_member("Name"@, JsonModel::Text(key), body);
}

/// A key that no member holds is given the last place.
pub proof fn lemma_key_absent(members: Seq<(Seq<char>, JsonModel)>, key: Seq<char>)
    requires
        forall|i: int| 0 <= i < members.len() ==> (#[trigger] members[i]).0 != key,
    ensures
        key_position(members, key) == members.len(),
{
    lemma_key_position(members, key);
}

/// Giving members with new keys, no two alike, appends them.
pub proof fn lemma_with_members_fresh(
    members: Seq<(Seq<char>, JsonModel)>,
    more: Seq<(Seq<char>, JsonModel)>,
)
    requires
        forall|i: int, j: int|
            0 <= i < members.len() && 0 <= j < more.len() ==> (#[trigger] members[i]).0 != (
            #[trigger] more[j]).0,
        forall|i: int, j: int|
            0 <= i < j < more.len() ==> (#[trigger] more[i]).0 != (#[trigger] more[j]).0,
    ensures
        with_members(members, more) == members + more,
    decreases more.len(),
{
    if more.len() > 0 {
        let rest = more.drop_last();
        assert forall|i: int, j: int| 0 <= i < j < rest.len() implies (#[trigger] rest[i]).0 != (
        #[trigger] rest[j]).0 by {
            assert(rest[i] == more[i] && rest[j] == more[j]);
        }
        assert forall|i: int, j: int|
            0 <= i < members.len() && 0 <= j < rest.len() implies (#[trigger] members[i]).0 != (
        #[trigger] rest[j]).0 by {
            assert(rest[j] == more[j]);
        }
        lemma_with_members_fresh(members, rest);
        let earlier = members + rest;
        assert forall|i: int| 0 <= i < earlier.len() implies (#[trigger] earlier[i]).0
            != more.last().0 by {
            if i < members.len() {
                assert(earlier[i] == members[i]);
            } else {
                assert(earlier[i] == more[i - members.len()]);
            }
        }
        lemma_key_absent(earlier, more.last().0);
        assert(earlier.push(more.last()) =~= members + more);
    } else {
        assert(members + more =~= members);
    }
}

/// The row of a dictionary's member whose body has no member `Name` and no
/// key twice is `Name` with the member's key, and then the body as it is.
pub proof fn lemma_named_row_plain(key: Seq<char>, body: Seq<(Seq<char>, JsonModel)>)
    requires
        forall|j: int| 0 <= j < body.len() ==> (#[trigger] body[j]).0 != "Name"@,
        forall|i: int, j: int|
            0 <= i < j < body.len() ==> (#[trigger] body[i]).0 != (#[trigger] body[j]).0,
    ensures
        named_row(key, body) == JsonModel::Object(seq![("Name"@, JsonModel::Text(key))] + body),
{
    lemma_with_members_fresh(seq![("Name"@, JsonModel::Text(key))], body);
}

/// Adding the keys of a row keeps every header in its place, adds every
/// key of the row, and adds nothing else.
pub proof fn lemma_add_keys(
    headers: Seq<Seq<char>>,
    row: Seq<(Seq<char>, Seq<char>)>,
    count: nat,
)
    requires
        count <= row.len(),
    ensures
        headers.len() <= add_keys(headers, row, count).len(),
        forall|i: int| 0 <= i < headers.len() ==> add_keys(headers, row, count)[i] == headers[i],
        forall|j: int| 0 <= j < count ==> add_keys(headers, row, count).contains(row[j].0),
        forall|i: int|
            headers.len() <= i < add_keys(headers, row, count).len() ==> exists|j: int|
                0 <= j < count && row[j].0 == #[trigger] add_keys(headers, row, count)[i],
    decreases count,
{
    if count > 0 {
        lemma_add_keys(headers, row, (count - 1) as nat);
        let earlier = add_keys(headers, row, (count - 1) as nat);
        let now = add_keys(headers, row, count);
        let key = row[count - 1].0;
        if !earlier.contains(key) {
            assert(now == earlier.push(key));
            assert(now[earlier.len() as int] == key);
        }
        assert forall|j: int| 0 <= j < count implies now.contains(row[j].0) by {
            if j < count - 1 {
                let at = choose|at: int| 0 <= at < earlier.len() && earlier[at] == row[j].0;
                assert(now[at] == row[j].0);
            } else if earlier.contains(key) {
                let at = choose|at: int| 0 <= at < earlier.len() && earlier[at] == key;
                assert(now[at] == key);
            }
        }
        assert forall|i: int| headers.len() <= i < now.len() implies exists|j: int|
            0 <= j < count && row[j].0 == #[trigger] now[i] by {
            if i < earlier.len() {
                assert(now[i] == earlier[i]);
                let j = choose|j: int| 0 <= j < count - 1 && row[j].0 == earlier[i];
                assert(row[j].0 == now[i]);
            } else {
                assert(row[count - 1].0 == now[i]);
            }
        }
    }
}

/// The union of the keys holds every key of every row, and nothing but
/// keys of rows.
pub proof fn lemma_header_union(rows: Seq<Seq<(Seq<char>, Seq<char>)>>, count: nat)
    requires
        count <= rows.len(),
    ensures
        forall|i: int, j: int|
            0 <= i < count && 0 <= j < rows[i].len() ==> header_union(rows, count).contains(
                #[trigger] rows[i][j].0,
            ),
        forall|k: int|
            0 <= k < header_union(rows, count).len() ==> exists|i: int, j: int|
                0 <= i < count && 0 <= j < rows[i].len() && rows[i][j].0
                    == #[trigger] header_union(rows, count)[k],
    decreases count,
{
    if count > 0 {
        lemma_header_union(rows, (count - 1) as nat);
        let earlier = header_union(rows, (count - 1) as nat);
        let last = rows[count - 1];
        let now = header_union(rows, count);
        lemma_add_keys(earlier, last, last.len());
        assert forall|i: int, j: int| 0 <= i < count && 0 <= j < rows[i].len() implies now.contains(
            #[trigger] rows[i][j].0,
        ) by {
            if i < count - 1 {
                let at = choose|at: int| 0 <= at < earlier.len() && earlier[at] == rows[i][j].0;
                assert(now[at] == rows[i][j].0);
            }
        }
        assert forall|k: int| 0 <= k < now.len() implies exists|i: int, j: int|
            0 <= i < count && 0 <= j < rows[i].len() && rows[i][j].0 == #[trigger] now[k] by {
            if k < earlier.len() {
                assert(now[k] == earlier[k]);
                let (i, j) = choose|i: int, j: int|
                    0 <= i < count - 1 && 0 <= j < rows[i].len() && rows[i][j].0 == earlier[k];
                assert(rows[i][j].0 == now[k]);
            } else {
                let j = choose|j: int| 0 <= j < last.len() && last[j].0 == now[k];
                assert(rows[count - 1][j].0 == now[k]);
            }
        }
    }
}

/// Moving `Name` to the front neither adds a header nor drops one.
pub proof fn lemma_name_first_same_headers(headers: Seq<Seq<char>>, key: Seq<char>)
    ensures
        name_first(headers).contains(key) == headers.contains(key),
{
    let at = first_position(headers, "Name"@, headers.len()) as int;
    crate::table::lemma_first_position(headers, "Name"@, headers.len());
    if 0 < at < headers.len() {
        let moved = name_first(headers);
        if headers.contains(key) {
            let k = choose|k: int| 0 <= k < headers.len() && headers[k] == key;
            if k == at {
                assert(moved[0] == key);
            } else if k < at {
                assert(moved[k + 1] == key);
            } else {
                assert(moved[k] == key);
            }
        }
        if moved.contains(key) {
            let k = choose|k: int| 0 <= k < moved.len() && moved[k] == key;
            if k == 0 {
                assert(headers[at] == key);
            } else if k - 1 < at {
                assert(headers[k - 1] == key);
            } else {
                assert(headers[k] == key);
            }
        }
    }
}

/// The headers of a table are the keys of its rows: every key that a row
/// flattens to is a header, every header is such a key, and no header
/// occurs twice.
pub proof fn lemma_table_headers(rows: Seq<JsonModel>)
    ensures
        table_headers(rows).no_duplicates(),
        forall|i: int, j: int|
            0 <= i < rows.len() && 0 <= j < flat_rows(rows)[i].len() ==> table_headers(
                rows,
            ).contains(#[trigger] flat_rows(rows)[i][j].0),
        forall|k: int|
            0 <= k < table_headers(rows).len() ==> exists|i: int, j: int|
                0 <= i < rows.len() && 0 <= j < flat_rows(rows)[i].len() && flat_rows(
                    rows,
                )[i][j].0 == #[trigger] table_headers(rows)[k],
{
    let flat = flat_rows(rows);
    let union = header_union(flat, rows.len());
    crate::table::lemma_table_headers_distinct(rows);
    lemma_header_union(flat, rows.len());
    assert forall|i: int, j: int|
        0 <= i < rows.len() && 0 <= j < flat[i].len() implies table_headers(rows).contains(
        #[trigger] flat[i][j].0,
    ) by {
        lemma_name_first_same_headers(union, flat[i][j].0);
    }
    assert forall|k: int| 0 <= k < table_headers(rows).len() implies exists|i: int, j: int|
        0 <= i < rows.len() && 0 <= j < flat[i].len() && flat[i][j].0
            == #[trigger] table_headers(rows)[k] by {
        let key = table_headers(rows)[k];
        lemma_name_first_same_headers(union, key);
        assert(union.contains(key));
        let at = choose|at: int| 0 <= at < union.len() && union[at] == key;
        let (i, j) = choose|i: int, j: int|
            0 <= i < rows.len() && 0 <= j < flat[i].len() && flat[i][j].0 == union[at];
        assert(flat[i][j].0 == key);
    }
}

/// Every cell of a table is the text that its row holds under the cell's
/// header, and the empty text where the row holds none.
pub proof fn lemma_table_cells(rows: Seq<JsonModel>, i: int, j: int)
    requires
        0 <= i < rows.len(),
        0 <= j < table_headers(rows).len(),
    ensures
        table_cells(rows)[i].len() == table_headers(rows).len(),
        table_cells(rows)[i][j] == lookup(
            flatten(Seq::empty(), rows[i]),
            table_headers(rows)[j],
            flatten(Seq::empty(), rows[i]).len(),
        ),
{
}

/// Empty input is refused as such: an empty array among JSON documents, a
/// JSON-lines text without lines, and a CSV text without a header row. A
/// CSV text with a header row and no record is a table without rows.
pub proof fn lemma_empty_inputs(file_name: Seq<char>, headers: Seq<Seq<char>>)
    requires
        headers.len() > 0,
    ensures
        extract_rows(JsonModel::Array(Seq::empty())) == Err::<Seq<JsonModel>, ErrorModel>(
            ErrorModel::JsonEmptyArray,
        ),
        crate::jsonl::readings_table(Seq::empty(), file_name) == Err::<TableModel, ErrorModel>(
            ErrorModel::JsonlEmpty,
        ),
        crate::csv_table::records_table(Ok(Seq::empty()), Seq::empty(), file_name) == Err::<
            TableModel,
            ErrorModel,
        >(ErrorModel::CsvEmpty),
        ErrorModel::JsonEmptyArray.kind() == ErrorKind::EmptyInput,
        ErrorModel::JsonlEmpty.kind() == ErrorKind::EmptyInput,
        ErrorModel::CsvEmpty.kind() == ErrorKind::EmptyInput,
        crate::csv_table::records_table(Ok(headers), Seq::empty(), file_name) == Ok::<
            TableModel,
            ErrorModel,
        >(
            TableModel {
                headers,
                rows: Seq::empty(),
                row_count: 0,
                file_name,
                file_type: FileType::Csv,
            },
        ),
{
}

/// A JSON-lines text whose lines are all blank, and so the empty text, is
/// refused as empty.
pub proof fn lemma_blank_text_is_empty(content: Seq<char>, file_name: Seq<char>)
    requires
        forall|i: int|
            0 <= i < crate::lines::lines_of(content).len() ==> crate::lines::blank_text(
                #[trigger] crate::lines::lines_of(content)[i],
            ),
    ensures
        crate::jsonl::jsonl_table(content, file_name) == Err::<TableModel, ErrorModel>(
            ErrorModel::JsonlEmpty,
        ),
{
    let lines = crate::lines::lines_of(content);
    lemma_nonblank_of_blank(lines, lines.len());
}

/// Of lines that are all blank none is kept.
pub proof fn lemma_nonblank_of_blank(lines: Seq<Seq<char>>, count: nat)
    requires
        count <= lines.len(),
        forall|i: int| 0 <= i < lines.len() ==> crate::lines::blank_text(#[trigger] lines[i]),
    ensures
        crate::jsonl::nonblank(lines, count).len() == 0,
    decreases count,
{
    if count > 0 {
        lemma_nonblank_of_blank(lines, (count - 1) as nat);
    }
}

/// The members that a row of a well-formed table becomes: every header
/// with the cell below it, in the order of the headers.
pub open spec fn plain_members(headers: Seq<Seq<char>>, cells: Seq<Seq<char>>, count: nat) -> Seq<
    (Seq<char>, JsonModel),
> {
    Seq::new(count, |j: int| (headers[j], JsonModel::Text(cells[j])))
}

/// The pairs that a row of a well-formed table flattens to: every header
/// with the cell below it.
pub open spec fn plain_pairs(headers: Seq<Seq<char>>, cells: Seq<Seq<char>>, count: nat) -> Seq<
    (Seq<char>, Seq<char>),
> {
    Seq::new(count, |j: int| (headers[j], cells[j]))
}

/// Where no header occurs twice, a row becomes its headers with its cells.
pub proof fn lemma_row_members_plain(headers: Seq<Seq<char>>, cells: Seq<Seq<char>>, count: nat)
    requires
        headers.no_duplicates(),
        cells.len() == headers.len(),
        count <= headers.len(),
    ensures
        row_members(headers, cells, count) == plain_members(headers, cells, count),
    decreases count,
{
    if count > 0 {
        lemma_row_members_plain(headers, cells, (count - 1) as nat);
        let earlier = plain_members(headers, cells, (count - 1) as nat);
        lemma_key_absent(earlier, headers[count - 1]);
        assert(with_member(earlier, headers[count - 1], JsonModel::Text(cells[count - 1]))
            =~= plain_members(headers, cells, count));
    } else {
        assert(row_members(headers, cells, count) =~= plain_members(headers, cells, count));
    }
}

/// The members of such a row flatten to the headers with the cells.
pub proof fn lemma_flatten_plain(headers: Seq<Seq<char>>, cells: Seq<Seq<char>>, count: nat)
    requires
        cells.len() == headers.len(),
        count <= headers.len(),
    ensures
        flatten_members(
            Seq::empty(),
            plain_members(headers, cells, headers.len()),
            count,
        ) == plain_pairs(headers, cells, count),
    decreases count,
{
    let members = plain_members(headers, cells, headers.len());
    if count > 0 {
        lemma_flatten_plain(headers, cells, (count - 1) as nat);
        let key = members[count - 1].0;
        assert(child_key(Seq::<char>::empty(), key) == key);
        assert(flatten(key, members[count - 1].1) == seq![(key, cells[count - 1])]);
        assert(flatten_members(Seq::empty(), members, count) =~= plain_pairs(
            headers,
            cells,
            count,
        ));
    } else {
        assert(flatten_members(Seq::empty(), members, count) =~= plain_pairs(
            headers,
            cells,
            count,
        ));
    }
}

/// The keys of the first such row are the headers, in their order.
pub proof fn lemma_add_keys_fresh(headers: Seq<Seq<char>>, cells: Seq<Seq<char>>, count: nat)
    requires
        headers.no_duplicates(),
        cells.len() == headers.len(),
        count <= headers.len(),
    ensures
        add_keys(Seq::empty(), plain_pairs(headers, cells, headers.len()), count) == headers.take(
            count as int,
        ),
    decreases count,
{
    let row = plain_pairs(headers, cells, headers.len());
    if count > 0 {
        lemma_add_keys_fresh(headers, cells, (count - 1) as nat);
        let earlier = headers.take(count - 1);
        assert(!earlier.contains(headers[count - 1]));
        assert(earlier.push(headers[count - 1]) =~= headers.take(count as int));
    } else {
        assert(add_keys(Seq::empty(), row, count) =~= headers.take(count as int));
    }
}

/// The keys of any later such row add nothing to the headers.
pub proof fn lemma_add_keys_known(headers: Seq<Seq<char>>, cells: Seq<Seq<char>>, count: nat)
    requires
        cells.len() == headers.len(),
        count <= headers.len(),
    ensures
        add_keys(headers, plain_pairs(headers, cells, headers.len()), count) == headers,
    decreases count,
{
    if count > 0 {
        lemma_add_keys_known(headers, cells, (count - 1) as nat);
        assert(headers[count - 1] == plain_pairs(headers, cells, headers.len())[count - 1].0);
    }
}

/// The union of the keys of rows that all flatten to the headers with
/// their cells is the headers.
pub proof fn lemma_union_of_plain(
    headers: Seq<Seq<char>>,
    rows: Seq<Seq<Seq<char>>>,
    flat: Seq<Seq<(Seq<char>, Seq<char>)>>,
    count: nat,
)
    requires
        headers.no_duplicates(),
        1 <= count <= rows.len(),
        flat.len() == rows.len(),
        forall|i: int| 0 <= i < rows.len() ==> (#[trigger] rows[i]).len() == headers.len(),
        forall|i: int|
            0 <= i < rows.len() ==> #[trigger] flat[i] == plain_pairs(
                headers,
                rows[i],
                headers.len(),
            ),
    ensures
        header_union(flat, count) == headers,
    decreases count,
{
    let last = rows[count - 1];
    assert(flat[count - 1] == plain_pairs(headers, last, headers.len()));
    if count == 1 {
        assert(header_union(flat, 0) =~= Seq::empty());
        lemma_add_keys_fresh(headers, last, headers.len());
        assert(headers.take(headers.len() as int) =~= headers);
    } else {
        lemma_union_of_plain(headers, rows, flat, (count - 1) as nat);
        lemma_add_keys_known(headers, last, headers.len());
    }
}

/// Where no header occurs twice, such a row holds under every header the
/// cell below it.
pub proof fn lemma_lookup_plain(
    headers: Seq<Seq<char>>,
    cells: Seq<Seq<char>>,
    at: int,
    count: nat,
)
    requires
        headers.no_duplicates(),
        cells.len() == headers.len(),
        0 <= at < count <= headers.len(),
    ensures
        lookup(plain_pairs(headers, cells, headers.len()), headers[at], count) == cells[at],
    decreases count,
{
    if count - 1 > at {
        lemma_lookup_plain(headers, cells, at, (count - 1) as nat);
    }
}

/// Writing a table as a document and making the table of that document
/// gives the headers and the cells back, string for string.
///
/// This holds of every table that has a row, in which every row has one
/// cell for every header and no header occurs twice, unless `Name` is a
/// header other than the first: the table of a document always has `Name`
/// in front.
pub proof fn lemma_round_trip(
    headers: Seq<Seq<char>>,
    rows: Seq<Seq<Seq<char>>>,
    file_name: Seq<char>,
)
    requires
        headers.no_duplicates(),
        rows.len() > 0,
        forall|i: int| 0 <= i < rows.len() ==> (#[trigger] rows[i]).len() == headers.len(),
        forall|k: int| 0 < k < headers.len() ==> headers[k] != "Name"@,
    ensures
        document_table(exported(headers, rows), file_name) == Ok::<TableModel, ErrorModel>(
            TableModel {
                headers,
                rows,
                row_count: rows.len(),
                file_name,
                file_type: FileType::Json,
            },
        ),
{
    let width = headers.len();
    let document = exported(headers, rows);
    let items = document->Array_0;
    assert(extract_rows(document) == Ok::<Seq<JsonModel>, ErrorModel>(items));
    let flat = flat_rows(items);
    assert forall|i: int| 0 <= i < rows.len() implies #[trigger] flat[i] == plain_pairs(
        headers,
        rows[i],
        width,
    ) by {
        lemma_row_members_plain(headers, rows[i], width);
        lemma_flatten_plain(headers, rows[i], width);
        assert(items[i] == JsonModel::Object(plain_members(headers, rows[i], width)));
    }
    assert forall|count: nat| 1 <= count <= rows.len() implies #[trigger] header_union(flat, count)
        == headers by {
        lemma_union_of_plain(headers, rows, flat, count);
    }
    let union = header_union(flat, rows.len());
    assert(union == headers);
    crate::table::lemma_first_position(headers, "Name"@, headers.len());
    assert(name_first(headers) == headers);
    assert(table_headers(items) == headers);
    assert forall|i: int| 0 <= i < rows.len() implies #[trigger] table_cells(items)[i]
        == rows[i] by {
        assert forall|j: int| 0 <= j < width implies aligned(headers, flat[i])[j]
            == rows[i][j] by {
            lemma_lookup_plain(headers, rows[i], j, width);
        }
        assert(aligned(headers, flat[i]) =~= rows[i]);
    }
    assert(table_cells(items) =~= rows);
}

/// Reading the text of a table's document as JSON gives the table back,
/// provided that the text is read as the document that was written.
pub proof fn lemma_round_trip_text(
    headers: Seq<Seq<char>>,
    rows: Seq<Seq<Seq<char>>>,
    file_name: Seq<char>,
    text: Seq<char>,
)
    requires
        headers.no_duplicates(),
        rows.len() > 0,
        forall|i: int| 0 <= i < rows.len() ==> (#[trigger] rows[i]).len() == headers.len(),
        forall|k: int| 0 < k < headers.len() ==> headers[k] != "Name"@,
        json_document(text) == Ok::<JsonModel, Seq<char>>(exported(headers, rows)),
    ensures
        json_table(text, file_name) == Ok::<TableModel, ErrorModel>(
            TableModel {
                headers,
                rows,
                row_count: rows.len(),
                file_name,
                file_type: FileType::Json,
            },
        ),
{
    lemma_round_trip(headers, rows, file_name);
    crate::export::lemma_exported_well_formed(headers, rows);
}

} // verus!
