//! Columns of lists of texts, as the database holds them.
//!
//! A row without a list is not a row with an empty one: of a function that was never
//! analysed it is not known what it calls, and a leaf calls nothing.

use vstd::prelude::*;
use vstd::string::*;
use vstd::utf8::encode_utf8;

use crate::text::texts;
use crate::types::texts_or_none;

verus! {

/// A column of lists of texts that is being built.
#[verifier::external_body]
pub struct TextListBuilder {
    builder: arrow::array::ListBuilder<arrow::array::StringBuilder>,
}

/// A column of lists.
#[verifier::external_body]
pub struct TextListColumn {
    pub column: arrow::array::ListArray,
}

/// One row of a column of lists.
#[verifier::ext_equal]
pub enum ListRow {
    /// No list.
    Absent,
    /// A list of texts.
    Texts(Seq<Seq<char>>),
    /// A list of something else.
    Other,
}

/// The rows that a builder has.
pub uninterp spec fn built_rows(builder: TextListBuilder) -> Seq<Option<Seq<Seq<char>>>>;

/// The texts that a builder has for the row to come.
pub uninterp spec fn pending_texts(builder: TextListBuilder) -> Seq<Seq<char>>;

/// How many texts a builder was given.
pub uninterp spec fn text_count(builder: TextListBuilder) -> nat;

/// How many bytes the texts have that a builder was given.
pub uninterp spec fn byte_count(builder: TextListBuilder) -> nat;

/// The rows of a column.
pub uninterp spec fn column_rows(column: TextListColumn) -> Seq<ListRow>;

/// `arrow::array::ListBuilder::new` on `arrow::array::StringBuilder::new`: a builder
/// without rows and texts.
#[verifier::external_body]
fn new_builder() -> (builder: TextListBuilder)
    ensures
        built_rows(builder) == Seq::<Option<Seq<Seq<char>>>>::empty(),
        pending_texts(builder) == Seq::<Seq<char>>::empty(),
        text_count(builder) == 0,
        byte_count(builder) == 0,
{
    TextListBuilder {
        builder: arrow::array::ListBuilder::new(arrow::array::StringBuilder::new()),
    }
}

/// `arrow::array::StringBuilder::append_value`, on the values of a list builder: adds
/// a text for the row to come. It panics where the bytes of all texts no longer fit
/// an offset.
#[verifier::external_body]
fn append_value(builder: &mut TextListBuilder, text: &str)
    requires
        byte_count(*old(builder)) + encode_utf8(text@).len() <= i32::MAX,
    ensures
        built_rows(*final(builder)) == built_rows(*old(builder)),
        pending_texts(*final(builder)) == pending_texts(*old(builder)).push(text@),
        text_count(*final(builder)) == text_count(*old(builder)) + 1,
        byte_count(*final(builder)) == byte_count(*old(builder)) + encode_utf8(text@).len(),
{
    builder.builder.values().append_value(text)
}

/// `arrow::array::ListBuilder::append`: ends a row, with the texts that were added
/// for it, or without a list. It panics where the number of all texts does not fit an
/// offset.
#[verifier::external_body]
fn append_row(builder: &mut TextListBuilder, is_valid: bool)
    requires
        text_count(*old(builder)) <= i32::MAX,
    ensures
        built_rows(*final(builder)) == built_rows(*old(builder)).push(
            if is_valid {
                Some(pending_texts(*old(builder)))
            } else {
                None
            },
        ),
        pending_texts(*final(builder)) == Seq::<Seq<char>>::empty(),
        text_count(*final(builder)) == text_count(*old(builder)),
        byte_count(*final(builder)) == byte_count(*old(builder)),
{
    builder.builder.append(is_valid)
}

/// `arrow::array::ListBuilder::finish`: the column of the rows that were built.
#[verifier::external_body]
fn finish(builder: TextListBuilder) -> (column: TextListColumn)
    ensures
        column_rows(column) == built_rows(builder).map_values(
            |row: Option<Seq<Seq<char>>>| list_row(row),
        ),
{
    let mut builder = builder;
    TextListColumn { column: builder.builder.finish() }
}

/// `arrow::array::Array::len`: how many rows a column has.
#[verifier::external_body]
fn column_len(column: &TextListColumn) -> (count: usize)
    ensures
        count == column_rows(*column).len(),
{
    arrow::array::Array::len(&column.column)
}

/// `arrow::array::Array::is_null`: whether a row has no list. It panics on a row that
/// is not there.
#[verifier::external_body]
fn is_null(column: &TextListColumn, row: usize) -> (yes: bool)
    requires
        row < column_rows(*column).len(),
    ensures
        yes == (column_rows(*column)[row as int] is Absent),
{
    arrow::array::Array::is_null(&column.column, row)
}

/// `arrow::array::ListArray::value`, taken as an `arrow::array::StringArray`: how many
/// texts a row has, or none where its list holds something else.
#[verifier::external_body]
fn row_len(column: &TextListColumn, row: usize) -> (count: Option<usize>)
    requires
        row < column_rows(*column).len(),
        !(column_rows(*column)[row as int] is Absent),
    ensures
        count is Some == (column_rows(*column)[row as int] is Texts),
        count matches Some(n) ==> n == column_rows(*column)[row as int]->Texts_0.len(),
{
    let values = column.column.value(row);
    values.as_any().downcast_ref::<arrow::array::StringArray>().map(
        |texts| arrow::array::Array::len(texts),
    )
}

/// `arrow::array::StringArray::value`, on the list of a row: one of its texts. It
/// panics on a text that is not there.
#[verifier::external_body]
fn row_text(column: &TextListColumn, row: usize, i: usize) -> (text: String)
    requires
        row < column_rows(*column).len(),
        column_rows(*column)[row as int] matches ListRow::Texts(list) && i < list.len(),
    ensures
        text@ == column_rows(*column)[row as int]->Texts_0[i as int],
{
    let values = column.column.value(row);
    match values.as_any().downcast_ref::<arrow::array::StringArray>() {
        Some(texts) => texts.value(i).to_string(),
        None => String::new(),
    }
}

/// The row of a list that may be absent.
pub open spec fn list_row(list: Option<Seq<Seq<char>>>) -> ListRow {
    match list {
        Some(texts) => ListRow::Texts(texts),
        None => ListRow::Absent,
    }
}

/// What is read back from a row.
pub open spec fn read_row(row: ListRow) -> Option<Seq<Seq<char>>> {
    match row {
        ListRow::Texts(texts) => Some(texts),
        _ => None,
    }
}

/// How many bytes texts have together.
pub open spec fn bytes_of(list: Seq<Seq<char>>) -> nat
    decreases list.len(),
{
    if list.len() == 0 {
        0
    } else {
        bytes_of(list.drop_last()) + encode_utf8(list.last()).len()
    }
}

/// The contents of lists that may be absent.
pub open spec fn lists_or_none(rows: Seq<Option<Vec<String>>>) -> Seq<Option<Seq<Seq<char>>>> {
    rows.map_values(|row: Option<Vec<String>>| texts_or_none(row))
}

/// How many texts rows have together.
pub open spec fn texts_in(rows: Seq<Option<Seq<Seq<char>>>>) -> nat
    decreases rows.len(),
{
    if rows.len() == 0 {
        0
    } else {
        texts_in(rows.drop_last()) + match rows.last() {
            Some(list) => list.len(),
            None => 0,
        }
    }
}

/// How many bytes the texts of rows have together.
pub open spec fn bytes_in(rows: Seq<Option<Seq<Seq<char>>>>) -> nat
    decreases rows.len(),
{
    if rows.len() == 0 {
        0
    } else {
        bytes_in(rows.drop_last()) + match rows.last() {
            Some(list) => bytes_of(list),
            None => 0,
        }
    }
}

proof fn lemma_bytes_grow(list: Seq<Seq<char>>, n: int)
    requires
        0 <= n <= list.len(),
    ensures
        bytes_of(list.take(n)) <= bytes_of(list),
    decreases list.len() - n,
{
    if n < list.len() {
        lemma_bytes_grow(list, n + 1);
        assert(list.take(n + 1).drop_last() =~= list.take(n));
    } else {
        assert(list.take(n) =~= list);
    }
}

proof fn lemma_rows_grow(rows: Seq<Option<Seq<Seq<char>>>>, n: int)
    requires
        0 <= n <= rows.len(),
    ensures
        texts_in(rows.take(n)) <= texts_in(rows),
        bytes_in(rows.take(n)) <= bytes_in(rows),
    decreases rows.len() - n,
{
    if n < rows.len() {
        lemma_rows_grow(rows, n + 1);
        assert(rows.take(n + 1).drop_last() =~= rows.take(n));
    } else {
        assert(rows.take(n) =~= rows);
    }
}

/// Appends one row. Where `values` is absent the row has no list, which is not the
/// same as an empty one.
pub(crate) fn append_string_list(builder: &mut TextListBuilder, values: Option<&[String]>)
    requires
        pending_texts(*old(builder)) == Seq::<Seq<char>>::empty(),
        text_count(*old(builder)) <= i32::MAX,
        values matches Some(list) ==> text_count(*old(builder)) + list@.len() <= i32::MAX
            && byte_count(*old(builder)) + bytes_of(texts(list@)) <= i32::MAX,
    ensures
        built_rows(*final(builder)) == built_rows(*old(builder)).push(
            match values {
                Some(list) => Some(texts(list@)),
                None => None,
            },
        ),
        pending_texts(*final(builder)) == Seq::<Seq<char>>::empty(),
        text_count(*final(builder)) == text_count(*old(builder)) + match values {
            Some(list) => list@.len(),
            None => 0,
        },
        byte_count(*final(builder)) == byte_count(*old(builder)) + match values {
            Some(list) => bytes_of(texts(list@)),
            None => 0,
        },
{
    match values {
        Some(items) => {
            let ghost all = texts(items@);
            let ghost before = *builder;
            let mut i: usize = 0;
            assert(all.take(0) =~= seq![]);
            assert(pending_texts(*builder) =~= all.take(0));
            while i < items.len()
                invariant
                    i <= items@.len(),
                    all == texts(items@),
                    text_count(before) + all.len() <= i32::MAX,
                    byte_count(before) + bytes_of(all) <= i32::MAX,
                    built_rows(*builder) == built_rows(before),
                    pending_texts(*builder) == all.take(i as int),
                    text_count(*builder) == text_count(before) + i,
                    byte_count(*builder) == byte_count(before) + bytes_of(all.take(i as int)),
                decreases items@.len() - i,
            {
                proof {
                    lemma_bytes_grow(all, i + 1);
                    assert(all.take(i + 1).drop_last() =~= all.take(i as int));
                    assert(all.take(i + 1).last() == items@[i as int]@);
                }
                append_value(builder, items[i].as_str());
                assert(all.take(i + 1) =~= all.take(i as int).push(all[i as int]));
                i = i + 1;
            }
            assert(all.take(i as int) =~= all);
            append_row(builder, true);
        },
        None => {
            append_row(builder, false);
        },
    }
}

/// Reads one row back: an absent list as none, an empty one as an empty one, and a
/// list of something else as none.
pub fn read_string_list(column: &TextListColumn, row: usize) -> (list: Option<Vec<String>>)
    requires
        row < column_rows(*column).len(),
    ensures
        texts_or_none(list) == read_row(column_rows(*column)[row as int]),
{
    if is_null(column, row) {
        return None;
    }
    let count = match row_len(column, row) {
        Some(count) => count,
        None => {
            return None;
        },
    };
    let ghost all = column_rows(*column)[row as int]->Texts_0;
    let mut list: Vec<String> = Vec::new();
    let mut i: usize = 0;
    while i < count
        invariant
            i <= count,
            row < column_rows(*column).len(),
            column_rows(*column)[row as int] == ListRow::Texts(all),
            count == all.len(),
            texts(list@) == all.take(i as int),
        decreases count - i,
    {
        let ghost before = texts(list@);
        list.push(row_text(column, row, i));
        assert(texts(list@) =~= before.push(all[i as int]));
        assert(all.take(i + 1) =~= before.push(all[i as int]));
        i = i + 1;
    }
    assert(all.take(i as int) =~= all);
    Some(list)
}

/// Reads all rows back.
pub fn read_string_lists(column: &TextListColumn) -> (rows: Vec<Option<Vec<String>>>)
    ensures
        lists_or_none(rows@) == column_rows(*column).map_values(|row: ListRow| read_row(row)),
{
    let ghost all = column_rows(*column).map_values(|row: ListRow| read_row(row));
    let mut rows: Vec<Option<Vec<String>>> = Vec::new();
    let count = column_len(column);
    let mut i: usize = 0;
    while i < count
        invariant
            i <= count,
            count == column_rows(*column).len(),
            all == column_rows(*column).map_values(|row: ListRow| read_row(row)),
            lists_or_none(rows@) == all.take(i as int),
        decreases count - i,
    {
        let ghost before = lists_or_none(rows@);
        rows.push(read_string_list(column, i));
        assert(lists_or_none(rows@) =~= before.push(all[i as int]));
        assert(all.take(i + 1) =~= before.push(all[i as int]));
        i = i + 1;
    }
    assert(all.take(i as int) =~= all);
    rows
}

/// The column of lists that may be absent. What is read back from it is what went
/// in.
pub fn write_string_lists(rows: &Vec<Option<Vec<String>>>) -> (column: TextListColumn)
    requires
        texts_in(lists_or_none(rows@)) <= i32::MAX,
        bytes_in(lists_or_none(rows@)) <= i32::MAX,
    ensures
        column_rows(column) == lists_or_none(rows@).map_values(
            |row: Option<Seq<Seq<char>>>| list_row(row),
        ),
        column_rows(column).map_values(|row: ListRow| read_row(row)) == lists_or_none(rows@),
{
    let ghost all = lists_or_none(rows@);
    let mut builder = new_builder();
    let mut i: usize = 0;
    assert(all.take(0) =~= seq![]);
    while i < rows.len()
        invariant
            i <= rows@.len(),
            all == lists_or_none(rows@),
            texts_in(all) <= i32::MAX,
            bytes_in(all) <= i32::MAX,
            built_rows(builder) == all.take(i as int),
            pending_texts(builder) == Seq::<Seq<char>>::empty(),
            text_count(builder) == texts_in(all.take(i as int)),
            byte_count(builder) == bytes_in(all.take(i as int)),
        decreases rows@.len() - i,
    {
        proof {
            lemma_rows_grow(all, i as int);
            lemma_rows_grow(all, i + 1);
            assert(all.take(i + 1).drop_last() =~= all.take(i as int));
            assert(all.take(i + 1).last() == texts_or_none(rows@[i as int]));
            assert(all.take(i + 1) =~= all.take(i as int).push(all[i as int]));
        }
        match &rows[i] {
            Some(list) => {
                assert(texts(list@).len() == list@.len());
                append_string_list(&mut builder, Some(list.as_slice()));
            },
            None => {
                append_string_list(&mut builder, None);
            },
        }
        i = i + 1;
    }
    assert(all.take(i as int) =~= all);
    let column = finish(builder);
    assert(column_rows(column).map_values(|row: ListRow| read_row(row)) =~= all);
    column
}

/// What is read from a row is what was written into it: a list as that list, an empty one as an
/// empty one, none as none. From a row that holds no texts nothing is read.
pub proof fn law_rows_read_back(list: Option<Seq<Seq<char>>>, row: ListRow)
    ensures
        read_row(list_row(list)) == list,
        list_row(list) is Absent <==> list is None,
        read_row(row) is Some <==> row is Texts,
        row matches ListRow::Texts(texts) ==> list_row(read_row(row)) == row,
{
}

} // verus!
