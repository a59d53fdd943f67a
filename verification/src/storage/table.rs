use vstd::prelude::*;
use little_collections::heap_array::HeapArray;
use crate::collections::{column_count, column_items, column_kind, row_item, row_items, row_len};
use crate::protocol::errors::{AddRowError, GetRowError, RemoveRowError, SetRowError};
use crate::protocol::types::{same_kind, Data};
use crate::storage::backend::Backend;

verus! {

/// Whether each cell of `row` has the type of the column in its place, as far as
/// both reach: cells past the last column, and columns past the last cell, are not checked.
pub open spec fn columns_fit(columns: Seq<(String, Data)>, row: Seq<Data>) -> bool {
    forall|j: int| 0 <= j < columns.len() && 0 <= j < row.len() ==> same_kind(columns[j].1, #[trigger] row[j])
}

/// What reading row `i` of `rows` answers.
pub open spec fn get_row_outcome(rows: Seq<Seq<Data>>, i: usize, result: Result<HeapArray<Data>, GetRowError>) -> bool {
    match result {
        Ok(row) => i < rows.len() && row_items(row) == rows[i as int],
        Err(e) => i >= rows.len() && e == GetRowError::NotFound,
    }
}

/// What replacing row `i` of `before` by `row` answers, with the rows after.
pub open spec fn set_row_outcome(
    columns: Seq<(String, Data)>,
    before: Seq<Seq<Data>>,
    after: Seq<Seq<Data>>,
    i: usize,
    row: Seq<Data>,
    result: Result<(), SetRowError>,
) -> bool {
    match result {
        Ok(_) => columns_fit(columns, row) && i < before.len() && after == before.update(i as int, row),
        Err(SetRowError::InappropriateRows) => !columns_fit(columns, row) && after == before,
        Err(SetRowError::NotFound) => columns_fit(columns, row) && i >= before.len() && after == before,
        Err(SetRowError::NoPermission) => false,
    }
}

/// What adding `row` in front of `before` answers, with the rows after.
pub open spec fn add_row_outcome(
    columns: Seq<(String, Data)>,
    full: bool,
    before: Seq<Seq<Data>>,
    after: Seq<Seq<Data>>,
    row: Seq<Data>,
    result: Result<(), AddRowError>,
) -> bool {
    match result {
        Ok(_) => columns_fit(columns, row) && !full && after == seq![row] + before,
        Err(AddRowError::InappropriateRows) => !columns_fit(columns, row) && after == before,
        Err(AddRowError::Overflow) => columns_fit(columns, row) && full && after == before,
        Err(AddRowError::NoPermission) => false,
    }
}

/// What taking row `i` out of `before` answers, with the rows after.
pub open spec fn remove_row_outcome(
    before: Seq<Seq<Data>>,
    after: Seq<Seq<Data>>,
    i: usize,
    result: Result<HeapArray<Data>, RemoveRowError>,
) -> bool {
    match result {
        Ok(row) => i < before.len() && row_items(row) == before[i as int] && after == before.remove(i as int),
        Err(e) => i >= before.len() && e == RemoveRowError::NotFound && after == before,
    }
}

/// Whether each cell of `row` has the type of the column in its place, as far as both reach.
fn row_fits(columns: &HeapArray<(String, Data)>, row: &HeapArray<Data>) -> (fits: bool)
    ensures
        fits == columns_fit(column_items(*columns), row_items(*row)),
{
    let nc = column_count(columns);
    let nr = row_len(row);
    let n = if nc < nr {
        nc
    } else {
        nr
    };
    let mut j: usize = 0;
    while j < n
        invariant
            0 <= j <= n,
            n <= column_items(*columns).len(),
            n <= row_items(*row).len(),
            n == column_items(*columns).len() || n == row_items(*row).len(),
            forall|k: int|
                0 <= k < j ==> same_kind(column_items(*columns)[k].1, #[trigger] row_items(*row)[k]),
        decreases n - j,
    {
        let kind = column_kind(columns, j);
        let cell = row_item(row, j);
        if !kind.compare(&cell) {
            return false;
        }
        j = j + 1;
    }
    true
}

/// A named table with typed columns, whose rows a backend keeps.
pub struct Table<B: Backend> {
    pub name: String,
    pub id: u64,
    columns: HeapArray<(String, Data)>,
    backend: B,
}

impl<B: Backend> Table<B> {
    /// The table's name.
    pub closed spec fn table_name(&self) -> String {
        self.name
    }

    /// The table's id.
    pub closed spec fn table_id(&self) -> u64 {
        self.id
    }

    /// The table's columns: each a name and a cell of the column's type.
    pub closed spec fn column_list(&self) -> Seq<(String, Data)> {
        column_items(self.columns)
    }

    /// The rows of the table, in order.
    pub closed spec fn rows(&self) -> Seq<Seq<Data>> {
        self.backend.stored_rows()
    }

    /// Whether the backend would refuse another row.
    pub closed spec fn is_full(&self) -> bool {
        self.backend.is_full()
    }

    /// The number of rows at which the backend refuses another.
    pub closed spec fn row_limit(&self) -> nat {
        self.backend.row_limit()
    }

    /// In every state, the table is full exactly when it holds at least `row_limit()` rows.
    pub proof fn lemma_full_at_limit(&self)
        ensures
            self.is_full() == (self.rows().len() >= self.row_limit()),
    {
        self.backend.lemma_full_at_limit();
    }

    pub fn new(name: String, id: u64, columns: HeapArray<(String, Data)>, backend: B) -> (table: Self)
        ensures
            table.table_name() == name,
            table.table_id() == id,
            table.column_list() == column_items(columns),
            table.rows() == backend.stored_rows(),
            table.is_full() == backend.is_full(),
            table.row_limit() == backend.row_limit(),
    {
        Self { name, id, columns, backend }
    }

    /// A copy of row `i`.
    pub fn get_row(&self, i: usize) -> (result: Result<HeapArray<Data>, GetRowError>)
        ensures
            get_row_outcome(self.rows(), i, result),
    {
        if let Ok(row) = self.backend.get_row(i) {
            Ok(row)
        } else {
            Err(GetRowError::NotFound)
        }
    }

    /// Replaces row `i` by `row`, when its cells fit the columns.
    pub fn set_row(&mut self, i: usize, row: HeapArray<Data>) -> (result: Result<(), SetRowError>)
        ensures
            final(self).table_name() == old(self).table_name(),
            final(self).table_id() == old(self).table_id(),
            final(self).column_list() == old(self).column_list(),
            final(self).is_full() == old(self).is_full(),
            final(self).row_limit() == old(self).row_limit(),
            set_row_outcome(old(self).column_list(), old(self).rows(), final(self).rows(), i, row_items(row), result),
    {
        if row_fits(&self.columns, &row) {
            if let Ok(_) = self.backend.set_row(i, row) {
                Ok(())
            } else {
                Err(SetRowError::NotFound)
            }
        } else {
            Err(SetRowError::InappropriateRows)
        }
    }

    /// Puts `row` in front of the others, when its cells fit the columns and the backend takes it.
    pub fn add_row(&mut self, row: HeapArray<Data>) -> (result: Result<(), AddRowError>)
        ensures
            final(self).table_name() == old(self).table_name(),
            final(self).table_id() == old(self).table_id(),
            final(self).column_list() == old(self).column_list(),
            result is Err ==> final(self).is_full() == old(self).is_full(),
            final(self).row_limit() == old(self).row_limit(),
            result is Ok ==> final(self).is_full() == (final(self).rows().len() >= final(self).row_limit()),
            add_row_outcome(old(self).column_list(), old(self).is_full(), old(self).rows(), final(self).rows(), row_items(row), result),
    {
        if row_fits(&self.columns, &row) {
            if let Ok(_) = self.backend.add_row(row) {
                Ok(())
            } else {
                Err(AddRowError::Overflow)
            }
        } else {
            Err(AddRowError::InappropriateRows)
        }
    }

    /// Takes row `i` out, closing the gap.
    pub fn remove_row(&mut self, i: usize) -> (result: Result<HeapArray<Data>, RemoveRowError>)
        ensures
            final(self).table_name() == old(self).table_name(),
            final(self).table_id() == old(self).table_id(),
            final(self).column_list() == old(self).column_list(),
            result is Err ==> final(self).is_full() == old(self).is_full(),
            final(self).row_limit() == old(self).row_limit(),
            result is Ok ==> final(self).is_full() == (final(self).rows().len() >= final(self).row_limit()),
            remove_row_outcome(old(self).rows(), final(self).rows(), i, result),
    {
        if let Ok(row) = self.backend.remove_row(i) {
            Ok(row)
        } else {
            Err(RemoveRowError::NotFound)
        }
    }
}

/// A row written with `set_row` is what `get_row` reads back at its place; at any
/// other place `get_row` reads what it read before.
pub proof fn lemma_read_after_set(
    columns: Seq<(String, Data)>,
    before: Seq<Seq<Data>>,
    after: Seq<Seq<Data>>,
    i: usize,
    row: Seq<Data>,
    j: usize,
    read: Result<HeapArray<Data>, GetRowError>,
)
    requires
        set_row_outcome(columns, before, after, i, row, Ok(())),
        get_row_outcome(after, j, read),
    ensures
        j == i ==> (read matches Ok(r) && row_items(r) == row),
        j != i ==> get_row_outcome(before, j, read),
{
}

/// A row added with `add_row` is read back at place `0`, and each row that was at
/// place `j` is read back at place `j + 1`.
pub proof fn lemma_read_after_add(
    columns: Seq<(String, Data)>,
    full: bool,
    before: Seq<Seq<Data>>,
    after: Seq<Seq<Data>>,
    row: Seq<Data>,
    j: usize,
    read: Result<HeapArray<Data>, GetRowError>,
)
    requires
        add_row_outcome(columns, full, before, after, row, Ok(())),
        get_row_outcome(after, j, read),
    ensures
        j == 0 ==> (read matches Ok(r) && row_items(r) == row),
        j > 0 ==> (read is Ok <==> j - 1 < before.len()),
        j > 0 && read is Ok ==> row_items(read->Ok_0) == before[j - 1],
{
}

/// After `remove_row` takes out place `i`, the rows before it are read where they
/// were, and each row after it is read one place earlier.
pub proof fn lemma_read_after_remove(
    before: Seq<Seq<Data>>,
    after: Seq<Seq<Data>>,
    i: usize,
    removed: Result<HeapArray<Data>, RemoveRowError>,
    j: usize,
    read: Result<HeapArray<Data>, GetRowError>,
)
    requires
        removed is Ok,
        remove_row_outcome(before, after, i, removed),
        get_row_outcome(after, j, read),
    ensures
        after.len() == before.len() - 1,
        read is Ok ==> (j < i ==> row_items(read->Ok_0) == before[j as int]),
        read is Ok ==> (j >= i ==> row_items(read->Ok_0) == before[j + 1]),
{
}

/// A refused write leaves the rows as they were: a row whose cells do not fit the
/// columns is refused as inappropriate, and a fitting row is refused by a full
/// table as an overflow.
pub proof fn lemma_refused_writes_keep_rows(
    columns: Seq<(String, Data)>,
    full: bool,
    before: Seq<Seq<Data>>,
    after: Seq<Seq<Data>>,
    row: Seq<Data>,
    result: Result<(), AddRowError>,
)
    requires
        add_row_outcome(columns, full, before, after, row, result),
    ensures
        !columns_fit(columns, row) ==> result == Err::<(), AddRowError>(AddRowError::InappropriateRows),
        columns_fit(columns, row) && full ==> result == Err::<(), AddRowError>(AddRowError::Overflow),
        columns_fit(columns, row) && !full ==> result is Ok,
        result is Err ==> after == before,
{
}

/// Removing place `0` right after adding a row gives that row back and leaves the
/// rows as they were before the addition.
pub proof fn lemma_remove_undoes_add(
    columns: Seq<(String, Data)>,
    full: bool,
    before: Seq<Seq<Data>>,
    middle: Seq<Seq<Data>>,
    after: Seq<Seq<Data>>,
    row: Seq<Data>,
    removed: Result<HeapArray<Data>, RemoveRowError>,
)
    requires
        add_row_outcome(columns, full, before, middle, row, Ok(())),
        remove_row_outcome(middle, after, 0, removed),
    ensures
        removed is Ok,
        row_items(removed->Ok_0) == row,
        after == before,
{
    assert(middle.remove(0) =~= before);
}

} // verus!
