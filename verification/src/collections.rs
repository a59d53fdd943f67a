use vstd::prelude::*;
use little_collections::fn_set::FnSet;
use little_collections::heap_array::HeapArray;
use crate::access::{Role, User};
use crate::protocol::types::Data;

verus! {

#[verifier::external_type_specification]
#[verifier::external_body]
#[verifier::reject_recursive_types(T)]
pub struct ExHeapArray<T>(HeapArray<T>);

#[verifier::external_type_specification]
#[verifier::external_body]
#[verifier::reject_recursive_types(V)]
pub struct ExFnSet<V>(FnSet<V>);

/// The cells that a row holds, in order.
pub uninterp spec fn row_items(row: HeapArray<Data>) -> Seq<Data>;

/// The named columns that a column list holds, in order.
pub uninterp spec fn column_items(columns: HeapArray<(String, Data)>) -> Seq<(String, Data)>;

/// Trusted: `HeapArray::new`. Its source writes `value` into each of `len` fresh
/// slots. The contract leaves out the lengths for which `Layout::array` refuses the
/// allocation, where it panics; it does not say what happens when the allocator
/// itself returns no memory, which the source does not check.
#[verifier::external_body]
pub(crate) fn new_row(value: Data, len: usize) -> (row: HeapArray<Data>)
    requires
        len as int * vstd::layout::size_of::<Data>() <= isize::MAX as int,
    ensures
        row_items(row) == Seq::new(len as nat, |_i: int| value),
{
    HeapArray::new(value, len)
}

/// Trusted: `HeapArray::len`, the number of slots. Every way of making a
/// `HeapArray` of a type that is not zero-sized with slots (`new`, `from_slice`,
/// `clone`, `from_iter`) unwraps `Layout::array` for that many slots, so an existing
/// row's slots never take more than `isize::MAX` bytes.
#[verifier::external_body]
pub(crate) fn row_len(row: &HeapArray<Data>) -> (len: usize)
    ensures
        len == row_items(*row).len(),
        len as int * vstd::layout::size_of::<Data>() <= isize::MAX as int,
{
    row.len()
}

/// Trusted: indexing a `HeapArray`, which hands out the cell at `i` (it panics past the end).
#[verifier::external_body]
pub(crate) fn row_item(row: &HeapArray<Data>, i: usize) -> (cell: Data)
    requires
        i < row_items(*row).len(),
    ensures
        cell == row_items(*row)[i as int],
{
    row[i]
}

/// Trusted: assigning through `IndexMut` of a `HeapArray`, which replaces the cell at
/// `i` and leaves the others (it panics past the end).
#[verifier::external_body]
pub(crate) fn set_row_item(row: &mut HeapArray<Data>, i: usize, cell: Data)
    requires
        i < row_items(*old(row)).len(),
    ensures
        row_items(*final(row)) == row_items(*old(row)).update(i as int, cell),
{
    row[i] = cell;
}

/// Trusted: `HeapArray::clone`, which clones each cell into a fresh array of the
/// same length; cloning a `Data`, which is `Copy`, copies it.
#[verifier::external_body]
pub(crate) fn clone_row(row: &HeapArray<Data>) -> (copy: HeapArray<Data>)
    ensures
        row_items(copy) == row_items(*row),
{
    row.clone()
}

/// Trusted: `HeapArray::len` on a column list.
#[verifier::external_body]
pub(crate) fn column_count(columns: &HeapArray<(String, Data)>) -> (len: usize)
    ensures
        len == column_items(*columns).len(),
{
    columns.len()
}

/// Trusted: indexing a column list; gives the type cell of column `i` (it panics past the end).
#[verifier::external_body]
pub(crate) fn column_kind(columns: &HeapArray<(String, Data)>, i: usize) -> (kind: Data)
    requires
        i < column_items(*columns).len(),
    ensures
        kind == column_items(*columns)[i as int].1,
{
    columns[i].1
}


/// The users that a set holds, by the index that it stores with each.
pub uninterp spec fn user_entries(set: FnSet<User>) -> Map<usize, User>;

/// Whether a set files each user under its id: the index function it was made with.
pub uninterp spec fn users_keyed_by_id(set: FnSet<User>) -> bool;

/// The index under which a user is filed: its id.
pub fn user_key(item: &User) -> (index: usize)
    ensures
        index == item.id as usize,
{
    item.id as usize
}

/// Trusted: `FnSet::new` with `user_key` as index function. Its source starts with no buckets.
#[verifier::external_body]
pub(crate) fn new_user_set() -> (set: FnSet<User>)
    ensures
        user_entries(set).dom() == Set::<usize>::empty(),
        users_keyed_by_id(set),
{
    FnSet::new(user_key)
}

/// Trusted: `FnSet::insert`. Its source stores the value under the index that the
/// set's index function gives, in place of any value stored under that index, and
/// moves the other values to larger bucket vectors until the new index has a bucket
/// of its own, so that no other value is lost. Not stated: the memory that those
/// larger vectors take, which grows with the number of low-order bits that the new
/// index shares with one already there.
#[verifier::external_body]
pub(crate) fn insert_user(set: &mut FnSet<User>, item: User)
    requires
        users_keyed_by_id(*old(set)),
    ensures
        users_keyed_by_id(*final(set)),
        user_entries(*final(set)) == user_entries(*old(set)).insert(item.id as usize, item),
{
    set.insert(item);
}

/// Trusted: `FnSet::get`. Its source looks in the bucket that `index` falls in and
/// gives the value there only when it was stored under `index`.
#[verifier::external_body]
pub(crate) fn get_user(set: &FnSet<User>, index: usize) -> (found: Option<&User>)
    ensures
        match found {
            Some(v) => user_entries(*set).contains_key(index) && *v == user_entries(*set)[index],
            None => !user_entries(*set).contains_key(index),
        },
{
    set.get(index)
}

/// The roles that a set holds, by the index that it stores with each.
pub uninterp spec fn role_entries(set: FnSet<Role>) -> Map<usize, Role>;

/// Whether a set files each role under its id: the index function it was made with.
pub uninterp spec fn roles_keyed_by_id(set: FnSet<Role>) -> bool;

/// The index under which a role is filed: its id.
pub fn role_key(item: &Role) -> (index: usize)
    ensures
        index == item.id as usize,
{
    item.id as usize
}

/// Trusted: `FnSet::new` with `role_key` as index function. Its source starts with no buckets.
#[verifier::external_body]
pub(crate) fn new_role_set() -> (set: FnSet<Role>)
    ensures
        role_entries(set).dom() == Set::<usize>::empty(),
        roles_keyed_by_id(set),
{
    FnSet::new(role_key)
}

/// Trusted: `FnSet::insert`. Its source stores the value under the index that the
/// set's index function gives, in place of any value stored under that index, and
/// moves the other values to larger bucket vectors until the new index has a bucket
/// of its own, so that no other value is lost. Not stated: the memory that those
/// larger vectors take, which grows with the number of low-order bits that the new
/// index shares with one already there.
#[verifier::external_body]
pub(crate) fn insert_role(set: &mut FnSet<Role>, item: Role)
    requires
        roles_keyed_by_id(*old(set)),
    ensures
        roles_keyed_by_id(*final(set)),
        role_entries(*final(set)) == role_entries(*old(set)).insert(item.id as usize, item),
{
    set.insert(item);
}

/// Trusted: `FnSet::get`. Its source looks in the bucket that `index` falls in and
/// gives the value there only when it was stored under `index`.
#[verifier::external_body]
pub(crate) fn get_role(set: &FnSet<Role>, index: usize) -> (found: Option<&Role>)
    ensures
        match found {
            Some(v) => role_entries(*set).contains_key(index) && *v == role_entries(*set)[index],
            None => !role_entries(*set).contains_key(index),
        },
{
    set.get(index)
}

/// The table ids that a set holds, by the index that it stores with each.
pub uninterp spec fn table_entries(set: FnSet<u64>) -> Map<usize, u64>;

/// Whether a set files each table id under the id itself: the index function it was made with.
pub uninterp spec fn tables_keyed_by_value(set: FnSet<u64>) -> bool;

/// The index under which a table id is filed: the id itself.
pub fn table_key(item: &u64) -> (index: usize)
    ensures
        index == *item as usize,
{
    *item as usize
}

/// Trusted: `FnSet::new` with `table_key` as index function. Its source starts with no buckets.
#[verifier::external_body]
pub(crate) fn new_table_set() -> (set: FnSet<u64>)
    ensures
        table_entries(set).dom() == Set::<usize>::empty(),
        tables_keyed_by_value(set),
{
    FnSet::new(table_key)
}

/// Trusted: `FnSet::insert`. Its source stores the value under the index that the
/// set's index function gives, in place of any value stored under that index, and
/// moves the other values to larger bucket vectors until the new index has a bucket
/// of its own, so that no other value is lost. Not stated: the memory that those
/// larger vectors take, which grows with the number of low-order bits that the new
/// index shares with one already there.
#[verifier::external_body]
pub(crate) fn insert_table(set: &mut FnSet<u64>, item: u64)
    requires
        tables_keyed_by_value(*old(set)),
    ensures
        tables_keyed_by_value(*final(set)),
        table_entries(*final(set)) == table_entries(*old(set)).insert(item as usize, item),
{
    set.insert(item);
}

/// Trusted: `FnSet::get`. Its source looks in the bucket that `index` falls in and
/// gives the value there only when it was stored under `index`.
#[verifier::external_body]
pub(crate) fn get_table(set: &FnSet<u64>, index: usize) -> (found: Option<&u64>)
    ensures
        match found {
            Some(v) => table_entries(*set).contains_key(index) && *v == table_entries(*set)[index],
            None => !table_entries(*set).contains_key(index),
        },
{
    set.get(index)
}

} // verus!
