use vstd::prelude::*;
use std::collections::VecDeque;
use std::path::PathBuf;
use little_collections::heap_array::HeapArray;
use crate::collections::{clone_row, row_items};
use crate::protocol::types::Data;
use crate::storage::table::Table;

verus! {

#[verifier::external_type_specification]
#[verifier::external_body]
pub struct ExPathBuf(PathBuf);

/// What reading row `i` of `rows` gives: the row when there is one, else an error.
pub open spec fn read_outcome(rows: Seq<Seq<Data>>, i: usize, result: Result<HeapArray<Data>, ()>) -> bool {
    match result {
        Ok(row) => i < rows.len() && row_items(row) == rows[i as int],
        Err(_) => i >= rows.len(),
    }
}

/// Where a table keeps its rows.
pub trait Backend: Sized + Send + Sync + 'static {
    /// The rows held, in order.
    spec fn stored_rows(&self) -> Seq<Seq<Data>>;

    /// Whether another row would be refused.
    spec fn is_full(&self) -> bool;

    /// The number of rows at which the backend refuses another.
    spec fn row_limit(&self) -> nat;

    /// In every state, the backend is full exactly when it holds at least `row_limit()` rows.
    proof fn lemma_full_at_limit(&self)
        ensures
            self.is_full() == (self.stored_rows().len() >= self.row_limit()),
    ;

    /// Writes the table out where the backend keeps it.
    fn force_save(&self, table: &Table<Self>) -> (saved: Result<(), ()>);

    /// A copy of row `i`, or an error when there is none.
    fn get_row(&self, i: usize) -> (row: Result<HeapArray<Data>, ()>)
        ensures
            read_outcome(self.stored_rows(), i, row),
    ;

    /// Replaces row `i`, or fails when there is none.
    fn set_row(&mut self, i: usize, row: HeapArray<Data>) -> (result: Result<(), ()>)
        ensures
            final(self).is_full() == old(self).is_full(),
            final(self).row_limit() == old(self).row_limit(),
            match result {
                Ok(_) => i < old(self).stored_rows().len() && final(self).stored_rows()
                    == old(self).stored_rows().update(i as int, row_items(row)),
                Err(_) => i >= old(self).stored_rows().len() && final(self).stored_rows()
                    == old(self).stored_rows(),
            },
    ;

    /// Puts a row in front of the others, or fails when the backend is full.
    fn add_row(&mut self, row: HeapArray<Data>) -> (result: Result<(), ()>)
        ensures
            final(self).row_limit() == old(self).row_limit(),
            match result {
                Ok(_) => !old(self).is_full() && final(self).stored_rows() == seq![row_items(row)]
                    + old(self).stored_rows() && final(self).is_full() == (final(self).stored_rows().len()
                    >= final(self).row_limit()),
                Err(_) => old(self).is_full() && final(self).stored_rows() == old(self).stored_rows()
                    && final(self).is_full(),
            },
    ;

    /// Takes row `i` out, closing the gap, or fails when there is none.
    fn remove_row(&mut self, i: usize) -> (result: Result<HeapArray<Data>, ()>)
        ensures
            final(self).row_limit() == old(self).row_limit(),
            match result {
                Ok(row) => i < old(self).stored_rows().len() && row_items(row) == old(self).stored_rows()[i as int]
                    && final(self).stored_rows() == old(self).stored_rows().remove(i as int) && final(self).is_full() == (final(self).stored_rows().len() >= final(self).row_limit()),
                Err(_) => i >= old(self).stored_rows().len() && final(self).stored_rows()
                    == old(self).stored_rows() && final(self).is_full() == old(self).is_full(),
            },
    ;
}

/// A backend that keeps rows in memory, up to a maximum number of rows.
pub struct MemoryBackend {
    rows: VecDeque<HeapArray<Data>>,
    max_rows_count: usize,
    emergency_rows_extension: usize,
}

impl MemoryBackend {
    #[verifier::type_invariant]
    spec fn within_capacity(&self) -> bool {
        self.rows@.len() <= self.max_rows_count
    }

    /// The most rows that the backend takes.
    pub closed spec fn max_rows(&self) -> usize {
        self.max_rows_count
    }

    /// The extra rows that the backend was given for emergencies (not used yet).
    pub closed spec fn spare_rows(&self) -> usize {
        self.emergency_rows_extension
    }

    pub fn new(max_rows_count: usize, emergency_rows_extension: usize) -> (backend: Self)
        ensures
            backend.stored_rows() == Seq::<Seq<Data>>::empty(),
            backend.max_rows() == max_rows_count,
            backend.spare_rows() == emergency_rows_extension,
            backend.is_full() == (max_rows_count == 0),
            backend.row_limit() == max_rows_count,
    {
        let backend = Self { rows: VecDeque::new(), max_rows_count, emergency_rows_extension };
        proof {
            assert(backend.stored_rows() =~= Seq::<Seq<Data>>::empty());
        }
        backend
    }

    /// Moves the rows out, leaving none in their place.
    fn take_rows(&mut self) -> (rows: VecDeque<HeapArray<Data>>)
        ensures
            rows@ == old(self).rows@,
            final(self).rows@.len() == 0,
            final(self).max_rows_count == old(self).max_rows_count,
            final(self).emergency_rows_extension == old(self).emergency_rows_extension,
    {
        let mut rows = VecDeque::new();
        std::mem::swap(&mut rows, &mut self.rows);
        rows
    }

    /// The number of rows held: never more than the maximum, and the backend is
    /// full exactly when it holds the maximum.
    pub fn row_count(&self) -> (count: usize)
        ensures
            count == self.stored_rows().len(),
            count <= self.max_rows(),
            self.is_full() == (count == self.max_rows()),
    {
        proof {
            use_type_invariant(self);
        }
        self.rows.len()
    }
}

impl Backend for MemoryBackend {
    closed spec fn stored_rows(&self) -> Seq<Seq<Data>> {
        self.rows@.map_values(|r: HeapArray<Data>| row_items(r))
    }

    closed spec fn is_full(&self) -> bool {
        self.rows@.len() >= self.max_rows_count
    }

    closed spec fn row_limit(&self) -> nat {
        self.max_rows_count as nat
    }

    proof fn lemma_full_at_limit(&self) {
    }

    /// Nothing to write: the rows live in memory only.
    fn force_save(&self, table: &Table<Self>) -> (saved: Result<(), ()>)
        ensures
            saved is Ok,
    {
        Ok(())
    }

    fn get_row(&self, i: usize) -> (row: Result<HeapArray<Data>, ()>) {
        if i < self.rows.len() {
            Ok(clone_row(&self.rows[i]))
        } else {
            Err(())
        }
    }

    fn set_row(&mut self, i: usize, row: HeapArray<Data>) -> (result: Result<(), ()>)
        ensures
            final(self).max_rows() == old(self).max_rows(),
            final(self).spare_rows() == old(self).spare_rows(),
    {
        proof {
            use_type_invariant(&*self);
        }
        if self.rows.len() > i {
            let mut rows = self.take_rows();
            let _replaced = rows.remove(i);
            rows.insert(i, row);
            proof {
                assert(rows@ =~= old(self).rows@.update(i as int, row));
            }
            self.rows = rows;
            proof {
                assert(self.stored_rows() =~= old(self).stored_rows().update(i as int, row_items(row)));
            }
            Ok(())
        } else {
            Err(())
        }
    }

    fn add_row(&mut self, row: HeapArray<Data>) -> (result: Result<(), ()>)
        ensures
            final(self).max_rows() == old(self).max_rows(),
            final(self).spare_rows() == old(self).spare_rows(),
    {
        proof {
            use_type_invariant(&*self);
        }
        if self.rows.len() == self.max_rows_count {
            Err(())
        } else {
            let mut rows = self.take_rows();
            rows.push_front(row);
            self.rows = rows;
            proof {
                assert(self.stored_rows() =~= seq![row_items(row)] + old(self).stored_rows());
            }
            Ok(())
        }
    }

    fn remove_row(&mut self, i: usize) -> (result: Result<HeapArray<Data>, ()>)
        ensures
            final(self).max_rows() == old(self).max_rows(),
            final(self).spare_rows() == old(self).spare_rows(),
    {
        proof {
            use_type_invariant(&*self);
        }
        let mut rows = self.take_rows();
        let removed = rows.remove(i);
        self.rows = rows;
        if let Some(row) = removed {
            proof {
                assert(self.stored_rows() =~= old(self).stored_rows().remove(i as int));
            }
            Ok(row)
        } else {
            proof {
                assert(self.stored_rows() =~= old(self).stored_rows());
            }
            Err(())
        }
    }
}

/// A backend that is to keep some rows in memory and the rest on disk (not written yet).
pub struct CombinedBackend {
    rows: VecDeque<HeapArray<Data>>,
    max_rows_count: usize,
    emergency_rows_extension: usize,
    path: PathBuf,
}

impl CombinedBackend {
    /// The rows held in memory, in order.
    pub closed spec fn stored_rows(&self) -> Seq<Seq<Data>> {
        self.rows@.map_values(|r: HeapArray<Data>| row_items(r))
    }

    /// The most rows that the backend keeps in memory.
    pub closed spec fn max_rows(&self) -> usize {
        self.max_rows_count
    }

    /// The extra rows that the backend was given for emergencies.
    pub closed spec fn spare_rows(&self) -> usize {
        self.emergency_rows_extension
    }

    /// The directory that the backend writes to.
    pub closed spec fn directory(&self) -> PathBuf {
        self.path
    }

    pub fn new(max_rows_count: usize, emergency_rows_extension: usize, path: PathBuf) -> (backend: Self)
        ensures
            backend.stored_rows() == Seq::<Seq<Data>>::empty(),
            backend.max_rows() == max_rows_count,
            backend.spare_rows() == emergency_rows_extension,
            backend.directory() == path,
    {
        let backend = Self { rows: VecDeque::new(), max_rows_count, emergency_rows_extension, path };
        proof {
            assert(backend.stored_rows() =~= Seq::<Seq<Data>>::empty());
        }
        backend
    }
}

/// Whether each of the first `k` steps of `parts` goes up by exactly one.
pub open spec fn steps_of_one(parts: Seq<usize>, k: int) -> bool {
    forall|j: int| 0 <= j < k ==> #[trigger] parts[j + 1] == parts[j] + 1
}

/// Whether the step after position `k` is the first that does not go up by exactly one.
pub open spec fn is_first_gap(parts: Seq<usize>, k: int) -> bool {
    &&& 0 <= k < parts.len() - 1
    &&& steps_of_one(parts, k)
    &&& parts[k + 1] != parts[k] + 1
}

/// Whether `get_next_part_number` returns on `parts` rather than panicking: the
/// last number must leave room for one more, and when the numbers are not exactly
/// `0..len` and there are several, a first gap must exist, going up, with room above it.
pub open spec fn next_part_defined(parts: Seq<usize>) -> bool {
    parts.len() == 0 || {
        &&& parts.last() < usize::MAX
        &&& (parts.last() + 1 == parts.len() || parts.len() == 1 || exists|k: int|
            #[trigger] is_first_gap(parts, k) && parts[k] <= parts[k + 1] && parts[k] < usize::MAX)
    }
}

/// The number for a new part file, given the numbers of the existing ones in
/// ascending order: `0` when there are none, the count when they are exactly
/// `0..count`, `0` when there is a single one that is not `0`, and otherwise the
/// number just after the first gap.
pub fn get_next_part_number(existing_parts: Vec<usize>) -> (next: usize)
    requires
        next_part_defined(existing_parts@),
    ensures
        existing_parts@.len() == 0 ==> next == 0,
        existing_parts@.len() > 0 && existing_parts@.last() + 1 == existing_parts@.len() ==> next
            == existing_parts@.len(),
        existing_parts@.len() == 1 && existing_parts@.last() != 0 ==> next == 0,
        existing_parts@.len() > 1 && existing_parts@.last() + 1 != existing_parts@.len() ==> exists|k: int|
            #[trigger] is_first_gap(existing_parts@, k) && next == existing_parts@[k] + 1,
{
    let n = existing_parts.len();
    if n == 0 {
        return 0;
    }
    if existing_parts[n - 1] + 1 == n {
        return n;
    }
    if n == 1 {
        return 0;
    }
    let mut i: usize = 0;
    while i < n - 1
        invariant
            n == existing_parts@.len(),
            n > 1,
            0 <= i <= n - 1,
            steps_of_one(existing_parts@, i as int),
            existing_parts@.last() + 1 != n,
            next_part_defined(existing_parts@),
        decreases n - 1 - i,
    {
        let a = existing_parts[i];
        let b = existing_parts[i + 1];
        proof {
            if b != a + 1 {
                assert(is_first_gap(existing_parts@, i as int));
                let k = choose|k: int|
                    #[trigger] is_first_gap(existing_parts@, k) && existing_parts@[k] <= existing_parts@[k + 1]
                        && existing_parts@[k] < usize::MAX;
                if k < i {
                    assert(existing_parts@[k + 1] == existing_parts@[k] + 1);
                } else if k > i {
                    assert(existing_parts@[i + 1] == existing_parts@[i as int] + 1);
                }
            }
        }
        if b - a != 1 {
            return a + 1;
        }
        proof {
            assert forall|j: int| 0 <= j < i + 1 implies #[trigger] existing_parts@[j + 1] == existing_parts@[j]
                + 1 by {
                if j < i {
                    assert(steps_of_one(existing_parts@, i as int));
                }
            }
        }
        i = i + 1;
    }
    proof {
        let k = choose|k: int|
            #[trigger] is_first_gap(existing_parts@, k) && existing_parts@[k] <= existing_parts@[k + 1]
                && existing_parts@[k] < usize::MAX;
        assert(existing_parts@[k + 1] == existing_parts@[k] + 1);
        assert(false);
    }
    0
}

/// Whether `get_next_part_number` returns on `parts` rather than panicking.
pub fn part_number_available(parts: &Vec<usize>) -> (available: bool)
    ensures
        available == next_part_defined(parts@),
{
    let n = parts.len();
    if n == 0 {
        return true;
    }
    if parts[n - 1] == usize::MAX {
        return false;
    }
    if parts[n - 1] + 1 == n || n == 1 {
        return true;
    }
    let mut i: usize = 0;
    while i < n - 1
        invariant
            n == parts@.len(),
            n > 1,
            0 <= i <= n - 1,
            steps_of_one(parts@, i as int),
            parts@.last() < usize::MAX,
            parts@.last() + 1 != n,
        decreases n - 1 - i,
    {
        let a = parts[i];
        let b = parts[i + 1];
        if a == usize::MAX || b != a + 1 {
            proof {
                assert(is_first_gap(parts@, i as int));
                assert forall|k: int| #[trigger] is_first_gap(parts@, k) implies k == i by {
                    if k < i {
                        assert(parts@[k + 1] == parts@[k] + 1);
                    } else if k > i {
                        assert(parts@[i + 1] == parts@[i as int] + 1);
                    }
                }
            }
            if a <= b && a < usize::MAX {
                assert(is_first_gap(parts@, i as int) && parts@[i as int] <= parts@[i + 1] && parts@[i as int]
                    < usize::MAX);
                return true;
            }
            return false;
        }
        proof {
            assert forall|j: int| 0 <= j < i + 1 implies #[trigger] parts@[j + 1] == parts@[j] + 1 by {
                if j < i {
                    assert(steps_of_one(parts@, i as int));
                }
            }
        }
        i = i + 1;
    }
    proof {
        assert forall|k: int| !#[trigger] is_first_gap(parts@, k) by {
            if 0 <= k < n - 1 {
                assert(parts@[k + 1] == parts@[k] + 1);
            }
        }
    }
    false
}

/// Whether `parts` go strictly up.
pub open spec fn strictly_ascending(parts: Seq<usize>) -> bool {
    forall|a: int, b: int| 0 <= a < b < parts.len() ==> parts[a] < parts[b]
}

/// For part numbers in strictly ascending order, the number chosen for a new part
/// is not one of them.
pub proof fn lemma_next_part_is_fresh(parts: Seq<usize>, next: usize)
    requires
        strictly_ascending(parts),
        next_part_defined(parts),
        parts.len() == 0 ==> next == 0,
        parts.len() > 0 && parts.last() + 1 == parts.len() ==> next == parts.len(),
        parts.len() == 1 && parts.last() != 0 ==> next == 0,
        parts.len() > 1 && parts.last() + 1 != parts.len() ==> exists|k: int|
            #[trigger] is_first_gap(parts, k) && next == parts[k] + 1,
    ensures
        !parts.contains(next),
{
    if parts.len() == 0 {
    } else if parts.last() + 1 == parts.len() {
        assert forall|j: int| 0 <= j < parts.len() implies parts[j] < parts.len() by {
            if j < parts.len() - 1 {
                assert(parts[j] < parts[parts.len() - 1]);
            }
        }
    } else if parts.len() == 1 {
    } else {
        let k = choose|k: int| #[trigger] is_first_gap(parts, k) && next == parts[k] + 1;
        assert forall|j: int| 0 <= j < parts.len() implies parts[j] != next by {
            if j < k {
                assert(parts[j] < parts[k]);
            } else if j > k + 1 {
                assert(parts[k + 1] < parts[j]);
            }
        }
    }
}

} // verus!
