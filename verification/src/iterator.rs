//! The abstract cursor contract over sorted key-value entries.
//!
//! Concrete cursors live outside this crate (in a memtable, a merge step, a
//! compaction): this trait only fixes the interface they implement and the
//! key order (`compare_key`) that `seek` goes by.

use vstd::prelude::*;

use crate::key::{KeyExt, KeyRef};
use crate::value::ValueRef;

verus! {

/// Helper for cursors that can seek from more than one place.
#[derive(Copy, Clone, Debug)]
pub enum SeekFrom {
    /// The start position.
    Origin,
    /// The current position.
    Current,
}

/// The item count a size hint stands for: its upper bound, or `usize::MAX`
/// when it gives none.
pub open spec fn spec_count_from_hint(hint: (usize, Option<usize>)) -> usize {
    match hint.1 {
        None => usize::MAX,
        Some(v) => v,
    }
}

/// A cursor over key-value entries: unpositioned at first, then moving
/// between positioned-valid and exhausted as it advances.
pub trait Iterator {
    /// The advisory size hint this cursor reports: a lower bound and an
    /// optional upper bound on the remaining entries.  Advisory only, never
    /// load-bearing for correctness.
    open spec fn spec_size_hint(&self) -> (usize, Option<usize>) {
        (0usize, None::<usize>)
    }

    /// Advances to the next entry; may turn a valid cursor invalid at the
    /// end.
    fn next(&mut self);

    /// Resets to the first entry.
    fn rewind(&mut self);

    /// Resets the cursor and moves it to the first entry whose key is
    /// greater than or equal to the given key in `compare_key` order.
    fn seek<K: KeyExt>(&mut self, key: K);

    /// Returns the entry at the current position, or nothing when the
    /// cursor is not at a valid entry.
    fn entry(&self) -> Option<(KeyRef<'_>, ValueRef<'_>)>;

    /// Returns the key at the current position.
    fn key(&self) -> Option<KeyRef<'_>>;

    /// Returns the value at the current position.
    fn val(&self) -> Option<ValueRef<'_>>;

    /// Does the current position hold a valid entry?
    fn valid(&self) -> bool;

    /// Reports this cursor's size hint.
    fn size_hint(&self) -> (r: (usize, Option<usize>))
        ensures
            r == self.spec_size_hint(),
    ;

    /// How many items this iterator reports: its size hint's upper bound,
    /// or `usize::MAX` when the hint gives none.
    fn count(&self) -> (r: usize)
        ensures
            r == spec_count_from_hint(self.spec_size_hint()),
    {
        match self.size_hint().1 {
            None => usize::MAX,
            Some(v) => v,
        }
    }
}

} // verus!
