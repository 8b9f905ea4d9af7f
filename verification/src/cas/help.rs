//! The versions that threads publish for each other.

use vstd::prelude::*;

use crate::atomic::Pack;
use crate::atomic::Version;
use crate::cas::Access;
use crate::cas::Place;
use crate::thread;

verus! {

/// For each pair of threads, the version of the second that the first has
/// published last.
pub struct Array {
    rows: Vec<Vec<u16>>,
}

impl Array {
    /// The number of rows, which is the number of slots in each row.
    pub closed spec fn count(&self) -> nat {
        self.rows@.len()
    }

    /// The rows all have as many slots as there are rows.
    pub closed spec fn wf(&self) -> bool {
        forall|i: int|
            0 <= i < self.rows@.len() ==> (#[trigger] self.rows@[i])@.len() == self.rows@.len()
    }

    /// Whether a thread has a row.
    pub open spec fn has(&self, id: thread::Id) -> bool {
        id.wf() && id.number < self.count()
    }

    closed spec fn slot(&self, row: thread::Id, column: thread::Id) -> Version {
        Version { value: self.rows@[row.number as int]@[column.number as int] }
    }

    /// The array that zeroed memory holds.
    pub fn new(count: usize) -> (array: Self)
        ensures
            array.wf(),
            array.count() == count,
            forall|slot: (thread::Id, thread::Id)|
                array.has(slot.0) && array.has(slot.1) ==> #[trigger] array@[slot] == (Version {
                    value: 0,
                }),
    {
        let mut rows: Vec<Vec<u16>> = Vec::new();
        while rows.len() < count
            invariant
                rows@.len() <= count,
                forall|i: int| 0 <= i < rows@.len() ==> (#[trigger] rows@[i])@ == Seq::new(
                    count as nat,
                    |j: int| 0u16,
                ),
            decreases count - rows@.len(),
        {
            let row: Vec<u16> = vec![0u16; count];
            assert(row@ =~= Seq::new(count as nat, |j: int| 0u16));
            rows.push(row);
        }
        Self { rows }
    }

    /// Reads a slot.
    pub fn load(&self, i: thread::Id, j: thread::Id) -> (version: Version)
        requires
            self.wf(),
            self.has(i),
            self.has(j),
        ensures
            version == self@[(i, j)],
    {
        let version: u16 = self.rows[u16::from(i) as usize][u16::from(j) as usize];
        Version::new(version)
    }

    /// Writes a slot.
    pub fn store(&mut self, i: thread::Id, j: thread::Id, new: Version)
        requires
            old(self).wf(),
            old(self).has(i),
            old(self).has(j),
        ensures
            final(self).wf(),
            final(self).count() == old(self).count(),
            final(self)@ == old(self)@.insert((i, j), new),
    {
        self.rows[u16::from(i) as usize][u16::from(j) as usize] = new.pack();
        assert(self@ =~= old(self)@.insert((i, j), new));
    }
}

impl View for Array {
    type V = Map<(thread::Id, thread::Id), Version>;

    /// The version in each slot. A slot is named by its row and its column.
    closed spec fn view(&self) -> Map<(thread::Id, thread::Id), Version> {
        Map::new(
            |slot: (thread::Id, thread::Id)| self.has(slot.0) && self.has(slot.1),
            |slot: (thread::Id, thread::Id)| self.slot(slot.0, slot.1),
        )
    }
}

/// How a version reaches a slot: it is written and then flushed, first out of
/// the cache and then to the device.
pub open spec fn publication<T, L>(row: thread::Id, column: thread::Id, version: Version) -> Seq<
    Access<T, L>,
> {
    let place = Place::Slot { row, column };
    seq![
        Access::Publish { row, column, version },
        Access::Flush { place },
        Access::Fence,
        Access::FlushCxl { place },
        Access::FenceCxl,
    ]
}

/// Appends a [`publication`] to the accesses of a thread.
pub fn publish<T, L>(
    accesses: &mut Vec<Access<T, L>>,
    row: thread::Id,
    column: thread::Id,
    version: Version,
)
    ensures
        final(accesses)@ == old(accesses)@ + publication(row, column, version),
{
    let place: Place = Place::Slot { row, column };
    accesses.push(Access::Publish { row, column, version });
    accesses.push(Access::Flush { place });
    accesses.push(Access::Fence);
    accesses.push(Access::FlushCxl { place });
    accesses.push(Access::FenceCxl);
    assert(accesses@ =~= old(accesses)@ + publication(row, column, version));
}

} // verus!
