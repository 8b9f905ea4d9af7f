//! A compare-and-exchange whose success can be told after the fact.
//!
//! Next to its value, a [`State`] names the thread that wrote it and the
//! version under which it did. Before a thread replaces a state, it publishes
//! that version for the writer in its own row of the [`help::Array`], so the
//! writer can find out that its state was once in place even though it is gone.

pub mod detectable;
pub mod help;
pub mod interleaving;

pub use detectable::Context;
pub use detectable::Detectable;
pub use detectable::Participant;
pub use detectable::Query;
pub use detectable::Update;

use vstd::prelude::*;

use crate::atomic::Pack;
use crate::atomic::Version;
use crate::thread;

verus! {

/// The contents of a [`Detectable`] location.
///
/// The identifier is packed into bits 0 to 15, the version into bits 16 to 31
/// and the value into bits 32 to 63.
#[derive(Copy, Debug)]
pub struct State<T> {
    /// The thread that wrote this state. Memory that is all zeros has none.
    pub id: Option<thread::Id>,
    /// The version under which it was written.
    pub version: Version,
    /// The value.
    pub inner: T,
}

impl<T: Copy> Clone for State<T> {
    fn clone(&self) -> (state: Self)
        ensures
            state == *self,
    {
        *self
    }
}

impl<T: Pack<Loose = u32>> State<T> {
    /// A state.
    pub fn new(id: Option<thread::Id>, version: Version, inner: T) -> (state: Self)
        ensures
            state == (State { id, version, inner }),
    {
        State { id, version, inner }
    }
}

impl<T: Pack<Loose = u32>> Pack for State<T> {
    type Loose = u64;

    open spec fn packable(self) -> bool {
        self.id.packable() && self.inner.packable()
    }

    open spec fn packed(self) -> u64 {
        (self.id.packed() + 0x1_0000 * self.version.packed() + 0x1_0000_0000
            * self.inner.packed()) as u64
    }

    proof fn packed_is_injective(self, other: Self) {
        self.id.packed_is_injective(other.id);
        self.version.packed_is_injective(other.version);
        self.inner.packed_is_injective(other.inner);
    }

    fn pack(self) -> (loose: u64) {
        let id: u64 = self.id.pack() as u64;
        let version: u64 = self.version.pack() as u64;
        let inner: u64 = self.inner.pack() as u64;
        id + 0x1_0000 * version + 0x1_0000_0000 * inner
    }

    fn is_packed(loose: u64) -> (packed: bool) {
        let low: u16 = (loose % 0x1_0000) as u16;
        let middle: u16 = (loose / 0x1_0000 % 0x1_0000) as u16;
        let high: u32 = (loose / 0x1_0000_0000) as u32;
        proof {
            lemma_packed(loose, low, middle, high);
            if exists|value: Self| value.packable() && #[trigger] value.packed() == loose {
                let witness = choose|value: Self|
                    value.packable() && #[trigger] value.packed() == loose;
                lemma_fields(
                    loose,
                    witness.id.packed(),
                    witness.version.packed(),
                    witness.inner.packed(),
                );
                assert(witness.inner.packable() && witness.inner.packed() == high);
            }
            if exists|inner: T| inner.packable() && #[trigger] inner.packed() == high {
                let inner = choose|inner: T| inner.packable() && #[trigger] inner.packed() == high;
                let id = if low == 0 {
                    None
                } else {
                    Some(thread::Id { number: low })
                };
                let state = State { id, version: Version { value: middle }, inner };
                assert(state.packable() && state.packed() == loose);
            }
        }
        T::is_packed(high)
    }

    fn unpack(loose: u64) -> (value: Self) {
        proof {
            let witness = choose|value: Self|
                value.packable() && #[trigger] value.packed() == loose;
            lemma_fields(
                loose,
                witness.id.packed(),
                witness.version.packed(),
                witness.inner.packed(),
            );
            assert(witness.id.packable() && witness.id.packed() == (loose % 0x1_0000) as u16);
            assert(witness.version.packable());
            assert(witness.inner.packable());
        }
        let id: Option<thread::Id> = <Option<thread::Id>>::unpack((loose % 0x1_0000) as u16);
        let version: Version = Version::unpack((loose / 0x1_0000 % 0x1_0000) as u16);
        let inner: T = T::unpack((loose / 0x1_0000_0000) as u32);
        State { id, version, inner }
    }
}

proof fn lemma_fields(word: u64, low: u16, middle: u16, high: u32)
    requires
        word == low + 0x1_0000 * middle + 0x1_0000_0000 * high,
    ensures
        word % 0x1_0000 == low,
        word / 0x1_0000 % 0x1_0000 == middle,
        word / 0x1_0000_0000 == high,
{
}

proof fn lemma_packed(word: u64, low: u16, middle: u16, high: u32)
    requires
        low == (word % 0x1_0000) as u16,
        middle == (word / 0x1_0000 % 0x1_0000) as u16,
        high == (word / 0x1_0000_0000) as u32,
    ensures
        word == low + 0x1_0000 * middle + 0x1_0000_0000 * high,
{
}

/// Memory that is all zeros is the state without a writer, of version zero,
/// around the value whose packed form is zero.
pub proof fn law_zeros_have_no_writer<T: Pack<Loose = u32>>(state: State<T>)
    requires
        state.packable(),
    ensures
        state.packed() == 0 <==> {
            &&& state.id is None
            &&& state.version.value == 0
            &&& state.inner.packed() == 0
        },
{
}

/// The fields of a state can be read off its word: the writer from the lowest
/// sixteen bits, the version from the sixteen above, and the value from the
/// upper half.
pub proof fn law_state_fields<T: Pack<Loose = u32>>(state: State<T>)
    requires
        state.packable(),
    ensures
        state.packed() % 0x1_0000 == (match state.id {
            Some(id) => id.number,
            None => 0,
        }),
        state.packed() / 0x1_0000 % 0x1_0000 == state.version.value,
        state.packed() / 0x1_0000_0000 == state.inner.packed(),
{
    lemma_fields(
        state.packed(),
        state.id.packed(),
        state.version.packed(),
        state.inner.packed(),
    );
}

/// A state can be packed exactly if its writer is a thread, or there is none,
/// and its value can be packed.
pub proof fn law_packable_states<T: Pack<Loose = u32>>(state: State<T>)
    ensures
        state.packable() <==> {
            &&& state.id matches Some(id) ==> id.number != 0
            &&& state.inner.packable()
        },
{
}

/// A place in shared memory that can be flushed.
#[derive(Clone, Copy, Debug, PartialEq, Eq, Structural)]
pub enum Place {
    /// The location that holds the state.
    Cell,
    /// A slot of the help array.
    Slot {
        /// The thread that writes the slot.
        row: thread::Id,
        /// The thread that the slot is written for.
        column: thread::Id,
    },
}

/// Something that a thread does to shared memory without waiting for an answer.
#[derive(Debug)]
pub enum Access<T, L> {
    /// Write a version into a slot of the help array.
    Publish {
        /// The thread that writes the slot.
        row: thread::Id,
        /// The thread that the slot is written for.
        column: thread::Id,
        /// What is written.
        version: Version,
    },
    /// Replace the state in the location.
    Write {
        /// What is written.
        state: State<T>,
    },
    /// Record how to recover from a crash during the exchange that follows.
    Log {
        /// What is recorded.
        log: L,
    },
    /// Write a place back to memory and keep it in the cache.
    Flush {
        /// What is written back.
        place: Place,
    },
    /// Wait for the flushes before.
    Fence,
    /// Write a place back to the device.
    FlushCxl {
        /// What is written back.
        place: Place,
    },
    /// Wait for the device flushes before.
    FenceCxl,
}

/// What threads share: a location and the help array.
pub struct Memory<T> {
    /// The state in the location.
    pub state: State<T>,
    /// The versions in the slots, by row and column.
    pub help: Map<(thread::Id, thread::Id), Version>,
}

impl<T> Memory<T> {
    /// What an access makes of the memory. Flushes and fences decide when a
    /// write becomes durable, not what is written.
    pub open spec fn after<L>(self, access: Access<T, L>) -> Memory<T> {
        match access {
            Access::Publish { row, column, version } => Memory {
                help: self.help.insert((row, column), version),
                ..self
            },
            Access::Write { state } => Memory { state, ..self },
            _ => self,
        }
    }

    /// What a sequence of accesses makes of the memory.
    pub open spec fn after_all<L>(self, accesses: Seq<Access<T, L>>) -> Memory<T>
        decreases accesses.len(),
    {
        if accesses.len() == 0 {
            self
        } else {
            self.after_all(accesses.drop_last()).after(accesses.last())
        }
    }
}

/// What a thread has recorded after a sequence of accesses: the last record
/// among them, or else what was recorded before.
pub open spec fn recorded<T, L>(log: Option<L>, accesses: Seq<Access<T, L>>) -> Option<L>
    decreases accesses.len(),
{
    if accesses.len() == 0 {
        log
    } else {
        match accesses.last() {
            Access::Log { log } => Some(log),
            _ => recorded(log, accesses.drop_last()),
        }
    }
}

/// What each access does to memory. A version reaches the slot it is written to
/// and no other. A state reaches the location and leaves the slots alone. Records,
/// flushes and fences change neither.
pub proof fn law_accesses<T, L>(
    memory: Memory<T>,
    access: Access<T, L>,
    row: thread::Id,
    column: thread::Id,
)
    ensures
        memory.after(access).help[(row, column)] == (match access {
            Access::Publish { row: i, column: j, version } if i == row && j == column => version,
            _ => memory.help[(row, column)],
        }),
        memory.after(access).state == (match access {
            Access::Write { state } => state,
            _ => memory.state,
        }),
        access is Log || access is Flush || access is Fence || access is FlushCxl
            || access is FenceCxl ==> memory.after(access) == memory,
{
}

/// Accesses take effect one after the other, and the last record is the one that
/// stays.
pub proof fn law_accesses_in_order<T, L>(
    memory: Memory<T>,
    log: Option<L>,
    accesses: Seq<Access<T, L>>,
    access: Access<T, L>,
)
    ensures
        memory.after_all(Seq::<Access<T, L>>::empty()) == memory,
        recorded(log, Seq::<Access<T, L>>::empty()) == log,
        memory.after_all(accesses.push(access)) == memory.after_all(accesses).after(access),
        recorded(log, accesses.push(access)) == (match access {
            Access::Log { log } => Some(log),
            _ => recorded(log, accesses),
        }),
{
    assert(accesses.push(access).drop_last() =~= accesses);
}

/// A publication changes one slot and records nothing.
pub proof fn law_publication_changes_one_slot<T, L>(
    memory: Memory<T>,
    log: Option<L>,
    row: thread::Id,
    column: thread::Id,
    version: Version,
)
    ensures
        memory.after_all(help::publication::<T, L>(row, column, version)) == (Memory {
            help: memory.help.insert((row, column), version),
            ..memory
        }),
        recorded(log, help::publication::<T, L>(row, column, version)) == log,
{
    let accesses = help::publication::<T, L>(row, column, version);
    reveal_with_fuel(Memory::after_all, 6);
    reveal_with_fuel(recorded, 6);
    assert(accesses.drop_last().drop_last().drop_last().drop_last().drop_last().len() == 0);
}

} // verus!
