//! Operations on a location whose states name their writers.

use vstd::prelude::*;

use crate::atomic::decodable;
use crate::atomic::decodes;
use crate::atomic::law_decoded_value_is_unique;
use crate::atomic::Atomic;
use crate::atomic::Pack;
use crate::atomic::Version;
use crate::cas::help;
use crate::cas::law_publication_changes_one_slot;
use crate::cas::recorded;
use crate::cas::Access;
use crate::cas::Memory;
use crate::cas::Place;
use crate::cas::State;
use crate::thread;

verus! {

/// A thread that works on locations.
#[derive(Clone, Copy, Debug, PartialEq, Eq, Structural)]
pub struct Participant {
    /// The thread.
    pub id: thread::Id,
    /// Whether exchanges are to be recoverable. If not, no version is
    /// published.
    pub recover: bool,
}

impl Participant {
    /// What this thread does before it replaces a state, or relies on one:
    /// it publishes the state's version for the state's writer.
    pub open spec fn help_spec<T, L>(self, state: State<T>) -> Seq<Access<T, L>> {
        match state.id {
            Some(writer) if self.recover => help::publication(self.id, writer, state.version),
            _ => seq![],
        }
    }

    /// Publishes the version of a state for its writer.
    pub fn help<T: Pack<Loose = u32>, L>(&self, state: State<T>) -> (accesses: Vec<Access<T, L>>)
        ensures
            accesses@ == self.help_spec::<T, L>(state),
    {
        let mut accesses: Vec<Access<T, L>> = Vec::new();
        if !self.recover {
            return accesses;
        }
        match state.id {
            None => {},
            Some(writer) => {
                help::publish(&mut accesses, self.id, writer, state.version);
            },
        }
        accesses
    }

    /// What a load does once it has read a state.
    pub open spec fn load_spec<T, L>(self, old: State<T>) -> Seq<Access<T, L>> {
        seq![Access::Flush { place: Place::Cell }, Access::Fence] + self.help_spec::<T, L>(old)
    }

    /// What a load does once it has read a state, and the value that it
    /// returns.
    pub fn load<T: Pack<Loose = u32>, L>(&self, old: State<T>) -> (result: (Vec<Access<T, L>>, T))
        ensures
            result.0@ == self.load_spec::<T, L>(old),
            result.1 == old.inner,
    {
        let mut accesses: Vec<Access<T, L>> = Vec::new();
        accesses.push(Access::Flush { place: Place::Cell });
        accesses.push(Access::Fence);
        let mut help: Vec<Access<T, L>> = self.help(old);
        accesses.append(&mut help);
        assert(accesses@ =~= self.load_spec::<T, L>(old));
        (accesses, old.inner)
    }

    /// What a store does once it has read the state that it replaces: it helps
    /// that state, and writes one of version zero.
    pub open spec fn store_spec<T, L>(self, old: State<T>, value: T) -> Seq<Access<T, L>> {
        self.help_spec::<T, L>(old) + seq![
            Access::Write {
                state: State { id: Some(self.id), version: Version { value: 0 }, inner: value },
            },
            Access::Flush { place: Place::Cell },
            Access::Fence,
        ]
    }

    /// What a store does once it has read the state that it replaces.
    pub fn store<T: Pack<Loose = u32>, L>(&self, old: State<T>, value: T) -> (accesses: Vec<
        Access<T, L>,
    >)
        ensures
            accesses@ == self.store_spec::<T, L>(old, value),
    {
        let mut accesses: Vec<Access<T, L>> = self.help(old);
        let state: State<T> = State::new(Some(self.id), Version::default(), value);
        accesses.push(Access::Write { state });
        accesses.push(Access::Flush { place: Place::Cell });
        accesses.push(Access::Fence);
        accesses
    }
}

impl Participant {
    /// The help array after the version of a state has been published.
    pub open spec fn helped<T>(
        self,
        help: Map<(thread::Id, thread::Id), Version>,
        state: State<T>,
    ) -> Map<(thread::Id, thread::Id), Version> {
        match state.id {
            Some(writer) if self.recover => help.insert((self.id, writer), state.version),
            _ => help,
        }
    }

    /// Helping a state publishes its version for its writer, and does nothing
    /// else to memory.
    pub proof fn law_help_publishes<T, L>(
        self,
        memory: Memory<T>,
        log: Option<L>,
        state: State<T>,
    )
        ensures
            memory.after_all(self.help_spec::<T, L>(state)) == (Memory {
                help: self.helped(memory.help, state),
                ..memory
            }),
            recorded(log, self.help_spec::<T, L>(state)) == log,
    {
        match state.id {
            Some(writer) if self.recover => {
                law_publication_changes_one_slot(memory, log, self.id, writer, state.version);
            },
            _ => {},
        }
    }

    /// The help array after the thread has announced a version of its own.
    pub open spec fn announced(
        self,
        help: Map<(thread::Id, thread::Id), Version>,
        version: Version,
    ) -> Map<(thread::Id, thread::Id), Version> {
        if self.recover {
            help.insert((self.id, self.id), version)
        } else {
            help
        }
    }

    proof fn lemma_store<T, L>(
        self,
        memory: Memory<T>,
        log: Option<L>,
        old: State<T>,
        value: T,
    )
        ensures
            ({
                let state = State {
                    id: Some(self.id),
                    version: Version { value: 0 },
                    inner: value,
                };
                let accesses = self.store_spec::<T, L>(old, value);
                &&& memory.after_all(accesses) == (Memory {
                    state,
                    ..memory.after_all(self.help_spec::<T, L>(old))
                })
                &&& recorded(log, accesses) == recorded(log, self.help_spec::<T, L>(old))
            }),
    {
        let state = State { id: Some(self.id), version: Version { value: 0 }, inner: value };
        let last = seq![
            Access::<T, L>::Write { state },
            Access::Flush { place: Place::Cell },
            Access::Fence,
        ];
        lemma_concatenation(memory, log, self.help_spec::<T, L>(old), last);
        reveal_with_fuel(Memory::after_all, 4);
        reveal_with_fuel(recorded, 4);
        assert(last.drop_last().drop_last().drop_last().len() == 0);
    }

    proof fn lemma_load<T, L>(self, memory: Memory<T>, log: Option<L>, state: State<T>)
        ensures
            ({
                let accesses = self.load_spec::<T, L>(state);
                &&& memory.after_all(accesses) == memory.after_all(self.help_spec::<T, L>(state))
                &&& recorded(log, accesses) == recorded(log, self.help_spec::<T, L>(state))
            }),
    {
        let first = seq![Access::<T, L>::Flush { place: Place::Cell }, Access::Fence];
        lemma_concatenation(memory, log, first, self.help_spec::<T, L>(state));
        reveal_with_fuel(Memory::after_all, 3);
        reveal_with_fuel(recorded, 3);
        assert(first.drop_last().drop_last().len() == 0);
    }
}

proof fn lemma_concatenation<T, L>(
    memory: Memory<T>,
    log: Option<L>,
    first: Seq<Access<T, L>>,
    second: Seq<Access<T, L>>,
)
    ensures
        memory.after_all(first + second) == memory.after_all(first).after_all(second),
        recorded(log, first + second) == recorded(recorded(log, first), second),
    decreases second.len(),
{
    if second.len() == 0 {
        assert(first + second =~= first);
    } else {
        assert((first + second).drop_last() =~= first + second.drop_last());
        assert((first + second).last() == second.last());
        lemma_concatenation(memory, log, first, second.drop_last());
    }
}

/// What an update waits for.
#[derive(Debug)]
pub enum Query<T> {
    /// The version in the thread's own slot of the help array.
    Version,
    /// The state in the location.
    Read {
        /// The version that a state of this update is written under.
        version: Version,
    },
    /// Whether to replace a value, and if so by what.
    Next {
        /// The version that a state of this update is written under.
        version: Version,
        /// The state whose value is to be replaced.
        old: State<T>,
    },
    /// The outcome of a compare-and-exchange.
    Exchange {
        /// The version that `new` is written under.
        version: Version,
        /// The state that has to be in the location.
        old: State<T>,
        /// The state that replaces it.
        new: State<T>,
    },
    /// Nothing: the update has come to its end.
    Finished {
        /// The value that was replaced, if one was.
        result: Option<T>,
    },
}

impl<T> Query<T> {
    /// How many steps lie ahead if no other state gets in between.
    pub open spec fn rank(self) -> nat {
        match self {
            Query::Version => 4,
            Query::Read { .. } => 3,
            Query::Next { .. } => 2,
            Query::Exchange { .. } => 1,
            Query::Finished { .. } => 0,
        }
    }
}

/// What comes of an answer: what the update waits for next, and what the thread
/// does before that is answered.
#[verifier::ext_equal]
pub struct Reaction<T, L> {
    /// What the update waits for next.
    pub query: Query<T>,
    /// What the thread does before, in this order.
    pub accesses: Seq<Access<T, L>>,
}

impl Participant {
    /// The update goes by the version after the one in the thread's own slot,
    /// and announces it there.
    pub open spec fn after_version<T, L>(self, own: Version) -> Reaction<T, L> {
        Reaction {
            query: Query::Read { version: own.next_spec() },
            accesses: if self.recover {
                help::publication(self.id, self.id, own.next_spec())
            } else {
                seq![]
            },
        }
    }

    /// The state that is to be replaced is helped.
    pub open spec fn after_read<T, L>(self, version: Version, state: State<T>) -> Reaction<T, L> {
        Reaction {
            query: Query::Next { version, old: state },
            accesses: self.help_spec::<T, L>(state),
        }
    }

    /// A new value is put into a state of this thread, once the record is
    /// made. Without a new value the update ends.
    pub open spec fn after_next<T, L>(
        self,
        version: Version,
        old: State<T>,
        next: Option<(T, L)>,
    ) -> Reaction<T, L> {
        match next {
            None => Reaction { query: Query::Finished { result: None }, accesses: seq![] },
            Some((inner, log)) => Reaction {
                query: Query::Exchange {
                    version,
                    old,
                    new: State { id: Some(self.id), version, inner },
                },
                accesses: seq![Access::Log { log }],
            },
        }
    }

    /// If the exchange took place, the update ends with the value that was
    /// replaced. If not, it goes on with the state that was found.
    pub open spec fn after_exchange<T, L>(
        self,
        version: Version,
        old: State<T>,
        result: Result<State<T>, State<T>>,
    ) -> Reaction<T, L> {
        match result {
            Ok(_) => Reaction {
                query: Query::Finished { result: Some(old.inner) },
                accesses: seq![Access::Flush { place: Place::Cell }, Access::Fence],
            },
            Err(found) => self.after_read(version, found),
        }
    }
}

impl Participant {
    /// What a thread publishes for a state. Without a writer, or without
    /// recovery, it is nothing. Otherwise the version of the state goes into the
    /// slot that this thread has for the writer, and only after that is the same
    /// slot flushed out of the cache, then to the device, each with its fence.
    pub proof fn law_help_accesses<T, L>(self, state: State<T>)
        ensures
            ({
                let accesses = self.help_spec::<T, L>(state);
                match state.id {
                    None => accesses.len() == 0,
                    Some(writer) => if self.recover {
                        let place = Place::Slot { row: self.id, column: writer };
                        &&& accesses.len() == 5
                        &&& accesses[0] == (Access::<T, L>::Publish {
                            row: self.id,
                            column: writer,
                            version: state.version,
                        })
                        &&& accesses[1] == (Access::<T, L>::Flush { place })
                        &&& accesses[2] is Fence
                        &&& accesses[3] == (Access::<T, L>::FlushCxl { place })
                        &&& accesses[4] is FenceCxl
                    } else {
                        accesses.len() == 0
                    },
                }
            }),
    {
    }

    /// A load flushes the location and waits for that before it publishes. It
    /// writes neither the location nor a record.
    pub proof fn law_load_accesses<T, L>(self, state: State<T>)
        ensures
            ({
                let accesses = self.load_spec::<T, L>(state);
                let help = self.help_spec::<T, L>(state);
                &&& accesses.len() == help.len() + 2
                &&& accesses[0] == (Access::<T, L>::Flush { place: Place::Cell })
                &&& accesses[1] is Fence
                &&& forall|i: int| 0 <= i < help.len() ==> accesses[i + 2] == #[trigger] help[i]
                &&& forall|i: int|
                    0 <= i < accesses.len() ==> !(#[trigger] accesses[i] is Write)
                        && !(accesses[i] is Log)
            }),
    {
    }

    /// A store publishes for the state that it has read, then writes a state of
    /// its own around the value, of version zero, then flushes the location and
    /// waits for that. It writes the location once and records nothing.
    pub proof fn law_store_accesses<T, L>(self, state: State<T>, value: T)
        ensures
            ({
                let accesses = self.store_spec::<T, L>(state, value);
                let help = self.help_spec::<T, L>(state);
                let count = help.len() as int;
                &&& accesses.len() == count + 3
                &&& forall|i: int| 0 <= i < count ==> accesses[i] == #[trigger] help[i]
                &&& accesses[count] matches Access::Write { state: written } && {
                    &&& written.id == Some(self.id)
                    &&& written.version.value == 0
                    &&& written.inner == value
                }
                &&& accesses[count + 1] == (Access::<T, L>::Flush { place: Place::Cell })
                &&& accesses[count + 2] is Fence
                &&& forall|i: int|
                    0 <= i < accesses.len() ==> (#[trigger] accesses[i] is Write ==> i == count)
                        && !(accesses[i] is Log)
            }),
    {
    }

    /// Of the help array, a thread that helps a state changes the slot that it
    /// has for the writer, to the version of the state, and leaves every other
    /// slot as it is.
    pub proof fn law_helped_slots<T>(
        self,
        help: Map<(thread::Id, thread::Id), Version>,
        state: State<T>,
        row: thread::Id,
        column: thread::Id,
    )
        ensures
            self.helped(help, state)[(row, column)] == (if self.recover && row == self.id
                && state.id == Some(column) {
                state.version
            } else {
                help[(row, column)]
            }),
            !self.recover || state.id is None ==> self.helped(help, state) == help,
    {
    }

    /// Of the help array, a thread that announces a version changes its own
    /// slot in its own row, and leaves every other slot as it is.
    pub proof fn law_announced_slots(
        self,
        help: Map<(thread::Id, thread::Id), Version>,
        version: Version,
        row: thread::Id,
        column: thread::Id,
    )
        ensures
            self.announced(help, version)[(row, column)] == (if self.recover && row == self.id
                && column == self.id {
                version
            } else {
                help[(row, column)]
            }),
            !self.recover ==> self.announced(help, version) == help,
    {
    }

    /// How an update goes on. It goes by one version from beginning to end, one
    /// above that in its own slot. It asks about the state that it has found, and
    /// it replaces the state that it has asked about, by a state of its own around
    /// the answer. Only an exchange that took place makes it end with a value,
    /// which is the one that was replaced. After one that did not, it asks again,
    /// about the state that was found.
    pub proof fn law_update_steps<T, L>(
        self,
        own: Version,
        version: Version,
        state: State<T>,
        found: State<T>,
        inner: T,
        log: L,
    )
        ensures
            self.after_version::<T, L>(own).query matches Query::Read { version } && version.value
                == (own.value + 1) % 0x1_0000,
            self.after_read::<T, L>(version, state).query == (Query::Next { version, old: state }),
            self.after_next::<T, L>(version, state, None).query == (Query::<T>::Finished {
                result: None,
            }),
            self.after_next::<T, L>(version, state, None).accesses.len() == 0,
            self.after_next(version, state, Some((inner, log))).query == (Query::Exchange {
                version,
                old: state,
                new: State { id: Some(self.id), version, inner },
            }),
            self.after_next(version, state, Some((inner, log))).accesses.len() == 1,
            self.after_next(version, state, Some((inner, log))).accesses[0] == (Access::<
                T,
                L,
            >::Log { log }),
            self.after_exchange::<T, L>(version, state, Ok(found)).query == (Query::Finished {
                result: Some(state.inner),
            }),
            ({
                let accesses = self.after_exchange::<T, L>(version, state, Ok(found)).accesses;
                &&& accesses.len() == 2
                &&& accesses[0] == (Access::<T, L>::Flush { place: Place::Cell })
                &&& accesses[1] is Fence
            }),
            self.after_exchange::<T, L>(version, state, Err(found)).query == (Query::Next {
                version,
                old: found,
            }),
    {
    }

    /// What an update does before it asks about a state, whether it has read the
    /// state or found it by an exchange that did not take place: it publishes the
    /// version of that state. What it does before it reads: it announces its own
    /// version.
    pub proof fn law_update_publishes<T, L>(
        self,
        own: Version,
        version: Version,
        state: State<T>,
        found: State<T>,
    )
        ensures
            self.after_read::<T, L>(version, found).accesses == self.help_spec::<T, L>(found),
            self.after_exchange::<T, L>(version, state, Err(found)).accesses == self.help_spec::<
                T,
                L,
            >(found),
            ({
                let accesses = self.after_version::<T, L>(own).accesses;
                let place = Place::Slot { row: self.id, column: self.id };
                if self.recover {
                    &&& accesses.len() == 5
                    &&& accesses[0] matches Access::Publish { row, column, version } && {
                        &&& row == self.id
                        &&& column == self.id
                        &&& version.value == (own.value + 1) % 0x1_0000
                    }
                    &&& accesses[1] == (Access::<T, L>::Flush { place })
                    &&& accesses[2] is Fence
                    &&& accesses[3] == (Access::<T, L>::FlushCxl { place })
                    &&& accesses[4] is FenceCxl
                } else {
                    accesses.len() == 0
                }
            }),
    {
    }
}

/// An update of a shared location, one step at a time.
///
/// Between two steps other threads may do to the location what they like. Each
/// method answers the current [`Query`] and returns the accesses to perform,
/// in order, before the next query is answered.
pub struct Update<T> {
    participant: Participant,
    query: Query<T>,
}

impl<T> Update<T> {
    /// The thread whose update this is.
    pub closed spec fn participant(&self) -> Participant {
        self.participant
    }

    /// What the update waits for.
    pub closed spec fn query_spec(&self) -> Query<T> {
        self.query
    }
}

impl<T: Pack<Loose = u32>> Update<T> {
    /// An update that has not begun.
    pub fn new(participant: Participant) -> (update: Self)
        ensures
            update.participant() == participant,
            update.query_spec() == Query::<T>::Version,
    {
        Update { participant, query: Query::Version }
    }

    /// What the update waits for.
    pub fn query(&self) -> (query: &Query<T>)
        ensures
            *query == self.query_spec(),
    {
        &self.query
    }

    /// Takes the version in the thread's own slot. The update goes by the next
    /// one, and announces it in the same slot.
    pub fn version<L>(&mut self, own: Version) -> (accesses: Vec<Access<T, L>>)
        requires
            old(self).query_spec() is Version,
        ensures
            final(self).participant() == old(self).participant(),
            (Reaction { query: final(self).query_spec(), accesses: accesses@ })
                == old(self).participant().after_version::<T, L>(own),
            final(self).query_spec() matches Query::Read { version } && version.value == (own.value
                + 1) % 0x1_0000,
            !old(self).participant().recover ==> accesses@.len() == 0,
    {
        let version: Version = own.next();
        let mut accesses: Vec<Access<T, L>> = Vec::new();
        if self.participant.recover {
            help::publish(&mut accesses, self.participant.id, self.participant.id, version);
        }
        self.query = Query::Read { version };
        accesses
    }

    /// Takes the state in the location.
    pub fn read<L>(&mut self, state: State<T>) -> (accesses: Vec<Access<T, L>>)
        requires
            old(self).query_spec() is Read,
        ensures
            final(self).participant() == old(self).participant(),
            old(self).query_spec() matches Query::Read { version } && (Reaction {
                query: final(self).query_spec(),
                accesses: accesses@,
            }) == old(self).participant().after_read::<T, L>(version, state),
            old(self).query_spec() matches Query::Read { version } && final(self).query_spec() == (
            Query::Next { version, old: state }),
            accesses@ == old(self).participant().help_spec::<T, L>(state),
    {
        if let Query::Read { version } = self.query {
            self.query = Query::Next { version, old: state };
        }
        self.participant.help(state)
    }

    /// Takes the new value, and what to record before it is put in place. An
    /// update that gets none ends without an exchange.
    pub fn next<L>(&mut self, next: Option<(T, L)>) -> (accesses: Vec<Access<T, L>>)
        requires
            old(self).query_spec() is Next,
        ensures
            final(self).participant() == old(self).participant(),
            old(self).query_spec() matches Query::Next { version, old: state } && (Reaction {
                query: final(self).query_spec(),
                accesses: accesses@,
            }) == old(self).participant().after_next::<T, L>(version, state, next),
            old(self).query_spec() matches Query::Next { version, old: state } && match next {
                None => {
                    &&& final(self).query_spec() == (Query::<T>::Finished { result: None })
                    &&& accesses@.len() == 0
                },
                Some((inner, log)) => {
                    &&& final(self).query_spec() == (Query::Exchange {
                        version,
                        old: state,
                        new: State { id: Some(old(self).participant().id), version, inner },
                    })
                    &&& accesses@.len() == 1
                    &&& accesses@[0] == (Access::<T, L>::Log { log })
                },
            },
    {
        let mut accesses: Vec<Access<T, L>> = Vec::new();
        if let Query::Next { version, old: state } = self.query {
            match next {
                None => {
                    self.query = Query::Finished { result: None };
                },
                Some((inner, log)) => {
                    let new: State<T> = State::new(Some(self.participant.id), version, inner);
                    accesses.push(Access::Log { log });
                    self.query = Query::Exchange { version, old: state, new };
                },
            }
        }
        accesses
    }

    /// Takes the outcome of the exchange. If another state was found there,
    /// the update goes on with that one.
    pub fn exchange<L>(&mut self, result: Result<State<T>, State<T>>) -> (accesses: Vec<
        Access<T, L>,
    >)
        requires
            old(self).query_spec() is Exchange,
        ensures
            final(self).participant() == old(self).participant(),
            old(self).query_spec() matches Query::Exchange { version, old: state, .. }
                && (Reaction { query: final(self).query_spec(), accesses: accesses@ })
                == old(self).participant().after_exchange::<T, L>(version, state, result),
            old(self).query_spec() matches Query::Exchange { version, old: state, .. }
                && match result {
                Ok(_) => final(self).query_spec() == (Query::Finished {
                    result: Some(state.inner),
                }),
                Err(found) => {
                    &&& final(self).query_spec() == (Query::Next { version, old: found })
                    &&& accesses@ == old(self).participant().help_spec::<T, L>(found)
                },
            },
    {
        let mut accesses: Vec<Access<T, L>> = Vec::new();
        if let Query::Exchange { version, old: state, .. } = self.query {
            match result {
                Ok(_) => {
                    accesses.push(Access::Flush { place: Place::Cell });
                    accesses.push(Access::Fence);
                    self.query = Query::Finished { result: Some(state.inner) };
                },
                Err(found) => {
                    accesses = self.participant.help(found);
                    self.query = Query::Next { version, old: found };
                },
            }
        }
        accesses
    }
}

/// What an operation on a location needs besides the location.
pub struct Context<L> {
    /// The thread that performs the operation.
    pub participant: Participant,
    /// The versions that threads publish for each other.
    pub help: help::Array,
    /// How to recover from a crash, if an exchange was under way.
    pub log: Option<L>,
}

impl<L> Context<L> {
    /// Whether this thread can publish the version of a state, if it is to
    /// publish versions at all.
    pub open spec fn can_help<T>(&self, state: State<T>) -> bool {
        &&& self.help.wf()
        &&& self.participant.recover ==> {
            &&& self.help.has(self.participant.id)
            &&& state.id matches Some(writer) ==> self.help.has(writer)
        }
    }

    /// Whether an access stays within the help array, and what it writes can
    /// be packed.
    pub open spec fn can_perform<T: Pack<Loose = u32>>(&self, access: Access<T, L>) -> bool {
        match access {
            Access::Publish { row, column, .. } => self.help.has(row) && self.help.has(column),
            Access::Write { state } => state.packable(),
            _ => true,
        }
    }
}

/// A location that one thread at a time works on.
///
/// An operation runs from its beginning to its end without another thread in
/// between. Where threads do interleave, [`Update`] is performed step by step.
pub struct Detectable<T> {
    cell: Atomic<State<T>>,
}

impl<T: Pack<Loose = u32>> Detectable<T> {
    /// The word in the location.
    pub closed spec fn word(&self) -> u64 {
        self.cell.word()
    }

    /// Whether the location holds a state.
    pub open spec fn wf(&self) -> bool {
        decodable::<State<T>>(self.word())
    }

    /// The state in the location.
    pub open spec fn state(&self) -> State<T> {
        choose|state: State<T>| #[trigger] decodes(self.word(), state)
    }

    /// The location together with the help array of a context.
    pub open spec fn memory<L>(&self, context: &Context<L>) -> Memory<T> {
        Memory { state: self.state(), help: context.help@ }
    }

    /// A location that holds a state.
    pub fn new(state: State<T>) -> (detectable: Self)
        requires
            state.packable(),
        ensures
            detectable.wf(),
            detectable.state() == state,
    {
        let detectable: Self = Detectable { cell: Atomic::new(state) };
        proof {
            law_decoded_value_is_unique(detectable.word(), detectable.state(), state);
        }
        detectable
    }

    /// Performs accesses in their order.
    fn perform<L>(&mut self, context: &mut Context<L>, accesses: Vec<Access<T, L>>)
        requires
            old(self).wf(),
            old(context).help.wf(),
            forall|i: int|
                0 <= i < accesses@.len() ==> old(context).can_perform(#[trigger] accesses@[i]),
        ensures
            final(self).wf(),
            final(context).help.wf(),
            final(context).help.count() == old(context).help.count(),
            final(context).participant == old(context).participant,
            final(self).memory(final(context)) == old(self).memory(old(context)).after_all(
                accesses@,
            ),
            final(context).log == recorded(old(context).log, accesses@),
    {
        let ghost all = accesses@;
        let ghost mut count: int = 0;
        let mut accesses: Vec<Access<T, L>> = accesses;
        while accesses.len() > 0
            invariant
                0 <= count <= all.len(),
                accesses@ == all.skip(count),
                self.wf(),
                context.help.wf(),
                context.help.count() == old(context).help.count(),
                context.participant == old(context).participant,
                forall|i: int| 0 <= i < all.len() ==> old(context).can_perform(#[trigger] all[i]),
                self.memory(context) == old(self).memory(old(context)).after_all(
                    all.take(count),
                ),
                context.log == recorded(old(context).log, all.take(count)),
            decreases accesses@.len(),
        {
            assert(old(context).can_perform(all[count]));
            let access: Access<T, L> = accesses.remove(0);
            assert(access == all[count]);
            match access {
                Access::Publish { row, column, version } => {
                    context.help.store(row, column, version);
                },
                Access::Write { state } => {
                    self.cell.store(state);
                    proof {
                        law_decoded_value_is_unique(self.word(), self.state(), state);
                    }
                },
                Access::Log { log } => {
                    context.log = Some(log);
                },
                _ => {},
            }
            proof {
                count = count + 1;
                assert(accesses@ =~= all.skip(count));
                assert(all.take(count).drop_last() =~= all.take(count - 1));
                assert(all.take(count).last() == all[count - 1]);
            }
        }
        assert(all.take(count) =~= all);
    }

    /// Reads the value, and publishes the version of the state that was read.
    pub fn load<L>(&mut self, context: &mut Context<L>) -> (value: T)
        requires
            old(self).wf(),
            old(context).can_help(old(self).state()),
        ensures
            value == old(self).state().inner,
            final(self).wf(),
            final(self).state() == old(self).state(),
            final(context).participant == old(context).participant,
            final(context).log == old(context).log,
            final(context).help.wf(),
            final(context).help.count() == old(context).help.count(),
            final(context).help@ == old(context).participant.helped(
                old(context).help@,
                old(self).state(),
            ),
    {
        let old: State<T> = self.cell.load();
        proof {
            law_decoded_value_is_unique(self.word(), self.state(), old);
            context.participant.law_help_publishes(self.memory(context), context.log, old);
            context.participant.lemma_load(self.memory(context), context.log, old);
        }
        let (accesses, value): (Vec<Access<T, L>>, T) = context.participant.load(old);
        self.perform(context, accesses);
        value
    }

    /// Replaces the state by one of version zero, after publishing the version
    /// of the state that is replaced.
    pub fn store<L>(&mut self, context: &mut Context<L>, value: T)
        requires
            old(self).wf(),
            old(context).can_help(old(self).state()),
            old(context).participant.id.wf(),
            value.packable(),
        ensures
            final(self).wf(),
            final(self).state() == (State {
                id: Some(old(context).participant.id),
                version: Version { value: 0 },
                inner: value,
            }),
            final(context).participant == old(context).participant,
            final(context).log == old(context).log,
            final(context).help.wf(),
            final(context).help.count() == old(context).help.count(),
            final(context).help@ == old(context).participant.helped(
                old(context).help@,
                old(self).state(),
            ),
    {
        let state: State<T> = self.cell.load();
        proof {
            law_decoded_value_is_unique(self.word(), self.state(), state);
            context.participant.law_help_publishes(self.memory(context), context.log, state);
            context.participant.lemma_store(self.memory(context), context.log, state, value);
        }
        let accesses: Vec<Access<T, L>> = context.participant.store(state, value);
        self.perform(context, accesses);
    }

    /// Replaces the value by what `next` makes of it, under the version after
    /// the one in the thread's own slot, and returns the value that was
    /// replaced. If `next` declines, the state stays as it is.
    ///
    /// The new version is announced in the thread's own slot first. Then the
    /// version of the state is published for its writer. A thread that replaces
    /// a state of its own writes to the same slot both times.
    pub fn update<F, L>(&mut self, context: &mut Context<L>, next: F) -> (result: Option<
        T,
    >) where F: Fn(T, Version) -> Option<(T, L)>
        requires
            old(self).wf(),
            old(context).can_help(old(self).state()),
            old(context).help.has(old(context).participant.id),
            forall|inner: T, version: Version|
                inner.packable() ==> #[trigger] next.requires((inner, version)),
            forall|inner: T, version: Version, new: T, log: L| #[trigger]
                next.ensures((inner, version), Some((new, log))) ==> new.packable(),
        ensures
            final(self).wf(),
            final(context).participant == old(context).participant,
            final(context).help.wf(),
            final(context).help.count() == old(context).help.count(),
            ({
                let id = old(context).participant.id;
                let version = old(context).help@[(id, id)].next_spec();
                &&& final(context).help@ == old(context).participant.helped(
                    old(context).participant.announced(old(context).help@, version),
                    old(self).state(),
                )
                &&& exists|answer: Option<(T, L)>| #[trigger]
                    next.ensures((old(self).state().inner, version), answer) && match answer {
                        None => {
                            &&& result is None
                            &&& final(self).state() == old(self).state()
                            &&& final(context).log == old(context).log
                        },
                        Some((new, log)) => {
                            &&& result == Some(old(self).state().inner)
                            &&& final(self).state() == (State { id: Some(id), version, inner: new })
                            &&& final(context).log == Some(log)
                        },
                    }
            }),
    {
        let id: thread::Id = context.participant.id;
        let mut update: Update<T> = Update::new(context.participant);
        let ghost state = self.state();
        let ghost version = context.help@[(id, id)].next_spec();
        let ghost announced = context.participant.announced(context.help@, version);
        let ghost helped = context.participant.helped(announced, state);
        let ghost mut answer: Option<(T, L)> = None;
        loop
            invariant
                self.wf(),
                state.packable(),
                update.participant() == context.participant,
                context.participant == old(context).participant,
                id == context.participant.id,
                context.help.count() == old(context).help.count(),
                context.can_help(state),
                context.help.has(id),
                state == old(self).state(),
                version == old(context).help@[(id, id)].next_spec(),
                announced == context.participant.announced(old(context).help@, version),
                helped == context.participant.helped(announced, state),
                forall|inner: T, version: Version|
                    inner.packable() ==> #[trigger] next.requires((inner, version)),
                forall|inner: T, version: Version, new: T, log: L| #[trigger]
                    next.ensures((inner, version), Some((new, log))) ==> new.packable(),
                match update.query_spec() {
                    Query::Version => {
                        &&& self.state() == state
                        &&& context.help@ == old(context).help@
                        &&& context.log == old(context).log
                    },
                    Query::Read { version: v } => {
                        &&& v == version
                        &&& self.state() == state
                        &&& context.help@ == announced
                        &&& context.log == old(context).log
                    },
                    Query::Next { version: v, old: s } => {
                        &&& v == version
                        &&& s == state
                        &&& self.state() == state
                        &&& context.help@ == helped
                        &&& context.log == old(context).log
                    },
                    Query::Exchange { version: v, old: s, new } => {
                        &&& v == version
                        &&& s == state
                        &&& self.state() == state
                        &&& context.help@ == helped
                        &&& next.ensures((state.inner, version), answer)
                        &&& answer matches Some((inner, log)) && {
                            &&& new == (State { id: Some(id), version, inner })
                            &&& context.log == Some(log)
                        }
                    },
                    Query::Finished { result } => {
                        &&& context.help@ == helped
                        &&& next.ensures((state.inner, version), answer)
                        &&& match answer {
                            None => {
                                &&& result is None
                                &&& self.state() == state
                                &&& context.log == old(context).log
                            },
                            Some((new, log)) => {
                                &&& result == Some(state.inner)
                                &&& self.state() == (State { id: Some(id), version, inner: new })
                                &&& context.log == Some(log)
                            },
                        }
                    },
                },
            decreases update.query_spec().rank(),
        {
            let ghost memory = self.memory(context);
            let ghost log = context.log;
            match update.query() {
                Query::Version => {
                    let own: Version = context.help.load(id, id);
                    let accesses: Vec<Access<T, L>> = update.version(own);
                    proof {
                        if context.participant.recover {
                            law_publication_changes_one_slot(memory, log, id, id, version);
                        }
                    }
                    self.perform(context, accesses);
                },
                Query::Read { .. } => {
                    let found: State<T> = self.cell.load();
                    proof {
                        law_decoded_value_is_unique(self.word(), self.state(), found);
                        context.participant.law_help_publishes(memory, log, found);
                    }
                    let accesses: Vec<Access<T, L>> = update.read(found);
                    self.perform(context, accesses);
                },
                Query::Next { version, old: state } => {
                    let next: Option<(T, L)> = next(state.inner, *version);
                    proof {
                        answer = next;
                        reveal_with_fuel(Memory::after_all, 2);
                        reveal_with_fuel(recorded, 2);
                    }
                    let accesses: Vec<Access<T, L>> = update.next(next);
                    self.perform(context, accesses);
                },
                Query::Exchange { old: state, new, .. } => {
                    let new: State<T> = *new;
                    let outcome: Result<State<T>, State<T>> = self.cell.compare_exchange(
                        *state,
                        new,
                    );
                    let accesses: Vec<Access<T, L>> = update.exchange(outcome);
                    proof {
                        law_decoded_value_is_unique(self.word(), self.state(), new);
                        reveal_with_fuel(Memory::after_all, 3);
                        reveal_with_fuel(recorded, 3);
                    }
                    self.perform(context, accesses);
                },
                Query::Finished { result } => {
                    return *result;
                },
            }
        }
    }
}

} // verus!
