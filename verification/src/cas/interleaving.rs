//! What holds when threads interleave.
//!
//! A [`System`] is a location, a help array and any number of threads. A step
//! is one access of one thread, so that between any two accesses of a thread
//! the others may do anything that the protocol lets them.

use vstd::prelude::*;

use crate::atomic::Version;
use crate::cas::detectable::Participant;
use crate::cas::detectable::Query;
use crate::cas::detectable::Reaction;
use crate::cas::Access;
use crate::cas::Memory;
use crate::cas::State;
use crate::thread;

verus! {

/// A thread between two of its accesses.
pub struct Worker<T, L> {
    /// The thread.
    pub participant: Participant,
    /// What it waits for once the pending accesses are done.
    pub query: Query<T>,
    /// The accesses that it has still to perform.
    pub pending: Seq<Access<T, L>>,
}

/// Threads at work on one location.
pub struct System<T, L> {
    /// What they share.
    pub memory: Memory<T>,
    /// Each thread.
    pub workers: Map<thread::Id, Worker<T, L>>,
}

impl<T, L> Worker<T, L> {
    /// Whether the thread is between two operations.
    pub open spec fn idle(self) -> bool {
        self.query is Finished && self.pending.len() == 0
    }

    /// The thread once an answer has come in.
    pub open spec fn reacting(self, reaction: Reaction<T, L>) -> Worker<T, L> {
        Worker { query: reaction.query, pending: reaction.accesses, ..self }
    }
}

impl<T, L> System<T, L> {
    /// The system in which one thread has moved on.
    pub open spec fn moved(
        self,
        id: thread::Id,
        memory: Memory<T>,
        worker: Worker<T, L>,
    ) -> System<T, L> {
        System { memory, workers: self.workers.insert(id, worker) }
    }

    /// No thread has begun an operation.
    pub open spec fn initial(self) -> bool {
        forall|id: thread::Id| #[trigger]
            self.workers.dom().contains(id) ==> self.workers[id].participant.id == id
                && self.workers[id].idle()
    }

    /// A thread performs the first of its pending accesses.
    pub open spec fn performs(self, next: Self, id: thread::Id) -> bool {
        let worker = self.workers[id];
        &&& worker.pending.len() > 0
        &&& next == self.moved(
            id,
            self.memory.after(worker.pending[0]),
            Worker { pending: worker.pending.drop_first(), ..worker },
        )
    }

    /// An idle thread begins an update.
    pub open spec fn begins_update(self, next: Self, id: thread::Id) -> bool {
        let worker = self.workers[id];
        &&& worker.idle()
        &&& next == self.moved(id, self.memory, Worker { query: Query::Version, ..worker })
    }

    /// An idle thread loads: it reads the state, and has to help it.
    pub open spec fn begins_load(self, next: Self, id: thread::Id) -> bool {
        let worker = self.workers[id];
        &&& worker.idle()
        &&& next == self.moved(
            id,
            self.memory,
            Worker { pending: worker.participant.load_spec(self.memory.state), ..worker },
        )
    }

    /// An idle thread stores: it reads the state, and has to help and replace
    /// it.
    pub open spec fn begins_store(self, next: Self, id: thread::Id, value: T) -> bool {
        let worker = self.workers[id];
        &&& worker.idle()
        &&& next == self.moved(
            id,
            self.memory,
            Worker { pending: worker.participant.store_spec(self.memory.state, value), ..worker },
        )
    }

    /// A thread reads the version in its own slot.
    pub open spec fn reads_version(self, next: Self, id: thread::Id) -> bool {
        let worker = self.workers[id];
        &&& worker.pending.len() == 0
        &&& worker.query is Version
        &&& next == self.moved(
            id,
            self.memory,
            worker.reacting(worker.participant.after_version(self.memory.help[(id, id)])),
        )
    }

    /// A thread reads the state.
    pub open spec fn reads_state(self, next: Self, id: thread::Id) -> bool {
        let worker = self.workers[id];
        &&& worker.pending.len() == 0
        &&& worker.query matches Query::Read { version } && next == self.moved(
            id,
            self.memory,
            worker.reacting(worker.participant.after_read(version, self.memory.state)),
        )
    }

    /// A thread learns what to put in the place of a value.
    pub open spec fn learns(self, next: Self, id: thread::Id, answer: Option<(T, L)>) -> bool {
        let worker = self.workers[id];
        &&& worker.pending.len() == 0
        &&& worker.query matches Query::Next { version, old } && next == self.moved(
            id,
            self.memory,
            worker.reacting(worker.participant.after_next(version, old, answer)),
        )
    }

    /// A thread replaces the state that it expects.
    pub open spec fn replaces(self, next: Self, id: thread::Id) -> bool {
        let worker = self.workers[id];
        &&& worker.pending.len() == 0
        &&& worker.query matches Query::Exchange { version, old, new } && {
            &&& self.memory.state == old
            &&& next == self.moved(
                id,
                Memory { state: new, ..self.memory },
                worker.reacting(worker.participant.after_exchange(version, old, Ok(old))),
            )
        }
    }

    /// A thread finds another state than it expects.
    pub open spec fn fails_to_replace(self, next: Self, id: thread::Id) -> bool {
        let worker = self.workers[id];
        &&& worker.pending.len() == 0
        &&& worker.query matches Query::Exchange { version, old, .. } && {
            &&& self.memory.state != old
            &&& next == self.moved(
                id,
                self.memory,
                worker.reacting(
                    worker.participant.after_exchange(version, old, Err(self.memory.state)),
                ),
            )
        }
    }

    /// One thread takes one step.
    pub open spec fn steps_by(self, next: Self, id: thread::Id) -> bool {
        &&& self.workers.dom().contains(id)
        &&& {
            ||| self.performs(next, id)
            ||| self.begins_update(next, id)
            ||| self.begins_load(next, id)
            ||| exists|value: T| self.begins_store(next, id, value)
            ||| self.reads_version(next, id)
            ||| self.reads_state(next, id)
            ||| exists|answer: Option<(T, L)>| self.learns(next, id, answer)
            ||| self.replaces(next, id)
            ||| self.fails_to_replace(next, id)
        }
    }

    /// Whether a thread is about to write the location without looking at what
    /// it replaces, as the second half of a store.
    pub open spec fn overwrites(self, id: thread::Id) -> bool {
        self.workers[id].pending.len() > 0 && self.workers[id].pending[0] is Write
    }

    /// A thread other than `writer` takes a step, which does not overwrite the
    /// location.
    pub open spec fn steps_without(self, next: Self, writer: thread::Id) -> bool {
        exists|id: thread::Id|
            id != writer && #[trigger] self.steps_by(next, id) && !self.overwrites(id)
    }

    /// Whether all threads are to be recoverable.
    pub open spec fn recovers(self) -> bool {
        forall|id: thread::Id| #[trigger]
            self.workers.dom().contains(id) ==> self.workers[id].participant.recover
    }

    /// Some thread takes a step.
    pub open spec fn steps_to(self, next: Self) -> bool {
        exists|id: thread::Id| self.steps_by(next, id)
    }

    /// The version that a thread's row will hold for a writer once the thread
    /// has performed its pending accesses.
    spec fn due(self, id: thread::Id, writer: thread::Id) -> Version {
        self.memory.after_all(self.workers[id].pending).help[(id, writer)]
    }

    spec fn owes(self, id: thread::Id, old: State<T>) -> bool {
        self.workers[id].participant.recover ==> (old.id matches Some(writer) ==> self.due(
            id,
            writer,
        ) == old.version)
    }

    spec fn worker_wf(self, id: thread::Id) -> bool {
        let worker = self.workers[id];
        &&& worker.participant.id == id
        &&& forall|i: int, row: thread::Id, column: thread::Id, version: Version|
            0 <= i < worker.pending.len() && worker.pending[i] == (Access::<T, L>::Publish {
                row,
                column,
                version,
            }) ==> row == id
        &&& match worker.query {
            Query::Next { old, .. } => self.owes(id, old),
            Query::Exchange { version, old, new } => {
                &&& self.owes(id, old)
                &&& new.id == Some(id)
                &&& new.version == version
            },
            _ => true,
        }
    }

    spec fn wf(self) -> bool {
        forall|id: thread::Id| #[trigger]
            self.workers.dom().contains(id) ==> self.worker_wf(id)
    }
}

/// A sequence of systems that starts before any operation and in which each
/// system comes from the one before by one step.
pub open spec fn execution<T, L>(trace: Seq<System<T, L>>) -> bool {
    &&& trace.len() > 0
    &&& trace[0].initial()
    &&& forall|i: int| 0 <= i < trace.len() - 1 ==> (#[trigger] trace[i]).steps_to(trace[i + 1])
}

proof fn lemma_first_access<T, L>(memory: Memory<T>, accesses: Seq<Access<T, L>>)
    requires
        accesses.len() > 0,
    ensures
        memory.after(accesses[0]).after_all(accesses.drop_first()) == memory.after_all(accesses),
    decreases accesses.len(),
{
    if accesses.len() > 1 {
        lemma_first_access(memory, accesses.drop_last());
        assert(accesses.drop_last().drop_first() =~= accesses.drop_first().drop_last());
        assert(accesses.drop_first().last() == accesses.last());
    } else {
        reveal_with_fuel(Memory::after_all, 2);
        assert(accesses.drop_last().len() == 0);
    }
}

proof fn lemma_rows_are_independent<T, L>(
    first: Memory<T>,
    second: Memory<T>,
    accesses: Seq<Access<T, L>>,
    row: thread::Id,
    column: thread::Id,
)
    requires
        first.help[(row, column)] == second.help[(row, column)],
    ensures
        first.after_all(accesses).help[(row, column)] == second.after_all(accesses).help[(
            row,
            column,
        )],
    decreases accesses.len(),
{
    if accesses.len() > 0 {
        lemma_rows_are_independent(first, second, accesses.drop_last(), row, column);
    }
}

/// A thread's row of the help array changes by the thread's own steps only:
/// what a thread has published stays until it publishes again.
pub proof fn law_rows_have_one_writer<T, L>(
    trace: Seq<System<T, L>>,
    i: int,
    id: thread::Id,
    row: thread::Id,
    column: thread::Id,
)
    requires
        execution(trace),
        0 <= i < trace.len() - 1,
        trace[i].steps_by(trace[i + 1], id),
        row != id,
    ensures
        trace[i + 1].memory.help[(row, column)] == trace[i].memory.help[(row, column)],
{
    lemma_execution_wf(trace, i);
    lemma_step_changes_own_row(trace[i], trace[i + 1], id, row, column);
}

proof fn lemma_step_changes_own_row<T, L>(
    before: System<T, L>,
    after: System<T, L>,
    id: thread::Id,
    row: thread::Id,
    column: thread::Id,
)
    requires
        before.wf(),
        before.steps_by(after, id),
        row != id,
    ensures
        after.memory.help[(row, column)] == before.memory.help[(row, column)],
{
    if before.performs(after, id) {
        assert(before.worker_wf(id));
    }
}

proof fn lemma_others_stay_wf<T, L>(
    before: System<T, L>,
    after: System<T, L>,
    id: thread::Id,
    other: thread::Id,
)
    requires
        before.wf(),
        before.steps_by(after, id),
        before.workers.dom().contains(other),
        other != id,
    ensures
        after.worker_wf(other),
{
    assert(before.worker_wf(other));
    assert(after.workers[other] == before.workers[other]);
    assert forall|writer: thread::Id| before.due(other, writer) == after.due(other, writer) by {
        lemma_step_changes_own_row(before, after, id, other, writer);
        lemma_rows_are_independent(
            before.memory,
            after.memory,
            before.workers[other].pending,
            other,
            writer,
        );
    }
}

proof fn lemma_help_is_due<T, L>(
    participant: Participant,
    memory: Memory<T>,
    state: State<T>,
)
    ensures
        participant.recover ==> (state.id matches Some(writer) ==> memory.after_all(
            participant.help_spec::<T, L>(state),
        ).help[(participant.id, writer)] == state.version),
{
    participant.law_help_publishes::<T, L>(memory, None, state);
}

proof fn lemma_self_stays_wf<T, L>(before: System<T, L>, after: System<T, L>, id: thread::Id)
    requires
        before.wf(),
        before.steps_by(after, id),
    ensures
        after.worker_wf(id),
{
    assert(before.worker_wf(id));
    let worker = before.workers[id];
    if before.performs(after, id) {
        assert forall|writer: thread::Id| before.due(id, writer) == after.due(id, writer) by {
            lemma_first_access(before.memory, worker.pending);
        }
        assert forall|i: int, row: thread::Id, column: thread::Id, version: Version|
            0 <= i < after.workers[id].pending.len() && after.workers[id].pending[i] == (Access::<
                T,
                L,
            >::Publish { row, column, version }) implies row == id by {
            assert(worker.pending[i + 1] == (Access::<T, L>::Publish { row, column, version }));
        }
    } else if before.reads_state(after, id) {
        lemma_help_is_due::<T, L>(worker.participant, before.memory, before.memory.state);
    } else if before.fails_to_replace(after, id) {
        lemma_help_is_due::<T, L>(worker.participant, before.memory, before.memory.state);
    } else if exists|answer: Option<(T, L)>| before.learns(after, id, answer) {
        let answer = choose|answer: Option<(T, L)>| before.learns(after, id, answer);
        if let Some((inner, log)) = answer {
            let pending = after.workers[id].pending;
            assert(pending =~= seq![Access::<T, L>::Log { log }]);
            assert(pending.drop_last().len() == 0);
            reveal_with_fuel(Memory::after_all, 2);
        }
    }
}

proof fn lemma_step_wf<T, L>(before: System<T, L>, after: System<T, L>)
    requires
        before.wf(),
        before.steps_to(after),
    ensures
        after.wf(),
{
    let id = choose|id: thread::Id| before.steps_by(after, id);
    lemma_self_stays_wf(before, after, id);
    assert forall|other: thread::Id| #[trigger]
        after.workers.dom().contains(other) implies after.worker_wf(other) by {
        if other != id {
            lemma_others_stay_wf(before, after, id, other);
        }
    }
}

proof fn lemma_execution_wf<T, L>(trace: Seq<System<T, L>>, i: int)
    requires
        execution(trace),
        0 <= i < trace.len(),
    ensures
        trace[i].wf(),
    decreases i,
{
    if i > 0 {
        lemma_execution_wf(trace, i - 1);
        assert(trace[i - 1].steps_to(trace[i]));
        lemma_step_wf(trace[i - 1], trace[i]);
    }
}

/// When a compare-and-exchange takes effect, the version of the state that it
/// replaces has been published for that state's writer.
pub proof fn law_replaced_states_are_published<T, L>(
    trace: Seq<System<T, L>>,
    i: int,
    id: thread::Id,
    writer: thread::Id,
)
    requires
        execution(trace),
        0 <= i < trace.len() - 1,
        trace[i].steps_by(trace[i + 1], id),
        trace[i].replaces(trace[i + 1], id),
        trace[i].workers[id].participant.recover,
        trace[i].memory.state.id == Some(writer),
    ensures
        trace[i].memory.help[(id, writer)] == trace[i].memory.state.version,
        trace[i + 1].memory.help[(id, writer)] == trace[i].memory.state.version,
{
    lemma_execution_wf(trace, i);
    assert(trace[i].worker_wf(id));
}

impl<T, L> System<T, L> {
    /// A thread has published the version of a state for its writer, and will
    /// not publish another for the same writer until that writer writes again.
    spec fn keeps(self, helper: thread::Id, writer: thread::Id, state: State<T>) -> bool {
        let pending = self.workers[helper].pending;
        &&& helper != writer
        &&& self.workers.dom().contains(helper)
        &&& self.memory.help[(helper, writer)] == state.version
        &&& forall|i: int|
            0 <= i < pending.len() ==> (#[trigger] pending[i] matches Access::Publish {
                column,
                version,
                ..
            } ==> column == writer ==> version == state.version)
    }

    /// A state is in place, or it is gone and some thread keeps its version.
    spec fn detects(self, writer: thread::Id, state: State<T>) -> bool {
        ||| self.memory.state == state
        ||| self.memory.state.id != Some(writer) && exists|helper: thread::Id|
            self.keeps(helper, writer, state)
    }
}

proof fn lemma_keeps<T, L>(
    before: System<T, L>,
    after: System<T, L>,
    id: thread::Id,
    helper: thread::Id,
    writer: thread::Id,
    state: State<T>,
)
    requires
        before.wf(),
        before.steps_by(after, id),
        before.keeps(helper, writer, state),
        before.memory.state.id != Some(writer),
    ensures
        after.keeps(helper, writer, state),
{
    if helper != id {
        lemma_step_changes_own_row(before, after, id, helper, writer);
        assert(after.workers[helper] == before.workers[helper]);
    } else {
        assert(before.worker_wf(id));
        let first = before.workers[id].pending;
        let second = after.workers[id].pending;
        assert forall|i: int| 0 <= i < second.len() implies (
        #[trigger] second[i] matches Access::Publish { column, version, .. } ==> column == writer
            ==> version == state.version) by {
            if before.performs(after, id) {
                assert(first[i + 1] == second[i]);
            }
        }
    }
}

proof fn lemma_detects<T, L>(
    before: System<T, L>,
    after: System<T, L>,
    writer: thread::Id,
    state: State<T>,
)
    requires
        before.wf(),
        before.recovers(),
        before.steps_without(after, writer),
        before.detects(writer, state),
        state.id == Some(writer),
    ensures
        after.detects(writer, state),
        after.recovers(),
{
    let id = choose|id: thread::Id|
        id != writer && #[trigger] before.steps_by(after, id) && !before.overwrites(id);
    assert(before.worker_wf(id));
    assert(before.workers[id].participant.recover);
    assert forall|other: thread::Id| #[trigger]
        after.workers.dom().contains(other) implies after.workers[other].participant.recover by {
        assert(before.workers.dom().contains(other));
    }
    if before.memory.state == state {
        if before.replaces(after, id) {
            assert(after.keeps(id, writer, state));
        } else {
            assert(after.memory.state == before.memory.state);
        }
    } else {
        let helper = choose|helper: thread::Id| before.keeps(helper, writer, state);
        lemma_keeps(before, after, id, helper, writer, state);
    }
}

/// A thread can find out that its exchange took place, though the state that it
/// wrote is gone: from the moment on at which a state of the thread is in place,
/// either that state stays in place, or its version can be found in the row of
/// another thread, until the thread goes on.
///
/// All exchanges have to be recoverable, and no store may overwrite the
/// location in the meantime: a store does not look at what it replaces.
pub proof fn law_exchanges_are_detectable<T, L>(
    trace: Seq<System<T, L>>,
    i: int,
    j: int,
    writer: thread::Id,
)
    requires
        execution(trace),
        0 <= i <= j < trace.len(),
        trace[i].recovers(),
        trace[i].memory.state.id == Some(writer),
        forall|k: int|
            i <= k < j ==> (#[trigger] trace[k]).steps_without(trace[k + 1], writer),
    ensures
        ({
            let state = trace[i].memory.state;
            let memory = trace[j].memory;
            ||| memory.state == state
            ||| exists|helper: thread::Id|
                helper != writer && trace[j].workers.dom().contains(helper)
                    && #[trigger] memory.help[(helper, writer)] == state.version
        }),
{
    let state = trace[i].memory.state;
    lemma_trace_detects(trace, i, j, writer);
    if trace[j].memory.state != state {
        let helper = choose|helper: thread::Id| trace[j].keeps(helper, writer, state);
        assert(trace[j].memory.help[(helper, writer)] == state.version);
    }
}

proof fn lemma_trace_detects<T, L>(
    trace: Seq<System<T, L>>,
    i: int,
    j: int,
    writer: thread::Id,
)
    requires
        execution(trace),
        0 <= i <= j < trace.len(),
        trace[i].recovers(),
        trace[i].memory.state.id == Some(writer),
        forall|k: int|
            i <= k < j ==> (#[trigger] trace[k]).steps_without(trace[k + 1], writer),
    ensures
        trace[j].detects(writer, trace[i].memory.state),
        trace[j].recovers(),
    decreases j,
{
    if i < j {
        lemma_trace_detects(trace, i, j - 1, writer);
        lemma_execution_wf(trace, j - 1);
        assert(trace[j - 1].steps_without(trace[j], writer));
        lemma_detects(trace[j - 1], trace[j], writer, trace[i].memory.state);
    }
}

/// An update ends with a value only by an exchange that took place: whenever it
/// comes to have replaced a value, its own thread has just put a state of its own
/// into the location, and the value is that of the state which was there until
/// then.
pub proof fn law_results_are_of_replaced_states<T, L>(
    trace: Seq<System<T, L>>,
    i: int,
    id: thread::Id,
    value: T,
)
    requires
        execution(trace),
        0 <= i < trace.len() - 1,
        trace[i].workers.dom().contains(id),
        trace[i].workers[id].query != trace[i + 1].workers[id].query,
        trace[i + 1].workers[id].query == (Query::Finished { result: Some(value) }),
    ensures
        trace[i].memory.state.inner == value,
        trace[i + 1].memory.state.id == Some(id),
        trace[i + 1].memory.help == trace[i].memory.help,
        trace[i].workers[id].pending.len() == 0,
        trace[i].workers[id].query matches Query::Exchange { version, old, new } && {
            &&& old == trace[i].memory.state
            &&& new == trace[i + 1].memory.state
        },
{
    lemma_execution_wf(trace, i);
    assert(trace[i].steps_to(trace[i + 1]));
    let before = trace[i];
    let after = trace[i + 1];
    let stepper = choose|stepper: thread::Id| before.steps_by(after, stepper);
    if stepper != id {
        assert(trace[i + 1].workers[id] == trace[i].workers[id]);
    }
    assert(trace[i].worker_wf(id));
}

/// An update ends without a value only if it was given none, and then its last
/// step has changed nothing.
pub proof fn law_declined_updates_change_nothing<T, L>(
    trace: Seq<System<T, L>>,
    i: int,
    id: thread::Id,
)
    requires
        execution(trace),
        0 <= i < trace.len() - 1,
        trace[i].workers.dom().contains(id),
        trace[i].workers[id].query != trace[i + 1].workers[id].query,
        trace[i + 1].workers[id].query == (Query::<T>::Finished { result: None }),
    ensures
        trace[i].workers[id].query is Next,
        trace[i + 1].memory == trace[i].memory,
        trace[i + 1].workers[id].pending.len() == 0,
{
    assert(trace[i].steps_to(trace[i + 1]));
    let before = trace[i];
    let after = trace[i + 1];
    let stepper = choose|stepper: thread::Id| before.steps_by(after, stepper);
    if stepper != id {
        assert(trace[i + 1].workers[id] == trace[i].workers[id]);
    }
}

/// After an exchange that found another state, the update has not ended and the
/// memory is as it was. It asks about the state that is in the location, and
/// still goes by the same version.
pub proof fn law_failed_exchanges_go_on<T, L>(
    system: System<T, L>,
    next: System<T, L>,
    id: thread::Id,
)
    requires
        system.steps_by(next, id),
        system.workers[id].pending.len() == 0,
        system.workers[id].query matches Query::Exchange { old, .. } && system.memory.state != old,
    ensures
        next.memory == system.memory,
        system.workers[id].query matches Query::Exchange { version, .. }
            && next.workers[id].query == (Query::Next { version, old: system.memory.state }),
{
}

/// The version that an update goes by, once it has one.
pub open spec fn version_of<T>(query: Query<T>) -> Option<Version> {
    match query {
        Query::Read { version } => Some(version),
        Query::Next { version, .. } => Some(version),
        Query::Exchange { version, .. } => Some(version),
        _ => None,
    }
}

/// An update goes by one version from its first read to its end, and the state
/// that it puts in place has that version. The version is one above that in the
/// thread's own slot when the update read the slot.
pub proof fn law_updates_keep_their_version<T, L>(
    trace: Seq<System<T, L>>,
    i: int,
    id: thread::Id,
)
    requires
        execution(trace),
        0 <= i < trace.len() - 1,
        trace[i].workers.dom().contains(id),
    ensures
        ({
            let before = version_of(trace[i].workers[id].query);
            let after = version_of(trace[i + 1].workers[id].query);
            &&& before is Some && after is Some ==> before == after
            &&& before is None && after is Some ==> after->0.value == (trace[i].memory.help[(
                id,
                id,
            )].value + 1) % 0x1_0000
        }),
        trace[i + 1].workers[id].query matches Query::Exchange { version, new, .. } ==> {
            &&& new.version == version
            &&& new.id == Some(id)
        },
{
    assert(trace[i].steps_to(trace[i + 1]));
    lemma_execution_wf(trace, i + 1);
    let before = trace[i];
    let after = trace[i + 1];
    let stepper = choose|stepper: thread::Id| before.steps_by(after, stepper);
    if stepper != id {
        assert(after.workers[id] == before.workers[id]);
    } else {
        lemma_version_step(before, after, id);
    }
    assert(after.workers.dom().contains(id));
    assert(after.worker_wf(id));
}

proof fn lemma_version_step<T, L>(before: System<T, L>, after: System<T, L>, id: thread::Id)
    requires
        before.steps_by(after, id),
    ensures
        ({
            let first = version_of(before.workers[id].query);
            let second = version_of(after.workers[id].query);
            &&& first is Some && second is Some ==> first == second
            &&& first is None && second is Some ==> second->0.value == (before.memory.help[(
                id,
                id,
            )].value + 1) % 0x1_0000
        }),
{
}

/// States name their writers: a step that changes the state in the location
/// leaves one that names the thread whose step it was.
pub proof fn law_states_name_their_writers<T, L>(
    trace: Seq<System<T, L>>,
    i: int,
    id: thread::Id,
)
    requires
        execution(trace),
        0 <= i < trace.len() - 1,
        trace[i].steps_by(trace[i + 1], id),
        trace[i].memory.state != trace[i + 1].memory.state,
    ensures
        trace[i + 1].memory.state.id == Some(id),
{
    lemma_execution_wf(trace, i);
    lemma_trace_writes_own(trace, i, id);
    assert(trace[i].worker_wf(id));
    let worker = trace[i].workers[id];
    if trace[i].performs(trace[i + 1], id) {
        assert(worker.pending[0] is Write);
    }
}

impl<T, L> System<T, L> {
    /// What a thread has still to write names the thread.
    spec fn writes_own(self, id: thread::Id) -> bool {
        let pending = self.workers[id].pending;
        forall|i: int|
            0 <= i < pending.len() ==> (#[trigger] pending[i] matches Access::Write { state }
                ==> state.id == Some(id))
    }
}

proof fn lemma_writes_own<T, L>(before: System<T, L>, after: System<T, L>, id: thread::Id)
    requires
        before.steps_by(after, id),
        before.workers[id].participant.id == id,
        before.writes_own(id),
    ensures
        after.writes_own(id),
{
    let first = before.workers[id].pending;
    let second = after.workers[id].pending;
    if before.performs(after, id) {
        assert forall|i: int| 0 <= i < second.len() implies (
        #[trigger] second[i] matches Access::Write { state } ==> state.id == Some(id)) by {
            assert(first[i + 1] == second[i]);
        }
    }
}

proof fn lemma_trace_writes_own<T, L>(trace: Seq<System<T, L>>, i: int, id: thread::Id)
    requires
        execution(trace),
        0 <= i < trace.len(),
        trace[i].workers.dom().contains(id),
    ensures
        trace[i].writes_own(id),
    decreases i,
{
    if i > 0 {
        let before = trace[i - 1];
        let after = trace[i];
        assert(trace[i - 1].steps_to(trace[i]));
        let stepper = choose|stepper: thread::Id| before.steps_by(after, stepper);
        assert(before.workers.dom().contains(id));
        lemma_trace_writes_own(trace, i - 1, id);
        lemma_execution_wf(trace, i - 1);
        if stepper == id {
            assert(before.worker_wf(id));
            lemma_writes_own(before, after, id);
        } else {
            assert(after.workers[id] == before.workers[id]);
        }
    } else {
        assert(trace[0].workers[id].idle());
    }
}

/// An exchange fails only if some thread got in between: the state that it
/// expects was in place at some time before, and has been replaced since.
pub proof fn law_exchanges_fail_only_by_interference<T, L>(
    trace: Seq<System<T, L>>,
    id: thread::Id,
    next: System<T, L>,
)
    requires
        execution(trace),
        trace.last().steps_by(next, id),
        trace.last().fails_to_replace(next, id),
    ensures
        trace.last().workers[id].query matches Query::Exchange { old, .. } && exists|i: int|
            0 <= i < trace.len() - 1 && (#[trigger] trace[i]).memory.state == old && trace[i
                + 1].memory.state != old,
{
    lemma_expected_was_in_place(trace, id);
    let old = trace.last().workers[id].query->Exchange_old;
    let i = choose|i: int| 0 <= i < trace.len() && (#[trigger] trace[i]).memory.state == old;
    lemma_change(trace, i, old);
}

proof fn lemma_change<T, L>(trace: Seq<System<T, L>>, i: int, old: State<T>)
    requires
        0 <= i < trace.len(),
        trace[i].memory.state == old,
        trace.last().memory.state != old,
    ensures
        exists|k: int|
            0 <= k < trace.len() - 1 && (#[trigger] trace[k]).memory.state == old && trace[k
                + 1].memory.state != old,
    decreases trace.len() - i,
{
    if trace[i + 1].memory.state == old {
        lemma_change(trace, i + 1, old);
    }
}

spec fn seen<T, L>(trace: Seq<System<T, L>>, state: State<T>) -> bool {
    exists|i: int| 0 <= i < trace.len() && (#[trigger] trace[i]).memory.state == state
}

spec fn expects_truth<T, L>(trace: Seq<System<T, L>>, id: thread::Id) -> bool {
    match trace.last().workers[id].query {
        Query::Next { old, .. } => seen(trace, old),
        Query::Exchange { old, .. } => seen(trace, old),
        _ => true,
    }
}

proof fn lemma_expected_was_in_place<T, L>(trace: Seq<System<T, L>>, id: thread::Id)
    requires
        execution(trace),
        trace.last().workers.dom().contains(id),
    ensures
        expects_truth(trace, id),
    decreases trace.len(),
{
    if trace.len() > 1 {
        let shorter = trace.drop_last();
        let before = shorter.last();
        let after = trace.last();
        assert forall|i: int| 0 <= i < shorter.len() - 1 implies (#[trigger] shorter[i]).steps_to(
            shorter[i + 1],
        ) by {
            assert(trace[i].steps_to(trace[i + 1]));
        }
        assert(trace[trace.len() - 2].steps_to(trace[trace.len() - 1]));
        let stepper = choose|stepper: thread::Id| before.steps_by(after, stepper);
        lemma_expected_was_in_place(shorter, id);
        assert forall|state: State<T>| seen(shorter, state) implies seen(trace, state) by {
            let i = choose|i: int|
                0 <= i < shorter.len() && (#[trigger] shorter[i]).memory.state == state;
            assert(trace[i] == shorter[i]);
        }
        assert(trace[trace.len() - 2] == before);
        if stepper != id {
            assert(after.workers[id] == before.workers[id]);
        }
    } else {
        assert(trace[0].workers[id].idle());
    }
}

/// Whether a state of a thread with a given version was in place at some time
/// up to the end of a trace.
pub open spec fn was_in_place<T, L>(
    trace: Seq<System<T, L>>,
    writer: thread::Id,
    version: Version,
) -> bool {
    exists|k: int|
        0 <= k < trace.len() && (#[trigger] trace[k]).memory.state.id == Some(writer)
            && trace[k].memory.state.version == version
}

spec fn publishes_truth<T, L>(
    trace: Seq<System<T, L>>,
    helper: thread::Id,
    writer: thread::Id,
) -> bool {
    let system = trace.last();
    let pending = system.workers[helper].pending;
    &&& forall|i: int|
        0 <= i < pending.len() ==> (#[trigger] pending[i] matches Access::Publish {
            column,
            version,
            ..
        } ==> column == writer ==> was_in_place(trace, writer, version))
    &&& {
        ||| system.memory.help[(helper, writer)] == trace[0].memory.help[(helper, writer)]
        ||| was_in_place(trace, writer, system.memory.help[(helper, writer)])
    }
}

/// What a thread finds published for it did happen: a version in the row of
/// another thread belongs to a state that was in place, unless it was there
/// from the start.
pub proof fn law_published_states_were_in_place<T, L>(
    trace: Seq<System<T, L>>,
    helper: thread::Id,
    writer: thread::Id,
)
    requires
        execution(trace),
        trace[0].workers.dom().contains(helper),
        helper != writer,
    ensures
        ({
            let version = trace.last().memory.help[(helper, writer)];
            ||| version == trace[0].memory.help[(helper, writer)]
            ||| was_in_place(trace, writer, version)
        }),
{
    lemma_publishes_truth(trace, helper, writer);
}

proof fn lemma_was_in_place<T, L>(
    trace: Seq<System<T, L>>,
    writer: thread::Id,
    version: Version,
)
    requires
        trace.len() > 0,
        was_in_place(trace.drop_last(), writer, version),
    ensures
        was_in_place(trace, writer, version),
{
    let before = trace.drop_last();
    let k = choose|k: int|
        0 <= k < before.len() && (#[trigger] before[k]).memory.state.id == Some(writer)
            && before[k].memory.state.version == version;
    assert(trace[k] == before[k]);
}

#[verifier::spinoff_prover]
#[verifier::rlimit(40)]
proof fn lemma_publishes_truth<T, L>(
    trace: Seq<System<T, L>>,
    helper: thread::Id,
    writer: thread::Id,
)
    requires
        execution(trace),
        trace[0].workers.dom().contains(helper),
        helper != writer,
    ensures
        publishes_truth(trace, helper, writer),
        trace.last().workers.dom().contains(helper),
    decreases trace.len(),
{
    if trace.len() > 1 {
        let shorter = trace.drop_last();
        let before = shorter.last();
        let after = trace.last();
        assert forall|i: int| 0 <= i < shorter.len() - 1 implies (#[trigger] shorter[i]).steps_to(
            shorter[i + 1],
        ) by {
            assert(trace[i].steps_to(trace[i + 1]));
        }
        lemma_publishes_truth(shorter, helper, writer);
        lemma_execution_wf(trace, trace.len() - 2);
        assert(trace[trace.len() - 2].steps_to(trace[trace.len() - 1]));
        let id = choose|id: thread::Id| before.steps_by(after, id);
        assert(before.worker_wf(id));
        if id != helper {
            lemma_step_changes_own_row(before, after, id, helper, writer);
            assert(after.workers[helper] == before.workers[helper]);
        }
        assert forall|version: Version| was_in_place(shorter, writer, version) implies was_in_place(
            trace,
            writer,
            version,
        ) by {
            lemma_was_in_place(trace, writer, version);
        }
        let first = before.workers[helper].pending;
        let second = after.workers[helper].pending;
        let state = before.memory.state;
        if state.id == Some(writer) {
            assert(trace[trace.len() - 2].memory.state == state);
            assert(was_in_place(trace, writer, state.version));
        }
        assert forall|i: int| 0 <= i < second.len() implies (
        #[trigger] second[i] matches Access::Publish { column, version, .. } ==> column == writer
            ==> was_in_place(trace, writer, version)) by {
            if id != helper {
                assert(first[i] == second[i]);
            } else if before.performs(after, id) {
                assert(first[i + 1] == second[i]);
            }
        }
    }
}

} // verus!
