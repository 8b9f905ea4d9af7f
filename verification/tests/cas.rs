use cxlalloc::atomic::Atomic;
use cxlalloc::atomic::Pack;
use cxlalloc::atomic::Version;
use cxlalloc::cas::help;
use cxlalloc::cas::Access;
use cxlalloc::cas::Context;
use cxlalloc::cas::Detectable;
use cxlalloc::cas::Participant;
use cxlalloc::cas::Place;
use cxlalloc::cas::Query;
use cxlalloc::cas::State;
use cxlalloc::cas::Update;
use cxlalloc::thread;

fn id(number: u16) -> thread::Id {
    thread::Id::new(number).unwrap()
}

fn participant(number: u16) -> Participant {
    Participant { id: id(number), recover: true }
}

fn context(number: u16, recover: bool) -> Context<u8> {
    Context {
        participant: Participant { id: id(number), recover },
        help: help::Array::new(8),
        log: None,
    }
}

fn same(first: State<u32>, second: State<u32>) -> bool {
    first.id == second.id && first.version == second.version && first.inner == second.inner
}

/// What threads share, and what a thread does to it.
struct Shared {
    cell: Atomic<State<u32>>,
    help: help::Array,
    logs: Vec<u8>,
}

impl Shared {
    fn new(state: State<u32>) -> Self {
        Shared { cell: Atomic::new(state), help: help::Array::new(8), logs: Vec::new() }
    }

    fn perform(&mut self, accesses: Vec<Access<u32, u8>>) {
        for access in accesses {
            match access {
                Access::Publish { row, column, version } => self.help.store(row, column, version),
                Access::Write { state } => self.cell.store(state),
                Access::Log { log } => self.logs.push(log),
                _ => (),
            }
        }
    }

    fn step(&mut self, update: &mut Update<u32>, number: u16, next: Option<(u32, u8)>) {
        let accesses: Vec<Access<u32, u8>> = match update.query() {
            Query::Version => {
                let own: Version = self.help.load(id(number), id(number));
                update.version(own)
            }
            Query::Read { .. } => {
                let state: State<u32> = self.cell.load();
                update.read(state)
            }
            Query::Next { .. } => update.next(next),
            Query::Exchange { old, new, .. } => {
                let outcome: Result<State<u32>, State<u32>> =
                    self.cell.compare_exchange(*old, *new);
                update.exchange(outcome)
            }
            Query::Finished { .. } => Vec::new(),
        };
        self.perform(accesses);
    }
}

#[test]
fn states_are_packed_by_field() {
    let state: State<u32> = State::new(Some(id(3)), Version::new(2), 9);
    assert_eq!(state.pack(), 0x0000_0009_0002_0003);
    assert!(same(<State<u32> as Pack>::unpack(0x0000_0009_0002_0003), state));
    let state: State<u32> = State::new(None, Version::new(u16::MAX), u32::MAX);
    assert_eq!(state.pack(), 0xffff_ffff_ffff_0000);
    assert!(same(<State<u32> as Pack>::unpack(0xffff_ffff_ffff_0000), state));
}

#[test]
fn zeroed_memory_is_a_state_without_writer() {
    let state: State<u32> = Atomic::new_unchecked(0).load();
    assert_eq!(state.id, None);
    assert_eq!(state.version, Version::default());
    assert_eq!(state.inner, 0);
    assert_eq!(State::new(None, Version::default(), 0u32).pack(), 0);
    assert_ne!(State::new(Some(id(1)), Version::default(), 0u32).pack(), 0);
}

#[test]
fn every_word_holds_a_state_of_an_integer() {
    for word in [0, 1, 0xffff, 0x1_0000, u64::MAX] {
        assert!(Atomic::<State<u32>>::is_decodable(word));
        let state: State<u32> = Atomic::unpack(word);
        assert_eq!(state.pack(), word);
    }
}

#[test]
fn records_need_not_be_copied() {
    let mut context: Context<String> =
        Context { participant: participant(2), help: help::Array::new(8), log: None };
    let mut cell: Detectable<u32> = Detectable::new(State::new(None, Version::default(), 1));
    cell.update(&mut context, |value: u32, _: Version| Some((value + 1, "record".to_string())));
    assert_eq!(context.log, Some("record".to_string()));
    assert_eq!(cell.load(&mut context), 2);
}

#[test]
fn help_array_starts_with_zeros_and_keeps_slots_apart() {
    let mut array: help::Array = help::Array::new(4);
    assert_eq!(array.load(id(1), id(2)), Version::new(0));
    array.store(id(1), id(2), Version::new(7));
    array.store(id(2), id(1), Version::new(8));
    assert_eq!(array.load(id(1), id(2)), Version::new(7));
    assert_eq!(array.load(id(2), id(1)), Version::new(8));
    assert_eq!(array.load(id(3), id(2)), Version::new(0));
    assert_eq!(array.load(id(1), id(3)), Version::new(0));
}

#[test]
fn a_publication_is_written_and_then_flushed_twice() {
    let state: State<u32> = State::new(Some(id(5)), Version::new(6), 0);
    let accesses: Vec<Access<u32, u8>> = participant(2).help(state);
    let slot: Place = Place::Slot { row: id(2), column: id(5) };
    assert_eq!(accesses.len(), 5);
    assert!(matches!(
        &accesses[0],
        Access::Publish { row, column, version }
            if *row == id(2) && *column == id(5) && *version == Version::new(6)
    ));
    assert!(matches!(&accesses[1], Access::Flush { place } if *place == slot));
    assert!(matches!(&accesses[2], Access::Fence));
    assert!(matches!(&accesses[3], Access::FlushCxl { place } if *place == slot));
    assert!(matches!(&accesses[4], Access::FenceCxl));
}

#[test]
fn nothing_is_published_without_writer_or_recovery() {
    let orphan: State<u32> = State::new(None, Version::new(6), 0);
    let accesses: Vec<Access<u32, u8>> = participant(2).help(orphan);
    assert!(accesses.is_empty());
    let state: State<u32> = State::new(Some(id(5)), Version::new(6), 0);
    let careless: Participant = Participant { id: id(2), recover: false };
    let accesses: Vec<Access<u32, u8>> = careless.help(state);
    assert!(accesses.is_empty());
}

#[test]
fn a_load_flushes_before_it_helps() {
    let state: State<u32> = State::new(Some(id(5)), Version::new(6), 77);
    let (accesses, value): (Vec<Access<u32, u8>>, u32) = participant(2).load(state);
    assert_eq!(value, 77);
    assert_eq!(accesses.len(), 7);
    assert!(matches!(&accesses[0], Access::Flush { place: Place::Cell }));
    assert!(matches!(&accesses[1], Access::Fence));
    assert!(matches!(&accesses[2], Access::Publish { .. }));
}

#[test]
fn a_store_helps_before_it_writes() {
    let state: State<u32> = State::new(Some(id(5)), Version::new(6), 77);
    let accesses: Vec<Access<u32, u8>> = participant(2).store(state, 78);
    assert_eq!(accesses.len(), 8);
    assert!(matches!(&accesses[0], Access::Publish { .. }));
    match &accesses[5] {
        Access::Write { state } => {
            assert!(same(*state, State::new(Some(id(2)), Version::default(), 78)))
        }
        other => panic!("unexpected access {:?}", other),
    }
    assert!(matches!(&accesses[6], Access::Flush { place: Place::Cell }));
    assert!(matches!(&accesses[7], Access::Fence));
}

#[test]
fn load_publishes_and_changes_nothing_else() {
    let mut context: Context<u8> = context(2, true);
    let mut cell: Detectable<u32> =
        Detectable::new(State::new(Some(id(5)), Version::new(6), 77));
    assert_eq!(cell.load(&mut context), 77);
    assert_eq!(cell.load(&mut context), 77);
    assert_eq!(context.help.load(id(2), id(5)), Version::new(6));
    assert_eq!(context.help.load(id(5), id(2)), Version::new(0));
    assert_eq!(context.log, None);
}

#[test]
fn store_replaces_the_state_and_publishes_the_old_version() {
    let mut context: Context<u8> = context(2, true);
    let mut cell: Detectable<u32> =
        Detectable::new(State::new(Some(id(5)), Version::new(6), 77));
    cell.store(&mut context, 80);
    assert_eq!(context.help.load(id(2), id(5)), Version::new(6));
    assert_eq!(cell.load(&mut context), 80);
    assert_eq!(context.help.load(id(2), id(2)), Version::new(0));
}

#[test]
fn update_replaces_the_value_under_the_next_version() {
    let mut context: Context<u8> = context(2, true);
    context.help.store(id(2), id(2), Version::new(9));
    let mut cell: Detectable<u32> =
        Detectable::new(State::new(Some(id(5)), Version::new(6), 77));
    let result: Option<u32> = cell.update(&mut context, |value: u32, version: Version| {
        assert_eq!(version, Version::new(10));
        Some((value + 1, 3u8))
    });
    assert_eq!(result, Some(77));
    assert_eq!(context.log, Some(3));
    assert_eq!(context.help.load(id(2), id(2)), Version::new(10));
    assert_eq!(context.help.load(id(2), id(5)), Version::new(6));
    assert_eq!(cell.load(&mut context), 78);
    assert_eq!(context.help.load(id(2), id(2)), Version::new(10));
}

#[test]
fn update_that_is_declined_changes_no_state() {
    let mut context: Context<u8> = context(2, true);
    let mut cell: Detectable<u32> =
        Detectable::new(State::new(Some(id(5)), Version::new(6), 77));
    let result: Option<u32> =
        cell.update(&mut context, |_: u32, _: Version| None::<(u32, u8)>);
    assert_eq!(result, None);
    assert_eq!(context.log, None);
    assert_eq!(context.help.load(id(2), id(2)), Version::new(1));
    assert_eq!(context.help.load(id(2), id(5)), Version::new(6));
    assert_eq!(cell.load(&mut context), 77);
}

#[test]
fn update_without_recovery_publishes_nothing() {
    let mut context: Context<u8> = context(2, false);
    let mut cell: Detectable<u32> =
        Detectable::new(State::new(Some(id(5)), Version::new(6), 77));
    let result: Option<u32> =
        cell.update(&mut context, |value: u32, _: Version| Some((value * 2, 1u8)));
    assert_eq!(result, Some(77));
    assert_eq!(context.help.load(id(2), id(2)), Version::new(0));
    assert_eq!(context.help.load(id(2), id(5)), Version::new(0));
    assert_eq!(cell.load(&mut context), 154);
}

#[test]
fn without_recovery_no_slot_of_the_writer_is_touched() {
    let mut context: Context<u8> = Context {
        participant: Participant { id: id(2), recover: false },
        help: help::Array::new(3),
        log: None,
    };
    let mut cell: Detectable<u32> =
        Detectable::new(State::new(Some(id(500)), Version::new(6), 77));
    assert_eq!(cell.load(&mut context), 77);
    let result: Option<u32> =
        cell.update(&mut context, |value: u32, _: Version| Some((value + 1, 1u8)));
    assert_eq!(result, Some(77));
    let mut narrow: Context<u8> = Context {
        participant: Participant { id: id(9), recover: false },
        help: help::Array::new(0),
        log: None,
    };
    cell.store(&mut narrow, 5);
    assert_eq!(cell.load(&mut narrow), 5);
}

#[test]
fn a_thread_that_replaces_its_own_state_loses_its_announcement() {
    let mut context: Context<u8> = context(2, true);
    let mut cell: Detectable<u32> = Detectable::new(State::new(None, Version::default(), 1));
    cell.update(&mut context, |value: u32, _: Version| Some((value + 1, 1u8)));
    assert_eq!(context.help.load(id(2), id(2)), Version::new(1));
    cell.update(&mut context, |value: u32, version: Version| {
        assert_eq!(version, Version::new(2));
        Some((value + 1, 1u8))
    });
    assert_eq!(context.help.load(id(2), id(2)), Version::new(1));
}

#[test]
fn a_lost_exchange_goes_on_with_the_state_that_was_found() {
    let mut shared: Shared = Shared::new(State::new(None, Version::default(), 10));
    let mut slow: Update<u32> = Update::new(participant(1));
    let mut fast: Update<u32> = Update::new(participant(2));
    for _ in 0..3 {
        shared.step(&mut slow, 1, Some((11, 1)));
    }
    for _ in 0..4 {
        shared.step(&mut fast, 2, Some((20, 2)));
    }
    assert!(matches!(fast.query(), Query::Finished { result: Some(10) }));
    assert!(matches!(slow.query(), Query::Exchange { .. }));
    shared.step(&mut slow, 1, None);
    match slow.query() {
        Query::Next { version, old } => {
            assert_eq!(*version, Version::new(1));
            assert!(same(*old, State::new(Some(id(2)), Version::new(1), 20)));
        }
        other => panic!("unexpected query {:?}", other),
    }
    assert_eq!(shared.help.load(id(1), id(2)), Version::new(1));
    shared.step(&mut slow, 1, Some((21, 3)));
    shared.step(&mut slow, 1, None);
    assert!(matches!(slow.query(), Query::Finished { result: Some(20) }));
    assert!(same(shared.cell.load(), State::new(Some(id(1)), Version::new(1), 21)));
    assert_eq!(shared.logs, vec![1, 2, 3]);
}

#[test]
fn a_state_that_is_gone_is_found_in_the_row_of_its_replacer() {
    let mut shared: Shared = Shared::new(State::new(None, Version::default(), 0));
    let mut writer: Update<u32> = Update::new(participant(3));
    for _ in 0..4 {
        shared.step(&mut writer, 3, Some((1, 1)));
    }
    assert!(same(shared.cell.load(), State::new(Some(id(3)), Version::new(1), 1)));
    let mut helper: Update<u32> = Update::new(participant(4));
    for _ in 0..4 {
        shared.step(&mut helper, 4, Some((2, 1)));
    }
    let mut bystander: Update<u32> = Update::new(participant(5));
    for _ in 0..4 {
        shared.step(&mut bystander, 5, Some((3, 1)));
    }
    assert_eq!(shared.cell.load().id, Some(id(5)));
    assert_eq!(shared.help.load(id(4), id(3)), Version::new(1));
    assert_eq!(shared.help.load(id(5), id(3)), Version::new(0));
    assert_eq!(shared.help.load(id(5), id(4)), Version::new(1));
}

#[test]
fn an_update_that_gets_no_value_ends_without_exchange() {
    let mut shared: Shared = Shared::new(State::new(None, Version::default(), 5));
    let mut update: Update<u32> = Update::new(participant(1));
    for _ in 0..3 {
        shared.step(&mut update, 1, None);
    }
    assert!(matches!(update.query(), Query::Finished { result: None }));
    assert_eq!(shared.cell.load().inner, 5);
    assert!(shared.logs.is_empty());
}
