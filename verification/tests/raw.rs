use cxlalloc::error::Error;
use cxlalloc::raw::id::Id;
use cxlalloc::raw::layout::Field;
use cxlalloc::raw::mapping::BackStep;
use cxlalloc::raw::mapping::Backend;
use cxlalloc::raw::mapping::Backing;
use cxlalloc::raw::mapping::File;
use cxlalloc::raw::mapping::UnmapCall;
use cxlalloc::raw::region::Region;
use cxlalloc::raw::region::SIZE_RESERVATION;
use cxlalloc::raw::setup::slab_count;
use cxlalloc::raw::setup::Config;
use cxlalloc::raw::setup::HeapLayout;
use cxlalloc::raw::setup::HeapPlan;
use cxlalloc::raw::setup::Limits;
use cxlalloc::raw::setup::Plan;
use cxlalloc::raw::setup::Setup;
use cxlalloc::raw::setup::SetupStep;
use cxlalloc::raw::Addresses;
use cxlalloc::raw::Allocator;
use cxlalloc::raw::AnyRegion;
use cxlalloc::raw::Buffer;
use cxlalloc::raw::Class;
use cxlalloc::raw::Fault;
use cxlalloc::raw::HeapAddresses;
use cxlalloc::raw::HugeAddresses;
use cxlalloc::raw::Raw;
use cxlalloc::raw::Types;
use cxlalloc::stat::Event;
use cxlalloc::stat::Recorder;
use cxlalloc::stat::Report;
use cxlalloc::thread;

const OWNED: u64 = 0x5000_0000;

fn id(number: u16) -> thread::Id {
    thread::Id::new(number).unwrap()
}

fn plan(small: Option<u64>, large: Option<u64>) -> Plan {
    Plan {
        backend: Backend { numa: false, populate: None },
        id: Id::new("heap"),
        target: Buffer { address_phys: 0x1000, address_virt: 0x4000_0000 },
        owned: 5000,
        small: HeapPlan::new(small, HeapLayout { locals: 100, remotes: 4097, data: 0x8000 }),
        large: HeapPlan::new(large, HeapLayout { locals: 200, remotes: 300, data: 0x10_0000 }),
        free: false,
    }
}

/// What a setup asked for, and what came of it.
struct Run {
    requests: Vec<String>,
    result: Result<Raw, Error>,
}

fn run(plan: Plan, fail_at: Option<usize>, clean: bool) -> Run {
    let mut setup: Setup = Setup::new(plan);
    let mut requests: Vec<String> = Vec::new();
    let mut reserved: u64 = 0x100_0000_0000;
    loop {
        let fails: bool = fail_at == Some(requests.len());
        match setup.step() {
            SetupStep::Back { backing } => {
                let mut backing: Backing = backing;
                let (name, size): (String, u64) = match backing.step() {
                    BackStep::Allocate { id, size } => (id.as_str().to_string(), *size),
                    other => panic!("unexpected step {:?}", other),
                };
                requests.push(format!("back {} {:#x}", name, size));
                if fails {
                    backing.allocated(Err(Error::Io(5)));
                } else {
                    backing.allocated(Ok(File { flags: 1, fd: 3, offset: 0, clean }));
                    let address: u64 = match backing.step() {
                        BackStep::Mmap { mapping, .. } => match mapping.step() {
                            cxlalloc::raw::mapping::MapStep::Mmap { call } => {
                                call.address.unwrap_or(OWNED)
                            }
                            other => panic!("unexpected step {:?}", other),
                        },
                        other => panic!("unexpected step {:?}", other),
                    };
                    backing.resume(Ok(address));
                }
                setup.backed(backing);
            }
            SetupStep::Reserve { call } => {
                assert_eq!(call.address, None);
                requests.push(format!("reserve {:#x}", call.size));
                if fails {
                    setup.reserved(Err(12));
                } else {
                    setup.reserved(Ok(reserved));
                    reserved += 4 * SIZE_RESERVATION;
                }
            }
            SetupStep::Finished { .. } => break,
        }
    }
    Run { requests, result: Raw::new(setup) }
}

fn raw() -> Raw {
    match run(plan(Some(1), Some(1)), None, true).result {
        Ok(raw) => raw,
        Err(error) => panic!("unexpected error {:?}", error),
    }
}

fn types() -> Types {
    Types {
        shared: vec![
            Field { size: 16, align: 8 },
            Field { size: 8, align: 64 },
            Field { size: 8, align: 8 },
            Field { size: 1, align: 1 },
        ],
        owned: vec![
            Field { size: 10, align: 2 },
            Field { size: 10, align: 2 },
            Field { size: 10, align: 4 },
            Field { size: 10, align: 1 },
        ],
    }
}

#[test]
fn a_setup_backs_and_reserves_in_order() {
    let run: Run = run(plan(Some(1), Some(1)), None, true);
    assert_eq!(
        run.requests,
        vec![
            "back heap-owned 0x2000",
            "reserve 0x10000000000",
            "back heap-ls-0 0x1000",
            "reserve 0x10000000000",
            "back heap-rs-0 0x2000",
            "reserve 0x10000000000",
            "back heap-ll-0 0x1000",
            "reserve 0x10000000000",
            "back heap-rl-0 0x1000",
            "reserve 0x30000000000",
            "back heap-ds-0 0x8000",
            "back heap-dl-0 0x100000",
        ]
    );
    assert!(run.result.is_ok());
}

#[test]
fn a_lazy_setup_only_reserves() {
    let run: Run = run(plan(None, None), None, true);
    assert_eq!(
        run.requests,
        vec![
            "back heap-owned 0x2000",
            "reserve 0x10000000000",
            "reserve 0x10000000000",
            "reserve 0x10000000000",
            "reserve 0x10000000000",
            "reserve 0x30000000000",
        ]
    );
    let raw: Raw = match run.result {
        Ok(raw) => raw,
        Err(error) => panic!("unexpected error {:?}", error),
    };
    assert!(!raw.data_small.is_clean());
    assert!(raw.is_clean());
}

#[test]
fn a_heap_without_room_is_lazy_by_itself() {
    let run: Run = run(plan(None, Some(3)), None, true);
    assert_eq!(
        run.requests,
        vec![
            "back heap-owned 0x2000",
            "reserve 0x10000000000",
            "reserve 0x10000000000",
            "reserve 0x10000000000",
            "back heap-ll-0 0x1000",
            "reserve 0x10000000000",
            "back heap-rl-0 0x1000",
            "reserve 0x30000000000",
            "back heap-dl-0 0x100000",
        ]
    );
}

#[test]
fn the_first_failure_ends_a_setup() {
    for fail_at in 0..12 {
        let run: Run = run(plan(Some(1), Some(1)), Some(fail_at), true);
        assert_eq!(run.requests.len(), fail_at + 1);
        let expected: Error = if run.requests[fail_at].starts_with("back") {
            Error::Io(5)
        } else {
            Error::Mmap(12)
        };
        assert_eq!(run.result.err(), Some(expected));
    }
}

#[test]
fn a_store_has_the_regions_that_were_planned() {
    let raw: Raw = raw();
    let step: u64 = 4 * SIZE_RESERVATION;
    let first: u64 = 0x100_0000_0000;
    assert_eq!(raw.shared.id(), "shared");
    assert_eq!(raw.shared.address(), 0x4000_0000);
    assert_eq!(raw.shared.size, 65536);
    assert_eq!(raw.owned.id(), "heap-owned");
    assert_eq!(raw.owned.address(), OWNED);
    assert_eq!(raw.local_small.id(), "heap-ls");
    assert_eq!(raw.local_small.address(), first);
    assert_eq!(raw.remote_small.id(), "heap-rs");
    assert_eq!(raw.remote_small.address(), first + step);
    assert_eq!(raw.local_large.id(), "heap-ll");
    assert_eq!(raw.local_large.address(), first + 2 * step);
    assert_eq!(raw.remote_large.id(), "heap-rl");
    assert_eq!(raw.remote_large.address(), first + 3 * step);
    assert_eq!(raw.data_small.id(), "heap-ds");
    assert_eq!(raw.data_small.size, 0x8000);
    assert_eq!(raw.data_large.id(), "heap-dl");
    assert_eq!(raw.data_large.size, 0x10_0000);
    assert_eq!(raw.data_huge.id(), "heap-dh");
    assert!(!raw.free);
}

#[test]
fn objects_are_in_one_piece() {
    let raw: Raw = raw();
    assert_eq!(raw.data_large.address(), raw.data_small.address() + SIZE_RESERVATION);
    assert_eq!(raw.data_huge.address(), raw.data_large.address() + SIZE_RESERVATION);
}

#[test]
fn names_of_regions_are_distinct() {
    let raw: Raw = raw();
    let mut names: Vec<String> = Vec::new();
    for region in raw.regions() {
        assert!(!names.contains(&region.id().to_string()));
        names.push(region.id().to_string());
    }
    assert_eq!(
        names,
        vec![
            "shared", "heap-owned", "heap-ls", "heap-ll", "heap-rs", "heap-rl", "heap-ds",
            "heap-dl", "heap-dh",
        ]
    );
}

#[test]
fn a_store_over_old_files_is_still_clean() {
    let raw: Raw = match run(plan(Some(1), Some(1)), None, false).result {
        Ok(raw) => raw,
        Err(error) => panic!("unexpected error {:?}", error),
    };
    assert!(!raw.owned.is_clean());
    assert!(!raw.data_small.is_clean());
    assert!(raw.is_clean());
    let mut dirty: Raw = raw;
    dirty.shared.clean = false;
    assert!(!dirty.is_clean());
    dirty.data_large.clean = true;
    assert!(dirty.is_clean());
}

#[test]
fn all_regions_are_unmapped_in_order() {
    let raw: Raw = raw();
    let calls: Vec<UnmapCall> = raw.unmap();
    let regions: Vec<AnyRegion> = raw.regions();
    assert_eq!(calls.len(), 9);
    assert_eq!(calls[0], UnmapCall { address: 0x4000_0000, size: 65536 });
    assert_eq!(calls[1], UnmapCall { address: OWNED, size: 0x2000 });
    for i in 2..9 {
        assert_eq!(calls[i].address, regions[i].address());
        assert_eq!(calls[i].size, SIZE_RESERVATION);
        assert_eq!(calls[i], regions[i].unmap());
    }
    assert!(regions[0].is_clean());
    assert!(!regions[8].is_clean());
}

#[test]
fn the_fixed_regions_are_laid_out() {
    assert_eq!(Raw::shared(&types()), (128, vec![0, 64, 72, 80]));
    assert_eq!(Raw::owned(&types()), (40, vec![0, 10, 20, 30]));
}

#[test]
fn an_allocator_finds_its_parts() {
    let raw: Raw = raw();
    let addresses: Addresses = raw.unfocused(&types());
    assert_eq!(
        addresses,
        Addresses {
            shared: 0x4000_0000,
            owned: OWNED,
            small: HeapAddresses {
                shared: 0x4000_0040,
                owned: OWNED + 10,
                local: raw.local_small.address(),
                remote: raw.remote_small.address(),
                data: raw.data_small.address(),
            },
            large: HeapAddresses {
                shared: 0x4000_0048,
                owned: OWNED + 20,
                local: raw.local_large.address(),
                remote: raw.remote_large.address(),
                data: raw.data_large.address(),
            },
            huge: HugeAddresses {
                shared: 0x4000_0050,
                owned: OWNED + 30,
                data: raw.data_huge.address(),
            },
        }
    );
    let allocator: Allocator = raw.allocator(&types(), id(7));
    assert_eq!(allocator, Allocator { id: id(7), slot: 7, addresses });
}

#[test]
fn nothing_is_mapped_at_null() {
    let raw: Raw = raw();
    assert_eq!(raw.map(id(1), 0), Fault::Finished { mapped: false });
}

#[test]
fn a_fault_says_what_to_count() {
    let fault: Fault = Fault::Try { class: Class::Huge, id: id(1), address: 8 };
    assert_eq!(
        fault.resume(Ok(())),
        (Fault::Finished { mapped: true }, Some(Event::FaultHuge))
    );
    assert_eq!(
        fault.resume(Err(Error::OutOfBounds)),
        (Fault::Finished { mapped: false }, None)
    );
}

#[test]
fn heaps_are_tried_in_order() {
    let mut raw: Raw = raw();
    let fault: Fault = raw.map(id(1), 0x1234);
    assert_eq!(fault, Fault::Try { class: Class::Small, id: id(1), address: 0x1234 });
    let fault: Fault = raw.resume(fault, Err(Error::OutOfBounds));
    assert_eq!(fault, Fault::Try { class: Class::Large, id: id(1), address: 0x1234 });
    let fault: Fault = raw.resume(fault, Err(Error::OutOfBounds));
    assert_eq!(fault, Fault::Try { class: Class::Huge, id: id(1), address: 0x1234 });
    let fault: Fault = raw.resume(fault, Err(Error::OutOfBounds));
    assert_eq!(fault, Fault::Finished { mapped: false });
    assert!(raw.report().iter().all(|report| report.count == 0));
}

#[test]
fn the_heap_that_maps_is_counted() {
    let mut raw: Raw = raw();
    let fault: Fault = raw.map(id(1), 0x1234);
    assert_eq!(raw.resume(fault, Ok(())), Fault::Finished { mapped: true });
    let fault: Fault = raw.map(id(2), 0x1234);
    let fault: Fault = raw.resume(fault, Err(Error::OutOfBounds));
    assert_eq!(raw.resume(fault, Ok(())), Fault::Finished { mapped: true });
    let fault: Fault = raw.map(id(2), 0x1234);
    assert_eq!(raw.resume(fault, Ok(())), Fault::Finished { mapped: true });
    assert_eq!(
        raw.report(),
        vec![
            Report { event: Event::FaultSmall, count: 2 },
            Report { event: Event::FaultLarge, count: 1 },
            Report { event: Event::FaultHuge, count: 0 },
        ]
    );
}

#[test]
fn events_are_counted_separately() {
    let mut recorder: Recorder = Recorder::default();
    recorder.record(Event::FaultHuge);
    recorder.record(Event::FaultHuge);
    recorder.record(Event::FaultLarge);
    let counts: Vec<u64> = recorder.report().iter().map(|report| report.count).collect();
    assert_eq!(counts, vec![0, 1, 2]);
}

#[test]
fn room_is_made_in_whole_slabs() {
    assert_eq!(slab_count(0, 4096), None);
    assert_eq!(slab_count(1, 4096), Some(1));
    assert_eq!(slab_count(4096, 4096), Some(1));
    assert_eq!(slab_count(4097, 4096), Some(2));
    let layout: HeapLayout = HeapLayout { locals: 1, remotes: 2, data: 3 };
    assert!(HeapPlan::new(None, layout).lazy);
    assert!(!HeapPlan::new(Some(1), layout).lazy);
    assert_eq!(HeapPlan::new(Some(1), layout).layout, layout);
}

#[test]
fn a_plan_follows_its_configuration() {
    let config: Config =
        Config { size_small: 0, size_large: 9000, free: true, ..Config::default() };
    assert_eq!(config.slab_counts(4096, 8192), (None, Some(2)));
    let small: HeapLayout = HeapLayout { locals: 1, remotes: 2, data: 3 };
    let large: HeapLayout = HeapLayout { locals: 4, remotes: 5, data: 6 };
    let backend: Backend = Backend { numa: true, populate: None };
    let target: Buffer = Buffer { address_phys: 1, address_virt: 2 };
    let plan: Plan =
        Plan::new(&config, backend, Id::new("heap"), target, 7, 4096, 8192, small, large);
    assert_eq!(plan.backend, backend);
    assert_eq!(plan.id.as_str(), "heap");
    assert_eq!(plan.target, target);
    assert_eq!(plan.owned, 7);
    assert_eq!(plan.small, HeapPlan { lazy: true, layout: small });
    assert_eq!(plan.large, HeapPlan { lazy: false, layout: large });
    assert!(plan.free);
}

#[test]
fn a_store_that_frees_removes_its_files_and_no_others() {
    let all: Vec<&str> = vec![
        "heap-owned",
        "heap-ls-0",
        "heap-ll-12",
        "heap-rs-0",
        "heap-rl-0",
        "heap-ds-7",
        "heap-dl-0",
        "heap-dh-0x2000",
        "shared",
        "heap",
        "heap-xx-0",
        "heap-ds-owned",
        "heap-ds-ls-0",
        "other-ds-0",
    ];
    let names: Vec<String> = all.iter().map(|name| name.to_string()).collect();
    let mut raw: Raw = raw();
    assert!(raw.removals().is_empty());
    assert!(raw.free_files(names.clone()).is_empty());
    raw.free = true;
    assert_eq!(raw.removals().len(), 8);
    assert_eq!(raw.free_files(names), all[..8].to_vec());
}

#[test]
fn types_that_cannot_be_laid_out_are_told() {
    assert!(types().can_be_used());
    let mut few: Types = types();
    few.shared.pop();
    assert!(!few.can_be_used());
    let mut unaligned: Types = types();
    unaligned.owned[2].align = 0;
    assert!(!unaligned.can_be_used());
}

#[test]
fn only_given_limits_are_set() {
    let mut limits: Limits =
        Limits { count_cache_slab: 1, batch_global_push: 2, batch_bump_pop: 3 };
    limits.apply(&Config::default());
    assert_eq!(
        limits,
        Limits { count_cache_slab: 1, batch_global_push: 2, batch_bump_pop: 3 }
    );
    limits.apply(&Config {
        cache_local: Some(10),
        batch_bump: Some(30),
        ..Config::default()
    });
    assert_eq!(
        limits,
        Limits { count_cache_slab: 10, batch_global_push: 2, batch_bump_pop: 30 }
    );
    limits.apply(&Config { batch_global: Some(0), ..Config::default() });
    assert_eq!(limits.batch_global_push, 0);
    assert_eq!(Config::default().thread_count, 1);
}
