//! How a backing store comes about.

use vstd::arithmetic::power::pow;
use vstd::prelude::*;

use crate::error::Error;
use crate::raw::device::Buffer;
use crate::raw::device::BUFFER_SIZE;
use crate::raw::id::byte_len;
use crate::raw::id::joined;
use crate::raw::id::law_joined_len;
use crate::raw::id::Id;
use crate::raw::id::SIZE;
use crate::raw::mapping::BackStep;
use crate::raw::mapping::Backend;
use crate::raw::mapping::Backing;
use crate::raw::mapping::MapCall;
use crate::raw::mapping::Protection;
use crate::raw::mapping::Source;
use crate::raw::mapping::UnmapCall;
use crate::raw::region::Fixed;
use crate::raw::region::Random;
use crate::raw::region::Region;
use crate::raw::region::Reservation;
use crate::raw::region::Sequential;
use crate::raw::region::SIZE_PAGE;
use crate::raw::region::SIZE_RESERVATION;
use crate::raw::Raw;
use crate::round::law_round_up;
use crate::round::next_multiple_of;
use crate::round::round_up;
use crate::stat::Event;
use crate::stat::Recorder;
use crate::text::digits;
use crate::text::law_digits_are_few;

verus! {

/// What is asked of a backing store.
#[derive(Clone, Copy, Debug, PartialEq, Eq, Structural)]
pub struct Config {
    /// How many bytes of small objects to make room for at once. If zero, room
    /// is made as it is needed.
    pub size_small: u64,
    /// How many bytes of large objects to make room for at once. If zero, room
    /// is made as it is needed.
    pub size_large: u64,
    /// How many threads will use the heap.
    pub thread_count: u64,
    /// Whether the files are removed in the end.
    pub free: bool,
    /// How many slabs a thread keeps to itself.
    pub cache_local: Option<u64>,
    /// How many slabs a thread hands over at once.
    pub batch_global: Option<u64>,
    /// How many slabs a thread takes at once.
    pub batch_bump: Option<u64>,
}

impl Default for Config {
    /// No room in advance, one thread, and nothing out of the ordinary.
    fn default() -> (config: Self)
        ensures
            config == (Config {
                size_small: 0,
                size_large: 0,
                thread_count: 1,
                free: false,
                cache_local: None,
                batch_global: None,
                batch_bump: None,
            }),
    {
        Config {
            size_small: 0,
            size_large: 0,
            thread_count: 1,
            free: false,
            cache_local: None,
            batch_global: None,
            batch_bump: None,
        }
    }
}

/// Limits that hold for all heaps of a process.
#[derive(Clone, Copy, Debug, PartialEq, Eq, Structural)]
pub struct Limits {
    /// How many slabs a thread keeps to itself.
    pub count_cache_slab: u64,
    /// How many slabs a thread hands over at once.
    pub batch_global_push: u64,
    /// How many slabs a thread takes at once.
    pub batch_bump_pop: u64,
}

impl Limits {
    /// Sets the limits that a configuration gives and leaves the others.
    pub fn apply(&mut self, config: &Config)
        ensures
            final(self).count_cache_slab == (match config.cache_local {
                Some(count) => count,
                None => old(self).count_cache_slab,
            }),
            final(self).batch_global_push == (match config.batch_global {
                Some(count) => count,
                None => old(self).batch_global_push,
            }),
            final(self).batch_bump_pop == (match config.batch_bump {
                Some(count) => count,
                None => old(self).batch_bump_pop,
            }),
    {
        if let Some(cache_local) = config.cache_local {
            self.count_cache_slab = cache_local;
        }
        if let Some(batch_global) = config.batch_global {
            self.batch_global_push = batch_global;
        }
        if let Some(batch_bump) = config.batch_bump {
            self.batch_bump_pop = batch_bump;
        }
    }
}

/// Whether a number of slabs has room for a number of bytes, and no smaller one
/// has.
pub open spec fn slabs_hold(count: Option<u64>, slab: u64, size: u64) -> bool {
    match count {
        None => size == 0,
        Some(count) => count > 0 && (count - 1) * slab < size <= count * slab,
    }
}

/// How many slabs it takes to make room for a number of bytes, if it takes any.
pub fn slab_count(size: u64, slab: u64) -> (count: Option<u64>)
    requires
        slab > 0,
        round_up(size as int, slab as int) <= u64::MAX,
    ensures
        slabs_hold(count, slab, size),
{
    proof {
        law_round_up(size as int, slab as int);
    }
    let rounded: u64 = next_multiple_of(size, slab);
    let count: u64 = rounded / slab;
    proof {
        vstd::arithmetic::div_mod::lemma_fundamental_div_mod(rounded as int, slab as int);
        vstd::arithmetic::mul::lemma_mul_is_commutative(count as int, slab as int);
        vstd::arithmetic::mul::lemma_mul_is_distributive_sub_other_way(
            slab as int,
            count as int,
            1,
        );
        assert(rounded == count * slab);
        assert((count - 1) * slab == rounded - slab);
    }
    if count == 0 {
        None
    } else {
        Some(count)
    }
}

/// How many bytes the parts of a heap need.
#[derive(Clone, Copy, Debug, PartialEq, Eq, Structural)]
pub struct HeapLayout {
    /// The metadata of slabs that their owners use.
    pub locals: u64,
    /// The metadata of slabs that other threads use.
    pub remotes: u64,
    /// The objects.
    pub data: u64,
}

/// The extents of a heap.
#[derive(Clone, Copy, Debug, PartialEq, Eq, Structural)]
pub struct HeapPlan {
    /// Whether the first extents are left until they are used.
    pub lazy: bool,
    /// How many bytes an extent of each part needs.
    pub layout: HeapLayout,
}

impl HeapPlan {
    /// The extents of a heap with room for a number of slabs, which need what
    /// `layout` says. A heap without room in advance is lazy, and `layout` is
    /// that of an extent to come.
    pub fn new(count: Option<u64>, layout: HeapLayout) -> (plan: Self)
        ensures
            plan == (HeapPlan { lazy: count is None, layout }),
    {
        HeapPlan { lazy: count.is_none(), layout }
    }
}

/// What there is to know of a region.
#[verifier::ext_equal]
pub struct Shape {
    /// Its name.
    pub name: Seq<char>,
    /// Whether it began with new memory.
    pub clean: bool,
    /// Where it begins.
    pub address: int,
    /// How many bytes it has, or an extent of it.
    pub size: int,
}

/// What there is to know of a region of fixed size.
pub open spec fn fixed_shape(region: Fixed) -> Shape {
    Shape {
        name: region.id@,
        clean: region.clean,
        address: region.address as int,
        size: region.size as int,
    }
}

/// What there is to know of a region that grows.
pub open spec fn sequential_shape(region: Sequential) -> Shape {
    Shape {
        name: region.id@,
        clean: region.clean,
        address: region.reservation.address as int,
        size: region.size as int,
    }
}

/// What a backing store is made from.
#[derive(Clone, Copy, Debug)]
pub struct Plan {
    /// How the backend wants its files to be mapped.
    pub backend: Backend,
    /// The name of the heap.
    pub id: Id,
    /// The memory that the device operates on.
    pub target: Buffer,
    /// How many bytes threads own of the heap besides objects.
    pub owned: u64,
    /// The small heap.
    pub small: HeapPlan,
    /// The large heap.
    pub large: HeapPlan,
    /// Whether the files are removed in the end.
    pub free: bool,
}

/// How many regions of a backing store grow. The region of huge objects comes
/// after them.
pub const REGIONS: usize = 6;

impl Config {
    /// How many slabs of each kind it takes to make the room that is asked for:
    /// of small objects, and of large ones.
    pub fn slab_counts(&self, slab_small: u64, slab_large: u64) -> (counts: (
        Option<u64>,
        Option<u64>,
    ))
        requires
            0 < slab_small,
            0 < slab_large,
            round_up(self.size_small as int, slab_small as int) <= u64::MAX,
            round_up(self.size_large as int, slab_large as int) <= u64::MAX,
        ensures
            slabs_hold(counts.0, slab_small, self.size_small),
            slabs_hold(counts.1, slab_large, self.size_large),
    {
        (slab_count(self.size_small, slab_small), slab_count(self.size_large, slab_large))
    }
}

impl Plan {
    /// What the backing store of a heap is made from.
    ///
    /// `small` and `large` say how many bytes the parts of the heaps need for the
    /// slabs that [`Config::slab_counts`] gives, or for an extent to come where it
    /// gives none.
    pub fn new(
        config: &Config,
        backend: Backend,
        id: Id,
        target: Buffer,
        owned: u64,
        slab_small: u64,
        slab_large: u64,
        small: HeapLayout,
        large: HeapLayout,
    ) -> (plan: Plan)
        requires
            0 < slab_small,
            0 < slab_large,
            round_up(config.size_small as int, slab_small as int) <= u64::MAX,
            round_up(config.size_large as int, slab_large as int) <= u64::MAX,
        ensures
            plan == (Plan {
                backend,
                id,
                target,
                owned,
                small: HeapPlan { lazy: config.size_small == 0, layout: small },
                large: HeapPlan { lazy: config.size_large == 0, layout: large },
                free: config.free,
            }),
    {
        let (count_small, count_large): (Option<u64>, Option<u64>) = config.slab_counts(
            slab_small,
            slab_large,
        );
        Plan {
            backend,
            id,
            target,
            owned,
            small: HeapPlan::new(count_small, small),
            large: HeapPlan::new(count_large, large),
            free: config.free,
        }
    }

    /// The suffix that the name of a region ends in: metadata of the small heap,
    /// metadata of the large heap, the objects of both, and huge objects.
    pub open spec fn suffix_spec(index: int) -> Seq<char> {
        if index == 0 {
            "ls"@
        } else if index == 1 {
            "rs"@
        } else if index == 2 {
            "ll"@
        } else if index == 3 {
            "rl"@
        } else if index == 4 {
            "ds"@
        } else if index == 5 {
            "dl"@
        } else {
            "dh"@
        }
    }

    /// The heap that a growing region belongs to.
    pub open spec fn heap(&self, index: int) -> HeapPlan {
        if index == 0 || index == 1 || index == 4 {
            self.small
        } else {
            self.large
        }
    }

    /// How many bytes an extent of a growing region has to have.
    pub open spec fn need(&self, index: int) -> u64 {
        if index == 0 || index == 2 {
            self.heap(index).layout.locals
        } else if index == 1 || index == 3 {
            self.heap(index).layout.remotes
        } else {
            self.heap(index).layout.data
        }
    }

    /// The name of a region with a suffix of its own.
    pub open spec fn name(&self, index: int) -> Seq<char> {
        joined(self.id@, Plan::suffix_spec(index))
    }

    /// A growing region, given where it begins and whether it began with new
    /// memory.
    pub open spec fn shape(&self, index: int, address: int, clean: bool) -> Shape {
        Shape {
            name: self.name(index),
            clean,
            address,
            size: round_up(self.need(index) as int, SIZE_PAGE as int),
        }
    }

    /// The name leaves room for suffixes, and sizes are neither zero nor too
    /// large to be rounded up to pages.
    pub open spec fn wf(&self) -> bool {
        &&& byte_len(self.id@) + 6 <= SIZE
        &&& self.target.address_virt != 0
        &&& round_up(self.owned as int, SIZE_PAGE as int) <= u64::MAX
        &&& forall|i: int|
            0 <= i < REGIONS ==> 0 < #[trigger] self.need(i) && round_up(
                self.need(i) as int,
                SIZE_PAGE as int,
            ) <= u64::MAX
    }

    fn suffix(index: usize) -> (suffix: &'static str)
        requires
            index <= REGIONS,
        ensures
            suffix@ == Plan::suffix_spec(index as int),
            byte_len(suffix@) == 2,
    {
        let suffix: &'static str = match index {
            0 => "ls",
            1 => "rs",
            2 => "ll",
            3 => "rl",
            4 => "ds",
            5 => "dl",
            _ => "dh",
        };
        proof {
            lemma_suffixes();
            assert(vstd::utf8::is_ascii_chars(suffix@));
            vstd::utf8::is_ascii_chars_encode_utf8(suffix@);
        }
        suffix
    }

    fn region_id(&self, index: usize) -> (id: Id)
        requires
            self.wf(),
            index <= REGIONS,
        ensures
            id@ == self.name(index as int),
            byte_len(id@) == byte_len(self.id@) + 3,
    {
        let suffix: &'static str = Plan::suffix(index);
        proof {
            law_joined_len(self.id@, suffix@);
        }
        self.id.with_suffix(suffix)
    }

    fn extent(&self, index: usize) -> (size: u64)
        requires
            index < REGIONS,
        ensures
            size == self.need(index as int),
    {
        match index {
            0 => self.small.layout.locals,
            1 => self.small.layout.remotes,
            2 => self.large.layout.locals,
            3 => self.large.layout.remotes,
            4 => self.small.layout.data,
            _ => self.large.layout.data,
        }
    }

    fn is_lazy(&self, index: usize) -> (lazy: bool)
        requires
            index < REGIONS,
        ensures
            lazy == self.heap(index as int).lazy,
    {
        match index {
            0 => self.small.lazy,
            1 => self.small.lazy,
            4 => self.small.lazy,
            _ => self.large.lazy,
        }
    }
}

/// What a setup waits for.
#[derive(Clone, Copy, Debug)]
pub enum SetupStep {
    /// Memory to be backed by a file.
    Back {
        /// The backing, which has not begun.
        backing: Backing,
    },
    /// Addresses to be reserved.
    Reserve {
        /// The request.
        call: MapCall,
    },
    /// Nothing.
    Finished {
        /// Whether all regions are there, or why not.
        result: Result<(), Error>,
    },
}

/// A backing store on its way.
///
/// The region that threads own is backed first. Then each growing region gets
/// addresses, and a file behind its first extent unless it is lazy. The regions
/// of objects get their addresses together, with those of huge objects at the
/// end.
pub struct Setup {
    plan: Plan,
    shared: Fixed,
    owned: Option<Fixed>,
    reservations: Vec<Reservation>,
    regions: Vec<Sequential>,
    step: SetupStep,
}

spec fn parts_wf(
    plan: Plan,
    owned: Option<Fixed>,
    reservations: Seq<Reservation>,
    regions: Seq<Sequential>,
) -> bool {
    let index = regions.len();
    let count = reservations.len();
    &&& owned matches Some(region) ==> {
        &&& region.id@ == joined(plan.id@, "owned"@)
        &&& region.address != 0
        &&& region.size == round_up(plan.owned as int, SIZE_PAGE as int)
    }
    &&& index <= REGIONS
    &&& owned is None ==> count == 0
    &&& index < 4 ==> count == index || count == index + 1
    &&& index == 4 ==> count == 4 || count == 7
    &&& index > 4 ==> count == 7
    &&& forall|i: int| 0 <= i < count ==> (#[trigger] reservations[i]).wf()
    &&& count == 7 ==> {
        &&& reservations[5].address == reservations[4].address + SIZE_RESERVATION
        &&& reservations[6].address == reservations[5].address + SIZE_RESERVATION
    }
    &&& forall|i: int|
        0 <= i < index ==> {
            let region = #[trigger] regions[i];
            &&& region.wf()
            &&& region.reservation == reservations[i]
            &&& plan.heap(i).lazy ==> !region.clean
            &&& sequential_shape(region) == plan.shape(
                i,
                region.reservation.address as int,
                region.clean,
            )
        }
}

/// How far a setup has come.
#[verifier::ext_equal]
pub struct Progress {
    /// The region that threads own.
    pub owned: Option<Shape>,
    /// The addresses of the growing regions, and of the region of huge objects.
    pub reservations: Seq<int>,
    /// The growing regions that are there.
    pub regions: Seq<Shape>,
}

impl Progress {
    /// Nothing is there.
    pub open spec fn start() -> Progress {
        Progress { owned: None, reservations: seq![], regions: seq![] }
    }

    /// Whether the next growing region has its addresses.
    pub open spec fn reserved(self) -> bool {
        self.regions.len() < self.reservations.len()
    }

    /// Adds the growing regions that come next, have addresses, and are lazy.
    pub open spec fn skipping(self, plan: Plan) -> Progress
        decreases REGIONS - self.regions.len(),
    {
        let index = self.regions.len() as int;
        if index < REGIONS && self.reserved() && plan.heap(index).lazy {
            Progress {
                regions: self.regions.push(plan.shape(index, self.reservations[index], false)),
                ..self
            }.skipping(plan)
        } else {
            self
        }
    }

    /// Adds the next growing region, with a file behind its first extent.
    pub open spec fn backing(self, plan: Plan, clean: bool) -> Progress {
        let index = self.regions.len() as int;
        Progress {
            regions: self.regions.push(plan.shape(index, self.reservations[index], clean)),
            ..self
        }.skipping(plan)
    }

    /// How many bytes of addresses are reserved next.
    pub open spec fn request(self) -> int {
        if self.regions.len() == 4 {
            3 * SIZE_RESERVATION
        } else {
            SIZE_RESERVATION as int
        }
    }

    /// Adds the addresses that were reserved.
    pub open spec fn reserving(self, plan: Plan, address: int) -> Progress {
        let addresses = if self.regions.len() == 4 {
            seq![address, address + SIZE_RESERVATION, address + 2 * SIZE_RESERVATION]
        } else {
            seq![address]
        };
        Progress { reservations: self.reservations + addresses, ..self }.skipping(plan)
    }
}

impl Setup {
    /// What the backing store is made from.
    pub closed spec fn plan(&self) -> Plan {
        self.plan
    }

    /// What the setup waits for.
    pub closed spec fn step_spec(&self) -> SetupStep {
        self.step
    }

    /// How far the setup has come.
    pub closed spec fn progress(&self) -> Progress {
        Progress {
            owned: match self.owned {
                Some(region) => Some(fixed_shape(region)),
                None => None,
            },
            reservations: self.reservations@.map_values(|r: Reservation| r.address as int),
            regions: self.regions@.map_values(|r: Sequential| sequential_shape(r)),
        }
    }

    /// The setup waits for what has to come next.
    pub open spec fn waits(&self) -> bool {
        let progress = self.progress();
        let plan = self.plan();
        let index = progress.regions.len() as int;
        match self.step_spec() {
            SetupStep::Back { backing } => {
                &&& backing.wf()
                &&& backing.step_spec() is Allocate
                &&& backing.backend() == plan.backend
                &&& match progress.owned {
                    None => {
                        &&& backing.id() == joined(plan.id@, "owned"@)
                        &&& backing.address() is None
                        &&& backing.size() == round_up(plan.owned as int, SIZE_PAGE as int)
                    },
                    Some(_) => {
                        &&& index < REGIONS
                        &&& progress.reserved()
                        &&& !plan.heap(index).lazy
                        &&& backing.id() == joined(plan.name(index), digits(0, 10))
                        &&& backing.address() matches Some(address) && address
                            == progress.reservations[index]
                        &&& backing.size() == round_up(plan.need(index) as int, SIZE_PAGE as int)
                    },
                }
            },
            SetupStep::Reserve { call } => {
                &&& progress.owned is Some
                &&& index < REGIONS
                &&& !progress.reserved()
                &&& call == (MapCall {
                    address: None,
                    size: progress.request() as u64,
                    protection: Protection::Inaccessible,
                    source: Source::Anonymous,
                    populate: false,
                })
            },
            SetupStep::Finished { result } => result is Ok ==> {
                &&& progress.owned is Some
                &&& index == REGIONS
            },
        }
    }

    /// What is there is as planned, and the setup waits for what comes next.
    pub closed spec fn wf(&self) -> bool {
        &&& self.plan.wf()
        &&& fixed_shape(self.shared) == (Shape {
            name: "shared"@,
            clean: true,
            address: self.plan.target.address_virt as int,
            size: BUFFER_SIZE as int,
        })
        &&& self.parts_wf()
        &&& self.waits()
    }

    spec fn parts_wf(&self) -> bool {
        parts_wf(self.plan, self.owned, self.reservations@, self.regions@)
    }

    /// The setup of a backing store.
    pub fn new(plan: Plan) -> (setup: Self)
        requires
            plan.wf(),
        ensures
            setup.wf(),
            setup.plan() == plan,
            setup.progress() == Progress::start(),
            setup.step_spec() is Back,
            setup.waits(),
    {
        let owned: &str = "owned";
        let name: &str = "shared";
        proof {
            reveal_strlit("owned");
            reveal_strlit("shared");
            assert(vstd::utf8::is_ascii_chars(owned@));
            assert(vstd::utf8::is_ascii_chars(name@));
            vstd::utf8::is_ascii_chars_encode_utf8(owned@);
            vstd::utf8::is_ascii_chars_encode_utf8(name@);
        }
        let shared: Fixed = Fixed {
            id: Id::new(name),
            clean: true,
            address: plan.target.address_virt,
            size: BUFFER_SIZE,
        };
        let backing: Backing = Fixed::plan(plan.backend, plan.id.with_suffix(owned), plan.owned);
        let setup: Setup = Setup {
            plan,
            shared,
            owned: None,
            reservations: Vec::new(),
            regions: Vec::new(),
            step: SetupStep::Back { backing },
        };
        assert(setup.progress() =~= Progress::start());
        setup
    }

    /// What the setup waits for.
    pub fn step(&self) -> (step: SetupStep)
        ensures
            step == self.step_spec(),
    {
        self.step
    }

    /// Goes on to what comes next, past lazy regions.
    fn proceed(&mut self)
        requires
            old(self).plan.wf(),
            old(self).owned is Some,
            old(self).parts_wf(),
        ensures
            final(self).plan == old(self).plan,
            final(self).shared == old(self).shared,
            final(self).parts_wf(),
            final(self).progress() == old(self).progress().skipping(old(self).plan),
            final(self).waits(),
            final(self).step matches SetupStep::Finished { result } ==> result is Ok,
    {
        while self.regions.len() < REGIONS
            invariant
                self.plan == old(self).plan,
                self.shared == old(self).shared,
                self.plan.wf(),
                self.owned is Some,
                self.parts_wf(),
                self.progress().skipping(self.plan) == old(self).progress().skipping(
                    old(self).plan,
                ),
            decreases REGIONS - self.regions@.len(),
        {
            let index: usize = self.regions.len();
            assert(0 < self.plan.need(index as int));
            if index >= self.reservations.len() {
                let call: MapCall = if index == 4 {
                    Reservation::mmap(Reservation::contiguous_size::<3>())
                } else {
                    Reservation::mmap(SIZE_RESERVATION)
                };
                self.step = SetupStep::Reserve { call };
                assert(self.progress() =~= self.progress().skipping(self.plan));
                return ;
            }
            let id: Id = self.plan.region_id(index);
            let reservation: Reservation = self.reservations[index];
            let size: u64 = self.plan.extent(index);
            proof {
                lemma_zero_is_short();
            }
            let lazy: bool = self.plan.is_lazy(index);
            let planned: Option<Backing> = Sequential::plan(
                self.plan.backend,
                id,
                reservation,
                size,
                lazy,
            );
            match planned {
                Some(backing) => {
                    self.step = SetupStep::Back { backing };
                    assert(self.progress() =~= self.progress().skipping(self.plan));
                    return ;
                },
                None => {
                    let ghost before = self.progress();
                    if let Ok(region) = Sequential::new(id, reservation, size, None) {
                        self.regions.push(region);
                        proof {
                            self.lemma_pushed(before, region);
                        }
                    }
                },
            }
        }
        self.step = SetupStep::Finished { result: Ok(()) };
        assert(self.progress() =~= self.progress().skipping(self.plan));
    }

    proof fn lemma_pushed(&self, before: Progress, region: Sequential)
        requires
            self.regions@.len() > 0,
            self.regions@.last() == region,
            before.owned == self.progress().owned,
            before.reservations == self.progress().reservations,
            before.regions.len() == self.regions@.len() - 1,
            forall|i: int|
                0 <= i < before.regions.len() ==> #[trigger] before.regions[i] == sequential_shape(
                    self.regions@[i],
                ),
        ensures
            self.progress() == (Progress {
                regions: before.regions.push(sequential_shape(region)),
                ..before
            }),
    {
        assert(self.progress().regions =~= before.regions.push(sequential_shape(region)));
    }

    /// Takes the memory that has been backed, or the error. An error ends the
    /// setup; what has been backed or reserved before stays as it is.
    pub fn backed(&mut self, backing: Backing)
        requires
            old(self).wf(),
            old(self).step_spec() matches SetupStep::Back { backing: planned } && backing.same(
                &planned,
            ),
            backing.wf(),
            backing.step_spec() is Finished,
        ensures
            final(self).wf(),
            final(self).waits(),
            final(self).plan() == old(self).plan(),
            backing.step_spec() matches BackStep::Finished { result } && match result {
                Err(error) => {
                    &&& final(self).progress() == old(self).progress()
                    &&& final(self).step_spec() == (SetupStep::Finished { result: Err(error) })
                },
                Ok(memory) => {
                    &&& final(self).step_spec() matches SetupStep::Finished { result } ==> result is Ok
                    &&& final(self).progress() == (match old(self).progress().owned {
                        None => Progress {
                            owned: Some(
                                Shape {
                                    name: joined(old(self).plan().id@, "owned"@),
                                    clean: memory.clean,
                                    address: memory.address as int,
                                    size: round_up(
                                        old(self).plan().owned as int,
                                        SIZE_PAGE as int,
                                    ),
                                },
                            ),
                            ..old(self).progress()
                        },
                        Some(_) => old(self).progress().backing(old(self).plan(), memory.clean),
                    })
                },
            },
    {
        let ghost before = self.progress();
        if self.owned.is_none() {
            match Fixed::new(&backing) {
                Err(error) => {
                    self.step = SetupStep::Finished { result: Err(error) };
                },
                Ok(region) => {
                    self.owned = Some(region);
                    self.proceed();
                },
            }
        } else {
            let index: usize = self.regions.len();
            let id: Id = self.plan.region_id(index);
            let reservation: Reservation = self.reservations[index];
            let size: u64 = self.plan.extent(index);
            assert(0 < self.plan.need(index as int));
            match Sequential::new(id, reservation, size, Some(backing)) {
                Err(error) => {
                    self.step = SetupStep::Finished { result: Err(error) };
                },
                Ok(region) => {
                    self.regions.push(region);
                    proof {
                        self.lemma_pushed(before, region);
                    }
                    self.proceed();
                },
            }
        }
    }

    /// Takes where addresses were reserved, or the error code. A failure ends
    /// the setup; what has been backed or reserved before stays as it is.
    pub fn reserved(&mut self, reply: Result<u64, i32>)
        requires
            old(self).wf(),
            old(self).step_spec() is Reserve,
            reply matches Ok(address) ==> address != 0 && address + old(self).progress().request()
                <= u64::MAX,
        ensures
            final(self).wf(),
            final(self).waits(),
            final(self).plan() == old(self).plan(),
            match reply {
                Err(code) => {
                    &&& final(self).progress() == old(self).progress()
                    &&& final(self).step_spec() == (SetupStep::Finished {
                        result: Err(Error::Mmap(code)),
                    })
                },
                Ok(address) => {
                    &&& final(self).step_spec() matches SetupStep::Finished { result } ==> result is Ok
                    &&& final(self).progress() == old(self).progress().reserving(
                        old(self).plan(),
                        address as int,
                    )
                },
            },
    {
        let ghost before = self.progress();
        if self.regions.len() == 4 {
            match Reservation::new_contiguous::<3>(reply) {
                Err(error) => {
                    self.step = SetupStep::Finished { result: Err(error) };
                },
                Ok(reservations) => {
                    self.reservations.push(reservations[0]);
                    self.reservations.push(reservations[1]);
                    self.reservations.push(reservations[2]);
                    proof {
                        let address = reply->Ok_0 as int;
                        let addresses = seq![
                            address,
                            address + SIZE_RESERVATION,
                            address + 2 * SIZE_RESERVATION,
                        ];
                        assert(self.progress().reservations =~= before.reservations + addresses);
                    }
                    self.proceed();
                },
            }
        } else {
            match Reservation::new(reply) {
                Err(error) => {
                    self.step = SetupStep::Finished { result: Err(error) };
                },
                Ok(reservation) => {
                    self.reservations.push(reservation);
                    proof {
                        let addresses = seq![reply->Ok_0 as int];
                        assert(self.progress().reservations =~= before.reservations + addresses);
                    }
                    self.proceed();
                },
            }
        }
    }
}

/// Whatever has been replied so far, the regions that are there have the names
/// and sizes that were planned. Those that grow begin where their addresses do,
/// and began with new memory only if they are not lazy. The addresses of objects
/// are in one piece. The setup waits for what comes next; once it has ended well,
/// all regions are there.
pub proof fn law_regions_are_as_planned(setup: Setup)
    requires
        setup.wf(),
    ensures
        ({
            let plan = setup.plan();
            let progress = setup.progress();
            &&& plan.wf()
            &&& setup.waits()
            &&& progress.owned matches Some(owned) ==> {
                &&& owned.name == joined(plan.id@, "owned"@)
                &&& owned.address != 0
                &&& owned.size == round_up(plan.owned as int, SIZE_PAGE as int)
            }
            &&& setup.step_spec() matches SetupStep::Finished { result } ==> (result is Ok ==> {
                &&& progress.owned is Some
                &&& progress.regions.len() == REGIONS
                &&& progress.reservations.len() == REGIONS + 1
            })
            &&& progress.regions.len() <= REGIONS
            &&& progress.regions.len() <= progress.reservations.len() <= REGIONS + 1
            &&& forall|i: int|
                0 <= i < progress.regions.len() ==> {
                    let region = #[trigger] progress.regions[i];
                    &&& region == plan.shape(i, progress.reservations[i], region.clean)
                    &&& plan.heap(i).lazy ==> !region.clean
                }
            &&& progress.reservations.len() == REGIONS + 1 ==> {
                &&& progress.reservations[5] == progress.reservations[4] + SIZE_RESERVATION
                &&& progress.reservations[6] == progress.reservations[5] + SIZE_RESERVATION
            }
        }),
{
    let progress = setup.progress();
    assert forall|i: int| 0 <= i < progress.regions.len() implies {
        let region = #[trigger] progress.regions[i];
        &&& region == setup.plan().shape(i, progress.reservations[i], region.clean)
        &&& setup.plan().heap(i).lazy ==> !region.clean
    } by {
        let region = setup.regions@[i];
        assert(progress.regions[i] == sequential_shape(region));
    }
}

/// Every reply but an error brings a setup closer to its end. Together with
/// [`law_regions_are_as_planned`], which bounds how far a setup can come, a
/// setup ends.
pub proof fn law_setup_advances(progress: Progress, plan: Plan, clean: bool, address: int)
    ensures
        ({
            let backed = progress.backing(plan, clean);
            &&& backed.reservations == progress.reservations
            &&& backed.regions.len() > progress.regions.len()
        }),
        ({
            let reserved = progress.reserving(plan, address);
            &&& reserved.reservations.len() > progress.reservations.len()
            &&& reserved.regions.len() >= progress.regions.len()
        }),
{
    let index = progress.regions.len() as int;
    let backed = Progress {
        regions: progress.regions.push(plan.shape(index, progress.reservations[index], clean)),
        ..progress
    };
    lemma_skipping_only_adds(backed, plan);
    let addresses = if index == 4 {
        seq![address, address + SIZE_RESERVATION, address + 2 * SIZE_RESERVATION]
    } else {
        seq![address]
    };
    let reserved = Progress { reservations: progress.reservations + addresses, ..progress };
    lemma_skipping_only_adds(reserved, plan);
}

proof fn lemma_skipping_only_adds(progress: Progress, plan: Plan)
    ensures
        progress.skipping(plan).owned == progress.owned,
        progress.skipping(plan).reservations == progress.reservations,
        progress.skipping(plan).regions.len() >= progress.regions.len(),
    decreases REGIONS - progress.regions.len(),
{
    let index = progress.regions.len() as int;
    if index < REGIONS && progress.reserved() && plan.heap(index).lazy {
        let next = Progress {
            regions: progress.regions.push(plan.shape(index, progress.reservations[index], false)),
            ..progress
        };
        lemma_skipping_only_adds(next, plan);
    }
}

/// No two regions of a backing store have the same name, and no file of one has
/// the name of a file of another, whatever their own suffixes are.
pub proof fn law_names_are_distinct(
    plan: Plan,
    i: int,
    j: int,
    first: Seq<char>,
    second: Seq<char>,
)
    requires
        0 <= i < j <= REGIONS,
    ensures
        plan.name(i) != plan.name(j),
        joined(plan.name(i), first) != joined(plan.name(j), second),
        plan.name(i) != joined(plan.id@, "owned"@),
        plan.name(j) != joined(plan.id@, "owned"@),
        joined(plan.name(i), first) != joined(plan.id@, "owned"@),
        joined(plan.name(j), second) != joined(plan.id@, "owned"@),
        joined(plan.id@, "owned"@) != "shared"@,
        plan.name(i) != "shared"@,
        plan.name(j) != "shared"@,
{
    lemma_suffixes();
    reveal_strlit("owned");
    reveal_strlit("shared");
    let start = plan.id@.len() as int;
    let owned = joined(plan.id@, "owned"@);
    let one = Plan::suffix_spec(i);
    let other = Plan::suffix_spec(j);
    assert(one.len() == 2 && other.len() == 2);
    assert(one[0] != other[0] || one[1] != other[1]);
    assert(plan.name(i)[start + 1] == one[0] && plan.name(i)[start + 2] == one[1]);
    assert(plan.name(j)[start + 1] == other[0] && plan.name(j)[start + 2] == other[1]);
    assert(owned[start + 1] == 'o' && owned[start + 2] == 'w');
    let deeper = joined(plan.name(i), first);
    assert(deeper[start + 1] == one[0] && deeper[start + 2] == one[1]);
    let deeper = joined(plan.name(j), second);
    assert(deeper[start + 1] == other[0] && deeper[start + 2] == other[1]);
    assert(owned[start] == '-' && plan.name(i)[start] == '-' && plan.name(j)[start] == '-');
    let shared = "shared"@;
    assert(forall|k: int| 0 <= k < shared.len() ==> #[trigger] shared[k] != '-');
}

/// The characters of all suffixes.
pub(crate) proof fn lemma_suffixes()
    ensures
        Plan::suffix_spec(0) == seq!['l', 's'],
        Plan::suffix_spec(1) == seq!['r', 's'],
        Plan::suffix_spec(2) == seq!['l', 'l'],
        Plan::suffix_spec(3) == seq!['r', 'l'],
        Plan::suffix_spec(4) == seq!['d', 's'],
        Plan::suffix_spec(5) == seq!['d', 'l'],
        Plan::suffix_spec(6) == seq!['d', 'h'],
{
    reveal_strlit("ls");
    reveal_strlit("rs");
    reveal_strlit("ll");
    reveal_strlit("rl");
    reveal_strlit("ds");
    reveal_strlit("dl");
    reveal_strlit("dh");
    assert("ls"@ =~= seq!['l', 's']);
    assert("rs"@ =~= seq!['r', 's']);
    assert("ll"@ =~= seq!['l', 'l']);
    assert("rl"@ =~= seq!['r', 'l']);
    assert("ds"@ =~= seq!['d', 's']);
    assert("dl"@ =~= seq!['d', 'l']);
    assert("dh"@ =~= seq!['d', 'h']);
}

/// If a heap has a name of at most sixteen bytes, then the names of all files
/// within its reservations fit.
pub proof fn law_short_names_fit(name: Seq<char>, suffix: Seq<char>, size: u64, offset: u64)
    requires
        byte_len(name) <= 16,
        byte_len(suffix) == 2,
        size >= SIZE_PAGE,
        offset < SIZE_RESERVATION,
    ensures
        byte_len(joined(joined(name, suffix), digits((offset / size) as nat, 10))) <= SIZE,
        byte_len(joined(joined(name, suffix), seq!['0', 'x'] + digits(offset as nat, 16))) <= SIZE,
{
    let index = offset / size;
    assert(index < 0x1000_0000) by (nonlinear_arith)
        requires
            index == offset / size,
            size >= 4096,
            offset < 0x100_0000_0000,
    ;
    assert(pow(10, 9) == 1_000_000_000) by {
        reveal_with_fuel(pow, 10);
    }
    assert(pow(16, 10) == 0x100_0000_0000) by {
        reveal_with_fuel(pow, 11);
    }
    law_digits_are_few(index as nat, 10, 9);
    law_digits_are_few(offset as nat, 16, 10);
    let decimal = digits(index as nat, 10);
    let hexadecimal = seq!['0', 'x'] + digits(offset as nat, 16);
    assert(vstd::utf8::is_ascii_chars(hexadecimal));
    vstd::utf8::is_ascii_chars_encode_utf8(decimal);
    vstd::utf8::is_ascii_chars_encode_utf8(hexadecimal);
    law_joined_len(name, suffix);
    law_joined_len(joined(name, suffix), decimal);
    law_joined_len(joined(name, suffix), hexadecimal);
}

impl Raw {
    /// Whether this is what a setup has come to.
    pub open spec fn made_by(&self, setup: Setup) -> bool {
        let plan = setup.plan();
        let progress = setup.progress();
        &&& self.backend == plan.backend
        &&& self.free == plan.free
        &&& fixed_shape(self.shared) == (Shape {
            name: "shared"@,
            clean: true,
            address: plan.target.address_virt as int,
            size: BUFFER_SIZE as int,
        })
        &&& Some(fixed_shape(self.owned)) == progress.owned
        &&& sequential_shape(self.local_small) == progress.regions[0]
        &&& sequential_shape(self.remote_small) == progress.regions[1]
        &&& sequential_shape(self.local_large) == progress.regions[2]
        &&& sequential_shape(self.remote_large) == progress.regions[3]
        &&& sequential_shape(self.data_small) == progress.regions[4]
        &&& sequential_shape(self.data_large) == progress.regions[5]
        &&& self.data_huge.id@ == plan.name(REGIONS as int)
        &&& self.data_huge.start() == progress.reservations[REGIONS as int]
        &&& forall|event: Event| #[trigger] self.stat.count(event) == 0
    }

    /// The backing store that a setup has come to, or why there is none.
    pub fn new(setup: Setup) -> (result: Result<Raw, Error>)
        requires
            setup.wf(),
            setup.step_spec() is Finished,
        ensures
            setup.step_spec() matches SetupStep::Finished { result: ended } && match (
                ended,
                result,
            ) {
                (Err(error), Err(returned)) => returned == error,
                (Ok(()), Ok(raw)) => {
                    let plan = setup.plan();
                    &&& raw.wf()
                    &&& raw.any_clean()
                    &&& raw.made_by(setup)
                    &&& raw.local_small.size == round_up(plan.small.layout.locals as int, 4096)
                    &&& raw.remote_small.size == round_up(plan.small.layout.remotes as int, 4096)
                    &&& raw.data_small.size == round_up(plan.small.layout.data as int, 4096)
                    &&& raw.local_large.size == round_up(plan.large.layout.locals as int, 4096)
                    &&& raw.remote_large.size == round_up(plan.large.layout.remotes as int, 4096)
                    &&& raw.data_large.size == round_up(plan.large.layout.data as int, 4096)
                    &&& raw.owned.size == round_up(plan.owned as int, 4096)
                },
                _ => false,
            },
    {
        let result: Result<(), Error> = match setup.step {
            SetupStep::Finished { result } => result,
            _ => vstd::pervasive::unreached(),
        };
        match (result, setup.owned) {
            (Err(error), _) => Err(error),
            (Ok(()), None) => vstd::pervasive::unreached(),
            (Ok(()), Some(owned)) => {
                let id: Id = setup.plan.region_id(REGIONS);
                let regions: &Vec<Sequential> = &setup.regions;
                let reservation: Reservation = setup.reservations[REGIONS];
                let raw: Raw = Raw {
                    backend: setup.plan.backend,
                    shared: setup.shared,
                    owned,
                    local_small: regions[0],
                    remote_small: regions[1],
                    local_large: regions[2],
                    remote_large: regions[3],
                    data_small: regions[4],
                    data_large: regions[5],
                    data_huge: Random::new(id, reservation),
                    stat: Recorder::default(),
                    free: setup.plan.free,
                };
                proof {
                    law_store_is_as_planned(setup, raw);
                }
                Ok(raw)
            },
        }
    }
}

/// A store that a setup has come to is the one that was planned. Each growing
/// region has extents of as many bytes as its own part of its own heap needs,
/// rounded up to pages, and a name of its own. A region of a lazy heap did not
/// begin with new memory. The addresses of objects are in one piece: small, large,
/// huge.
pub proof fn law_store_is_as_planned(setup: Setup, raw: Raw)
    requires
        setup.wf(),
        setup.step_spec() matches SetupStep::Finished { result } && result is Ok,
        raw.made_by(setup),
    ensures
        ({
            let plan = setup.plan();
            &&& raw.local_small.size == round_up(plan.small.layout.locals as int, 4096)
            &&& raw.remote_small.size == round_up(plan.small.layout.remotes as int, 4096)
            &&& raw.data_small.size == round_up(plan.small.layout.data as int, 4096)
            &&& raw.local_large.size == round_up(plan.large.layout.locals as int, 4096)
            &&& raw.remote_large.size == round_up(plan.large.layout.remotes as int, 4096)
            &&& raw.data_large.size == round_up(plan.large.layout.data as int, 4096)
            &&& raw.owned.size == round_up(plan.owned as int, 4096)
            &&& raw.shared.size == 0x1_0000
            &&& raw.shared.address == plan.target.address_virt
            &&& raw.shared.clean
        }),
        ({
            let plan = setup.plan();
            &&& raw.shared.id@ == "shared"@
            &&& raw.owned.id@ == joined(plan.id@, "owned"@)
            &&& raw.local_small.id@ == joined(plan.id@, "ls"@)
            &&& raw.remote_small.id@ == joined(plan.id@, "rs"@)
            &&& raw.data_small.id@ == joined(plan.id@, "ds"@)
            &&& raw.local_large.id@ == joined(plan.id@, "ll"@)
            &&& raw.remote_large.id@ == joined(plan.id@, "rl"@)
            &&& raw.data_large.id@ == joined(plan.id@, "dl"@)
            &&& raw.data_huge.id@ == joined(plan.id@, "dh"@)
        }),
        ({
            let plan = setup.plan();
            let places = setup.progress().reservations;
            &&& places.len() == 7
            &&& raw.local_small.reservation.address == places[0]
            &&& raw.remote_small.reservation.address == places[1]
            &&& raw.local_large.reservation.address == places[2]
            &&& raw.remote_large.reservation.address == places[3]
            &&& raw.data_small.reservation.address == places[4]
            &&& raw.data_large.reservation.address == raw.data_small.reservation.address
                + 0x100_0000_0000
            &&& raw.data_huge.reservation.address == raw.data_small.reservation.address
                + 0x200_0000_0000
            &&& plan.small.lazy ==> !raw.local_small.clean && !raw.remote_small.clean
                && !raw.data_small.clean
            &&& plan.large.lazy ==> !raw.local_large.clean && !raw.remote_large.clean
                && !raw.data_large.clean
            &&& raw.backend == plan.backend
            &&& raw.free == plan.free
        }),
{
    law_regions_are_as_planned(setup);
    let regions = setup.progress().regions;
    assert(sequential_shape(raw.local_small) == regions[0]);
    assert(sequential_shape(raw.remote_small) == regions[1]);
    assert(sequential_shape(raw.local_large) == regions[2]);
    assert(sequential_shape(raw.remote_large) == regions[3]);
    assert(sequential_shape(raw.data_small) == regions[4]);
    assert(sequential_shape(raw.data_large) == regions[5]);
}

/// What a setup asks for, by name. The region that threads own is backed
/// first, anywhere. After that a file is asked for only if the heap has room in
/// advance, by the name of its region, with as many bytes as that part of that
/// heap needs in whole pages, and at the addresses of the region. Addresses are
/// reserved with nothing behind them, for one region at a time and for those of
/// all objects together.
pub proof fn law_requests_are_as_planned(setup: Setup)
    requires
        setup.wf(),
    ensures
        ({
            let plan = setup.plan();
            let progress = setup.progress();
            let zero = digits(0, 10);
            match setup.step_spec() {
                SetupStep::Back { backing } => {
                    let size = backing.size() as int;
                    let id = backing.id();
                    &&& backing.backend() == plan.backend
                    &&& progress.owned is None ==> {
                        &&& id == joined(plan.id@, "owned"@)
                        &&& size == round_up(plan.owned as int, 4096)
                        &&& backing.address() is None
                    }
                    &&& progress.owned is Some ==> {
                        let index = progress.regions.len();
                        &&& index == 0 ==> {
                            &&& id == joined(joined(plan.id@, "ls"@), zero)
                            &&& size == round_up(plan.small.layout.locals as int, 4096)
                        }
                        &&& index == 1 ==> {
                            &&& id == joined(joined(plan.id@, "rs"@), zero)
                            &&& size == round_up(plan.small.layout.remotes as int, 4096)
                        }
                        &&& index == 2 ==> {
                            &&& id == joined(joined(plan.id@, "ll"@), zero)
                            &&& size == round_up(plan.large.layout.locals as int, 4096)
                        }
                        &&& index == 3 ==> {
                            &&& id == joined(joined(plan.id@, "rl"@), zero)
                            &&& size == round_up(plan.large.layout.remotes as int, 4096)
                        }
                        &&& index == 4 ==> {
                            &&& id == joined(joined(plan.id@, "ds"@), zero)
                            &&& size == round_up(plan.small.layout.data as int, 4096)
                        }
                        &&& index == 5 ==> {
                            &&& id == joined(joined(plan.id@, "dl"@), zero)
                            &&& size == round_up(plan.large.layout.data as int, 4096)
                        }
                        &&& index < 6
                        &&& index == 0 || index == 1 || index == 4 ==> !plan.small.lazy
                        &&& index == 2 || index == 3 || index == 5 ==> !plan.large.lazy
                        &&& backing.address() matches Some(address) && address
                            == progress.reservations[index as int]
                    }
                },
                SetupStep::Reserve { call } => {
                    &&& progress.owned is Some
                    &&& progress.regions.len() < 6
                    &&& progress.reservations.len() == progress.regions.len()
                    &&& call.address is None
                    &&& call.protection is Inaccessible
                    &&& call.source is Anonymous
                    &&& !call.populate
                    &&& progress.regions.len() == 4 ==> call.size == 0x300_0000_0000
                    &&& progress.regions.len() != 4 ==> call.size == 0x100_0000_0000
                },
                SetupStep::Finished { result } => result is Ok ==> progress.regions.len() == 6,
            }
        }),
{
    law_regions_are_as_planned(setup);
}

/// What there is after a region has been backed: what there was, then that
/// region, then those that come next, have addresses and are lazy, and no other.
pub proof fn law_backing_adds_regions(progress: Progress, plan: Plan, clean: bool)
    requires
        progress.regions.len() < 6,
    ensures
        ({
            let after = progress.backing(plan, clean);
            let index = progress.regions.len() as int;
            &&& after.owned == progress.owned
            &&& after.reservations == progress.reservations
            &&& index < after.regions.len() <= 6
            &&& forall|i: int| 0 <= i < index ==> after.regions[i] == #[trigger] progress.regions[i]
            &&& after.regions[index].clean == clean
            &&& forall|i: int|
                index <= i < after.regions.len() ==> {
                    let region = #[trigger] after.regions[i];
                    &&& region.name == plan.name(i)
                    &&& region.address == progress.reservations[i]
                    &&& region.size == round_up(plan.need(i) as int, 4096)
                    &&& i > index ==> !region.clean && plan.heap(i).lazy && i
                        < progress.reservations.len()
                }
            &&& after.regions.len() == 6 || after.regions.len() >= after.reservations.len()
                || !plan.heap(after.regions.len() as int).lazy
        }),
{
    let index = progress.regions.len() as int;
    let next = Progress {
        regions: progress.regions.push(plan.shape(index, progress.reservations[index], clean)),
        ..progress
    };
    lemma_skipping(next, plan);
    let after = progress.backing(plan, clean);
    assert(after == next.skipping(plan));
    assert(next.regions[index] == plan.shape(index, progress.reservations[index], clean));
    assert(after.regions[index] == next.regions[index]);
    assert forall|i: int| 0 <= i < index implies after.regions[i]
        == #[trigger] progress.regions[i] by {
        assert(next.regions[i] == progress.regions[i]);
    }
}

/// What there is after addresses have been reserved: what there was, and the
/// addresses. For the regions of objects there are three that follow each other.
/// Then come the regions that are next, have addresses and are lazy, and no other.
pub proof fn law_reserving_adds_addresses(progress: Progress, plan: Plan, address: int)
    requires
        progress.regions.len() < 6,
        progress.reservations.len() == progress.regions.len(),
    ensures
        ({
            let after = progress.reserving(plan, address);
            let index = progress.regions.len() as int;
            let count = if index == 4 {
                3int
            } else {
                1int
            };
            &&& after.owned == progress.owned
            &&& after.reservations.len() == index + count
            &&& forall|i: int|
                0 <= i < index ==> after.reservations[i] == #[trigger] progress.reservations[i]
            &&& forall|i: int|
                0 <= i < count ==> #[trigger] after.reservations[index + i] == address
                    + 0x100_0000_0000 * i
            &&& index <= after.regions.len() <= 6
            &&& forall|i: int| 0 <= i < index ==> after.regions[i] == #[trigger] progress.regions[i]
            &&& forall|i: int|
                index <= i < after.regions.len() ==> {
                    let region = #[trigger] after.regions[i];
                    &&& region.name == plan.name(i)
                    &&& region.address == after.reservations[i]
                    &&& region.size == round_up(plan.need(i) as int, 4096)
                    &&& !region.clean
                    &&& plan.heap(i).lazy
                    &&& i < after.reservations.len()
                }
            &&& after.regions.len() == 6 || after.regions.len() >= after.reservations.len()
                || !plan.heap(after.regions.len() as int).lazy
        }),
{
    let addresses = if progress.regions.len() == 4 {
        seq![address, address + SIZE_RESERVATION, address + 2 * SIZE_RESERVATION]
    } else {
        seq![address]
    };
    let next = Progress { reservations: progress.reservations + addresses, ..progress };
    lemma_skipping(next, plan);
}

proof fn lemma_skipping(progress: Progress, plan: Plan)
    requires
        progress.regions.len() <= 6,
    ensures
        ({
            let after = progress.skipping(plan);
            let index = progress.regions.len() as int;
            &&& after.owned == progress.owned
            &&& after.reservations == progress.reservations
            &&& index <= after.regions.len() <= 6
            &&& forall|i: int| 0 <= i < index ==> after.regions[i] == #[trigger] progress.regions[i]
            &&& forall|i: int|
                index <= i < after.regions.len() ==> {
                    &&& #[trigger] after.regions[i] == plan.shape(
                        i,
                        progress.reservations[i],
                        false,
                    )
                    &&& plan.heap(i).lazy
                    &&& i < progress.reservations.len()
                }
            &&& after.regions.len() == 6 || after.regions.len() >= after.reservations.len()
                || !plan.heap(after.regions.len() as int).lazy
        }),
    decreases 6 - progress.regions.len(),
{
    let index = progress.regions.len() as int;
    if index < REGIONS && progress.reserved() && plan.heap(index).lazy {
        let next = Progress {
            regions: progress.regions.push(plan.shape(index, progress.reservations[index], false)),
            ..progress
        };
        lemma_skipping(next, plan);
        let after = progress.skipping(plan);
        assert forall|i: int| 0 <= i < index implies after.regions[i]
            == #[trigger] progress.regions[i] by {
            assert(next.regions[i] == progress.regions[i]);
        }
        assert(next.regions[index] == plan.shape(index, progress.reservations[index], false));
        assert(after == next.skipping(plan));
        assert(after.regions[index] == next.regions[index]);
        assert forall|i: int| index <= i < after.regions.len() implies #[trigger] after.regions[i]
            == plan.shape(i, progress.reservations[i], false) && plan.heap(i).lazy && i
            < progress.reservations.len() by {
            if i > index {
                assert(next.skipping(plan).regions[i] == after.regions[i]);
            }
        }
    }
}

/// The parts of the plan that belong to each growing region: the small heap has
/// the first, the second and the fifth, the large heap the others. Of each heap
/// there are the metadata that owners use, the metadata that others use, and the
/// objects.
pub proof fn law_parts_of_a_plan(plan: Plan)
    ensures
        plan.heap(0) == plan.small && plan.heap(1) == plan.small && plan.heap(4) == plan.small,
        plan.heap(2) == plan.large && plan.heap(3) == plan.large && plan.heap(5) == plan.large,
        plan.need(0) == plan.small.layout.locals,
        plan.need(1) == plan.small.layout.remotes,
        plan.need(2) == plan.large.layout.locals,
        plan.need(3) == plan.large.layout.remotes,
        plan.need(4) == plan.small.layout.data,
        plan.need(5) == plan.large.layout.data,
        plan.name(0) == joined(plan.id@, "ls"@),
        plan.name(1) == joined(plan.id@, "rs"@),
        plan.name(2) == joined(plan.id@, "ll"@),
        plan.name(3) == joined(plan.id@, "rl"@),
        plan.name(4) == joined(plan.id@, "ds"@),
        plan.name(5) == joined(plan.id@, "dl"@),
        plan.name(6) == joined(plan.id@, "dh"@),
{
}

/// The slabs that make room for a number of bytes are just enough: there is one
/// number of them, which grows with the bytes and shrinks with the size of a slab.
/// None are needed exactly for no bytes.
pub proof fn law_slabs_are_just_enough(
    first: Option<u64>,
    second: Option<u64>,
    slab: u64,
    size: u64,
    larger: u64,
)
    requires
        slab > 0,
        size <= larger,
        slabs_hold(first, slab, size),
        slabs_hold(second, slab, larger),
    ensures
        first is None <==> size == 0,
        size == larger ==> first == second,
        first matches Some(count) ==> {
            &&& count == round_up(size as int, slab as int) / slab as int
            &&& second matches Some(more) && count <= more
        },
{
    if let Some(count) = first {
        lemma_slabs(count, slab, size);
        if let Some(more) = second {
            lemma_slabs(more, slab, larger);
            law_round_up(size as int, slab as int);
            law_round_up(larger as int, slab as int);
            vstd::arithmetic::div_mod::lemma_div_is_ordered(
                round_up(size as int, slab as int),
                round_up(larger as int, slab as int),
                slab as int,
            );
        }
    }
}

proof fn lemma_slabs(count: u64, slab: u64, size: u64)
    requires
        slab > 0,
        count > 0,
        (count - 1) * slab < size <= count * slab,
    ensures
        round_up(size as int, slab as int) == count * slab,
        round_up(size as int, slab as int) / slab as int == count,
{
    let rounded = round_up(size as int, slab as int);
    law_round_up(size as int, slab as int);
    vstd::arithmetic::div_mod::lemma_mod_multiples_basic(count as int, slab as int);
    vstd::arithmetic::div_mod::lemma_fundamental_div_mod(rounded, slab as int);
    let quotient = rounded / slab as int;
    assert(rounded <= count * slab);
    assert(quotient == count) by (nonlinear_arith)
        requires
            rounded == slab * quotient,
            (count - 1) * slab < size,
            size <= rounded,
            rounded <= count * slab,
            slab > 0,
    ;
    vstd::arithmetic::mul::lemma_mul_is_commutative(slab as int, quotient);
}

/// Dropping a backing store unmaps what its setup has mapped: the memory that
/// the device operates on, the memory that threads own, and all reservations.
pub proof fn law_unmap_undoes_setup(setup: Setup, raw: Raw)
    requires
        setup.wf(),
        setup.step_spec() matches SetupStep::Finished { result } && result is Ok,
        raw.made_by(setup),
    ensures
        ({
            let progress = setup.progress();
            let regions = raw.regions_spec();
            &&& regions.len() == progress.reservations.len() + 2
            &&& regions[0].extent() == (UnmapCall {
                address: setup.plan().target.address_virt,
                size: BUFFER_SIZE,
            })
            &&& progress.owned matches Some(owned) && regions[1].extent().address == owned.address
                && regions[1].extent().size == owned.size
            &&& forall|k: int|
                0 <= k < progress.reservations.len() ==> exists|i: int|
                    2 <= i < regions.len() && (#[trigger] regions[i]).extent() == (UnmapCall {
                        address: #[trigger] progress.reservations[k] as u64,
                        size: SIZE_RESERVATION,
                    })
        }),
{
    law_regions_are_as_planned(setup);
    let progress = setup.progress();
    let regions = raw.regions_spec();
    assert(progress.regions.len() == REGIONS);
    assert(setup.reservations@.len() == REGIONS + 1);
    assert forall|k: int| 0 <= k < progress.reservations.len() implies exists|i: int|
        2 <= i < regions.len() && (#[trigger] regions[i]).extent() == (UnmapCall {
            address: #[trigger] progress.reservations[k] as u64,
            size: SIZE_RESERVATION,
        }) by {
        if k < REGIONS {
            let region = progress.regions[k];
            assert(region.address == progress.reservations[k]);
        }
        let i: int = if k == 0 {
            2
        } else if k == 1 {
            4
        } else if k == 2 {
            3
        } else if k == 3 {
            5
        } else {
            k + 2
        };
        assert(regions[i].extent() == (UnmapCall {
            address: progress.reservations[k] as u64,
            size: SIZE_RESERVATION,
        }));
    }
}

proof fn lemma_zero_is_short()
    ensures
        byte_len(digits(0, 10)) == 1,
{
    let zero = digits(0, 10);
    assert(zero =~= seq!['0']);
    assert(vstd::utf8::is_ascii_chars(zero));
    vstd::utf8::is_ascii_chars_encode_utf8(zero);
}

} // verus!
