//! The backing store of a heap.

pub mod device;
pub mod files;
pub mod id;
pub mod layout;
pub mod mapping;
pub mod region;
pub mod setup;

pub use device::mcas;
pub use device::Buffer;
pub use device::Csr;
pub use device::Mcas;

use vstd::prelude::*;

use crate::error::Error;
use crate::raw::layout::can_lay_out;
use crate::raw::layout::fits;
use crate::raw::layout::law_fields_do_not_overlap;
use crate::raw::layout::layout;
use crate::raw::layout::offset;
use crate::raw::layout::total;
use crate::raw::layout::Field;
use crate::raw::mapping::Backend;
use crate::raw::mapping::UnmapCall;
use crate::raw::region::Fixed;
use crate::raw::region::Random;
use crate::raw::region::Region;
use crate::raw::region::Sequential;
use crate::raw::region::SIZE_RESERVATION;
use crate::stat::Event;
use crate::stat::Recorder;
use crate::stat::Report;
use crate::thread;

verus! {

/// Sole ownership of an initialized backing store of a heap.
pub struct Raw {
    /// How the backend wants its files to be mapped.
    pub backend: Backend,
    /// What threads share besides objects.
    pub shared: Fixed,
    /// What threads own besides objects.
    pub owned: Fixed,
    /// Metadata that the owners of small slabs use.
    pub local_small: Sequential,
    /// Metadata that the owners of large slabs use.
    pub local_large: Sequential,
    /// Metadata of small slabs that other threads use.
    pub remote_small: Sequential,
    /// Metadata of large slabs that other threads use.
    pub remote_large: Sequential,
    /// Small objects.
    pub data_small: Sequential,
    /// Large objects.
    pub data_large: Sequential,
    /// Huge objects.
    pub data_huge: Random,
    /// Counts of what has happened.
    pub stat: Recorder,
    /// Whether the files are removed in the end.
    pub free: bool,
}

/// A region of any kind.
#[derive(Clone, Copy, Debug)]
pub enum AnyRegion {
    /// A region that keeps its size.
    Fixed(Fixed),
    /// A region that grows.
    Sequential(Sequential),
    /// A region in which memory comes and goes.
    Random(Random),
}

impl Region for AnyRegion {
    open spec fn start(&self) -> u64 {
        match self {
            AnyRegion::Fixed(region) => region.start(),
            AnyRegion::Sequential(region) => region.start(),
            AnyRegion::Random(region) => region.start(),
        }
    }

    open spec fn clean(&self) -> bool {
        match self {
            AnyRegion::Fixed(region) => region.clean(),
            AnyRegion::Sequential(region) => region.clean(),
            AnyRegion::Random(region) => region.clean(),
        }
    }

    open spec fn name(&self) -> Seq<char> {
        match self {
            AnyRegion::Fixed(region) => region.name(),
            AnyRegion::Sequential(region) => region.name(),
            AnyRegion::Random(region) => region.name(),
        }
    }

    open spec fn extent(&self) -> UnmapCall {
        match self {
            AnyRegion::Fixed(region) => region.extent(),
            AnyRegion::Sequential(region) => region.extent(),
            AnyRegion::Random(region) => region.extent(),
        }
    }

    fn address(&self) -> (address: u64) {
        match self {
            AnyRegion::Fixed(region) => region.address(),
            AnyRegion::Sequential(region) => region.address(),
            AnyRegion::Random(region) => region.address(),
        }
    }

    fn is_clean(&self) -> (clean: bool) {
        match self {
            AnyRegion::Fixed(region) => region.is_clean(),
            AnyRegion::Sequential(region) => region.is_clean(),
            AnyRegion::Random(region) => region.is_clean(),
        }
    }

    fn id(&self) -> (id: &str) {
        match self {
            AnyRegion::Fixed(region) => region.id(),
            AnyRegion::Sequential(region) => region.id(),
            AnyRegion::Random(region) => region.id(),
        }
    }

    fn unmap(&self) -> (call: UnmapCall) {
        match self {
            AnyRegion::Fixed(region) => region.unmap(),
            AnyRegion::Sequential(region) => region.unmap(),
            AnyRegion::Random(region) => Region::unmap(region),
        }
    }
}

/// The sizes and alignments of what lies in the regions of fixed size. Each
/// holds, in this order, something of the allocator, of the small heap, of the
/// large heap and of the huge heap.
pub struct Types {
    /// What lies in the region that threads share.
    pub shared: Vec<Field>,
    /// What lies in the region that threads own.
    pub owned: Vec<Field>,
}

impl Types {
    /// There are four fields in each region, and they can be laid out.
    pub open spec fn wf(&self) -> bool {
        &&& self.shared@.len() == 4
        &&& self.owned@.len() == 4
        &&& fits(self.shared@)
        &&& fits(self.owned@)
    }

    /// Whether there are four fields in each region that can be laid out.
    pub fn can_be_used(&self) -> (usable: bool)
        ensures
            usable == self.wf(),
    {
        self.shared.len() == 4 && self.owned.len() == 4 && can_lay_out(&self.shared)
            && can_lay_out(&self.owned)
    }
}

/// Where the parts of a heap of slabs are.
#[derive(Clone, Copy, Debug, PartialEq, Eq, Structural)]
pub struct HeapAddresses {
    /// What threads share.
    pub shared: u64,
    /// What threads own.
    pub owned: u64,
    /// Metadata that the owners of slabs use.
    pub local: u64,
    /// Metadata that other threads use.
    pub remote: u64,
    /// Objects.
    pub data: u64,
}

/// Where the parts of the huge heap are.
#[derive(Clone, Copy, Debug, PartialEq, Eq, Structural)]
pub struct HugeAddresses {
    /// What threads share.
    pub shared: u64,
    /// What threads own.
    pub owned: u64,
    /// Objects.
    pub data: u64,
}

/// Where the parts of an allocator are, regardless of the thread.
#[derive(Clone, Copy, Debug, PartialEq, Eq, Structural)]
pub struct Addresses {
    /// What threads share.
    pub shared: u64,
    /// What threads own.
    pub owned: u64,
    /// The small heap.
    pub small: HeapAddresses,
    /// The large heap.
    pub large: HeapAddresses,
    /// The huge heap.
    pub huge: HugeAddresses,
}

/// An allocator for one thread.
#[derive(Clone, Copy, Debug, PartialEq, Eq, Structural)]
pub struct Allocator {
    /// The thread.
    pub id: thread::Id,
    /// The number by which the device knows the thread from now on.
    pub slot: u64,
    /// Where the parts of the allocator are.
    pub addresses: Addresses,
}

/// A heap that can grow when an access finds memory that is not mapped.
#[derive(Clone, Copy, Debug, PartialEq, Eq, Structural)]
pub enum Class {
    /// The small heap.
    Small,
    /// The large heap.
    Large,
    /// The huge heap.
    Huge,
}

/// What the handling of a fault waits for.
#[derive(Clone, Copy, Debug, PartialEq, Eq, Structural)]
pub enum Fault {
    /// A heap to map the memory around an address, if it is one of its own.
    Try {
        /// The heap.
        class: Class,
        /// The thread whose access failed.
        id: thread::Id,
        /// The address.
        address: u64,
    },
    /// Nothing.
    Finished {
        /// Whether the memory is mapped.
        mapped: bool,
    },
}

impl Class {
    /// What is counted when this heap has grown.
    pub open spec fn event(self) -> Event {
        match self {
            Class::Small => Event::FaultSmall,
            Class::Large => Event::FaultLarge,
            Class::Huge => Event::FaultHuge,
        }
    }

    fn grown(self) -> (event: Event)
        ensures
            event == self.event(),
    {
        match self {
            Class::Small => Event::FaultSmall,
            Class::Large => Event::FaultLarge,
            Class::Huge => Event::FaultHuge,
        }
    }
}

impl Fault {
    /// Takes whether a heap has mapped the memory. Returns what follows, and
    /// what to count.
    pub fn resume(self, reply: Result<(), Error>) -> (next: (Fault, Option<Event>))
        requires
            self is Try,
            reply matches Err(error) ==> error is OutOfBounds,
        ensures
            next.0 == self.after(reply),
            next.1 == self.counts(reply),
    {
        match (self, reply) {
            (Fault::Try { class, .. }, Ok(())) => (
                Fault::Finished { mapped: true },
                Some(class.grown()),
            ),
            (Fault::Try { class: Class::Small, id, address }, Err(_)) => (
                Fault::Try { class: Class::Large, id, address },
                None,
            ),
            (Fault::Try { class: Class::Large, id, address }, Err(_)) => (
                Fault::Try { class: Class::Huge, id, address },
                None,
            ),
            (Fault::Try { class: Class::Huge, .. }, Err(_)) => (
                Fault::Finished { mapped: false },
                None,
            ),
            (Fault::Finished { mapped }, _) => (Fault::Finished { mapped }, None),
        }
    }

    /// What is counted after the attempt of a heap.
    pub open spec fn counts(self, reply: Result<(), Error>) -> Option<Event> {
        match (self, reply) {
            (Fault::Try { class, .. }, Ok(())) => Some(class.event()),
            _ => None,
        }
    }

    /// What the handling of a fault waits for at first.
    pub open spec fn start(id: thread::Id, address: u64) -> Fault {
        if address == 0 {
            Fault::Finished { mapped: false }
        } else {
            Fault::Try { class: Class::Small, id, address }
        }
    }

    /// What follows the attempt of a heap. If it has mapped the memory, that is
    /// the end of it. If the address is none of its own, the next heap tries.
    pub open spec fn after(self, reply: Result<(), Error>) -> Fault {
        match (self, reply) {
            (Fault::Try { .. }, Ok(())) => Fault::Finished { mapped: true },
            (Fault::Try { class: Class::Small, id, address }, _) => Fault::Try {
                class: Class::Large,
                id,
                address,
            },
            (Fault::Try { class: Class::Large, id, address }, _) => Fault::Try {
                class: Class::Huge,
                id,
                address,
            },
            (Fault::Try { class: Class::Huge, .. }, _) => Fault::Finished { mapped: false },
            (Fault::Finished { mapped }, _) => Fault::Finished { mapped },
        }
    }
}

/// An access that failed is repaired by the first heap that can do it: the
/// others are not asked after that. Nothing is repaired at null, or if no heap
/// can do it.
pub proof fn law_fault_outcome(
    id: thread::Id,
    address: u64,
    small: Result<(), Error>,
    large: Result<(), Error>,
    huge: Result<(), Error>,
)
    ensures
        ({
            let first = Fault::start(id, address);
            let second = first.after(small);
            let third = second.after(large);
            let last = third.after(huge);
            &&& last == (Fault::Finished {
                mapped: address != 0 && (small is Ok || large is Ok || huge is Ok),
            })
            &&& second is Try <==> address != 0 && small is Err
            &&& third is Try <==> address != 0 && small is Err && large is Err
        }),
{
}

/// The addresses of all objects are in one piece, and each belongs to one heap.
pub proof fn law_data_is_contiguous(raw: Raw, address: int)
    requires
        raw.wf(),
    ensures
        ({
            let start = raw.data_small.start();
            let small = raw.holds(Class::Small, address);
            let large = raw.holds(Class::Large, address);
            let huge = raw.holds(Class::Huge, address);
            &&& start <= address < start + 3 * SIZE_RESERVATION <==> small || large || huge
            &&& !(small && large)
            &&& !(small && huge)
            &&& !(large && huge)
        }),
{
}

/// Whatever heaps reply, each of them is asked about the address that could not
/// be accessed, for the thread that could not access it: the small heap first,
/// then the large one, then the huge one, and no other after that. A heap that
/// has mapped the memory is counted under its own event, and one that has not is
/// not counted.
pub proof fn law_fault_keeps_address(
    id: thread::Id,
    address: u64,
    small: Result<(), Error>,
    large: Result<(), Error>,
    huge: Result<(), Error>,
)
    requires
        address != 0,
    ensures
        ({
            let first = Fault::start(id, address);
            let second = first.after(small);
            let third = second.after(large);
            let last = third.after(huge);
            &&& first == (Fault::Try { class: Class::Small, id, address })
            &&& small is Err ==> second == (Fault::Try { class: Class::Large, id, address })
            &&& small is Err && large is Err ==> third == (Fault::Try {
                class: Class::Huge,
                id,
                address,
            })
            &&& last is Finished
            &&& small is Ok ==> second == (Fault::Finished { mapped: true })
            &&& first.counts(small) == (if small is Ok {
                Some(Event::FaultSmall)
            } else {
                None::<Event>
            })
            &&& second.counts(large) == (if small is Err && large is Ok {
                Some(Event::FaultLarge)
            } else {
                None::<Event>
            })
            &&& third.counts(huge) == (if small is Err && large is Err && huge is Ok {
                Some(Event::FaultHuge)
            } else {
                None::<Event>
            })
            &&& last.counts(huge) is None
        }),
{
}

/// From any state, the handling of a fault never turns to another address or
/// another thread, and never to a heap that comes before.
pub proof fn law_fault_never_turns(fault: Fault, reply: Result<(), Error>)
    ensures
        fault.after(reply) matches Fault::Try { class, id, address } ==> {
            &&& reply is Err
            &&& fault matches Fault::Try { class: before, id: thread, address: wanted } && {
                &&& id == thread
                &&& address == wanted
                &&& before is Small && class is Large || before is Large && class is Huge
            }
        },
        fault matches Fault::Finished { mapped } ==> fault.after(reply) == fault,
        fault is Try && reply is Ok ==> fault.after(reply) == (Fault::Finished { mapped: true }),
{
}

/// All regions of a store are walked, each once: those of fixed size, those that
/// hold metadata, and those that hold objects. Unmapping them gives back the
/// bytes that each begins with, and of those that were reserved the whole
/// reservation.
pub proof fn law_all_regions_are_walked(raw: Raw)
    ensures
        ({
            let regions = raw.regions_spec();
            &&& regions.len() == 9
            &&& regions[0] == AnyRegion::Fixed(raw.shared)
            &&& regions[1] == AnyRegion::Fixed(raw.owned)
            &&& regions[2] == AnyRegion::Sequential(raw.local_small)
            &&& regions[3] == AnyRegion::Sequential(raw.local_large)
            &&& regions[4] == AnyRegion::Sequential(raw.remote_small)
            &&& regions[5] == AnyRegion::Sequential(raw.remote_large)
            &&& regions[6] == AnyRegion::Sequential(raw.data_small)
            &&& regions[7] == AnyRegion::Sequential(raw.data_large)
            &&& regions[8] == AnyRegion::Random(raw.data_huge)
            &&& forall|i: int|
                0 <= i < regions.len() ==> {
                    let call = (#[trigger] regions[i]).extent();
                    &&& call.address == regions[i].start()
                    &&& match regions[i] {
                        AnyRegion::Fixed(region) => {
                            &&& call.address == region.address
                            &&& call.size == region.size
                            &&& regions[i].name() == region.id@
                            &&& regions[i].clean() == region.clean
                        },
                        AnyRegion::Sequential(region) => {
                            &&& call.address == region.reservation.address
                            &&& call.size == 0x100_0000_0000
                            &&& regions[i].name() == region.id@
                            &&& regions[i].clean() == region.clean
                        },
                        AnyRegion::Random(region) => {
                            &&& call.address == region.reservation.address
                            &&& call.size == 0x100_0000_0000
                            &&& regions[i].name() == region.id@
                            &&& !regions[i].clean()
                        },
                    }
                }
        }),
{
}

/// A store is clean exactly if one of its regions is.
pub proof fn law_clean_means_some_region(raw: Raw)
    ensures
        raw.any_clean() <==> exists|i: int|
            0 <= i < raw.regions_spec().len() && (#[trigger] raw.regions_spec()[i]).clean(),
{
    let regions = raw.regions_spec();
    if raw.any_clean() {
        assert(regions[0].clean() || regions[1].clean() || regions[2].clean() || regions[3].clean()
            || regions[4].clean() || regions[5].clean() || regions[6].clean()
            || regions[7].clean());
    }
}

/// The parts of an allocator lie where the fields of the fixed regions are: if
/// the regions do not reach the end of memory, an address is that of the region
/// plus the offset of the field. Metadata and objects begin where their own
/// regions do.
pub proof fn law_parts_are_at_their_offsets(raw: Raw, types: Types)
    requires
        types.wf(),
        raw.shared.address + total(types.shared@) <= u64::MAX,
        raw.owned.address + total(types.owned@) <= u64::MAX,
    ensures
        ({
            let parts = raw.addresses(types);
            &&& parts.shared as int == raw.shared.address + offset(types.shared@, 0)
            &&& parts.small.shared as int == raw.shared.address + offset(types.shared@, 1)
            &&& parts.large.shared as int == raw.shared.address + offset(types.shared@, 2)
            &&& parts.huge.shared as int == raw.shared.address + offset(types.shared@, 3)
            &&& parts.owned as int == raw.owned.address + offset(types.owned@, 0)
            &&& parts.small.owned as int == raw.owned.address + offset(types.owned@, 1)
            &&& parts.large.owned as int == raw.owned.address + offset(types.owned@, 2)
            &&& parts.huge.owned as int == raw.owned.address + offset(types.owned@, 3)
            &&& parts.small.local == raw.local_small.reservation.address
            &&& parts.small.remote == raw.remote_small.reservation.address
            &&& parts.small.data == raw.data_small.reservation.address
            &&& parts.large.local == raw.local_large.reservation.address
            &&& parts.large.remote == raw.remote_large.reservation.address
            &&& parts.large.data == raw.data_large.reservation.address
            &&& parts.huge.data == raw.data_huge.reservation.address
        }),
{
    lemma_offsets_fit(types.shared@);
    lemma_offsets_fit(types.owned@);
}

proof fn lemma_offsets_fit(fields: Seq<Field>)
    requires
        fits(fields),
        fields.len() == 4,
    ensures
        forall|i: int| 0 <= i < 4 ==> 0 <= #[trigger] offset(fields, i) <= total(fields),
{
    law_fields_do_not_overlap(fields, 0, 1);
    law_fields_do_not_overlap(fields, 1, 2);
    law_fields_do_not_overlap(fields, 2, 3);
}

/// The parts of an allocator that lie in one region of fixed size follow each
/// other without overlap, and none reaches past the bytes that the region was
/// made for.
pub proof fn law_parts_do_not_overlap(raw: Raw, types: Types)
    requires
        types.wf(),
        raw.shared.address + total(types.shared@) <= u64::MAX,
        raw.owned.address + total(types.owned@) <= u64::MAX,
    ensures
        ({
            let parts = raw.addresses(types);
            &&& raw.shared.address == parts.shared
            &&& parts.shared + types.shared@[0].size <= parts.small.shared
            &&& parts.small.shared + types.shared@[1].size <= parts.large.shared
            &&& parts.large.shared + types.shared@[2].size <= parts.huge.shared
            &&& parts.huge.shared + types.shared@[3].size <= raw.shared.address + total(
                types.shared@,
            )
            &&& raw.owned.address == parts.owned
            &&& parts.owned + types.owned@[0].size <= parts.small.owned
            &&& parts.small.owned + types.owned@[1].size <= parts.large.owned
            &&& parts.large.owned + types.owned@[2].size <= parts.huge.owned
            &&& parts.huge.owned + types.owned@[3].size <= raw.owned.address + total(types.owned@)
        }),
{
    law_parts_are_at_their_offsets(raw, types);
    law_fields_do_not_overlap(types.shared@, 0, 1);
    law_fields_do_not_overlap(types.shared@, 1, 2);
    law_fields_do_not_overlap(types.shared@, 2, 3);
    law_fields_do_not_overlap(types.owned@, 0, 1);
    law_fields_do_not_overlap(types.owned@, 1, 2);
    law_fields_do_not_overlap(types.owned@, 2, 3);
}

/// Offsets add up, in whatever order they are taken, and an offset of zero leads
/// nowhere else. Only past the end of memory does an address begin again at zero.
pub proof fn law_offsets_add_up(address: u64, first: int, second: int)
    requires
        0 <= first,
        0 <= second,
    ensures
        at(address, 0) == address,
        address + first <= u64::MAX ==> at(address, first) as int == address + first,
        u64::MAX < address + first < 2 * (u64::MAX + 1) ==> at(address, first) as int == address
            + first - u64::MAX - 1,
        at(at(address, first), second) == at(address, first + second),
{
    let modulus: int = 0x1_0000_0000_0000_0000;
    vstd::arithmetic::div_mod::lemma_add_mod_noop(address + first, second, modulus);
    vstd::arithmetic::div_mod::lemma_mod_bound(address + first, modulus);
    vstd::arithmetic::div_mod::lemma_mod_bound(address + first + second, modulus);
    if second < modulus {
        vstd::arithmetic::div_mod::lemma_small_mod(second as nat, modulus as nat);
    }
    vstd::arithmetic::div_mod::lemma_add_mod_noop_right(
        (address + first) % modulus,
        second,
        modulus,
    );
}

/// An address at an offset from another, within 64 bits.
pub open spec fn at(address: u64, offset: int) -> u64 {
    ((address + offset) % 0x1_0000_0000_0000_0000) as u64
}

impl Raw {
    /// The regions of objects follow each other without a gap, and none of the
    /// regions begins at null.
    pub open spec fn wf(&self) -> bool {
        &&& self.shared.address != 0
        &&& self.owned.address != 0
        &&& self.local_small.wf()
        &&& self.local_large.wf()
        &&& self.remote_small.wf()
        &&& self.remote_large.wf()
        &&& self.data_small.wf()
        &&& self.data_large.wf()
        &&& self.data_huge.wf()
        &&& self.data_large.start() == self.data_small.start() + SIZE_RESERVATION
        &&& self.data_huge.start() == self.data_large.start() + SIZE_RESERVATION
    }

    /// Where the parts of an allocator are, regardless of the thread.
    pub open spec fn addresses(&self, types: Types) -> Addresses {
        Addresses {
            shared: at(self.shared.address, offset(types.shared@, 0)),
            owned: at(self.owned.address, offset(types.owned@, 0)),
            small: HeapAddresses {
                shared: at(self.shared.address, offset(types.shared@, 1)),
                owned: at(self.owned.address, offset(types.owned@, 1)),
                local: self.local_small.start(),
                remote: self.remote_small.start(),
                data: self.data_small.start(),
            },
            large: HeapAddresses {
                shared: at(self.shared.address, offset(types.shared@, 2)),
                owned: at(self.owned.address, offset(types.owned@, 2)),
                local: self.local_large.start(),
                remote: self.remote_large.start(),
                data: self.data_large.start(),
            },
            huge: HugeAddresses {
                shared: at(self.shared.address, offset(types.shared@, 3)),
                owned: at(self.owned.address, offset(types.owned@, 3)),
                data: self.data_huge.start(),
            },
        }
    }

    /// All regions.
    pub open spec fn regions_spec(&self) -> Seq<AnyRegion> {
        seq![
            AnyRegion::Fixed(self.shared),
            AnyRegion::Fixed(self.owned),
            AnyRegion::Sequential(self.local_small),
            AnyRegion::Sequential(self.local_large),
            AnyRegion::Sequential(self.remote_small),
            AnyRegion::Sequential(self.remote_large),
            AnyRegion::Sequential(self.data_small),
            AnyRegion::Sequential(self.data_large),
            AnyRegion::Random(self.data_huge),
        ]
    }

    /// Whether an address is one of the objects of a heap.
    pub open spec fn holds(&self, class: Class, address: int) -> bool {
        let start = match class {
            Class::Small => self.data_small.start(),
            Class::Large => self.data_large.start(),
            Class::Huge => self.data_huge.start(),
        };
        start <= address < start + SIZE_RESERVATION
    }

    /// Whether any region began with new memory.
    pub open spec fn any_clean(&self) -> bool {
        ||| self.shared.clean
        ||| self.owned.clean
        ||| self.local_small.clean
        ||| self.local_large.clean
        ||| self.remote_small.clean
        ||| self.remote_large.clean
        ||| self.data_small.clean
        ||| self.data_large.clean
    }

    /// All regions.
    pub fn regions(&self) -> (regions: Vec<AnyRegion>)
        ensures
            regions@ == self.regions_spec(),
    {
        let mut regions: Vec<AnyRegion> = Vec::new();
        regions.push(AnyRegion::Fixed(self.shared));
        regions.push(AnyRegion::Fixed(self.owned));
        regions.push(AnyRegion::Sequential(self.local_small));
        regions.push(AnyRegion::Sequential(self.local_large));
        regions.push(AnyRegion::Sequential(self.remote_small));
        regions.push(AnyRegion::Sequential(self.remote_large));
        regions.push(AnyRegion::Sequential(self.data_small));
        regions.push(AnyRegion::Sequential(self.data_large));
        regions.push(AnyRegion::Random(self.data_huge));
        regions
    }

    /// Whether any region began with new memory.
    pub fn is_clean(&self) -> (clean: bool)
        ensures
            clean == self.any_clean(),
    {
        let regions: Vec<AnyRegion> = self.regions();
        let mut i: usize = 0;
        while i < regions.len()
            invariant
                regions@ == self.regions_spec(),
                forall|j: int| 0 <= j < i ==> !(#[trigger] regions@[j]).clean(),
            decreases regions@.len() - i,
        {
            if regions[i].is_clean() {
                return true;
            }
            i = i + 1;
        }
        assert(!regions@[0].clean() && !regions@[1].clean() && !regions@[2].clean());
        assert(!regions@[3].clean() && !regions@[4].clean() && !regions@[5].clean());
        assert(!regions@[6].clean() && !regions@[7].clean());
        false
    }

    /// The requests that remove all mappings of the store, in the order in which
    /// they are made when it is dropped. One that fails keeps none of the others
    /// from being made.
    pub fn unmap(&self) -> (calls: Vec<UnmapCall>)
        ensures
            calls@.len() == self.regions_spec().len(),
            forall|i: int|
                0 <= i < calls@.len() ==> #[trigger] calls@[i] == self.regions_spec()[i].extent(),
    {
        let regions: Vec<AnyRegion> = self.regions();
        let mut calls: Vec<UnmapCall> = Vec::new();
        while calls.len() < regions.len()
            invariant
                regions@ == self.regions_spec(),
                calls@.len() <= regions@.len(),
                forall|j: int|
                    0 <= j < calls@.len() ==> #[trigger] calls@[j] == regions@[j].extent(),
            decreases regions@.len() - calls@.len(),
        {
            let call: UnmapCall = regions[calls.len()].unmap();
            calls.push(call);
        }
        calls
    }

    /// The size of the region that threads share, and where its fields begin.
    pub fn shared(types: &Types) -> (result: (u64, Vec<u64>))
        requires
            types.wf(),
        ensures
            result.0 == total(types.shared@),
            result.0 > 0,
            result.1@.len() == 4,
            forall|i: int| 0 <= i < 4 ==> #[trigger] result.1@[i] == offset(types.shared@, i),
    {
        layout(&types.shared)
    }

    /// The size of the region that threads own, and where its fields begin.
    pub fn owned(types: &Types) -> (result: (u64, Vec<u64>))
        requires
            types.wf(),
        ensures
            result.0 == total(types.owned@),
            result.0 > 0,
            result.1@.len() == 4,
            forall|i: int| 0 <= i < 4 ==> #[trigger] result.1@[i] == offset(types.owned@, i),
    {
        layout(&types.owned)
    }

    /// Where the parts of an allocator are, regardless of the thread.
    #[verifier::spinoff_prover]
    #[verifier::rlimit(40)]
    pub fn unfocused(&self, types: &Types) -> (addresses: Addresses)
        requires
            types.wf(),
        ensures
            addresses == self.addresses(*types),
    {
        let (_, shared_offsets): (u64, Vec<u64>) = Self::shared(types);
        let (_, owned_offsets): (u64, Vec<u64>) = Self::owned(types);
        let shared: u64 = self.shared.address();
        let owned: u64 = self.owned.address();
        Addresses {
            shared: shared.wrapping_add(shared_offsets[0]),
            owned: owned.wrapping_add(owned_offsets[0]),
            small: HeapAddresses {
                shared: shared.wrapping_add(shared_offsets[1]),
                owned: owned.wrapping_add(owned_offsets[1]),
                local: self.local_small.address(),
                remote: self.remote_small.address(),
                data: self.data_small.address(),
            },
            large: HeapAddresses {
                shared: shared.wrapping_add(shared_offsets[2]),
                owned: owned.wrapping_add(owned_offsets[2]),
                local: self.local_large.address(),
                remote: self.remote_large.address(),
                data: self.data_large.address(),
            },
            huge: HugeAddresses {
                shared: shared.wrapping_add(shared_offsets[3]),
                owned: owned.wrapping_add(owned_offsets[3]),
                data: self.data_huge.address(),
            },
        }
    }

    /// An allocator for a thread.
    pub fn allocator(&self, types: &Types, id: thread::Id) -> (allocator: Allocator)
        requires
            types.wf(),
        ensures
            allocator == (Allocator {
                id,
                slot: id.number as u64,
                addresses: self.addresses(*types),
            }),
    {
        Allocator { id, slot: u16::from(id) as u64, addresses: self.unfocused(types) }
    }

    /// The counts of what has happened.
    pub fn report(&self) -> (reports: Vec<Report>)
        ensures
            reports@ == seq![
                Report { event: Event::FaultSmall, count: self.stat.count(Event::FaultSmall) },
                Report { event: Event::FaultLarge, count: self.stat.count(Event::FaultLarge) },
                Report { event: Event::FaultHuge, count: self.stat.count(Event::FaultHuge) },
            ],
    {
        self.stat.report()
    }

    /// Begins to map the memory around an address that could not be accessed.
    /// The small heap tries first. Nothing can be mapped at null.
    pub fn map(&self, id: thread::Id, address: u64) -> (fault: Fault)
        ensures
            fault == Fault::start(id, address),
    {
        if address == 0 {
            Fault::Finished { mapped: false }
        } else {
            Fault::Try { class: Class::Small, id, address }
        }
    }

    /// Takes whether a heap has mapped the memory, and counts it if it has.
    pub fn resume(&mut self, fault: Fault, reply: Result<(), Error>) -> (next: Fault)
        requires
            fault is Try,
            reply matches Err(error) ==> error is OutOfBounds,
        ensures
            next == fault.after(reply),
            forall|event: Event| #[trigger]
                final(self).stat.count(event) == (if fault.counts(reply) == Some(event) {
                    ((old(self).stat.count(event) + 1) % 0x1_0000_0000_0000_0000) as u64
                } else {
                    old(self).stat.count(event)
                }),
            *final(self) == (Raw { stat: final(self).stat, ..*old(self) }),
    {
        let (next, event): (Fault, Option<Event>) = fault.resume(reply);
        if let Some(event) = event {
            self.stat.record(event);
        }
        next
    }
}

} // verus!
