//! Regions of memory.

use vstd::prelude::*;

use crate::error::Error;
use crate::raw::id::joined;
use crate::raw::id::Hex;
use crate::raw::id::Id;
use crate::raw::mapping::BackStep;
use crate::raw::mapping::Backed;
use crate::raw::mapping::Backend;
use crate::raw::mapping::Backing;
use crate::raw::mapping::MapCall;
use crate::raw::mapping::Protection;
use crate::raw::mapping::Source;
use crate::raw::mapping::UnmapCall;
use crate::round::law_round_up;
use crate::round::next_multiple_of;
use crate::round::round_up;
use crate::text::denoted;
use crate::text::digits;
use crate::text::is_number;
use crate::text::law_digits_are_distinct;
use crate::text::law_digits_denote_the_number;

verus! {

/// The size of a page.
pub const SIZE_PAGE: u64 = 4096;

/// The size of a reservation.
pub const SIZE_RESERVATION: u64 = 0x100_0000_0000;

/// Addresses that nothing else is mapped to.
///
/// A region that grows has to stay in one piece. Its addresses are reserved
/// with nothing behind them, and files are mapped over them as it grows.
#[derive(Clone, Copy, Debug, PartialEq, Eq, Structural)]
pub struct Reservation {
    /// Where the addresses begin.
    pub address: u64,
}

impl Reservation {
    /// The addresses exist, and null is not one of them.
    pub open spec fn wf(&self) -> bool {
        self.address != 0 && self.address + SIZE_RESERVATION <= u64::MAX
    }

    /// The request that reserves addresses.
    pub fn mmap(size: u64) -> (call: MapCall)
        ensures
            call == (MapCall {
                address: None,
                size,
                protection: Protection::Inaccessible,
                source: Source::Anonymous,
                populate: false,
            }),
    {
        MapCall {
            address: None,
            size,
            protection: Protection::Inaccessible,
            source: Source::Anonymous,
            populate: false,
        }
    }

    /// The reservation that a reply to the request for [`SIZE_RESERVATION`]
    /// bytes makes.
    pub fn new(reply: Result<u64, i32>) -> (result: Result<Self, Error>)
        requires
            reply matches Ok(address) ==> (Reservation { address }).wf(),
        ensures
            result == (match reply {
                Ok(address) => Ok(Reservation { address }),
                Err(code) => Err(Error::Mmap(code)),
            }),
    {
        match reply {
            Ok(address) => Ok(Reservation { address }),
            Err(code) => Err(Error::Mmap(code)),
        }
    }

    /// How many bytes to request for several reservations in a row.
    pub fn contiguous_size<const COUNT: usize>() -> (size: u64)
        requires
            0 < COUNT,
            SIZE_RESERVATION * COUNT <= u64::MAX,
        ensures
            size == SIZE_RESERVATION * COUNT,
    {
        SIZE_RESERVATION * (COUNT as u64)
    }

    /// The reservations that a reply to the request for
    /// [`contiguous_size`](Reservation::contiguous_size) bytes makes. Each
    /// begins where the one before it ends.
    pub fn new_contiguous<const COUNT: usize>(reply: Result<u64, i32>) -> (result: Result<
        Vec<Self>,
        Error,
    >)
        requires
            0 < COUNT,
            reply matches Ok(address) ==> address != 0 && address + SIZE_RESERVATION * COUNT
                <= u64::MAX,
        ensures
            match (reply, result) {
                (Ok(address), Ok(reservations)) => {
                    &&& reservations@.len() == COUNT
                    &&& forall|i: int|
                        0 <= i < COUNT ==> (#[trigger] reservations@[i]).address == address
                            + SIZE_RESERVATION * i && reservations@[i].wf()
                },
                (Err(code), Err(error)) => error == Error::Mmap(code),
                _ => false,
            },
    {
        match reply {
            Err(code) => Err(Error::Mmap(code)),
            Ok(address) => {
                let mut reservations: Vec<Self> = Vec::new();
                let mut i: usize = 0;
                while i < COUNT
                    invariant
                        0 <= i <= COUNT,
                        reservations@.len() == i,
                        address != 0,
                        address + SIZE_RESERVATION * COUNT <= u64::MAX,
                        forall|j: int|
                            0 <= j < i ==> (#[trigger] reservations@[j]).address == address
                                + SIZE_RESERVATION * j && reservations@[j].wf(),
                    decreases COUNT - i,
                {
                    reservations.push(
                        Reservation { address: address + SIZE_RESERVATION * (i as u64) },
                    );
                    i = i + 1;
                }
                Ok(reservations)
            },
        }
    }

    /// The request that gives the addresses back.
    pub fn munmap(&self) -> (call: UnmapCall)
        ensures
            call == (UnmapCall { address: self.address, size: SIZE_RESERVATION }),
    {
        UnmapCall { address: self.address, size: SIZE_RESERVATION }
    }

    /// Where the addresses begin.
    pub fn start(&self) -> (address: u64)
        ensures
            address == self.address,
    {
        self.address
    }

    /// Where the addresses end.
    pub fn end(&self) -> (address: u64)
        requires
            self.wf(),
        ensures
            address == self.address + SIZE_RESERVATION,
    {
        self.address + SIZE_RESERVATION
    }
}

/// Memory with a name.
pub trait Region {
    /// Where the region begins.
    spec fn start(&self) -> u64;

    /// Whether the region began with new memory.
    spec fn clean(&self) -> bool;

    /// The name of the region.
    spec fn name(&self) -> Seq<char>;

    /// The addresses of the region.
    spec fn extent(&self) -> UnmapCall;

    /// Where the region begins.
    fn address(&self) -> (address: u64)
        ensures
            address == self.start(),
    ;

    /// Whether the region began with new memory.
    fn is_clean(&self) -> (clean: bool)
        ensures
            clean == self.clean(),
    ;

    /// The name of the region.
    fn id(&self) -> (id: &str)
        ensures
            id@ == self.name(),
    ;

    /// The request that removes all mappings of the region.
    fn unmap(&self) -> (call: UnmapCall)
        ensures
            call == self.extent(),
    ;
}

/// A region that keeps its size.
#[derive(Clone, Copy, Debug)]
pub struct Fixed {
    /// Its name.
    pub id: Id,
    /// Whether its file is new.
    pub clean: bool,
    /// Where it begins.
    pub address: u64,
    /// Its size.
    pub size: u64,
}

impl Fixed {
    /// The file that a region of at least `size` bytes needs behind it.
    pub fn plan(backend: Backend, id: Id, size: u64) -> (backing: Backing)
        requires
            round_up(size as int, SIZE_PAGE as int) <= u64::MAX,
        ensures
            backing.wf(),
            backing.step_spec() is Allocate,
            backing.backend() == backend,
            backing.id() == id@,
            backing.address() is None,
            backing.size() == round_up(size as int, SIZE_PAGE as int),
    {
        let size: u64 = next_multiple_of(size, SIZE_PAGE);
        Backing::new(backend, id, None, size)
    }

    /// The region that is backed by a planned file, once the backing has ended.
    pub fn new(backing: &Backing) -> (result: Result<Self, Error>)
        requires
            backing.wf(),
            backing.step_spec() is Finished,
        ensures
            match result {
                Ok(region) => {
                    &&& region.id@ == backing.id()
                    &&& region.size == backing.size()
                    &&& region.address != 0
                    &&& backing.step_spec() == (BackStep::Finished {
                        result: Ok(Backed { address: region.address, clean: region.clean }),
                    })
                },
                Err(error) => backing.step_spec() == (BackStep::Finished { result: Err(error) }),
            },
    {
        match backing.result() {
            Ok(backed) => Ok(
                Fixed {
                    id: backing.name(),
                    clean: backed.clean,
                    address: backed.address,
                    size: backing.len(),
                },
            ),
            Err(error) => Err(error),
        }
    }
}

impl Region for Fixed {
    open spec fn start(&self) -> u64 {
        self.address
    }

    open spec fn clean(&self) -> bool {
        self.clean
    }

    open spec fn name(&self) -> Seq<char> {
        self.id@
    }

    open spec fn extent(&self) -> UnmapCall {
        UnmapCall { address: self.address, size: self.size }
    }

    fn address(&self) -> (address: u64) {
        self.address
    }

    fn is_clean(&self) -> (clean: bool) {
        self.clean
    }

    fn id(&self) -> (id: &str) {
        self.id.as_str()
    }

    fn unmap(&self) -> (call: UnmapCall) {
        UnmapCall { address: self.address, size: self.size }
    }
}

/// A region that grows from its beginning, by one extent at a time.
#[derive(Clone, Copy, Debug)]
pub struct Sequential {
    /// Its name.
    pub id: Id,
    /// Whether the file of its first extent was there from the start, and new.
    pub clean: bool,
    /// Its addresses.
    pub reservation: Reservation,
    /// The size of an extent.
    pub size: u64,
}

impl Sequential {
    /// The extents are whole pages, and the addresses exist.
    pub open spec fn wf(&self) -> bool {
        &&& self.reservation.wf()
        &&& self.size > 0
        &&& self.size % SIZE_PAGE == 0
    }

    /// The extent that an offset lies in.
    pub open spec fn index(&self, offset: u64) -> int {
        offset as int / self.size as int
    }

    /// Where an extent begins.
    pub open spec fn extent_start(&self, index: int) -> int {
        self.reservation.address + self.size * index
    }

    /// The name of the file behind an extent.
    pub open spec fn extent_name(&self, index: int) -> Seq<char> {
        joined(self.id@, digits(index as nat, 10))
    }

    /// The file that a region with extents of at least `size` bytes needs
    /// behind its first extent. A lazy region needs none until that extent is
    /// used.
    pub fn plan(
        backend: Backend,
        id: Id,
        reservation: Reservation,
        size: u64,
        lazy: bool,
    ) -> (plan: Option<Backing>)
        requires
            round_up(size as int, SIZE_PAGE as int) <= u64::MAX,
            !lazy ==> id.has_room_for(digits(0, 10)),
        ensures
            match plan {
                None => lazy,
                Some(backing) => {
                    &&& !lazy
                    &&& backing.wf()
                    &&& backing.step_spec() is Allocate
                    &&& backing.backend() == backend
                    &&& backing.id() == joined(id@, digits(0, 10))
                    &&& backing.address() == Some(reservation.address)
                    &&& backing.size() == round_up(size as int, SIZE_PAGE as int)
                },
            },
    {
        let size: u64 = next_multiple_of(size, SIZE_PAGE);
        if lazy {
            None
        } else {
            let first: Id = id.with_suffix(0u64);
            Some(Backing::new(backend, first, Some(reservation.address), size))
        }
    }

    /// The region whose first extent has been backed as planned, once the
    /// backing has ended, or the lazy region for which none was planned.
    pub fn new(id: Id, reservation: Reservation, size: u64, backing: Option<Backing>) -> (result:
        Result<Self, Error>)
        requires
            size > 0,
            reservation.wf(),
            round_up(size as int, SIZE_PAGE as int) <= u64::MAX,
            backing matches Some(backing) ==> {
                &&& backing.wf()
                &&& backing.step_spec() is Finished
                &&& backing.id() == joined(id@, digits(0, 10))
                &&& backing.address() == Some(reservation.address)
                &&& backing.size() == round_up(size as int, SIZE_PAGE as int)
            },
        ensures
            match result {
                Ok(region) => {
                    &&& region.wf()
                    &&& region.id == id
                    &&& region.reservation == reservation
                    &&& region.size == round_up(size as int, SIZE_PAGE as int)
                    &&& match backing {
                        None => !region.clean,
                        Some(backing) => backing.step_spec() == (BackStep::Finished {
                            result: Ok(
                                Backed { address: reservation.address, clean: region.clean },
                            ),
                        }),
                    }
                },
                Err(error) => backing matches Some(backing) && backing.step_spec() == (
                BackStep::Finished { result: Err(error) }),
            },
    {
        let size: u64 = next_multiple_of(size, SIZE_PAGE);
        proof {
            law_round_up(size as int, SIZE_PAGE as int);
        }
        let clean: bool = match backing {
            None => false,
            Some(backing) => match backing.result() {
                Err(error) => {
                    return Err(error);
                },
                Ok(backed) => backed.clean,
            },
        };
        Ok(Sequential { id, clean, reservation, size })
    }

    /// The file that the extent around an offset needs behind it.
    pub fn map(&self, backend: Backend, offset: u64) -> (backing: Backing)
        requires
            self.wf(),
            self.id.has_room_for(digits(self.index(offset) as nat, 10)),
            self.extent_start(self.index(offset)) <= u64::MAX,
        ensures
            backing.wf(),
            backing.step_spec() is Allocate,
            backing.backend() == backend,
            backing.id() == self.extent_name(self.index(offset)),
            backing.address() matches Some(address) && address == self.extent_start(
                self.index(offset),
            ),
            backing.size() == self.size,
    {
        let index: u64 = offset / self.size;
        let id: Id = self.id.with_suffix(index);
        proof {
            law_extent_holds_offset(*self, offset);
            vstd::arithmetic::mul::lemma_mul_nonnegative(self.size as int, index as int);
        }
        let address: u64 = self.reservation.address + self.size * index;
        Backing::new(backend, id, Some(address), self.size)
    }
}

/// An offset lies in the extent that is mapped for it.
pub proof fn law_extent_holds_offset(region: Sequential, offset: u64)
    requires
        region.wf(),
    ensures
        ({
            let index = region.index(offset);
            &&& 0 <= index
            &&& region.extent_start(index) <= region.reservation.address + offset
            &&& region.reservation.address + offset < region.extent_start(index) + region.size
            &&& 0 <= region.size * index <= offset
        }),
{
    let index = region.index(offset);
    vstd::arithmetic::div_mod::lemma_fundamental_div_mod(offset as int, region.size as int);
    vstd::arithmetic::div_mod::lemma_mod_bound(offset as int, region.size as int);
    vstd::arithmetic::div_mod::lemma_div_pos_is_pos(offset as int, region.size as int);
    vstd::arithmetic::mul::lemma_mul_nonnegative(region.size as int, index);
}

/// Where extents are and what their files are called. An extent lies as many
/// sizes into the region as its number says. Its file has the name of the region,
/// then a dash, then that number in decimal.
pub proof fn law_extents_by_number(region: Sequential, index: nat)
    ensures
        region.extent_start(index as int) == region.reservation.address + index * region.size,
        ({
            let name = region.extent_name(index as int);
            let start = region.id@.len() as int;
            &&& name.take(start) == region.id@
            &&& name[start] == '-'
            &&& is_number(name.skip(start + 1), 10)
            &&& denoted(name.skip(start + 1), 10) == index
        }),
{
    let name = region.extent_name(index as int);
    let start = region.id@.len() as int;
    vstd::arithmetic::mul::lemma_mul_is_commutative(region.size as int, index as int);
    law_digits_denote_the_number(index, 10);
    assert(name.take(start) =~= region.id@);
    assert(name.skip(start + 1) =~= digits(index, 10));
}

/// Where memory of a [`Random`] region is and what its file is called. It lies at
/// its offset. The file has the name of the region, then a dash, then `0x` and the
/// offset in base sixteen.
pub proof fn law_memory_by_offset(region: Random, offset: u64, size: u64)
    requires
        region.reservation.address + offset <= u64::MAX,
    ensures
        region.memory(offset, size).address == region.reservation.address + offset,
        region.memory(offset, size).size == size,
        ({
            let name = region.file_name(offset);
            let start = region.id@.len() as int;
            &&& name.take(start) == region.id@
            &&& name[start] == '-'
            &&& name[start + 1] == '0'
            &&& name[start + 2] == 'x'
            &&& is_number(name.skip(start + 3), 16)
            &&& denoted(name.skip(start + 3), 16) == offset
        }),
{
    let name = region.file_name(offset);
    let start = region.id@.len() as int;
    law_digits_denote_the_number(offset as nat, 16);
    assert(name.take(start) =~= region.id@);
    assert(name.skip(start + 3) =~= digits(offset as nat, 16));
}

/// The file behind the first extent is the one that a region which is not lazy
/// begins with.
pub proof fn law_first_extent(region: Sequential, offset: u64)
    requires
        region.wf(),
        offset < region.size,
    ensures
        region.index(offset) == 0,
        region.extent_start(0) == region.reservation.address,
        region.extent_name(0) == joined(region.id@, digits(0, 10)),
{
    vstd::arithmetic::div_mod::lemma_basic_div(offset as int, region.size as int);
    vstd::arithmetic::mul::lemma_mul_by_zero_is_zero(region.size as int);
}

/// Extents follow each other without gap or overlap: offsets in different
/// extents are backed by disjoint memory and by different files.
pub proof fn law_extents_are_disjoint(region: Sequential, first: int, second: int)
    requires
        region.wf(),
        0 <= first < second,
    ensures
        region.extent_start(first) + region.size <= region.extent_start(second),
        region.extent_start(first + 1) == region.extent_start(first) + region.size,
        region.extent_name(first) != region.extent_name(second),
{
    assert(region.size * first + region.size <= region.size * second) by (nonlinear_arith)
        requires
            first < second,
            region.size > 0,
    ;
    vstd::arithmetic::mul::lemma_mul_is_distributive_add(region.size as int, first, 1);
    let one = digits(first as nat, 10);
    let other = digits(second as nat, 10);
    law_digits_are_distinct(first as nat, second as nat, 10);
    if region.extent_name(first) == region.extent_name(second) {
        lemma_joined(region.id@, one, other);
    }
}

/// A name with one suffix differs from the same name with another.
proof fn lemma_joined(name: Seq<char>, first: Seq<char>, second: Seq<char>)
    requires
        joined(name, first) == joined(name, second),
    ensures
        first == second,
{
    let start = name.len() + 1;
    assert(first =~= joined(name, first).skip(start as int));
    assert(second =~= joined(name, second).skip(start as int));
}

impl Region for Sequential {
    open spec fn start(&self) -> u64 {
        self.reservation.address
    }

    open spec fn clean(&self) -> bool {
        self.clean
    }

    open spec fn name(&self) -> Seq<char> {
        self.id@
    }

    open spec fn extent(&self) -> UnmapCall {
        UnmapCall { address: self.reservation.address, size: SIZE_RESERVATION }
    }

    fn address(&self) -> (address: u64) {
        self.reservation.address
    }

    fn is_clean(&self) -> (clean: bool) {
        self.clean
    }

    fn id(&self) -> (id: &str) {
        self.id.as_str()
    }

    fn unmap(&self) -> (call: UnmapCall) {
        self.reservation.munmap()
    }
}

/// A region in which memory comes and goes anywhere.
#[derive(Clone, Copy, Debug)]
pub struct Random {
    /// Its name.
    pub id: Id,
    /// Its addresses.
    pub reservation: Reservation,
}

/// What takes memory out of a [`Random`] region. Neither request is retried or
/// reported if it fails.
#[derive(Clone, Copy, Debug)]
pub struct Removal {
    /// The request that unmaps the memory.
    pub call: UnmapCall,
    /// The file that the backend unlinks after that.
    pub id: Id,
}

impl Random {
    /// The addresses exist.
    pub open spec fn wf(&self) -> bool {
        self.reservation.wf()
    }

    /// The memory at an offset.
    pub open spec fn memory(&self, offset: u64, size: u64) -> UnmapCall {
        UnmapCall { address: (self.reservation.address + offset) as u64, size }
    }

    /// The name of the file behind the memory at an offset.
    pub open spec fn file_name(&self, offset: u64) -> Seq<char> {
        joined(self.id@, seq!['0', 'x'] + digits(offset as nat, 16))
    }

    /// The region with a name and addresses.
    pub fn new(id: Id, reservation: Reservation) -> (region: Self)
        ensures
            region == (Random { id, reservation }),
    {
        Random { id, reservation }
    }

    /// Whether an address belongs to the region.
    pub fn contains(&self, pointer: u64) -> (contained: bool)
        requires
            self.wf(),
        ensures
            contained <==> self.reservation.address <= pointer < self.reservation.address
                + SIZE_RESERVATION,
    {
        self.reservation.start() <= pointer && pointer < self.reservation.end()
    }

    /// The file that memory at an offset needs behind it.
    pub fn map(&self, backend: Backend, offset: u64, size: u64) -> (backing: Backing)
        requires
            self.id.has_room_for(seq!['0', 'x'] + digits(offset as nat, 16)),
            self.reservation.address + offset <= u64::MAX,
        ensures
            backing.wf(),
            backing.step_spec() is Allocate,
            backing.backend() == backend,
            backing.id() == self.file_name(offset),
            backing.address() == Some(self.memory(offset, size).address),
            backing.size() == self.memory(offset, size).size,
    {
        let id: Id = self.id.with_suffix(Hex(offset));
        let address: u64 = self.reservation.address + offset;
        Backing::new(backend, id, Some(address), size)
    }

    /// What undoes [`Random::map`].
    pub fn unmap(&self, offset: u64, size: u64) -> (removal: Removal)
        requires
            self.id.has_room_for(seq!['0', 'x'] + digits(offset as nat, 16)),
            self.reservation.address + offset <= u64::MAX,
        ensures
            removal.call == self.memory(offset, size),
            removal.id@ == self.file_name(offset),
    {
        let id: Id = self.id.with_suffix(Hex(offset));
        let call: UnmapCall = UnmapCall { address: self.reservation.address + offset, size };
        Removal { call, id }
    }
}

/// Memory at different offsets is backed by different files.
pub proof fn law_files_are_distinct(region: Random, first: u64, second: u64)
    ensures
        region.file_name(first) == region.file_name(second) <==> first == second,
{
    let prefix = seq!['0', 'x'];
    let one = prefix + digits(first as nat, 16);
    let other = prefix + digits(second as nat, 16);
    law_digits_are_distinct(first as nat, second as nat, 16);
    if region.file_name(first) == region.file_name(second) {
        lemma_joined(region.id@, one, other);
        assert(digits(first as nat, 16) =~= one.skip(2));
        assert(digits(second as nat, 16) =~= other.skip(2));
    }
}

/// Memory whose offsets are within the reservation belongs to the region, and
/// memory at offsets that do not overlap does not overlap either.
pub proof fn law_memory_is_contained(
    region: Random,
    offset: u64,
    size: u64,
    other_offset: u64,
    other_size: u64,
)
    requires
        region.wf(),
        offset + size <= SIZE_RESERVATION,
        offset + size <= other_offset,
        other_offset + other_size <= SIZE_RESERVATION,
    ensures
        ({
            let memory = region.memory(offset, size);
            let other = region.memory(other_offset, other_size);
            &&& region.reservation.address <= memory.address
            &&& memory.address + memory.size <= other.address
            &&& other.address + other.size <= region.reservation.address + SIZE_RESERVATION
        }),
{
}

impl Region for Random {
    open spec fn start(&self) -> u64 {
        self.reservation.address
    }

    open spec fn clean(&self) -> bool {
        false
    }

    open spec fn name(&self) -> Seq<char> {
        self.id@
    }

    open spec fn extent(&self) -> UnmapCall {
        UnmapCall { address: self.reservation.address, size: SIZE_RESERVATION }
    }

    fn address(&self) -> (address: u64) {
        self.reservation.start()
    }

    fn is_clean(&self) -> (clean: bool) {
        false
    }

    fn id(&self) -> (id: &str) {
        self.id.as_str()
    }

    fn unmap(&self) -> (call: UnmapCall) {
        self.reservation.munmap()
    }
}

} // verus!
