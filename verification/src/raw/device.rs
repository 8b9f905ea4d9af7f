//! The device that performs compare-and-exchange on memory outside of any
//! cache.
//!
//! A thread writes a [`Command`] into one buffer and reads the outcome from
//! another. The buffers are known to the device by physical addresses, which
//! are put into its registers.

use vstd::prelude::*;

use crate::error::Error;

verus! {

/// The size of a page of the device.
pub const PAGE_SIZE: u64 = 4096;

/// The size of a buffer.
pub const BUFFER_SIZE: u64 = PAGE_SIZE * 16;

/// How many bytes of the device's registers are mapped.
pub const CSR_SIZE: u64 = 0x20_0000;

/// How many bytes of the read buffer belong to a thread.
pub const SLOT_SIZE: u64 = 64;

/// The register that holds the physical address of the read buffer.
pub const RD_BUFF: u64 = 13;

/// The register that holds the physical address of the write buffer.
pub const WR_BUFF: u64 = 14;

/// Something of the device that is mapped into memory.
#[derive(Clone, Copy, Debug, PartialEq, Eq, Structural)]
pub enum Part {
    /// The registers.
    Csr,
    /// The buffer that outcomes are read from.
    Read,
    /// The buffer that commands are written to.
    Write,
    /// The memory that is operated on.
    Target,
}

impl Part {
    /// The file that is opened for this part.
    pub open spec fn path_spec(self) -> Seq<char> {
        match self {
            Part::Csr => "/sys/devices/pci0000:27/0000:27:00.1/resource2"@,
            Part::Read => "/proc/mcas_rd_buff"@,
            Part::Write => "/proc/mcas_wr_buff"@,
            Part::Target => "/proc/mcas_target_buff"@,
        }
    }

    /// How many bytes of the file are mapped.
    pub open spec fn size_spec(self) -> u64 {
        match self {
            Part::Csr => CSR_SIZE,
            _ => BUFFER_SIZE,
        }
    }

    /// The register that gets the physical address of this part.
    pub open spec fn register_spec(self) -> Option<u64> {
        match self {
            Part::Read => Some(RD_BUFF),
            Part::Write => Some(WR_BUFF),
            _ => None,
        }
    }

    /// The file that is opened for this part. It is opened for reading and
    /// writing.
    pub fn path(&self) -> (path: &'static str)
        ensures
            path@ == self.path_spec(),
    {
        match self {
            Part::Csr => "/sys/devices/pci0000:27/0000:27:00.1/resource2",
            Part::Read => "/proc/mcas_rd_buff",
            Part::Write => "/proc/mcas_wr_buff",
            Part::Target => "/proc/mcas_target_buff",
        }
    }

    /// Whether writes to the file go through at once.
    pub fn sync(&self) -> (sync: bool)
        ensures
            sync <==> *self is Csr,
    {
        matches!(self, Part::Csr)
    }

    /// How many bytes of the file are mapped.
    pub fn size(&self) -> (size: u64)
        ensures
            size == self.size_spec(),
    {
        match self {
            Part::Csr => CSR_SIZE,
            _ => BUFFER_SIZE,
        }
    }
}

/// Which file, how much of it, and which register belong to each part.
pub proof fn law_parts()
    ensures
        Part::Csr.path_spec() == "/sys/devices/pci0000:27/0000:27:00.1/resource2"@,
        Part::Read.path_spec() == "/proc/mcas_rd_buff"@,
        Part::Write.path_spec() == "/proc/mcas_wr_buff"@,
        Part::Target.path_spec() == "/proc/mcas_target_buff"@,
        Part::Csr.size_spec() == 0x20_0000,
        Part::Read.size_spec() == 0x1_0000,
        Part::Write.size_spec() == 0x1_0000,
        Part::Target.size_spec() == 0x1_0000,
        Part::Read.register_spec() == Some(13u64),
        Part::Write.register_spec() == Some(14u64),
        Part::Csr.register_spec() is None,
        Part::Target.register_spec() is None,
{
}

/// A write to a register.
#[derive(Clone, Copy, Debug, PartialEq, Eq, Structural)]
pub struct RegisterWrite {
    /// The address of the register.
    pub address: u64,
    /// What is written.
    pub value: u64,
}

/// What an opening waits for.
#[derive(Clone, Copy, Debug, PartialEq, Eq)]
pub enum OpenStep {
    /// The file to be opened.
    Open,
    /// The first eight bytes of the file to be read.
    ReadAddress,
    /// A register to be written.
    SetRegister {
        /// The write.
        write: RegisterWrite,
    },
    /// The file to be mapped for reading and writing, shared and at any
    /// address.
    Mmap {
        /// How many bytes to map.
        size: u64,
    },
    /// Memory to be filled with zeros.
    Clear {
        /// Where it begins.
        address: u64,
        /// How many bytes it has.
        size: u64,
    },
    /// Nothing.
    Finished {
        /// Where the file is mapped, or why it is not.
        result: Result<u64, Error>,
    },
}

/// A part of the device on its way into memory.
#[derive(Clone, Copy, Debug, PartialEq, Eq)]
pub struct Opening {
    part: Part,
    csr: u64,
    address_phys: u64,
    step: OpenStep,
}

impl Opening {
    /// What is opened.
    pub closed spec fn part(&self) -> Part {
        self.part
    }

    /// Where the registers are mapped.
    pub closed spec fn csr(&self) -> u64 {
        self.csr
    }

    /// The physical address of the part, once it has been read.
    pub closed spec fn address_phys(&self) -> u64 {
        self.address_phys
    }

    /// What the opening waits for.
    pub closed spec fn step_spec(&self) -> OpenStep {
        self.step
    }

    /// How the opening ended.
    pub open spec fn outcome(&self) -> Result<u64, Error>
        recommends
            self.step_spec() is Finished,
    {
        self.step_spec()->result
    }

    /// Whether another opening is of the same part, with the same registers.
    pub open spec fn same(&self, other: &Opening) -> bool {
        self.part() == other.part() && self.csr() == other.csr()
    }

    /// The registers that will be written have addresses.
    pub open spec fn wf(&self) -> bool {
        self.part().register_spec() matches Some(index) ==> self.csr() + 8 * index <= u64::MAX
    }

    fn new(part: Part, csr: u64) -> (opening: Self)
        requires
            part.register_spec() matches Some(index) ==> csr + 8 * index <= u64::MAX,
        ensures
            opening.wf(),
            opening.part() == part,
            opening.csr() == csr,
            opening.step_spec() is Open,
    {
        Opening { part, csr, address_phys: 0, step: OpenStep::Open }
    }

    /// What is opened.
    pub fn device_part(&self) -> (part: Part)
        ensures
            part == self.part(),
    {
        self.part
    }

    /// What the opening waits for.
    pub fn step(&self) -> (step: OpenStep)
        ensures
            step == self.step_spec(),
    {
        self.step
    }

    /// The opening after a reply to the request to open the file.
    pub closed spec fn after_open(self, reply: Result<(), i32>) -> Opening {
        let step = match reply {
            Err(code) => OpenStep::Finished { result: Err(Error::Io(code)) },
            Ok(()) => if self.part is Csr {
                OpenStep::Mmap { size: CSR_SIZE }
            } else {
                OpenStep::ReadAddress
            },
        };
        Opening { step, ..self }
    }

    /// The opening after its physical address has been read.
    pub closed spec fn after_address(self, address_phys: u64) -> Opening {
        let step = match self.part.register_spec() {
            Some(index) => OpenStep::SetRegister {
                write: RegisterWrite {
                    address: (self.csr + 8 * index) as u64,
                    value: address_phys,
                },
            },
            None => OpenStep::Mmap { size: self.part.size_spec() },
        };
        Opening { address_phys, step, ..self }
    }

    /// The opening after its register has been written.
    pub closed spec fn after_register(self) -> Opening {
        Opening { step: OpenStep::Mmap { size: self.part.size_spec() }, ..self }
    }

    /// The opening after a reply to the request to map the file.
    pub closed spec fn after_map(self, reply: Result<u64, i32>) -> Opening {
        let step = match reply {
            Err(code) => OpenStep::Finished { result: Err(Error::Io(code)) },
            Ok(address) => if self.part is Target {
                OpenStep::Clear { address, size: BUFFER_SIZE }
            } else {
                OpenStep::Finished { result: Ok(address) }
            },
        };
        Opening { step, ..self }
    }

    /// The opening after its memory has been cleared.
    pub closed spec fn after_clear(self) -> Opening {
        match self.step {
            OpenStep::Clear { address, .. } => Opening {
                step: OpenStep::Finished { result: Ok(address) },
                ..self
            },
            _ => self,
        }
    }

    /// The opening of a buffer once all replies have come in, in whatever steps
    /// it takes: whether the file was opened, the physical address that was read
    /// from it, and where it was mapped.
    pub open spec fn carried_out(
        self,
        opened: Result<(), i32>,
        address_phys: u64,
        mapped: Result<u64, i32>,
    ) -> Opening {
        let first = self.after_open(opened);
        let second = if first.step_spec() is ReadAddress {
            first.after_address(address_phys)
        } else {
            first
        };
        let third = if second.step_spec() is SetRegister {
            second.after_register()
        } else {
            second
        };
        let fourth = if third.step_spec() is Mmap {
            third.after_map(mapped)
        } else {
            third
        };
        if fourth.step_spec() is Clear {
            fourth.after_clear()
        } else {
            fourth
        }
    }

    /// What the opening of a buffer asks for, from its first step to its last.
    /// The physical address that is read goes into the register of the read
    /// buffer or of the write buffer, unchanged. Then all of the buffer is mapped.
    /// The memory that is operated on has no register, and is cleared where it was
    /// mapped.
    pub proof fn law_requests(
        self,
        address_phys: u64,
        address_virt: u64,
    )
        requires
            self.wf(),
            self.part() !is Csr,
            self.step_spec() is Open,
        ensures
            ({
                let first = self.after_open(Ok(()));
                let second = first.after_address(address_phys);
                let third = if self.part() is Target {
                    second
                } else {
                    second.after_register()
                };
                let fourth = third.after_map(Ok(address_virt));
                &&& first.step_spec() is ReadAddress
                &&& self.part() is Read ==> (second.step_spec() matches OpenStep::SetRegister {
                    write,
                } && write.address == self.csr() + 104 && write.value == address_phys)
                &&& self.part() is Write ==> (second.step_spec() matches OpenStep::SetRegister {
                    write,
                } && write.address == self.csr() + 112 && write.value == address_phys)
                &&& third.step_spec() == (OpenStep::Mmap { size: 65536 })
                &&& self.part() is Target ==> fourth.step_spec() == (OpenStep::Clear {
                    address: address_virt,
                    size: 65536,
                })
            }),
    {
    }

    /// The buffer that an opening comes to is the one that the replies tell of:
    /// it has the physical address that was read, all of it, and lies where the
    /// file was mapped. If the file could not be opened or mapped, there is no
    /// buffer, and the error is that of the first request that failed.
    pub proof fn law_buffer_is_as_replied(
        self,
        opened: Result<(), i32>,
        address_phys: u64,
        mapped: Result<u64, i32>,
    )
        requires
            self.wf(),
            self.part() !is Csr,
            self.step_spec() is Open,
        ensures
            ({
                let ended = self.carried_out(opened, address_phys, mapped);
                &&& ended.step_spec() is Finished
                &&& ended.part() == self.part()
                &&& match (opened, mapped) {
                    (Err(code), _) => Buffer::of(ended) == Err::<Buffer, Error>(Error::Io(code)),
                    (Ok(()), Err(code)) => Buffer::of(ended) == Err::<Buffer, Error>(
                        Error::Io(code),
                    ),
                    (Ok(()), Ok(address_virt)) => Buffer::of(ended) matches Ok(buffer) && {
                        &&& buffer.address_phys == address_phys
                        &&& buffer.address_virt == address_virt
                    },
                }
            }),
    {
    }

    /// The registers lie where their file was mapped. No address is read from it,
    /// and no register is written. If the file could not be opened or mapped, the
    /// error is that of the first request that failed.
    pub proof fn law_registers_are_as_replied(
        self,
        opened: Result<(), i32>,
        address_phys: u64,
        mapped: Result<u64, i32>,
    )
        requires
            self.part() is Csr,
            self.step_spec() is Open,
        ensures
            ({
                let ended = self.carried_out(opened, address_phys, mapped);
                &&& opened is Ok ==> self.after_open(opened).step_spec() == (OpenStep::Mmap {
                    size: 0x20_0000,
                })
                &&& ended.step_spec() is Finished
                &&& ended.part() is Csr
                &&& ended.outcome() == (match (opened, mapped) {
                    (Err(code), _) => Err::<u64, Error>(Error::Io(code)),
                    (Ok(()), Err(code)) => Err(Error::Io(code)),
                    (Ok(()), Ok(address_virt)) => Ok(address_virt),
                })
            }),
    {
    }

    /// Takes whether the file was opened. The registers are mapped next; of a
    /// buffer, the physical address is read first.
    pub fn opened(&mut self, reply: Result<(), i32>)
        requires
            old(self).wf(),
            old(self).step_spec() is Open,
        ensures
            final(self).wf(),
            final(self).same(old(self)),
            final(self).address_phys() == old(self).address_phys(),
            final(self).step_spec() == (match reply {
                Err(code) => OpenStep::Finished { result: Err(Error::Io(code)) },
                Ok(()) => if old(self).part() is Csr {
                    OpenStep::Mmap { size: CSR_SIZE }
                } else {
                    OpenStep::ReadAddress
                },
            }),
            *final(self) == old(self).after_open(reply),
    {
        self.step = match reply {
            Err(code) => OpenStep::Finished { result: Err(Error::Io(code)) },
            Ok(()) => match self.part {
                Part::Csr => OpenStep::Mmap { size: self.part.size() },
                _ => OpenStep::ReadAddress,
            },
        };
    }

    /// Takes the physical address. It is put into the part's register, if it
    /// has one.
    pub fn address_read(&mut self, address_phys: u64)
        requires
            old(self).wf(),
            old(self).step_spec() is ReadAddress,
        ensures
            final(self).wf(),
            final(self).same(old(self)),
            final(self).address_phys() == address_phys,
            match old(self).part().register_spec() {
                Some(index) => final(self).step_spec() matches OpenStep::SetRegister { write }
                    && write.address == old(self).csr() + 8 * index && write.value == address_phys,
                None => final(self).step_spec() == (OpenStep::Mmap {
                    size: old(self).part().size_spec(),
                }),
            },
            *final(self) == old(self).after_address(address_phys),
    {
        let csr: Csr = Csr { address_virt: self.csr };
        self.address_phys = address_phys;
        self.step = match self.part {
            Part::Read => OpenStep::SetRegister { write: csr.set(RD_BUFF, address_phys) },
            Part::Write => OpenStep::SetRegister { write: csr.set(WR_BUFF, address_phys) },
            _ => OpenStep::Mmap { size: self.part.size() },
        };
    }

    /// Takes the bytes that the file begins with. They are the physical address,
    /// in the byte order of the machine, and it is put into the part's register,
    /// if it has one.
    pub fn bytes_read(&mut self, bytes: [u8; 8])
        requires
            old(self).wf(),
            old(self).step_spec() is ReadAddress,
        ensures
            final(self).wf(),
            final(self).same(old(self)),
            final(self).address_phys() == little_endian(bytes@) || final(self).address_phys()
                == little_endian(bytes@.reverse()),
            match old(self).part().register_spec() {
                Some(index) => final(self).step_spec() matches OpenStep::SetRegister { write }
                    && write.address == old(self).csr() + 8 * index
                    && write.value == final(self).address_phys(),
                None => final(self).step_spec() == (OpenStep::Mmap {
                    size: old(self).part().size_spec(),
                }),
            },
            *final(self) == old(self).after_address(final(self).address_phys()),
    {
        self.address_read(Buffer::physical_address(bytes));
    }

    /// Takes note that the register has been written.
    pub fn register_set(&mut self)
        requires
            old(self).wf(),
            old(self).step_spec() is SetRegister,
        ensures
            final(self).wf(),
            final(self).same(old(self)),
            final(self).address_phys() == old(self).address_phys(),
            final(self).step_spec() == (OpenStep::Mmap { size: old(self).part().size_spec() }),
            *final(self) == old(self).after_register(),
    {
        self.step = OpenStep::Mmap { size: self.part.size() };
    }

    /// Takes where the file was mapped. The memory that is operated on is
    /// cleared before it is used.
    pub fn mapped(&mut self, reply: Result<u64, i32>)
        requires
            old(self).wf(),
            old(self).step_spec() is Mmap,
        ensures
            final(self).wf(),
            final(self).same(old(self)),
            final(self).address_phys() == old(self).address_phys(),
            final(self).step_spec() == (match reply {
                Err(code) => OpenStep::Finished { result: Err(Error::Io(code)) },
                Ok(address) => if old(self).part() is Target {
                    OpenStep::Clear { address, size: BUFFER_SIZE }
                } else {
                    OpenStep::Finished { result: Ok(address) }
                },
            }),
            *final(self) == old(self).after_map(reply),
    {
        self.step = match reply {
            Err(code) => OpenStep::Finished { result: Err(Error::Io(code)) },
            Ok(address) => match self.part {
                Part::Target => OpenStep::Clear { address, size: BUFFER_SIZE },
                _ => OpenStep::Finished { result: Ok(address) },
            },
        };
    }

    /// Takes note that the memory has been cleared.
    pub fn cleared(&mut self)
        requires
            old(self).wf(),
            old(self).step_spec() is Clear,
        ensures
            final(self).wf(),
            final(self).same(old(self)),
            final(self).address_phys() == old(self).address_phys(),
            old(self).step_spec() matches OpenStep::Clear { address, .. }
                && final(self).step_spec() == (OpenStep::Finished { result: Ok(address) }),
            *final(self) == old(self).after_clear(),
    {
        if let OpenStep::Clear { address, .. } = self.step {
            self.step = OpenStep::Finished { result: Ok(address) };
        }
    }
}

/// The number that bytes make, the first of them being the lowest.
pub open spec fn little_endian(bytes: Seq<u8>) -> nat
    decreases bytes.len(),
{
    if bytes.len() == 0 {
        0
    } else {
        bytes[0] as nat + 0x100 * little_endian(bytes.drop_first())
    }
}

/// Eight bytes make a number below two to the power of sixty-four, in which each
/// byte has its own eight bits.
pub proof fn law_bytes_have_places(bytes: Seq<u8>)
    requires
        bytes.len() == 8,
    ensures
        little_endian(bytes) == bytes[0] + 0x100 * bytes[1] + 0x1_0000 * bytes[2] + 0x100_0000
            * bytes[3] + 0x1_0000_0000 * bytes[4] + 0x100_0000_0000 * bytes[5]
            + 0x1_0000_0000_0000 * bytes[6] + 0x100_0000_0000_0000 * bytes[7],
{
    reveal_with_fuel(little_endian, 9);
    let rest = bytes.drop_first();
    assert(rest.len() == 7 && rest[0] == bytes[1]);
    let rest = rest.drop_first();
    assert(rest.len() == 6 && rest[0] == bytes[2]);
    let rest = rest.drop_first();
    assert(rest.len() == 5 && rest[0] == bytes[3]);
    let rest = rest.drop_first();
    assert(rest.len() == 4 && rest[0] == bytes[4]);
    let rest = rest.drop_first();
    assert(rest.len() == 3 && rest[0] == bytes[5]);
    let rest = rest.drop_first();
    assert(rest.len() == 2 && rest[0] == bytes[6]);
    let rest = rest.drop_first();
    assert(rest.len() == 1 && rest[0] == bytes[7]);
    assert(rest.drop_first().len() == 0);
}

/// [`u64::from_ne_bytes`]: the number that eight bytes make in the order that
/// the machine goes by. Which of the two orders that is, is not said.
#[verifier::external_body]
fn u64_from_ne_bytes(bytes: [u8; 8]) -> (number: u64)
    ensures
        number == little_endian(bytes@) || number == little_endian(bytes@.reverse()),
{
    u64::from_ne_bytes(bytes)
}

/// The registers of the device.
#[derive(Clone, Copy, Debug, PartialEq, Eq, Structural)]
pub struct Csr {
    /// Where they are mapped.
    pub address_virt: u64,
}

impl Csr {
    /// The registers, to be opened.
    pub fn open() -> (opening: Opening)
        ensures
            opening.wf(),
            opening.part() is Csr,
            opening.step_spec() is Open,
    {
        Opening::new(Part::Csr, 0)
    }

    /// The registers that have been opened.
    pub fn new(opening: &Opening) -> (result: Result<Self, Error>)
        requires
            opening.part() is Csr,
            opening.step_spec() is Finished,
        ensures
            match result {
                Ok(csr) => opening.step_spec() == (OpenStep::Finished {
                    result: Ok(csr.address_virt),
                }),
                Err(error) => opening.step_spec() == (OpenStep::Finished { result: Err(error) }),
            },
    {
        match opening.step {
            OpenStep::Finished { result: Ok(address_virt) } => Ok(Csr { address_virt }),
            OpenStep::Finished { result: Err(error) } => Err(error),
            _ => vstd::pervasive::unreached(),
        }
    }

    /// The write that puts a value into a register. Each has eight bytes.
    pub fn set(&self, index: u64, value: u64) -> (write: RegisterWrite)
        requires
            self.address_virt + 8 * index <= u64::MAX,
        ensures
            write.address == self.address_virt + 8 * index,
            write.value == value,
    {
        RegisterWrite { address: self.address_virt + 8 * index, value }
    }
}

/// A buffer of the device.
#[derive(Clone, Copy, Debug, PartialEq, Eq, Structural)]
pub struct Buffer {
    /// The address by which the device knows it.
    pub address_phys: u64,
    /// Where it is mapped.
    pub address_virt: u64,
}

impl Buffer {
    /// The buffer that outcomes are read from, to be opened.
    pub fn read(csr: &Csr) -> (opening: Opening)
        requires
            csr.address_virt + 8 * RD_BUFF <= u64::MAX,
        ensures
            opening.wf(),
            opening.part() is Read,
            opening.csr() == csr.address_virt,
            opening.step_spec() is Open,
    {
        Opening::new(Part::Read, csr.address_virt)
    }

    /// The buffer that commands are written to, to be opened.
    pub fn write(csr: &Csr) -> (opening: Opening)
        requires
            csr.address_virt + 8 * WR_BUFF <= u64::MAX,
        ensures
            opening.wf(),
            opening.part() is Write,
            opening.csr() == csr.address_virt,
            opening.step_spec() is Open,
    {
        Opening::new(Part::Write, csr.address_virt)
    }

    /// The memory that is operated on, to be opened.
    pub fn target(csr: &Csr) -> (opening: Opening)
        ensures
            opening.wf(),
            opening.part() is Target,
            opening.csr() == csr.address_virt,
            opening.step_spec() is Open,
    {
        Opening::new(Part::Target, csr.address_virt)
    }

    /// The physical address of a buffer, from the bytes that its file begins
    /// with.
    pub fn physical_address(bytes: [u8; 8]) -> (address: u64)
        ensures
            address == little_endian(bytes@) || address == little_endian(bytes@.reverse()),
    {
        u64_from_ne_bytes(bytes)
    }

    /// The buffer that an opening has come to.
    pub open spec fn of(opening: Opening) -> Result<Buffer, Error> {
        match opening.outcome() {
            Ok(address_virt) => Ok(
                Buffer { address_phys: opening.address_phys(), address_virt },
            ),
            Err(error) => Err(error),
        }
    }

    /// The buffer that has been opened.
    pub fn map(opening: &Opening) -> (result: Result<Self, Error>)
        requires
            opening.part() !is Csr,
            opening.step_spec() is Finished,
        ensures
            result == Buffer::of(*opening),
            match result {
                Ok(buffer) => buffer.address_phys == opening.address_phys() && opening.step_spec()
                    == (OpenStep::Finished { result: Ok(buffer.address_virt) }),
                Err(error) => opening.step_spec() == (OpenStep::Finished { result: Err(error) }),
            },
    {
        match opening.step {
            OpenStep::Finished { result: Ok(address_virt) } => Ok(
                Buffer { address_phys: opening.address_phys, address_virt },
            ),
            OpenStep::Finished { result: Err(error) } => Err(error),
            _ => vstd::pervasive::unreached(),
        }
    }

    /// The physical address of a mapped address.
    pub open spec fn translate_spec(&self, address: u64) -> int {
        address - self.address_virt + self.address_phys
    }

    /// The physical address of a mapped address.
    pub fn translate(&self, address: u64) -> (physical: u64)
        requires
            address >= self.address_virt,
            self.translate_spec(address) <= u64::MAX,
        ensures
            physical == self.translate_spec(address),
    {
        (address - self.address_virt) + self.address_phys
    }

    /// Distances are the same between physical as between mapped addresses, and
    /// the buffer is as large physically as it is mapped.
    pub proof fn law_translation_keeps_distances(&self, first: u64, second: u64)
        ensures
            self.translate_spec(second) - self.translate_spec(first) == second - first,
            self.address_virt <= first < self.address_virt + BUFFER_SIZE <==> self.address_phys
                <= self.translate_spec(first) < self.address_phys + BUFFER_SIZE,
            self.translate_spec(first) == self.translate_spec(second) <==> first == second,
    {
    }
}

impl Buffer {
    /// The first mapped address is the physical address of the buffer, and each
    /// that is some bytes further on is as many bytes further on physically.
    pub proof fn law_translation_starts_at_the_buffer(&self, distance: int)
        requires
            0 <= distance,
            self.address_virt + distance <= u64::MAX,
        ensures
            self.translate_spec((self.address_virt + distance) as u64) == self.address_phys
                + distance,
    {
    }
}

/// The buffers by which threads talk to the device.
#[derive(Clone, Copy, Debug, PartialEq, Eq, Structural)]
pub struct Mcas {
    /// Where outcomes are read from.
    pub read: Buffer,
    /// Where commands are written to.
    pub write: Buffer,
}

impl Mcas {
    /// The device whose buffers two openings have come to. The error of the
    /// read buffer comes first.
    pub open spec fn of(read: Opening, write: Opening) -> Result<Mcas, Error> {
        match (Buffer::of(read), Buffer::of(write)) {
            (Err(error), _) => Err(error),
            (Ok(_), Err(error)) => Err(error),
            (Ok(read), Ok(write)) => Ok(Mcas { read, write }),
        }
    }

    /// The device, once its buffers are open. The read buffer is opened first.
    /// If that fails, the write buffer is not opened.
    pub fn new(read: &Opening, write: &Opening) -> (result: Result<Self, Error>)
        requires
            read.part() is Read,
            read.step_spec() is Finished,
            read.outcome() is Ok ==> write.part() is Write && write.step_spec() is Finished,
        ensures
            result == Mcas::of(*read, *write),
    {
        match Buffer::map(read) {
            Err(error) => Err(error),
            Ok(read) => match Buffer::map(write) {
                Err(error) => Err(error),
                Ok(write) => Ok(Mcas { read, write }),
            },
        }
    }

    /// Where the outcome for a thread is read from.
    pub open spec fn slot(&self, id: u64) -> int {
        self.read.address_virt + SLOT_SIZE * id
    }

    /// The slots follow each other from the beginning of the read buffer, with 64
    /// bytes each.
    pub proof fn law_slots_follow_each_other(&self, id: u64)
        ensures
            self.slot(0) == self.read.address_virt,
            self.slot(id) == self.read.address_virt + 64 * id,
    {
    }

    /// The device has the buffers that two openings have come to, each for its
    /// own purpose. It has none if either failed, and of two errors that of the
    /// read buffer counts.
    pub proof fn law_read_comes_first(read: Opening, write: Opening)
        ensures
            match (read.outcome(), write.outcome()) {
                (Err(error), _) => Mcas::of(read, write) == Err::<Mcas, Error>(error),
                (Ok(_), Err(error)) => Mcas::of(read, write) == Err::<Mcas, Error>(error),
                (Ok(reading), Ok(writing)) => Mcas::of(read, write) matches Ok(mcas) && {
                    &&& mcas.read.address_virt == reading
                    &&& mcas.read.address_phys == read.address_phys()
                    &&& mcas.write.address_virt == writing
                    &&& mcas.write.address_phys == write.address_phys()
                },
            },
    {
    }

    /// Threads read their outcomes from different slots. The slots of the first
    /// 1024 threads lie within the buffer.
    pub proof fn law_slots_are_disjoint(&self, first: u64, second: u64)
        requires
            first < second,
        ensures
            self.slot(first) + SLOT_SIZE <= self.slot(second),
            second < 1024 <==> self.slot(second) + SLOT_SIZE <= self.read.address_virt
                + BUFFER_SIZE,
    {
    }
}

/// What a process has opened of the device.
#[derive(Clone, Copy, Debug, PartialEq, Eq, Structural)]
pub struct Device {
    /// The buffers by which threads talk to the device.
    pub mcas: Option<Mcas>,
    /// The memory that is operated on.
    pub target: Option<Buffer>,
}

/// What a startup waits for.
#[derive(Clone, Copy, Debug, PartialEq, Eq)]
pub enum StartStep {
    /// A part of the device to be opened.
    Open {
        /// The part.
        part: Part,
    },
    /// Nothing.
    Finished {
        /// The memory for the store that is being made, or why there is none.
        result: Result<Buffer, Error>,
    },
}

/// The opening of the device for a store.
///
/// The registers are opened first. The buffers by which threads talk to the
/// device are opened once in a process, and the memory that is operated on is
/// opened for each store. The process keeps the first such memory.
#[derive(Clone, Copy, Debug, PartialEq, Eq)]
pub struct Startup {
    /// What the process has opened.
    pub device: Device,
    /// The registers.
    pub csr: Option<Csr>,
    /// The opening of the read buffer, once it has ended well.
    pub read: Option<Opening>,
    /// What the startup waits for.
    pub step: StartStep,
}

impl Startup {
    /// What is opened before the part that the startup waits for is there.
    pub open spec fn wf(&self) -> bool {
        match self.step {
            StartStep::Open { part } => {
                &&& part !is Csr ==> {
                    &&& self.csr matches Some(csr) && csr.address_virt + CSR_SIZE <= u64::MAX
                }
                &&& part is Read || part is Write ==> self.device.mcas is None
                &&& part is Write ==> {
                    &&& self.read matches Some(read) && {
                        &&& read.part() is Read
                        &&& read.step_spec() is Finished
                        &&& read.outcome() is Ok
                    }
                }
                &&& part is Target ==> self.device.mcas is Some
            },
            StartStep::Finished { result } => result is Ok ==> {
                &&& self.device.mcas is Some
                &&& self.device.target is Some
            },
        }
    }

    /// The startup of a process that has opened some of the device, or nothing.
    pub fn new(device: Device) -> (startup: Self)
        ensures
            startup == (Startup {
                device,
                csr: None,
                read: None,
                step: StartStep::Open { part: Part::Csr },
            }),
            startup.wf(),
    {
        Startup { device, csr: None, read: None, step: StartStep::Open { part: Part::Csr } }
    }

    /// The opening of the part that the startup waits for.
    pub fn opening(&self) -> (opening: Opening)
        requires
            self.wf(),
            self.step is Open,
        ensures
            opening.wf(),
            opening.step_spec() is Open,
            self.step == (StartStep::Open { part: opening.part() }),
            opening.part() !is Csr ==> (self.csr matches Some(csr) && opening.csr()
                == csr.address_virt),
    {
        match (self.step, self.csr) {
            (StartStep::Open { part: Part::Read }, Some(csr)) => Buffer::read(&csr),
            (StartStep::Open { part: Part::Write }, Some(csr)) => Buffer::write(&csr),
            (StartStep::Open { part: Part::Target }, Some(csr)) => Buffer::target(&csr),
            _ => Csr::open(),
        }
    }

    /// The startup once a part has been opened, or could not be. A failure ends
    /// it.
    pub open spec fn after(self, opening: Opening) -> Startup {
        match (opening.part(), opening.outcome()) {
            (_, Err(error)) => Startup {
                step: StartStep::Finished { result: Err(error) },
                ..self
            },
            (Part::Csr, Ok(address_virt)) => Startup {
                csr: Some(Csr { address_virt }),
                step: StartStep::Open {
                    part: if self.device.mcas is None {
                        Part::Read
                    } else {
                        Part::Target
                    },
                },
                ..self
            },
            (Part::Read, Ok(_)) => Startup {
                read: Some(opening),
                step: StartStep::Open { part: Part::Write },
                ..self
            },
            (Part::Write, Ok(_)) => Startup {
                device: Device {
                    mcas: Some(Mcas::of(self.read->0, opening)->Ok_0),
                    ..self.device
                },
                step: StartStep::Open { part: Part::Target },
                ..self
            },
            (Part::Target, Ok(address_virt)) => {
                let target = Buffer { address_phys: opening.address_phys(), address_virt };
                Startup {
                    device: Device {
                        target: match self.device.target {
                            Some(first) => Some(first),
                            None => Some(target),
                        },
                        ..self.device
                    },
                    step: StartStep::Finished { result: Ok(target) },
                    ..self
                }
            },
        }
    }

    /// Takes the opening that the startup waited for, once it has ended.
    pub fn ended(&mut self, opening: Opening)
        requires
            old(self).wf(),
            old(self).step == (StartStep::Open { part: opening.part() }),
            opening.step_spec() is Finished,
            opening.part() is Csr ==> (opening.outcome() matches Ok(address) ==> address + CSR_SIZE
                <= u64::MAX),
        ensures
            final(self).wf(),
            *final(self) == old(self).after(opening),
            match opening.outcome() {
                Err(error) => {
                    &&& final(self).step == (StartStep::Finished { result: Err(error) })
                    &&& final(self).device == old(self).device
                },
                Ok(address_virt) => opening.part() is Target ==> (
                final(self).step matches StartStep::Finished { result: Ok(target) } && {
                    &&& target.address_phys == opening.address_phys()
                    &&& target.address_virt == address_virt
                }),
            },
    {
        match opening.part {
            Part::Csr => match Csr::new(&opening) {
                Err(error) => self.fail(error),
                Ok(csr) => {
                    self.csr = Some(csr);
                    let part: Part = if self.device.mcas.is_none() {
                        Part::Read
                    } else {
                        Part::Target
                    };
                    self.step = StartStep::Open { part };
                },
            },
            Part::Read => match Buffer::map(&opening) {
                Err(error) => self.fail(error),
                Ok(_) => {
                    self.read = Some(opening);
                    self.step = StartStep::Open { part: Part::Write };
                },
            },
            Part::Write => match self.read {
                None => vstd::pervasive::unreached(),
                Some(read) => match Mcas::new(&read, &opening) {
                    Err(error) => self.fail(error),
                    Ok(mcas) => {
                        self.device.mcas = Some(mcas);
                        self.step = StartStep::Open { part: Part::Target };
                    },
                },
            },
            Part::Target => match Buffer::map(&opening) {
                Err(error) => self.fail(error),
                Ok(target) => {
                    if self.device.target.is_none() {
                        self.device.target = Some(target);
                    }
                    self.step = StartStep::Finished { result: Ok(target) };
                },
            },
        }
    }

    fn fail(&mut self, error: Error)
        ensures
            *final(self) == (Startup {
                step: StartStep::Finished { result: Err(error) },
                ..*old(self)
            }),
    {
        self.step = StartStep::Finished { result: Err(error) };
    }

    /// What a process has opened once, it keeps. Buffers are opened only if it
    /// has none.
    pub proof fn law_device_is_kept(self, opening: Opening)
        requires
            self.wf(),
            self.step == (StartStep::Open { part: opening.part() }),
        ensures
            self.device.mcas is Some ==> {
                &&& self.after(opening).device.mcas == self.device.mcas
                &&& opening.part() is Csr || opening.part() is Target
            },
            self.device.target is Some ==> self.after(opening).device.target == self.device.target,
    {
    }

    /// A startup holds what the device and the operating system have replied. For
    /// a process that has opened nothing: the buffers have the physical addresses
    /// that were read from their files, and lie where these were mapped, and so
    /// does the memory for the store, which the process keeps. For a process that
    /// has opened the device before, the store gets the memory that was opened for
    /// it, and the process keeps what it had.
    pub proof fn law_startup_is_as_replied(
        first: Device,
        second: Device,
        openings: (Opening, Opening, Opening, Opening),
        csr: u64,
        read: Buffer,
        write: Buffer,
        target: Buffer,
    )
        requires
            openings.0.part() is Csr && openings.0.step_spec() is Open && openings.0.wf(),
            openings.1.part() is Read && openings.1.step_spec() is Open && openings.1.wf(),
            openings.2.part() is Write && openings.2.step_spec() is Open && openings.2.wf(),
            openings.3.part() is Target && openings.3.step_spec() is Open && openings.3.wf(),
            first.mcas is None && first.target is None,
            second.mcas is Some && second.target is Some,
        ensures
            ({
                let csr = openings.0.carried_out(Ok(()), 0, Ok(csr));
                let reading = openings.1.carried_out(
                    Ok(()),
                    read.address_phys,
                    Ok(read.address_virt),
                );
                let writing = openings.2.carried_out(
                    Ok(()),
                    write.address_phys,
                    Ok(write.address_virt),
                );
                let targeting = openings.3.carried_out(
                    Ok(()),
                    target.address_phys,
                    Ok(target.address_virt),
                );
                let step = StartStep::Open { part: Part::Csr };
                let one = Startup { device: first, csr: None, read: None, step }.after(csr).after(
                    reading,
                ).after(writing).after(targeting);
                let two = Startup { device: second, csr: None, read: None, step }.after(csr).after(
                    targeting,
                );
                &&& one.step == (StartStep::Finished { result: Ok(target) })
                &&& one.device.target == Some(target)
                &&& one.device.mcas == Some(Mcas { read, write })
                &&& two.step == (StartStep::Finished { result: Ok(target) })
                &&& two.device == second
            }),
    {
        openings.0.law_registers_are_as_replied(Ok(()), 0, Ok(csr));
        openings.1.law_buffer_is_as_replied(Ok(()), read.address_phys, Ok(read.address_virt));
        openings.2.law_buffer_is_as_replied(Ok(()), write.address_phys, Ok(write.address_virt));
        openings.3.law_buffer_is_as_replied(Ok(()), target.address_phys, Ok(target.address_virt));
    }

    /// A startup whose part could not be opened ends with the error of that part
    /// and leaves the process with what it had, and with the buffers if they were
    /// opened before.
    pub proof fn law_failure_ends_a_startup(self, opening: Opening)
        requires
            opening.outcome() is Err,
        ensures
            self.after(opening).step == (StartStep::Finished {
                result: Err::<Buffer, Error>(opening.outcome()->Err_0),
            }),
            self.after(opening).device == self.device,
    {
    }

    /// What a startup comes to if every part can be opened. A process that has
    /// opened nothing opens the registers, the read buffer, the write buffer and
    /// the target, in this order. One that has buffers opens the registers and
    /// the target.
    pub proof fn law_order(
        device: Device,
        csr: Opening,
        read: Opening,
        write: Opening,
        target: Opening,
    )
        requires
            csr.part() is Csr && csr.outcome() is Ok,
            read.part() is Read && read.outcome() is Ok,
            write.part() is Write && write.outcome() is Ok,
            target.part() is Target && target.outcome() is Ok,
        ensures
            ({
                let start = Startup {
                    device,
                    csr: None,
                    read: None,
                    step: StartStep::Open { part: Part::Csr },
                };
                let first = start.after(csr);
                let second = first.after(read);
                let third = second.after(write);
                let last = if device.mcas is None {
                    third.after(target)
                } else {
                    first.after(target)
                };
                &&& device.mcas is None ==> {
                    &&& first.step == (StartStep::Open { part: Part::Read })
                    &&& second.step == (StartStep::Open { part: Part::Write })
                    &&& third.step == (StartStep::Open { part: Part::Target })
                    &&& last.device.mcas == Some(Mcas::of(read, write)->Ok_0)
                }
                &&& device.mcas is Some ==> {
                    &&& first.step == (StartStep::Open { part: Part::Target })
                    &&& last.device.mcas == device.mcas
                }
                &&& last.step == (StartStep::Finished { result: Buffer::of(target) })
                &&& device.target is None ==> last.device.target == Some(Buffer::of(target)->Ok_0)
                &&& device.target is Some ==> last.device.target == device.target
            }),
    {
    }
}

/// A compare-and-exchange for the device to perform.
///
/// The words are written in one piece. Then the read buffer is flushed, and
/// after a fence the two words of the outcome are read.
#[derive(Clone, Copy, Debug, PartialEq, Eq)]
pub struct Command {
    /// Where the words are written.
    pub destination: u64,
    /// What is written.
    pub words: [u64; 8],
    /// The address to flush.
    pub flush: u64,
    /// Where the outcome is read from.
    pub source: u64,
}

/// The command by which thread `id` replaces the word `old` at an address of the
/// target by `new`.
pub fn mcas(
    device: &Mcas,
    target: &Buffer,
    id: u64,
    address: u64,
    old: u64,
    new: u64,
) -> (command: Command)
    requires
        address >= target.address_virt,
        target.translate_spec(address) <= u64::MAX,
        2 * id <= u64::MAX,
        device.slot(id) <= u64::MAX,
    ensures
        command.destination == device.write.address_virt,
        command.words@ == seq![
            old,
            new,
            target.translate_spec(address) as u64,
            (2 * id) as u64,
            0,
            0,
            0,
            0,
        ],
        command.flush == device.read.address_virt,
        command.source == device.slot(id),
{
    let phys: u64 = target.translate(address);
    let words: [u64; 8] = [old, new, phys, id * 2, 0, 0, 0, 0];
    assert(words@ =~= seq![old, new, phys, (2 * id) as u64, 0, 0, 0, 0]);
    Command {
        destination: device.write.address_virt,
        words,
        flush: device.read.address_virt,
        source: device.read.address_virt + id * 64,
    }
}

/// What the outcome of a command says. The first word is the word that was
/// found; the second is zero if it was not replaced.
pub fn mcas_result(outcome: [u64; 2]) -> (result: Result<u64, u64>)
    ensures
        result == (if outcome@[1] == 0 {
            Err::<u64, u64>(outcome@[0])
        } else {
            Ok(outcome@[0])
        }),
{
    match outcome[1] {
        0 => Err(outcome[0]),
        _ => Ok(outcome[0]),
    }
}

} // verus!
