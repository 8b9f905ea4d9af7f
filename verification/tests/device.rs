use cxlalloc::error::Error;
use cxlalloc::raw::device::mcas_result;
use cxlalloc::raw::device::Command;
use cxlalloc::raw::device::Device;
use cxlalloc::raw::device::OpenStep;
use cxlalloc::raw::device::Opening;
use cxlalloc::raw::device::Part;
use cxlalloc::raw::device::RegisterWrite;
use cxlalloc::raw::device::StartStep;
use cxlalloc::raw::device::Startup;
use cxlalloc::raw::device::BUFFER_SIZE;
use cxlalloc::raw::device::CSR_SIZE;
use cxlalloc::raw::device::PAGE_SIZE;
use cxlalloc::raw::mcas;
use cxlalloc::raw::Buffer;
use cxlalloc::raw::Csr;
use cxlalloc::raw::Mcas;

#[test]
fn parts_have_their_files_and_sizes() {
    assert_eq!(Part::Csr.path(), "/sys/devices/pci0000:27/0000:27:00.1/resource2");
    assert_eq!(Part::Read.path(), "/proc/mcas_rd_buff");
    assert_eq!(Part::Write.path(), "/proc/mcas_wr_buff");
    assert_eq!(Part::Target.path(), "/proc/mcas_target_buff");
    assert!(Part::Csr.sync());
    assert!(!Part::Read.sync());
    assert_eq!(Part::Csr.size(), 1 << 21);
    assert_eq!(Part::Target.size(), PAGE_SIZE * 16);
    assert_eq!(BUFFER_SIZE, 65536);
}

#[test]
fn registers_are_mapped_without_reading_an_address() {
    let mut opening: Opening = Csr::open();
    assert_eq!(opening.device_part(), Part::Csr);
    assert_eq!(opening.step(), OpenStep::Open);
    opening.opened(Ok(()));
    assert_eq!(opening.step(), OpenStep::Mmap { size: CSR_SIZE });
    opening.mapped(Ok(0x7000));
    assert_eq!(opening.step(), OpenStep::Finished { result: Ok(0x7000) });
    assert_eq!(Csr::new(&opening), Ok(Csr { address_virt: 0x7000 }));
}

#[test]
fn registers_have_eight_bytes_each() {
    let csr: Csr = Csr { address_virt: 0x7000 };
    assert_eq!(csr.set(13, 99), RegisterWrite { address: 0x7068, value: 99 });
    assert_eq!(csr.set(0, 1), RegisterWrite { address: 0x7000, value: 1 });
}

#[test]
fn the_read_buffer_is_announced_in_its_register() {
    let csr: Csr = Csr { address_virt: 0x7000 };
    let mut opening: Opening = Buffer::read(&csr);
    opening.opened(Ok(()));
    assert_eq!(opening.step(), OpenStep::ReadAddress);
    opening.address_read(0xabc000);
    let write: RegisterWrite = RegisterWrite { address: 0x7000 + 8 * 13, value: 0xabc000 };
    assert_eq!(opening.step(), OpenStep::SetRegister { write });
    opening.register_set();
    assert_eq!(opening.step(), OpenStep::Mmap { size: BUFFER_SIZE });
    opening.mapped(Ok(0x9000));
    let buffer: Buffer = Buffer { address_phys: 0xabc000, address_virt: 0x9000 };
    assert_eq!(Buffer::map(&opening), Ok(buffer));
}

#[test]
fn the_write_buffer_has_the_register_after_it() {
    let csr: Csr = Csr { address_virt: 0x7000 };
    let mut opening: Opening = Buffer::write(&csr);
    opening.opened(Ok(()));
    opening.address_read(5);
    let write: RegisterWrite = RegisterWrite { address: 0x7000 + 8 * 14, value: 5 };
    assert_eq!(opening.step(), OpenStep::SetRegister { write });
}

#[test]
fn the_target_has_no_register_and_is_cleared() {
    let csr: Csr = Csr { address_virt: 0x7000 };
    let mut opening: Opening = Buffer::target(&csr);
    opening.opened(Ok(()));
    opening.address_read(0x1000);
    assert_eq!(opening.step(), OpenStep::Mmap { size: BUFFER_SIZE });
    opening.mapped(Ok(0x5000));
    assert_eq!(opening.step(), OpenStep::Clear { address: 0x5000, size: BUFFER_SIZE });
    opening.cleared();
    let buffer: Buffer = Buffer { address_phys: 0x1000, address_virt: 0x5000 };
    assert_eq!(Buffer::map(&opening), Ok(buffer));
}

#[test]
fn device_failures_are_passed_on() {
    let mut opening: Opening = Csr::open();
    opening.opened(Err(2));
    assert_eq!(Csr::new(&opening), Err(Error::Io(2)));
    let mut opening: Opening = Csr::open();
    opening.opened(Ok(()));
    opening.mapped(Err(12));
    assert_eq!(Csr::new(&opening), Err(Error::Io(12)));
    let mut opening: Opening = Buffer::target(&Csr { address_virt: 0x7000 });
    opening.opened(Ok(()));
    opening.address_read(0x1000);
    opening.mapped(Err(22));
    assert_eq!(Buffer::map(&opening), Err(Error::Io(22)));
}

#[test]
fn physical_addresses_are_read_in_the_order_of_the_machine() {
    let number: u64 = 0x0102_0304_0506_0708;
    assert_eq!(Buffer::physical_address(number.to_ne_bytes()), number);
    assert_eq!(Buffer::physical_address([0; 8]), 0);
}

#[test]
fn the_bytes_of_the_file_reach_the_register() {
    let csr: Csr = Csr { address_virt: 0x7000 };
    let number: u64 = 0x0102_0304_0506_0708;
    let mut opening: Opening = Buffer::write(&csr);
    opening.opened(Ok(()));
    opening.bytes_read(number.to_ne_bytes());
    let write: RegisterWrite = RegisterWrite { address: 0x7000 + 8 * 14, value: number };
    assert_eq!(opening.step(), OpenStep::SetRegister { write });
    opening.register_set();
    opening.mapped(Ok(0x9000));
    let buffer: Buffer = Buffer { address_phys: number, address_virt: 0x9000 };
    assert_eq!(Buffer::map(&opening), Ok(buffer));
    let mut opening: Opening = Buffer::target(&csr);
    opening.opened(Ok(()));
    opening.bytes_read(number.to_ne_bytes());
    assert_eq!(opening.step(), OpenStep::Mmap { size: BUFFER_SIZE });
}

#[test]
fn translation_keeps_distances() {
    let buffer: Buffer = Buffer { address_phys: 0x1000, address_virt: 0x5000 };
    assert_eq!(buffer.translate(0x5000), 0x1000);
    assert_eq!(buffer.translate(0x5018), 0x1018);
    let low: Buffer = Buffer { address_phys: 0x9000, address_virt: 0x10 };
    assert_eq!(low.translate(0x18) - low.translate(0x10), 8);
}

/// Carries an opening out. The error, if there is one, comes from the mapping.
fn carry_out(opening: &mut Opening, address_phys: u64, reply: Result<u64, i32>) {
    loop {
        match opening.step() {
            OpenStep::Open => opening.opened(Ok(())),
            OpenStep::ReadAddress => opening.address_read(address_phys),
            OpenStep::SetRegister { .. } => opening.register_set(),
            OpenStep::Mmap { .. } => opening.mapped(reply),
            OpenStep::Clear { .. } => opening.cleared(),
            OpenStep::Finished { .. } => break,
        }
    }
}

/// Carries a startup out. Returns the parts that were opened, in their order.
fn start(startup: &mut Startup, base: u64, fail_at: Option<Part>) -> Vec<Part> {
    let mut parts: Vec<Part> = Vec::new();
    while let StartStep::Open { part } = startup.step {
        parts.push(part);
        let mut opening: Opening = startup.opening();
        assert_eq!(opening.device_part(), part);
        let number: u64 = parts.len() as u64;
        let reply: Result<u64, i32> =
            if fail_at == Some(part) { Err(7) } else { Ok(base + 0x100_0000 * number) };
        carry_out(&mut opening, base + number, reply);
        startup.ended(opening);
    }
    parts
}

#[test]
fn the_error_of_the_read_buffer_comes_first() {
    let csr: Csr = Csr { address_virt: 0x7000 };
    let mut read: Opening = Buffer::read(&csr);
    let mut write: Opening = Buffer::write(&csr);
    carry_out(&mut read, 1, Ok(0x9000));
    carry_out(&mut write, 2, Ok(0xa000));
    let device: Mcas = Mcas {
        read: Buffer { address_phys: 1, address_virt: 0x9000 },
        write: Buffer { address_phys: 2, address_virt: 0xa000 },
    };
    assert_eq!(Mcas::new(&read, &write), Ok(device));
    let mut bad_read: Opening = Buffer::read(&csr);
    carry_out(&mut bad_read, 1, Err(3));
    let mut bad_write: Opening = Buffer::write(&csr);
    carry_out(&mut bad_write, 2, Err(4));
    assert_eq!(Mcas::new(&bad_read, &bad_write), Err(Error::Io(3)));
    assert_eq!(Mcas::new(&bad_read, &Buffer::write(&csr)), Err(Error::Io(3)));
    assert_eq!(Mcas::new(&read, &bad_write), Err(Error::Io(4)));
}

#[test]
fn a_first_startup_opens_everything_in_order() {
    let mut startup: Startup = Startup::new(Device { mcas: None, target: None });
    let parts: Vec<Part> = start(&mut startup, 0x1000, None);
    assert_eq!(parts, vec![Part::Csr, Part::Read, Part::Write, Part::Target]);
    let target: Buffer = Buffer { address_phys: 0x1004, address_virt: 0x400_1000 };
    assert_eq!(startup.step, StartStep::Finished { result: Ok(target) });
    assert_eq!(startup.device.target, Some(target));
    let device: Mcas = startup.device.mcas.unwrap();
    assert_eq!(device.read, Buffer { address_phys: 0x1002, address_virt: 0x200_1000 });
    assert_eq!(device.write, Buffer { address_phys: 0x1003, address_virt: 0x300_1000 });
}

#[test]
fn a_second_startup_keeps_buffers_and_target() {
    let mut first: Startup = Startup::new(Device { mcas: None, target: None });
    start(&mut first, 0x1000, None);
    let mut second: Startup = Startup::new(first.device);
    let parts: Vec<Part> = start(&mut second, 0x2000, None);
    assert_eq!(parts, vec![Part::Csr, Part::Target]);
    assert_eq!(second.device, first.device);
    let target: Buffer = Buffer { address_phys: 0x2002, address_virt: 0x200_2000 };
    assert_eq!(second.step, StartStep::Finished { result: Ok(target) });
}

#[test]
fn a_part_that_cannot_be_opened_ends_a_startup() {
    let parts: [Part; 4] = [Part::Csr, Part::Read, Part::Write, Part::Target];
    for i in 0..4 {
        let mut startup: Startup = Startup::new(Device { mcas: None, target: None });
        let opened: Vec<Part> = start(&mut startup, 0x1000, Some(parts[i]));
        assert_eq!(opened.len(), i + 1);
        assert_eq!(startup.step, StartStep::Finished { result: Err(Error::Io(7)) });
        assert_eq!(startup.device.mcas.is_some(), i == 3);
        assert_eq!(startup.device.target, None);
    }
}

#[test]
fn a_command_holds_the_exchange_and_the_thread() {
    let read: Buffer = Buffer { address_phys: 1, address_virt: 0x2_0000 };
    let write: Buffer = Buffer { address_phys: 2, address_virt: 0x4_0000 };
    let target: Buffer = Buffer { address_phys: 0x1000, address_virt: 0x5000 };
    let device: Mcas = Mcas { read, write };
    let command: Command = mcas(&device, &target, 3, 0x5008, 40, 41);
    assert_eq!(command.destination, 0x4_0000);
    assert_eq!(command.words, [40, 41, 0x1008, 6, 0, 0, 0, 0]);
    assert_eq!(command.flush, 0x2_0000);
    assert_eq!(command.source, 0x2_00c0);
    let next: Command = mcas(&device, &target, 4, 0x5008, 40, 41);
    assert_eq!(next.source - command.source, 64);
}

#[test]
fn the_second_word_of_an_outcome_tells_success() {
    assert_eq!(mcas_result([7, 0]), Err(7));
    assert_eq!(mcas_result([7, 1]), Ok(7));
    assert_eq!(mcas_result([0, u64::MAX]), Ok(0));
}
