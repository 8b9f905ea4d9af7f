use core::alloc::Layout;

use cxlalloc::error::Error;
use cxlalloc::raw::id::Hex;
use cxlalloc::raw::id::Id;
use cxlalloc::raw::files::Files;
use cxlalloc::raw::layout::can_lay_out;
use cxlalloc::raw::layout::layout;
use cxlalloc::raw::layout::Field;
use cxlalloc::raw::mapping::munmap;
use cxlalloc::raw::mapping::BackStep;
use cxlalloc::raw::mapping::Backed;
use cxlalloc::raw::mapping::Backend;
use cxlalloc::raw::mapping::Backing;
use cxlalloc::raw::mapping::File;
use cxlalloc::raw::mapping::MapCall;
use cxlalloc::raw::mapping::MapStep;
use cxlalloc::raw::mapping::Mapping;
use cxlalloc::raw::mapping::Populate;
use cxlalloc::raw::mapping::Protection;
use cxlalloc::raw::mapping::Source;
use cxlalloc::raw::mapping::UnmapCall;
use cxlalloc::raw::region::Fixed;
use cxlalloc::raw::region::Random;
use cxlalloc::raw::region::Region;
use cxlalloc::raw::region::Removal;
use cxlalloc::raw::region::Reservation;
use cxlalloc::raw::region::Sequential;
use cxlalloc::raw::region::SIZE_RESERVATION;
use cxlalloc::round::next_multiple_of;

const PLAIN: Backend = Backend { numa: false, populate: None };

const FILE: File = File { flags: 1, fd: 3, offset: 0, clean: true };

fn finish(backing: &mut Backing, file: File, address: u64) {
    backing.allocated(Ok(file));
    backing.resume(Ok(address));
}

fn allocation(backing: &Backing) -> (String, u64) {
    match backing.step() {
        BackStep::Allocate { id, size } => (id.as_str().to_string(), *size),
        other => panic!("unexpected step {:?}", other),
    }
}

fn call(backing: &Backing) -> MapCall {
    match backing.step() {
        BackStep::Mmap { mapping, .. } => match mapping.step() {
            MapStep::Mmap { call } => call,
            other => panic!("unexpected step {:?}", other),
        },
        other => panic!("unexpected step {:?}", other),
    }
}

#[test]
fn names_keep_their_characters() {
    let id: Id = Id::new("heap");
    assert_eq!(id.as_str(), "heap");
    assert_eq!(Id::new("").as_str(), "");
    let full: Id = Id::new("0123456789abcdef0123456789abcdef");
    assert_eq!(full.as_str().len(), 32);
}

#[test]
fn suffixes_follow_a_dash() {
    let id: Id = Id::new("heap");
    assert_eq!(id.with_suffix("owned").as_str(), "heap-owned");
    assert_eq!(id.with_suffix("ls").with_suffix(0u64).as_str(), "heap-ls-0");
    assert_eq!(id.with_suffix(u64::MAX).as_str(), "heap-18446744073709551615");
    assert_eq!(id.with_suffix(Hex(0)).as_str(), "heap-0x0");
    assert_eq!(id.with_suffix(Hex(0xdead_beef)).as_str(), "heap-0xdeadbeef");
    assert_eq!(id.as_str(), "heap");
}

#[test]
fn a_suffix_may_fill_a_name_up() {
    let id: Id = Id::new("0123456789abcdef0123456789");
    assert_eq!(id.with_suffix("owned").as_str().len(), 32);
    let wide: Id = Id::new("\u{e9}\u{20ac}");
    assert_eq!(wide.with_suffix("\u{1f980}").as_str(), "\u{e9}\u{20ac}-\u{1f980}");
}

#[test]
fn numbers_are_written_like_the_standard_library_does() {
    for number in [0u64, 1, 9, 10, 99, 100, 12345, u64::MAX] {
        assert_eq!(cxlalloc::text::format(number, 10), format!("{}", number));
        assert_eq!(cxlalloc::text::format(number, 16), format!("{:x}", number));
    }
    assert_eq!(cxlalloc::text::format(5, 2), "101");
}

#[test]
fn rounding_up_leads_to_the_next_multiple() {
    assert_eq!(next_multiple_of(0, 4096), 0);
    assert_eq!(next_multiple_of(1, 4096), 4096);
    assert_eq!(next_multiple_of(4096, 4096), 4096);
    assert_eq!(next_multiple_of(4097, 4096), 8192);
    assert_eq!(next_multiple_of(u64::MAX, 5), u64::MAX);
}

#[test]
fn a_reservation_is_inaccessible_and_anonymous() {
    assert_eq!(
        Reservation::mmap(SIZE_RESERVATION),
        MapCall {
            address: None,
            size: 1 << 40,
            protection: Protection::Inaccessible,
            source: Source::Anonymous,
            populate: false,
        }
    );
    assert_eq!(Reservation::new(Err(12)), Err(Error::Mmap(12)));
    let reservation: Reservation = Reservation::new(Ok(0x1000)).unwrap();
    assert_eq!(reservation.start(), 0x1000);
    assert_eq!(reservation.end(), 0x1000 + (1 << 40));
    assert_eq!(reservation.munmap(), UnmapCall { address: 0x1000, size: 1 << 40 });
}

#[test]
fn contiguous_reservations_touch() {
    assert_eq!(Reservation::contiguous_size::<3>(), 3 << 40);
    let reservations: Vec<Reservation> = Reservation::new_contiguous::<3>(Ok(0x1000)).unwrap();
    assert_eq!(reservations.len(), 3);
    assert_eq!(reservations[0].start(), 0x1000);
    assert_eq!(reservations[0].end(), reservations[1].start());
    assert_eq!(reservations[1].end(), reservations[2].start());
    assert_eq!(Reservation::new_contiguous::<3>(Err(1)), Err(Error::Mmap(1)));
}

#[test]
fn unmapping_fails_with_its_own_error() {
    assert_eq!(munmap(0, 5), Ok(()));
    assert_eq!(munmap(-1, 22), Err(Error::Munmap(22)));
    assert_eq!(munmap(1, 22), Err(Error::Munmap(22)));
}

#[test]
fn a_file_is_mapped_with_its_flags() {
    let file: File = File { flags: 17, fd: 9, offset: 4096, clean: false };
    let mapping: Mapping = Mapping::new(Some(0x8000), 4096, PLAIN, file);
    assert_eq!(
        mapping.step(),
        MapStep::Mmap {
            call: MapCall {
                address: Some(0x8000),
                size: 4096,
                protection: Protection::ReadWrite,
                source: Source::File { flags: 17, fd: 9, offset: 4096 },
                populate: false,
            }
        }
    );
}

#[test]
fn a_plain_mapping_ends_with_its_address() {
    let mut mapping: Mapping = Mapping::new(None, 4096, PLAIN, FILE);
    mapping.resume(Ok(0x8000));
    assert_eq!(mapping.step(), MapStep::Finished { result: Ok(0x8000) });
    let mut mapping: Mapping = Mapping::new(None, 4096, PLAIN, FILE);
    mapping.resume(Err(12));
    assert_eq!(mapping.step(), MapStep::Finished { result: Err(Error::Mmap(12)) });
}

#[test]
fn a_mapping_is_bound_and_then_populated() {
    let backend: Backend = Backend { numa: true, populate: Some(Populate::Physical) };
    let mut mapping: Mapping = Mapping::new(None, 4096, backend, FILE);
    mapping.resume(Ok(0x8000));
    assert_eq!(mapping.step(), MapStep::Bind { address: 0x8000, size: 4096 });
    let mut unbound: Mapping = mapping;
    unbound.resume(Err(1));
    assert_eq!(unbound.step(), MapStep::Finished { result: Err(Error::Mbind(1)) });
    mapping.resume(Ok(0));
    assert_eq!(mapping.step(), MapStep::Advise { address: 0x8000, size: 4096 });
    let mut unpopulated: Mapping = mapping;
    unpopulated.resume(Err(2));
    assert_eq!(unpopulated.step(), MapStep::Finished { result: Err(Error::Madvise(2)) });
    mapping.resume(Ok(0));
    assert_eq!(mapping.step(), MapStep::Finished { result: Ok(0x8000) });
}

#[test]
fn page_tables_are_populated_as_the_mapping_is_made() {
    let backend: Backend = Backend { numa: false, populate: Some(Populate::PageTable) };
    let mut mapping: Mapping = Mapping::new(None, 4096, backend, FILE);
    assert!(matches!(mapping.step(), MapStep::Mmap { call } if call.populate));
    mapping.resume(Ok(0x8000));
    assert_eq!(mapping.step(), MapStep::Finished { result: Ok(0x8000) });
}

#[test]
fn a_fixed_region_is_rounded_up_to_pages() {
    let mut backing: Backing = Fixed::plan(PLAIN, Id::new("heap-owned"), 5000);
    assert_eq!(allocation(&backing), ("heap-owned".to_string(), 8192));
    backing.allocated(Ok(FILE));
    assert_eq!(call(&backing).address, None);
    backing.resume(Ok(0x8000));
    let region: Fixed = Fixed::new(&backing).unwrap();
    assert_eq!(region.address(), 0x8000);
    assert_eq!(region.id(), "heap-owned");
    assert!(region.is_clean());
    assert_eq!(region.unmap(), UnmapCall { address: 0x8000, size: 8192 });
}

#[test]
fn a_backend_that_cannot_allocate_fails_the_region() {
    let mut backing: Backing = Fixed::plan(PLAIN, Id::new("heap-owned"), 1);
    backing.allocated(Err(Error::Io(28)));
    assert_eq!(Fixed::new(&backing).err(), Some(Error::Io(28)));
    assert_eq!(backing.done(), Err(Error::Io(28)));
}

#[test]
fn a_sequential_region_backs_its_first_extent() {
    let reservation: Reservation = Reservation { address: 0x10_0000 };
    let id: Id = Id::new("heap-ds");
    let mut backing: Backing = Sequential::plan(PLAIN, id, reservation, 4097, false).unwrap();
    assert_eq!(allocation(&backing), ("heap-ds-0".to_string(), 8192));
    backing.allocated(Ok(FILE));
    assert_eq!(call(&backing).address, Some(0x10_0000));
    backing.resume(Ok(0x10_0000));
    assert_eq!(backing.result(), Ok(Backed { address: 0x10_0000, clean: true }));
    let region: Sequential = Sequential::new(id, reservation, 4097, Some(backing)).unwrap();
    assert!(region.is_clean());
    assert_eq!(region.size, 8192);
    assert_eq!(region.id(), "heap-ds");
    assert_eq!(region.address(), 0x10_0000);
    assert_eq!(region.unmap(), UnmapCall { address: 0x10_0000, size: SIZE_RESERVATION });
    let first: Backing = region.map(PLAIN, 0);
    assert_eq!(allocation(&first), ("heap-ds-0".to_string(), 8192));
}

#[test]
fn a_lazy_region_is_never_clean() {
    let reservation: Reservation = Reservation { address: 0x10_0000 };
    let id: Id = Id::new("heap-ds");
    assert!(Sequential::plan(PLAIN, id, reservation, 4096, true).is_none());
    let region: Sequential = Sequential::new(id, reservation, 4096, None).unwrap();
    assert!(!region.is_clean());
    let mut backing: Backing = Sequential::plan(PLAIN, id, reservation, 4096, false).unwrap();
    finish(&mut backing, File { clean: false, ..FILE }, 0x10_0000);
    let region: Sequential = Sequential::new(id, reservation, 4096, Some(backing)).unwrap();
    assert!(!region.is_clean());
}

#[test]
fn extents_follow_each_other() {
    let reservation: Reservation = Reservation { address: 0x10_0000 };
    let region: Sequential =
        Sequential::new(Id::new("heap-ds"), reservation, 8192, None).unwrap();
    let mut backing: Backing = region.map(PLAIN, 8191);
    assert_eq!(allocation(&backing), ("heap-ds-0".to_string(), 8192));
    backing.allocated(Ok(FILE));
    assert_eq!(call(&backing).address, Some(0x10_0000));
    let mut backing: Backing = region.map(PLAIN, 8192 * 11 + 5);
    assert_eq!(allocation(&backing), ("heap-ds-11".to_string(), 8192));
    backing.allocated(Ok(FILE));
    assert_eq!(call(&backing).address, Some(0x10_0000 + 8192 * 11));
    backing.resume(Ok(0x10_0000 + 8192 * 11));
    assert_eq!(backing.done(), Ok(()));
}

#[test]
fn the_last_extents_have_names_that_fit() {
    let reservation: Reservation = Reservation { address: 0x10_0000 };
    let id: Id = Id::new("0123456789abcdef").with_suffix("ds");
    let region: Sequential = Sequential::new(id, reservation, 4096, None).unwrap();
    let backing: Backing = region.map(PLAIN, SIZE_RESERVATION - 1);
    assert_eq!(allocation(&backing).0, "0123456789abcdef-ds-268435455");
    let huge: Random = Random::new(Id::new("0123456789abcdef").with_suffix("dh"), reservation);
    let backing: Backing = huge.map(PLAIN, SIZE_RESERVATION - 1, 1);
    assert_eq!(allocation(&backing).0, "0123456789abcdef-dh-0xffffffffff");
}

#[test]
fn random_regions_name_files_by_offset() {
    let region: Random =
        Random::new(Id::new("heap-dh"), Reservation { address: 0x10_0000 });
    let mut backing: Backing = region.map(PLAIN, 0x2000, 4096);
    assert_eq!(allocation(&backing), ("heap-dh-0x2000".to_string(), 4096));
    backing.allocated(Ok(FILE));
    assert_eq!(call(&backing).address, Some(0x10_2000));
    let removal: Removal = region.unmap(0x2000, 4096);
    assert_eq!(removal.call, UnmapCall { address: 0x10_2000, size: 4096 });
    assert_eq!(removal.id.as_str(), "heap-dh-0x2000");
    assert!(!region.is_clean());
    assert_eq!(region.address(), 0x10_0000);
    assert_eq!(region.id(), "heap-dh");
    assert_eq!(
        Region::unmap(&region),
        UnmapCall { address: 0x10_0000, size: SIZE_RESERVATION }
    );
}

#[test]
fn memory_at_other_offsets_does_not_overlap() {
    let region: Random =
        Random::new(Id::new("heap-dh"), Reservation { address: 0x10_0000 });
    let first: UnmapCall = region.unmap(0, 0x3000).call;
    let second: UnmapCall = region.unmap(0x3000, SIZE_RESERVATION - 0x3000).call;
    assert_eq!(first.address + first.size, second.address);
    assert!(region.contains(first.address));
    assert!(region.contains(second.address + second.size - 1));
    assert!(!region.contains(second.address + second.size));
}

#[test]
fn random_regions_contain_their_reservation() {
    let region: Random =
        Random::new(Id::new("heap-dh"), Reservation { address: 0x10_0000 });
    assert!(!region.contains(0xf_ffff));
    assert!(region.contains(0x10_0000));
    assert!(region.contains(0x10_0000 + SIZE_RESERVATION - 1));
    assert!(!region.contains(0x10_0000 + SIZE_RESERVATION));
}

#[test]
fn fields_are_aligned_and_padded() {
    let fields: Vec<Field> = vec![
        Field { size: 8, align: 8 },
        Field { size: 3, align: 1 },
        Field { size: 4, align: 4 },
        Field { size: 64, align: 64 },
    ];
    assert_eq!(layout(&fields), (128, vec![0, 8, 12, 64]));
    assert_eq!(layout(&vec![Field { size: 5, align: 4 }]), (8, vec![0]));
}

#[test]
fn fields_are_laid_out_like_the_standard_library_does() {
    let sizes: [(u64, u64); 5] = [(3, 1), (8, 8), (0, 16), (24, 4), (130, 64)];
    for first in sizes {
        for second in sizes {
            for third in sizes {
                let fields: Vec<Field> = [first, second, third]
                    .iter()
                    .map(|(size, align)| Field { size: *size, align: *align })
                    .collect();
                if first.0 + second.0 + third.0 == 0 {
                    continue;
                }
                let mut layout: Layout =
                    Layout::from_size_align(first.0 as usize, first.1 as usize).unwrap();
                let mut offsets: Vec<u64> = vec![0];
                for field in [second, third] {
                    let field: Layout =
                        Layout::from_size_align(field.0 as usize, field.1 as usize).unwrap();
                    let (next, offset): (Layout, usize) = layout.extend(field).unwrap();
                    layout = next;
                    offsets.push(offset as u64);
                }
                let total: u64 = layout.pad_to_align().size() as u64;
                assert_eq!(cxlalloc::raw::layout::layout(&fields), (total, offsets));
            }
        }
    }
}

#[test]
fn fields_that_are_too_large_cannot_be_laid_out() {
    assert!(can_lay_out(&vec![Field { size: 8, align: 8 }, Field { size: 0, align: 1 }]));
    assert!(!can_lay_out(&Vec::new()));
    assert!(!can_lay_out(&vec![Field { size: 0, align: 1 }]));
    assert!(!can_lay_out(&vec![Field { size: 8, align: 0 }]));
    let most: u64 = i64::MAX as u64;
    assert!(can_lay_out(&vec![Field { size: most, align: 1 }]));
    assert!(!can_lay_out(&vec![Field { size: most, align: 2 }]));
    assert!(!can_lay_out(&vec![Field { size: most, align: 1 }, Field { size: 1, align: 1 }]));
    assert!(!can_lay_out(&vec![Field { size: u64::MAX, align: u64::MAX }]));
}

#[test]
fn numbers_are_recognized() {
    for number in ["0", "7", "10", "268435455"] {
        assert!(cxlalloc::text::is_number_from(number, 0, 10));
    }
    for other in ["", "00", "01", "a", "1a", "-1", "+1", " 1", "1-2"] {
        assert!(!cxlalloc::text::is_number_from(other, 0, 10));
    }
    assert!(cxlalloc::text::is_number_from("0xdeadbeef", 2, 16));
    assert!(!cxlalloc::text::is_number_from("0xDEAD", 2, 16));
    assert!(!cxlalloc::text::is_number_from("0xg", 2, 16));
    assert!(!cxlalloc::text::is_number_from("12", 0, 2));
    assert!(cxlalloc::text::starts_with("heap", ""));
    assert!(cxlalloc::text::starts_with("heap", "he"));
    assert!(!cxlalloc::text::starts_with("he", "heap"));
    assert!(!cxlalloc::text::starts_with("heap", "hi"));
}

#[test]
fn files_are_told_apart_by_their_names() {
    let one: Files = Files::One(Id::new("heap-owned"));
    assert!(one.contains("heap-owned"));
    assert!(!one.contains("heap-owned-0"));
    assert!(!one.contains("heap-owne"));
    let extents: Files = Files::Extents(Id::new("heap-ds"));
    assert!(extents.contains("heap-ds-0"));
    assert!(extents.contains("heap-ds-41"));
    for other in ["heap-ds", "heap-ds-", "heap-ds-01", "heap-ds-owned", "heap-ds-ls-0", "heap-dl-0"] {
        assert!(!extents.contains(other));
    }
    let offsets: Files = Files::Offsets(Id::new("heap-dh"));
    assert!(offsets.contains("heap-dh-0x0"));
    assert!(offsets.contains("heap-dh-0xffffffffff"));
    for other in ["heap-dh", "heap-dh-0x", "heap-dh-0", "heap-dh-0x00", "heap-dh-1x0", "heap-dh-0"] {
        assert!(!offsets.contains(other));
    }
}
