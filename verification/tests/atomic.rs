use core::num::NonZeroU16;

use cxlalloc::atomic::Atomic;
use cxlalloc::atomic::Convert64;
use cxlalloc::atomic::Pack;
use cxlalloc::atomic::Pad;
use cxlalloc::atomic::Version;
use cxlalloc::thread;

#[test]
fn load_gives_back_what_new_and_store_put_there() {
    let mut byte: Atomic<u8> = Atomic::new(200);
    assert_eq!(byte.load(), 200);
    byte.store(255);
    assert_eq!(byte.load(), 255);
    let mut short: Atomic<u16> = Atomic::new(0xbeef);
    assert_eq!(short.load(), 0xbeef);
    short.store(0);
    assert_eq!(short.load(), 0);
    let mut word: Atomic<u32> = Atomic::new(u32::MAX);
    assert_eq!(word.load(), u32::MAX);
    word.store(7);
    assert_eq!(word.load(), 7);
    let mut long: Atomic<u64> = Atomic::new(u64::MAX);
    assert_eq!(long.load(), u64::MAX);
    long.store(1 << 63);
    assert_eq!(long.load(), 1 << 63);
}

#[test]
fn compare_exchange_replaces_only_what_is_expected() {
    let mut atomic: Atomic<u32> = Atomic::new(5);
    assert_eq!(atomic.compare_exchange(4, 9), Err(5));
    assert_eq!(atomic.load(), 5);
    assert_eq!(atomic.compare_exchange(5, 9), Ok(5));
    assert_eq!(atomic.load(), 9);
}

#[test]
fn high_bits_are_compared_but_not_loaded() {
    let mut atomic: Atomic<u8> = Atomic::new_unchecked(0x105);
    assert_eq!(atomic.load(), 5);
    assert_eq!(atomic.compare_exchange(5, 6), Err(5));
    assert_eq!(atomic.fetch_xor(0), 0x105);
    atomic.store(5);
    assert_eq!(atomic.compare_exchange(5, 6), Ok(5));
    assert_eq!(atomic.fetch_xor(0), 6);
}

#[test]
fn fetch_xor_twice_restores_the_word() {
    let mut atomic: Atomic<u64> = Atomic::new(0b1100);
    assert_eq!(atomic.fetch_xor(0b1010), 0b1100);
    assert_eq!(atomic.load(), 0b0110);
    assert_eq!(atomic.fetch_xor(0b1010), 0b0110);
    assert_eq!(atomic.load(), 0b1100);
}

#[test]
fn exchanges_made_elsewhere_are_unpacked() {
    assert_eq!(Atomic::<u16>::exchanged(Ok(0x1_0007)), Ok(7));
    assert_eq!(Atomic::<u16>::exchanged(Err(8)), Err(8));
}

#[test]
fn conversion_from_words_keeps_the_low_bits() {
    assert_eq!(<u8 as Convert64>::from_u64(0x1234_5678_9abc_def0), 0xf0);
    assert_eq!(<u16 as Convert64>::from_u64(0x1234_5678_9abc_def0), 0xdef0);
    assert_eq!(<u32 as Convert64>::from_u64(0x1234_5678_9abc_def0), 0x9abc_def0);
    assert_eq!(<u64 as Convert64>::from_u64(0x1234_5678_9abc_def0), 0x1234_5678_9abc_def0);
    assert_eq!(0xf0u8.into_u64(), 0xf0);
    assert_eq!(0xdef0u16.into_u64(), 0xdef0);
    assert_eq!(0x9abc_def0u32.into_u64(), 0x9abc_def0);
    assert_eq!(u64::MAX.into_u64(), u64::MAX);
}

#[test]
fn distinct_values_have_distinct_words() {
    let mut i: u16 = 0;
    while i < 1000 {
        assert_eq!(Atomic::<u16>::pack(i), i as u64);
        assert_eq!(Atomic::<u16>::unpack(i as u64), i);
        i += 1;
    }
}

#[test]
fn no_thread_is_packed_as_zero() {
    assert_eq!(None::<thread::Id>.pack(), 0);
    assert_eq!(thread::Id::new(0), None);
    let id: thread::Id = thread::Id::new(7).unwrap();
    assert_eq!(Some(id).pack(), 7);
    assert_eq!(id.pack(), 7);
    assert_eq!(u16::from(id), 7);
    assert_eq!(<Option<thread::Id> as Pack>::unpack(0), None);
    assert_eq!(<Option<thread::Id> as Pack>::unpack(7), Some(id));
    assert_eq!(<thread::Id as Pack>::unpack(7), id);
}

#[test]
fn words_without_a_value_are_told() {
    assert!(!Atomic::<thread::Id>::is_decodable(0));
    assert!(!Atomic::<thread::Id>::is_decodable(0x1_0000));
    assert!(Atomic::<thread::Id>::is_decodable(1));
    assert!(Atomic::<Option<thread::Id>>::is_decodable(0));
    assert!(Atomic::<Version>::is_decodable(u64::MAX));
    assert!(Atomic::<u8>::is_decodable(u64::MAX));
}

#[test]
fn threads_are_packed_like_nonzero_integers() {
    let mut number: u16 = 0;
    while number < 300 {
        let theirs: u16 =
            ribbit::convert::packed_to_loose(ribbit::Pack::pack(NonZeroU16::new(number)));
        assert_eq!(thread::Id::new(number).pack(), theirs);
        number += 1;
    }
}

#[test]
fn integers_are_packed_as_themselves() {
    assert_eq!(Pack::pack(9u8), ribbit::convert::packed_to_loose(ribbit::Pack::pack(9u8)));
    assert_eq!(Pack::pack(900u16), ribbit::convert::packed_to_loose(ribbit::Pack::pack(900u16)));
    assert_eq!(Pack::pack(90_000u32), ribbit::convert::packed_to_loose(ribbit::Pack::pack(90_000u32)));
    assert_eq!(Pack::pack(u64::MAX), ribbit::convert::packed_to_loose(ribbit::Pack::pack(u64::MAX)));
}

#[test]
fn versions_wrap_around() {
    assert_eq!(Version::default(), Version::new(0));
    assert_eq!(Version::new(41).next(), Version::new(42));
    assert_eq!(Version::new(u16::MAX).next(), Version::new(0));
    assert_eq!(Version::new(0xabcd).pack(), 0xabcd);
    assert_eq!(<Version as Pack>::unpack(0xabcd), Version::new(0xabcd));
}

#[test]
fn versions_come_back_after_their_period() {
    let start: Version = Version::new(9);
    let mut version: Version = start.next();
    let mut steps: u32 = 1;
    while version != start {
        version = version.next();
        steps += 1;
    }
    assert_eq!(steps, 65536);
}

#[test]
fn pad_gives_access_to_its_value() {
    let mut pad: Pad<Vec<u8>> = Pad::new(vec![1, 2]);
    assert_eq!(pad.len(), 2);
    pad.deref_mut().push(3);
    assert_eq!(*pad, vec![1, 2, 3]);
}
