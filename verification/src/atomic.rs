//! One word of shared memory, and the values that are packed into it.

use core::marker::PhantomData;

use vstd::prelude::*;

use crate::thread;

verus! {

/// An unsigned integer that travels in a 64-bit word.
pub trait Convert64: Sized + Copy {
    /// How many values the type has.
    spec fn modulus() -> int;

    /// The integer.
    spec fn value(self) -> int;

    /// A value is determined by its integer, which is below the modulus.
    proof fn value_bounds(self)
        ensures
            0 <= self.value() < Self::modulus() <= 0x1_0000_0000_0000_0000,
            forall|other: Self| #[trigger] other.value() == self.value() ==> other == self,
    ;

    /// The low bits of a word.
    fn from_u64(value: u64) -> (loose: Self)
        ensures
            loose.value() == value as int % Self::modulus(),
    ;

    /// The word with this integer in its low bits and zeros above them.
    fn into_u64(self) -> (word: u64)
        ensures
            word == self.value(),
    ;
}

impl Convert64 for u8 {
    open spec fn modulus() -> int {
        0x100
    }

    open spec fn value(self) -> int {
        self as int
    }

    proof fn value_bounds(self) {
    }

    fn from_u64(value: u64) -> (loose: Self) {
        assert(value as u8 == value % 0x100) by (bit_vector);
        value as u8
    }

    fn into_u64(self) -> (word: u64) {
        self as u64
    }
}

impl Convert64 for u16 {
    open spec fn modulus() -> int {
        0x1_0000
    }

    open spec fn value(self) -> int {
        self as int
    }

    proof fn value_bounds(self) {
    }

    fn from_u64(value: u64) -> (loose: Self) {
        assert(value as u16 == value % 0x1_0000) by (bit_vector);
        value as u16
    }

    fn into_u64(self) -> (word: u64) {
        self as u64
    }
}

impl Convert64 for u32 {
    open spec fn modulus() -> int {
        0x1_0000_0000
    }

    open spec fn value(self) -> int {
        self as int
    }

    proof fn value_bounds(self) {
    }

    fn from_u64(value: u64) -> (loose: Self) {
        assert(value as u32 == value % 0x1_0000_0000) by (bit_vector);
        value as u32
    }

    fn into_u64(self) -> (word: u64) {
        self as u64
    }
}

impl Convert64 for u64 {
    open spec fn modulus() -> int {
        0x1_0000_0000_0000_0000
    }

    open spec fn value(self) -> int {
        self as int
    }

    proof fn value_bounds(self) {
    }

    fn from_u64(value: u64) -> (loose: Self) {
        value
    }

    fn into_u64(self) -> (word: u64) {
        self
    }
}

/// A value that packs into an unsigned integer.
///
/// Packing loses nothing: two packable values with the same packed form are
/// the same value.
pub trait Pack: Sized + Copy {
    /// The packed form.
    type Loose: Convert64;

    /// Whether this value has a packed form of its own.
    spec fn packable(self) -> bool;

    /// The packed form of a packable value.
    spec fn packed(self) -> Self::Loose;

    /// Distinct packable values have distinct packed forms.
    proof fn packed_is_injective(self, other: Self)
        requires
            self.packable(),
            other.packable(),
            self.packed() == other.packed(),
        ensures
            self == other,
    ;

    /// Packs a value.
    fn pack(self) -> (loose: Self::Loose)
        requires
            self.packable(),
        ensures
            loose == self.packed(),
    ;

    /// Whether this is the packed form of some value.
    fn is_packed(loose: Self::Loose) -> (packed: bool)
        ensures
            packed <==> exists|value: Self| value.packable() && #[trigger] value.packed() == loose,
    ;

    /// Recovers the value from its packed form.
    fn unpack(loose: Self::Loose) -> (value: Self)
        requires
            exists|value: Self| value.packable() && #[trigger] value.packed() == loose,
        ensures
            value.packable(),
            value.packed() == loose,
    ;
}

impl Pack for u8 {
    type Loose = u8;

    open spec fn packable(self) -> bool {
        true
    }

    open spec fn packed(self) -> u8 {
        self
    }

    proof fn packed_is_injective(self, other: Self) {
    }

    fn pack(self) -> (loose: u8) {
        self
    }

    fn is_packed(loose: u8) -> (packed: bool) {
        assert(loose.packable() && loose.packed() == loose);
        true
    }

    fn unpack(loose: u8) -> (value: Self) {
        loose
    }
}

impl Pack for u16 {
    type Loose = u16;

    open spec fn packable(self) -> bool {
        true
    }

    open spec fn packed(self) -> u16 {
        self
    }

    proof fn packed_is_injective(self, other: Self) {
    }

    fn pack(self) -> (loose: u16) {
        self
    }

    fn is_packed(loose: u16) -> (packed: bool) {
        assert(loose.packable() && loose.packed() == loose);
        true
    }

    fn unpack(loose: u16) -> (value: Self) {
        loose
    }
}

impl Pack for u32 {
    type Loose = u32;

    open spec fn packable(self) -> bool {
        true
    }

    open spec fn packed(self) -> u32 {
        self
    }

    proof fn packed_is_injective(self, other: Self) {
    }

    fn pack(self) -> (loose: u32) {
        self
    }

    fn is_packed(loose: u32) -> (packed: bool) {
        assert(loose.packable() && loose.packed() == loose);
        true
    }

    fn unpack(loose: u32) -> (value: Self) {
        loose
    }
}

impl Pack for u64 {
    type Loose = u64;

    open spec fn packable(self) -> bool {
        true
    }

    open spec fn packed(self) -> u64 {
        self
    }

    proof fn packed_is_injective(self, other: Self) {
    }

    fn pack(self) -> (loose: u64) {
        self
    }

    fn is_packed(loose: u64) -> (packed: bool) {
        assert(loose.packable() && loose.packed() == loose);
        true
    }

    fn unpack(loose: u64) -> (value: Self) {
        loose
    }
}

impl Pack for thread::Id {
    type Loose = u16;

    open spec fn packable(self) -> bool {
        self.wf()
    }

    open spec fn packed(self) -> u16 {
        self.number
    }

    proof fn packed_is_injective(self, other: Self) {
    }

    fn pack(self) -> (loose: u16) {
        self.number
    }

    fn is_packed(loose: u16) -> (packed: bool) {
        let ghost id = thread::Id { number: loose };
        assert(id.packed() == loose);
        loose != 0
    }

    fn unpack(loose: u16) -> (value: Self) {
        thread::Id { number: loose }
    }
}

impl Pack for Option<thread::Id> {
    type Loose = u16;

    open spec fn packable(self) -> bool {
        self matches Some(id) ==> id.wf()
    }

    open spec fn packed(self) -> u16 {
        match self {
            None => 0,
            Some(id) => id.number,
        }
    }

    proof fn packed_is_injective(self, other: Self) {
    }

    fn pack(self) -> (loose: u16) {
        match self {
            None => 0,
            Some(id) => id.number,
        }
    }

    fn is_packed(loose: u16) -> (packed: bool) {
        let ghost id = if loose == 0 {
            None
        } else {
            Some(thread::Id { number: loose })
        };
        assert(id.packable() && id.packed() == loose);
        true
    }

    fn unpack(loose: u16) -> (value: Self) {
        thread::Id::new(loose)
    }
}

/// The word that a packable value is stored as.
pub open spec fn word_of<T: Pack>(value: T) -> int {
    value.packed().value()
}

/// Whether the low bits of a word are the packed form of a value.
///
/// The bits above those that the packed form needs are not looked at.
pub open spec fn decodes<T: Pack>(word: u64, value: T) -> bool {
    &&& value.packable()
    &&& word_of(value) == word as int % T::Loose::modulus()
}

/// Whether some value can be read from a word.
pub open spec fn decodable<T: Pack>(word: u64) -> bool {
    exists|value: T| #[trigger] decodes(word, value)
}

/// One word of shared memory that holds a packed value.
///
/// A location is used by one access at a time. A method is one such access,
/// and what it changes is a `&mut` location: the accesses of other threads lie
/// before and after it.
#[derive(Debug)]
pub struct Atomic<T> {
    value: u64,
    _type: PhantomData<T>,
}

impl<T> Atomic<T> {
    /// The word in memory.
    pub closed spec fn word(&self) -> u64 {
        self.value
    }

    /// A location that holds a given word.
    ///
    /// Nothing is asked of the word. It has to be [`decodable`] before the
    /// location can be loaded from.
    pub fn new_unchecked(value: u64) -> (atomic: Self)
        ensures
            atomic.word() == value,
    {
        Self { value, _type: PhantomData }
    }
}

impl<T: Pack> Atomic<T> {
    /// Whether a value can be loaded from this location.
    pub open spec fn wf(&self) -> bool {
        decodable::<T>(self.word())
    }

    /// Whether this location holds a value.
    pub open spec fn holds(&self, value: T) -> bool {
        decodes(self.word(), value)
    }

    /// A location that holds a value.
    pub fn new(value: T) -> (atomic: Self)
        requires
            value.packable(),
        ensures
            atomic.word() == word_of(value),
            atomic.holds(value),
            atomic.wf(),
    {
        let word: u64 = Self::pack(value);
        proof {
            law_word_decodes(value, word);
        }
        Self { value: word, _type: PhantomData }
    }

    /// Reads the value.
    pub fn load(&self) -> (value: T)
        requires
            self.wf(),
        ensures
            self.holds(value),
    {
        Self::unpack(self.value)
    }

    /// Replaces the word by that of a value.
    pub fn store(&mut self, value: T)
        requires
            value.packable(),
        ensures
            final(self).word() == word_of(value),
            final(self).holds(value),
            final(self).wf(),
    {
        let word: u64 = Self::pack(value);
        proof {
            law_word_decodes(value, word);
        }
        self.value = word;
    }

    /// Replaces the word by that of `new` if it is that of `expected`.
    ///
    /// Either way the result is the value that was there before: `Ok` if it
    /// was replaced, `Err` if not. All 64 bits are compared.
    pub fn compare_exchange(&mut self, expected: T, new: T) -> (result: Result<T, T>)
        requires
            old(self).wf(),
            expected.packable(),
            new.packable(),
        ensures
            result is Ok <==> old(self).word() == word_of(expected),
            result matches Ok(value) ==> {
                &&& value == expected
                &&& final(self).word() == word_of(new)
                &&& final(self).holds(new)
            },
            result matches Err(value) ==> {
                &&& old(self).holds(value)
                &&& final(self).word() == old(self).word()
            },
            final(self).wf(),
    {
        let current: u64 = self.value;
        let found: T = Self::unpack(current);
        if current == Self::pack(expected) {
            let word: u64 = Self::pack(new);
            proof {
                law_word_decodes(new, word);
                law_word_decodes(expected, current);
                law_decoded_value_is_unique(current, expected, found);
            }
            self.value = word;
            Ok(found)
        } else {
            Err(found)
        }
    }

    /// What a compare-and-exchange on words, performed elsewhere, found: `Ok` if
    /// it replaced the word, `Err` if not.
    pub fn exchanged(result: Result<u64, u64>) -> (values: Result<T, T>)
        requires
            match result {
                Ok(word) => decodable::<T>(word),
                Err(word) => decodable::<T>(word),
            },
        ensures
            match (result, values) {
                (Ok(word), Ok(value)) => decodes(word, value),
                (Err(word), Err(value)) => decodes(word, value),
                _ => false,
            },
    {
        match result {
            Ok(word) => Ok(Self::unpack(word)),
            Err(word) => Err(Self::unpack(word)),
        }
    }

    /// Flips the bits of the word that are set in `value`, and returns the
    /// word that was there before.
    pub fn fetch_xor(&mut self, value: u64) -> (previous: u64)
        ensures
            previous == old(self).word(),
            final(self).word() == old(self).word() ^ value,
    {
        let previous: u64 = self.value;
        self.value = previous ^ value;
        previous
    }

    /// The word that a value is stored as.
    pub fn pack(value: T) -> (word: u64)
        requires
            value.packable(),
        ensures
            word == word_of(value),
            decodes(word, value),
    {
        let loose: T::Loose = value.pack();
        let word: u64 = loose.into_u64();
        proof {
            law_word_decodes(value, word);
        }
        word
    }

    /// Whether a value can be read from a word.
    pub fn is_decodable(word: u64) -> (yes: bool)
        ensures
            yes == decodable::<T>(word),
    {
        let loose: T::Loose = T::Loose::from_u64(word);
        proof {
            loose.value_bounds();
            if decodable::<T>(word) {
                let witness = choose|value: T| #[trigger] decodes(word, value);
                assert(witness.packed().value() == loose.value());
                assert(witness.packed() == loose);
            }
            if exists|value: T| value.packable() && #[trigger] value.packed() == loose {
                let witness = choose|value: T|
                    value.packable() && #[trigger] value.packed() == loose;
                assert(decodes(word, witness));
            }
        }
        T::is_packed(loose)
    }

    /// The value that is stored as a word.
    pub fn unpack(word: u64) -> (value: T)
        requires
            decodable::<T>(word),
        ensures
            decodes(word, value),
    {
        let loose: T::Loose = T::Loose::from_u64(word);
        proof {
            let witness = choose|value: T| #[trigger] decodes(word, value);
            assert(decodes(word, witness));
            witness.packed().value_bounds();
            assert(loose.value() == witness.packed().value());
            assert(witness.packed() == loose);
        }
        T::unpack(loose)
    }
}

/// The word of a value decodes to that value, and has no bits set above its
/// packed form.
pub proof fn law_word_decodes<T: Pack>(value: T, word: u64)
    requires
        value.packable(),
        word == word_of(value),
    ensures
        decodes(word, value),
        decodable::<T>(word),
        word < T::Loose::modulus(),
{
    value.packed().value_bounds();
    vstd::arithmetic::div_mod::lemma_small_mod(word as nat, T::Loose::modulus() as nat);
    assert(decodes(word, value));
}

/// A word decodes to at most one value: what is loaded is what was stored.
pub proof fn law_decoded_value_is_unique<T: Pack>(word: u64, first: T, second: T)
    requires
        decodes(word, first),
        decodes(word, second),
    ensures
        first == second,
{
    first.packed().value_bounds();
    assert(second.packed().value() == first.packed().value());
    assert(first.packed() == second.packed());
    first.packed_is_injective(second);
}

/// Two packable values have the same word exactly if they are the same value.
pub proof fn law_words_are_distinct<T: Pack>(first: T, second: T)
    requires
        first.packable(),
        second.packable(),
    ensures
        word_of(first) == word_of(second) <==> first == second,
{
    if word_of(first) == word_of(second) {
        first.packed().value_bounds();
        assert(second.packed().value() == first.packed().value());
        first.packed_is_injective(second);
    }
}

/// Integers are stored as themselves, and so are the numbers of threads and of
/// versions. No thread is stored as zero.
pub proof fn law_numbers_are_their_words(
    byte: u8,
    short: u16,
    word: u32,
    long: u64,
    id: thread::Id,
    version: Version,
)
    ensures
        word_of(byte) == byte,
        word_of(short) == short,
        word_of(word) == word,
        word_of(long) == long,
        word_of(id) == id.number,
        word_of(Some(id)) == id.number,
        word_of(None::<thread::Id>) == 0,
        word_of(version) == version.value,
        id.packable() <==> id.number != 0,
        Some(id).packable() <==> id.number != 0,
        None::<thread::Id>.packable(),
        byte.packable() && short.packable() && word.packable() && long.packable()
            && version.packable(),
{
}

/// What is read from a word depends on its low bits alone: eight, sixteen or
/// thirty-two of them, as the value needs, or all of them.
pub proof fn law_high_bits_are_not_read(word: u64, byte: u8, short: u16, middle: u32, long: u64)
    ensures
        decodes(word, byte) <==> byte == word % 0x100,
        decodes(word, short) <==> short == word % 0x1_0000,
        decodes(word, middle) <==> middle == word % 0x1_0000_0000,
        decodes(word, long) <==> long == word,
{
}

/// The next version is one more, until the largest, after which it is zero. So
/// it differs from the one before, and no two versions have the same next.
pub proof fn law_next_version(first: Version, second: Version)
    ensures
        first.value < 0xffff ==> first.next_spec().value == first.value + 1,
        first.value == 0xffff ==> first.next_spec().value == 0,
        first.next_spec() != first,
        first.next_spec() == second.next_spec() <==> first == second,
{
}

/// Flipping the same bits twice gives the word back.
pub proof fn law_xor_twice_restores(word: u64, value: u64)
    ensures
        (word ^ value) ^ value == word,
{
    assert((word ^ value) ^ value == word) by (bit_vector);
}

/// A 16-bit counter that distinguishes the states that one thread writes.
#[derive(Clone, Copy, Debug, PartialEq, Eq, Structural, Hash)]
pub struct Version {
    /// The number of this version.
    pub value: u16,
}

impl Version {
    /// The version after this one. Zero comes after the largest.
    pub open spec fn next_spec(self) -> Version {
        Version { value: ((self.value + 1) % 0x1_0000) as u16 }
    }

    /// The version with a given number.
    pub fn new(value: u16) -> (version: Self)
        ensures
            version == (Version { value }),
    {
        Self { value }
    }

    /// The version after this one.
    pub fn next(&self) -> (version: Self)
        ensures
            version == self.next_spec(),
    {
        Self::new(self.value.wrapping_add(1))
    }
}

impl Default for Version {
    /// The version of memory that is all zeros.
    fn default() -> (version: Self)
        ensures
            version == (Version { value: 0 }),
    {
        Self { value: 0 }
    }
}

/// The version that `count` steps of [`Version::next`] lead to.
pub open spec fn version_after(version: Version, count: nat) -> Version
    decreases count,
{
    if count == 0 {
        version
    } else {
        version_after(version, (count - 1) as nat).next_spec()
    }
}

/// A version comes back after 65536 steps and no sooner.
pub proof fn law_version_period(version: Version, count: nat)
    ensures
        version_after(version, count) == version <==> count % 0x1_0000 == 0,
{
    lemma_version_after(version, count);
}

proof fn lemma_version_after(version: Version, count: nat)
    ensures
        version_after(version, count).value == (version.value + count) % 0x1_0000,
    decreases count,
{
    if count > 0 {
        lemma_version_after(version, (count - 1) as nat);
    }
}

impl Pack for Version {
    type Loose = u16;

    open spec fn packable(self) -> bool {
        true
    }

    open spec fn packed(self) -> u16 {
        self.value
    }

    proof fn packed_is_injective(self, other: Self) {
    }

    fn pack(self) -> (loose: u16) {
        self.value
    }

    fn is_packed(loose: u16) -> (packed: bool) {
        let ghost version = Version { value: loose };
        assert(version.packable() && version.packed() == loose);
        true
    }

    fn unpack(loose: u16) -> (value: Self) {
        Self { value: loose }
    }
}

/// A value that is kept apart from others, such as on a cache line of its own.
///
/// The type says that a value is to be kept apart. It does not place the value:
/// whoever allocates the memory does.
pub struct Pad<T>(T);

impl<T> Pad<T> {
    /// The value.
    pub closed spec fn inner(&self) -> T {
        self.0
    }

    /// Pads a value.
    pub fn new(value: T) -> (pad: Self)
        ensures
            pad.inner() == value,
    {
        Self(value)
    }

    /// An exclusive reference to the value.
    pub fn deref_mut(&mut self) -> (value: &mut T)
        ensures
            *value == old(self).inner(),
            final(self).inner() == *final(value),
    {
        &mut self.0
    }
}

impl<T> core::ops::Deref for Pad<T> {
    type Target = T;

    /// A reference to the value.
    fn deref(&self) -> (value: &T)
        ensures
            *value == self.inner(),
    {
        &self.0
    }
}

} // verus!
