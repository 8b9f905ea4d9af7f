//! Names of memory regions.

use arrayvec::ArrayString;
use arrayvec::CapacityError;
use vstd::prelude::*;
use vstd::utf8::encode_utf8;

use crate::text;

verus! {

/// How many bytes a name can have.
pub const SIZE: usize = 32;

/// A string of limited length, from [`arrayvec`].
#[verifier::external_type_specification]
#[verifier::external_body]
pub struct ExArrayString<const CAP: usize>(ArrayString<CAP>);

/// The error of a string that does not fit, from [`arrayvec`].
#[verifier::external_type_specification]
#[verifier::external_body]
#[verifier::reject_recursive_types(T)]
pub struct ExCapacityError<T>(CapacityError<T>);

/// The characters of an [`ArrayString`].
pub uninterp spec fn contents(string: ArrayString<SIZE>) -> Seq<char>;

/// How many bytes a text has in UTF-8.
pub open spec fn byte_len(text: Seq<char>) -> nat {
    encode_utf8(text).len()
}

/// The bytes of two texts one after the other.
proof fn lemma_byte_len_of_concatenation(first: Seq<char>, second: Seq<char>)
    ensures
        byte_len(first + second) == byte_len(first) + byte_len(second),
    decreases first.len(),
{
    if first.len() == 0 {
        assert(first + second =~= second);
    } else {
        assert((first + second).drop_first() =~= first.drop_first() + second);
        lemma_byte_len_of_concatenation(first.drop_first(), second);
    }
}

/// [`ArrayString::from`]: holds a text if it has room for its bytes, and fails
/// if it has not.
#[verifier::external_body]
fn array_string_from(text: &str) -> (string: Result<ArrayString<SIZE>, CapacityError<&str>>)
    ensures
        string is Ok <==> byte_len(text@) <= SIZE,
        string matches Ok(string) ==> contents(string) == text@,
{
    ArrayString::from(text)
}

/// [`ArrayString::try_push_str`]: appends a text if there is room left for its
/// bytes. If not, it fails and leaves the string as it is.
#[verifier::external_body]
fn array_string_try_push_str<'a>(string: &mut ArrayString<SIZE>, text: &'a str) -> (result: Result<
    (),
    CapacityError<&'a str>,
>)
    ensures
        result is Ok <==> byte_len(contents(*old(string))) + byte_len(text@) <= SIZE,
        result is Ok ==> contents(*final(string)) == contents(*old(string)) + text@,
        result is Err ==> *final(string) == *old(string),
{
    string.try_push_str(text)
}

/// [`ArrayString::as_str`]: the characters that the string holds.
#[verifier::external_body]
fn array_string_as_str(string: &ArrayString<SIZE>) -> (text: &str)
    ensures
        text@ == contents(*string),
{
    string.as_str()
}

/// Something that a name can be extended by.
pub trait Suffix {
    /// Its characters.
    spec fn text(&self) -> Seq<char>;

    /// Writes it out.
    fn render(&self) -> (string: String)
        ensures
            string@ == self.text(),
    ;
}

impl Suffix for &str {
    open spec fn text(&self) -> Seq<char> {
        (*self)@
    }

    fn render(&self) -> (string: String) {
        String::from_str(*self)
    }
}

impl Suffix for u64 {
    /// The decimal digits.
    open spec fn text(&self) -> Seq<char> {
        text::digits(*self as nat, 10)
    }

    fn render(&self) -> (string: String) {
        text::format(*self, 10)
    }
}

/// A number to be written in base sixteen.
#[derive(Clone, Copy, Debug, PartialEq, Eq, Structural)]
pub struct Hex(pub u64);

impl Suffix for Hex {
    /// The hexadecimal digits after `0x`.
    open spec fn text(&self) -> Seq<char> {
        seq!['0', 'x'] + text::digits(self.0 as nat, 16)
    }

    fn render(&self) -> (string: String) {
        let mut string: String = String::from_str("0x");
        let digits: String = text::format(self.0, 16);
        string.append(digits.as_str());
        proof {
            reveal_strlit("0x");
            assert(string@ =~= self.text());
        }
        string
    }
}

/// The name of a region, or of one of the files behind it.
#[derive(Clone, Copy, Debug)]
pub struct Id(ArrayString<SIZE>);

impl View for Id {
    type V = Seq<char>;

    closed spec fn view(&self) -> Seq<char> {
        contents(self.0)
    }
}

/// A name with a suffix.
pub open spec fn joined(name: Seq<char>, suffix: Seq<char>) -> Seq<char> {
    name.push('-') + suffix
}

/// A name with a suffix begins with the name, goes on with a dash, and ends with
/// the suffix.
pub proof fn law_joined_parts(name: Seq<char>, suffix: Seq<char>)
    ensures
        joined(name, suffix).len() == name.len() + 1 + suffix.len(),
        forall|i: int| 0 <= i < name.len() ==> joined(name, suffix)[i] == #[trigger] name[i],
        joined(name, suffix)[name.len() as int] == '-',
        forall|i: int|
            0 <= i < suffix.len() ==> joined(name, suffix)[name.len() + 1 + i]
                == #[trigger] suffix[i],
{
}

/// A text has a byte for each of its characters if all of them are ASCII, and the
/// bytes of texts add up.
pub proof fn law_byte_len(first: Seq<char>, second: Seq<char>)
    ensures
        vstd::utf8::is_ascii_chars(first) ==> byte_len(first) == first.len(),
        byte_len(first + second) == byte_len(first) + byte_len(second),
        byte_len(Seq::<char>::empty()) == 0,
{
    if vstd::utf8::is_ascii_chars(first) {
        vstd::utf8::is_ascii_chars_encode_utf8(first);
    }
    lemma_byte_len_of_concatenation(first, second);
}

/// What suffixes look like: a text is itself, a number is its decimal digits, and
/// a number in base sixteen has `0x` before its digits.
pub proof fn law_suffixes(text: &str, number: u64)
    ensures
        text.text() == text@,
        text::is_number(number.text(), 10),
        text::denoted(number.text(), 10) == number,
        Hex(number).text().len() > 2,
        Hex(number).text()[0] == '0',
        Hex(number).text()[1] == 'x',
        text::is_number(Hex(number).text().skip(2), 16),
        text::denoted(Hex(number).text().skip(2), 16) == number,
{
    text::law_digits_denote_the_number(number as nat, 10);
    text::law_digits_denote_the_number(number as nat, 16);
    assert(Hex(number).text().skip(2) =~= text::digits(number as nat, 16));
}

/// How many bytes a name with a suffix has.
pub proof fn law_joined_len(name: Seq<char>, suffix: Seq<char>)
    ensures
        byte_len(joined(name, suffix)) == byte_len(name) + 1 + byte_len(suffix),
{
    let dash = seq!['-'];
    assert(name.push('-') =~= name + dash);
    assert(vstd::utf8::is_ascii_chars(dash));
    vstd::utf8::is_ascii_chars_encode_utf8(dash);
    lemma_byte_len_of_concatenation(name, dash);
    lemma_byte_len_of_concatenation(name + dash, suffix);
}

impl Id {
    /// Whether a name has room for a suffix.
    pub open spec fn has_room_for(&self, suffix: Seq<char>) -> bool {
        byte_len(self@) + 1 + byte_len(suffix) <= SIZE
    }

    /// A name has room for a suffix exactly if the two, with a dash between them,
    /// have at most 32 bytes.
    pub proof fn law_room(&self, suffix: Seq<char>)
        ensures
            self.has_room_for(suffix) <==> byte_len(joined(self@, suffix)) <= 32,
    {
        law_joined_len(self@, suffix);
    }

    /// The name with these characters.
    pub fn new(inner: &str) -> (id: Self)
        requires
            byte_len(inner@) <= SIZE,
        ensures
            id@ == inner@,
    {
        match array_string_from(inner) {
            Ok(string) => Id(string),
            Err(_) => vstd::pervasive::unreached(),
        }
    }

    /// The name followed by a dash and a suffix.
    pub fn with_suffix<S: Suffix>(&self, suffix: S) -> (id: Self)
        requires
            self.has_room_for(suffix.text()),
        ensures
            id@ == joined(self@, suffix.text()),
    {
        let mut string: ArrayString<SIZE> = self.0;
        let text: String = suffix.render();
        let dash: &str = "-";
        proof {
            reveal_strlit("-");
            assert(dash@ =~= seq!['-']);
            assert(vstd::utf8::is_ascii_chars(dash@));
            vstd::utf8::is_ascii_chars_encode_utf8(dash@);
            lemma_byte_len_of_concatenation(self@, dash@);
        }
        let _ = array_string_try_push_str(&mut string, dash);
        let _ = array_string_try_push_str(&mut string, text.as_str());
        assert(contents(string) =~= joined(self@, suffix.text()));
        Id(string)
    }

    /// The characters of the name.
    pub fn as_str(&self) -> (text: &str)
        ensures
            text@ == self@,
    {
        array_string_as_str(&self.0)
    }
}

} // verus!
