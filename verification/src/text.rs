//! Numbers as text.

use vstd::arithmetic::power::pow;
use vstd::prelude::*;
use vstd::utf8::is_ascii_chars;

verus! {

/// The character of a digit below sixteen.
pub open spec fn digit(value: int) -> char {
    if value < 10 {
        (0x30 + value) as char
    } else {
        (0x57 + value) as char
    }
}

/// The digits of a number, the most significant first and without leading
/// zeros.
pub open spec fn digits(number: nat, base: nat) -> Seq<char>
    decreases number,
{
    if base < 2 || number < base {
        seq![digit(number as int)]
    } else {
        proof {
            vstd::arithmetic::div_mod::lemma_div_decreases(number as int, base as int);
        }
        digits(number / base, base).push(digit((number % base) as int))
    }
}

/// Numbers with the same digits are the same number.
pub proof fn law_digits_are_distinct(first: nat, second: nat, base: nat)
    requires
        2 <= base <= 16,
    ensures
        digits(first, base) == digits(second, base) <==> first == second,
    decreases first,
{
    if digits(first, base) == digits(second, base) {
        lemma_digits_len(first / base, base);
        lemma_digits_len(second / base, base);
        if first < base {
            assert(digits(first, base).len() == 1);
            assert(second < base);
            assert(digits(first, base)[0] == digit(first as int));
            assert(digits(second, base)[0] == digit(second as int));
        } else {
            assert(digits(first, base).len() == digits(first / base, base).len() + 1);
            if second < base {
                assert(digits(second, base).len() == 1);
            }
            vstd::arithmetic::div_mod::lemma_mod_bound(first as int, base as int);
            vstd::arithmetic::div_mod::lemma_mod_bound(second as int, base as int);
            assert(digits(first, base).drop_last() =~= digits(first / base, base));
            assert(digits(first, base).last() == digit((first % base) as int));
            assert(digits(second, base).drop_last() =~= digits(second / base, base));
            assert(digits(second, base).last() == digit((second % base) as int));
            vstd::arithmetic::div_mod::lemma_div_decreases(first as int, base as int);
            law_digits_are_distinct(first / base, second / base, base);
            vstd::arithmetic::div_mod::lemma_fundamental_div_mod(first as int, base as int);
            vstd::arithmetic::div_mod::lemma_fundamental_div_mod(second as int, base as int);
        }
    }
}

proof fn lemma_digits_len(number: nat, base: nat)
    ensures
        digits(number, base).len() >= 1,
    decreases number,
{
    if base >= 2 && number >= base {
        vstd::arithmetic::div_mod::lemma_div_decreases(number as int, base as int);
        lemma_digits_len(number / base, base);
    }
}

/// A number below `base` to the power of `count` has at most `count` digits,
/// all of them ASCII.
pub proof fn law_digits_are_few(number: nat, base: nat, count: nat)
    requires
        2 <= base <= 16,
        1 <= count,
        number < pow(base as int, count),
    ensures
        1 <= digits(number, base).len() <= count,
        is_ascii_chars(digits(number, base)),
    decreases count,
{
    if number >= base {
        reveal(pow);
        if count == 1 {
            assert(pow(base as int, 1) == base * pow(base as int, 0));
            assert(false);
        }
        vstd::arithmetic::div_mod::lemma_mod_bound(number as int, base as int);
        let rest = pow(base as int, (count - 1) as nat);
        assert(number / base < rest) by (nonlinear_arith)
            requires
                number < base * rest,
                base > 0,
        ;
        law_digits_are_few(number / base, base, (count - 1) as nat);
    }
}

/// What a digit counts for.
pub open spec fn digit_value(character: char) -> int {
    if character as int >= 0x61 {
        character as int - 0x57
    } else {
        character as int - 0x30
    }
}

/// The number that a text of digits denotes, place by place.
pub open spec fn denoted(text: Seq<char>, base: nat) -> int
    decreases text.len(),
{
    if text.len() == 0 {
        0
    } else {
        denoted(text.drop_last(), base) * base + digit_value(text.last())
    }
}

/// The digits of a number denote the number, and there is no zero in front of
/// them unless the number is zero.
pub proof fn law_digits_denote_the_number(number: nat, base: nat)
    requires
        2 <= base <= 16,
    ensures
        denoted(digits(number, base), base) == number,
        digits(number, base).len() > 0,
        digits(number, base)[0] == '0' <==> number == 0,
        number < base ==> digits(number, base).len() == 1,
    decreases number,
{
    lemma_number_is_digits(number, base);
    let text = digits(number, base);
    if number < base {
        reveal_with_fuel(denoted, 2);
        assert(text.drop_last().len() == 0);
    } else {
        vstd::arithmetic::div_mod::lemma_div_decreases(number as int, base as int);
        vstd::arithmetic::div_mod::lemma_mod_bound(number as int, base as int);
        vstd::arithmetic::div_mod::lemma_fundamental_div_mod(number as int, base as int);
        law_digits_denote_the_number(number / base, base);
        assert(text.drop_last() =~= digits(number / base, base));
        assert(text.last() == digit((number % base) as int));
        vstd::arithmetic::mul::lemma_mul_is_commutative(base as int, (number / base) as int);
    }
}

/// The digits of base ten are those from `0` to `9`. Those of base sixteen are
/// these and the small letters from `a` to `f`.
pub proof fn law_digit_characters(character: char)
    ensures
        is_digit(character, 10) <==> '0' <= character <= '9',
        is_digit(character, 16) <==> '0' <= character <= '9' || 'a' <= character <= 'f',
{
}

/// Whether a text is a number, as [`digits`] writes it.
pub open spec fn is_number(text: Seq<char>, base: nat) -> bool {
    exists|number: nat| #[trigger] digits(number, base) == text
}

/// Whether a character is a digit of a base from two to sixteen.
pub open spec fn is_digit(character: char, base: nat) -> bool {
    let code = character as int;
    ||| 0x30 <= code < 0x3a && code - 0x30 < base
    ||| 0x61 <= code < 0x67 && code - 0x57 < base
}

/// A text is a number exactly if it has digits, nothing but digits, and no zero
/// in front of others.
pub proof fn law_numbers_are_digits(text: Seq<char>, base: nat)
    requires
        2 <= base <= 16,
    ensures
        is_number(text, base) <==> {
            &&& text.len() > 0
            &&& forall|i: int| 0 <= i < text.len() ==> is_digit(#[trigger] text[i], base)
            &&& text.len() > 1 ==> text[0] != '0'
        },
{
    if is_number(text, base) {
        let number = choose|number: nat| #[trigger] digits(number, base) == text;
        lemma_number_is_digits(number, base);
    }
    if text.len() > 0 && (forall|i: int| 0 <= i < text.len() ==> is_digit(#[trigger] text[i], base))
        && (text.len() > 1 ==> text[0] != '0') {
        lemma_digits_are_number(text, base);
    }
}

proof fn lemma_number_is_digits(number: nat, base: nat)
    requires
        2 <= base <= 16,
    ensures
        digits(number, base).len() > 0,
        forall|i: int|
            0 <= i < digits(number, base).len() ==> is_digit(
                #[trigger] digits(number, base)[i],
                base,
            ),
        number > 0 ==> digits(number, base)[0] != '0',
        number == 0 ==> digits(number, base).len() == 1,
    decreases number,
{
    if number >= base {
        vstd::arithmetic::div_mod::lemma_div_decreases(number as int, base as int);
        vstd::arithmetic::div_mod::lemma_mod_bound(number as int, base as int);
        vstd::arithmetic::div_mod::lemma_div_non_zero(number as int, base as int);
        lemma_number_is_digits(number / base, base);
    }
}

proof fn lemma_digits_are_number(text: Seq<char>, base: nat)
    requires
        2 <= base <= 16,
        text.len() > 0,
        forall|i: int| 0 <= i < text.len() ==> is_digit(#[trigger] text[i], base),
        text.len() > 1 ==> text[0] != '0',
    ensures
        is_number(text, base),
    decreases text.len(),
{
    let code = text.last() as int;
    let value: nat = if code < 0x3a {
        (code - 0x30) as nat
    } else {
        (code - 0x57) as nat
    };
    assert(is_digit(text[text.len() - 1], base));
    assert(digit(value as int) == text.last());
    if text.len() == 1 {
        assert(digits(value, base) =~= text);
    } else {
        let front = text.drop_last();
        assert forall|i: int| 0 <= i < front.len() implies is_digit(#[trigger] front[i], base) by {
            assert(front[i] == text[i]);
        }
        lemma_digits_are_number(front, base);
        let quotient = choose|number: nat| #[trigger] digits(number, base) == front;
        assert(front[0] == text[0]);
        if quotient == 0 {
            assert(digits(quotient, base)[0] == '0');
        }
        let number = quotient * base + value;
        assert(number >= base) by (nonlinear_arith)
            requires
                quotient >= 1,
                number == quotient * base + value,
        ;
        vstd::arithmetic::div_mod::lemma_fundamental_div_mod_converse(
            number as int,
            base as int,
            quotient as int,
            value as int,
        );
        assert(digits(number, base) =~= text);
    }
}

/// Whether a text is a number from a character on.
pub fn is_number_from(text: &str, start: usize, base: u64) -> (number: bool)
    requires
        2 <= base <= 16,
        start <= text@.len(),
    ensures
        number == is_number(text@.skip(start as int), base as nat),
{
    let ghost rest = text@.skip(start as int);
    proof {
        law_numbers_are_digits(rest, base as nat);
    }
    let len: usize = text.unicode_len();
    if start == len {
        return false;
    }
    assert(rest[0] == text@[start as int]);
    if len - start > 1 && text.get_char(start) == '0' {
        return false;
    }
    let mut i: usize = start;
    while i < len
        invariant
            start <= i <= len,
            len == text@.len(),
            2 <= base <= 16,
            rest == text@.skip(start as int),
            is_number(rest, base as nat) <==> {
                &&& rest.len() > 0
                &&& forall|j: int| 0 <= j < rest.len() ==> is_digit(#[trigger] rest[j], base as nat)
                &&& rest.len() > 1 ==> rest[0] != '0'
            },
            forall|j: int| 0 <= j < i - start ==> is_digit(#[trigger] rest[j], base as nat),
        decreases len - i,
    {
        let code: u64 = text.get_char(i) as u64;
        assert(rest[i - start] == text@[i as int]);
        let decimal: bool = 0x30 <= code && code < 0x3a && code - 0x30 < base;
        let letter: bool = 0x61 <= code && code < 0x67 && code - 0x57 < base;
        if !decimal && !letter {
            assert(!is_digit(rest[i - start], base as nat));
            return false;
        }
        i = i + 1;
    }
    true
}

/// Whether a text starts with another.
pub fn starts_with(text: &str, prefix: &str) -> (starts: bool)
    ensures
        starts <==> prefix@.is_prefix_of(text@),
{
    let len: usize = prefix.unicode_len();
    if text.unicode_len() < len {
        return false;
    }
    let mut i: usize = 0;
    while i < len
        invariant
            i <= len,
            len == prefix@.len(),
            len <= text@.len(),
            forall|j: int| 0 <= j < i ==> #[trigger] prefix@[j] == text@[j],
        decreases len - i,
    {
        if text.get_char(i) != prefix.get_char(i) {
            assert(prefix@[i as int] != text@.subrange(0, prefix@.len() as int)[i as int]);
            return false;
        }
        i = i + 1;
    }
    assert(prefix@ =~= text@.subrange(0, prefix@.len() as int));
    true
}

/// The digit as a string.
fn digit_str(value: u64) -> (string: &'static str)
    requires
        value < 16,
    ensures
        string@ == seq![digit(value as int)],
{
    proof {
        reveal_strlit("0");
        reveal_strlit("1");
        reveal_strlit("2");
        reveal_strlit("3");
        reveal_strlit("4");
        reveal_strlit("5");
        reveal_strlit("6");
        reveal_strlit("7");
        reveal_strlit("8");
        reveal_strlit("9");
        reveal_strlit("a");
        reveal_strlit("b");
        reveal_strlit("c");
        reveal_strlit("d");
        reveal_strlit("e");
        reveal_strlit("f");
    }
    match value {
        0 => "0",
        1 => "1",
        2 => "2",
        3 => "3",
        4 => "4",
        5 => "5",
        6 => "6",
        7 => "7",
        8 => "8",
        9 => "9",
        10 => "a",
        11 => "b",
        12 => "c",
        13 => "d",
        14 => "e",
        _ => "f",
    }
}

/// Writes a number in a base from two to sixteen.
pub fn format(number: u64, base: u64) -> (string: String)
    requires
        2 <= base <= 16,
    ensures
        string@ == digits(number as nat, base as nat),
    decreases number,
{
    if number < base {
        String::from_str(digit_str(number))
    } else {
        proof {
            vstd::arithmetic::div_mod::lemma_div_decreases(number as int, base as int);
            vstd::arithmetic::div_mod::lemma_mod_bound(number as int, base as int);
        }
        let mut string: String = format(number / base, base);
        string.append(digit_str(number % base));
        assert(string@ =~= digits((number / base) as nat, base as nat).push(
            digit((number % base) as int),
        ));
        string
    }
}

} // verus!
