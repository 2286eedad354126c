//! Numbers as text: fixed-width hexadecimal, decimal, and reading hexadecimal back.

use vstd::prelude::*;

verus! {

/// The digit for a value below sixteen, with letters small or capital.
pub open spec fn hex_digit(value: nat, capital: bool) -> char {
    if value < 10 {
        (48 + value) as char
    } else if capital {
        (55 + value) as char
    } else {
        (87 + value) as char
    }
}

/// The lowest `width` hexadecimal digits of `n`, most significant first.
pub open spec fn fixed_hex(n: nat, width: nat, capital: bool) -> Seq<char>
    decreases width,
{
    if width == 0 {
        Seq::empty()
    } else {
        fixed_hex(n / 16, (width - 1) as nat, capital).push(hex_digit(n % 16, capital))
    }
}

/// The decimal digits of `n`, without leading zeros.
pub open spec fn decimal(n: nat) -> Seq<char>
    decreases n,
{
    if n < 10 {
        seq![(48 + n) as char]
    } else {
        decimal(n / 10).push((48 + n % 10) as char)
    }
}

/// One hexadecimal digit.
fn digit_char(value: u8, capital: bool) -> (c: char)
    requires
        value < 16,
    ensures
        c == hex_digit(value as nat, capital),
{
    if value < 10 {
        (48 + value) as char
    } else if capital {
        (55 + value) as char
    } else {
        (87 + value) as char
    }
}

/// Appends the lowest `width` hexadecimal digits of `n`.
pub fn push_hex(s: &mut String, n: u64, width: usize, capital: bool)
    ensures
        final(s)@ == old(s)@ + fixed_hex(n as nat, width as nat, capital),
    decreases width,
{
    if width > 0 {
        push_hex(s, n / 16, width - 1, capital);
        s.push(digit_char((n % 16) as u8, capital));
        assert(s@ =~= old(s)@ + fixed_hex(n as nat, width as nat, capital));
    }
}

/// Appends the decimal digits of `n`.
pub fn push_decimal(s: &mut String, n: u64)
    ensures
        final(s)@ == old(s)@ + decimal(n as nat),
    decreases n,
{
    if n < 10 {
        s.push((48 + n as u8) as char);
    } else {
        push_decimal(s, n / 10);
        s.push((48 + (n % 10) as u8) as char);
    }
    assert(s@ =~= old(s)@ + decimal(n as nat));
}

/// The sixteen-digit form of a 64-bit number, with small letters.
pub open spec fn hex16(n: u64) -> Seq<char> {
    fixed_hex(n as nat, 16, false)
}

/// The sixteen-digit form of a 64-bit number, with small letters.
pub fn to_hex16(n: u64) -> (s: String)
    ensures
        s@ == hex16(n),
{
    let mut s = String::new();
    push_hex(&mut s, n, 16, false);
    assert(s@ =~= hex16(n));
    s
}

/// Whether a character is a hexadecimal digit, small or capital.
pub open spec fn is_hex_digit(c: char) -> bool {
    ||| '0' <= c <= '9'
    ||| 'a' <= c <= 'f'
    ||| 'A' <= c <= 'F'
}

/// Whether a character is a hexadecimal digit with a small letter.
pub open spec fn is_small_hex_digit(c: char) -> bool {
    ||| '0' <= c <= '9'
    ||| 'a' <= c <= 'f'
}

/// The value of a hexadecimal digit, and zero for other characters.
pub open spec fn digit_value(c: char) -> nat {
    if '0' <= c <= '9' {
        (c as nat - 48) as nat
    } else if 'a' <= c <= 'f' {
        (c as nat - 87) as nat
    } else if 'A' <= c <= 'F' {
        (c as nat - 55) as nat
    } else {
        0
    }
}

/// The number that a run of hexadecimal digits denotes.
pub open spec fn hex_number(digits: Seq<char>) -> nat
    decreases digits.len(),
{
    if digits.len() == 0 {
        0
    } else {
        hex_number(digits.drop_last()) * 16 + digit_value(digits.last())
    }
}

/// The digits of a number text: what follows an optional leading plus sign.
pub open spec fn unsigned_part(s: Seq<char>) -> Seq<char> {
    if s.len() > 0 && s[0] == '+' {
        s.subrange(1, s.len() as int)
    } else {
        s
    }
}

/// The text is a 64-bit number in hexadecimal: an optional plus sign, then at least one digit, and
/// a value that fits.
pub open spec fn is_hex_u64(s: Seq<char>) -> bool {
    let digits = unsigned_part(s);
    &&& digits.len() > 0
    &&& forall|i: int| 0 <= i < digits.len() ==> is_hex_digit(#[trigger] digits[i])
    &&& hex_number(digits) <= u64::MAX
}

/// The 64-bit number that a text denotes in hexadecimal, if it denotes one.
pub open spec fn parsed_hex(s: Seq<char>) -> Option<u64> {
    if is_hex_u64(s) {
        Some(hex_number(unsigned_part(s)) as u64)
    } else {
        None
    }
}

/// The value of one hexadecimal digit.
fn hex_value(c: char) -> (r: Option<u64>)
    ensures
        match r {
            Some(v) => is_hex_digit(c) && v == digit_value(c) && v < 16,
            None => !is_hex_digit(c),
        },
{
    if '0' <= c && c <= '9' {
        Some(c as u64 - 48)
    } else if 'a' <= c && c <= 'f' {
        Some(c as u64 - 87)
    } else if 'A' <= c && c <= 'F' {
        Some(c as u64 - 55)
    } else {
        None
    }
}

/// A run of digits denotes at least what its beginning denotes.
proof fn lemma_prefix_is_smaller(digits: Seq<char>, i: int)
    requires
        0 <= i <= digits.len(),
    ensures
        hex_number(digits.take(i)) <= hex_number(digits),
    decreases digits.len(),
{
    if i == digits.len() {
        assert(digits.take(i) =~= digits);
    } else {
        lemma_prefix_is_smaller(digits.drop_last(), i);
        assert(digits.drop_last().take(i) =~= digits.take(i));
    }
}

/// Reads a 64-bit number in hexadecimal.
pub fn parse_hex(s: &Vec<char>) -> (r: Option<u64>)
    ensures
        r == parsed_hex(s@),
{
    let mut i: usize = 0;
    if s.len() > 0 && s[0] == '+' {
        i = 1;
    }
    let start: usize = i;
    let ghost digits = unsigned_part(s@);
    assert(digits =~= s@.subrange(start as int, s@.len() as int));
    if start == s.len() {
        return None;
    }
    let mut value: u64 = 0;
    while i < s.len()
        invariant
            start <= i <= s@.len(),
            digits == s@.subrange(start as int, s@.len() as int),
            digits == unsigned_part(s@),
            forall|j: int| 0 <= j < i - start ==> is_hex_digit(#[trigger] digits[j]),
            value == hex_number(digits.take(i - start)),
        decreases s@.len() - i,
    {
        let ghost k = i - start;
        assert(digits[k] == s@[i as int]);
        assert(digits.take(k + 1).drop_last() =~= digits.take(k));
        proof {
            lemma_prefix_is_smaller(digits, k + 1);
        }
        match hex_value(s[i]) {
            Some(d) => {
                if value > (u64::MAX - d) / 16 {
                    return None;
                }
                value = value * 16 + d;
            },
            None => {
                return None;
            },
        }
        i = i + 1;
    }
    assert(digits.take(i - start) =~= digits);
    Some(value)
}

/// Sixteen to the power `width`.
spec fn power_of_16(width: nat) -> nat
    decreases width,
{
    if width == 0 {
        1
    } else {
        16 * power_of_16((width - 1) as nat)
    }
}

proof fn lemma_fixed_hex(n: nat, width: nat, capital: bool)
    requires
        n < power_of_16(width),
    ensures
        fixed_hex(n, width, capital).len() == width,
        forall|i: int| 0 <= i < width ==> is_hex_digit(#[trigger] fixed_hex(n, width, capital)[i]),
        !capital ==> forall|i: int|
            0 <= i < width ==> is_small_hex_digit(#[trigger] fixed_hex(n, width, capital)[i]),
        hex_number(fixed_hex(n, width, capital)) == n,
    decreases width,
{
    if width > 0 {
        let front = fixed_hex(n / 16, (width - 1) as nat, capital);
        lemma_fixed_hex(n / 16, (width - 1) as nat, capital);
        let all = fixed_hex(n, width, capital);
        assert(all.drop_last() =~= front);
        assert(is_hex_digit(hex_digit(n % 16, capital)));
        assert(!capital ==> is_small_hex_digit(hex_digit(n % 16, capital)));
        assert forall|i: int| 0 <= i < width implies is_hex_digit(#[trigger] all[i]) && (!capital
            ==> is_small_hex_digit(all[i])) by {
            if i < width - 1 {
                assert(all[i] == front[i]);
            }
        }
    }
}

/// The sixteen-digit form has sixteen hexadecimal digits with small letters, and reading it gives the
/// number back.
pub proof fn law_hex16_reads_back(n: u64)
    ensures
        hex16(n).len() == 16,
        forall|i: int| 0 <= i < 16 ==> is_small_hex_digit(#[trigger] hex16(n)[i]),
        parsed_hex(hex16(n)) == Some(n),
{
    assert(power_of_16(16) == 0x1_0000_0000_0000_0000) by {
        reveal_with_fuel(power_of_16, 17);
    }
    lemma_fixed_hex(n as nat, 16, false);
    assert(is_small_hex_digit(hex16(n)[0]));
    assert forall|i: int| 0 <= i < 16 implies is_hex_digit(#[trigger] hex16(n)[i]) by {
        assert(is_small_hex_digit(hex16(n)[i]));
    }
    assert(unsigned_part(hex16(n)) == hex16(n));
}

/// Every decimal form is made of decimal digits and is not empty.
pub proof fn law_decimal_is_digits(n: nat)
    ensures
        decimal(n).len() > 0,
        forall|i: int| 0 <= i < decimal(n).len() ==> '0' <= #[trigger] decimal(n)[i] <= '9',
    decreases n,
{
    if n >= 10 {
        law_decimal_is_digits(n / 10);
        let front = decimal(n / 10);
        assert forall|i: int| 0 <= i < decimal(n).len() implies '0' <= #[trigger] decimal(n)[i]
            <= '9' by {
            if i < front.len() {
                assert(decimal(n)[i] == front[i]);
            }
        }
    }
}

/// Different numbers have different decimal forms.
pub proof fn law_decimal_is_injective(a: nat, b: nat)
    requires
        decimal(a) == decimal(b),
    ensures
        a == b,
    decreases a,
{
    law_decimal_is_digits(a / 10);
    law_decimal_is_digits(b / 10);
    if a < 10 {
        assert(decimal(a).len() == 1);
        if b >= 10 {
            assert(decimal(b).len() == decimal(b / 10).len() + 1);
        } else {
            assert(decimal(a)[0] as nat == 48 + a && decimal(b)[0] as nat == 48 + b);
        }
    } else if b < 10 {
        assert(decimal(a).len() == decimal(a / 10).len() + 1);
    } else {
        assert(decimal(a).drop_last() =~= decimal(a / 10));
        assert(decimal(b).drop_last() =~= decimal(b / 10));
        assert(decimal(a).last() as nat == 48 + a % 10 && decimal(b).last() as nat == 48 + b % 10);
        law_decimal_is_injective(a / 10, b / 10);
    }
}

/// The number that a run of decimal digits denotes.
pub open spec fn decimal_number(digits: Seq<char>) -> int
    decreases digits.len(),
{
    if digits.len() == 0 {
        0
    } else {
        decimal_number(digits.drop_last()) * 10 + (digits.last() as int - 48)
    }
}

/// The decimal form of a number denotes that number, without leading zeros.
pub proof fn law_decimal_denotes_the_number(n: nat)
    ensures
        decimal_number(decimal(n)) == n,
        n >= 10 ==> decimal(n)[0] != '0',
        n < 10 ==> decimal(n).len() == 1,
    decreases n,
{
    reveal_with_fuel(decimal_number, 2);
    if n < 10 {
        assert(decimal(n).drop_last() =~= Seq::empty());
        assert(decimal(n).last() as int == 48 + n);
    } else {
        law_decimal_denotes_the_number(n / 10);
        law_decimal_is_digits(n / 10);
        assert(decimal(n).drop_last() =~= decimal(n / 10));
        assert(decimal(n).last() as int == 48 + n % 10);
        assert(decimal(n)[0] == decimal(n / 10)[0]);
        if n < 100 {
            let d = n / 10;
            assert(decimal(d)[0] as int == 48 + d);
        }
    }
}

/// What hexadecimal digits denote, digit by digit: each weighs sixteen times the one behind it.
pub proof fn law_hex_number_is_positional(digits: Seq<char>, c: char)
    ensures
        hex_number(Seq::<char>::empty()) == 0,
        48 <= c as int <= 57 ==> hex_number(digits.push(c)) == 16 * hex_number(digits) + (c as int
            - 48),
        97 <= c as int <= 102 ==> hex_number(digits.push(c)) == 16 * hex_number(digits) + (c as int
            - 87),
        65 <= c as int <= 70 ==> hex_number(digits.push(c)) == 16 * hex_number(digits) + (c as int
            - 55),
{
    assert(digits.push(c).drop_last() =~= digits);
}

/// A text is read as a number exactly when it is digits, at least one, that denote one of 64 bits; a
/// plus sign before the digits changes nothing.
pub proof fn law_hex_is_read_exactly(digits: Seq<char>)
    requires
        digits.len() > 0 ==> digits[0] != '+',
    ensures
        parsed_hex(seq!['+'] + digits) == parsed_hex(digits),
        parsed_hex(digits) is Some <==> {
            &&& digits.len() > 0
            &&& hex_number(digits) <= 0xffff_ffff_ffff_ffff
            &&& forall|i: int|
                0 <= i < digits.len() ==> {
                    let c = #[trigger] digits[i] as int;
                    48 <= c <= 57 || 97 <= c <= 102 || 65 <= c <= 70
                }
        },
        parsed_hex(digits) matches Some(n) ==> n == hex_number(digits),
{
    let signed = seq!['+'] + digits;
    assert(signed.subrange(1, signed.len() as int) =~= digits);
    assert(unsigned_part(signed) == digits);
    assert(unsigned_part(digits) == digits);
    assert forall|i: int| 0 <= i < digits.len() implies is_hex_digit(#[trigger] digits[i]) == ({
        let c = digits[i] as int;
        48 <= c <= 57 || 97 <= c <= 102 || 65 <= c <= 70
    }) by {}
    if parsed_hex(digits) is None && digits.len() > 0 && hex_number(digits)
        <= 0xffff_ffff_ffff_ffff {
        let i = choose|i: int| 0 <= i < digits.len() && !is_hex_digit(#[trigger] digits[i]);
        let c = digits[i] as int;
        assert(!(48 <= c <= 57 || 97 <= c <= 102 || 65 <= c <= 70));
    }
    if parsed_hex(digits) is Some {
        assert forall|i: int| 0 <= i < digits.len() implies ({
            let c = #[trigger] digits[i] as int;
            48 <= c <= 57 || 97 <= c <= 102 || 65 <= c <= 70
        }) by {
            assert(is_hex_digit(digits[i]));
        }
    }
}

} // verus!
