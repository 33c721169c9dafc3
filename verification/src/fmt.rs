//! Number and size formatting: decimal and hexadecimal digits, human
//! readable byte sizes and date-time stamps.
use vstd::prelude::*;

use vstd::arithmetic::div_mod::lemma_div_denominator;

use crate::text::push_char;

verus! {

/// The decimal digit of `d` (`d < 10`).
pub open spec fn digit_char(d: nat) -> char {
    (48 + d) as char
}

/// The lower-case hexadecimal digit of `d` (`d < 16`).
pub open spec fn hex_char(d: nat) -> char {
    if d < 10 {
        (48 + d) as char
    } else {
        (87 + d) as char
    }
}

/// The decimal digits of `n`, without leading zeros (`0` for zero).
pub open spec fn decimal(n: nat) -> Seq<char>
    decreases n,
{
    if n < 10 {
        seq![digit_char(n)]
    } else {
        decimal(n / 10).push(digit_char(n % 10))
    }
}

/// The lower-case hexadecimal digits of `n`, without leading zeros.
pub open spec fn hexadecimal(n: nat) -> Seq<char>
    decreases n,
{
    if n < 16 {
        seq![hex_char(n)]
    } else {
        hexadecimal(n / 16).push(hex_char(n % 16))
    }
}

/// Appends the decimal digits of `n` to `s`.
pub fn push_decimal(s: &mut String, n: u64)
    ensures
        final(s)@ == old(s)@ + decimal(n as nat),
{
    let mut digits: Vec<char> = Vec::new();
    let mut m = n;
    if n == 0 {
        digits.push('0');
        assert(digits@ =~= decimal(0));
    }
    while m > 0
        invariant
            n > 0 ==> decimal(n as nat) == (if m == 0 {
                Seq::<char>::empty()
            } else {
                decimal(m as nat)
            }) + digits@,
            n == 0 ==> digits@ == decimal(0),
            n == 0 ==> m == 0,
        decreases m,
    {
        let d = m % 10;
        let c = ((48 + d) as u8) as char;
        let ghost old_digits = digits@;
        digits.insert(0, c);
        assert(digits@ =~= seq![c] + old_digits);
        if m >= 10 {
            assert(decimal(m as nat) == decimal((m / 10) as nat).push(digit_char((m % 10) as nat)));
            assert(decimal((m / 10) as nat).push(c) + old_digits =~= decimal((m / 10) as nat)
                + digits@);
        } else {
            assert(decimal(m as nat) =~= seq![c]);
        }
        m = m / 10;
    }
    let ghost start = s@;
    let mut i: usize = 0;
    while i < digits.len()
        invariant
            i <= digits.len(),
            s@ == start + digits@.take(i as int),
        decreases digits.len() - i,
    {
        push_char(s, digits[i]);
        assert(digits@.take(i + 1) =~= digits@.take(i as int).push(digits@[i as int]));
        i = i + 1;
    }
    assert(digits@.take(digits.len() as int) =~= digits@);
    assert(decimal(n as nat) =~= digits@);
}

/// Appends the lower-case hexadecimal digits of `n` to `s`.
pub fn push_hexadecimal(s: &mut String, n: u64)
    ensures
        final(s)@ == old(s)@ + hexadecimal(n as nat),
{
    let mut digits: Vec<char> = Vec::new();
    let mut m = n;
    if n == 0 {
        digits.push('0');
        assert(digits@ =~= hexadecimal(0));
    }
    while m > 0
        invariant
            n > 0 ==> hexadecimal(n as nat) == (if m == 0 {
                Seq::<char>::empty()
            } else {
                hexadecimal(m as nat)
            }) + digits@,
            n == 0 ==> digits@ == hexadecimal(0),
            n == 0 ==> m == 0,
        decreases m,
    {
        let d = m % 16;
        let c = if d < 10 {
            ((48 + d) as u8) as char
        } else {
            ((87 + d) as u8) as char
        };
        let ghost old_digits = digits@;
        digits.insert(0, c);
        assert(digits@ =~= seq![c] + old_digits);
        if m >= 16 {
            assert(hexadecimal(m as nat) == hexadecimal((m / 16) as nat).push(hex_char((m % 16) as nat)));
            assert(hexadecimal((m / 16) as nat).push(c) + old_digits =~= hexadecimal((m / 16) as nat)
                + digits@);
        } else {
            assert(hexadecimal(m as nat) =~= seq![c]);
        }
        m = m / 16;
    }
    let ghost start = s@;
    let mut i: usize = 0;
    while i < digits.len()
        invariant
            i <= digits.len(),
            s@ == start + digits@.take(i as int),
        decreases digits.len() - i,
    {
        push_char(s, digits[i]);
        assert(digits@.take(i + 1) =~= digits@.take(i as int).push(digits@[i as int]));
        i = i + 1;
    }
    assert(digits@.take(digits.len() as int) =~= digits@);
    assert(hexadecimal(n as nat) =~= digits@);
}

/// The decimal text of `n`.
pub fn decimal_string(n: u64) -> (res: String)
    ensures
        res@ == decimal(n as nat),
{
    let mut s = String::new();
    push_decimal(&mut s, n);
    s
}

/// The lower-case hexadecimal text of `n`.
pub fn hex_string(n: u64) -> (res: String)
    ensures
        res@ == hexadecimal(n as nat),
{
    let mut s = String::new();
    push_hexadecimal(&mut s, n);
    s
}

/// The power of 1024 that selects the unit of a byte count: the number of
/// times it can be divided by 1024 before falling under 1024.
pub open spec fn unit_index(bytes: nat) -> nat
    decreases bytes,
{
    if bytes < 1024 {
        0
    } else {
        1 + unit_index(bytes / 1024)
    }
}

/// `1024` to the power `i`.
pub open spec fn pow1024(i: nat) -> nat
    decreases i,
{
    if i == 0 {
        1
    } else {
        1024 * pow1024((i - 1) as nat)
    }
}

/// `x / p` in hundredths, rounded to the nearest, ties to even.
pub open spec fn hundredths(x: nat, p: nat) -> nat
    recommends
        p > 0,
{
    let q = (x * 100) / p;
    let r = (x * 100) % p;
    if 2 * r > p {
        q + 1
    } else if 2 * r == p {
        q + q % 2
    } else {
        q
    }
}

/// The name of the size unit `i`.
pub open spec fn unit_name(i: nat) -> Seq<char> {
    if i == 0 {
        "Bytes"@
    } else if i == 1 {
        "KB"@
    } else if i == 2 {
        "MB"@
    } else if i == 3 {
        "GB"@
    } else if i == 4 {
        "TB"@
    } else if i == 5 {
        "PB"@
    } else if i == 6 {
        "EB"@
    } else if i == 7 {
        "ZB"@
    } else {
        "YB"@
    }
}

/// A human readable size: `0 Bytes` for zero, else the count in its unit
/// (the largest power of 1024 not above it) with two decimals, a space and
/// the unit's name.
pub open spec fn size_label(bytes: nat) -> Seq<char> {
    if bytes == 0 {
        "0 Bytes"@
    } else {
        let i = unit_index(bytes);
        let h = hundredths(bytes, pow1024(i));
        decimal(h / 100) + seq!['.', digit_char((h % 100) / 10), digit_char(h % 10)] + seq![' ']
            + unit_name(i)
    }
}

proof fn lemma_unit_index_bound(bytes: nat)
    requires
        bytes <= u64::MAX,
    ensures
        unit_index(bytes) <= 6,
{
    reveal_with_fuel(unit_index, 8);
    let b1 = bytes / 1024;
    let b2 = b1 / 1024;
    let b3 = b2 / 1024;
    let b4 = b3 / 1024;
    let b5 = b4 / 1024;
    let b6 = b5 / 1024;
    assert(b6 < 1024);
}

/// The unit of a positive byte count is the largest power of 1024 that is
/// not above it: `1024^i <= bytes < 1024^(i + 1)` for `i = unit_index(bytes)`.
pub proof fn lemma_unit_index(bytes: nat)
    requires
        bytes >= 1,
    ensures
        pow1024(unit_index(bytes)) <= bytes,
        bytes < 1024 * pow1024(unit_index(bytes)),
    decreases bytes,
{
    if bytes >= 1024 {
        let b = bytes / 1024;
        lemma_unit_index(b);
        let p = pow1024(unit_index(b));
        assert(pow1024(unit_index(bytes)) == 1024 * p);
        assert(1024 * p <= bytes && bytes < 1024 * (1024 * p)) by (nonlinear_arith)
            requires
                p <= b,
                b < 1024 * p,
                b == bytes / 1024,
        ;
    }
}

/// Calculates the human readable size label of `bytes` (see
/// [`size_label`]).
pub fn format_bytes(bytes: u64) -> (res: String)
    ensures
        res@ == size_label(bytes as nat),
{
    if bytes == 0 {
        return String::from_str("0 Bytes");
    }
    let mut m = bytes;
    let mut i: u64 = 0;
    let mut p: u64 = 1;
    proof {
        lemma_unit_index_bound(bytes as nat);
    }
    while m >= 1024
        invariant
            m >= 1,
            p >= 1,
            m as nat == bytes as nat / p as nat,
            p as nat == pow1024(i as nat),
            unit_index(bytes as nat) == i + unit_index(m as nat),
            unit_index(bytes as nat) <= 6,
            i <= 6,
            p <= 0x1000_0000_0000_0000,
        decreases m,
    {
        proof {
            lemma_div_denominator(bytes as int, p as int, 1024);
            assert(i < 6);
            assert(p * 1024 <= 0x1000_0000_0000_0000) by {
                assert(i <= 5);
                reveal_with_fuel(pow1024, 7);
                if i == 0 {
                } else if i == 1 {
                } else if i == 2 {
                } else if i == 3 {
                } else if i == 4 {
                } else {
                }
            }
        }
        m = m / 1024;
        i = i + 1;
        p = p * 1024;
    }
    let x: u128 = (bytes as u128) * 100;
    let q: u128 = x / (p as u128);
    let r: u128 = x % (p as u128);
    let h: u128 = if 2 * r > p as u128 {
        q + 1
    } else if 2 * r == p as u128 {
        q + q % 2
    } else {
        q
    };
    assert(h == hundredths(bytes as nat, p as nat));
    assert(h / 100 <= 0xFFFF_FFFF_FFFF_FFFF) by {
        if p == 1 {
            assert(q == x && r == 0) by (nonlinear_arith)
                requires
                    q == x / (p as u128),
                    r == x % (p as u128),
                    p == 1,
            ;
        } else {
            assert(p >= 1024);
            assert(q <= x / 1024) by (nonlinear_arith)
                requires
                    q == x / (p as u128),
                    p >= 1024,
            ;
            assert(x / 1024 + 1 <= x / 100 + 1);
        }
    }
    let whole: u64 = (h / 100) as u64;
    let frac: u64 = (h % 100) as u64;
    let mut res = decimal_string(whole);
    push_char(&mut res, '.');
    push_char(&mut res, ((48 + frac / 10) as u8) as char);
    push_char(&mut res, ((48 + frac % 10) as u8) as char);
    push_char(&mut res, ' ');
    let unit = if i == 0 {
        "Bytes"
    } else if i == 1 {
        "KB"
    } else if i == 2 {
        "MB"
    } else if i == 3 {
        "GB"
    } else if i == 4 {
        "TB"
    } else if i == 5 {
        "PB"
    } else {
        "EB"
    };
    res.append(unit);
    assert(h % 100 % 10 == h % 10);
    res
}

/// The decimal text of a signed number.
pub open spec fn signed_decimal(n: int) -> Seq<char> {
    if n < 0 {
        seq!['-'] + decimal((-n) as nat)
    } else {
        decimal(n as nat)
    }
}

/// The decimal text of `n`, padded with `0` on the left to two characters.
pub open spec fn padded2(n: nat) -> Seq<char> {
    if n < 10 {
        seq!['0'] + decimal(n)
    } else {
        decimal(n)
    }
}

/// The `YYYY/MM/DD HH:MM:SS` text of a date and time.
pub open spec fn date_time_label(
    year: int,
    month: nat,
    day: nat,
    hour: nat,
    minute: nat,
    second: nat,
) -> Seq<char> {
    signed_decimal(year) + seq!['/'] + padded2(month) + seq!['/'] + padded2(day) + seq![' ']
        + padded2(hour) + seq![':'] + padded2(minute) + seq![':'] + padded2(second)
}

fn push_padded2(s: &mut String, n: u32)
    ensures
        final(s)@ == old(s)@ + padded2(n as nat),
{
    if n < 10 {
        push_char(s, '0');
    }
    push_decimal(s, n as u64);
    proof {
        if n < 10 {
            assert(final(s)@ =~= old(s)@ + padded2(n as nat)) by {
                assert(seq!['0'] + decimal(n as nat) == padded2(n as nat));
            }
        }
    }
}

/// Formats a date and time as `YYYY/MM/DD HH:MM:SS` (see
/// [`date_time_label`]).
pub fn format_date_time(year: i32, month: u32, day: u32, hour: u32, minute: u32, second: u32) -> (res: String)
    ensures
        res@ == date_time_label(
            year as int,
            month as nat,
            day as nat,
            hour as nat,
            minute as nat,
            second as nat,
        ),
{
    let mut res = String::new();
    if year < 0 {
        push_char(&mut res, '-');
        let magnitude: u64 = (-(year as i64)) as u64;
        push_decimal(&mut res, magnitude);
    } else {
        push_decimal(&mut res, year as u64);
    }
    assert(res@ =~= signed_decimal(year as int));
    push_char(&mut res, '/');
    push_padded2(&mut res, month);
    push_char(&mut res, '/');
    push_padded2(&mut res, day);
    push_char(&mut res, ' ');
    push_padded2(&mut res, hour);
    push_char(&mut res, ':');
    push_padded2(&mut res, minute);
    push_char(&mut res, ':');
    push_padded2(&mut res, second);
    assert(res@ =~= date_time_label(
        year as int,
        month as nat,
        day as nat,
        hour as nat,
        minute as nat,
        second as nat,
    ));
    res
}

} // verus!
