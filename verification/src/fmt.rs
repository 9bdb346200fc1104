//! Rendering of the plain values the library prints and persists: decimal
//! integers, prices in cents as fixed two-decimal amounts, and identifiers
//! in the usual hyphenated hexadecimal form. Each spec function is the text
//! itself; the exec functions return exactly it.

use vstd::prelude::*;

use crate::ext;

verus! {

/// The character for one decimal digit.
pub open spec fn digit_char(d: int) -> char {
    if d == 0 { '0' }
    else if d == 1 { '1' }
    else if d == 2 { '2' }
    else if d == 3 { '3' }
    else if d == 4 { '4' }
    else if d == 5 { '5' }
    else if d == 6 { '6' }
    else if d == 7 { '7' }
    else if d == 8 { '8' }
    else { '9' }
}

/// The numeric value of a decimal digit character, or -1 for any other
/// character.
pub open spec fn digit_val(c: char) -> int {
    if c == '0' { 0 }
    else if c == '1' { 1 }
    else if c == '2' { 2 }
    else if c == '3' { 3 }
    else if c == '4' { 4 }
    else if c == '5' { 5 }
    else if c == '6' { 6 }
    else if c == '7' { 7 }
    else if c == '8' { 8 }
    else if c == '9' { 9 }
    else { -1 }
}

pub open spec fn is_digit(c: char) -> bool {
    digit_val(c) >= 0
}

/// The usual decimal rendering of a non-negative integer, no leading zeros
/// except for zero itself.
pub open spec fn dec_digits(n: nat) -> Seq<char>
    decreases n,
{
    if n < 10 {
        seq![digit_char(n as int)]
    } else {
        dec_digits(n / 10).push(digit_char((n % 10) as int))
    }
}

/// The decimal rendering of a signed integer.
pub open spec fn dec_int(n: int) -> Seq<char> {
    if n < 0 {
        seq!['-'] + dec_digits((-n) as nat)
    } else {
        dec_digits(n as nat)
    }
}

/// An amount of cents as dollars with exactly two decimal places: 1000
/// becomes `10.00`.
pub open spec fn cents_str(c: nat) -> Seq<char> {
    dec_digits(c / 100) + seq!['.', digit_char(((c / 10) % 10) as int), digit_char((c % 100 % 10) as int)]
}

/// The numeric value read off a sequence of decimal digit characters.
pub open spec fn val_digits(s: Seq<char>) -> int
    decreases s.len(),
{
    if s.len() == 0 {
        0
    } else {
        val_digits(s.drop_last()) * 10 + digit_val(s.last())
    }
}

/// Every character of a decimal rendering is a digit.
pub proof fn lemma_dec_digits_are_digits(n: nat)
    ensures
        forall|i: int| 0 <= i < dec_digits(n).len() ==> is_digit(#[trigger] dec_digits(n)[i]),
    decreases n,
{
    if n >= 10 {
        lemma_dec_digits_are_digits(n / 10);
        assert forall|i: int| 0 <= i < dec_digits(n).len() implies is_digit(
            #[trigger] dec_digits(n)[i],
        ) by {
            if i < dec_digits(n).len() - 1 {
                assert(dec_digits(n)[i] == dec_digits(n / 10)[i]);
            }
        }
    }
}

/// Reading the decimal rendering back gives the number.
pub proof fn lemma_val_dec_digits(n: nat)
    ensures
        val_digits(dec_digits(n)) == n,
    decreases n,
{
    if n < 10 {
        let s = dec_digits(n);
        assert(s.len() == 1);
        assert(s.drop_last() =~= Seq::<char>::empty());
        assert(val_digits(s.drop_last()) == 0);
        assert(s.last() == digit_char(n as int));
        assert(digit_val(digit_char(n as int)) == n);
        assert(val_digits(s) == val_digits(s.drop_last()) * 10 + digit_val(s.last()));
    } else {
        lemma_val_dec_digits(n / 10);
        let s = dec_digits(n);
        assert(s == dec_digits(n / 10).push(digit_char((n % 10) as int)));
        assert(s.len() == dec_digits(n / 10).len() + 1);
        assert(s.drop_last() =~= dec_digits(n / 10));
        assert(s.last() == digit_char((n % 10) as int));
        assert(digit_val(digit_char((n % 10) as int)) == n % 10);
        assert(val_digits(s) == val_digits(s.drop_last()) * 10 + digit_val(s.last()));
        vstd::arithmetic::div_mod::lemma_fundamental_div_mod(n as int, 10);
    }
}

/// The value of any prefix of a decimal rendering never exceeds the number
/// itself: what a left-to-right reader has accumulated so far fits wherever
/// the full number fits.
pub proof fn lemma_val_dec_prefix(n: nat, k: int)
    requires
        0 <= k <= dec_digits(n).len(),
    ensures
        0 <= val_digits(dec_digits(n).take(k)) <= n,
    decreases n,
{
    if k == dec_digits(n).len() {
        lemma_val_dec_digits(n);
        assert(dec_digits(n).take(k) =~= dec_digits(n));
    } else if k == 0 {
        assert(dec_digits(n).take(0) =~= Seq::<char>::empty());
    } else {
        assert(n >= 10);
        lemma_val_dec_prefix(n / 10, k);
        assert(dec_digits(n).take(k) =~= dec_digits(n / 10).take(k));
    }
}

/// The character for one hexadecimal digit, lower case.
pub open spec fn hex_char(d: int) -> char {
    if d < 10 { digit_char(d) }
    else if d == 10 { 'a' }
    else if d == 11 { 'b' }
    else if d == 12 { 'c' }
    else if d == 13 { 'd' }
    else if d == 14 { 'e' }
    else { 'f' }
}

/// The numeric value of a lower-case hexadecimal digit character, or -1.
pub open spec fn hex_val(c: char) -> int {
    if c == 'a' { 10 }
    else if c == 'b' { 11 }
    else if c == 'c' { 12 }
    else if c == 'd' { 13 }
    else if c == 'e' { 14 }
    else if c == 'f' { 15 }
    else { digit_val(c) }
}

/// 16 raised to a power.
pub open spec fn pow16(e: nat) -> nat
    decreases e,
{
    if e == 0 {
        1
    } else {
        16 * pow16((e - 1) as nat)
    }
}

/// The fixed-width hexadecimal rendering of `n`, `w` digits, leading zeros
/// kept.
pub open spec fn hex_w(n: nat, w: nat) -> Seq<char>
    decreases w,
{
    if w == 0 {
        Seq::empty()
    } else {
        hex_w(n / 16, (w - 1) as nat).push(hex_char((n % 16) as int))
    }
}

/// The numeric value read off a sequence of hexadecimal digit characters.
pub open spec fn val_hex(s: Seq<char>) -> int
    decreases s.len(),
{
    if s.len() == 0 {
        0
    } else {
        val_hex(s.drop_last()) * 16 + hex_val(s.last())
    }
}

pub proof fn lemma_hex_w_len(n: nat, w: nat)
    ensures
        hex_w(n, w).len() == w,
    decreases w,
{
    if w > 0 {
        lemma_hex_w_len(n / 16, (w - 1) as nat);
    }
}

/// Every character of a fixed-width hexadecimal rendering is a hex digit.
pub proof fn lemma_hex_w_are_hex(n: nat, w: nat)
    ensures
        forall|i: int| 0 <= i < hex_w(n, w).len() ==> hex_val(#[trigger] hex_w(n, w)[i]) >= 0,
    decreases w,
{
    if w > 0 {
        lemma_hex_w_are_hex(n / 16, (w - 1) as nat);
        lemma_hex_w_len(n / 16, (w - 1) as nat);
        assert forall|i: int| 0 <= i < hex_w(n, w).len() implies hex_val(
            #[trigger] hex_w(n, w)[i],
        ) >= 0 by {
            if i < hex_w(n, w).len() - 1 {
                assert(hex_w(n, w)[i] == hex_w(n / 16, (w - 1) as nat)[i]);
            }
        }
    }
}

/// Reading a fixed-width hexadecimal rendering back gives the number, as
/// long as the number fits in the width.
pub proof fn lemma_val_hex_w(n: nat, w: nat)
    requires
        n < pow16(w),
    ensures
        val_hex(hex_w(n, w)) == n,
    decreases w,
{
    if w == 0 {
        assert(pow16(0) == 1);
    } else {
        lemma_hex_w_len(n / 16, (w - 1) as nat);
        assert(hex_w(n, w).drop_last() =~= hex_w(n / 16, (w - 1) as nat));
        assert(n / 16 < pow16((w - 1) as nat)) by {
            assert(pow16(w) == 16 * pow16((w - 1) as nat));
            assert(n < 16 * pow16((w - 1) as nat));
        }
        lemma_val_hex_w(n / 16, (w - 1) as nat);
        vstd::arithmetic::div_mod::lemma_fundamental_div_mod(n as int, 16);
    }
}

/// Splitting a fixed-width hexadecimal rendering: the left `a` digits render
/// the high part, the right `b` digits the low part.
pub proof fn lemma_hex_w_split(n: nat, a: nat, b: nat)
    ensures
        hex_w(n, a + b) =~= hex_w(n / pow16(b), a) + hex_w(n % pow16(b), b),
    decreases b,
{
    if b == 0 {
        assert(pow16(0) == 1);
        assert(n / 1 == n) by (nonlinear_arith);
        assert(n % 1 == 0) by (nonlinear_arith);
        assert(hex_w(0nat, 0nat) =~= Seq::<char>::empty());
    } else {
        let b1 = (b - 1) as nat;
        let p = pow16(b);
        let p1 = pow16(b1);
        assert(p == 16 * p1);
        assert(p1 > 0) by { lemma_pow16_pos(b1) };
        vstd::arithmetic::div_mod::lemma_mod_breakdown(n as int, 16, p1 as int);
        assert(n % p == 16 * ((n / 16) % p1) + n % 16);
        vstd::arithmetic::div_mod::lemma_fundamental_div_mod_converse(
            (n % p) as int, 16, ((n / 16) % p1) as int, (n % 16) as int);
        assert((n % p) / 16 == (n / 16) % p1);
        assert((n % p) % 16 == n % 16);
        vstd::arithmetic::div_mod::lemma_div_denominator(n as int, 16, p1 as int);
        assert((n / 16) / p1 == n / p);
        lemma_hex_w_split(n / 16, a, b1);
        assert(hex_w(n, (a + b) as nat) == hex_w(n / 16, (a + b1) as nat).push(
            hex_char((n % 16) as int)));
        assert(hex_w(n % p, b) == hex_w((n % p) / 16, b1).push(hex_char(((n % p) % 16) as int)));
        lemma_hex_w_len(n / p, a);
        lemma_hex_w_len((n % p) / 16, b1);
    }
}

pub proof fn lemma_pow16_pos(e: nat)
    ensures
        pow16(e) >= 1,
    decreases e,
{
    if e > 0 {
        lemma_pow16_pos((e - 1) as nat);
    }
}

pub proof fn lemma_pow16_add(a: nat, b: nat)
    ensures
        pow16(a + b) == pow16(a) * pow16(b),
    decreases a,
{
    if a == 0 {
        assert(pow16(b) == 1 * pow16(b)) by (nonlinear_arith);
    } else {
        lemma_pow16_add((a - 1) as nat, b);
        assert((a + b) >= 1);
        assert(pow16(a + b) == 16 * pow16((a - 1) as nat + b));
        assert(16 * (pow16((a - 1) as nat) * pow16(b)) == (16 * pow16((a - 1) as nat)) * pow16(
            b)) by (nonlinear_arith);
    }
}

pub proof fn lemma_pow16_mono(a: nat, b: nat)
    requires
        a <= b,
    ensures
        pow16(a) <= pow16(b),
{
    lemma_pow16_add(a, (b - a) as nat);
    lemma_pow16_pos((b - a) as nat);
    lemma_pow16_pos(a);
    assert(pow16(a) * pow16((b - a) as nat) >= pow16(a) * 1) by (nonlinear_arith)
        requires pow16((b - a) as nat) >= 1, pow16(a) >= 1;
}

/// The concrete powers of 16 the identifier codec computes with.
pub proof fn lemma_pow16_consts()
    ensures
        pow16(4) == 0x10000,
        pow16(8) == 0x100000000,
        pow16(12) == 0x1000000000000,
        pow16(16) == 0x10000000000000000,
        pow16(20) == 0x100000000000000000000,
        pow16(24) == 0x1000000000000000000000000,
        pow16(32) == 0x100000000000000000000000000000000,
{
    assert(pow16(4) == 0x10000 && pow16(8) == 0x100000000 && pow16(12) == 0x1000000000000) by {
        reveal_with_fuel(pow16, 13);
    }
    lemma_pow16_add(12, 4);
    lemma_pow16_add(16, 4);
    lemma_pow16_add(20, 4);
    lemma_pow16_add(24, 8);
}

/// The hyphenated hexadecimal rendering of a 128-bit identifier: 32 hex
/// digits in groups of 8, 4, 4, 4 and 12.
pub open spec fn uuid_str(n: u128) -> Seq<char> {
    let h = hex_w(n as nat, 32);
    h.subrange(0, 8) + seq!['-'] + h.subrange(8, 12) + seq!['-'] + h.subrange(12, 16)
        + seq!['-'] + h.subrange(16, 20) + seq!['-'] + h.subrange(20, 32)
}

fn digit_str(d: u8) -> (r: &'static str)
    requires
        d < 10,
    ensures
        r@ =~= seq![digit_char(d as int)],
{
    proof {
        reveal_strlit("0");
        reveal_strlit("1");
        reveal_strlit("2");
        reveal_strlit("3");
        reveal_strlit("4");
        reveal_strlit("5");
        reveal_strlit("6");
        reveal_strlit("7");
        reveal_strlit("8");
        reveal_strlit("9");
    }
    match d {
        0 => "0",
        1 => "1",
        2 => "2",
        3 => "3",
        4 => "4",
        5 => "5",
        6 => "6",
        7 => "7",
        8 => "8",
        _ => "9",
    }
}

fn hex_str(d: u8) -> (r: &'static str)
    requires
        d < 16,
    ensures
        r@ =~= seq![hex_char(d as int)],
{
    if d < 10 {
        digit_str(d)
    } else {
        proof {
            reveal_strlit("a");
            reveal_strlit("b");
            reveal_strlit("c");
            reveal_strlit("d");
            reveal_strlit("e");
            reveal_strlit("f");
        }
        match d {
            10 => "a",
            11 => "b",
            12 => "c",
            13 => "d",
            14 => "e",
            _ => "f",
        }
    }
}

/// The decimal rendering of an unsigned 64-bit number.
pub fn fmt_u64(n: u64) -> (r: String)
    ensures
        r@ == dec_digits(n as nat),
    decreases n,
{
    if n < 10 {
        String::from_str(digit_str(n as u8))
    } else {
        let mut s = fmt_u64(n / 10);
        s.append(digit_str((n % 10) as u8));
        proof {
            assert(s@ =~= dec_digits(n as nat));
        }
        s
    }
}

/// The decimal rendering of an unsigned 128-bit number.
pub fn fmt_u128(n: u128) -> (r: String)
    ensures
        r@ == dec_digits(n as nat),
    decreases n,
{
    if n < 10 {
        String::from_str(digit_str(n as u8))
    } else {
        let mut s = fmt_u128(n / 10);
        s.append(digit_str((n % 10) as u8));
        proof {
            assert(s@ =~= dec_digits(n as nat));
        }
        s
    }
}

/// The decimal rendering of a signed 32-bit number.
pub fn fmt_i32(n: i32) -> (r: String)
    ensures
        r@ == dec_int(n as int),
{
    if n < 0 {
        let m = -(n as i64);
        let mut s = String::from_str("-");
        let ds = fmt_u64(m as u64);
        s.append(ds.as_str());
        proof {
            reveal_strlit("-");
            assert(s@ =~= dec_int(n as int));
        }
        s
    } else {
        fmt_u64(n as u64)
    }
}

/// An amount of cents rendered as dollars with two decimal places.
pub fn fmt_cents(c: u64) -> (r: String)
    ensures
        r@ == cents_str(c as nat),
{
    let mut s = fmt_u64(c / 100);
    s.append(".");
    s.append(digit_str(((c / 10) % 10) as u8));
    s.append(digit_str((c % 100 % 10) as u8));
    proof {
        reveal_strlit(".");
        assert(s@ =~= cents_str(c as nat));
    }
    s
}

/// An amount of cents held in 128 bits, rendered the same way.
pub fn fmt_cents_u128(c: u128) -> (r: String)
    ensures
        r@ == cents_str(c as nat),
{
    let mut s = fmt_u128(c / 100);
    s.append(".");
    s.append(digit_str(((c / 10) % 10) as u8));
    s.append(digit_str((c % 100 % 10) as u8));
    proof {
        reveal_strlit(".");
        assert(s@ =~= cents_str(c as nat));
    }
    s
}

fn fmt_hex_fixed(n: u128, w: u32) -> (r: String)
    requires
        w <= 32,
    ensures
        r@ == hex_w(n as nat, w as nat),
    decreases w,
{
    if w == 0 {
        String::new()
    } else {
        let mut s = fmt_hex_fixed(n / 16, w - 1);
        s.append(hex_str((n % 16) as u8));
        proof {
            assert(s@ =~= hex_w(n as nat, w as nat));
        }
        s
    }
}

/// The hyphenated identifier rendering, as `uuid_str` states it.
pub fn fmt_uuid(n: u128) -> (r: String)
    ensures
        r@ == uuid_str(n),
{
    let h = fmt_hex_fixed(n, 32);
    proof {
        lemma_hex_w_len(n as nat, 32);
    }
    let hs = h.as_str();
    let mut s = String::from_str(hs.substring_char(0, 8));
    s.append("-");
    s.append(hs.substring_char(8, 12));
    s.append("-");
    s.append(hs.substring_char(12, 16));
    s.append("-");
    s.append(hs.substring_char(16, 20));
    s.append("-");
    s.append(hs.substring_char(20, 32));
    proof {
        reveal_strlit("-");
        assert(("-"@) =~= seq!['-']);
        assert(s@ =~= uuid_str(n));
    }
    s
}

} // verus!
