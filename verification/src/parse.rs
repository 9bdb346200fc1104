//! Readers for the canonical JSON documents of `codec`. Each reader carries,
//! besides plain in-bounds facts, an inversion contract: wherever the text
//! holds exactly what the writer produces for a value, the reader returns
//! that value and stops right after it. That is what makes save-then-load a
//! proved round trip. On any other text a reader may simply give up, which
//! the load path treats as a corrupt file.

use vstd::prelude::*;

use crate::codec::{
    esc, esc_char, joined_upto, json_str, product_entry, product_json, products_json, role_json,
    tx_json, tx_type_json, txs_json, user_entry, user_json, users_json,
};
use crate::ext;
use crate::models::{
    Product, ProductView, Transaction, TransactionType, TransactionView, User, UserRole, UserView,
};
use crate::fmt::{
    cents_str, dec_digits, dec_int, digit_val, hex_val, hex_w, is_digit, lemma_dec_digits_are_digits,
    lemma_val_dec_digits, lemma_val_dec_prefix, lemma_hex_w_are_hex, lemma_hex_w_len,
    lemma_val_hex_w, pow16, uuid_str,
};

verus! {

/// The text `t` stands in `s` beginning at position `i`.
pub open spec fn matches_at(s: Seq<char>, i: int, t: Seq<char>) -> bool {
    0 <= i && i + t.len() <= s.len() && s.subrange(i, i + t.len()) == t
}

/// A match of a concatenation is a match of each part in place.
pub proof fn lemma_matches_concat(s: Seq<char>, i: int, a: Seq<char>, b: Seq<char>)
    requires
        matches_at(s, i, a + b),
    ensures
        matches_at(s, i, a),
        matches_at(s, i + a.len(), b),
{
    let ab = a + b;
    assert forall|q: int| 0 <= q < ab.len() implies s[i + q] == ab[q] by {
        assert(s.subrange(i, i + ab.len())[q] == s[i + q]);
    }
    assert(s.subrange(i, i + a.len()) =~= a);
    assert forall|q: int| 0 <= q < b.len() implies s[i + a.len() + q] == b[q] by {
        assert(s[i + (a.len() + q)] == ab[a.len() + q]);
    }
    assert(s.subrange(i + a.len(), i + a.len() + b.len()) =~= b);
}

/// A match gives every character in place.
pub proof fn lemma_matches_index(s: Seq<char>, i: int, t: Seq<char>, q: int)
    requires
        matches_at(s, i, t),
        0 <= q < t.len(),
    ensures
        s[i + q] == t[q],
{
    assert(s.subrange(i, i + t.len())[q] == s[i + q]);
}

/// A match of a whole gives a match of any of its slices, in place.
pub proof fn lemma_matches_sub(s: Seq<char>, base: int, whole: Seq<char>, a: int, b: int)
    requires
        matches_at(s, base, whole),
        0 <= a <= b <= whole.len(),
    ensures
        matches_at(s, base + a, whole.subrange(a, b)),
{
    assert forall|q: int| 0 <= q < whole.len() implies s[base + q] == whole[q] by {
        assert(s.subrange(base, base + whole.len())[q] == s[base + q]);
    }
    assert(s.subrange(base + a, base + b) =~= whole.subrange(a, b));
}

/// Reads exactly the given literal: succeeds, consuming it, exactly when it
/// stands at `i`.
#[verifier::loop_isolation(false)]
pub(crate) fn parse_exact(s: &str, n: usize, i: usize, lit: &str) -> (r: Option<usize>)
    requires
        n == s@.len(),
        i <= n,
    ensures
        (r matches Some(j) ==> i <= j <= n && j == i + lit@.len() && matches_at(
            s@, i as int, lit@)),
        matches_at(s@, i as int, lit@) ==> r is Some,
{
    let m = lit.unicode_len();
    if m > n - i {
        return None;
    }
    let mut k: usize = 0;
    while k < m
        invariant
            k <= m,
            forall|q: int| 0 <= q < k ==> s@[i + q] == lit@[q],
        decreases m - k,
    {
        let a = s.get_char(i + k);
        let b = lit.get_char(k);
        if a != b {
            proof {
                if matches_at(s@, i as int, lit@) {
                    lemma_matches_index(s@, i as int, lit@, k as int);
                }
            }
            return None;
        }
        k += 1;
    }
    proof {
        assert(s@.subrange(i as int, i as int + m as int) =~= lit@);
    }
    Some(i + m)
}

fn digit_of(c: char) -> (r: Option<u8>)
    ensures
        (r matches Some(d) ==> digit_val(c) == d as int && d < 10),
        r is None ==> digit_val(c) < 0,
{
    match c {
        '0' => Some(0),
        '1' => Some(1),
        '2' => Some(2),
        '3' => Some(3),
        '4' => Some(4),
        '5' => Some(5),
        '6' => Some(6),
        '7' => Some(7),
        '8' => Some(8),
        '9' => Some(9),
        _ => None,
    }
}

/// Reads a run of decimal digits as an unsigned number. Wherever the text at
/// `i` is the canonical rendering of the expected value followed by the end
/// of the text or a non-digit, the expected value comes back, ending right
/// after its digits.
#[verifier::loop_isolation(false)]
pub(crate) fn parse_u64_digits(s: &str, n: usize, i: usize, expected: Ghost<u64>) -> (r: Option<
    (u64, usize),
>)
    requires
        n == s@.len(),
        i <= n,
    ensures
        (r matches Some(p) ==> i < p.1 <= n),
        (matches_at(s@, i as int, dec_digits(expected@ as nat)) && (i + dec_digits(
            expected@ as nat).len() == n || !is_digit(
            s@[i as int + dec_digits(expected@ as nat).len()]))) ==> (r matches Some(p) && p.0
            == expected@ && p.1 == i + dec_digits(expected@ as nat).len()),
{
    let ghost t = expected@ as nat;
    let ghost digs = dec_digits(t);
    let ghost hyp = matches_at(s@, i as int, digs) && (i + digs.len() == n || !is_digit(
        s@[i as int + digs.len()]));
    proof {
        lemma_dec_digits_are_digits(t);
        lemma_val_dec_digits(t);
    }
    let mut acc: u64 = 0;
    let mut j = i;
    let mut done = false;
    while !done
        invariant
            i <= j <= n,
            hyp ==> j - i <= digs.len() && acc as int == crate::fmt::val_digits(
                digs.take(j - i)),
            done ==> (hyp ==> j == i + digs.len() && acc == expected@),
        decreases n - j, (if done { 0int } else { 1 }),
    {
        if j >= n {
            proof {
                if hyp && j - i < digs.len() {
                    assert(i + digs.len() <= n);
                }
                if hyp {
                    assert(j - i == digs.len());
                    assert(digs.take(j - i) =~= digs);
                }
            }
            done = true;
        } else {
            let c = s.get_char(j);
            match digit_of(c) {
                None => {
                    proof {
                        if hyp {
                            if j - i < digs.len() {
                                lemma_matches_index(s@, i as int, digs, j - i);
                                assert(is_digit(digs[j - i]));
                            } else {
                                assert(digs.take(j - i) =~= digs);
                            }
                        }
                    }
                    done = true;
                },
                Some(d) => {
                    proof {
                        if hyp {
                            if j - i >= digs.len() {
                                assert(!is_digit(s@[i as int + digs.len()]));
                                assert(digit_val(c) >= 0);
                            }
                            assert(j - i < digs.len());
                            lemma_matches_index(s@, i as int, digs, j - i);
                            assert(c == digs[j - i]);
                            assert(digs.take(j - i + 1).drop_last() =~= digs.take(j - i));
                            assert(digs.take(j - i + 1).last() == digs[j - i]);
                            lemma_val_dec_prefix(t, j - i + 1);
                            assert(crate::fmt::val_digits(digs.take(j - i + 1)) == acc as int * 10
                                + d);
                        }
                    }
                    if acc > (u64::MAX - d as u64) / 10 {
                        proof {
                            assert(hyp ==> false) by {
                                if hyp {
                                    assert(acc as int * 10 + d <= t);
                                }
                            }
                        }
                        return None;
                    }
                    acc = acc * 10 + d as u64;
                    j += 1;
                },
            }
        }
    }
    if j == i {
        proof {
            if hyp {
                assert(digs.len() > 0);
            }
        }
        return None;
    }
    Some((acc, j))
}

/// Reads a canonical two-decimal amount back into cents.
#[verifier::loop_isolation(false)]
pub(crate) fn parse_cents(s: &str, n: usize, i: usize, expected: Ghost<u64>) -> (r: Option<
    (u64, usize),
>)
    requires
        n == s@.len(),
        i <= n,
    ensures
        (r matches Some(p) ==> i < p.1 <= n),
        matches_at(s@, i as int, cents_str(expected@ as nat)) ==> (r matches Some(p) && p.0
            == expected@ && p.1 == i + cents_str(expected@ as nat).len()),
{
    let ghost t = expected@ as nat;
    let ghost cs = cents_str(t);
    let ghost dollars = dec_digits(t / 100);
    let ghost frac = seq!['.', crate::fmt::digit_char(((t / 10) % 10) as int),
        crate::fmt::digit_char((t % 100 % 10) as int)];
    let ghost hyp = matches_at(s@, i as int, cs);
    proof {
        if hyp {
            assert(cs == dollars + frac);
            lemma_matches_concat(s@, i as int, dollars, frac);
            lemma_matches_index(s@, i as int + dollars.len(), frac, 0);
            lemma_matches_index(s@, i as int + dollars.len(), frac, 1);
            lemma_matches_index(s@, i as int + dollars.len(), frac, 2);
            assert(!is_digit(s@[i as int + dollars.len()]));
        }
    }
    let (d, j) = match parse_u64_digits(s, n, i, Ghost((expected@ / 100) as u64)) {
        Some(p) => p,
        None => {
            return None;
        },
    };
    proof {
        if hyp {
            assert(d == t / 100 && j == i + dollars.len());
        }
    }
    if j >= n {
        return None;
    }
    let c = s.get_char(j);
    if c != '.' {
        return None;
    }
    if n - j < 3 {
        proof {
            if hyp {
                assert(i + cs.len() <= n);
            }
        }
        return None;
    }
    let d1 = match digit_of(s.get_char(j + 1)) {
        Some(x) => x,
        None => {
            return None;
        },
    };
    let d0 = match digit_of(s.get_char(j + 2)) {
        Some(x) => x,
        None => {
            return None;
        },
    };
    let rem: u64 = (d1 as u64) * 10 + (d0 as u64);
    proof {
        if hyp {
            assert(d1 as int == (t / 10) % 10);
            assert(d0 as int == t % 100 % 10);
            vstd::arithmetic::div_mod::lemma_mod_breakdown(t as int, 10, 10);
            vstd::arithmetic::div_mod::lemma_fundamental_div_mod(t as int, 100);
            vstd::arithmetic::div_mod::lemma_fundamental_div_mod((t % 100) as int, 10);
            assert((t % 100) % 10 == t % 10);
            assert(d as int * 100 + rem == t);
        }
    }
    if d > (u64::MAX - rem) / 100 {
        proof {
            assert(hyp ==> false) by {
                if hyp {
                    assert(d as int * 100 + rem <= u64::MAX);
                }
            }
        }
        return None;
    }
    Some((d * 100 + rem, j + 3))
}

/// Reads a canonical signed decimal, with the same terminator condition as
/// the unsigned reader.
#[verifier::loop_isolation(false)]
pub(crate) fn parse_i32(s: &str, n: usize, i: usize, expected: Ghost<i32>) -> (r: Option<
    (i32, usize),
>)
    requires
        n == s@.len(),
        i <= n,
    ensures
        (r matches Some(p) ==> i < p.1 <= n),
        (matches_at(s@, i as int, dec_int(expected@ as int)) && (i + dec_int(
            expected@ as int).len() == n || !is_digit(
            s@[i as int + dec_int(expected@ as int).len()]))) ==> (r matches Some(p) && p.0
            == expected@ && p.1 == i + dec_int(expected@ as int).len()),
{
    let ghost t = expected@ as int;
    let ghost enc = dec_int(t);
    let ghost hyp = matches_at(s@, i as int, enc) && (i + enc.len() == n || !is_digit(
        s@[i as int + enc.len()]));
    if i < n && s.get_char(i) == '-' {
        proof {
            if hyp && t >= 0 {
                lemma_dec_digits_are_digits(t as nat);
                lemma_matches_index(s@, i as int, enc, 0);
            }
            if hyp && t < 0 {
                assert(enc == seq!['-'] + dec_digits((-t) as nat));
                lemma_matches_concat(s@, i as int, seq!['-'], dec_digits((-t) as nat));
            }
        }
        let ghost neg = if t < 0 { (-t) as u64 } else { 0u64 };
        let (v, j) = match parse_u64_digits(s, n, i + 1, Ghost(neg)) {
            Some(p) => p,
            None => {
                return None;
            },
        };
        if v > 0x8000_0000u64 {
            proof {
                if hyp {
                    assert(t < 0);
                    assert(v == (-t) as u64);
                }
            }
            return None;
        }
        let w: i64 = -(v as i64);
        proof {
            if hyp {
                assert(t < 0);
                assert(w as int == t);
            }
        }
        if w < i32::MIN as i64 {
            return None;
        }
        Some((w as i32, j))
    } else {
        proof {
            if hyp && t < 0 {
                assert(enc == seq!['-'] + dec_digits((-t) as nat));
                lemma_matches_concat(s@, i as int, seq!['-'], dec_digits((-t) as nat));
                lemma_matches_index(s@, i as int, seq!['-'], 0);
                assert(i < n);
            }
        }
        let ghost pos = if t >= 0 { expected@ as u64 } else { 0u64 };
        let (v, j) = match parse_u64_digits(s, n, i, Ghost(pos)) {
            Some(p) => p,
            None => {
                return None;
            },
        };
        if v > i32::MAX as u64 {
            proof {
                if hyp {
                    assert(t >= 0);
                }
            }
            return None;
        }
        Some((v as i32, j))
    }
}

/// Reads a quoted JSON string back into its text.
#[verifier::loop_isolation(false)]
pub(crate) fn parse_json_string(s: &str, n: usize, i: usize, expected: Ghost<Seq<char>>) -> (r:
    Option<(String, usize)>)
    requires
        n == s@.len(),
        i <= n,
    ensures
        (r matches Some(p) ==> i < p.1 <= n),
        matches_at(s@, i as int, json_str(expected@)) ==> (r matches Some(p) && p.0@ == expected@
            && p.1 == i + json_str(expected@).len()),
{
    let ghost t = expected@;
    let ghost hyp = matches_at(s@, i as int, json_str(t));
    proof {
        if hyp {
            lemma_matches_index(s@, i as int, json_str(t), 0);
        }
    }
    if i >= n {
        return None;
    }
    if s.get_char(i) != '"' {
        return None;
    }
    let mut out = String::new();
    let mut j = i + 1;
    loop
        invariant
            i + 1 <= j <= n,
            hyp ==> out@.len() <= t.len() && out@ == t.take(out@.len() as int) && j == i + 1
                + esc(out@).len(),
        decreases n - j,
    {
        let ghost m = out@.len() as int;
        proof {
            if hyp {
                crate::codec::lemma_esc_concat(t.take(m), t.skip(m));
                assert(t.take(m) + t.skip(m) =~= t);
                assert(esc(t) == esc(t.take(m)) + esc(t.skip(m)));
                if m < t.len() {
                    assert(t.skip(m) =~= seq![t[m]] + t.skip(m + 1));
                    crate::codec::lemma_esc_concat(seq![t[m]], t.skip(m + 1));
                    assert(seq![t[m]].len() == 1);
                    assert(seq![t[m]].last() == t[m]);
                    assert(seq![t[m]].drop_last() =~= Seq::<char>::empty());
                    assert(esc(seq![t[m]]) == esc(seq![t[m]].drop_last()) + esc_char(t[m]));
                    assert(esc(Seq::<char>::empty()) =~= Seq::<char>::empty());
                    assert(esc(seq![t[m]]) =~= esc_char(t[m]));
                    assert(esc(t.skip(m)) == esc_char(t[m]) + esc(t.skip(m + 1)));
                    lemma_matches_index(s@, i as int, json_str(t), 1 + esc(t.take(m)).len() as int);
                    assert(json_str(t)[1 + esc(t.take(m)).len() as int] == esc_char(t[m])[0]);
                    if esc_char(t[m]).len() == 2 {
                        lemma_matches_index(
                            s@, i as int, json_str(t), 2 + esc(t.take(m)).len() as int);
                        assert(json_str(t)[2 + esc(t.take(m)).len() as int] == esc_char(t[m])[1]);
                    }
                } else {
                    assert(t.take(m) =~= t);
                    lemma_matches_index(s@, i as int, json_str(t), 1 + esc(t).len() as int);
                    assert(json_str(t)[1 + esc(t).len() as int] == '"');
                }
            }
        }
        if j >= n {
            proof {
                if hyp {
                    assert(esc(t.take(m)).len() <= esc(t).len());
                }
            }
            return None;
        }
        let c = s.get_char(j);
        if c == '"' {
            proof {
                if hyp {
                    if m < t.len() {
                        crate::codec::lemma_esc_char_no_quote(t[m]);
                        assert(s@[j as int] == esc_char(t[m])[0]);
                        assert(false);
                    }
                    assert(out@ == t);
                }
            }
            return Some((out, j + 1));
        }
        if c == '\\' {
            proof {
                if hyp {
                    assert(m < t.len());
                    assert(s@[j as int] == esc_char(t[m])[0]);
                    assert(t[m] == '"' || t[m] == '\\');
                    assert(esc_char(t[m]).len() == 2);
                    assert(j + 1 < i + 1 + esc(t).len() as int + 1);
                    assert(i + json_str(t).len() <= n);
                }
            }
            if j + 1 >= n {
                return None;
            }
            let d = s.get_char(j + 1);
            if d == '"' || d == '\\' {
                ext::push_char(&mut out, d);
                proof {
                    if hyp {
                        assert(s@[j as int + 1] == esc_char(t[m])[1]);
                        assert(d == t[m]);
                        assert(out@ =~= t.take(m + 1));
                        assert(t.take(m + 1).drop_last() =~= t.take(m));
                        assert(esc(t.take(m + 1)) == esc(t.take(m)) + esc_char(t[m]));
                    }
                }
                j += 2;
            } else {
                proof {
                    if hyp {
                        assert(s@[j as int + 1] == esc_char(t[m])[1]);
                    }
                }
                return None;
            }
        } else {
            ext::push_char(&mut out, c);
            proof {
                if hyp {
                    assert(m < t.len());
                    assert(s@[j as int] == esc_char(t[m])[0]);
                    if t[m] == '"' || t[m] == '\\' {
                        assert(c == '\\');
                        assert(false);
                    }
                    assert(c == t[m]);
                    assert(out@ =~= t.take(m + 1));
                    assert(t.take(m + 1).drop_last() =~= t.take(m));
                    assert(esc(t.take(m + 1)) == esc(t.take(m)) + esc_char(t[m]));
                }
            }
            j += 1;
        }
    }
}

fn hexdigit_of(c: char) -> (r: Option<u8>)
    ensures
        (r matches Some(d) ==> hex_val(c) == d as int && d < 16),
        r is None ==> hex_val(c) < 0,
{
    match c {
        '0' => Some(0),
        '1' => Some(1),
        '2' => Some(2),
        '3' => Some(3),
        '4' => Some(4),
        '5' => Some(5),
        '6' => Some(6),
        '7' => Some(7),
        '8' => Some(8),
        '9' => Some(9),
        'a' => Some(10),
        'b' => Some(11),
        'c' => Some(12),
        'd' => Some(13),
        'e' => Some(14),
        'f' => Some(15),
        _ => None,
    }
}

/// The five digit groups of a hyphenated identifier, as values.
pub open spec fn uuid_g0(t: u128) -> nat {
    (t as nat) / pow16(24)
}

pub open spec fn uuid_g1(t: u128) -> nat {
    ((t as nat) / pow16(20)) % pow16(4)
}

pub open spec fn uuid_g2(t: u128) -> nat {
    ((t as nat) / pow16(16)) % pow16(4)
}

pub open spec fn uuid_g3(t: u128) -> nat {
    ((t as nat) / pow16(12)) % pow16(4)
}

pub open spec fn uuid_g4(t: u128) -> nat {
    (t as nat) % pow16(12)
}

proof fn lemma_peel(n: nat, lo: nat, hi: nat)
    requires
        lo + 4 == hi,
    ensures
        n % pow16(hi) == ((n / pow16(lo)) % pow16(4)) * pow16(lo) + n % pow16(lo),
        (n / pow16(lo)) % pow16(4) < pow16(4),
        n % pow16(lo) < pow16(lo),
{
    let pl = pow16(lo);
    let p4 = pow16(4);
    crate::fmt::lemma_pow16_pos(lo);
    crate::fmt::lemma_pow16_pos(4);
    crate::fmt::lemma_pow16_add(lo, 4);
    vstd::arithmetic::div_mod::lemma_mod_breakdown(n as int, pl as int, p4 as int);
    vstd::arithmetic::div_mod::lemma_mod_bound((n / pl) as int, p4 as int);
    vstd::arithmetic::div_mod::lemma_mod_bound(n as int, pl as int);
}

/// The hyphenated rendering split into its five fixed-width groups, with
/// the value equation that puts them back together.
pub proof fn lemma_uuid_decomp(t: u128)
    ensures
        uuid_str(t) == hex_w(uuid_g0(t), 8) + seq!['-'] + hex_w(uuid_g1(t), 4) + seq!['-']
            + hex_w(uuid_g2(t), 4) + seq!['-'] + hex_w(uuid_g3(t), 4) + seq!['-'] + hex_w(
            uuid_g4(t), 12),
        uuid_g0(t) < pow16(8),
        uuid_g1(t) < pow16(4),
        uuid_g2(t) < pow16(4),
        uuid_g3(t) < pow16(4),
        uuid_g4(t) < pow16(12),
        (t as nat) == uuid_g0(t) * pow16(24) + uuid_g1(t) * pow16(20) + uuid_g2(t) * pow16(16)
            + uuid_g3(t) * pow16(12) + uuid_g4(t),
        uuid_str(t).len() == 36,
{
    let n = t as nat;
    crate::fmt::lemma_pow16_consts();
    let p24 = pow16(24);
    let p20 = pow16(20);
    let p16 = pow16(16);
    let p12 = pow16(12);
    // the value equation, by peeling four digits at a time
    vstd::arithmetic::div_mod::lemma_fundamental_div_mod(n as int, p24 as int);
    vstd::arithmetic::div_mod::lemma_mod_bound(n as int, p24 as int);
    lemma_peel(n, 20, 24);
    lemma_peel(n, 16, 20);
    lemma_peel(n, 12, 16);
    assert(n == uuid_g0(t) * p24 + n % p24);
    // g0 is bounded because n fits in 32 digits
    assert(n < pow16(32));
    assert(uuid_g0(t) < pow16(8)) by (nonlinear_arith)
        requires
            n == pow16(24) * (n / pow16(24)) + n % pow16(24),
            0 <= n % pow16(24),
            n < pow16(24) * pow16(8),
            pow16(24) > 0,
            uuid_g0(t) == n / pow16(24);
    // the split of the digit text
    let h = hex_w(n, 32);
    crate::fmt::lemma_hex_w_split(n, 8, 24);
    crate::fmt::lemma_hex_w_split(n % p24, 4, 20);
    crate::fmt::lemma_hex_w_split(n % p20, 4, 16);
    crate::fmt::lemma_hex_w_split(n % p16, 4, 12);
    // the quotients in the splits are exactly the groups
    assert((n % p24) / p20 == uuid_g1(t)) by {
        vstd::arithmetic::div_mod::lemma_fundamental_div_mod_converse(
            (n % p24) as int, p20 as int, ((n / p20) % pow16(4)) as int, (n % p20) as int);
    }
    assert((n % p24) % p20 == n % p20) by {
        vstd::arithmetic::div_mod::lemma_fundamental_div_mod_converse(
            (n % p24) as int, p20 as int, ((n / p20) % pow16(4)) as int, (n % p20) as int);
    }
    assert((n % p20) / p16 == uuid_g2(t) && (n % p20) % p16 == n % p16) by {
        vstd::arithmetic::div_mod::lemma_fundamental_div_mod_converse(
            (n % p20) as int, p16 as int, ((n / p16) % pow16(4)) as int, (n % p16) as int);
    }
    assert((n % p16) / p12 == uuid_g3(t) && (n % p16) % p12 == n % p12) by {
        vstd::arithmetic::div_mod::lemma_fundamental_div_mod_converse(
            (n % p16) as int, p12 as int, ((n / p12) % pow16(4)) as int, (n % p12) as int);
    }
    assert(h == hex_w(uuid_g0(t), 8) + hex_w(n % p24, 24));
    assert(hex_w(n % p24, 24) == hex_w(uuid_g1(t), 4) + hex_w(n % p20, 20));
    assert(hex_w(n % p20, 20) == hex_w(uuid_g2(t), 4) + hex_w(n % p16, 16));
    assert(hex_w(n % p16, 16) == hex_w(uuid_g3(t), 4) + hex_w(uuid_g4(t), 12));
    lemma_hex_w_len(n, 32);
    lemma_hex_w_len(uuid_g0(t), 8);
    lemma_hex_w_len(uuid_g1(t), 4);
    lemma_hex_w_len(uuid_g2(t), 4);
    lemma_hex_w_len(uuid_g3(t), 4);
    lemma_hex_w_len(uuid_g4(t), 12);
    lemma_hex_w_len(n % p24, 24);
    lemma_hex_w_len(n % p20, 20);
    lemma_hex_w_len(n % p16, 16);
    assert(h.subrange(0, 8) =~= hex_w(uuid_g0(t), 8));
    assert(h.subrange(8, 12) =~= hex_w(uuid_g1(t), 4));
    assert(h.subrange(12, 16) =~= hex_w(uuid_g2(t), 4));
    assert(h.subrange(16, 20) =~= hex_w(uuid_g3(t), 4));
    assert(h.subrange(20, 32) =~= hex_w(uuid_g4(t), 12));
    assert(uuid_str(t) =~= hex_w(uuid_g0(t), 8) + seq!['-'] + hex_w(uuid_g1(t), 4) + seq!['-']
        + hex_w(uuid_g2(t), 4) + seq!['-'] + hex_w(uuid_g3(t), 4) + seq!['-'] + hex_w(
        uuid_g4(t), 12));
}

/// Reads one fixed-width group of hexadecimal digits.
#[verifier::loop_isolation(false)]
pub(crate) fn parse_hex_group(s: &str, n: usize, i: usize, w: usize, expected: Ghost<u64>) -> (r:
    Option<u64>)
    requires
        n == s@.len(),
        i <= n,
        w <= 12,
    ensures
        (r matches Some(v) ==> i + w <= n && (v as nat) < pow16(w as nat)),
        (matches_at(s@, i as int, hex_w(expected@ as nat, w as nat)) && (expected@ as nat) < pow16(
            w as nat)) ==> r == Some(expected@),
{
    let ghost t = expected@ as nat;
    let ghost hw = hex_w(t, w as nat);
    let ghost hyp = matches_at(s@, i as int, hw) && t < pow16(w as nat);
    proof {
        lemma_hex_w_len(t, w as nat);
        lemma_hex_w_are_hex(t, w as nat);
        if hyp {
            lemma_val_hex_w(t, w as nat);
        }
    }
    if w > n - i {
        return None;
    }
    let mut acc: u64 = 0;
    let mut k: usize = 0;
    while k < w
        invariant
            k <= w,
            i + w <= n,
            (acc as nat) < pow16(k as nat),
            hyp ==> acc as int == crate::fmt::val_hex(hw.take(k as int)),
        decreases w - k,
    {
        let c = s.get_char(i + k);
        let d = match hexdigit_of(c) {
            Some(d) => d,
            None => {
                proof {
                    if hyp {
                        lemma_matches_index(s@, i as int, hw, k as int);
                    }
                }
                return None;
            },
        };
        proof {
            crate::fmt::lemma_pow16_mono(k as nat + 1, 12);
            crate::fmt::lemma_pow16_consts();
            assert(pow16(k as nat + 1) == 16 * pow16(k as nat));
            assert((acc as int) * 16 + d < pow16(k as nat + 1)) by (nonlinear_arith)
                requires
                    (acc as nat) < pow16(k as nat),
                    d < 16,
                    pow16(k as nat + 1) == 16 * pow16(k as nat);
            if hyp {
                lemma_matches_index(s@, i as int, hw, k as int);
                assert(c == hw[k as int]);
                assert(hw.take(k as int + 1).drop_last() =~= hw.take(k as int));
                assert(hw.take(k as int + 1).last() == hw[k as int]);
            }
        }
        acc = acc * 16 + d as u64;
        k += 1;
    }
    proof {
        if hyp {
            assert(hw.take(w as int) =~= hw);
        }
    }
    Some(acc)
}

/// Reads a hyphenated 128-bit identifier.
#[verifier::loop_isolation(false)]
pub(crate) fn parse_uuid(s: &str, n: usize, i: usize, expected: Ghost<u128>) -> (r: Option<
    (u128, usize),
>)
    requires
        n == s@.len(),
        i <= n,
    ensures
        (r matches Some(p) ==> i < p.1 <= n && p.1 == i + 36),
        matches_at(s@, i as int, uuid_str(expected@)) ==> (r matches Some(p) && p.0 == expected@),
{
    let ghost t = expected@;
    let ghost hyp = matches_at(s@, i as int, uuid_str(t));
    let ghost a0 = hex_w(uuid_g0(t), 8);
    let ghost a1 = hex_w(uuid_g1(t), 4);
    let ghost a2 = hex_w(uuid_g2(t), 4);
    let ghost a3 = hex_w(uuid_g3(t), 4);
    let ghost a4 = hex_w(uuid_g4(t), 12);
    let ghost dash = seq!['-'];
    proof {
        crate::fmt::lemma_pow16_consts();
        lemma_uuid_decomp(t);
        lemma_hex_w_len(uuid_g0(t), 8);
        lemma_hex_w_len(uuid_g1(t), 4);
        lemma_hex_w_len(uuid_g2(t), 4);
        lemma_hex_w_len(uuid_g3(t), 4);
        lemma_hex_w_len(uuid_g4(t), 12);
        if hyp {
            lemma_matches_concat(s@, i as int, a0 + dash + a1 + dash + a2 + dash + a3 + dash, a4);
            lemma_matches_concat(s@, i as int, a0 + dash + a1 + dash + a2 + dash + a3, dash);
            lemma_matches_concat(s@, i as int, a0 + dash + a1 + dash + a2 + dash, a3);
            lemma_matches_concat(s@, i as int, a0 + dash + a1 + dash + a2, dash);
            lemma_matches_concat(s@, i as int, a0 + dash + a1 + dash, a2);
            lemma_matches_concat(s@, i as int, a0 + dash + a1, dash);
            lemma_matches_concat(s@, i as int, a0 + dash, a1);
            lemma_matches_concat(s@, i as int, a0, dash);
            lemma_matches_index(s@, i as int + 8, dash, 0);
            lemma_matches_index(s@, i as int + 13, dash, 0);
            lemma_matches_index(s@, i as int + 18, dash, 0);
            lemma_matches_index(s@, i as int + 23, dash, 0);
        }
    }
    if n - i < 36 {
        return None;
    }
    let g0 = match parse_hex_group(s, n, i, 8, Ghost(uuid_g0(t) as u64)) {
        Some(v) => v,
        None => {
            return None;
        },
    };
    if s.get_char(i + 8) != '-' {
        return None;
    }
    let g1 = match parse_hex_group(s, n, i + 9, 4, Ghost(uuid_g1(t) as u64)) {
        Some(v) => v,
        None => {
            return None;
        },
    };
    if s.get_char(i + 13) != '-' {
        return None;
    }
    let g2 = match parse_hex_group(s, n, i + 14, 4, Ghost(uuid_g2(t) as u64)) {
        Some(v) => v,
        None => {
            return None;
        },
    };
    if s.get_char(i + 18) != '-' {
        return None;
    }
    let g3 = match parse_hex_group(s, n, i + 19, 4, Ghost(uuid_g3(t) as u64)) {
        Some(v) => v,
        None => {
            return None;
        },
    };
    if s.get_char(i + 23) != '-' {
        return None;
    }
    let g4 = match parse_hex_group(s, n, i + 24, 12, Ghost(uuid_g4(t) as u64)) {
        Some(v) => v,
        None => {
            return None;
        },
    };
    proof {
        crate::fmt::lemma_pow16_consts();
        assert((g0 as int) * 0x1000000000000000000000000 <= 0xffffffff * 0x1000000000000000000000000)
            by (nonlinear_arith)
            requires g0 <= 0xffffffff;
        assert((g1 as int) * 0x100000000000000000000 <= 0xffff * 0x100000000000000000000)
            by (nonlinear_arith)
            requires g1 <= 0xffff;
        assert((g2 as int) * 0x10000000000000000 <= 0xffff * 0x10000000000000000)
            by (nonlinear_arith)
            requires g2 <= 0xffff;
        assert((g3 as int) * 0x1000000000000 <= 0xffff * 0x1000000000000) by (nonlinear_arith)
            requires g3 <= 0xffff;
    }
    let v: u128 = (g0 as u128) * 0x1000000000000000000000000u128 + (g1 as u128)
        * 0x100000000000000000000u128 + (g2 as u128) * 0x10000000000000000u128 + (g3 as u128)
        * 0x1000000000000u128 + (g4 as u128);
    proof {
        if hyp {
            assert(g0 as nat == uuid_g0(t) && g1 as nat == uuid_g1(t) && g2 as nat == uuid_g2(t)
                && g3 as nat == uuid_g3(t) && g4 as nat == uuid_g4(t));
            assert(v == t);
        }
    }
    Some((v, i + 36))
}

/// Reads one canonical product object.
#[verifier::loop_isolation(false)]
pub(crate) fn parse_product(s: &str, n: usize, i: usize, expected: Ghost<ProductView>) -> (r:
    Option<(Product, usize)>)
    requires
        n == s@.len(),
        i <= n,
    ensures
        (r matches Some(p) ==> i < p.1 <= n),
        matches_at(s@, i as int, product_json(expected@)) ==> (r matches Some(p) && p.0@
            == expected@ && p.1 == i + product_json(expected@).len()),
{
    let ghost tv = expected@;
    let ghost hyp = matches_at(s@, i as int, product_json(tv));
    let ghost l1 = "{\"id\":\""@;
    let ghost u = uuid_str(tv.id);
    let ghost l2 = "\",\"name\":"@;
    let ghost nm = json_str(tv.name);
    let ghost l3 = ",\"description\":"@;
    let ghost ds = json_str(tv.description);
    let ghost l4 = ",\"price\":"@;
    let ghost pr = cents_str(tv.price_cents as nat);
    let ghost l5 = ",\"quantity\":"@;
    let ghost qt = dec_int(tv.quantity as int);
    let ghost l6 = "}"@;
    proof {
        if hyp {
            reveal_strlit("}");
            lemma_uuid_decomp(tv.id);
            assert(product_json(tv) == l1 + u + l2 + nm + l3 + ds + l4 + pr + l5 + qt + l6);
            lemma_matches_concat(s@, i as int, l1 + u + l2 + nm + l3 + ds + l4 + pr + l5 + qt, l6);
            lemma_matches_concat(s@, i as int, l1 + u + l2 + nm + l3 + ds + l4 + pr + l5, qt);
            lemma_matches_concat(s@, i as int, l1 + u + l2 + nm + l3 + ds + l4 + pr, l5);
            lemma_matches_concat(s@, i as int, l1 + u + l2 + nm + l3 + ds + l4, pr);
            lemma_matches_concat(s@, i as int, l1 + u + l2 + nm + l3 + ds, l4);
            lemma_matches_concat(s@, i as int, l1 + u + l2 + nm + l3, ds);
            lemma_matches_concat(s@, i as int, l1 + u + l2 + nm, l3);
            lemma_matches_concat(s@, i as int, l1 + u + l2, nm);
            lemma_matches_concat(s@, i as int, l1 + u, l2);
            lemma_matches_concat(s@, i as int, l1, u);
            lemma_matches_index(
                s@,
                i as int + l1.len() + u.len() + l2.len() + nm.len() + l3.len() + ds.len()
                    + l4.len() + pr.len() + l5.len() + qt.len(),
                l6,
                0,
            );
        }
    }
    let j1 = match parse_exact(s, n, i, "{\"id\":\"") {
        Some(j) => j,
        None => { return None; },
    };
    let (idv, j2) = match parse_uuid(s, n, j1, Ghost(tv.id)) {
        Some(p) => p,
        None => { return None; },
    };
    let j3 = match parse_exact(s, n, j2, "\",\"name\":") {
        Some(j) => j,
        None => { return None; },
    };
    let (namev, j4) = match parse_json_string(s, n, j3, Ghost(tv.name)) {
        Some(p) => p,
        None => { return None; },
    };
    let j5 = match parse_exact(s, n, j4, ",\"description\":") {
        Some(j) => j,
        None => { return None; },
    };
    let (descv, j6) = match parse_json_string(s, n, j5, Ghost(tv.description)) {
        Some(p) => p,
        None => { return None; },
    };
    let j7 = match parse_exact(s, n, j6, ",\"price\":") {
        Some(j) => j,
        None => { return None; },
    };
    let (pricev, j8) = match parse_cents(s, n, j7, Ghost(tv.price_cents)) {
        Some(p) => p,
        None => { return None; },
    };
    let j9 = match parse_exact(s, n, j8, ",\"quantity\":") {
        Some(j) => j,
        None => { return None; },
    };
    let (qv, j10) = match parse_i32(s, n, j9, Ghost(tv.quantity)) {
        Some(p) => p,
        None => { return None; },
    };
    let j11 = match parse_exact(s, n, j10, "}") {
        Some(j) => j,
        None => { return None; },
    };
    let prod = Product {
        id: idv,
        name: namev,
        description: descv,
        price_cents: pricev,
        quantity: qv,
    };
    proof {
        if hyp {
            assert(prod@ == tv);
        }
    }
    Some((prod, j11))
}

/// Reads one canonical transaction object; its quantity must be positive.
#[verifier::loop_isolation(false)]
pub(crate) fn parse_tx(s: &str, n: usize, i: usize, expected: Ghost<TransactionView>) -> (r: Option<
    (Transaction, usize),
>)
    requires
        n == s@.len(),
        i <= n,
    ensures
        (r matches Some(p) ==> i < p.1 <= n && 1 <= p.0.quantity),
        (matches_at(s@, i as int, tx_json(expected@)) && 1 <= expected@.quantity) ==> (r matches
            Some(p) && p.0@ == expected@ && p.1 == i + tx_json(expected@).len()),
{
    let ghost tv = expected@;
    let ghost hyp = matches_at(s@, i as int, tx_json(tv)) && 1 <= tv.quantity;
    let ghost l1 = "{\"id\":\""@;
    let ghost u1 = uuid_str(tv.id);
    let ghost l2 = "\",\"product_id\":\""@;
    let ghost u2 = uuid_str(tv.product_id);
    let ghost l3 = "\",\"quantity\":"@;
    let ghost qt = dec_digits(tv.quantity as nat);
    let ghost l4 = ",\"price\":"@;
    let ghost pr = cents_str(tv.price_cents as nat);
    let ghost l5 = ",\"transaction_type\":"@;
    let ghost ty = tx_type_json(tv.transaction_type);
    let ghost l6 = ",\"timestamp\":"@;
    let ghost ts = json_str(tv.timestamp);
    let ghost l7 = "}"@;
    proof {
        if hyp {
            reveal_strlit(",\"price\":");
            reveal_strlit("\"Sale\"");
            reveal_strlit("\"Purchase\"");
            lemma_uuid_decomp(tv.id);
            lemma_uuid_decomp(tv.product_id);
            assert(tx_json(tv) == l1 + u1 + l2 + u2 + l3 + qt + l4 + pr + l5 + ty + l6 + ts + l7);
            lemma_matches_concat(
                s@, i as int, l1 + u1 + l2 + u2 + l3 + qt + l4 + pr + l5 + ty + l6 + ts, l7);
            lemma_matches_concat(
                s@, i as int, l1 + u1 + l2 + u2 + l3 + qt + l4 + pr + l5 + ty + l6, ts);
            lemma_matches_concat(
                s@, i as int, l1 + u1 + l2 + u2 + l3 + qt + l4 + pr + l5 + ty, l6);
            lemma_matches_concat(s@, i as int, l1 + u1 + l2 + u2 + l3 + qt + l4 + pr + l5, ty);
            lemma_matches_concat(s@, i as int, l1 + u1 + l2 + u2 + l3 + qt + l4 + pr, l5);
            lemma_matches_concat(s@, i as int, l1 + u1 + l2 + u2 + l3 + qt + l4, pr);
            lemma_matches_concat(s@, i as int, l1 + u1 + l2 + u2 + l3 + qt, l4);
            lemma_matches_concat(s@, i as int, l1 + u1 + l2 + u2 + l3, qt);
            lemma_matches_concat(s@, i as int, l1 + u1 + l2 + u2, l3);
            lemma_matches_concat(s@, i as int, l1 + u1 + l2, u2);
            lemma_matches_concat(s@, i as int, l1 + u1, l2);
            lemma_matches_concat(s@, i as int, l1, u1);
            lemma_matches_index(
                s@,
                i as int + l1.len() + u1.len() + l2.len() + u2.len() + l3.len() + qt.len(),
                l4,
                0,
            );
            assert(dec_int(tv.quantity as int) == qt);
        }
    }
    let j1 = match parse_exact(s, n, i, "{\"id\":\"") {
        Some(j) => j,
        None => { return None; },
    };
    let (idv, j2) = match parse_uuid(s, n, j1, Ghost(tv.id)) {
        Some(p) => p,
        None => { return None; },
    };
    let j3 = match parse_exact(s, n, j2, "\",\"product_id\":\"") {
        Some(j) => j,
        None => { return None; },
    };
    let (pidv, j4) = match parse_uuid(s, n, j3, Ghost(tv.product_id)) {
        Some(p) => p,
        None => { return None; },
    };
    let j5 = match parse_exact(s, n, j4, "\",\"quantity\":") {
        Some(j) => j,
        None => { return None; },
    };
    let ghost qexp = if 1 <= tv.quantity { tv.quantity as u64 } else { 0u64 };
    let (qraw, j6) = match parse_u64_digits(s, n, j5, Ghost(qexp)) {
        Some(p) => p,
        None => { return None; },
    };
    if qraw == 0 || qraw > i32::MAX as u64 {
        return None;
    }
    let qv: i32 = qraw as i32;
    let j7 = match parse_exact(s, n, j6, ",\"price\":") {
        Some(j) => j,
        None => { return None; },
    };
    let (pricev, j8) = match parse_cents(s, n, j7, Ghost(tv.price_cents)) {
        Some(p) => p,
        None => { return None; },
    };
    let j9 = match parse_exact(s, n, j8, ",\"transaction_type\":") {
        Some(j) => j,
        None => { return None; },
    };
    let (kind, j10) = match parse_exact(s, n, j9, "\"Sale\"") {
        Some(j) => {
            proof {
                if hyp && tv.transaction_type is Purchase {
                    lemma_matches_index(s@, j9 as int, "\"Sale\""@, 1);
                    lemma_matches_index(s@, j9 as int, ty, 1);
                    assert(false);
                }
            }
            (TransactionType::Sale, j)
        },
        None => match parse_exact(s, n, j9, "\"Purchase\"") {
            Some(j) => (TransactionType::Purchase, j),
            None => { return None; },
        },
    };
    let j11 = match parse_exact(s, n, j10, ",\"timestamp\":") {
        Some(j) => j,
        None => { return None; },
    };
    let (tsv, j12) = match parse_json_string(s, n, j11, Ghost(tv.timestamp)) {
        Some(p) => p,
        None => { return None; },
    };
    let j13 = match parse_exact(s, n, j12, "}") {
        Some(j) => j,
        None => { return None; },
    };
    let tx = Transaction {
        id: idv,
        product_id: pidv,
        quantity: qv,
        price_cents: pricev,
        transaction_type: kind,
        timestamp: tsv,
    };
    proof {
        if hyp {
            assert(tx@ == tv);
        }
    }
    Some((tx, j13))
}

/// Reads one canonical user object.
#[verifier::loop_isolation(false)]
pub(crate) fn parse_user(s: &str, n: usize, i: usize, expected: Ghost<UserView>) -> (r: Option<
    (User, usize),
>)
    requires
        n == s@.len(),
        i <= n,
    ensures
        (r matches Some(p) ==> i < p.1 <= n),
        matches_at(s@, i as int, user_json(expected@)) ==> (r matches Some(p) && p.0@ == expected@
            && p.1 == i + user_json(expected@).len()),
{
    let ghost tv = expected@;
    let ghost hyp = matches_at(s@, i as int, user_json(tv));
    let ghost l1 = "{\"id\":\""@;
    let ghost u = uuid_str(tv.id);
    let ghost l2 = "\",\"username\":"@;
    let ghost un = json_str(tv.username);
    let ghost l3 = ",\"password_hash\":"@;
    let ghost ph = json_str(tv.password_hash);
    let ghost l4 = ",\"role\":"@;
    let ghost ro = role_json(tv.role);
    let ghost l5 = "}"@;
    proof {
        if hyp {
            reveal_strlit("\"Manager\"");
            reveal_strlit("\"Employee\"");
            lemma_uuid_decomp(tv.id);
            assert(user_json(tv) == l1 + u + l2 + un + l3 + ph + l4 + ro + l5);
            lemma_matches_concat(s@, i as int, l1 + u + l2 + un + l3 + ph + l4 + ro, l5);
            lemma_matches_concat(s@, i as int, l1 + u + l2 + un + l3 + ph + l4, ro);
            lemma_matches_concat(s@, i as int, l1 + u + l2 + un + l3 + ph, l4);
            lemma_matches_concat(s@, i as int, l1 + u + l2 + un + l3, ph);
            lemma_matches_concat(s@, i as int, l1 + u + l2 + un, l3);
            lemma_matches_concat(s@, i as int, l1 + u + l2, un);
            lemma_matches_concat(s@, i as int, l1 + u, l2);
            lemma_matches_concat(s@, i as int, l1, u);
        }
    }
    let j1 = match parse_exact(s, n, i, "{\"id\":\"") {
        Some(j) => j,
        None => { return None; },
    };
    let (idv, j2) = match parse_uuid(s, n, j1, Ghost(tv.id)) {
        Some(p) => p,
        None => { return None; },
    };
    let j3 = match parse_exact(s, n, j2, "\",\"username\":") {
        Some(j) => j,
        None => { return None; },
    };
    let (unv, j4) = match parse_json_string(s, n, j3, Ghost(tv.username)) {
        Some(p) => p,
        None => { return None; },
    };
    let j5 = match parse_exact(s, n, j4, ",\"password_hash\":") {
        Some(j) => j,
        None => { return None; },
    };
    let (phv, j6) = match parse_json_string(s, n, j5, Ghost(tv.password_hash)) {
        Some(p) => p,
        None => { return None; },
    };
    let j7 = match parse_exact(s, n, j6, ",\"role\":") {
        Some(j) => j,
        None => { return None; },
    };
    let (role, j8) = match parse_exact(s, n, j7, "\"Manager\"") {
        Some(j) => {
            proof {
                if hyp && tv.role is Employee {
                    lemma_matches_index(s@, j7 as int, "\"Manager\""@, 1);
                    lemma_matches_index(s@, j7 as int, ro, 1);
                    assert(false);
                }
            }
            (UserRole::Manager, j)
        },
        None => match parse_exact(s, n, j7, "\"Employee\"") {
            Some(j) => (UserRole::Employee, j),
            None => { return None; },
        },
    };
    let j9 = match parse_exact(s, n, j8, "}") {
        Some(j) => j,
        None => { return None; },
    };
    let user = User { id: idv, username: unv, password_hash: phv, role };
    proof {
        if hyp {
            assert(user@ == tv);
        }
    }
    Some((user, j9))
}

/// Reads the canonical products object back into a vector, in document
/// order.
#[verifier::rlimit(80)]
#[verifier::loop_isolation(false)]
pub(crate) fn parse_products(s: &str, n: usize, i: usize, expected: Ghost<Seq<ProductView>>) -> (r:
    Option<(Vec<Product>, usize)>)
    requires
        n == s@.len(),
        i <= n,
    ensures
        (r matches Some(p) ==> i < p.1 <= n),
        matches_at(s@, i as int, products_json(expected@)) ==> (r matches Some(p)
            && p.0.deep_view() == expected@ && p.1 == i + products_json(expected@).len()),
{
    let ghost tv = expected@;
    let ghost m = tv.len() as int;
    let ghost f = |k: int| product_entry(tv[k]);
    let ghost whole = products_json(tv);
    let ghost hyp = matches_at(s@, i as int, whole);
    proof {
        reveal_strlit("{");
        reveal_strlit("}");
        reveal_strlit(",");
        reveal_strlit("\"");
        reveal_strlit("\":");
        if hyp {
            assert(whole == seq!['{'] + joined_upto(f, m) + seq!['}']);
            lemma_matches_concat(s@, i as int, seq!['{'] + joined_upto(f, m), seq!['}']);
            lemma_matches_concat(s@, i as int, seq!['{'], joined_upto(f, m));
            assert("{"@ =~= seq!['{']);
            assert("}"@ =~= seq!['}']);
            assert(","@ =~= seq![',']);
            assert("\""@ =~= seq!['"']);
        }
    }
    let j1 = match parse_exact(s, n, i, "{") {
        Some(j) => j,
        None => { return None; },
    };
    match parse_exact(s, n, j1, "}") {
        Some(j2) => {
            proof {
                if hyp && m > 0 {
                    crate::codec::lemma_joined_prefix(f, 1, m);
                    assert(joined_upto(f, 1) == f(0));
                    assert(joined_upto(f, m)[0] == f(0)[0]);
                    lemma_matches_index(s@, i as int + 1, joined_upto(f, m), 0);
                    lemma_uuid_decomp(tv[0].id);
                    assert(f(0)[0] == '"');
                    lemma_matches_index(s@, j1 as int, "}"@, 0);
                    assert(false);
                }
            }
            let empty: Vec<Product> = Vec::new();
            proof {
                if hyp {
                    assert(empty.deep_view() =~= tv);
                }
            }
            return Some((empty, j2));
        },
        None => {
            proof {
                if hyp && m == 0 {
                    assert(joined_upto(f, 0) == Seq::<char>::empty());
                    assert(whole =~= seq!['{'] + seq!['}']);
                    assert(matches_at(s@, j1 as int, "}"@)) by {
                        lemma_matches_index(s@, i as int, whole, 1);
                        assert(s@.subrange(i as int + 1, i as int + 2) =~= "}"@);
                    }
                    assert(false);
                }
            }
        },
    }
    let mut out: Vec<Product> = Vec::new();
    let mut j = j1;
    loop
        invariant
            i < j <= n,
            hyp ==> m > 0 && (out.len() as int) < m && out.deep_view() =~= tv.take(
                out.len() as int) && j as int == i + 1 + joined_upto(f, out.len() as int).len()
                + (if out.len() == 0 { 0int } else { 1 }),
        decreases n - j,
    {
        let ghost k = out.len() as int;
        proof {
            if hyp {
                crate::codec::lemma_joined_prefix(f, k + 1, m);
                lemma_matches_sub(
                    s@, i as int + 1, joined_upto(f, m), 0, joined_upto(f, k + 1).len() as int);
                if k == 0 {
                    assert(joined_upto(f, 1) == f(0));
                } else {
                    assert(joined_upto(f, k + 1) == joined_upto(f, k) + seq![','] + f(k));
                    lemma_matches_concat(s@, i as int + 1, joined_upto(f, k) + seq![','], f(k));
                }
                assert(matches_at(s@, j as int, f(k)));
                assert(f(k) == product_entry(tv[k]));
                lemma_uuid_decomp(tv[k].id);
                assert(product_entry(tv[k]) == seq!['"'] + uuid_str(tv[k].id) + "\":"@
                    + product_json(tv[k]));
                lemma_matches_concat(
                    s@, j as int, seq!['"'] + uuid_str(tv[k].id) + "\":"@, product_json(tv[k]));
                lemma_matches_concat(s@, j as int, seq!['"'] + uuid_str(tv[k].id), "\":"@);
                lemma_matches_concat(s@, j as int, seq!['"'], uuid_str(tv[k].id));
            }
        }
        let j2 = match parse_exact(s, n, j, "\"") {
            Some(x) => x,
            None => { return None; },
        };
        let (_keyv, j3) = match parse_uuid(s, n, j2, Ghost(tv[k].id)) {
            Some(p) => p,
            None => { return None; },
        };
        let j4 = match parse_exact(s, n, j3, "\":") {
            Some(x) => x,
            None => { return None; },
        };
        let (prod, j5) = match parse_product(s, n, j4, Ghost(tv[k])) {
            Some(p) => p,
            None => { return None; },
        };
        out.push(prod);
        proof {
            if hyp {
                assert(out.deep_view() =~= tv.take(k + 1));
                assert(j5 as int == i + 1 + joined_upto(f, k + 1).len());
            }
        }
        match parse_exact(s, n, j5, ",") {
            Some(j6) => {
                proof {
                    if hyp && k + 1 == m {
                        lemma_matches_index(s@, j5 as int, ","@, 0);
                        lemma_matches_index(
                            s@, i as int, whole, 1 + joined_upto(f, m).len() as int);
                        assert(false);
                    }
                }
                j = j6;
            },
            None => {
                match parse_exact(s, n, j5, "}") {
                    Some(j7) => {
                        proof {
                            if hyp {
                                if k + 1 < m {
                                    crate::codec::lemma_joined_prefix(f, k + 2, m);
                                    lemma_matches_sub(
                                        s@, i as int + 1, joined_upto(f, m), 0,
                                        joined_upto(f, k + 2).len() as int);
                                    assert(joined_upto(f, k + 2) == joined_upto(f, k + 1)
                                        + seq![','] + f(k + 1));
                                    lemma_matches_concat(
                                        s@, i as int + 1, joined_upto(f, k + 1) + seq![','],
                                        f(k + 1));
                                    lemma_matches_concat(
                                        s@, i as int + 1, joined_upto(f, k + 1), seq![',']);
                                    assert(matches_at(s@, j5 as int, seq![',']));
                                    assert(matches_at(s@, j5 as int, ","@));
                                    assert(false);
                                }
                                assert(k + 1 == m);
                                assert(tv.take(m) =~= tv);
                                assert(j7 as int == i + whole.len());
                            }
                        }
                        return Some((out, j7));
                    },
                    None => {
                        proof {
                            if hyp {
                                if k + 1 == m {
                                    lemma_matches_index(
                                        s@, i as int, whole, 1 + joined_upto(f, m).len() as int);
                                    assert(s@.subrange(j5 as int, j5 as int + 1) =~= "}"@);
                                    assert(matches_at(s@, j5 as int, "}"@));
                                } else {
                                    crate::codec::lemma_joined_prefix(f, k + 2, m);
                                    lemma_matches_sub(
                                        s@, i as int + 1, joined_upto(f, m), 0,
                                        joined_upto(f, k + 2).len() as int);
                                    assert(joined_upto(f, k + 2) == joined_upto(f, k + 1)
                                        + seq![','] + f(k + 1));
                                    lemma_matches_concat(
                                        s@, i as int + 1, joined_upto(f, k + 1) + seq![','],
                                        f(k + 1));
                                    lemma_matches_concat(
                                        s@, i as int + 1, joined_upto(f, k + 1), seq![',']);
                                    assert(matches_at(s@, j5 as int, ","@));
                                }
                                assert(false);
                            }
                        }
                        return None;
                    },
                }
            },
        }
    }
}

/// Reads the canonical transactions array back into a vector, in document
/// order; every transaction read has a positive quantity.
#[verifier::rlimit(80)]
#[verifier::loop_isolation(false)]
pub(crate) fn parse_txs(s: &str, n: usize, i: usize, expected: Ghost<Seq<TransactionView>>) -> (r:
    Option<(Vec<Transaction>, usize)>)
    requires
        n == s@.len(),
        i <= n,
    ensures
        (r matches Some(p) ==> i < p.1 <= n && crate::store::txs_wf(p.0.deep_view())),
        (matches_at(s@, i as int, txs_json(expected@)) && crate::store::txs_wf(expected@)) ==> (
            r matches Some(p) && p.0.deep_view() == expected@ && p.1 == i + txs_json(
            expected@).len()),
{
    let ghost tv = expected@;
    let ghost m = tv.len() as int;
    let ghost f = |k: int| tx_json(tv[k]);
    let ghost whole = txs_json(tv);
    let ghost hyp = matches_at(s@, i as int, whole) && crate::store::txs_wf(tv);
    proof {
        reveal_strlit("[");
        reveal_strlit("]");
        reveal_strlit(",");
        if hyp {
            assert(whole == seq!['['] + joined_upto(f, m) + seq![']']);
            lemma_matches_concat(s@, i as int, seq!['['] + joined_upto(f, m), seq![']']);
            lemma_matches_concat(s@, i as int, seq!['['], joined_upto(f, m));
            assert("["@ =~= seq!['[']);
            assert("]"@ =~= seq![']']);
            assert(","@ =~= seq![',']);
        }
    }
    let j1 = match parse_exact(s, n, i, "[") {
        Some(j) => j,
        None => { return None; },
    };
    match parse_exact(s, n, j1, "]") {
        Some(j2) => {
            proof {
                if hyp && m > 0 {
                    crate::codec::lemma_joined_prefix(f, 1, m);
                    assert(joined_upto(f, 1) == f(0));
                    assert(joined_upto(f, m)[0] == f(0)[0]);
                    lemma_matches_index(s@, i as int + 1, joined_upto(f, m), 0);
                    reveal_strlit("{\"id\":\"");
                    assert(f(0)[0] == '{');
                    lemma_matches_index(s@, j1 as int, "]"@, 0);
                    assert(false);
                }
            }
            let empty: Vec<Transaction> = Vec::new();
            proof {
                assert(crate::store::txs_wf(empty.deep_view()));
                if hyp {
                    assert(empty.deep_view() =~= tv);
                }
            }
            return Some((empty, j2));
        },
        None => {
            proof {
                if hyp && m == 0 {
                    assert(whole =~= seq!['['] + seq![']']);
                    lemma_matches_index(s@, i as int, whole, 1);
                    assert(s@.subrange(i as int + 1, i as int + 2) =~= "]"@);
                    assert(false);
                }
            }
        },
    }
    let mut out: Vec<Transaction> = Vec::new();
    let mut j = j1;
    loop
        invariant
            i < j <= n,
            crate::store::txs_wf(out.deep_view()),
            hyp ==> m > 0 && (out.len() as int) < m && out.deep_view() =~= tv.take(
                out.len() as int) && j as int == i + 1 + joined_upto(f, out.len() as int).len()
                + (if out.len() == 0 { 0int } else { 1 }),
        decreases n - j,
    {
        let ghost k = out.len() as int;
        proof {
            if hyp {
                crate::codec::lemma_joined_prefix(f, k + 1, m);
                lemma_matches_sub(
                    s@, i as int + 1, joined_upto(f, m), 0, joined_upto(f, k + 1).len() as int);
                if k == 0 {
                    assert(joined_upto(f, 1) == f(0));
                } else {
                    assert(joined_upto(f, k + 1) == joined_upto(f, k) + seq![','] + f(k));
                    lemma_matches_concat(s@, i as int + 1, joined_upto(f, k) + seq![','], f(k));
                }
                assert(matches_at(s@, j as int, f(k)));
                assert(1 <= tv[k].quantity);
            }
        }
        let (tx, j5) = match parse_tx(s, n, j, Ghost(tv[k])) {
            Some(p) => p,
            None => { return None; },
        };
        let ghost prev = out.deep_view();
        out.push(tx);
        proof {
            assert(out.deep_view() =~= prev.push(tx@));
            assert forall|a: int| 0 <= a < out.deep_view().len() implies 1 <= #[trigger] out
                .deep_view()[a].quantity by {
                if a < prev.len() {
                    assert(out.deep_view()[a] == prev[a]);
                }
            }
            if hyp {
                assert(out.deep_view() =~= tv.take(k + 1));
                assert(j5 as int == i + 1 + joined_upto(f, k + 1).len());
            }
        }
        match parse_exact(s, n, j5, ",") {
            Some(j6) => {
                proof {
                    if hyp && k + 1 == m {
                        lemma_matches_index(s@, j5 as int, ","@, 0);
                        lemma_matches_index(
                            s@, i as int, whole, 1 + joined_upto(f, m).len() as int);
                        assert(false);
                    }
                }
                j = j6;
            },
            None => {
                match parse_exact(s, n, j5, "]") {
                    Some(j7) => {
                        proof {
                            if hyp {
                                if k + 1 < m {
                                    crate::codec::lemma_joined_prefix(f, k + 2, m);
                                    lemma_matches_sub(
                                        s@, i as int + 1, joined_upto(f, m), 0,
                                        joined_upto(f, k + 2).len() as int);
                                    assert(joined_upto(f, k + 2) == joined_upto(f, k + 1)
                                        + seq![','] + f(k + 1));
                                    lemma_matches_concat(
                                        s@, i as int + 1, joined_upto(f, k + 1) + seq![','],
                                        f(k + 1));
                                    lemma_matches_concat(
                                        s@, i as int + 1, joined_upto(f, k + 1), seq![',']);
                                    assert(matches_at(s@, j5 as int, ","@));
                                    assert(false);
                                }
                                assert(k + 1 == m);
                                assert(tv.take(m) =~= tv);
                                assert(j7 as int == i + whole.len());
                            }
                        }
                        return Some((out, j7));
                    },
                    None => {
                        proof {
                            if hyp {
                                if k + 1 == m {
                                    lemma_matches_index(
                                        s@, i as int, whole, 1 + joined_upto(f, m).len() as int);
                                    assert(s@.subrange(j5 as int, j5 as int + 1) =~= "]"@);
                                    assert(matches_at(s@, j5 as int, "]"@));
                                } else {
                                    crate::codec::lemma_joined_prefix(f, k + 2, m);
                                    lemma_matches_sub(
                                        s@, i as int + 1, joined_upto(f, m), 0,
                                        joined_upto(f, k + 2).len() as int);
                                    assert(joined_upto(f, k + 2) == joined_upto(f, k + 1)
                                        + seq![','] + f(k + 1));
                                    lemma_matches_concat(
                                        s@, i as int + 1, joined_upto(f, k + 1) + seq![','],
                                        f(k + 1));
                                    lemma_matches_concat(
                                        s@, i as int + 1, joined_upto(f, k + 1), seq![',']);
                                    assert(matches_at(s@, j5 as int, ","@));
                                }
                                assert(false);
                            }
                        }
                        return None;
                    },
                }
            },
        }
    }
}

/// Reads the canonical users object back into a vector, in document order.
#[verifier::rlimit(80)]
#[verifier::loop_isolation(false)]
pub(crate) fn parse_users(s: &str, n: usize, i: usize, expected: Ghost<Seq<UserView>>) -> (r:
    Option<(Vec<User>, usize)>)
    requires
        n == s@.len(),
        i <= n,
    ensures
        (r matches Some(p) ==> i < p.1 <= n),
        matches_at(s@, i as int, users_json(expected@)) ==> (r matches Some(p) && p.0.deep_view()
            == expected@ && p.1 == i + users_json(expected@).len()),
{
    let ghost tv = expected@;
    let ghost m = tv.len() as int;
    let ghost f = |k: int| user_entry(tv[k]);
    let ghost whole = users_json(tv);
    let ghost hyp = matches_at(s@, i as int, whole);
    proof {
        reveal_strlit("{");
        reveal_strlit("}");
        reveal_strlit(",");
        reveal_strlit(":");
        if hyp {
            assert(whole == seq!['{'] + joined_upto(f, m) + seq!['}']);
            lemma_matches_concat(s@, i as int, seq!['{'] + joined_upto(f, m), seq!['}']);
            lemma_matches_concat(s@, i as int, seq!['{'], joined_upto(f, m));
            assert("{"@ =~= seq!['{']);
            assert("}"@ =~= seq!['}']);
            assert(","@ =~= seq![',']);
            assert(":"@ =~= seq![':']);
        }
    }
    let j1 = match parse_exact(s, n, i, "{") {
        Some(j) => j,
        None => { return None; },
    };
    match parse_exact(s, n, j1, "}") {
        Some(j2) => {
            proof {
                if hyp && m > 0 {
                    crate::codec::lemma_joined_prefix(f, 1, m);
                    assert(joined_upto(f, 1) == f(0));
                    assert(joined_upto(f, m)[0] == f(0)[0]);
                    lemma_matches_index(s@, i as int + 1, joined_upto(f, m), 0);
                    assert(f(0)[0] == '"');
                    lemma_matches_index(s@, j1 as int, "}"@, 0);
                    assert(false);
                }
            }
            let empty: Vec<User> = Vec::new();
            proof {
                if hyp {
                    assert(empty.deep_view() =~= tv);
                }
            }
            return Some((empty, j2));
        },
        None => {
            proof {
                if hyp && m == 0 {
                    assert(whole =~= seq!['{'] + seq!['}']);
                    lemma_matches_index(s@, i as int, whole, 1);
                    assert(s@.subrange(i as int + 1, i as int + 2) =~= "}"@);
                    assert(false);
                }
            }
        },
    }
    let mut out: Vec<User> = Vec::new();
    let mut j = j1;
    loop
        invariant
            i < j <= n,
            hyp ==> m > 0 && (out.len() as int) < m && out.deep_view() =~= tv.take(
                out.len() as int) && j as int == i + 1 + joined_upto(f, out.len() as int).len()
                + (if out.len() == 0 { 0int } else { 1 }),
        decreases n - j,
    {
        let ghost k = out.len() as int;
        proof {
            if hyp {
                crate::codec::lemma_joined_prefix(f, k + 1, m);
                lemma_matches_sub(
                    s@, i as int + 1, joined_upto(f, m), 0, joined_upto(f, k + 1).len() as int);
                if k == 0 {
                    assert(joined_upto(f, 1) == f(0));
                } else {
                    assert(joined_upto(f, k + 1) == joined_upto(f, k) + seq![','] + f(k));
                    lemma_matches_concat(s@, i as int + 1, joined_upto(f, k) + seq![','], f(k));
                }
                assert(matches_at(s@, j as int, f(k)));
                assert(f(k) == user_entry(tv[k]));
                lemma_matches_concat(
                    s@, j as int, json_str(tv[k].username) + seq![':'], user_json(tv[k]));
                lemma_matches_concat(s@, j as int, json_str(tv[k].username), seq![':']);
            }
        }
        let (_keyv, j3) = match parse_json_string(s, n, j, Ghost(tv[k].username)) {
            Some(p) => p,
            None => { return None; },
        };
        let j4 = match parse_exact(s, n, j3, ":") {
            Some(x) => x,
            None => { return None; },
        };
        let (user, j5) = match parse_user(s, n, j4, Ghost(tv[k])) {
            Some(p) => p,
            None => { return None; },
        };
        out.push(user);
        proof {
            if hyp {
                assert(out.deep_view() =~= tv.take(k + 1));
                assert(j5 as int == i + 1 + joined_upto(f, k + 1).len());
            }
        }
        match parse_exact(s, n, j5, ",") {
            Some(j6) => {
                proof {
                    if hyp && k + 1 == m {
                        lemma_matches_index(s@, j5 as int, ","@, 0);
                        lemma_matches_index(
                            s@, i as int, whole, 1 + joined_upto(f, m).len() as int);
                        assert(false);
                    }
                }
                j = j6;
            },
            None => {
                match parse_exact(s, n, j5, "}") {
                    Some(j7) => {
                        proof {
                            if hyp {
                                if k + 1 < m {
                                    crate::codec::lemma_joined_prefix(f, k + 2, m);
                                    lemma_matches_sub(
                                        s@, i as int + 1, joined_upto(f, m), 0,
                                        joined_upto(f, k + 2).len() as int);
                                    assert(joined_upto(f, k + 2) == joined_upto(f, k + 1)
                                        + seq![','] + f(k + 1));
                                    lemma_matches_concat(
                                        s@, i as int + 1, joined_upto(f, k + 1) + seq![','],
                                        f(k + 1));
                                    lemma_matches_concat(
                                        s@, i as int + 1, joined_upto(f, k + 1), seq![',']);
                                    assert(matches_at(s@, j5 as int, ","@));
                                    assert(false);
                                }
                                assert(k + 1 == m);
                                assert(tv.take(m) =~= tv);
                                assert(j7 as int == i + whole.len());
                            }
                        }
                        return Some((out, j7));
                    },
                    None => {
                        proof {
                            if hyp {
                                if k + 1 == m {
                                    lemma_matches_index(
                                        s@, i as int, whole, 1 + joined_upto(f, m).len() as int);
                                    assert(s@.subrange(j5 as int, j5 as int + 1) =~= "}"@);
                                    assert(matches_at(s@, j5 as int, "}"@));
                                } else {
                                    crate::codec::lemma_joined_prefix(f, k + 2, m);
                                    lemma_matches_sub(
                                        s@, i as int + 1, joined_upto(f, m), 0,
                                        joined_upto(f, k + 2).len() as int);
                                    assert(joined_upto(f, k + 2) == joined_upto(f, k + 1)
                                        + seq![','] + f(k + 1));
                                    lemma_matches_concat(
                                        s@, i as int + 1, joined_upto(f, k + 1) + seq![','],
                                        f(k + 1));
                                    lemma_matches_concat(
                                        s@, i as int + 1, joined_upto(f, k + 1), seq![',']);
                                    assert(matches_at(s@, j5 as int, ","@));
                                }
                                assert(false);
                            }
                        }
                        return None;
                    },
                }
            },
        }
    }
}

/// Reads a whole canonical inventory document: the products map and the
/// transaction history, with nothing before or after.
#[verifier::loop_isolation(false)]
pub(crate) fn parse_store_doc(s: &str, expected: Ghost<crate::store::StoreView>) -> (r: Option<
    (Vec<Product>, Vec<Transaction>)>)
    ensures
        (r matches Some(p) ==> crate::store::txs_wf(p.1.deep_view())),
        (s@ == crate::codec::store_json(expected@) && crate::store::txs_wf(
            expected@.transactions)) ==> (r matches Some(p) && p.0.deep_view()
            == expected@.products && p.1.deep_view() == expected@.transactions),
{
    let ghost tv = expected@;
    let ghost l1 = "{\"products\":"@;
    let ghost ps_enc = products_json(tv.products);
    let ghost l2 = ",\"transactions\":"@;
    let ghost ts_enc = txs_json(tv.transactions);
    let ghost l3 = "}"@;
    let ghost hyp = s@ == crate::codec::store_json(tv) && crate::store::txs_wf(tv.transactions);
    let n = s.unicode_len();
    proof {
        if hyp {
            assert(crate::codec::store_json(tv) == l1 + ps_enc + l2 + ts_enc + l3);
            assert(s@.subrange(0, s@.len() as int) =~= s@);
            assert(matches_at(s@, 0, l1 + ps_enc + l2 + ts_enc + l3));
            lemma_matches_concat(s@, 0, l1 + ps_enc + l2 + ts_enc, l3);
            lemma_matches_concat(s@, 0, l1 + ps_enc + l2, ts_enc);
            lemma_matches_concat(s@, 0, l1 + ps_enc, l2);
            lemma_matches_concat(s@, 0, l1, ps_enc);
        }
    }
    let j1 = match parse_exact(s, n, 0, "{\"products\":") {
        Some(j) => j,
        None => { return None; },
    };
    let (ps, j2) = match parse_products(s, n, j1, Ghost(tv.products)) {
        Some(p) => p,
        None => { return None; },
    };
    let j3 = match parse_exact(s, n, j2, ",\"transactions\":") {
        Some(j) => j,
        None => { return None; },
    };
    let (ts, j4) = match parse_txs(s, n, j3, Ghost(tv.transactions)) {
        Some(p) => p,
        None => { return None; },
    };
    let j5 = match parse_exact(s, n, j4, "}") {
        Some(j) => j,
        None => { return None; },
    };
    if j5 != n {
        return None;
    }
    Some((ps, ts))
}

/// Reads a whole canonical user document, with nothing before or after.
#[verifier::loop_isolation(false)]
pub(crate) fn parse_users_doc(s: &str, expected: Ghost<Seq<UserView>>) -> (r: Option<Vec<User>>)
    ensures
        s@ == users_json(expected@) ==> (r matches Some(us) && us.deep_view() == expected@),
{
    let ghost tv = expected@;
    let ghost hyp = s@ == users_json(tv);
    let n = s.unicode_len();
    proof {
        if hyp {
            assert(s@.subrange(0, s@.len() as int) =~= s@);
            assert(matches_at(s@, 0, users_json(tv)));
        }
    }
    let (us, j) = match parse_users(s, n, 0, Ghost(tv)) {
        Some(p) => p,
        None => { return None; },
    };
    if j != n {
        return None;
    }
    Some(us)
}

} // verus!
