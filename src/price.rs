use vstd::prelude::*;

use crate::text::{
    chars_of, digit_char, digit_value, digits_text, is_digit, push_char, to_digit, to_digit_char,
};

verus! {

/// The largest whole amount whose value in cents still fits an `i64`.
pub const MAX_WHOLE_CENTS: u64 = 92233720368547758;

/// Whether `c` survives price cleaning: a digit or a decimal point.
pub open spec fn is_price_char(c: char) -> bool {
    is_digit(c) || c == '.'
}

/// `s` with every character that is not a digit or a decimal point removed.
pub open spec fn price_chars(s: Seq<char>) -> Seq<char>
    decreases s.len(),
{
    if s.len() == 0 {
        Seq::empty()
    } else if is_price_char(s.last()) {
        price_chars(s.drop_last()).push(s.last())
    } else {
        price_chars(s.drop_last())
    }
}

/// The position of the first decimal point in `s`, or its length when it has none.
pub open spec fn first_dot(s: Seq<char>) -> int
    decreases s.len(),
{
    if s.len() == 0 {
        0
    } else if first_dot(s.drop_last()) < s.len() - 1 {
        first_dot(s.drop_last())
    } else if s.last() == '.' {
        s.len() - 1
    } else {
        s.len() as int
    }
}

/// A decimal number: digits with at most one decimal point, and at least one digit.
pub open spec fn is_decimal(s: Seq<char>) -> bool {
    let k = first_dot(s);
    &&& forall|i: int| 0 <= i < s.len() && i != k ==> is_digit(#[trigger] s[i])
    &&& (k > 0 || s.len() > k + 1)
}

/// The value of a run of decimal digits.
pub open spec fn digits_value(t: Seq<char>) -> nat
    decreases t.len(),
{
    if t.len() == 0 {
        0
    } else {
        digits_value(t.drop_last()) * 10 + digit_value(t.last()) as nat
    }
}

/// The integer part of a decimal number.
pub open spec fn whole_part(s: Seq<char>) -> Seq<char> {
    s.take(first_dot(s))
}

/// The `i`-th digit after the decimal point, 0 past the last one.
pub open spec fn fraction_digit(s: Seq<char>, i: int) -> nat {
    let k = first_dot(s);
    if k + 1 + i < s.len() {
        digit_value(s[k + 1 + i]) as nat
    } else {
        0
    }
}

/// A decimal number in hundredths, rounded to the nearest, halves up.
pub open spec fn decimal_cents(s: Seq<char>) -> int {
    digits_value(whole_part(s)) * 100 + fraction_digit(s, 0) * 10 + fraction_digit(s, 1) + if fraction_digit(s, 2) >= 5 {
        1int
    } else {
        0int
    }
}

/// The price in cents written in `s`, once every character but digits and the decimal point is
/// removed. None when what remains is no decimal number or the amount does not fit an `i64`.
pub open spec fn price_cents(s: Seq<char>) -> Option<int> {
    let t = price_chars(s);
    if is_decimal(t) && decimal_cents(t) <= i64::MAX {
        Some(decimal_cents(t))
    } else {
        None
    }
}

/// A quantity written as an optionally signed decimal number, truncated toward zero to whole
/// units. None when `s` is no such number or the amount does not fit an `i64`.
pub open spec fn quantity_units(s: Seq<char>) -> Option<int> {
    let signed = s.len() > 0 && (s[0] == '-' || s[0] == '+');
    let body = if signed {
        s.skip(1)
    } else {
        s
    };
    let v = digits_value(whole_part(body));
    if !is_decimal(body) || v > i64::MAX {
        None
    } else if signed && s[0] == '-' {
        Some(-v)
    } else {
        Some(v as int)
    }
}

proof fn lemma_first_dot_bounds(s: Seq<char>)
    ensures
        0 <= first_dot(s) <= s.len(),
        forall|i: int| 0 <= i < first_dot(s) ==> s[i] != '.',
        first_dot(s) < s.len() ==> s[first_dot(s)] == '.',
    decreases s.len(),
{
    if s.len() > 0 {
        lemma_first_dot_bounds(s.drop_last());
        assert forall|i: int| 0 <= i < first_dot(s) implies s[i] != '.' by {
            if i < s.len() - 1 {
                assert(s[i] == s.drop_last()[i]);
            }
        }
    }
}

/// The first decimal point is the first character that is one.
proof fn lemma_first_dot_unique(s: Seq<char>, k: int)
    requires
        0 <= k <= s.len(),
        forall|i: int| 0 <= i < k ==> s[i] != '.',
        k < s.len() ==> s[k] == '.',
    ensures
        first_dot(s) == k,
{
    lemma_first_dot_bounds(s);
    if first_dot(s) < k {
        assert(s[first_dot(s)] == '.');
    }
    if k < first_dot(s) {
        assert(s[k] != '.');
    }
}

/// The position of the first decimal point in `cs`, or its length when it has none.
fn find_dot(cs: &Vec<char>) -> (k: usize)
    ensures
        k == first_dot(cs@),
{
    let mut k: usize = 0;
    while k < cs.len() && cs[k] != '.'
        invariant
            k <= cs@.len(),
            forall|i: int| 0 <= i < k ==> cs@[i] != '.',
        decreases cs@.len() - k,
    {
        k = k + 1;
    }
    proof {
        lemma_first_dot_unique(cs@, k as int);
    }
    k
}

/// The smaller of `a` and `b`.
pub open spec fn min_nat(a: nat, b: nat) -> nat {
    if a <= b {
        a
    } else {
        b
    }
}

/// Reads `cs[start..]` as a decimal number: its whole part, capped at `limit`, and the first
/// three digits after its decimal point.
fn read_decimal(cs: &Vec<char>, start: usize, limit: u64) -> (r: Option<(u64, u64, u64, u64)>)
    requires
        start <= cs@.len(),
        limit >= 10,
    ensures
        ({
            let body = cs@.skip(start as int);
            match r {
                Some((w, f0, f1, f2)) => {
                    &&& is_decimal(body)
                    &&& w == min_nat(digits_value(whole_part(body)), limit as nat)
                    &&& f0 == fraction_digit(body, 0)
                    &&& f1 == fraction_digit(body, 1)
                    &&& f2 == fraction_digit(body, 2)
                },
                None => !is_decimal(body),
            }
        }),
{
    let ghost body = cs@.skip(start as int);
    let mut k: usize = start;
    while k < cs.len() && cs[k] != '.'
        invariant
            start <= k <= cs@.len(),
            body == cs@.skip(start as int),
            forall|i: int| start <= i < k ==> cs@[i] != '.',
        decreases cs@.len() - k,
    {
        k = k + 1;
    }
    proof {
        assert forall|i: int| 0 <= i < k - start implies body[i] != '.' by {
            assert(body[i] == cs@[start + i]);
        }
        if k < cs@.len() {
            assert(body[k - start] == cs@[k as int]);
        }
        lemma_first_dot_unique(body, k - start);
    }
    let ghost kd = k - start;
    // every character but the decimal point must be a digit
    let mut i: usize = start;
    while i < cs.len()
        invariant
            start <= i <= cs@.len(),
            start <= k <= cs@.len(),
            body == cs@.skip(start as int),
            kd == k - start,
            kd == first_dot(body),
            forall|j: int| 0 <= j < i - start && j != kd ==> is_digit(#[trigger] body[j]),
        decreases cs@.len() - i,
    {
        if i != k && to_digit(cs[i]).is_none() {
            assert(!is_digit(body[i - start]));
            return None;
        }
        assert(body[i - start] == cs@[i as int]);
        i = i + 1;
    }
    if k == start && cs.len() - k <= 1 {
        return None;
    }
    let mut w: u64 = 0;
    let mut j: usize = start;
    while j < k
        invariant
            start <= j <= k <= cs@.len(),
            body == cs@.skip(start as int),
            kd == k - start,
            kd == first_dot(body),
            forall|m: int| 0 <= m < body.len() && m != kd ==> is_digit(#[trigger] body[m]),
            w == min_nat(digits_value(body.take(j - start)), limit as nat),
            limit >= 10,
        decreases k - j,
    {
        assert(body[j - start] == cs@[j as int]);
        let d = to_digit(cs[j]).unwrap();
        proof {
            assert(body.take(j - start + 1).drop_last() == body.take(j - start));
        }
        if w == limit || w > (limit - d as u64) / 10 {
            w = limit;
        } else {
            w = w * 10 + d as u64;
        }
        j = j + 1;
    }
    assert(body.take(kd) == whole_part(body));
    let mut f: [u64; 3] = [0u64; 3];
    let mut m: usize = 0;
    while m < 3
        invariant
            m <= 3,
            start <= k <= cs@.len(),
            body == cs@.skip(start as int),
            kd == k - start,
            kd == first_dot(body),
            forall|q: int| 0 <= q < body.len() && q != kd ==> is_digit(#[trigger] body[q]),
            forall|q: int| 0 <= q < m ==> f@[q] == fraction_digit(body, q),
            forall|q: int| m <= q < 3 ==> f@[q] == 0,
        decreases 3 - m,
    {
        if m + 1 < cs.len() - k {
            assert(body[kd + 1 + m] == cs@[k + 1 + m]);
            let d = to_digit(cs[k + 1 + m]).unwrap();
            f[m] = d as u64;
        }
        m = m + 1;
    }
    Some((w, f[0], f[1], f[2]))
}

/// Reads a price in cents: every character but digits and the decimal point is removed, the
/// rest is read as a decimal number of currency units and rounded to the nearest cent.
/// None when what remains is no decimal number or the amount does not fit an `i64`.
pub fn price_from_str(price_str: &str) -> (r: Option<i64>)
    ensures
        r matches Some(c) ==> price_cents(price_str@) == Some(c as int),
        r is None ==> price_cents(price_str@) is None,
{
    let all = chars_of(price_str);
    let mut cs: Vec<char> = Vec::new();
    for i in 0..all.len()
        invariant
            all@ == price_str@,
            cs@ == price_chars(all@.take(i as int)),
    {
        proof {
            assert(all@.take(i + 1).drop_last() == all@.take(i as int));
        }
        let c = all[i];
        if c == '.' || to_digit(c).is_some() {
            cs.push(c);
        }
    }
    assert(all@.take(all@.len() as int) == all@);
    match read_decimal(&cs, 0, MAX_WHOLE_CENTS + 1) {
        None => {
            assert(cs@.skip(0) == cs@);
            None
        },
        Some((w, f0, f1, f2)) => {
            assert(cs@.skip(0) == cs@);
            let round: u64 = if f2 >= 5 { 1 } else { 0 };
            let frac: u64 = f0 * 10 + f1 + round;
            if w > MAX_WHOLE_CENTS || w > (9223372036854775807u64 - frac) / 100 {
                None
            } else {
                Some((w * 100 + frac) as i64)
            }
        },
    }
}

/// Reads a stock quantity: an optionally signed decimal number, truncated toward zero to whole
/// units. None when `s` is no such number or the amount does not fit an `i64`.
pub fn parse_quantity(s: &str) -> (r: Option<i64>)
    ensures
        r matches Some(q) ==> quantity_units(s@) == Some(q as int),
        r is None ==> quantity_units(s@) is None,
{
    let cs = chars_of(s);
    let signed = cs.len() > 0 && (cs[0] == '-' || cs[0] == '+');
    let start: usize = if signed { 1 } else { 0 };
    assert(cs@.skip(0) == cs@);
    match read_decimal(&cs, start, 9223372036854775808u64) {
        None => None,
        Some((w, _f0, _f1, _f2)) => {
            if w > 9223372036854775807u64 {
                None
            } else if signed && cs[0] == '-' {
                Some(-(w as i64))
            } else {
                Some(w as i64)
            }
        },
    }
}

/// A price in whole cents as the legacy price report gives it: an optionally signed decimal
/// number, truncated to the cent, with negative amounts read as 0 and amounts beyond `u32::MAX`
/// cents read as `u32::MAX`. None when `s` is no such number.
pub open spec fn report_cents(s: Seq<char>) -> Option<int> {
    let signed = s.len() > 0 && (s[0] == '-' || s[0] == '+');
    let body = if signed {
        s.skip(1)
    } else {
        s
    };
    let c = digits_value(whole_part(body)) * 100 + fraction_digit(body, 0) * 10 + fraction_digit(
        body,
        1,
    );
    if !is_decimal(body) {
        None
    } else if signed && s[0] == '-' {
        Some(0)
    } else if c > u32::MAX {
        Some(u32::MAX as int)
    } else {
        Some(c as int)
    }
}

/// Reads a price of the legacy price report in whole cents; see `report_cents`.
pub fn report_price_cents(s: &str) -> (r: Option<u32>)
    ensures
        r matches Some(c) ==> report_cents(s@) == Some(c as int),
        r is None ==> report_cents(s@) is None,
{
    let cs = chars_of(s);
    let signed = cs.len() > 0 && (cs[0] == '-' || cs[0] == '+');
    let start: usize = if signed { 1 } else { 0 };
    assert(cs@.skip(0) == cs@);
    match read_decimal(&cs, start, 42949673) {
        None => None,
        Some((w, f0, f1, _f2)) => {
            if signed && cs[0] == '-' {
                Some(0)
            } else {
                let c: u64 = w * 100 + f0 * 10 + f1;
                if c > 4294967295 {
                    Some(4294967295u32)
                } else {
                    Some(c as u32)
                }
            }
        },
    }
}

/// The decimal digits of `n`, most significant first, with no leading zero.
pub open spec fn decimal_digits(n: nat) -> Seq<u8>
    decreases n,
{
    if n < 10 {
        seq![n as u8]
    } else {
        decimal_digits(n / 10).push((n % 10) as u8)
    }
}

/// An amount of cents written in currency units with two decimals, such as `12.05`.
pub open spec fn cents_text(c: nat) -> Seq<char> {
    digits_text(decimal_digits(c / 100)) + seq!['.', digit_char(((c / 10) % 10) as u8), digit_char((c % 10) as u8)]
}

/// Appends the decimal digits of `n`.
fn push_decimal(out: &mut String, n: u64)
    ensures
        final(out)@ == old(out)@ + digits_text(decimal_digits(n as nat)),
    decreases n,
{
    if n >= 10 {
        push_decimal(out, n / 10);
    }
    push_char(out, to_digit_char((n % 10) as u8));
    proof {
        if n >= 10 {
            assert(digits_text(decimal_digits(n as nat)) =~= digits_text(decimal_digits((n / 10) as nat)).push(
                digit_char((n % 10) as u8),
            ));
        } else {
            assert(digits_text(decimal_digits(n as nat)) =~= seq![digit_char((n % 10) as u8)]);
        }
    }
}

/// Writes an amount of cents in currency units with two decimals, such as `12.05`.
pub fn format_cents(cents: u64) -> (r: String)
    ensures
        r@ == cents_text(cents as nat),
{
    let mut out = String::new();
    push_decimal(&mut out, cents / 100);
    push_char(&mut out, '.');
    push_char(&mut out, to_digit_char(((cents / 10) % 10) as u8));
    push_char(&mut out, to_digit_char((cents % 10) as u8));
    assert(out@ =~= cents_text(cents as nat));
    out
}

} // verus!
