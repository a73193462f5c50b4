use vstd::prelude::*;

use crate::text::{
    collect_digits, digit_char, digits_in, digits_text, is_digit, lemma_digits_text_round_trip,
    push_char, split_on, split_text, to_digit, to_digit_char,
};

verus! {

/// Why text could not be read as a UPC.
#[derive(Debug, Clone, Copy, PartialEq, Eq, Structural)]
pub enum UpcError {
    InvalidLength,
    NonNumericCharacter,
}

/// The weight of the digit at 0-based position `i` in the UPC-A checksum.
pub open spec fn weight(i: int) -> int {
    if i % 2 == 0 {
        3
    } else {
        1
    }
}

/// The weighted sum of the first `n` digits of `p`.
pub open spec fn weighted_sum(p: Seq<u8>, n: int) -> int
    decreases n,
{
    if n <= 0 {
        0
    } else {
        weighted_sum(p, n - 1) + weight(n - 1) * p[n - 1]
    }
}

/// The UPC-A check digit of the first 11 digits of `p`.
pub open spec fn check_digit(p: Seq<u8>) -> u8 {
    ((10 - weighted_sum(p, 11) % 10) % 10) as u8
}

/// Whether every element of `d` is a decimal digit.
pub open spec fn all_decimal(d: Seq<u8>) -> bool {
    forall|i: int| 0 <= i < d.len() ==> d[i] < 10
}

/// Whether the first 11 elements of `d` (all of them when there are fewer) are decimal digits:
/// the ones the check digit is computed from.
pub open spec fn leading_decimal(d: Seq<u8>) -> bool {
    forall|i: int| 0 <= i < d.len() && i < 11 ==> d[i] < 10
}

/// Twelve digits whose last is the check digit of the other eleven.
pub open spec fn is_canonical(d: Seq<u8>) -> bool {
    &&& d.len() == 12
    &&& all_decimal(d)
    &&& d[11] == check_digit(d)
}

/// The first 11 digits of `d` followed by their check digit.
pub open spec fn with_check_digit(d: Seq<u8>) -> Seq<u8> {
    d.take(11).push(check_digit(d))
}

/// The last 12 of the digits `d`; all of them when there are no more than 12.
pub open spec fn last_twelve(d: Seq<u8>) -> Seq<u8> {
    if d.len() > 12 {
        d.skip(d.len() - 12)
    } else {
        d
    }
}

/// The canonical UPC made from a run of digits: the last 12, with the check digit recomputed.
/// None when fewer than 11 digits are available.
pub open spec fn canonical_from_digits(d: Seq<u8>) -> Option<Seq<u8>> {
    let t = last_twelve(d);
    if t.len() < 11 {
        None
    } else {
        Some(with_check_digit(t))
    }
}

/// Lenient reading: every character that is not a digit is dropped.
pub open spec fn normalized(s: Seq<char>) -> Option<Seq<u8>> {
    canonical_from_digits(digits_in(s))
}

/// Strict reading: any character that is not a digit is an error.
pub open spec fn parsed_strict(s: Seq<char>) -> Result<Seq<u8>, UpcError> {
    if exists|i: int| 0 <= i < s.len() && !is_digit(#[trigger] s[i]) {
        Err(UpcError::NonNumericCharacter)
    } else {
        match normalized(s) {
            Some(d) => Ok(d),
            None => Err(UpcError::InvalidLength),
        }
    }
}

/// The text of a UPC: its twelve digits.
pub open spec fn upc_text(d: Seq<u8>) -> Seq<char> {
    digits_text(d)
}

/// A canonical 12-digit UPC-A code whose check digit always matches the other eleven.
#[derive(Debug, Clone, Copy)]
pub struct Upc {
    upc: [u8; 12],
}

impl View for Upc {
    type V = Seq<u8>;

    closed spec fn view(&self) -> Seq<u8> {
        self.upc@
    }
}

impl Upc {
    #[verifier::type_invariant]
    closed spec fn inv(&self) -> bool {
        is_canonical(self.upc@)
    }

    /// The UPC made from the first 11 digits of `upc`, with the check digit recomputed.
    /// None when `upc` holds fewer than 11 digits.
    pub fn fix_check_digit(upc: &[u8]) -> (r: Option<Upc>)
        requires
            leading_decimal(upc@),
        ensures
            match r {
                Some(u) => upc@.len() >= 11 && u@ == with_check_digit(upc@),
                None => upc@.len() < 11,
            },
    {
        if upc.len() < 11 {
            return None;
        }
        let mut fixed = [0u8; 12];
        let mut sum: u32 = 0;
        let mut i: usize = 0;
        while i < 11
            invariant
                i <= 11,
                upc@.len() >= 11,
                leading_decimal(upc@),
                sum == weighted_sum(upc@, i as int),
                sum <= 27 * i,
                fixed@.len() == 12,
                forall|j: int| 0 <= j < i ==> fixed@[j] == upc@[j],
            decreases 11 - i,
        {
            let d = upc[i];
            if i % 2 == 0 {
                sum = sum + 3 * (d as u32);
            } else {
                sum = sum + (d as u32);
            }
            fixed[i] = d;
            i = i + 1;
        }
        let check: u8 = ((10 - sum % 10) % 10) as u8;
        fixed[11] = check;
        let ghost want = with_check_digit(upc@);
        assert(fixed@ =~= want);
        proof {
            assert(check_digit(want) == check_digit(upc@)) by {
                lemma_weighted_sum_prefix(upc@, want, 11);
            }
        }
        Some(Upc { upc: fixed })
    }

    /// Lenient reading of a UPC: characters that are not digits are dropped, only the last 12
    /// digits are kept, and the check digit is recomputed.
    pub fn normalize(unformatted: &str) -> (r: Option<Upc>)
        ensures
            match r {
                Some(u) => normalized(unformatted@) == Some(u@),
                None => normalized(unformatted@) is None,
            },
    {
        let digits = collect_digits(unformatted);
        proof {
            lemma_digits_in_decimal(unformatted@);
        }
        Upc::from_digits(digits)
    }

    /// Strict reading of a UPC: a character that is not a digit is an error, only the last 12
    /// digits are kept, and the check digit is recomputed.
    pub fn try_from_str_like(string_like: &str) -> (r: Result<Upc, UpcError>)
        ensures
            match r {
                Ok(u) => parsed_strict(string_like@) == Ok::<Seq<u8>, UpcError>(u@),
                Err(e) => parsed_strict(string_like@) == Err::<Seq<u8>, UpcError>(e),
            },
    {
        let mut upc_bytes: Vec<u8> = Vec::new();
        let ghost mut seen: Seq<char> = Seq::empty();
        for c in it: string_like.chars()
            invariant
                seen == it.seq().take(it.index() as int),
                it.seq() == string_like@,
                forall|j: int| 0 <= j < seen.len() ==> is_digit(#[trigger] seen[j]),
                upc_bytes@ == digits_in(seen),
        {
            proof {
                assert(seen.push(c).drop_last() == seen);
            }
            match to_digit(c) {
                Some(d) => upc_bytes.push(d),
                None => {
                    proof {
                        assert(string_like@[seen.len() as int] == c);
                    }
                    return Err(UpcError::NonNumericCharacter);
                },
            }
            proof {
                seen = seen.push(c);
            }
        }
        proof {
            assert(seen == string_like@);
            lemma_digits_in_decimal(string_like@);
        }
        match Upc::from_digits(upc_bytes) {
            Some(u) => Ok(u),
            None => Err(UpcError::InvalidLength),
        }
    }

    /// The canonical UPC made from a run of digits.
    fn from_digits(digits: Vec<u8>) -> (r: Option<Upc>)
        requires
            all_decimal(digits@),
        ensures
            match r {
                Some(u) => canonical_from_digits(digits@) == Some(u@),
                None => canonical_from_digits(digits@) is None,
            },
    {
        let n = digits.len();
        if n > 12 {
            let tail = &digits.as_slice()[n - 12..n];
            assert(tail@ =~= last_twelve(digits@));
            Upc::fix_check_digit(tail)
        } else {
            Upc::fix_check_digit(digits.as_slice())
        }
    }

    /// Splits a comma-separated list of UPCs and reads each entry leniently.
    pub fn from_abc_upc_list(abc_upc_list: &str) -> (r: Vec<Option<Upc>>)
        ensures
            r@.len() == split_text(abc_upc_list@, ',').len(),
            forall|i: int|
                0 <= i < r@.len() ==> match #[trigger] r@[i] {
                    Some(u) => normalized(split_text(abc_upc_list@, ',')[i]) == Some(u@),
                    None => normalized(split_text(abc_upc_list@, ',')[i]) is None,
                },
    {
        let parts = split_on(abc_upc_list, ',');
        let mut out: Vec<Option<Upc>> = Vec::new();
        for i in 0..parts.len()
            invariant
                parts@.len() == split_text(abc_upc_list@, ',').len(),
                forall|j: int| 0 <= j < parts@.len() ==> #[trigger] parts@[j]@ == split_text(abc_upc_list@, ',')[j],
                out@.len() == i,
                forall|j: int|
                    0 <= j < i ==> match #[trigger] out@[j] {
                        Some(u) => normalized(split_text(abc_upc_list@, ',')[j]) == Some(u@),
                        None => normalized(split_text(abc_upc_list@, ',')[j]) is None,
                    },
        {
            out.push(Upc::normalize(parts[i].as_str()));
        }
        out
    }

    /// The twelve digits as text.
    pub fn to_string(&self) -> (r: String)
        ensures
            r@ == upc_text(self@),
            is_canonical(self@),
    {
        proof {
            use_type_invariant(self);
        }
        let mut out = String::new();
        let mut i: usize = 0;
        while i < 12
            invariant
                i <= 12,
                is_canonical(self.upc@),
                out@ == upc_text(self.upc@.take(i as int)),
            decreases 12 - i,
        {
            push_char(&mut out, to_digit_char(self.upc[i]));
            assert(self.upc@.take(i + 1) == self.upc@.take(i as int).push(self.upc@[i as int]));
            i = i + 1;
        }
        assert(self.upc@.take(12) == self.upc@);
        out
    }
}

/// The check digit is a function of the first eleven digits alone and is always one of 0 to 9.
pub proof fn lemma_check_digit_is_digit(p: Seq<u8>, q: Seq<u8>)
    requires
        p.len() >= 11,
        q.len() >= 11,
        p.take(11) == q.take(11),
    ensures
        check_digit(p) < 10,
        check_digit(p) == check_digit(q),
{
    assert forall|j: int| 0 <= j < 11 implies p[j] == q[j] by {
        assert(p[j] == p.take(11)[j]);
        assert(q[j] == q.take(11)[j]);
    }
    lemma_weighted_sum_prefix(p, q, 11);
}

/// Eleven digits followed by their check digit form a canonical UPC.
pub proof fn lemma_with_check_digit_canonical(d: Seq<u8>)
    requires
        d.len() >= 11,
        all_decimal(d),
    ensures
        is_canonical(with_check_digit(d)),
        with_check_digit(d).take(11) == d.take(11),
{
    let u = with_check_digit(d);
    assert(u.take(11) =~= d.take(11));
    lemma_check_digit_is_digit(u, d);
}

/// The UPC made from a run of digits depends on its first eleven alone, and is canonical.
pub proof fn lemma_with_check_digit_prefix(a: Seq<u8>, b: Seq<u8>)
    requires
        a.len() >= 11,
        b.len() >= 11,
        a.take(11) == b.take(11),
        leading_decimal(a),
    ensures
        with_check_digit(a) == with_check_digit(b),
        is_canonical(with_check_digit(a)),
{
    lemma_check_digit_is_digit(a, b);
    let u = with_check_digit(a);
    assert(u.take(11) =~= a.take(11));
    assert forall|i: int| 0 <= i < 12 implies u[i] < 10 by {
        if i < 11 {
            assert(u[i] == a.take(11)[i]);
        }
    }
    lemma_check_digit_is_digit(u, a);
}

/// Whatever the lenient reading produces is canonical.
pub proof fn lemma_normalized_canonical(s: Seq<char>)
    ensures
        normalized(s) matches Some(d) ==> is_canonical(d),
{
    lemma_digits_in_decimal(s);
    let t = last_twelve(digits_in(s));
    if t.len() >= 11 {
        assert(all_decimal(t));
        lemma_with_check_digit_canonical(t);
    }
}

/// Reading the text of a canonical UPC gives back the same UPC: the check digit that is
/// recomputed is the one already there.
pub proof fn lemma_canonical_text_round_trip(d: Seq<u8>)
    requires
        is_canonical(d),
    ensures
        normalized(upc_text(d)) == Some(d),
        parsed_strict(upc_text(d)) == Ok::<Seq<u8>, UpcError>(d),
{
    lemma_digits_text_round_trip(d);
    let w = with_check_digit(d);
    assert(w =~= d);
    let t = upc_text(d);
    assert forall|i: int| 0 <= i < t.len() implies is_digit(#[trigger] t[i]) by {
        assert(d[i] < 10);
    }
}

/// Normalizing twice is normalizing once: the text of a normalized UPC normalizes to itself.
/// In particular eleven digits followed by their check digit normalize to themselves.
pub proof fn lemma_normalize_idempotent(s: Seq<char>)
    ensures
        normalized(s) matches Some(d) ==> normalized(upc_text(d)) == normalized(s),
{
    lemma_normalized_canonical(s);
    if let Some(d) = normalized(s) {
        lemma_canonical_text_round_trip(d);
    }
}

/// Appending the check digit to eleven digits and normalizing the text gives those twelve
/// digits back.
pub proof fn lemma_append_check_digit_stable(p: Seq<u8>)
    requires
        p.len() == 11,
        all_decimal(p),
    ensures
        normalized(upc_text(p.push(check_digit(p)))) == Some(p.push(check_digit(p))),
{
    lemma_with_check_digit_canonical(p);
    assert(with_check_digit(p) =~= p.push(check_digit(p)));
    lemma_canonical_text_round_trip(p.push(check_digit(p)));
}

/// The digits read from text are decimal digits.
proof fn lemma_digits_in_decimal(s: Seq<char>)
    ensures
        all_decimal(digits_in(s)),
    decreases s.len(),
{
    if s.len() > 0 {
        lemma_digits_in_decimal(s.drop_last());
    }
}

/// The weighted sum of the first `n` digits depends on those digits alone.
proof fn lemma_weighted_sum_prefix(a: Seq<u8>, b: Seq<u8>, n: int)
    requires
        0 <= n <= a.len(),
        n <= b.len(),
        forall|j: int| 0 <= j < n ==> a[j] == b[j],
    ensures
        weighted_sum(a, n) == weighted_sum(b, n),
    decreases n,
{
    if n > 0 {
        lemma_weighted_sum_prefix(a, b, n - 1);
    }
}

} // verus!
