use vstd::prelude::*;

verus! {

/// Whether `c` is an ASCII decimal digit, the only characters `char::to_digit(10)` accepts.
pub open spec fn is_digit(c: char) -> bool {
    '0' <= c && c <= '9'
}

/// The value of an ASCII decimal digit.
pub open spec fn digit_value(c: char) -> u8
    recommends
        is_digit(c),
{
    (c as u32 - '0' as u32) as u8
}

/// The decimal digits of `s`, in order, every other character dropped.
pub open spec fn digits_in(s: Seq<char>) -> Seq<u8>
    decreases s.len(),
{
    if s.len() == 0 {
        Seq::empty()
    } else if is_digit(s.last()) {
        digits_in(s.drop_last()).push(digit_value(s.last()))
    } else {
        digits_in(s.drop_last())
    }
}

/// The decimal value of `c`, if it is a digit.
pub fn to_digit(c: char) -> (r: Option<u8>)
    ensures
        r == (if is_digit(c) { Some(digit_value(c)) } else { None::<u8> }),
{
    if '0' <= c && c <= '9' {
        Some((c as u32 - '0' as u32) as u8)
    } else {
        None
    }
}

/// The decimal digits of `s`, in order.
pub fn collect_digits(s: &str) -> (r: Vec<u8>)
    ensures
        r@ == digits_in(s@),
{
    let mut out: Vec<u8> = Vec::new();
    let ghost mut seen: Seq<char> = Seq::empty();
    for c in it: s.chars()
        invariant
            seen == it.seq().take(it.index() as int),
            it.seq() == s@,
            out@ == digits_in(seen),
    {
        proof {
            assert(seen.push(c).drop_last() == seen);
        }
        match to_digit(c) {
            Some(d) => out.push(d),
            None => {},
        }
        proof {
            seen = seen.push(c);
        }
    }
    proof {
        assert(seen == s@);
    }
    out
}

/// The character that writes the digit `d`.
pub open spec fn digit_char(d: u8) -> char {
    ((d + 48) as u8) as char
}

/// The digits `d` written out as text.
pub open spec fn digits_text(d: Seq<u8>) -> Seq<char> {
    d.map_values(|x: u8| digit_char(x))
}

/// Writing digits out and reading them back gives the same digits.
pub proof fn lemma_digits_text_round_trip(d: Seq<u8>)
    requires
        forall|i: int| 0 <= i < d.len() ==> d[i] < 10,
    ensures
        digits_in(digits_text(d)) == d,
    decreases d.len(),
{
    if d.len() > 0 {
        let t = digits_text(d);
        assert(t.drop_last() == digits_text(d.drop_last()));
        lemma_digits_text_round_trip(d.drop_last());
        assert(is_digit(t.last()));
        assert(digit_value(t.last()) == d.last());
        assert(d.drop_last().push(d.last()) == d);
    }
}

/// Relies on `String::push`: the character is appended at the end.
#[verifier::external_body]
pub(crate) fn push_char(s: &mut String, c: char)
    ensures
        final(s)@ == old(s)@.push(c),
{
    s.push(c);
}

/// The character that writes the digit `d`.
pub fn to_digit_char(d: u8) -> (c: char)
    requires
        d < 10,
    ensures
        c == digit_char(d),
{
    (d + 48u8) as char
}

/// The pieces of `s` between occurrences of `sep`, as `str::split` yields them: text without
/// `sep` is one piece, and the empty text is one empty piece.
pub open spec fn split_text(s: Seq<char>, sep: char) -> Seq<Seq<char>>
    decreases s.len(),
{
    if s.len() == 0 {
        seq![Seq::empty()]
    } else {
        let r = split_text(s.drop_last(), sep);
        if s.last() == sep {
            r.push(Seq::empty())
        } else {
            r.update(r.len() - 1, r.last().push(s.last()))
        }
    }
}

/// There is always at least one piece.
pub proof fn lemma_split_text_nonempty(s: Seq<char>, sep: char)
    ensures
        split_text(s, sep).len() >= 1,
    decreases s.len(),
{
    if s.len() > 0 {
        lemma_split_text_nonempty(s.drop_last(), sep);
    }
}

/// Splits `s` at every occurrence of `sep`.
pub fn split_on(s: &str, sep: char) -> (r: Vec<String>)
    ensures
        r@.len() == split_text(s@, sep).len(),
        forall|i: int| 0 <= i < r@.len() ==> #[trigger] r@[i]@ == split_text(s@, sep)[i],
{
    let mut out: Vec<String> = Vec::new();
    let mut current = String::new();
    let ghost mut seen: Seq<char> = Seq::empty();
    for c in it: s.chars()
        invariant
            seen == it.seq().take(it.index() as int),
            it.seq() == s@,
            out@.len() + 1 == split_text(seen, sep).len(),
            forall|i: int| 0 <= i < out@.len() ==> #[trigger] out@[i]@ == split_text(seen, sep)[i],
            current@ == split_text(seen, sep).last(),
    {
        proof {
            assert(seen.push(c).drop_last() == seen);
            lemma_split_text_nonempty(seen, sep);
        }
        if c == sep {
            let piece = current;
            out.push(piece);
            current = String::new();
        } else {
            push_char(&mut current, c);
        }
        proof {
            seen = seen.push(c);
        }
    }
    proof {
        assert(seen == s@);
        lemma_split_text_nonempty(s@, sep);
    }
    out.push(current);
    proof {
        assert forall|i: int| 0 <= i < out@.len() implies #[trigger] out@[i]@ == split_text(s@, sep)[i] by {
            if i == out@.len() - 1 {
                assert(split_text(s@, sep)[i] == split_text(s@, sep).last());
            }
        }
    }
    out
}

/// The characters of `s`, in order.
pub fn chars_of(s: &str) -> (r: Vec<char>)
    ensures
        r@ == s@,
{
    let mut out: Vec<char> = Vec::new();
    for c in it: s.chars()
        invariant
            it.seq() == s@,
            out@ == it.seq().take(it.index() as int),
    {
        out.push(c);
    }
    out
}

/// The upper-case form of a text, as `str::to_uppercase` gives it.
pub uninterp spec fn upper_of(s: Seq<char>) -> Seq<char>;

/// Relies on `str::to_uppercase`: the upper-case form depends on the characters alone.
#[verifier::external_body]
pub(crate) fn to_upper(s: &str) -> (r: String)
    ensures
        r@ == upper_of(s@),
{
    s.to_uppercase()
}

/// Whether a character is white space, as `char::is_whitespace` (the Unicode `White_Space`
/// property) says.
pub uninterp spec fn white_space(c: char) -> bool;

/// Relies on `char::is_whitespace`: the answer depends on the character alone.
#[verifier::external_body]
pub(crate) fn is_white_space(c: char) -> (r: bool)
    ensures
        r == white_space(c),
{
    c.is_whitespace()
}

/// Whether `s` holds nothing but white space: what `str::trim` leaves of it is empty.
pub open spec fn blank(s: Seq<char>) -> bool {
    forall|i: int| 0 <= i < s.len() ==> white_space(#[trigger] s[i])
}

/// Whether `s` holds nothing but white space.
pub fn is_blank(s: &str) -> (r: bool)
    ensures
        r == blank(s@),
{
    for c in it: s.chars()
        invariant
            it.seq() == s@,
            forall|i: int| 0 <= i < it.index() ==> white_space(#[trigger] s@[i]),
    {
        if !is_white_space(c) {
            assert(s@[it.index() as int] == c);
            return false;
        }
    }
    true
}

/// A piece that ended at a newline, without the carriage return that may precede it.
pub open spec fn strip_cr(s: Seq<char>) -> Seq<char> {
    if s.len() > 0 && s.last() == '\r' {
        s.drop_last()
    } else {
        s
    }
}

/// The lines of `s`, as `str::lines` yields them: split at each newline, a carriage return
/// before a newline dropped, and no empty line after a final newline.
pub open spec fn lines_of(s: Seq<char>) -> Seq<Seq<char>> {
    let p = split_text(s, '\n');
    let ended = p.drop_last().map_values(|x: Seq<char>| strip_cr(x));
    if p.last().len() == 0 {
        ended
    } else {
        ended.push(p.last())
    }
}

/// The lines of `s`.
pub fn lines(s: &str) -> (r: Vec<String>)
    ensures
        r@.len() == lines_of(s@).len(),
        forall|i: int| 0 <= i < r@.len() ==> #[trigger] r@[i]@ == lines_of(s@)[i],
{
    let pieces = split_on(s, '\n');
    proof {
        lemma_split_text_nonempty(s@, '\n');
    }
    let ghost p = split_text(s@, '\n');
    let n = pieces.len();
    let mut out: Vec<String> = Vec::new();
    for i in 0..n - 1
        invariant
            n == pieces@.len(),
            n == p.len(),
            n >= 1,
            p == split_text(s@, '\n'),
            forall|j: int| 0 <= j < n ==> #[trigger] pieces@[j]@ == p[j],
            out@.len() == i,
            forall|j: int| 0 <= j < i ==> #[trigger] out@[j]@ == strip_cr(p[j]),
    {
        let piece = pieces[i].as_str();
        let cs = chars_of(piece);
        let k = cs.len();
        if k > 0 && cs[k - 1] == '\r' {
            let mut line = String::new();
            for m in 0..k - 1
                invariant
                    cs@ == p[i as int],
                    k == cs@.len(),
                    k > 0,
                    line@ == cs@.take(m as int),
            {
                push_char(&mut line, cs[m]);
                assert(cs@.take(m + 1) == cs@.take(m as int).push(cs@[m as int]));
            }
            assert(cs@.take(k - 1) == cs@.drop_last());
            out.push(line);
        } else {
            out.push(pieces[i].clone());
        }
    }
    let last = &pieces[n - 1];
    if !last.as_str().is_empty() {
        out.push(last.clone());
    } else {
        assert(p.last().len() == 0);
    }
    proof {
        let ended = p.drop_last().map_values(|x: Seq<char>| strip_cr(x));
        assert(ended.len() == n - 1);
        assert forall|j: int| 0 <= j < n - 1 implies #[trigger] ended[j] == strip_cr(p[j]) by {}
    }
    out
}

} // verus!
