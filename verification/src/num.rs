//! Decimal numbers in text: what `str::parse` reads and what `Display`
//! writes for unsigned integers.
use vstd::prelude::*;
use crate::text::{chars_of, string_of};

verus! {

broadcast use vstd::string::group_string_axioms;

/// An ASCII digit.
pub open spec fn is_digit(c: char) -> bool {
    '0' <= c && c <= '9'
}

/// The value of a digit.
pub open spec fn digit_value(c: char) -> int {
    (c as u32) - ('0' as u32)
}

/// The value of a run of digits.
pub open spec fn digits_value(s: Seq<char>) -> int
    decreases s.len(),
{
    if s.len() == 0 {
        0
    } else {
        digits_value(s.drop_last()) * 10 + digit_value(s.last())
    }
}

pub open spec fn all_digits(s: Seq<char>) -> bool {
    forall|i: int| 0 <= i < s.len() ==> is_digit(#[trigger] s[i])
}

/// What `str::parse::<u64>` (or `usize` with `max`) gives: an optional
/// `+` followed by one or more digits whose value is at most `max`.
pub open spec fn parsed_unsigned(s: Seq<char>, max: int) -> Option<int> {
    let d = if s.len() > 0 && s[0] == '+' {
        s.drop_first()
    } else {
        s
    };
    if d.len() > 0 && all_digits(d) && digits_value(d) <= max {
        Some(digits_value(d))
    } else {
        None
    }
}

proof fn lemma_digits_nonneg(s: Seq<char>)
    requires
        all_digits(s),
    ensures
        digits_value(s) >= 0,
    decreases s.len(),
{
    if s.len() > 0 {
        assert(all_digits(s.drop_last())) by {
            assert forall|i: int| 0 <= i < s.drop_last().len() implies is_digit(
                #[trigger] s.drop_last()[i],
            ) by {
                assert(s.drop_last()[i] == s[i]);
            }
        }
        lemma_digits_nonneg(s.drop_last());
        assert(is_digit(s[s.len() - 1]));
    }
}

/// Reads an unsigned decimal number no larger than `max` (see
/// `parsed_unsigned`).
pub fn parse_unsigned(s: &str, max: u64) -> (r: Option<u64>)
    ensures
        match r {
            Some(n) => parsed_unsigned(s@, max as int) == Some(n as int),
            None => parsed_unsigned(s@, max as int) is None,
        },
{
    let cs = chars_of(s);
    let start: usize = if cs.len() > 0 && cs[0] == '+' {
        1
    } else {
        0
    };
    let ghost d = if s@.len() > 0 && s@[0] == '+' {
        s@.drop_first()
    } else {
        s@
    };
    assert(d =~= cs@.skip(start as int));
    if start >= cs.len() {
        return None;
    }
    let mut acc: u64 = 0;
    let mut i: usize = start;
    assert(d.take(0) =~= Seq::<char>::empty());
    while i < cs.len()
        invariant
            start <= i <= cs.len(),
            cs@ == s@,
            d == (if s@.len() > 0 && s@[0] == '+' {
                s@.drop_first()
            } else {
                s@
            }),
            d.len() > 0,
            d =~= cs@.skip(start as int),
            all_digits(d.take(i - start)),
            acc as int == digits_value(d.take(i - start)),
            acc <= max,
        decreases cs.len() - i,
    {
        let c = cs[i];
        assert(d[i - start] == c);
        assert(d.take(i - start + 1).drop_last() =~= d.take(i - start));
        assert(d.take(i - start + 1).last() == c);
        if !('0' <= c && c <= '9') {
            proof {
                assert(!all_digits(d)) by {
                    assert(!is_digit(d[i - start]));
                }
            }
            return None;
        }
        let v: u64 = (c as u32 - '0' as u32) as u64;
        if v > max || acc > (max - v) / 10 {
            proof {
                assert(digits_value(d.take(i - start + 1)) == acc * 10 + v);
                // Every further digit keeps the value above `max`.
                if v > max {
                    assert(acc * 10 + v > max) by (nonlinear_arith)
                        requires
                            v > max,
                            acc >= 0,
                    ;
                } else {
                    assert(acc * 10 + v > max) by (nonlinear_arith)
                        requires
                            acc > (max - v) / 10,
                            v <= max,
                    ;
                }
                lemma_prefix_grows(d, i - start + 1);
            }
            return None;
        }
        acc = acc * 10 + v;
        i = i + 1;
        proof {
            assert(all_digits(d.take(i - start))) by {
                assert forall|k: int| 0 <= k < d.take(i - start).len() implies is_digit(
                    #[trigger] d.take(i - start)[k],
                ) by {
                    if k < i - start - 1 {
                        assert(d.take(i - start)[k] == d.take(i - start - 1)[k]);
                    }
                }
            }
        }
    }
    assert(d.take(cs.len() - start) =~= d);
    Some(acc)
}

/// A number read as `str::parse` reads it (see `parsed_unsigned`), or
/// zero where it does not read.
pub open spec fn number_or_zero(s: Seq<char>, max: int) -> int {
    match parsed_unsigned(s, max) {
        Some(n) => n,
        None => 0,
    }
}

/// Reads a number no larger than `max`, or zero (see `number_or_zero`).
pub fn number_or_zero_exec(w: &Vec<char>, max: u64) -> (r: u64)
    ensures
        r as int == number_or_zero(w@, max as int),
        r <= max,
{
    let s = string_of(w.as_slice());
    match parse_unsigned(s.as_str(), max) {
        Some(n) => n,
        None => 0,
    }
}

proof fn lemma_prefix_grows(d: Seq<char>, k: int)
    requires
        0 < k <= d.len(),
    ensures
        all_digits(d) ==> digits_value(d) >= digits_value(d.take(k)),
    decreases d.len() - k,
{
    if k < d.len() {
        lemma_prefix_grows(d, k + 1);
        assert(d.take(k + 1).drop_last() =~= d.take(k));
        if all_digits(d) {
            assert(is_digit(d[k]));
            assert(all_digits(d.take(k))) by {
                assert forall|i: int| 0 <= i < d.take(k).len() implies is_digit(
                    #[trigger] d.take(k)[i],
                ) by {
                    assert(d.take(k)[i] == d[i]);
                }
            }
            lemma_digits_nonneg(d.take(k));
        }
    } else {
        assert(d.take(k) =~= d);
    }
}

/// The decimal digits of `n`, as `Display` writes them.
pub open spec fn decimal(n: nat) -> Seq<char>
    decreases n,
{
    if n < 10 {
        seq![(n + 48) as char]
    } else {
        decimal(n / 10).push(((n % 10) + 48) as char)
    }
}

/// Writes `n` in decimal.
pub fn decimal_text(n: u64) -> (r: String)
    ensures
        r@ == decimal(n as nat),
{
    let mut digits: Vec<char> = Vec::new();
    let mut m: u64 = n;
    // Collect the digits last to first.
    let ghost mut rev: Seq<char> = Seq::empty();
    while m >= 10
        invariant
            decimal(n as nat) == decimal(m as nat) + digits@.reverse(),
        decreases m,
    {
        let d: u64 = m % 10;
        let c = char_of_digit(d);
        let ghost before = digits@;
        digits.push(c);
        proof {
            assert(decimal(m as nat) == decimal((m / 10) as nat).push(c));
            assert(digits@.reverse() =~= seq![c] + before.reverse());
            assert(decimal((m / 10) as nat).push(c) + before.reverse() =~= decimal((m / 10) as nat)
                + digits@.reverse());
        }
        m = m / 10;
    }
    let first = char_of_digit(m);
    let mut out: Vec<char> = Vec::new();
    out.push(first);
    let mut k: usize = digits.len();
    assert(out@ =~= decimal(m as nat));
    while k > 0
        invariant
            k <= digits.len(),
            decimal(n as nat) == decimal(m as nat) + digits@.reverse(),
            out@ == decimal(m as nat) + digits@.subrange(k as int, digits.len() as int).reverse(),
        decreases k,
    {
        k = k - 1;
        let ghost before = out@;
        out.push(digits[k]);
        assert(digits@.subrange(k as int, digits.len() as int).reverse() =~= digits@.subrange(
            k + 1,
            digits.len() as int,
        ).reverse().push(digits@[k as int]));
    }
    assert(digits@.subrange(0, digits.len() as int) =~= digits@);
    string_of(out.as_slice())
}

fn char_of_digit(d: u64) -> (c: char)
    requires
        d < 10,
    ensures
        c == ((d + 48) as char),
{
    if d == 0 {
        '0'
    } else if d == 1 {
        '1'
    } else if d == 2 {
        '2'
    } else if d == 3 {
        '3'
    } else if d == 4 {
        '4'
    } else if d == 5 {
        '5'
    } else if d == 6 {
        '6'
    } else if d == 7 {
        '7'
    } else if d == 8 {
        '8'
    } else {
        '9'
    }
}

} // verus!
