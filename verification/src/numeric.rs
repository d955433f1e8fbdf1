//! Reading unsigned decimal numbers from text, by the rules of
//! `u64::from_str`: an optional `+`, then one or more ASCII digits whose value
//! fits in 64 bits.

use vstd::prelude::*;

verus! {

/// An ASCII decimal digit.
pub open spec fn is_digit(c: char) -> bool {
    48 <= c as u32 <= 57
}

/// The value of an ASCII decimal digit.
pub open spec fn digit_of(c: char) -> nat {
    (c as u32 - 48) as nat
}

/// Every character of `s` is a decimal digit.
pub open spec fn all_digits(s: Seq<char>) -> bool {
    forall|i: int| 0 <= i < s.len() ==> is_digit(#[trigger] s[i])
}

/// The number that a string of digits denotes.
pub open spec fn digits_value(s: Seq<char>) -> nat
    decreases s.len(),
{
    if s.len() == 0 {
        0
    } else {
        digits_value(s.drop_last()) * 10 + digit_of(s.last())
    }
}

/// The digits of a numeral, after its optional leading `+`.
pub open spec fn unsigned_digits(s: Seq<char>) -> Seq<char> {
    if s.len() > 0 && s[0] == '+' {
        s.drop_first()
    } else {
        s
    }
}

/// The number a text denotes as a `u64`, or `None` where `u64::from_str`
/// rejects it (empty, a character other than a digit after the optional `+`,
/// or a value above `u64::MAX`).
pub open spec fn parsed_u64(s: Seq<char>) -> Option<u64> {
    let d = unsigned_digits(s);
    if d.len() > 0 && all_digits(d) && digits_value(d) <= u64::MAX {
        Some(digits_value(d) as u64)
    } else {
        None
    }
}

/// Appending digits never makes a numeral's value smaller.
pub proof fn lemma_digits_value_grows(p: Seq<char>, t: Seq<char>)
    requires
        all_digits(t),
    ensures
        digits_value(p + t) >= digits_value(p),
    decreases t.len(),
{
    if t.len() > 0 {
        assert((p + t).drop_last() =~= p + t.drop_last());
        lemma_digits_value_grows(p, t.drop_last());
    } else {
        assert(p + t =~= p);
    }
}

/// Reads a numeral as `u64::from_str` does.
pub fn parse_u64(s: &Vec<char>) -> (r: Option<u64>)
    ensures
        r == parsed_u64(s@),
{
    let n = s.len();
    let start: usize = if n > 0 && s[0] == '+' { 1 } else { 0 };
    let ghost d = unsigned_digits(s@);
    assert(d =~= s@.subrange(start as int, n as int));
    if start == n {
        return None;
    }
    let mut acc: u64 = 0;
    let mut i: usize = start;
    assert(s@.subrange(start as int, start as int) =~= Seq::<char>::empty());
    while i < n
        invariant
            start <= i <= n,
            n == s.len(),
            d == s@.subrange(start as int, n as int),
            d == unsigned_digits(s@),
            all_digits(s@.subrange(start as int, i as int)),
            acc == digits_value(s@.subrange(start as int, i as int)),
        decreases n - i,
    {
        let c = s[i];
        let ghost p = s@.subrange(start as int, i as int);
        let ghost p1 = s@.subrange(start as int, i + 1);
        assert(p1.drop_last() =~= p);
        assert(p1.last() == c);
        let u = c as u32;
        if u < 48 || u > 57 {
            assert(d[i - start] == c);
            assert(!all_digits(d));
            return None;
        }
        let next: u128 = (acc as u128) * 10 + ((u - 48) as u128);
        assert(next == digits_value(p1));
        if next > 0xffff_ffff_ffff_ffffu128 {
            proof {
                if all_digits(d) {
                    let t = s@.subrange(i + 1, n as int);
                    assert(d =~= p1 + t);
                    assert forall|k: int| 0 <= k < t.len() implies is_digit(#[trigger] t[k]) by {
                        assert(t[k] == d[k + (i + 1 - start)]);
                    }
                    lemma_digits_value_grows(p1, t);
                }
            }
            return None;
        }
        acc = next as u64;
        i = i + 1;
        assert forall|k: int| 0 <= k < p1.len() implies is_digit(#[trigger] p1[k]) by {
            if k < p.len() {
                assert(p1[k] == p[k]);
            }
        }
    }
    Some(acc)
}

} // verus!
