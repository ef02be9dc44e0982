use vstd::prelude::*;

verus! {

/// Largest magnitude that any of the parsed integer types can need.
pub const MAGNITUDE_CAP: u128 = 0x1_0000_0000_0000_0000;

pub open spec fn is_digit(c: char) -> bool {
    '0' <= c && c <= '9'
}

pub open spec fn digit_value(c: char) -> int {
    (c as u32) as int - ('0' as u32) as int
}

pub open spec fn all_digits(t: Seq<char>) -> bool {
    forall|i: int| 0 <= i < t.len() ==> is_digit(#[trigger] t[i])
}

/// The value of a run of decimal digits, most significant first.
pub open spec fn digits_value(t: Seq<char>) -> int
    decreases t.len(),
{
    if t.len() == 0 {
        0
    } else {
        digits_value(t.drop_last()) * 10 + digit_value(t.last())
    }
}

/// The integer that `t` writes in decimal: an optional sign (`-` only where
/// `signed`) followed by one or more digits.
pub open spec fn int_of(t: Seq<char>, signed: bool) -> Option<int> {
    if t.len() >= 2 && t[0] == '+' && all_digits(t.skip(1)) {
        Some(digits_value(t.skip(1)))
    } else if signed && t.len() >= 2 && t[0] == '-' && all_digits(t.skip(1)) {
        Some(-digits_value(t.skip(1)))
    } else if t.len() >= 1 && all_digits(t) {
        Some(digits_value(t))
    } else {
        None
    }
}

/// `t` read as an `isize`, if it writes one in range.
pub open spec fn isize_of(t: Seq<char>) -> Option<isize> {
    match int_of(t, true) {
        Some(v) => if isize::MIN <= v <= isize::MAX { Some(v as isize) } else { None },
        None => None,
    }
}

/// `t` read as a `usize`, if it writes one in range.
pub open spec fn usize_of(t: Seq<char>) -> Option<usize> {
    match int_of(t, false) {
        Some(v) => if 0 <= v <= usize::MAX { Some(v as usize) } else { None },
        None => None,
    }
}

proof fn lemma_digits_value_grows(t: Seq<char>, k: int)
    requires
        all_digits(t),
        0 <= k <= t.len(),
    ensures
        0 <= digits_value(t.take(k)) <= digits_value(t),
    decreases t.len(),
{
    if t.len() > 0 {
        let init = t.drop_last();
        assert(all_digits(init)) by {
            assert forall|i: int| 0 <= i < init.len() implies is_digit(#[trigger] init[i]) by {
                assert(is_digit(t[i]));
            }
        }
        assert(is_digit(t[t.len() - 1]));
        if k == t.len() {
            assert(t.take(k) =~= t);
            lemma_digits_value_grows(init, 0);
        } else {
            assert(t.take(k) =~= init.take(k));
            lemma_digits_value_grows(init, k);
        }
    } else {
        assert(t.take(k) =~= t);
    }
}

/// Reads `chars[lo..hi]` as a run of digits whose value stays within the cap.
fn magnitude(chars: &Vec<char>, lo: usize, hi: usize) -> (r: Option<u128>)
    requires
        lo <= hi <= chars@.len(),
    ensures
        match r {
            Some(v) => hi > lo && all_digits(chars@.subrange(lo as int, hi as int))
                && v == digits_value(chars@.subrange(lo as int, hi as int)) && v <= MAGNITUDE_CAP,
            None => hi == lo || !all_digits(chars@.subrange(lo as int, hi as int))
                || digits_value(chars@.subrange(lo as int, hi as int)) > MAGNITUDE_CAP,
        },
{
    if lo == hi {
        return None;
    }
    let ghost t = chars@.subrange(lo as int, hi as int);
    let mut v: u128 = 0;
    let mut i: usize = lo;
    while i < hi
        invariant
            lo <= i <= hi <= chars@.len(),
            t == chars@.subrange(lo as int, hi as int),
            all_digits(t.take(i - lo)),
            v == digits_value(t.take(i - lo)),
            v <= MAGNITUDE_CAP,
        decreases hi - i,
    {
        let c = chars[i];
        assert(t[i - lo] == c);
        if !('0' <= c && c <= '9') {
            return None;
        }
        let d = (c as u32 - '0' as u32) as u128;
        let ghost next = t.take(i - lo + 1);
        assert(next.drop_last() =~= t.take(i - lo));
        assert(next.last() == c);
        assert(all_digits(next)) by {
            assert forall|j: int| 0 <= j < next.len() implies is_digit(#[trigger] next[j]) by {
                if j < next.len() - 1 {
                    assert(next[j] == t.take(i - lo)[j]);
                }
            }
        }
        if v > (MAGNITUDE_CAP - d) / 10 {
            proof {
                if all_digits(t) {
                    lemma_digits_value_grows(t, i - lo + 1);
                }
            }
            return None;
        }
        v = v * 10 + d;
        i = i + 1;
    }
    assert(t.take(hi - lo) =~= t);
    Some(v)
}

/// Reads `chars[lo..hi]` as an `isize` written in decimal.
pub fn isize_token(chars: &Vec<char>, lo: usize, hi: usize) -> (r: Option<isize>)
    requires
        lo <= hi <= chars@.len(),
    ensures
        r == isize_of(chars@.subrange(lo as int, hi as int)),
{
    let ghost t = chars@.subrange(lo as int, hi as int);
    if hi - lo >= 2 && (chars[lo] == '+' || chars[lo] == '-') {
        assert(t[0] == chars@[lo as int]);
        assert(t.skip(1) =~= chars@.subrange(lo + 1, hi as int));
        proof {
            if all_digits(t) {
                assert(is_digit(t[0]));
            }
        }
        match magnitude(chars, lo + 1, hi) {
            Some(m) => {
                if chars[lo] == '+' {
                    if m <= isize::MAX as u128 {
                        Some(m as isize)
                    } else {
                        None
                    }
                } else {
                    if m <= isize::MAX as u128 + 1 {
                        Some((-(m as i128)) as isize)
                    } else {
                        None
                    }
                }
            },
            None => None,
        }
    } else {
        if hi > lo {
            assert(t[0] == chars@[lo as int]);
        }
        match magnitude(chars, lo, hi) {
            Some(m) => {
                if m <= isize::MAX as u128 {
                    Some(m as isize)
                } else {
                    None
                }
            },
            None => None,
        }
    }
}

/// Reads `chars[lo..hi]` as a `usize` written in decimal.
pub fn usize_token(chars: &Vec<char>, lo: usize, hi: usize) -> (r: Option<usize>)
    requires
        lo <= hi <= chars@.len(),
    ensures
        r == usize_of(chars@.subrange(lo as int, hi as int)),
{
    let ghost t = chars@.subrange(lo as int, hi as int);
    if hi - lo >= 2 && chars[lo] == '+' {
        assert(t[0] == chars@[lo as int]);
        assert(t.skip(1) =~= chars@.subrange(lo + 1, hi as int));
        match magnitude(chars, lo + 1, hi) {
            Some(m) => {
                if m <= usize::MAX as u128 {
                    Some(m as usize)
                } else {
                    None
                }
            },
            None => None,
        }
    } else {
        proof {
            if hi > lo {
                assert(t[0] == chars@[lo as int]);
            }
            if hi - lo >= 2 && all_digits(t) {
                assert(is_digit(t[0]));
            }
        }
        match magnitude(chars, lo, hi) {
            Some(m) => {
                if m <= usize::MAX as u128 {
                    Some(m as usize)
                } else {
                    None
                }
            },
            None => None,
        }
    }
}

} // verus!
