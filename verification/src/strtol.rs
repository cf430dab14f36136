//! Scanning a decimal number from the front of a string.

use vstd::prelude::*;
use vstd::string::StrSliceExecFns;
use vstd::string::StringExecFns;
use crate::text::{digit_char_val, is_digit, is_digit_char};

verus! {

/// Length of the maximal run of ASCII digits at the front of `s`.
pub open spec fn digit_run_len(s: Seq<char>) -> int
    decreases s.len(),
{
    if s.len() == 0 || !is_digit_char(s[0]) {
        0
    } else {
        1 + digit_run_len(s.drop_first())
    }
}

pub proof fn lemma_digit_run_len(s: Seq<char>)
    ensures
        0 <= digit_run_len(s) <= s.len(),
        forall|j: int| 0 <= j < digit_run_len(s) ==> is_digit_char(s[j]),
        digit_run_len(s) < s.len() ==> !is_digit_char(s[digit_run_len(s)]),
    decreases s.len(),
{
    if s.len() == 0 || !is_digit_char(s[0]) {
    } else {
        lemma_digit_run_len(s.drop_first());
        assert forall|j: int| 0 <= j < digit_run_len(s) implies is_digit_char(s[j]) by {
            if j > 0 {
                assert(s.drop_first()[j - 1] == s[j]);
                assert(is_digit_char(s.drop_first()[j - 1]));
            }
        }
        if digit_run_len(s) < s.len() {
            assert(s.drop_first()[digit_run_len(s) - 1] == s[digit_run_len(s)]);
        }
    }
}

/// Value of a sequence of ASCII digits read as a decimal numeral.
pub open spec fn dec_val(s: Seq<char>) -> int
    decreases s.len(),
{
    if s.len() == 0 {
        0
    } else {
        dec_val(s.drop_last()) * 10 + digit_char_val(s.last())
    }
}

pub proof fn lemma_dec_val_nonneg(s: Seq<char>)
    requires
        forall|j: int| 0 <= j < s.len() ==> is_digit_char(s[j]),
    ensures
        dec_val(s) >= 0,
    decreases s.len(),
{
    if s.len() > 0 {
        lemma_dec_val_nonneg(s.drop_last());
    }
}

/// What `strtol` returns: the maximal digit run is taken off the front and
/// read as a decimal value. When there is no digit, or when the run's value
/// does not fit in `i64` (the scan fails rather than wrap), the input
/// comes back unchanged with no value.
pub open spec fn strtol_result(s: Seq<char>) -> (Seq<char>, Option<i64>) {
    let k = digit_run_len(s);
    if k == 0 {
        (s, None)
    } else if dec_val(s.take(k)) <= i64::MAX as int {
        (s.skip(k), Some(dec_val(s.take(k)) as i64))
    } else {
        (s, None)
    }
}

/// Scan the maximal digit run of `s` that starts at `start`: its length,
/// and its decimal value where there is one and it fits in `i64`.
pub fn scan_number(s: &str, start: usize) -> (r: (usize, Option<i64>))
    requires
        start <= s@.len(),
    ensures
        r.0 == digit_run_len(s@.skip(start as int)),
        start + r.0 <= s@.len(),
        ({
            let run = s@.subrange(start as int, start + r.0);
            if r.0 > 0 && dec_val(run) <= i64::MAX as int {
                r.1 == Some(dec_val(run) as i64)
            } else {
                r.1 == None::<i64>
            }
        }),
{
    let ghost tail = s@.skip(start as int);
    let n = s.unicode_len();
    let mut k: usize = 0;
    let mut num: i64 = 0;
    let mut overflow: bool = false;
    while start + k < n
        invariant
            start <= s@.len(),
            n == s@.len(),
            tail == s@.skip(start as int),
            start + k <= n,
            forall|j: int| 0 <= j < k ==> is_digit_char(tail[j]),
            !overflow ==> num == dec_val(tail.take(k as int)) && num >= 0,
            overflow ==> dec_val(tail.take(k as int)) > i64::MAX as int,
        ensures
            start + k <= n,
            forall|j: int| 0 <= j < k ==> is_digit_char(tail[j]),
            start + k == n || !is_digit_char(tail[k as int]),
            !overflow ==> num == dec_val(tail.take(k as int)) && num >= 0,
            overflow ==> dec_val(tail.take(k as int)) > i64::MAX as int,
        decreases n - start - k,
    {
        assert(tail[k as int] == s@[start + k]);
        let c = s.get_char(start + k);
        if !is_digit(c) {
            break;
        }
        proof {
            assert(tail.take(k as int + 1).drop_last() =~= tail.take(k as int));
            assert(tail.take(k as int + 1).last() == tail[k as int]);
        }
        if !overflow {
            let d: i64 = (c as u32 - 48) as i64;
            assert(d == digit_char_val(c));
            let wide: i128 = (num as i128) * 10 + (d as i128);
            if wide > i64::MAX as i128 {
                overflow = true;
            } else {
                num = wide as i64;
            }
        } else {
            proof {
                let v = dec_val(tail.take(k as int));
                assert(dec_val(tail.take(k as int + 1)) == v * 10 + digit_char_val(tail[k as int]));
                assert(v * 10 == v + 9 * v);
            }
        }
        k = k + 1;
    }
    proof {
        lemma_digit_run_len(tail);
        assert(k as int == digit_run_len(tail)) by {
            if (k as int) < digit_run_len(tail) {
                assert(is_digit_char(tail[k as int]));
            }
            if (k as int) > digit_run_len(tail) {
                assert(is_digit_char(tail[digit_run_len(tail)]));
            }
        }
        assert(s@.subrange(start as int, start + k) =~= tail.take(k as int));
    }
    if k == 0 {
        (0, None)
    } else if overflow {
        (k, None)
    } else {
        (k, Some(num))
    }
}

/// Split a maximal run of ASCII digits off the front of `s` and read it as
/// a decimal value; the rest of the string is handed back. Without a
/// leading digit, or when the value does not fit in `i64`, the whole string
/// comes back with no value.
pub fn strtol(s: String) -> (r: (String, Option<i64>))
    ensures
        r.0@ == strtol_result(s@).0,
        r.1 == strtol_result(s@).1,
{
    proof {
        assert(s@.skip(0) =~= s@);
    }
    let (k, opt) = scan_number(s.as_str(), 0);
    proof {
        assert(s@.subrange(0, k as int) =~= s@.take(k as int));
    }
    if k == 0 {
        return (s, None);
    }
    match opt {
        None => (s, None),
        Some(v) => {
            let n = s.as_str().unicode_len();
            let rem = s.as_str().substring_char(k, n).to_owned();
            proof {
                assert(s@.subrange(k as int, s@.len() as int) =~= s@.skip(k as int));
            }
            (rem, Some(v))
        },
    }
}

} // verus!
