//! Password digit checks: a candidate passes when its decimal digits never
//! decrease and some digit is doubled, with the number of consecutive
//! repetitions of that digit within a given limit.

use vstd::prelude::*;

verus! {

/// The decimal digits of a non-negative number, most significant first.
pub open spec fn spec_digits(n: nat) -> Seq<u8>
    decreases n,
{
    if n < 10 {
        seq![n as u8]
    } else {
        spec_digits(n / 10).push((n % 10) as u8)
    }
}

/// Whether the digits never decrease from left to right.
pub open spec fn digits_nondecreasing(s: Seq<u8>) -> bool {
    forall|i: int| 0 < i < s.len() ==> #[trigger] s[i - 1] <= s[i]
}

/// How many positions carry digit `d` immediately after an equal digit.
pub open spec fn double_count(s: Seq<u8>, d: u8) -> int
    decreases s.len(),
{
    if s.len() < 2 {
        0
    } else {
        double_count(s.drop_last(), d) + if s[s.len() - 1] == s[s.len() - 2] && s[s.len() - 1]
            == d {
            1int
        } else {
            0int
        }
    }
}

/// The magnitude of a candidate, as the digits the check looks at.  A
/// leading minus sign takes part in no digit pair, so only the digits of
/// the magnitude matter.
pub open spec fn candidate_digits(pw: int) -> Seq<u8> {
    if pw >= 0 {
        spec_digits(pw as nat)
    } else {
        spec_digits((-pw) as nat)
    }
}

/// Whether a candidate passes: digits never decrease, and some digit is
/// doubled at least once and at most `limit` times.
pub open spec fn spec_ok(pw: int, limit: int) -> bool {
    let s = candidate_digits(pw);
    digits_nondecreasing(s) && exists|d: u8| 1 <= #[trigger] double_count(s, d) <= limit
}

/// Append the decimal digits of `n`, most significant first.
fn push_digits(n: u64, out: &mut Vec<u8>)
    ensures
        final(out)@ == old(out)@ + spec_digits(n as nat),
    decreases n,
{
    if n < 10 {
        out.push(n as u8);
        proof {
            assert(final(out)@ =~= old(out)@ + spec_digits(n as nat));
        }
    } else {
        push_digits(n / 10, out);
        out.push((n % 10) as u8);
        proof {
            assert(final(out)@ =~= old(out)@ + spec_digits(n as nat));
        }
    }
}

/// Whether the candidate `pw` passes the digit checks with the given
/// repetition limit.
pub fn ok(pw: &i32, doubling_limit: usize) -> (r: bool)
    ensures
        r == spec_ok(*pw as int, doubling_limit as int),
{
    let magnitude: u64 = if *pw >= 0 {
        *pw as u64
    } else {
        (-(*pw as i64)) as u64
    };
    let mut digits: Vec<u8> = Vec::new();
    push_digits(magnitude, &mut digits);
    let ghost s = candidate_digits(*pw as int);
    proof {
        assert(Seq::<u8>::empty() + spec_digits(magnitude as nat) =~= spec_digits(
            magnitude as nat,
        ));
        if *pw < 0 {
            assert(magnitude as int == -(*pw as int));
        }
        assert(digits@ == s);
        lemma_spec_digits_small(magnitude as nat);
    }
    // counts[d] = how many times digit d stands immediately after itself
    let mut counts: Vec<usize> = Vec::new();
    let mut d: usize = 0;
    while d < 10
        invariant
            d <= 10,
            counts@.len() == d,
            forall|k: int| 0 <= k < d ==> counts@[k] == 0,
        decreases 10 - d,
    {
        counts.push(0);
        d = d + 1;
    }
    let mut i: usize = 1;
    while i < digits.len()
        invariant
            1 <= i <= digits.len(),
            s == candidate_digits(*pw as int),
            digits@ == s,
            counts@.len() == 10,
            forall|j: int| 0 <= j < s.len() ==> s[j] < 10,
            digits_nondecreasing(s.take(i as int)),
            forall|k: int|
                0 <= k < 10 ==> counts@[k] == double_count(s.take(i as int), k as u8),
            forall|k: int| 0 <= k < 10 ==> counts@[k] <= i,
        decreases digits.len() - i,
    {
        let prev = digits[i - 1];
        let cur = digits[i];
        proof {
            assert(s.take(i as int + 1).drop_last() =~= s.take(i as int));
            assert forall|k: int| 0 <= k < 10 implies #[trigger] double_count(
                s.take(i as int + 1),
                k as u8,
            ) == double_count(s.take(i as int), k as u8) + (
            if cur == prev && cur == k as u8 {
                1int
            } else {
                0int
            }) by {
                assert(s.take(i as int + 1).last() == s[i as int]);
                assert(s.take(i as int + 1)[i - 1] == s[i - 1]);
            }
        }
        if cur < prev {
            proof {
                assert(!digits_nondecreasing(s)) by {
                    assert(s[i as int - 1] > s[i as int]);
                }
            }
            return false;
        }
        if cur == prev {
            let idx = cur as usize;
            let c = counts[idx];
            counts[idx] = c + 1;
        }
        i = i + 1;
    }
    proof {
        assert(s.take(s.len() as int) =~= s);
        if digits.len() < 1 {
            assert(false);
        }
    }
    let mut d: usize = 0;
    let mut found = false;
    while d < 10
        invariant
            d <= 10,
            counts@.len() == 10,
            forall|k: int| 0 <= k < 10 ==> counts@[k] == double_count(s, k as u8),
            found == exists|k: u8|
                k < d && 1 <= #[trigger] double_count(s, k) <= doubling_limit as int,
        decreases 10 - d,
    {
        let c = counts[d];
        if c >= 1 && c <= doubling_limit {
            proof {
                assert(1 <= double_count(s, d as u8) <= doubling_limit as int);
            }
            found = true;
        }
        d = d + 1;
    }
    proof {
        if !found {
            assert forall|k: u8| !(1 <= #[trigger] double_count(s, k) <= doubling_limit as int)
                by {
                if k < 10 {
                    assert(!(1 <= double_count(s, k) <= doubling_limit as int));
                } else {
                    lemma_big_digit_never_doubled(s, k);
                }
            }
        }
    }
    found
}

/// Every digit of a digit string is below ten, so larger values are never
/// doubled.
proof fn lemma_big_digit_never_doubled(s: Seq<u8>, d: u8)
    requires
        forall|j: int| 0 <= j < s.len() ==> s[j] < 10,
        d >= 10,
    ensures
        double_count(s, d) == 0,
    decreases s.len(),
{
    if s.len() >= 2 {
        assert(forall|j: int| 0 <= j < s.drop_last().len() ==> s.drop_last()[j] < 10);
        lemma_big_digit_never_doubled(s.drop_last(), d);
    }
}

/// All digits produced by `spec_digits` are below ten.
proof fn lemma_spec_digits_small(n: nat)
    ensures
        forall|j: int| 0 <= j < spec_digits(n).len() ==> #[trigger] spec_digits(n)[j] < 10,
        spec_digits(n).len() >= 1,
    decreases n,
{
    if n >= 10 {
        lemma_spec_digits_small(n / 10);
        assert forall|j: int| 0 <= j < spec_digits(n).len() implies #[trigger] spec_digits(n)[j]
            < 10 by {
            if j < spec_digits(n).len() - 1 {
                assert(spec_digits(n)[j] == spec_digits(n / 10)[j]);
            }
        }
    }
}

/// How many of the candidates `lo ..= hi` pass the digit checks.
pub open spec fn spec_countpw(lo: int, hi: int, limit: int) -> int
    decreases hi - lo + 1,
{
    if lo > hi {
        0
    } else {
        spec_countpw(lo, hi - 1, limit) + if spec_ok(hi, limit) {
            1int
        } else {
            0int
        }
    }
}


/// The count never exceeds the width of the range.
proof fn lemma_countpw_bound(lo: int, hi: int, limit: int)
    ensures
        0 <= spec_countpw(lo, hi, limit) <= (if hi >= lo {
            hi - lo + 1
        } else {
            0
        }),
    decreases hi - lo + 1,
{
    if lo <= hi {
        lemma_countpw_bound(lo, hi - 1, limit);
    }
}

/// How many candidates in `pwmin ..= pwmax` pass the digit checks.
pub fn countpw(pwmin: i32, pwmax: i32, limit: usize) -> (r: usize)
    requires
        pwmax - pwmin < usize::MAX,
    ensures
        r as int == spec_countpw(pwmin as int, pwmax as int, limit as int),
{
    let mut count: usize = 0;
    if pwmax < pwmin {
        return 0;
    }
    let mut pw = pwmin;
    let mut remaining: bool = true;
    proof {
        lemma_countpw_bound(pwmin as int, pwmax as int, limit as int);
    }
    while remaining
        invariant
            pwmin <= pw <= pwmax,
            pwmax - pwmin < usize::MAX,
            remaining ==> count as int == spec_countpw(pwmin as int, pw - 1, limit as int),
            !remaining ==> pw == pwmax && count as int == spec_countpw(
                pwmin as int,
                pwmax as int,
                limit as int,
            ),
            count <= pw - pwmin + 1,
        decreases (if remaining {
            1int
        } else {
            0int
        }), pwmax - pw,
    {
        proof {
            lemma_countpw_bound(pwmin as int, pw - 1, limit as int);
        }
        if ok(&pw, limit) {
            count = count + 1;
        }
        if pw == pwmax {
            remaining = false;
        } else {
            pw = pw + 1;
        }
    }
    count
}

} // verus!
