//! A flawed frequency transmission: each output digit is the last decimal
//! digit of the absolute value of a weighted sum of the input digits,
//! where the weights walk a stretched, shifted base pattern.

use vstd::prelude::*;

verus! {

/// The base pattern of weights, indexed cyclically.
pub open spec fn base_pattern(i: int) -> int {
    let k = i % 4;
    if k == 0 {
        0
    } else if k == 1 {
        1
    } else if k == 2 {
        0
    } else {
        -1
    }
}

/// The weight applied to input position `i` when computing output
/// position `out_pos` (both counted from zero): the base pattern with each
/// element repeated `out_pos + 1` times, skipping the very first weight.
pub open spec fn pattern_at(i: int, out_pos: int) -> int
    recommends
        i >= 0,
        out_pos >= 0,
{
    base_pattern(((i + 1) / (out_pos + 1)) % 4)
}

/// The weighted sum of the first `k` input digits for output position
/// `out_pos`.
pub open spec fn fft_sum(input: Seq<i32>, out_pos: int, k: int) -> int
    decreases k,
{
    if k <= 0 {
        0
    } else {
        fft_sum(input, out_pos, k - 1) + input[k - 1] * pattern_at(k - 1, out_pos)
    }
}

/// One output digit: the last decimal digit of the absolute weighted sum.
pub open spec fn spec_fft_digit(input: Seq<i32>, out_pos: int) -> int {
    let total = fft_sum(input, out_pos, input.len() as int);
    (if total < 0 {
        -total
    } else {
        total
    }) % 10
}

/// One whole transformed digit string.
pub open spec fn spec_fft(input: Seq<i32>) -> Seq<i32> {
    Seq::new(input.len(), |p: int| spec_fft_digit(input, p) as i32)
}

/// The digit string after `rounds` applications of the transform.
pub open spec fn spec_fft_rounds(input: Seq<i32>, rounds: int) -> Seq<i32>
    decreases rounds,
{
    if rounds <= 0 {
        input
    } else {
        spec_fft_rounds(spec_fft(input), rounds - 1)
    }
}

/// Whether every element is a decimal digit.
pub open spec fn all_digits(s: Seq<i32>) -> bool {
    forall|i: int| 0 <= i < s.len() ==> 0 <= #[trigger] s[i] <= 9
}

/// The stretched, shifted weight pattern for output position `out_pos`
/// (counted from one, as the original pattern generator does), cut to the
/// input length.
pub fn get_pattern(input_len: usize, out_pos: usize) -> (r: Vec<i32>)
    requires
        out_pos >= 1,
        input_len < usize::MAX,
    ensures
        r@.len() == input_len,
        forall|i: int| 0 <= i < input_len ==> #[trigger] r@[i] == pattern_at(i, out_pos - 1),
{
    let mut result: Vec<i32> = Vec::new();
    let mut i: usize = 0;
    while i < input_len
        invariant
            i <= input_len,
            input_len < usize::MAX,
            out_pos >= 1,
            pattern_prefix(result@, out_pos as int - 1, i as int),
        decreases input_len - i,
    {
        let k = ((i + 1) / out_pos) % 4;
        let w: i32 = if k == 0 {
            0
        } else if k == 1 {
            1
        } else if k == 2 {
            0
        } else {
            -1
        };
        result.push(w);
        i = i + 1;
    }
    result
}

/// The first `n` weights of the pattern for a given output position.
pub open spec fn pattern_prefix(weights: Seq<i32>, out_pos: int, n: int) -> bool {
    weights.len() == n && forall|i: int|
        0 <= i < n ==> #[trigger] weights[i] == pattern_at(i, out_pos)
}

/// One output digit of the transform: input position weights come from
/// `get_pattern` for position `out_pos + 1`.
pub fn fft_digit(input: &[i32], out_pos: usize) -> (r: i32)
    requires
        all_digits(input@),
        input@.len() < 100_000_000,
        out_pos < usize::MAX,
    ensures
        r as int == spec_fft_digit(input@, out_pos as int),
        0 <= r <= 9,
{
    let mut total: i64 = 0;
    let mut i: usize = 0;
    while i < input.len()
        invariant
            i <= input@.len(),
            all_digits(input@),
            input@.len() < 100_000_000,
            out_pos < usize::MAX,
            total as int == fft_sum(input@, out_pos as int, i as int),
            -9 * i <= total <= 9 * i,
        decreases input.len() - i,
    {
        let k = ((i + 1) / (out_pos + 1)) % 4;
        let d = input[i] as i64;
        proof {
            assert(0 <= input@[i as int] <= 9);
            assert(k as int == ((i + 1) / (out_pos as int + 1)) % 4);
            if k == 1 {
                assert(pattern_at(i as int, out_pos as int) == 1);
            } else if k == 3 {
                assert(pattern_at(i as int, out_pos as int) == -1);
            } else {
                assert(pattern_at(i as int, out_pos as int) == 0);
            }
        }
        total = if k == 1 {
            total + d
        } else if k == 3 {
            total - d
        } else {
            total
        };
        i = i + 1;
    }
    let magnitude: u64 = if total < 0 {
        (-total) as u64
    } else {
        total as u64
    };
    (magnitude % 10) as i32
}

/// One whole round of the transform.
pub fn fft(input: &[i32]) -> (r: Vec<i32>)
    requires
        all_digits(input@),
        input@.len() < 100_000_000,
    ensures
        r@ == spec_fft(input@),
        all_digits(r@),
{
    let mut result: Vec<i32> = Vec::new();
    let mut pos: usize = 0;
    while pos < input.len()
        invariant
            pos <= input@.len(),
            all_digits(input@),
            input@.len() < 100_000_000,
            result@.len() == pos,
            forall|p: int| 0 <= p < pos ==> #[trigger] result@[p] == spec_fft_digit(input@, p),
            all_digits(result@),
        decreases input.len() - pos,
    {
        let d = fft_digit(input, pos);
        result.push(d);
        pos = pos + 1;
    }
    proof {
        assert(result@ =~= spec_fft(input@));
    }
    result
}

/// The digit string after `rounds` rounds of the transform.
pub fn fft_rounds(input: &[i32], rounds: usize) -> (r: Vec<i32>)
    requires
        all_digits(input@),
        input@.len() < 100_000_000,
    ensures
        r@ == spec_fft_rounds(input@, rounds as int),
        all_digits(r@),
{
    let mut output = vstd::slice::slice_to_vec(input);
    let mut round: usize = 0;
    while round < rounds
        invariant
            round <= rounds,
            all_digits(output@),
            output@.len() == input@.len(),
            input@.len() < 100_000_000,
            spec_fft_rounds(output@, rounds - round) == spec_fft_rounds(input@, rounds as int),
        decreases rounds - round,
    {
        output = fft(output.as_slice());
        round = round + 1;
    }
    output
}

/// The first eight digits after one hundred rounds, as text.
pub fn solve1(digits: &[i32]) -> (r: String)
    requires
        all_digits(digits@),
        digits@.len() < 100_000_000,
    ensures
        ({
            let out = spec_fft_rounds(digits@, 100);
            let shown = if out.len() < 8 {
                out.len() as int
            } else {
                8
            };
            r@.len() == shown && forall|i: int|
                0 <= i < shown ==> #[trigger] r@[i] == crate::text::digit_char(out[i] as int)
        }),
{
    let out = fft_rounds(digits, 100);
    let ghost spec_out = spec_fft_rounds(digits@, 100);
    let mut text = String::new();
    let mut i: usize = 0;
    let shown = if out.len() < 8 {
        out.len()
    } else {
        8
    };
    while i < shown
        invariant
            i <= shown,
            out@ == spec_out,
            shown <= out@.len(),
            shown == (if out@.len() < 8 {
                out@.len() as int
            } else {
                8
            }),
            all_digits(out@),
            text@.len() == i,
            forall|j: int|
                0 <= j < i ==> #[trigger] text@[j] == crate::text::digit_char(spec_out[j] as int),
        decreases shown - i,
    {
        let d = out[i];
        let piece: &str = match d {
            0 => "0",
            1 => "1",
            2 => "2",
            3 => "3",
            4 => "4",
            5 => "5",
            6 => "6",
            7 => "7",
            8 => "8",
            _ => "9",
        };
        proof {
            reveal_strlit("0");
            reveal_strlit("1");
            reveal_strlit("2");
            reveal_strlit("3");
            reveal_strlit("4");
            reveal_strlit("5");
            reveal_strlit("6");
            reveal_strlit("7");
            reveal_strlit("8");
            reveal_strlit("9");
            assert(piece@ =~= seq![crate::text::digit_char(spec_out[i as int] as int)]);
        }
        text.append(piece);
        i = i + 1;
    }
    text
}

} // verus!
