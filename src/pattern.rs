use vstd::prelude::*;
use crate::scheduler::PatternSample;
use crate::speed::Speed;

verus! {

// A step list holds one step per line, `offset_ms,percent`, both in decimal,
// lines ending in `\n` (the last one may end the text instead). Offsets do not
// decrease and percentages are at most 100.

pub open spec fn is_digit(b: u8) -> bool {
    48 <= b <= 57
}

/// Where the run of digits that starts at `i` ends.
pub open spec fn digits_end(s: Seq<u8>, i: int) -> int
    decreases s.len() - i,
{
    if 0 <= i < s.len() && is_digit(s[i]) {
        digits_end(s, i + 1)
    } else {
        i
    }
}

/// The number that the digits `s[i..j]` spell.
pub open spec fn digits_value(s: Seq<u8>, i: int, j: int) -> nat
    decreases j - i,
{
    if j <= i {
        0
    } else {
        digits_value(s, i, j - 1) * 10 + (s[j - 1] - 48) as nat
    }
}

/// The steps of the step list that starts at `i`, each offset at least `prev`;
/// `None` when the text there is no step list.
pub open spec fn steps_from(s: Seq<u8>, i: int, prev: nat) -> Option<Seq<PatternSample>>
    decreases s.len() + 1 - i,
{
    if i < 0 {
        None
    } else if i >= s.len() {
        Some(Seq::empty())
    } else {
        let a = digits_end(s, i);
        let b = digits_end(s, a + 1);
        if a <= i || a >= s.len() || s[a] != 44 || b <= a + 1 || b > s.len() || (b < s.len() && s[b] != 10) {
            None
        } else {
            let offset = digits_value(s, i, a);
            let percent = digits_value(s, a + 1, b);
            if offset > u64::MAX || percent > 100 || offset < prev {
                None
            } else {
                match steps_from(s, b + 1, offset) {
                    None => None,
                    Some(rest) => Some(
                        seq![PatternSample { offset_ms: offset as u64, strength: Speed { value: percent as u16 } }]
                            + rest,
                    ),
                }
            }
        }
    }
}

proof fn lemma_digits_end_bounds(s: Seq<u8>, i: int)
    requires
        0 <= i,
    ensures
        i <= digits_end(s, i),
        i <= s.len() ==> digits_end(s, i) <= s.len(),
        forall|k: int| i <= k < digits_end(s, i) ==> is_digit(#[trigger] s[k]),
        digits_end(s, i) < s.len() ==> !is_digit(s[digits_end(s, i)]),
    decreases s.len() - i,
{
    if 0 <= i < s.len() && is_digit(s[i]) {
        lemma_digits_end_bounds(s, i + 1);
    }
}

proof fn lemma_digits_value_grows(s: Seq<u8>, i: int, k: int, j: int)
    requires
        i <= k <= j,
        forall|x: int| i <= x < j ==> is_digit(#[trigger] s[x]),
    ensures
        digits_value(s, i, k) <= digits_value(s, i, j),
    decreases j - k,
{
    if k < j {
        lemma_digits_value_grows(s, i, k, j - 1);
        assert(is_digit(s[j - 1]));
    }
}

/// Reads the number whose digits start at `i`: its value and where its digits
/// end, or `None` when it does not fit in 64 bits.
fn read_number(s: &[u8], i: usize) -> (r: Option<(u64, usize)>)
    requires
        i <= s@.len(),
    ensures
        r matches Some((v, j)) ==> j == digits_end(s@, i as int) && v == digits_value(s@, i as int, j as int),
        r is None ==> digits_value(s@, i as int, digits_end(s@, i as int)) > u64::MAX,
{
    let mut k: usize = i;
    let mut v: u64 = 0;
    proof {
        lemma_digits_end_bounds(s@, i as int);
    }
    while k < s.len() && 48 <= s[k] && s[k] <= 57
        invariant
            i <= k <= s@.len(),
            k <= digits_end(s@, i as int),
            digits_end(s@, k as int) == digits_end(s@, i as int),
            digits_end(s@, i as int) <= s@.len(),
            forall|x: int| i <= x < digits_end(s@, i as int) ==> is_digit(#[trigger] s@[x]),
            v == digits_value(s@, i as int, k as int),
        decreases s.len() - k,
    {
        proof {
            lemma_digits_end_bounds(s@, k + 1);
            assert(digits_end(s@, k as int) == digits_end(s@, k + 1));
        }
        let d = (s[k] - 48) as u64;
        if v > (u64::MAX - d) / 10 {
            proof {
                assert(v * 10 + d > u64::MAX) by (nonlinear_arith)
                    requires v > (u64::MAX - d) / 10, d <= 9;
                assert(digits_value(s@, i as int, k + 1) == v * 10 + d);
                lemma_digits_end_bounds(s@, i as int);
                lemma_digits_value_grows(s@, i as int, k + 1, digits_end(s@, i as int));
            }
            return None;
        }
        proof {
            assert(v * 10 + d <= u64::MAX) by (nonlinear_arith)
                requires v <= (u64::MAX - d) / 10, d <= 9;
        }
        v = v * 10 + d;
        k = k + 1;
    }
    Some((v, k))
}

/// Reads a step list: the steps in order, or `None` when the text is not one.
pub fn parse_steps(s: &[u8]) -> (r: Option<Vec<PatternSample>>)
    ensures
        r matches Some(v) ==> steps_from(s@, 0, 0) == Some(v@),
        r is None ==> steps_from(s@, 0, 0) is None,
{
    let mut out: Vec<PatternSample> = Vec::new();
    let mut i: usize = 0;
    let mut prev: u64 = 0;
    while i < s.len()
        invariant
            i <= s@.len(),
            steps_from(s@, 0, 0) == match steps_from(s@, i as int, prev as nat) {
                None => None::<Seq<PatternSample>>,
                Some(rest) => Some(out@ + rest),
            },
        decreases s.len() - i,
    {
        let ghost before = out@;
        proof {
            lemma_digits_end_bounds(s@, i as int);
        }
        let (offset, a) = match read_number(s, i) {
            None => {
                return None;
            },
            Some(p) => p,
        };
        if a == i || a >= s.len() || s[a] != 44 {
            return None;
        }
        proof {
            lemma_digits_end_bounds(s@, a + 1);
        }
        let (percent, b) = match read_number(s, a + 1) {
            None => {
                return None;
            },
            Some(p) => p,
        };
        if b == a + 1 || (b < s.len() && s[b] != 10) {
            return None;
        }
        if percent > 100 || offset < prev {
            return None;
        }
        let sample = PatternSample { offset_ms: offset, strength: Speed { value: percent as u16 } };
        out.push(sample);
        proof {
            let rest = steps_from(s@, b + 1, offset as nat);
            if let Some(t) = rest {
                assert(before + (seq![sample] + t) =~= out@ + t);
            }
        }
        prev = offset;
        if b >= s.len() {
            i = s.len();
        } else {
            i = b + 1;
        }
    }
    proof {
        assert(out@ + Seq::<PatternSample>::empty() =~= out@);
    }
    Some(out)
}

} // verus!
