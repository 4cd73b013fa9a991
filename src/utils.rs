use vstd::prelude::*;

verus! {

/// Average, minimum and maximum of the values measured over several runs.
#[derive(Clone, Copy, Debug, PartialEq, Eq, Structural)]
pub struct AvgMingMax {
    pub avg: u64,
    pub min: u64,
    pub max: u64,
    /// Number of runs the values came from.
    pub number: u16,
}

/// Sum of all values of `s`.
pub open spec fn sum_of(s: Seq<u64>) -> int
    decreases s.len(),
{
    if s.len() == 0 {
        0
    } else {
        sum_of(s.drop_last()) + s.last()
    }
}

/// The sum of a prefix of `s` is at most the sum of `s`.
proof fn lemma_prefix_sum_le(s: Seq<u64>, i: int)
    requires
        0 <= i <= s.len(),
    ensures
        sum_of(s.take(i)) <= sum_of(s),
    decreases s.len() - i,
{
    if i == s.len() {
        assert(s.take(i) =~= s);
    } else {
        assert(s.take(i + 1).drop_last() =~= s.take(i));
        lemma_prefix_sum_le(s, i + 1);
    }
}

/// Average (rounded down), minimum and maximum of `values`, with their number.
/// There must be at least one value and at most `u16::MAX`, and their sum must
/// fit in a `u64`.
pub fn avg_min_max(values: &[u64]) -> (r: AvgMingMax)
    requires
        0 < values@.len() <= u16::MAX,
        sum_of(values@) <= u64::MAX,
    ensures
        r.number == values@.len(),
        r.avg == sum_of(values@) / values@.len() as int,
        values@.contains(r.min),
        forall|i: int| 0 <= i < values@.len() ==> r.min <= values@[i],
        values@.contains(r.max),
        forall|i: int| 0 <= i < values@.len() ==> values@[i] <= r.max,
{
    let number: u16 = values.len() as u16;
    let mut min: u64 = values[0];
    let mut max: u64 = values[0];
    let mut sum: u64 = 0;
    let mut i: usize = 0;
    while i < values.len()
        invariant
            i <= values@.len(),
            values@.len() == number,
            sum == sum_of(values@.take(i as int)),
            sum_of(values@) <= u64::MAX,
            values@.contains(min),
            values@.contains(max),
            forall|j: int| 0 <= j < i ==> min <= values@[j] && values@[j] <= max,
            0 < values@.len(),
            i == 0 ==> min == values@[0] && max == values@[0],
        decreases values@.len() - i,
    {
        proof {
            assert(values@.take(i + 1).drop_last() =~= values@.take(i as int));
            lemma_prefix_sum_le(values@, i + 1);
        }
        let v = values[i];
        sum = sum + v;
        if v < min {
            min = v;
        }
        if v > max {
            max = v;
        }
        i += 1;
    }
    assert(values@.take(i as int) =~= values@);
    let avg = sum / number as u64;
    AvgMingMax { avg, min, max, number }
}

} // verus!
