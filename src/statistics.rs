use vstd::prelude::*;
use vstd::seq_lib::group_to_multiset_ensures;
use vstd::seq_lib::to_multiset_build;
use vstd::seq_lib::to_multiset_insert;
use vstd::seq_lib::to_multiset_len;

verus! {

/// Summary of a sequence of durations, all in microseconds.
#[derive(Clone, Copy, Debug, PartialEq, Eq)]
pub struct Statistics {
    pub average: u64,
    pub median: u64,
    pub _90th_percentile: u64,
    pub _99th_percentile: u64,
    pub maximum_value: u64,
}

/// Order statistics are not defined over no values at all.
#[derive(Clone, Copy, Debug, PartialEq, Eq)]
pub enum StatisticsError {
    EmptyInput,
}

pub open spec fn sorted(s: Seq<u64>) -> bool {
    forall|i: int, j: int| 0 <= i <= j < s.len() ==> s[i] <= s[j]
}

pub open spec fn sum_of(s: Seq<u64>) -> int
    decreases s.len(),
{
    if s.len() == 0 {
        0
    } else {
        sum_of(s.drop_last()) + s.last()
    }
}

/// The position of the `p`-th percentile among `n` values.
pub open spec fn percentile_index(n: int, p: int) -> int {
    n * p / 100
}

/// The statistics of a sequence taken as already ordered: the average
/// (rounded down), and the values at the median, 90th percentile,
/// 99th percentile and last positions.
pub open spec fn stats_of(s: Seq<u64>) -> Statistics {
    Statistics {
        average: (sum_of(s) / s.len() as int) as u64,
        median: s[s.len() as int / 2],
        _90th_percentile: s[percentile_index(s.len() as int, 90)],
        _99th_percentile: s[percentile_index(s.len() as int, 99)],
        maximum_value: s[s.len() as int - 1],
    }
}

/// `t` holds the values of `s` in ascending order.
pub open spec fn sorted_permutation(s: Seq<u64>, t: Seq<u64>) -> bool {
    sorted(t) && t.to_multiset() == s.to_multiset()
}

/// Two ascending orderings of the same values are the same sequence.
pub proof fn lemma_sorted_permutation_unique(s: Seq<u64>, t1: Seq<u64>, t2: Seq<u64>)
    requires
        sorted_permutation(s, t1),
        sorted_permutation(s, t2),
    ensures
        t1 == t2,
    decreases t1.len(),
{
    broadcast use group_to_multiset_ensures;

    to_multiset_len(t1);
    to_multiset_len(t2);
    if t1.len() > 0 {
        let n = t1.len() as int;
        let a = t1.last();
        let b = t2.last();
        assert(t1[n - 1] == a);
        assert(t2[n - 1] == b);
        assert(t1.contains(a));
        assert(t2.contains(b));
        assert(t1.to_multiset().count(a) > 0);
        assert(t2.to_multiset().count(b) > 0);
        assert(t2.to_multiset().count(a) > 0);
        assert(t1.to_multiset().count(b) > 0);
        assert(t2.contains(a));
        assert(t1.contains(b));
        let i = choose|i: int| 0 <= i < t2.len() && t2[i] == a;
        let j = choose|j: int| 0 <= j < t1.len() && t1[j] == b;
        assert(a <= b);
        assert(b <= a);
        let r1 = t1.drop_last();
        let r2 = t2.drop_last();
        assert(t1 =~= r1.push(a));
        assert(t2 =~= r2.push(b));
        to_multiset_build(r1, a);
        to_multiset_build(r2, b);
        assert(r1.to_multiset() =~= t1.to_multiset().remove(a));
        assert(r2.to_multiset() =~= t2.to_multiset().remove(b));
        lemma_sorted_permutation_unique(r1, r1, r2);
    }
}

proof fn lemma_percentile_in_range(n: int, p: int)
    requires
        n >= 1,
        0 <= p < 100,
    ensures
        0 <= percentile_index(n, p) < n,
{
    assert(0 <= n * p) by (nonlinear_arith)
        requires
            n >= 1,
            p >= 0,
    ;
    assert(n * p < n * 100) by (nonlinear_arith)
        requires
            n >= 1,
            p < 100,
    ;
}

proof fn lemma_sum_bounded(s: Seq<u64>)
    ensures
        0 <= sum_of(s) <= s.len() * (u64::MAX as int),
    decreases s.len(),
{
    if s.len() > 0 {
        lemma_sum_bounded(s.drop_last());
        assert((s.len() - 1) * (u64::MAX as int) + u64::MAX as int == s.len() * (u64::MAX as int))
            by (nonlinear_arith);
    }
}

proof fn lemma_average_fits(total: int, n: int)
    requires
        n >= 1,
        0 <= total <= n * (u64::MAX as int),
    ensures
        0 <= total / n <= u64::MAX,
{
    assert(total / n <= u64::MAX) by (nonlinear_arith)
        requires
            n >= 1,
            0 <= total <= n * (u64::MAX as int),
    ;
    assert(0 <= total / n) by (nonlinear_arith)
        requires
            n >= 1,
            0 <= total,
    ;
}

/// The values of `values` in ascending order.
pub fn sort_ascending(values: &Vec<u64>) -> (r: Vec<u64>)
    ensures
        sorted_permutation(values@, r@),
{
    broadcast use group_to_multiset_ensures;

    let mut out: Vec<u64> = Vec::new();
    let mut i: usize = 0;
    while i < values.len()
        invariant
            0 <= i <= values.len(),
            sorted(out@),
            out@.to_multiset() == values@.take(i as int).to_multiset(),
        decreases values.len() - i,
    {
        let x = values[i];
        let mut p: usize = 0;
        while p < out.len() && out[p] <= x
            invariant
                0 <= p <= out.len(),
                forall|j: int| 0 <= j < p ==> out@[j] <= x,
            decreases out.len() - p,
        {
            p += 1;
        }
        let ghost before = out@;
        out.insert(p, x);
        proof {
            to_multiset_insert(before, p as int, x);
            assert(values@.take(i as int + 1) =~= values@.take(i as int).push(x));
            to_multiset_build(values@.take(i as int), x);
            assert forall|a: int, b: int| 0 <= a <= b < out@.len() implies out@[a] <= out@[b] by {
                if a < p && b > p {
                    assert(before[a] <= x);
                } else if a == p && b > p {
                    assert(before[p as int] > x);
                    assert(before[p as int] <= before[b - 1]);
                }
            }
        }
        i += 1;
    }
    assert(values@.take(values.len() as int) =~= values@);
    out
}

impl Statistics {
    /// Fills in the statistics of `values`, read as already sorted.
    pub fn compute(&mut self, values: &Vec<u64>)
        requires
            values.len() >= 1,
        ensures
            *final(self) == stats_of(values@),
    {
        let n = values.len();
        proof {
            lemma_percentile_in_range(n as int, 90);
            lemma_percentile_in_range(n as int, 99);
        }
        let i90 = ((n as u128) * 90 / 100) as usize;
        let i99 = ((n as u128) * 99 / 100) as usize;
        self.median = values[n / 2];
        self._90th_percentile = values[i90];
        self._99th_percentile = values[i99];
        self.maximum_value = values[n - 1];

        let mut total: u128 = 0;
        let mut i: usize = 0;
        while i < n
            invariant
                n == values.len(),
                0 <= i <= n,
                total == sum_of(values@.take(i as int)),
                0 <= total <= i * (u64::MAX as int),
            decreases n - i,
        {
            proof {
                assert(values@.take(i as int + 1).drop_last() =~= values@.take(i as int));
                assert((i as int) * (u64::MAX as int) + u64::MAX as int == (i as int + 1) * (
                u64::MAX as int)) by (nonlinear_arith);
                assert((i as int + 1) * (u64::MAX as int) <= (usize::MAX as int) * (
                u64::MAX as int)) by (nonlinear_arith)
                    requires
                        i < usize::MAX,
                ;
            }
            total = total + values[i] as u128;
            i += 1;
        }
        assert(values@.take(n as int) =~= values@);
        proof {
            lemma_average_fits(total as int, n as int);
        }
        self.average = (total / (n as u128)) as u64;
    }

    /// The statistics of `values` once sorted; an error when there are none.
    pub fn of(values: &Vec<u64>) -> (r: Result<Statistics, StatisticsError>)
        ensures
            values.len() == 0 <==> r == Err::<Statistics, StatisticsError>(
                StatisticsError::EmptyInput,
            ),
            r matches Ok(st) ==> exists|t: Seq<u64>|
                sorted_permutation(values@, t) && st == stats_of(t),
            r matches Ok(st) ==> forall|t: Seq<u64>|
                sorted_permutation(values@, t) ==> st == stats_of(t),
    {
        if values.len() == 0 {
            return Err(StatisticsError::EmptyInput);
        }
        let ordered = sort_ascending(values);
        proof {
            to_multiset_len(ordered@);
            to_multiset_len(values@);
            assert forall|t: Seq<u64>| sorted_permutation(values@, t) implies t == ordered@ by {
                lemma_sorted_permutation_unique(values@, t, ordered@);
            }
        }
        let mut st = Statistics {
            average: 0,
            median: 0,
            _90th_percentile: 0,
            _99th_percentile: 0,
            maximum_value: 0,
        };
        st.compute(&ordered);
        Ok(st)
    }
}

} // verus!
