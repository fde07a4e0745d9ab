//! Number crunching spread over a thread pool: primality, summing and
//! collecting primes. The parallel iteration itself is done by `rayon`.

use rayon::iter::IntoParallelIterator;
use rayon::iter::IntoParallelRefIterator;
use rayon::iter::ParallelIterator;
use rayon::slice::ParallelSliceMut;
use vstd::prelude::*;
use vstd::relations::sorted_by;
use vstd::relations::total_ordering;

verus! {

/// `n` has no divisor in `lo..=hi`.
pub open spec fn no_divisor_in(n: int, lo: int, hi: int) -> bool {
    forall|i: int| lo <= i <= hi ==> #[trigger] (n % i) != 0
}

/// The primality test of this library: no divisor in `2..=n/2`. It reports
/// `0` and `1` as prime, since that range is empty for them.
pub open spec fn is_prime_spec(n: int) -> bool {
    no_divisor_in(n, 2, n / 2)
}

/// The usual notion of a prime number.
pub open spec fn is_textbook_prime(n: int) -> bool {
    &&& n >= 2
    &&& forall|d: int| 2 <= d < n ==> #[trigger] (n % d) != 0
}

/// Sum of a sequence of `u64` values, as a mathematical integer.
pub open spec fn seq_sum(s: Seq<u64>) -> int
    decreases s.len(),
{
    if s.len() == 0 {
        0
    } else {
        seq_sum(s.drop_last()) + s.last()
    }
}

/// The numbers `0, 1, ..., n - 1`.
pub open spec fn numbers_below(n: nat) -> Seq<u64> {
    Seq::new(n, |i: int| i as u64)
}

/// The numbers `0, 1, ..., n - 1` as `u32`.
pub open spec fn numbers_below_u32(n: nat) -> Seq<u32> {
    Seq::new(n, |i: int| i as u32)
}

/// Ascending order on `u32`.
pub open spec fn u32_leq() -> spec_fn(u32, u32) -> bool {
    |a: u32, b: u32| a <= b
}

/// Whether `i` does not divide `n`.
pub fn is_not_divisor(n: u32, i: u32) -> (b: bool)
    requires
        i != 0,
    ensures
        b == (n as int % i as int != 0),
{
    n % i != 0
}

/// Checks in parallel that no number of `lo..=hi` divides `n`, with rayon's
/// `ParallelIterator::all` over the inclusive range; rayon documents `all` as
/// returning true exactly when every item satisfies the predicate.
#[verifier::external_body]
fn par_no_divisor(n: u32, lo: u32, hi: u32) -> (b: bool)
    requires
        lo >= 1,
    ensures
        b == no_divisor_in(n as int, lo as int, hi as int),
{
    (lo..=hi).into_par_iter().all(|i| is_not_divisor(n, i))
}

/// Sums the vector in parallel with rayon's `ParallelIterator::sum`. The sum
/// of non-negative numbers fits when the total does, so no partial sum overflows.
#[verifier::external_body]
fn par_sum(values: &Vec<u64>) -> (s: u64)
    requires
        seq_sum(values@) <= u64::MAX,
    ensures
        s == seq_sum(values@),
{
    values.par_iter().sum::<u64>()
}

/// Keeps the numbers that [`is_prime`] accepts, with rayon's parallel
/// `filter` and `collect`, which keeps the items in the order they came in.
#[verifier::external_body]
fn par_filter_primes(numbers: &Vec<u32>) -> (primes: Vec<u32>)
    ensures
        primes@ == numbers@.filter(|x: u32| is_prime_spec(x as int)),
{
    numbers.par_iter().filter(|n| is_prime(**n)).copied().collect()
}

/// Sorts with rayon's `par_sort_unstable`: the result is in ascending order and
/// holds the same numbers.
#[verifier::external_body]
fn par_sort_unstable(values: &mut Vec<u32>)
    ensures
        sorted_by(final(values)@, u32_leq()),
        final(values)@.to_multiset() == old(values)@.to_multiset(),
{
    values.par_sort_unstable();
}

/// The primality test: no divisor between 2 and `n / 2`. Reports `0` and `1`
/// as prime.
pub fn is_prime(n: u32) -> (b: bool)
    ensures
        b == is_prime_spec(n as int),
{
    par_no_divisor(n, 2, n / 2)
}

/// For `n >= 2` the test agrees with the usual notion of a prime.
pub proof fn lemma_is_prime_textbook(n: int)
    requires
        n >= 2,
    ensures
        is_prime_spec(n) <==> is_textbook_prime(n),
{
    if is_prime_spec(n) {
        assert forall|d: int| 2 <= d < n implies #[trigger] (n % d) != 0 by {
            if d > n / 2 && n % d == 0 {
                let k = n / d;
                assert(n == d * k) by (nonlinear_arith)
                    requires
                        d > 0,
                        k == n / d,
                        n % d == 0,
                ;
                assert(k >= 2) by (nonlinear_arith)
                    requires
                        n == d * k,
                        d < n,
                        d > 0,
                        n >= 2,
                ;
                assert(d * k >= 2 * d) by (nonlinear_arith)
                    requires
                        k >= 2,
                        d > 0,
                ;
                assert(2 * d > n);
            }
            if d <= n / 2 {
                assert(2 <= d <= n / 2);
            }
        }
    }
    if is_textbook_prime(n) {
        assert forall|i: int| 2 <= i <= n / 2 implies #[trigger] (n % i) != 0 by {
            assert(i < n);
        }
    }
}

/// The sum of `0, 1, ..., n - 1` is `n * (n - 1) / 2`.
pub proof fn lemma_sum_numbers_below(n: nat)
    requires
        n <= u64::MAX,
    ensures
        seq_sum(numbers_below(n)) == n * (n - 1) / 2,
    decreases n,
{
    if n > 0 {
        lemma_sum_numbers_below((n - 1) as nat);
        assert(numbers_below(n).drop_last() =~= numbers_below((n - 1) as nat));
        assert(numbers_below(n).last() == n - 1);
        assert(seq_sum(numbers_below(n)) == seq_sum(numbers_below((n - 1) as nat)) + (n - 1));
        let m = n - 1;
        assert(m * (m - 1) / 2 + m == n * (n - 1) / 2) by (nonlinear_arith)
            requires
                m == n - 1,
                n > 0,
        ;
        assert(seq_sum(numbers_below(n)) == n * (n - 1) / 2);
    } else {
        assert(numbers_below(n).len() == 0);
        assert(seq_sum(numbers_below(n)) == 0);
    }
}

/// Sums in parallel the numbers below `n`; the result is `n * (n - 1) / 2`.
pub fn sum_numbers_below(n: u64) -> (s: u64)
    requires
        n * (n - 1) / 2 <= u64::MAX,
    ensures
        s == n * (n - 1) / 2,
{
    let mut numbers: Vec<u64> = Vec::new();
    let mut i: u64 = 0;
    while i < n
        invariant
            i <= n,
            numbers@ == numbers_below(i as nat),
        decreases n - i,
    {
        numbers.push(i);
        assert(numbers@ =~= numbers_below((i + 1) as nat));
        i = i + 1;
    }
    proof {
        lemma_sum_numbers_below(n as nat);
    }
    par_sum(&numbers)
}

/// Filtering a strictly increasing sequence keeps it strictly increasing.
proof fn lemma_filter_increasing(s: Seq<u32>, pred: spec_fn(u32) -> bool)
    requires
        forall|i: int, j: int| 0 <= i < j < s.len() ==> s[i] < s[j],
    ensures
        forall|i: int, j: int|
            0 <= i < j < s.filter(pred).len() ==> s.filter(pred)[i] < s.filter(pred)[j],
        forall|i: int|
            0 <= i < s.filter(pred).len() ==> exists|k: int| 0 <= k < s.len() && s[k] == #[trigger] s.filter(pred)[i],
    decreases s.len(),
{
    reveal(Seq::filter);
    if s.len() > 0 {
        let t = s.drop_last();
        lemma_filter_increasing(t, pred);
        let g = t.filter(pred);
        let f = s.filter(pred);
        assert forall|i: int| 0 <= i < g.len() implies g[i] < s.last() by {
            let k = choose|k: int| 0 <= k < t.len() && t[k] == g[i];
            assert(s[k] == t[k]);
        }
        assert forall|i: int| 0 <= i < f.len() implies exists|k: int| 0 <= k < s.len() && s[k] == #[trigger] f[i] by {
            if i < g.len() {
                let k = choose|k: int| 0 <= k < t.len() && t[k] == g[i];
                assert(s[k] == f[i]);
            } else {
                assert(s[s.len() - 1] == f[i]);
            }
        }
    }
}

/// The numbers below `limit` that [`is_prime`] accepts, in ascending order.
pub fn primes_below(limit: u32) -> (primes: Vec<u32>)
    ensures
        primes@ == numbers_below_u32(limit as nat).filter(|x: u32| is_prime_spec(x as int)),
{
    let mut numbers: Vec<u32> = Vec::new();
    let mut i: u32 = 0;
    while i < limit
        invariant
            i <= limit,
            numbers@ == numbers_below_u32(i as nat),
        decreases limit - i,
    {
        numbers.push(i);
        assert(numbers@ =~= numbers_below_u32((i + 1) as nat));
        i = i + 1;
    }
    let mut primes = par_filter_primes(&numbers);
    let ghost filtered = primes@;
    par_sort_unstable(&mut primes);
    proof {
        let pred = |x: u32| is_prime_spec(x as int);
        lemma_filter_increasing(numbers@, pred);
        assert(sorted_by(filtered, u32_leq()));
        assert(total_ordering(u32_leq()));
        vstd::seq_lib::lemma_sorted_unique(primes@, filtered, u32_leq());
    }
    primes
}

} // verus!
