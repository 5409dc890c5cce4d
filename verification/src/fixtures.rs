//! Sample functions that the analysis is pointed at: exact duplicates,
//! near duplicates, a unique function, and functions whose loop bodies are
//! near duplicates of each other.
use vstd::prelude::*;

verus! {

/// The sum of the positive values.
pub open spec fn positive_sum(s: Seq<i32>) -> int
    decreases s.len(),
{
    if s.len() == 0 {
        0
    } else {
        positive_sum(s.drop_last()) + if s[s.len() - 1] > 0 {
            s[s.len() - 1] as int
        } else {
            0
        }
    }
}

/// The sum of the negative values.
pub open spec fn negative_sum(s: Seq<i32>) -> int
    decreases s.len(),
{
    if s.len() == 0 {
        0
    } else {
        negative_sum(s.drop_last()) + if s[s.len() - 1] < 0 {
            s[s.len() - 1] as int
        } else {
            0
        }
    }
}

proof fn lemma_positive_sum_prefix(s: Seq<i32>, i: int)
    requires
        0 <= i <= s.len(),
    ensures
        0 <= positive_sum(s.take(i)) <= positive_sum(s),
    decreases s.len() - i,
{
    if i < s.len() {
        assert(s.take(i + 1).drop_last() =~= s.take(i));
        lemma_positive_sum_prefix(s, i + 1);
        lemma_positive_sum_nonnegative(s.take(i));
    } else {
        assert(s.take(i) =~= s);
        lemma_positive_sum_nonnegative(s);
    }
}

proof fn lemma_positive_sum_nonnegative(s: Seq<i32>)
    ensures
        positive_sum(s) >= 0,
    decreases s.len(),
{
    if s.len() > 0 {
        lemma_positive_sum_nonnegative(s.drop_last());
    }
}

proof fn lemma_negative_sum_prefix(s: Seq<i32>, i: int)
    requires
        0 <= i <= s.len(),
    ensures
        negative_sum(s) <= negative_sum(s.take(i)) <= 0,
    decreases s.len() - i,
{
    if i < s.len() {
        assert(s.take(i + 1).drop_last() =~= s.take(i));
        lemma_negative_sum_prefix(s, i + 1);
        lemma_negative_sum_nonpositive(s.take(i));
    } else {
        assert(s.take(i) =~= s);
        lemma_negative_sum_nonpositive(s);
    }
}

proof fn lemma_negative_sum_nonpositive(s: Seq<i32>)
    ensures
        negative_sum(s) <= 0,
    decreases s.len(),
{
    if s.len() > 0 {
        lemma_negative_sum_nonpositive(s.drop_last());
    }
}

fn sum_of_positives(values: &Vec<i32>) -> (r: i32)
    requires
        positive_sum(values@) <= i32::MAX,
    ensures
        r == positive_sum(values@),
{
    let mut sum: i32 = 0;
    let n = values.len();
    for k in 0..n
        invariant
            n == values@.len(),
            positive_sum(values@) <= i32::MAX,
            sum == positive_sum(values@.take(k as int)),
    {
        let item = values[k];
        proof {
            assert(values@.take(k + 1).drop_last() =~= values@.take(k as int));
            lemma_positive_sum_prefix(values@, k + 1);
        }
        if item > 0 {
            sum += item;
        }
    }
    assert(values@.take(n as int) =~= values@);
    sum
}

fn sum_of_negatives(values: &Vec<i32>) -> (r: i32)
    requires
        negative_sum(values@) >= i32::MIN,
    ensures
        r == negative_sum(values@),
{
    let mut sum: i32 = 0;
    let n = values.len();
    for k in 0..n
        invariant
            n == values@.len(),
            negative_sum(values@) >= i32::MIN,
            sum == negative_sum(values@.take(k as int)),
    {
        let item = values[k];
        proof {
            assert(values@.take(k + 1).drop_last() =~= values@.take(k as int));
            lemma_negative_sum_prefix(values@, k + 1);
        }
        if item < 0 {
            sum += item;
        }
    }
    assert(values@.take(n as int) =~= values@);
    sum
}

/// The sum of the positive inputs.
pub fn process_data(input: Vec<i32>) -> (r: i32)
    requires
        positive_sum(input@) <= i32::MAX,
    ensures
        r == positive_sum(input@),
{
    sum_of_positives(&input)
}

/// The sum of the positive values.
pub fn compute_total(values: Vec<i32>) -> (r: i32)
    requires
        positive_sum(values@) <= i32::MAX,
    ensures
        r == positive_sum(values@),
{
    sum_of_positives(&values)
}

/// The sum of the positive numbers.
pub fn aggregate(numbers: Vec<i32>) -> (r: i32)
    requires
        positive_sum(numbers@) <= i32::MAX,
    ensures
        r == positive_sum(numbers@),
{
    sum_of_positives(&numbers)
}

/// The sum of the positive data.
pub fn sum_positive(data: Vec<i32>) -> (r: i32)
    requires
        positive_sum(data@) <= i32::MAX,
    ensures
        r == positive_sum(data@),
{
    sum_of_positives(&data)
}

/// The sum of the positive values (despite its name, a sum, not a count).
pub fn count_positive(values: Vec<i32>) -> (r: i32)
    requires
        positive_sum(values@) <= i32::MAX,
    ensures
        r == positive_sum(values@),
{
    sum_of_positives(&values)
}

/// The sum of the negative data.
pub fn sum_negative(data: Vec<i32>) -> (r: i32)
    requires
        negative_sum(data@) >= i32::MIN,
    ensures
        r == negative_sum(data@),
{
    sum_of_negatives(&data)
}

/// The Fibonacci numbers, `fib(0) = 0` and `fib(1) = 1`.
pub open spec fn fib(n: nat) -> nat
    decreases n,
{
    if n <= 1 {
        n
    } else {
        fib((n - 2) as nat) + fib((n - 1) as nat)
    }
}

proof fn lemma_fib_monotonic(i: nat, j: nat)
    requires
        i <= j,
    ensures
        fib(i) <= fib(j),
    decreases j - i,
{
    if j < 2 || i == j {
    } else if i == j - 1 {
    } else {
        lemma_fib_monotonic(i, (j - 1) as nat);
        lemma_fib_monotonic(i, (j - 2) as nat);
    }
}

proof fn lemma_fib_grows(n: nat)
    requires
        n >= 6,
    ensures
        fib(n) >= n + 2,
    decreases n,
{
    if n <= 7 {
        reveal_with_fuel(fib, 8);
    } else {
        lemma_fib_grows((n - 1) as nat);
        lemma_fib_grows((n - 2) as nat);
    }
}

/// The `n`th Fibonacci number.
pub fn fibonacci(n: u32) -> (r: u32)
    requires
        fib(n as nat) <= u32::MAX,
    ensures
        r == fib(n as nat),
{
    if n <= 1 {
        return n;
    }
    proof {
        if n >= 6 {
            lemma_fib_grows(n as nat);
        }
    }
    let mut a: u32 = 0;
    let mut b: u32 = 1;
    let mut i: u32 = 2;
    while i <= n
        invariant
            2 <= i <= n + 1,
            n < u32::MAX,
            fib(n as nat) <= u32::MAX,
            a == fib((i - 2) as nat),
            b == fib((i - 1) as nat),
        decreases n + 1 - i,
    {
        proof {
            lemma_fib_monotonic(i as nat, n as nat);
        }
        let temp = a + b;
        a = b;
        b = temp;
        i += 1;
    }
    b
}

/// `(2x + 1)^2`.
pub open spec fn rising_term(x: i32) -> int {
    (2 * x + 1) * (2 * x + 1)
}

/// `(2x - 1)^2`.
pub open spec fn falling_term(x: i32) -> int {
    (2 * x - 1) * (2 * x - 1)
}

/// The sum of the terms of a sequence.
pub open spec fn sum_terms(s: Seq<i32>, term: spec_fn(i32) -> int) -> int
    decreases s.len(),
{
    if s.len() == 0 {
        0
    } else {
        sum_terms(s.drop_last(), term) + term(s[s.len() - 1])
    }
}

proof fn lemma_sum_terms_prefix(s: Seq<i32>, term: spec_fn(i32) -> int, i: int)
    requires
        0 <= i <= s.len(),
        forall|x: i32| #[trigger] term(x) >= 0,
    ensures
        0 <= sum_terms(s.take(i), term) <= sum_terms(s, term),
    decreases s.len() - i,
{
    if i < s.len() {
        assert(s.take(i + 1).drop_last() =~= s.take(i));
        lemma_sum_terms_prefix(s, term, i + 1);
        lemma_sum_terms_nonnegative(s.take(i), term);
    } else {
        assert(s.take(i) =~= s);
        lemma_sum_terms_nonnegative(s, term);
    }
}

proof fn lemma_sum_terms_nonnegative(s: Seq<i32>, term: spec_fn(i32) -> int)
    requires
        forall|x: i32| #[trigger] term(x) >= 0,
    ensures
        sum_terms(s, term) >= 0,
    decreases s.len(),
{
    if s.len() > 0 {
        lemma_sum_terms_nonnegative(s.drop_last(), term);
    }
}

proof fn lemma_square_nonnegative(x: int)
    ensures
        x * x >= 0,
{
    assert(x * x >= 0) by (nonlinear_arith);
}

/// The sum over the items of `(2 * item + 1)^2`.
pub fn total_rising(items: &[i32]) -> (r: i32)
    requires
        forall|k: int| 0 <= k < items@.len() ==> -46340 <= 2 * #[trigger] items@[k] + 1 <= 46340,
        sum_terms(items@, |x: i32| rising_term(x)) <= i32::MAX,
    ensures
        r == sum_terms(items@, |x: i32| rising_term(x)),
{
    let ghost term = |x: i32| rising_term(x);
    proof {
        assert forall|x: i32| #[trigger] term(x) >= 0 by {
            lemma_square_nonnegative(2 * x + 1);
        }
    }
    let mut total: i32 = 0;
    let n = items.len();
    for k in 0..n
        invariant
            n == items@.len(),
            forall|j: int| 0 <= j < items@.len() ==> -46340 <= 2 * #[trigger] items@[j] + 1 <= 46340,
            sum_terms(items@, term) <= i32::MAX,
            forall|x: i32| #[trigger] term(x) >= 0,
            term == (|x: i32| rising_term(x)),
            total == sum_terms(items@.take(k as int), term),
    {
        let item = items[k];
        proof {
            assert(items@.take(k + 1).drop_last() =~= items@.take(k as int));
            lemma_sum_terms_prefix(items@, term, k + 1);
            assert(-46340 <= 2 * item + 1 <= 46340);
            assert((2 * item + 1) * (2 * item + 1) <= 46340 * 46340) by (nonlinear_arith)
                requires
                    -46340 <= 2 * item + 1 <= 46340,
            ;
        }
        let scaled = item * 2;
        let shifted = scaled + 1;
        let squared = shifted * shifted;
        total += squared;
    }
    assert(items@.take(n as int) =~= items@);
    total
}

/// The sum over the values of `(2 * value - 1)^2`.
pub fn total_falling(values: &[i32]) -> (r: i32)
    requires
        forall|k: int| 0 <= k < values@.len() ==> -46340 <= 2 * #[trigger] values@[k] - 1 <= 46340,
        sum_terms(values@, |x: i32| falling_term(x)) <= i32::MAX,
    ensures
        r == sum_terms(values@, |x: i32| falling_term(x)),
{
    let ghost term = |x: i32| falling_term(x);
    proof {
        assert forall|x: i32| #[trigger] term(x) >= 0 by {
            lemma_square_nonnegative(2 * x - 1);
        }
    }
    let mut total: i32 = 0;
    let n = values.len();
    for k in 0..n
        invariant
            n == values@.len(),
            forall|j: int|
                0 <= j < values@.len() ==> -46340 <= 2 * #[trigger] values@[j] - 1 <= 46340,
            sum_terms(values@, term) <= i32::MAX,
            forall|x: i32| #[trigger] term(x) >= 0,
            term == (|x: i32| falling_term(x)),
            total == sum_terms(values@.take(k as int), term),
    {
        let value = values[k];
        proof {
            assert(values@.take(k + 1).drop_last() =~= values@.take(k as int));
            lemma_sum_terms_prefix(values@, term, k + 1);
            assert((2 * value - 1) * (2 * value - 1) <= 46340 * 46340) by (nonlinear_arith)
                requires
                    -46340 <= 2 * value - 1 <= 46340,
            ;
        }
        let scaled = value * 2;
        let shifted = scaled - 1;
        let squared = shifted * shifted;
        total += squared;
    }
    assert(values@.take(n as int) =~= values@);
    total
}

} // verus!
