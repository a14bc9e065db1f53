//! Small computations on numbers.
use vstd::prelude::*;

verus! {

/// The number five.
pub fn five() -> (r: i32)
    ensures
        r == 5,
{
    5
}

/// The Fibonacci numbers: 0, 1, and then each the sum of the two before it.
pub open spec fn fib(n: nat) -> nat
    decreases n,
{
    if n <= 1 {
        n
    } else {
        fib((n - 1) as nat) + fib((n - 2) as nat)
    }
}

/// The Fibonacci numbers never decrease.
pub proof fn lemma_fib_monotonic(i: nat, j: nat)
    requires
        i <= j,
    ensures
        fib(i) <= fib(j),
    decreases j - i,
{
    if i < j {
        lemma_fib_monotonic(i, (j - 1) as nat);
    }
}

/// The `n`-th Fibonacci number, where it fits in a `u64`.
pub fn fibonacci(n: u64) -> (r: u64)
    requires
        fib(n as nat) <= u64::MAX,
    ensures
        r == fib(n as nat),
{
    if n <= 1 {
        return n;
    }
    let mut a: u64 = 0;
    let mut b: u64 = 1;
    let mut i: u64 = 1;
    while i < n
        invariant
            1 <= i <= n,
            a == fib((i - 1) as nat),
            b == fib(i as nat),
            fib(n as nat) <= u64::MAX,
        decreases n - i,
    {
        proof {
            lemma_fib_monotonic((i + 1) as nat, n as nat);
        }
        let next = a + b;
        a = b;
        b = next;
        i = i + 1;
    }
    b
}

} // verus!
