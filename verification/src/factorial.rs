use vstd::prelude::*;

verus! {

/// The factorial of `n`.
pub open spec fn spec_factorial(n: nat) -> nat
    decreases n,
{
    if n == 0 {
        1
    } else {
        n * spec_factorial((n - 1) as nat)
    }
}

proof fn lemma_factorial_pos(n: nat)
    ensures
        spec_factorial(n) >= 1,
    decreases n,
{
    if n > 0 {
        lemma_factorial_pos((n - 1) as nat);
        assert(n * spec_factorial((n - 1) as nat) >= 1) by (nonlinear_arith)
            requires n >= 1, spec_factorial((n - 1) as nat) >= 1,
        ;
    }
}

proof fn lemma_factorial_mono(a: nat, b: nat)
    requires
        a <= b,
    ensures
        spec_factorial(a) <= spec_factorial(b),
    decreases b,
{
    if a < b {
        lemma_factorial_mono(a, (b - 1) as nat);
        lemma_factorial_pos((b - 1) as nat);
        assert(spec_factorial((b - 1) as nat) <= b * spec_factorial((b - 1) as nat))
            by (nonlinear_arith)
            requires b >= 1, spec_factorial((b - 1) as nat) >= 0,
        ;
    }
}

proof fn lemma_factorial_20_value()
    ensures
        spec_factorial(20) == 2432902008176640000,
{
    assert(spec_factorial(0) == 1);
    assert(spec_factorial(1) == 1 * spec_factorial(0));
    assert(spec_factorial(2) == 2 * spec_factorial(1));
    assert(spec_factorial(3) == 3 * spec_factorial(2));
    assert(spec_factorial(4) == 4 * spec_factorial(3));
    assert(spec_factorial(5) == 5 * spec_factorial(4));
    assert(spec_factorial(6) == 6 * spec_factorial(5));
    assert(spec_factorial(7) == 7 * spec_factorial(6));
    assert(spec_factorial(8) == 8 * spec_factorial(7));
    assert(spec_factorial(9) == 9 * spec_factorial(8));
    assert(spec_factorial(10) == 10 * spec_factorial(9));
    assert(spec_factorial(11) == 11 * spec_factorial(10));
    assert(spec_factorial(12) == 12 * spec_factorial(11));
    assert(spec_factorial(13) == 13 * spec_factorial(12));
    assert(spec_factorial(14) == 14 * spec_factorial(13));
    assert(spec_factorial(15) == 15 * spec_factorial(14));
    assert(spec_factorial(16) == 16 * spec_factorial(15));
    assert(spec_factorial(17) == 17 * spec_factorial(16));
    assert(spec_factorial(18) == 18 * spec_factorial(17));
    assert(spec_factorial(19) == 19 * spec_factorial(18));
    assert(spec_factorial(20) == 20 * spec_factorial(19));
}

/// The factorial, for the values whose factorial a `u64` can hold.
pub trait Factorial {
    /// The factorial is taken of a non-negative argument no greater than
    /// twenty: the factorial of twenty-one does not fit a `u64`.
    spec fn factorial_in_domain(&self) -> bool;

    /// The argument as a natural number.
    spec fn factorial_arg(&self) -> nat;

    /// The factorial of the value, exactly.
    fn h_factorial(&self) -> (r: u64)
        requires
            self.factorial_in_domain(),
        ensures
            r == spec_factorial(self.factorial_arg()),
    ;
}

fn factorial_u64(n: u64) -> (r: u64)
    requires
        n <= 20,
    ensures
        r == spec_factorial(n as nat),
{
    let mut result: u64 = 1;
    let mut i: u64 = 1;
    while i <= n
        invariant
            1 <= i <= n + 1,
            n <= 20,
            result == spec_factorial((i - 1) as nat),
        decreases n + 1 - i,
    {
        proof {
            assert(spec_factorial(i as nat) == (i as nat) * spec_factorial((i - 1) as nat));
            lemma_factorial_mono(i as nat, 20);
            lemma_factorial_20_value();
            assert((result as int) * (i as int) == spec_factorial(i as nat)) by (nonlinear_arith)
                requires
                    result == spec_factorial((i - 1) as nat),
                    spec_factorial(i as nat) == (i as nat) * spec_factorial((i - 1) as nat),
                    i >= 1,
            ;
        }
        result = result * i;
        i = i + 1;
    }
    result
}

impl Factorial for i32 {
    open spec fn factorial_in_domain(&self) -> bool {
        0 <= *self <= 20
    }

    open spec fn factorial_arg(&self) -> nat {
        *self as nat
    }

    fn h_factorial(&self) -> (r: u64) {
        factorial_u64(*self as u64)
    }
}

impl Factorial for u32 {
    open spec fn factorial_in_domain(&self) -> bool {
        *self <= 20
    }

    open spec fn factorial_arg(&self) -> nat {
        *self as nat
    }

    fn h_factorial(&self) -> (r: u64) {
        factorial_u64(*self as u64)
    }
}

} // verus!
