//! A request layout: a byte size together with a power-of-two alignment.

use vstd::prelude::*;

use crate::error::AllocError;

verus! {

/// `n` is a positive power of two.
pub open spec fn is_pow2(n: int) -> bool
    decreases n,
{
    if n <= 0 {
        false
    } else if n == 1 {
        true
    } else {
        n % 2 == 0 && is_pow2(n / 2)
    }
}

#[derive(Clone, Copy, Debug, PartialEq, Eq, Structural)]
pub struct Layout {
    pub size: usize,
    pub align: usize,
}

impl Layout {
    pub open spec fn wf(self) -> bool {
        is_pow2(self.align as int)
    }

    /// Build a layout; fails when `align` is not a power of two.
    pub fn from_size_align(size: usize, align: usize) -> (r: Result<Layout, AllocError>)
        ensures
            r matches Ok(l) ==> l.size == size && l.align == align && l.wf(),
            r is Ok <==> is_pow2(align as int),
            r matches Err(e) ==> e == AllocError::LayoutError,
    {
        if is_power_of_two(align) {
            Ok(Layout { size, align })
        } else {
            Err(AllocError::LayoutError)
        }
    }
}

fn is_power_of_two(n: usize) -> (r: bool)
    ensures
        r == is_pow2(n as int),
{
    if n == 0 {
        return false;
    }
    let mut m: usize = n;
    while m % 2 == 0
        invariant
            m >= 1,
            is_pow2(n as int) == is_pow2(m as int),
        decreases m,
    {
        m = m / 2;
    }
    m == 1
}

/// A power of two divides every power of two at least as large.
pub proof fn lemma_pow2_divides(a: int, b: int)
    requires
        is_pow2(a),
        is_pow2(b),
        a <= b,
    ensures
        b % a == 0,
    decreases b,
{
    if a == 1 {
        assert(b % 1 == 0);
    } else if a == b {
        assert(b % b == 0) by {
            vstd::arithmetic::div_mod::lemma_mod_self_0(b);
        }
    } else {
        assert(a % 2 == 0 && b % 2 == 0);
        lemma_pow2_divides(a / 2, b / 2);
        assert(b == 2 * (b / 2) && a == 2 * (a / 2)) by {
            vstd::arithmetic::div_mod::lemma_fundamental_div_mod(b, 2);
            vstd::arithmetic::div_mod::lemma_fundamental_div_mod(a, 2);
        }
        let q = (b / 2) / (a / 2);
        assert(b / 2 == q * (a / 2)) by {
            vstd::arithmetic::div_mod::lemma_fundamental_div_mod(b / 2, a / 2);
        }
        assert(b == q * a) by (nonlinear_arith)
            requires
                b == 2 * (b / 2),
                a == 2 * (a / 2),
                b / 2 == q * (a / 2),
        ;
        assert(b % a == 0) by {
            vstd::arithmetic::div_mod::lemma_mod_multiples_basic(q, a);
        }
    }
}

/// Divisibility carries through a sum: when `a` and `b` are both multiples
/// of `m`, so is `a + b`.
pub proof fn lemma_mod_sum_zero(a: int, b: int, m: int)
    requires
        m > 0,
        a % m == 0,
        b % m == 0,
    ensures
        (a + b) % m == 0,
{
    vstd::arithmetic::div_mod::lemma_add_mod_noop(a, b, m);
    assert((0int + 0int) % m == 0) by {
        vstd::arithmetic::div_mod::lemma_small_mod(0nat, m as nat);
    }
}

/// Divisibility is transitive: a multiple of `m` is a multiple of every
/// divisor of `m`.
pub proof fn lemma_mod_divides_transitive(a: int, m: int, d: int)
    requires
        m > 0,
        d > 0,
        a % m == 0,
        m % d == 0,
    ensures
        a % d == 0,
{
    let k = a / m;
    assert(a == k * m) by {
        vstd::arithmetic::div_mod::lemma_fundamental_div_mod(a, m);
    }
    let j = m / d;
    assert(m == j * d) by {
        vstd::arithmetic::div_mod::lemma_fundamental_div_mod(m, d);
    }
    assert(a == (k * j) * d) by (nonlinear_arith)
        requires
            a == k * m,
            m == j * d,
    ;
    assert(a % d == 0) by {
        vstd::arithmetic::div_mod::lemma_mod_multiples_basic(k * j, d);
    }
}

} // verus!
