//! Greatest common divisor of two positive integers.

use vstd::prelude::*;

verus! {

/// `d` is a positive number that divides both `n` and `m`.
pub open spec fn is_common_divisor(d: int, n: int, m: int) -> bool {
    d > 0 && n % d == 0 && m % d == 0
}

/// `g` is a common divisor of `n` and `m`, and every common divisor of the two
/// divides it. For positive `n` and `m` exactly one number is.
pub open spec fn is_gcd(g: int, n: int, m: int) -> bool {
    &&& is_common_divisor(g, n, m)
    &&& forall|d: int| is_common_divisor(d, n, m) ==> #[trigger] (g % d) == 0
}

/// A divisor of `n` and of `m` divides the remainder of `m` by `n`, and a
/// divisor of `n` and of that remainder divides `m`.
pub proof fn lemma_remainder_keeps_divisors(d: int, n: int, m: int)
    requires
        d > 0,
        n > 0,
        m >= 0,
        n % d == 0,
    ensures
        (m % d == 0) <==> ((m % n) % d == 0),
{
    let q = m / n;
    let r = m % n;
    let k = n / d;
    assert(m == n * q + r) by (nonlinear_arith)
        requires
            n > 0,
            q == m / n,
            r == m % n,
    ;
    assert(n == d * k) by (nonlinear_arith)
        requires
            d > 0,
            k == n / d,
            n % d == 0,
    ;
    assert(n * q == d * (k * q)) by (nonlinear_arith)
        requires
            n == d * k,
    ;
    if m % d == 0 {
        let j = m / d;
        assert(m == d * j) by (nonlinear_arith)
            requires
                d > 0,
                j == m / d,
                m % d == 0,
        ;
        assert(r == d * (j - k * q)) by (nonlinear_arith)
            requires
                m == n * q + r,
                n * q == d * (k * q),
                m == d * j,
        ;
        assert(r % d == 0) by (nonlinear_arith)
            requires
                d > 0,
                r == d * (j - k * q),
        ;
    }
    if r % d == 0 {
        let j = r / d;
        assert(r == d * j) by (nonlinear_arith)
            requires
                d > 0,
                j == r / d,
                r % d == 0,
        ;
        assert(m == d * (k * q + j)) by (nonlinear_arith)
            requires
                m == n * q + r,
                n * q == d * (k * q),
                r == d * j,
        ;
        assert(m % d == 0) by (nonlinear_arith)
            requires
                d > 0,
                m == d * (k * q + j),
        ;
    }
}

/// Two numbers that are both the greatest common divisor of `n` and `m` are
/// one number.
pub proof fn lemma_gcd_unique(g: int, h: int, n: int, m: int)
    requires
        is_gcd(g, n, m),
        is_gcd(h, n, m),
    ensures
        g == h,
{
    assert(g % h == 0);
    assert(h % g == 0);
    assert(g == h) by (nonlinear_arith)
        requires
            g > 0,
            h > 0,
            g % h == 0,
            h % g == 0,
    ;
}

/// The greatest common divisor does not depend on the order of the two numbers.
pub proof fn lemma_gcd_symmetric(g: int, n: int, m: int)
    requires
        is_gcd(g, n, m),
    ensures
        is_gcd(g, m, n),
{
    assert forall|d: int| is_common_divisor(d, m, n) implies #[trigger] (g % d) == 0 by {
        assert(is_common_divisor(d, n, m));
    }
}

/// Computes the greatest common divisor of `n` and `m` by Euclid's algorithm.
pub fn gcd(n: u64, m: u64) -> (g: u64)
    requires
        n != 0,
        m != 0,
    ensures
        is_gcd(g as int, n as int, m as int),
{
    let mut a: u64 = n;
    let mut b: u64 = m;
    while b != 0
        invariant
            a > 0,
            forall|d: int|
                is_common_divisor(d, n as int, m as int) <==> #[trigger] is_common_divisor(
                    d,
                    a as int,
                    b as int,
                ),
        decreases b,
    {
        let ghost a0 = a as int;
        let ghost b0 = b as int;
        if b < a {
            let t: u64 = b;
            b = a;
            a = t;
        }
        proof {
            assert forall|d: int|
                is_common_divisor(d, n as int, m as int) <==> #[trigger] is_common_divisor(
                    d,
                    a as int,
                    (b % a) as int,
                ) by {
                assert(is_common_divisor(d, a0, b0) <==> is_common_divisor(d, a as int, b as int));
                if d > 0 && (a as int) % d == 0 {
                    lemma_remainder_keeps_divisors(d, a as int, b as int);
                }
            }
        }
        b = b % a;
    }
    proof {
        let g = a as int;
        assert(g % g == 0) by (nonlinear_arith)
            requires
                g > 0,
        ;
        assert(0int % g == 0);
        assert(is_common_divisor(g, a as int, b as int));
        assert forall|d: int| is_common_divisor(d, n as int, m as int) implies #[trigger] (g % d)
            == 0 by {
            assert(is_common_divisor(d, a as int, b as int));
        }
    }
    a
}

/// `d` is a positive number that divides every one of `numbers`.
pub open spec fn divides_all(d: int, numbers: Seq<u64>) -> bool {
    d > 0 && forall|i: int| 0 <= i < numbers.len() ==> (#[trigger] numbers[i]) as int % d == 0
}

/// `g` divides every one of `numbers`, and every number that does so divides `g`.
pub open spec fn is_gcd_of_all(g: int, numbers: Seq<u64>) -> bool {
    &&& divides_all(g, numbers)
    &&& forall|d: int| divides_all(d, numbers) ==> #[trigger] (g % d) == 0
}

/// A divisor of a divisor of `a` divides `a`.
pub proof fn lemma_divides_transitive(a: int, b: int, c: int)
    requires
        b > 0,
        c > 0,
        a % b == 0,
        b % c == 0,
    ensures
        a % c == 0,
{
    let j = a / b;
    let k = b / c;
    assert(a == b * j) by (nonlinear_arith)
        requires
            b > 0,
            j == a / b,
            a % b == 0,
    ;
    assert(b == c * k) by (nonlinear_arith)
        requires
            c > 0,
            k == b / c,
            b % c == 0,
    ;
    assert(a == c * (k * j)) by (nonlinear_arith)
        requires
            a == b * j,
            b == c * k,
    ;
    assert(a % c == 0) by (nonlinear_arith)
        requires
            c > 0,
            a == c * (k * j),
    ;
}

/// Computes the greatest common divisor of all of `numbers`, from the first
/// to the last. A single number is its own.
pub fn gcd_all(numbers: &[u64]) -> (g: u64)
    requires
        numbers@.len() > 0,
        numbers@.len() > 1 ==> forall|i: int| 0 <= i < numbers@.len() ==> numbers@[i] != 0,
    ensures
        numbers@.len() == 1 ==> g == numbers@[0],
        (forall|i: int| 0 <= i < numbers@.len() ==> numbers@[i] != 0) ==> is_gcd_of_all(
            g as int,
            numbers@,
        ),
{
    let mut d: u64 = numbers[0];
    proof {
        if d != 0 {
            let g = d as int;
            assert(g % g == 0) by (nonlinear_arith)
                requires
                    g > 0,
            ;
            assert(divides_all(g, numbers@.take(1)));
            assert forall|e: int| divides_all(e, numbers@.take(1)) implies #[trigger] (g % e)
                == 0 by {
                assert(numbers@.take(1)[0] == d);
            }
        }
    }
    let mut k: usize = 1;
    while k < numbers.len()
        invariant
            1 <= k <= numbers@.len(),
            numbers@.len() > 1 ==> forall|i: int| 0 <= i < numbers@.len() ==> numbers@[i] != 0,
            numbers@.len() == 1 ==> d == numbers@[0],
            numbers@[0] != 0 ==> is_gcd_of_all(d as int, numbers@.take(k as int)),
        decreases numbers@.len() - k,
    {
        let m: u64 = numbers[k];
        let ghost seen = numbers@.take(k as int);
        let ghost more = numbers@.take(k + 1);
        let ghost before = d as int;
        d = gcd(d, m);
        proof {
            let g = d as int;
            assert forall|i: int| 0 <= i < more.len() implies (#[trigger] more[i]) as int % g
                == 0 by {
                if i < k {
                    assert(seen[i] == more[i]);
                    lemma_divides_transitive(more[i] as int, before, g);
                }
            }
            assert forall|e: int| divides_all(e, more) implies #[trigger] (g % e) == 0 by {
                assert forall|i: int| 0 <= i < seen.len() implies (#[trigger] seen[i]) as int % e
                    == 0 by {
                    assert(seen[i] == more[i]);
                }
                assert(divides_all(e, seen));
                assert(before % e == 0);
                assert(more[k as int] == m);
                assert(is_common_divisor(e, before, m as int));
            }
        }
        k = k + 1;
    }
    proof {
        assert(numbers@.take(k as int) =~= numbers@);
    }
    d
}

} // verus!
