//! The interpolation basis in exact arithmetic.
//!
//! At the offset `u = p / q` the basis polynomial of the node `i` on a
//! stencil of the order `n` is the quotient of the whole number
//! [`basis_numerator`], which is `q` to the power `n` times its numerator,
//! and of `q` to the power `n` times its denominator. Here it is shown that
//! the basis polynomials are one on their own node and zero on every other,
//! and that they sum to one at every offset.
use crate::basis::{
    basis_denominator_of, evaluates, factorial, lemma_factorial_positive, multiplied_before,
    multiplied_through,
};
use vstd::prelude::*;

verus! {

/// The product `a (a - q) (a - 2 q) ..` of `m` factors.
pub open spec fn falling(a: int, q: int, m: nat) -> int
    decreases m,
{
    if m == 0 {
        1
    } else {
        falling(a, q, (m - 1) as nat) * (a - (m - 1) * q)
    }
}

/// `q` to the power `n`.
pub open spec fn power(q: int, n: nat) -> int
    decreases n,
{
    if n == 0 {
        1
    } else {
        power(q, (n - 1) as nat) * q
    }
}

/// The number of ways to choose `k` of `n` things.
pub open spec fn binomial(n: nat, k: nat) -> nat
    decreases n,
{
    if k == 0 {
        1
    } else if n == 0 {
        0
    } else {
        binomial((n - 1) as nat, (k - 1) as nat) + binomial((n - 1) as nat, k)
    }
}

/// `q` to the power `n` times the numerator of the basis polynomial of the
/// node `i` on a stencil of the order `n` at the offset `p / q`: the product
/// of `p - z q` over the nodes `z` below `i` and of `z q - p` over the nodes
/// `z` above `i`.
pub open spec fn basis_numerator(i: nat, n: nat, p: int, q: int) -> int
    recommends
        i <= n,
{
    falling(p, q, i) * falling(n * q - p, q, (n - i) as nat)
}

/// The first factor of a falling product can be split off.
proof fn lemma_falling_first(a: int, q: int, m: nat)
    ensures
        falling(a, q, m + 1) == a * falling(a - q, q, m),
    decreases m,
{
    if m == 0 {
        assert(falling(a, q, 1) == falling(a, q, 0) * (a - 0 * q));
        assert(falling(a, q, 0) == 1);
        assert(falling(a - q, q, 0) == 1);
    } else {
        lemma_falling_first(a, q, (m - 1) as nat);
        let f = falling(a - q, q, (m - 1) as nat);
        assert(falling(a, q, m + 1) == falling(a, q, m) * (a - m * q));
        assert(falling(a, q, m) == a * f);
        assert(falling(a - q, q, m) == f * ((a - q) - (m - 1) * q));
        assert((a * f) * (a - m * q) == a * (f * ((a - q) - (m - 1) * q))) by (nonlinear_arith);
    }
}

/// A falling product of whole numbers that runs through zero is zero.
proof fn lemma_falling_vanishes(a: nat, m: nat)
    requires
        a < m,
    ensures
        falling(a as int, 1, m) == 0,
    decreases m,
{
    let f = falling(a as int, 1, (m - 1) as nat);
    assert(falling(a as int, 1, m) == f * (a - (m - 1) * 1));
    if a == m - 1 {
        assert(f * (a - (m - 1) * 1) == 0) by (nonlinear_arith)
            requires
                a - (m - 1) * 1 == 0,
        ;
    } else {
        lemma_falling_vanishes(a, (m - 1) as nat);
        assert(f * (a - (m - 1) * 1) == 0) by (nonlinear_arith)
            requires
                f == 0,
        ;
    }
}

/// The falling product of all whole numbers from `m` down to one is the
/// factorial of `m`.
proof fn lemma_falling_is_factorial(m: nat)
    ensures
        falling(m as int, 1, m) == factorial(m),
    decreases m,
{
    if m > 0 {
        lemma_falling_first(m as int, 1, (m - 1) as nat);
        lemma_falling_is_factorial((m - 1) as nat);
    }
}

/// On the nodes of its stencil a basis polynomial is one on its own node
/// and zero on every other: at the whole offset `j` its numerator is its
/// denominator where `j` is the node `i`, and zero otherwise.
pub proof fn lemma_basis_at_node(i: nat, n: nat, j: nat)
    requires
        i <= n,
        j <= n,
    ensures
        basis_numerator(i, n, j as int, 1) == (if i == j {
            basis_denominator_of(i, n) as int
        } else {
            0
        }),
{
    let below = falling(j as int, 1, i);
    let above = falling(n * 1 - j, 1, (n - i) as nat);
    if j < i {
        lemma_falling_vanishes(j, i);
        assert(below * above == 0) by (nonlinear_arith)
            requires
                below == 0,
        ;
    } else if j > i {
        lemma_falling_vanishes((n - j) as nat, (n - i) as nat);
        assert(below * above == 0) by (nonlinear_arith)
            requires
                above == 0,
        ;
    } else {
        lemma_falling_is_factorial(i);
        lemma_falling_is_factorial((n - i) as nat);
    }
}

/// The product of the factors of the nodes below `z` of a stencil, but for
/// the node `i`: of `p - k q` for the nodes `k` below `i`, and of `k q - p`
/// for those above.
pub open spec fn partial_numerator(i: nat, z: nat, p: int, q: int) -> int {
    if z <= i {
        falling(p, q, z)
    } else {
        falling(p, q, i) * falling((z - 1) * q - p, q, (z - 1 - i) as nat)
    }
}

/// Does `factor` multiply the distance of the offset `p / q` from a node in,
/// where `value` tells which whole number a pattern stands for?
pub open spec fn multiplies_exactly<M: Fn(u64, usize, usize) -> u64>(
    factor: &M,
    value: spec_fn(u64) -> int,
    i: nat,
    p: int,
    q: int,
) -> bool {
    forall|prev: u64, z: usize, product: u64| #[trigger]
        factor.ensures((prev, z, i as usize), product) ==> value(product) == value(prev) * (if z
            < i {
            p - z * q
        } else {
            z * q - p
        })
}

/// Through the node `z` the product of [`crate::basis::fi`] is the partial
/// numerator, where its factors are multiplied in exactly.
proof fn lemma_multiplied_through<M: Fn(u64, usize, usize) -> u64>(
    factor: &M,
    value: spec_fn(u64) -> int,
    one: u64,
    i: nat,
    z: nat,
    p: int,
    q: int,
    product: u64,
)
    requires
        i <= usize::MAX,
        z <= usize::MAX,
        value(one) == 1,
        multiplies_exactly(factor, value, i, p, q),
        multiplied_through(factor, one, i, z, product),
    ensures
        value(product) == partial_numerator(i, z + 1, p, q),
    decreases z, 1nat,
{
    if z == i {
        lemma_multiplied_before(factor, value, one, i, z, p, q, product);
        assert(falling(z * q - p, q, 0) == 1);
        assert(falling(p, q, i) * 1 == falling(p, q, i)) by (nonlinear_arith);
    } else {
        let prev = choose|prev: u64|
            multiplied_before(factor, one, i, z, prev) && #[trigger] factor.ensures(
                (prev, z as usize, i as usize),
                product,
            );
        lemma_multiplied_before(factor, value, one, i, z, p, q, prev);
        if z < i {
            assert(falling(p, q, z + 1) == falling(p, q, z) * (p - z * q));
        } else {
            lemma_falling_first(z * q - p, q, (z - 1 - i) as nat);
            let head = falling(p, q, i);
            let tail = falling((z - 1) * q - p, q, (z - 1 - i) as nat);
            assert(z * q - p - q == (z - 1) * q - p) by (nonlinear_arith);
            assert(falling(z * q - p, q, (z - i) as nat) == (z * q - p) * tail);
            assert((head * tail) * (z * q - p) == head * ((z * q - p) * tail))
                by (nonlinear_arith);
        }
    }
}

/// Before the node `z` the product of [`crate::basis::fi`] is the partial
/// numerator, where its factors are multiplied in exactly.
proof fn lemma_multiplied_before<M: Fn(u64, usize, usize) -> u64>(
    factor: &M,
    value: spec_fn(u64) -> int,
    one: u64,
    i: nat,
    z: nat,
    p: int,
    q: int,
    product: u64,
)
    requires
        i <= usize::MAX,
        z <= usize::MAX,
        value(one) == 1,
        multiplies_exactly(factor, value, i, p, q),
        multiplied_before(factor, one, i, z, product),
    ensures
        value(product) == partial_numerator(i, z, p, q),
    decreases z, 0nat,
{
    if z > 0 {
        lemma_multiplied_through(factor, value, one, i, (z - 1) as nat, p, q, product);
    }
}

/// Where the factors are multiplied in exactly, the product that
/// [`crate::basis::fi`] divides by the denominator is the numerator of the
/// basis polynomial.
pub proof fn lemma_fi_multiplies_numerator<M: Fn(u64, usize, usize) -> u64>(
    factor: &M,
    value: spec_fn(u64) -> int,
    one: u64,
    i: nat,
    n: nat,
    p: int,
    q: int,
    product: u64,
)
    requires
        i <= n < usize::MAX,
        value(one) == 1,
        multiplies_exactly(factor, value, i, p, q),
        multiplied_through(factor, one, i, n, product),
    ensures
        value(product) == basis_numerator(i, n, p, q),
{
    lemma_multiplied_through(factor, value, one, i, n, p, q, product);
}

/// Does `divide` divide by the denominator exactly: does the result, by
/// `value`, times the denominator give back the product, by `numerator`?
pub open spec fn divides_exactly<D: Fn(u64, u64) -> u64>(
    divide: &D,
    numerator: spec_fn(u64) -> int,
    value: spec_fn(u64) -> int,
) -> bool {
    forall|product: u64, denominator: u64, r: u64| #[trigger]
        divide.ensures((product, denominator), r) ==> value(r) * denominator == numerator(
            product,
        )
}

/// In exact arithmetic [`crate::basis::fi`] gives one for a sample on the
/// node of the basis polynomial, and zero for a sample on any other node of
/// the stencil.
pub proof fn lemma_fi_at_node<M: Fn(u64, usize, usize) -> u64, D: Fn(u64, u64) -> u64>(
    factor: &M,
    divide: &D,
    numerator: spec_fn(u64) -> int,
    value: spec_fn(u64) -> int,
    one: u64,
    i: nat,
    n: nat,
    j: nat,
    result: u64,
)
    requires
        i <= n < usize::MAX,
        j <= n,
        basis_denominator_of(i, n) <= u64::MAX,
        numerator(one) == 1,
        multiplies_exactly(factor, numerator, i, j as int, 1),
        divides_exactly(divide, numerator, value),
        evaluates(i, n, one, factor, divide, result),
    ensures
        value(result) == (if i == j {
            1int
        } else {
            0int
        }),
{
    let product = choose|product: u64|
        multiplied_through(factor, one, i, n, product) && #[trigger] divide.ensures(
            (product, basis_denominator_of(i, n) as u64),
            result,
        );
    lemma_fi_multiplies_numerator(factor, numerator, one, i, n, j as int, 1, product);
    lemma_basis_at_node(i, n, j);
    lemma_factorial_positive(i);
    lemma_factorial_positive((n - i) as nat);
    let d = basis_denominator_of(i, n) as int;
    let v = value(result);
    assert(d >= 1) by (nonlinear_arith)
        requires
            d == factorial(i) * factorial((n - i) as nat),
            factorial(i) >= 1,
            factorial((n - i) as nat) >= 1,
    ;
    assert(v * d == numerator(product));
    if i == j {
        assert(v == 1) by (nonlinear_arith)
            requires
                v * d == d,
                d >= 1,
        ;
    } else {
        assert(v == 0) by (nonlinear_arith)
            requires
                v * d == 0,
                d >= 1,
        ;
    }
}

/// The sum over the nodes `i` up to `m` of `binomial(n, i)` times the
/// falling product of `i` factors from `a` times the falling product of
/// `n - i` factors from `b`.
pub open spec fn vandermonde_sum(n: nat, m: nat, a: int, b: int, q: int) -> int
    recommends
        m <= n,
    decreases m,
{
    let term = binomial(n, m) * (falling(a, q, m) * falling(b, q, (n - m) as nat));
    if m == 0 {
        term
    } else {
        vandermonde_sum(n, (m - 1) as nat, a, b, q) + term
    }
}

/// The sum over the nodes `i` up to `m` of the numerators of the basis
/// polynomials at the offset `p / q`, each on the common denominator: times
/// `binomial(n, i)`, which is the factorial of `n` over the denominator of
/// the polynomial.
pub open spec fn basis_sum(n: nat, m: nat, p: int, q: int) -> int
    recommends
        m <= n,
    decreases m,
{
    let term = binomial(n, m) * basis_numerator(m, n, p, q);
    if m == 0 {
        term
    } else {
        basis_sum(n, (m - 1) as nat, p, q) + term
    }
}

/// There is no way to choose more than there is.
proof fn lemma_binomial_beyond(n: nat, k: nat)
    requires
        k > n,
    ensures
        binomial(n, k) == 0,
    decreases n,
{
    if n > 0 {
        lemma_binomial_beyond((n - 1) as nat, (k - 1) as nat);
        lemma_binomial_beyond((n - 1) as nat, k);
    }
}

/// There is one way to choose everything.
proof fn lemma_binomial_all(n: nat)
    ensures
        binomial(n, n) == 1,
    decreases n,
{
    if n > 0 {
        lemma_binomial_all((n - 1) as nat);
        lemma_binomial_beyond((n - 1) as nat, n);
    }
}

/// A binomial coefficient is the factorial of `n` over the denominator of
/// the basis polynomial of the node `k` on a stencil of the order `n`.
pub proof fn lemma_binomial_is_quotient(n: nat, k: nat)
    requires
        k <= n,
    ensures
        binomial(n, k) * basis_denominator_of(k, n) == factorial(n),
    decreases n,
{
    if k == 0 {
        assert(1 * (1 * factorial(n)) == factorial(n)) by (nonlinear_arith);
    } else if k == n {
        lemma_binomial_all(n);
        assert(factorial(0) == 1);
        assert(1 * (factorial(n) * 1) == factorial(n)) by (nonlinear_arith);
    } else {
        let m = (n - 1) as nat;
        let j = (k - 1) as nat;
        lemma_binomial_is_quotient(m, j);
        lemma_binomial_is_quotient(m, k);
        let c1 = binomial(m, j) as int;
        let c2 = binomial(m, k) as int;
        let fj = factorial(j) as int;
        let fr = factorial((m - k) as nat) as int;
        assert(factorial(k) == k * fj);
        assert(factorial((n - k) as nat) == (n - k) * fr);
        assert(factorial(n) == n * factorial(m));
        assert(c1 * (fj * ((n - k) * fr)) == factorial(m));
        assert(c2 * ((k * fj) * fr) == factorial(m));
        assert((c1 + c2) * ((k * fj) * ((n - k) * fr)) == n * factorial(m)) by (nonlinear_arith)
            requires
                c1 * (fj * ((n - k) * fr)) == factorial(m),
                c2 * ((k * fj) * fr) == factorial(m),
        ;
    }
}

/// One step of the order: the sum for the order `n + 1` up to the node `m`
/// is the sum for the order `n` times `a + b - n q`, less a rest.
proof fn lemma_vandermonde_step(n: nat, m: nat, a: int, b: int, q: int)
    requires
        m <= n,
    ensures
        vandermonde_sum(n + 1, m, a, b, q) == (a + b - n * q) * vandermonde_sum(n, m, a, b, q)
            - binomial(n, m) * (falling(a, q, m + 1) * falling(b, q, (n - m) as nat)),
    decreases m,
{
    let fa = falling(a, q, m);
    let fb = falling(b, q, (n - m) as nat);
    let c = binomial(n, m) as int;
    assert(falling(a, q, m + 1) == fa * (a - m * q));
    assert(falling(b, q, (n + 1 - m) as nat) == fb * (b - (n - m) * q));
    if m == 0 {
        assert(c == 1);
        assert(binomial(n + 1, 0) == 1);
        assert(fa == 1);
        assert(1 * (1 * (fb * (b - (n - 0) * q))) == (a + b - n * q) * (1 * (1 * fb)) - 1 * ((1 * (
        a - 0 * q)) * fb)) by (nonlinear_arith);
    } else {
        let k = (m - 1) as nat;
        lemma_vandermonde_step(n, k, a, b, q);
        let s = vandermonde_sum(n, k, a, b, q);
        let d = binomial(n, k) as int;
        let fb1 = falling(b, q, (n - k) as nat);
        assert(falling(a, q, k + 1) == fa);
        assert(fb1 == fb * (b - (n - m) * q));
        assert(binomial(n + 1, m) == d + c);
        assert(vandermonde_sum(n + 1, m, a, b, q) == vandermonde_sum(n + 1, k, a, b, q) + (d + c)
            * (fa * (fb * (b - (n - m) * q))));
        assert(vandermonde_sum(n + 1, k, a, b, q) == (a + b - n * q) * s - d * (fa * fb1));
        assert(vandermonde_sum(n, m, a, b, q) == s + c * (fa * fb));
        let t = fa * fb;
        let x = b - (n - m) * q;
        let y = a - m * q;
        let w = a + b - n * q;
        assert(x + y == w) by (nonlinear_arith)
            requires
                x == b - (n - m) * q,
                y == a - m * q,
                w == a + b - n * q,
        ;
        assert(fa * (fb * x) == t * x) by (nonlinear_arith)
            requires
                t == fa * fb,
        ;
        assert((fa * y) * fb == t * y) by (nonlinear_arith)
            requires
                t == fa * fb,
        ;
        assert(w * s - d * (t * x) + (d + c) * (t * x) == w * (s + c * t) - c * (t * y))
            by (nonlinear_arith)
            requires
                x + y == w,
        ;
    }
}

/// The sum over all nodes of a stencil is one falling product: the falling
/// product of `n` factors from `a + b`.
pub proof fn lemma_vandermonde(n: nat, a: int, b: int, q: int)
    ensures
        vandermonde_sum(n, n, a, b, q) == falling(a + b, q, n),
    decreases n,
{
    if n == 0 {
        assert(binomial(0, 0) * (falling(a, q, 0) * falling(b, q, 0)) == 1) by (nonlinear_arith)
            requires
                binomial(0, 0) == 1,
                falling(a, q, 0) == 1,
                falling(b, q, 0) == 1,
        ;
    } else {
        let m = (n - 1) as nat;
        lemma_vandermonde(m, a, b, q);
        lemma_vandermonde_step(m, m, a, b, q);
        lemma_binomial_all(m);
        lemma_binomial_all(n);
        let fa = falling(a, q, n);
        assert(falling(b, q, 0) == 1);
        assert(vandermonde_sum(n, n, a, b, q) == vandermonde_sum(n, m, a, b, q) + 1 * (fa * 1));
        assert(vandermonde_sum(n, m, a, b, q) == (a + b - m * q) * falling(a + b, q, m) - 1 * (fa
            * 1));
        assert(falling(a + b, q, n) == falling(a + b, q, m) * (a + b - m * q));
        assert((a + b - m * q) * falling(a + b, q, m) - 1 * (fa * 1) + 1 * (fa * 1) == falling(
            a + b,
            q,
            m,
        ) * (a + b - m * q)) by (nonlinear_arith);
    }
}

/// The falling product of `m` factors from `n q`, times the factorial of
/// `n - m`, is `q` to the power `m` times the factorial of `n`.
proof fn lemma_falling_of_multiple(n: nat, m: nat, q: int)
    requires
        m <= n,
    ensures
        falling(n * q, q, m) * factorial((n - m) as nat) == power(q, m) * factorial(n),
    decreases m,
{
    if m == 0 {
        assert(1 * factorial(n) == 1 * factorial(n));
    } else {
        let k = (m - 1) as nat;
        lemma_falling_of_multiple(n, k, q);
        let f = falling(n * q, q, k);
        let r = factorial((n - m) as nat) as int;
        assert(falling(n * q, q, m) == f * (n * q - k * q));
        assert(factorial((n - k) as nat) == (n - k) * r);
        assert(power(q, m) == power(q, k) * q);
        assert(f * ((n - k) * r) == power(q, k) * factorial(n));
        assert((f * (n * q - k * q)) * r == (power(q, k) * q) * factorial(n)) by (nonlinear_arith)
            requires
                f * ((n - k) * r) == power(q, k) * factorial(n),
        ;
    }
}

/// The sum of the numerators is a sum of falling products.
proof fn lemma_basis_sum_is_vandermonde_sum(n: nat, m: nat, p: int, q: int)
    requires
        m <= n,
    ensures
        basis_sum(n, m, p, q) == vandermonde_sum(n, m, p, n * q - p, q),
    decreases m,
{
    if m > 0 {
        lemma_basis_sum_is_vandermonde_sum(n, (m - 1) as nat, p, q);
    }
}

/// The basis polynomials of a stencil sum to one at every offset `p / q`,
/// inside of the stencil and outside of it: on the common denominator, the
/// factorial of `n` times `q` to the power `n`, their numerators sum to that
/// denominator.
pub proof fn lemma_partition_of_unity(n: nat, p: int, q: int)
    ensures
        basis_sum(n, n, p, q) == factorial(n) * power(q, n),
{
    lemma_basis_sum_is_vandermonde_sum(n, n, p, q);
    lemma_vandermonde(n, p, n * q - p, q);
    lemma_falling_of_multiple(n, n, q);
    assert(factorial(0) == 1);
    assert(p + (n * q - p) == n * q);
    assert(falling(n * q, q, n) * 1 == factorial(n) * power(q, n)) by (nonlinear_arith)
        requires
            falling(n * q, q, n) * 1 == power(q, n) * factorial(n),
    ;
}

} // verus!
