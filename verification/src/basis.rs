//! The integer part of the Lagrange interpolation basis.
//!
//! On the nodes `0, 1, .., n` of a stencil, the basis polynomial of the node
//! `i` is, at the offset `u`,
//! `(u - 0) .. (u - (i - 1)) * ((i + 1) - u) .. (n - u) / (i! * (n - i)!)`.
use vstd::prelude::*;

verus! {

/// The product `1 * 2 * .. * n`.
pub open spec fn factorial(n: nat) -> nat
    decreases n,
{
    if n == 0 {
        1
    } else {
        n * factorial((n - 1) as nat)
    }
}

/// The denominator of the basis polynomial of the node `i` on a stencil of
/// the order `n`.
pub open spec fn basis_denominator_of(i: nat, n: nat) -> nat
    recommends
        i <= n,
{
    factorial(i) * factorial((n - i) as nat)
}

/// A factorial is at least one.
pub proof fn lemma_factorial_positive(n: nat)
    ensures
        factorial(n) >= 1,
    decreases n,
{
    if n > 0 {
        lemma_factorial_positive((n - 1) as nat);
        assert(n * factorial((n - 1) as nat) >= 1) by (nonlinear_arith)
            requires
                n >= 1,
                factorial((n - 1) as nat) >= 1,
        ;
    }
}

/// Factorials grow with their argument.
proof fn lemma_factorial_monotonic(m: nat, n: nat)
    requires
        m <= n,
    ensures
        factorial(m) <= factorial(n),
    decreases n,
{
    if m < n {
        lemma_factorial_monotonic(m, (n - 1) as nat);
        lemma_factorial_positive((n - 1) as nat);
        assert(n * factorial((n - 1) as nat) >= factorial((n - 1) as nat)) by (nonlinear_arith)
            requires
                n >= 1,
                factorial((n - 1) as nat) >= 1,
        ;
    }
}

/// The factorial of `n`, or `None` where it does not fit in 64 bits.
fn checked_factorial(n: usize) -> (r: Option<u64>)
    ensures
        r is Some <==> factorial(n as nat) <= u64::MAX,
        r matches Some(f) ==> f == factorial(n as nat),
{
    let mut product: u64 = 1;
    let mut z: usize = 0;
    while z < n
        invariant
            z <= n,
            product == factorial(z as nat),
        decreases n - z,
    {
        z += 1;
        match product.checked_mul(z as u64) {
            Some(next) => {
                proof {
                    assert(product * (z as u64) == z * factorial((z - 1) as nat))
                        by (nonlinear_arith)
                        requires
                            product == factorial((z - 1) as nat),
                    ;
                }
                product = next;
            },
            None => {
                proof {
                    assert(product * (z as u64) == z * factorial((z - 1) as nat))
                        by (nonlinear_arith)
                        requires
                            product == factorial((z - 1) as nat),
                    ;
                    lemma_factorial_monotonic(z as nat, n as nat);
                }
                return None;
            },
        }
    }
    Some(product)
}

/// The denominator `i! * (n - i)!` of the basis polynomial of the node `i`
/// on a stencil of the order `n`, or `None` where `i` is no node of the
/// stencil or the denominator does not fit in 64 bits.
pub fn basis_denominator(i: usize, n: usize) -> (r: Option<u64>)
    ensures
        r is Some <==> i <= n && basis_denominator_of(i as nat, n as nat) <= u64::MAX,
        r matches Some(d) ==> d == basis_denominator_of(i as nat, n as nat),
{
    if i > n {
        return None;
    }
    proof {
        lemma_factorial_positive(i as nat);
        lemma_factorial_positive((n - i) as nat);
    }
    let below: u64 = match checked_factorial(i) {
        Some(f) => f,
        None => {
            proof {
                assert(factorial(i as nat) * factorial((n - i) as nat) > u64::MAX)
                    by (nonlinear_arith)
                    requires
                        factorial(i as nat) > u64::MAX,
                        factorial((n - i) as nat) >= 1,
                ;
            }
            return None;
        },
    };
    let above: u64 = match checked_factorial(n - i) {
        Some(f) => f,
        None => {
            proof {
                assert(factorial(i as nat) * factorial((n - i) as nat) > u64::MAX)
                    by (nonlinear_arith)
                    requires
                        factorial((n - i) as nat) > u64::MAX,
                        factorial(i as nat) >= 1,
                ;
            }
            return None;
        },
    };
    below.checked_mul(above)
}

/// Can `product` be the product when the factor of every node of the
/// stencil below the node `z`, but for the node `i`, has been multiplied in?
/// The product starts as `one`, and the nodes are taken in rising order.
pub open spec fn multiplied_before<M: Fn(u64, usize, usize) -> u64>(
    factor: &M,
    one: u64,
    i: nat,
    z: nat,
    product: u64,
) -> bool
    decreases z, 0nat,
{
    if z == 0 {
        product == one
    } else {
        multiplied_through(factor, one, i, (z - 1) as nat, product)
    }
}

/// Can `product` be the product when the factor of every node of the
/// stencil up to the node `z`, and of that node too, but for the node `i`,
/// has been multiplied in?
pub open spec fn multiplied_through<M: Fn(u64, usize, usize) -> u64>(
    factor: &M,
    one: u64,
    i: nat,
    z: nat,
    product: u64,
) -> bool
    decreases z, 1nat,
{
    if z == i {
        multiplied_before(factor, one, i, z, product)
    } else {
        exists|prev: u64|
            multiplied_before(factor, one, i, z, prev) && #[trigger] factor.ensures(
                (prev, z as usize, i as usize),
                product,
            )
    }
}

/// Can `value` be the basis polynomial of the node `i` on a stencil of the
/// order `n`? It is what `divide` gives for the product of the factors of
/// all other nodes of the stencil and the denominator of the polynomial.
pub open spec fn evaluates<M: Fn(u64, usize, usize) -> u64, D: Fn(u64, u64) -> u64>(
    i: nat,
    n: nat,
    one: u64,
    factor: &M,
    divide: &D,
    value: u64,
) -> bool {
    exists|product: u64|
        multiplied_through(factor, one, i, n, product) && #[trigger] divide.ensures(
            (product, basis_denominator_of(i, n) as u64),
            value,
        )
}

/// Evaluates the basis polynomial of the node `i` on a stencil of the order
/// `n`.
///
/// The offset at which it is evaluated is the caller's: `factor` is called
/// with the product so far, a node `z` and `i`, and multiplies the
/// distance of the offset from `z` in, `u - z` for a node below `i` and
/// `z - u` for one above; `divide` is called with the product and the
/// denominator. There is no result where `i` is no node of the stencil or
/// the denominator does not fit in 64 bits.
pub fn fi<M: Fn(u64, usize, usize) -> u64, D: Fn(u64, u64) -> u64>(
    i: usize,
    n: usize,
    one: u64,
    factor: &M,
    divide: &D,
) -> (r: Option<u64>)
    requires
        forall|p: u64, z: usize, i: usize| factor.requires((p, z, i)),
        forall|p: u64, d: u64| divide.requires((p, d)),
    ensures
        r is Some <==> i <= n && basis_denominator_of(i as nat, n as nat) <= u64::MAX,
        r matches Some(value) ==> evaluates(i as nat, n as nat, one, factor, divide, value),
{
    let denominator: u64 = match basis_denominator(i, n) {
        Some(d) => d,
        None => {
            return None;
        },
    };
    let mut product: u64 = one;
    let mut z: usize = 0;
    loop
        invariant_except_break
            z <= n,
            multiplied_before(factor, one, i as nat, z as nat, product),
        invariant
            forall|p: u64, z: usize, i: usize| factor.requires((p, z, i)),
        ensures
            multiplied_through(factor, one, i as nat, n as nat, product),
        decreases n - z,
    {
        let ghost prev = product;
        if z != i {
            product = factor(product, z, i);
            assert(factor.ensures((prev, (z as nat) as usize, (i as nat) as usize), product));
        }
        assert(multiplied_through(factor, one, i as nat, z as nat, product));
        if z == n {
            break ;
        }
        z += 1;
    }
    let value: u64 = divide(product, denominator);
    assert(divide.ensures((product, basis_denominator_of(i as nat, n as nat) as u64), value));
    Some(value)
}

} // verus!
