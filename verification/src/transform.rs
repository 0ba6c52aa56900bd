//! The iteration that inverts the transformation of a momentum fraction.
//!
//! The transformation `y = -ln(x) + 5 (1 - x)` has no inverse in closed
//! form; `x` is found from `y` by Newton's method on `x = exp(-y')`. The
//! arithmetic of one step is the caller's; this module runs the steps and
//! decides when to stop.
use vstd::prelude::*;

verus! {

/// How many steps the iteration is given.
pub const NEWTON_STEPS: usize = 100;

/// What one step of the iteration finds at an iterate: the momentum
/// fraction that belongs to it, whether that fraction solves the equation
/// to within the tolerance, and the next iterate.
#[derive(Clone, Copy, Debug, PartialEq, Eq, Structural)]
pub struct NewtonStep {
    pub x: u64,
    pub converged: bool,
    pub next: u64,
}

/// Can the iteration that starts at `y` stand at the iterate `yp` after `n`
/// steps, none of which has converged?
pub open spec fn iterated<S: Fn(u64) -> NewtonStep>(step: &S, y: u64, n: nat, yp: u64) -> bool
    decreases n,
{
    if n == 0 {
        yp == y
    } else {
        exists|prev: u64, x: u64|
            iterated(step, y, (n - 1) as nat, prev) && #[trigger] step.ensures(
                (prev,),
                NewtonStep { x, converged: false, next: yp },
            )
    }
}

/// Can the step after `n` steps of the iteration that starts at `y`, none of
/// which has converged, converge and report the momentum fraction `x`?
pub open spec fn converges<S: Fn(u64) -> NewtonStep>(step: &S, y: u64, n: nat, x: u64) -> bool {
    exists|yp: u64, next: u64|
        iterated(step, y, n, yp) && #[trigger] step.ensures(
            (yp,),
            NewtonStep { x, converged: true, next },
        )
}

/// Can the iteration that starts at `y` find the momentum fraction `x`
/// within [`NEWTON_STEPS`] steps?
pub open spec fn solves<S: Fn(u64) -> NewtonStep>(step: &S, y: u64, x: u64) -> bool {
    exists|n: nat| n < NEWTON_STEPS && #[trigger] converges(step, y, n, x)
}

/// The momentum fraction `x` that belongs to the transformed variable `y`.
///
/// The iteration starts at `y`. At each iterate `step` is called; the first
/// step that converges gives the result. Where none of
/// [`NEWTON_STEPS`] steps converges there is no result.
pub fn fx<S: Fn(u64) -> NewtonStep>(y: u64, step: &S) -> (r: Option<u64>)
    requires
        forall|yp: u64| step.requires((yp,)),
    ensures
        match r {
            Some(x) => solves(step, y, x),
            None => exists|yp: u64| iterated(step, y, NEWTON_STEPS as nat, yp),
        },
{
    let mut yp: u64 = y;
    let mut n: usize = 0;
    while n < NEWTON_STEPS
        invariant
            n <= NEWTON_STEPS,
            forall|yp: u64| step.requires((yp,)),
            iterated(step, y, n as nat, yp),
        decreases NEWTON_STEPS - n,
    {
        let found: NewtonStep = step(yp);
        if found.converged {
            assert(step.ensures(
                (yp,),
                NewtonStep { x: found.x, converged: true, next: found.next },
            ));
            assert(converges(step, y, n as nat, found.x));
            return Some(found.x);
        }
        assert(step.ensures(
            (yp,),
            NewtonStep { x: found.x, converged: false, next: found.next },
        ));
        yp = found.next;
        n += 1;
    }
    None
}

} // verus!
