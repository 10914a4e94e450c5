//! Escape time: how many steps an orbit takes before it leaves the set's disc.
//!
//! The numbers of the plane are the caller's: an orbit is any sequence of states
//! that a step function produces, and a test says whether a state has escaped.

use vstd::prelude::*;

verus! {

/// `orbit` starts at `start`, and `step` leads from each of its states to the next.
pub open spec fn is_orbit<Z, S: Fn(Z) -> Z>(orbit: Seq<Z>, start: Z, step: S) -> bool {
    &&& orbit.len() > 0
    &&& orbit[0] == start
    &&& forall|k: int|
        0 <= k < orbit.len() - 1 ==> call_ensures(step, (#[trigger] orbit[k],), orbit[k + 1])
}

/// None of the first `n` states of `orbit` has escaped.
pub open spec fn stays_for<Z, E: Fn(&Z) -> bool>(orbit: Seq<Z>, escaped: E, n: int) -> bool {
    forall|k: int| 0 <= k < n ==> call_ensures(escaped, (&#[trigger] orbit[k],), false)
}

/// `r` is an escape time of the orbit from `start` within `limit` steps:
/// `Some(i)` where the state after `i` steps is the first that has escaped, and
/// `None` where none of the first `limit` states has.
pub open spec fn is_escape_time<Z, E: Fn(&Z) -> bool, S: Fn(Z) -> Z>(
    start: Z,
    limit: usize,
    escaped: E,
    step: S,
    r: Option<usize>,
) -> bool {
    match r {
        Some(i) => {
            &&& i < limit
            &&& exists|orbit: Seq<Z>|
                {
                    &&& #[trigger] is_orbit(orbit, start, step)
                    &&& orbit.len() == i + 1
                    &&& stays_for(orbit, escaped, i as int)
                    &&& call_ensures(escaped, (&orbit[i as int],), true)
                }
        },
        None => exists|orbit: Seq<Z>|
            {
                &&& #[trigger] is_orbit(orbit, start, step)
                &&& orbit.len() == limit + 1
                &&& stays_for(orbit, escaped, limit as int)
            },
    }
}

/// Follows the orbit from `start` for at most `limit` steps and returns the
/// number of steps after which it has escaped, or `None` where it has not
/// escaped by then. A state counts as escaped where `escaped` says so, before
/// the step from it is taken.
pub fn escape_time<Z, E: Fn(&Z) -> bool, S: Fn(Z) -> Z>(
    start: Z,
    limit: usize,
    escaped: E,
    step: S,
) -> (r: Option<usize>)
    requires
        forall|z: Z| call_requires(escaped, (&z,)),
        forall|z: Z| call_requires(step, (z,)),
    ensures
        is_escape_time(start, limit, escaped, step, r),
        r matches Some(i) ==> i < limit,
{
    let mut z = start;
    let ghost mut orbit: Seq<Z> = seq![start];
    let mut i: usize = 0;
    while i < limit
        invariant
            i <= limit,
            forall|z: Z| call_requires(escaped, (&z,)),
            forall|z: Z| call_requires(step, (z,)),
            is_orbit(orbit, start, step),
            orbit.len() == i + 1,
            orbit[i as int] == z,
            stays_for(orbit, escaped, i as int),
        decreases limit - i,
    {
        if escaped(&z) {
            return Some(i);
        }
        let ghost before = orbit;
        z = step(z);
        proof {
            orbit = before.push(z);
            assert forall|k: int| 0 <= k < orbit.len() - 1 implies call_ensures(
                step,
                (#[trigger] orbit[k],),
                orbit[k + 1],
            ) by {
                if k < before.len() - 1 {
                    assert(orbit[k] == before[k]);
                    assert(orbit[k + 1] == before[k + 1]);
                }
            }
            assert forall|k: int| 0 <= k < i + 1 implies call_ensures(
                escaped,
                (&#[trigger] orbit[k],),
                false,
            ) by {
                assert(orbit[k] == before[k]);
            }
        }
        i = i + 1;
    }
    None
}

/// `step` gives one state for each state, and `escaped` one answer.
pub open spec fn is_determined<Z, E: Fn(&Z) -> bool, S: Fn(Z) -> Z>(escaped: E, step: S) -> bool {
    &&& forall|z: Z, a: Z, b: Z|
        #[trigger] call_ensures(step, (z,), a) && #[trigger] call_ensures(step, (z,), b) ==> a == b
    &&& forall|z: Z|
        !(#[trigger] call_ensures(escaped, (&z,), true) && #[trigger] call_ensures(
            escaped,
            (&z,),
            false,
        ))
}

/// Two orbits from one start, under a step that gives one state for each
/// state, hold the same state at every position that both have.
pub proof fn lemma_orbits_agree<Z, S: Fn(Z) -> Z>(
    first: Seq<Z>,
    second: Seq<Z>,
    start: Z,
    step: S,
    k: int,
)
    requires
        is_orbit(first, start, step),
        is_orbit(second, start, step),
        0 <= k < first.len(),
        k < second.len(),
        forall|z: Z, a: Z, b: Z|
            #[trigger] call_ensures(step, (z,), a) && #[trigger] call_ensures(step, (z,), b) ==> a
                == b,
    ensures
        first[k] == second[k],
    decreases k,
{
    if k > 0 {
        lemma_orbits_agree(first, second, start, step, k - 1);
        assert(call_ensures(step, (first[k - 1],), first[k - 1 + 1]));
        assert(call_ensures(step, (second[k - 1],), second[k - 1 + 1]));
    }
}

/// Where the step and the test are determined, an orbit has one escape time:
/// following it twice gives the same result.
pub proof fn lemma_escape_time_unique<Z, E: Fn(&Z) -> bool, S: Fn(Z) -> Z>(
    start: Z,
    limit: usize,
    escaped: E,
    step: S,
    first: Option<usize>,
    second: Option<usize>,
)
    requires
        is_determined(escaped, step),
        is_escape_time(start, limit, escaped, step, first),
        is_escape_time(start, limit, escaped, step, second),
    ensures
        first == second,
{
    let a = witness_orbit(start, limit, escaped, step, first);
    let b = witness_orbit(start, limit, escaped, step, second);
    let n: int = match first {
        Some(i) => i as int,
        None => limit as int,
    };
    let m: int = match second {
        Some(j) => j as int,
        None => limit as int,
    };
    if n < m {
        lemma_orbits_agree(a, b, start, step, n);
        assert(call_ensures(escaped, (&b[n],), false));
    } else if m < n {
        lemma_orbits_agree(a, b, start, step, m);
        assert(call_ensures(escaped, (&a[m],), false));
    }
}

/// A start that the step leaves where it is, and that has not escaped, never
/// escapes, whatever the limit.
pub proof fn lemma_fixed_point_never_escapes<Z, E: Fn(&Z) -> bool, S: Fn(Z) -> Z>(
    start: Z,
    limit: usize,
    escaped: E,
    step: S,
    r: Option<usize>,
)
    requires
        is_escape_time(start, limit, escaped, step, r),
        forall|z: Z| call_ensures(step, (start,), z) ==> z == start,
        !call_ensures(escaped, (&start,), true),
    ensures
        r is None,
{
    if let Some(i) = r {
        let orbit = witness_orbit(start, limit, escaped, step, r);
        lemma_orbit_rests(orbit, start, step, i as int);
    }
}

/// An orbit from a start that the step leaves where it is holds that start at
/// every position.
proof fn lemma_orbit_rests<Z, S: Fn(Z) -> Z>(orbit: Seq<Z>, start: Z, step: S, k: int)
    requires
        is_orbit(orbit, start, step),
        0 <= k < orbit.len(),
        forall|z: Z| call_ensures(step, (start,), z) ==> z == start,
    ensures
        orbit[k] == start,
    decreases k,
{
    if k > 0 {
        lemma_orbit_rests(orbit, start, step, k - 1);
        assert(call_ensures(step, (orbit[k - 1],), orbit[k - 1 + 1]));
    }
}

/// An orbit that shows `r` to be an escape time.
spec fn witness_orbit<Z, E: Fn(&Z) -> bool, S: Fn(Z) -> Z>(
    start: Z,
    limit: usize,
    escaped: E,
    step: S,
    r: Option<usize>,
) -> Seq<Z> {
    match r {
        Some(i) => choose|orbit: Seq<Z>|
            {
                &&& #[trigger] is_orbit(orbit, start, step)
                &&& orbit.len() == i + 1
                &&& stays_for(orbit, escaped, i as int)
                &&& call_ensures(escaped, (&orbit[i as int],), true)
            },
        None => choose|orbit: Seq<Z>|
            {
                &&& #[trigger] is_orbit(orbit, start, step)
                &&& orbit.len() == limit + 1
                &&& stays_for(orbit, escaped, limit as int)
            },
    }
}

} // verus!
