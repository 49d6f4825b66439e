//! The first position that satisfies a condition.

use vstd::prelude::*;

verus! {

/// The first number below `n` that satisfies the predicate.
pub open spec fn first_where(holds: spec_fn(int) -> bool, n: nat) -> Option<int>
    decreases n,
{
    if n == 0 {
        None
    } else {
        match first_where(holds, (n - 1) as nat) {
            Some(i) => Some(i),
            None => if holds(n - 1) {
                Some(n - 1)
            } else {
                None
            },
        }
    }
}

/// The first number satisfies the predicate and none before it does; there is none
/// only where no number does.
pub proof fn first_where_law(holds: spec_fn(int) -> bool, n: nat)
    ensures
        match first_where(holds, n) {
            Some(i) => 0 <= i < n && holds(i) && forall|j: int| 0 <= j < i ==> !#[trigger] holds(j),
            None => forall|j: int| 0 <= j < n ==> !#[trigger] holds(j),
        },
    decreases n,
{
    if n > 0 {
        first_where_law(holds, (n - 1) as nat);
    }
}

/// A number that satisfies the predicate, with none before it, is the first.
pub proof fn first_where_is(holds: spec_fn(int) -> bool, n: nat, i: int)
    requires
        0 <= i < n,
        holds(i),
        forall|j: int| 0 <= j < i ==> !#[trigger] holds(j),
    ensures
        first_where(holds, n) == Some(i),
{
    first_where_law(holds, n);
}

/// Where no number satisfies the predicate there is no first.
pub proof fn first_where_none(holds: spec_fn(int) -> bool, n: nat)
    requires
        forall|j: int| 0 <= j < n ==> !#[trigger] holds(j),
    ensures
        first_where(holds, n) is None,
{
    first_where_law(holds, n);
}

} // verus!
