use vstd::prelude::*;

verus! {

/// The bounce budget of the reflection spawned when shading a hit with budget
/// `remaining`: `None` where no reflected ray is cast (the reflected color is then
/// black), else the budget that the reflected ray is traced with.
pub open spec fn spec_reflection_budget(remaining: int, reflective: bool) -> Option<int> {
    if remaining <= 1 || !reflective {
        None
    } else {
        Some(remaining - 1)
    }
}

/// Decides whether shading a hit with bounce budget `remaining` casts a reflected ray,
/// and with which budget. A surface that is not `reflective`, or a budget that the
/// reflection would use up, casts none. Every reflected ray has a smaller budget than
/// the ray that spawned it, so reflection between mirrors always ends.
pub fn reflection_budget(remaining: u8, reflective: bool) -> (next: Option<u8>)
    ensures
        next matches Some(n) ==> n < remaining,
        next == (match spec_reflection_budget(remaining as int, reflective) {
            Some(n) => Some(n as u8),
            None => None,
        }),
{
    if remaining <= 1 || !reflective {
        None
    } else {
        Some(remaining - 1)
    }
}

} // verus!
