//! What the preloaded helper does inside the target when it exits: copy the
//! guard values into the shared coverage map and publish the correctness step.
use vstd::prelude::*;

verus! {

/// A guard value as the coverage map holds it: its low byte (`as u8`).
pub open spec fn guard_byte(g: i32) -> u8 {
    (g as int % 256) as u8
}

/// The coverage map after the copy: the guards' low bytes when the map has
/// one byte per guard, and the map unchanged otherwise.
pub open spec fn filled_map(map: Seq<u8>, guards: Seq<i32>) -> Seq<u8> {
    if map.len() == guards.len() {
        guards.map_values(|g: i32| guard_byte(g))
    } else {
        map
    }
}

/// The step that the shared cell holds after the run: the target's own step
/// counter when it is not zero, and what the cell held before otherwise.
pub open spec fn published_step(current: usize, observed: usize) -> usize {
    if observed != 0 {
        observed
    } else {
        current
    }
}

/// Whether the coverage map has exactly one byte per guard (only then are
/// the guard values fetched and copied).
pub fn map_fits_guards(map_len: usize, guard_count: usize) -> (r: bool)
    ensures
        r == (map_len == guard_count),
{
    map_len == guard_count
}

/// Copies the low byte of each guard value into the coverage map, when the
/// map has exactly one byte per guard. Returns whether the sizes matched
/// (a mismatch is logged by the caller and leaves the map as it was).
pub fn fill_coverage_map(map: &mut [u8], guards: &[i32]) -> (matched: bool)
    ensures
        matched == (old(map)@.len() == guards@.len()),
        final(map)@ == filled_map(old(map)@, guards@),
{
    let n = map.len();
    if n != guards.len() {
        return false;
    }
    let mut i: usize = 0;
    while i < n
        invariant
            i <= n,
            n == map@.len(),
            n == guards@.len(),
            forall|k: int| 0 <= k < i ==> map@[k] == guard_byte(guards@[k]),
        decreases n - i,
    {
        let g = guards[i];
        let b = g as u8;
        assert(b == guard_byte(g)) by (bit_vector)
            requires
                b == g as u8,
        ;
        map[i] = b;
        i = i + 1;
    }
    assert(map@ =~= guards@.map_values(|g: i32| guard_byte(g)));
    true
}

/// A step that the target reached is always published, whatever the cell
/// held before (in particular after it was zeroed for the run); the cell
/// keeps its old value only when the target reports no step.
pub proof fn lemma_reached_step_is_published(current: usize, observed: usize)
    ensures
        observed != 0 ==> published_step(current, observed) == observed,
        observed == 0 ==> published_step(current, observed) == current,
        published_step(0, observed) == observed,
{
}

/// The step to leave in the shared cell after the run.
pub fn step_to_publish(current: usize, observed: usize) -> (r: usize)
    ensures
        r == published_step(current, observed),
        observed != 0 ==> r == observed,
        observed == 0 ==> r == current,
{
    if observed != 0 {
        observed
    } else {
        current
    }
}

} // verus!
