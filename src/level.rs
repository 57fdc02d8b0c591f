//! Random choice of the index level of a new entry.

use vstd::prelude::*;

verus! {

/// Relies on rand::random::<bool>: one fair coin flip drawn from the thread-local
/// generator. Nothing is known of its outcome.
#[verifier::external_body]
fn flip_coin() -> (r: bool) {
    rand::random::<bool>()
}

/// Number of leading heads in `flips`, capped at `max_level`.
pub open spec fn heads_level(flips: Seq<bool>, max_level: nat) -> nat
    decreases flips.len(),
{
    if flips.len() == 0 || max_level == 0 || !flips[0] {
        0
    } else {
        1 + heads_level(flips.drop_first(), (max_level - 1) as nat)
    }
}

/// The level given by a sequence of coin flips: heads are counted until the
/// first tails or until `max_level` is reached.
pub fn level_from_flips(flips: &Vec<bool>, max_level: usize) -> (r: usize)
    ensures
        r == heads_level(flips@, max_level as nat),
        r <= max_level,
{
    let mut n: usize = 0;
    assert(flips@.skip(0) =~= flips@);
    while n < max_level && n < flips.len() && flips[n]
        invariant
            n <= max_level,
            n <= flips.len(),
            forall|k: int| 0 <= k < n ==> flips@[k],
            heads_level(flips@, max_level as nat) == n + heads_level(
                flips@.skip(n as int),
                (max_level - n) as nat,
            ),
        decreases max_level - n,
    {
        let ghost rest = flips@.skip(n as int);
        assert(rest.drop_first() =~= flips@.skip(n + 1));
        n = n + 1;
    }
    n
}

/// Draws a level in `0..=max_level`: fair coins are flipped until one comes up
/// tails or `max_level` heads have been seen, and the level is read from them.
pub fn choose_level(max_level: usize) -> (r: usize)
    ensures
        r <= max_level,
        exists|flips: Seq<bool>| r == heads_level(flips, max_level as nat),
{
    let mut flips: Vec<bool> = Vec::new();
    let mut heads: bool = true;
    while heads && flips.len() < max_level
        invariant
            flips.len() <= max_level,
        decreases max_level - flips.len(),
    {
        heads = flip_coin();
        flips.push(heads);
    }
    level_from_flips(&flips, max_level)
}

} // verus!
