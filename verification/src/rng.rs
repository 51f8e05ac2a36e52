//! Randomness at the edges of the coordinator.
//!
//! Two uses: the periodic re-STUN interval is drawn from a small
//! range, and the relay fallback is chosen by a generator seeded with
//! a constant, so that repeated calls on the same relay map pick the
//! same region.

use rand::seq::SliceRandom;
use rand::Rng;
use rand::SeedableRng;
use vstd::prelude::*;

verus! {

/// The region the constant-seeded fallback chooses from `ids`: `None`
/// exactly when `ids` is empty, otherwise one of its entries, the same
/// one on every call with the same list.
pub uninterp spec fn fallback_pick(ids: Seq<u16>) -> Option<u16>;

/// Relies on rand's StdRng::seed_from_u64 and SliceRandom::choose.
/// The generator is seeded with a constant and StdRng is deterministic
/// for a given seed in the version built against, so the choice is a
/// function of the list alone; choose returns None exactly on an empty
/// slice and otherwise an element of it.
#[verifier::external_body]
pub(crate) fn seeded_region_choice(ids: &Vec<u16>) -> (r: Option<u16>)
    ensures
        r == fallback_pick(ids@),
        r is Some <==> ids@.len() > 0,
        r matches Some(v) ==> ids@.contains(v),
{
    let mut rng = rand::rngs::StdRng::seed_from_u64(0);
    ids.choose(&mut rng).copied()
}

/// Relies on rand::thread_rng and Rng::gen_range: a value drawn from
/// the given range — just under common UDP NAT timeouts — and nothing
/// more is promised of it.
#[verifier::external_body]
pub fn re_stun_interval_secs() -> (r: u64)
    ensures
        20 <= r <= 26,
{
    rand::thread_rng().gen_range(20u64..=26u64)
}

/// The period of the next periodic re-STUN round, in milliseconds:
/// drawn fresh after every refresh, just under common UDP NAT
/// timeouts.
pub fn new_re_stun_timer_ms() -> (r: u64)
    ensures
        20000 <= r <= 26000,
{
    let secs = re_stun_interval_secs();
    secs * 1000
}

} // verus!
