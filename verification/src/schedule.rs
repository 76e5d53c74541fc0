//! The round schedule: four deadlines computed from the one configured block
//! by which the key must be ready.

use vstd::prelude::*;

verus! {

/// The number of the last round.
pub const LAST_ROUND: usize = 3;

/// What is left of `remaining` blocks once the last of the rounds in them
/// is cut off: that round takes a quarter of the blocks, rounded up, but
/// never the last block that remains.
pub open spec fn spec_cut(remaining: nat) -> nat {
    if remaining <= 1 {
        remaining
    } else {
        (remaining - (remaining + 3) / 4) as nat
    }
}

/// The deadline of `round` when the last round ends at block `dkg_ready`.
///
/// The last round ends at `dkg_ready` itself. Going down from there, each
/// earlier deadline cuts the round after it off what remains, so that each
/// of the rounds 1 to 3 is about three quarters as long as the one after
/// it, and round 0 has the rest. A round number above the last one is read
/// as the last one.
pub open spec fn spec_round_end(dkg_ready: nat, round: nat) -> nat
    decreases 3 - round,
{
    if round >= 3 {
        dkg_ready
    } else {
        spec_cut(spec_round_end(dkg_ready, round + 1))
    }
}

/// Whether block `now` lies in the window of `round`: after the deadline of
/// the round before it (after block 0 for round 0) and not after its own.
pub open spec fn spec_in_round(dkg_ready: nat, round: nat, now: nat) -> bool {
    &&& now <= spec_round_end(dkg_ready, round)
    &&& round > 0 ==> now > spec_round_end(dkg_ready, (round - 1) as nat)
}

/// Computes the deadline of round `round_number`.
pub fn round_end(dkg_ready: u64, round_number: usize) -> (deadline: u64)
    ensures
        deadline == spec_round_end(dkg_ready as nat, round_number as nat),
{
    let mut rounds_left: u64 = dkg_ready;
    let mut r: usize = LAST_ROUND;
    while round_number < r
        invariant
            r <= 3,
            round_number >= 3 ==> r == 3,
            round_number < 3 ==> r >= round_number,
            rounds_left == spec_round_end(dkg_ready as nat, r as nat),
        decreases r,
    {
        if rounds_left > 1 {
            let quarter: u64 = if rounds_left % 4 == 0 {
                rounds_left / 4
            } else {
                rounds_left / 4 + 1
            };
            rounds_left = rounds_left - quarter;
        }
        r = r - 1;
    }
    rounds_left
}

/// Tells whether block `now` lies in the window of round `round_number`.
pub fn in_round(dkg_ready: u64, round_number: usize, now: u64) -> (inside: bool)
    ensures
        inside == spec_in_round(dkg_ready as nat, round_number as nat, now as nat),
{
    if now > round_end(dkg_ready, round_number) {
        return false;
    }
    if round_number == 0 {
        return true;
    }
    now > round_end(dkg_ready, round_number - 1)
}

/// The four deadlines written out: each is the next one cut.
pub proof fn lemma_deadlines_unfold(dkg_ready: nat)
    ensures
        spec_round_end(dkg_ready, 3) == dkg_ready,
        spec_round_end(dkg_ready, 2) == spec_cut(dkg_ready),
        spec_round_end(dkg_ready, 1) == spec_cut(spec_round_end(dkg_ready, 2)),
        spec_round_end(dkg_ready, 0) == spec_cut(spec_round_end(dkg_ready, 1)),
{
    let r3 = spec_round_end(dkg_ready, 3);
    let r2 = spec_round_end(dkg_ready, 2);
    let r1 = spec_round_end(dkg_ready, 1);
    let r0 = spec_round_end(dkg_ready, 0);
    assert(r3 == dkg_ready);
    assert(r2 == spec_cut(r3));
    assert(r1 == spec_cut(r2));
    assert(r0 == spec_cut(r1));
}

/// From two blocks on, a cut leaves three quarters of the blocks, rounded
/// down; of one block or none it leaves what there is.
pub proof fn lemma_cut_is_three_quarters(remaining: nat)
    ensures
        remaining >= 2 ==> spec_cut(remaining) == 3 * remaining / 4,
        remaining >= 1 ==> spec_cut(remaining) >= 1,
        spec_cut(remaining) <= remaining,
        remaining >= 2 ==> spec_cut(remaining) < remaining,
{
}

/// No deadline lies after the next one, and the last one is `dkg_ready`.
pub proof fn lemma_deadlines_ordered(dkg_ready: nat)
    ensures
        spec_round_end(dkg_ready, 0) <= spec_round_end(dkg_ready, 1),
        spec_round_end(dkg_ready, 1) <= spec_round_end(dkg_ready, 2),
        spec_round_end(dkg_ready, 2) <= spec_round_end(dkg_ready, 3),
        spec_round_end(dkg_ready, 3) == dkg_ready,
{
    lemma_deadlines_unfold(dkg_ready);
}

/// With at least one block to run in, the first deadline lies after block
/// 0: no round takes the last block that remains, so that round 0 has a
/// block.
pub proof fn lemma_first_deadline_after_start(dkg_ready: nat)
    requires
        dkg_ready >= 1,
    ensures
        spec_round_end(dkg_ready, 0) >= 1,
{
    lemma_deadlines_unfold(dkg_ready);
}

/// With at least four blocks to run in, the four deadlines are strictly
/// increasing and the first of them lies after block 0: every round has a
/// block of its own.
pub proof fn lemma_deadlines_increase(dkg_ready: nat)
    requires
        dkg_ready >= 4,
    ensures
        0 < spec_round_end(dkg_ready, 0),
        spec_round_end(dkg_ready, 0) < spec_round_end(dkg_ready, 1),
        spec_round_end(dkg_ready, 1) < spec_round_end(dkg_ready, 2),
        spec_round_end(dkg_ready, 2) < spec_round_end(dkg_ready, 3),
        spec_round_end(dkg_ready, 3) == dkg_ready,
{
    lemma_deadlines_unfold(dkg_ready);
}

/// With fewer than four blocks to run in, rounds 0 and 1 end together:
/// there are not blocks enough for every round to have one of its own.
pub proof fn lemma_deadlines_collide(dkg_ready: nat)
    requires
        dkg_ready < 4,
    ensures
        spec_round_end(dkg_ready, 0) == spec_round_end(dkg_ready, 1),
{
    lemma_deadlines_unfold(dkg_ready);
}

/// Every block from 1 to `dkg_ready` lies in the window of exactly one round.
pub proof fn lemma_rounds_partition(dkg_ready: nat, now: nat)
    requires
        0 < now <= dkg_ready,
    ensures
        exists|round: nat| round <= 3 && #[trigger] spec_in_round(dkg_ready, round, now),
        forall|a: nat, b: nat|
            a <= 3 && b <= 3 && #[trigger] spec_in_round(dkg_ready, a, now)
                && #[trigger] spec_in_round(dkg_ready, b, now) ==> a == b,
{
    lemma_deadlines_unfold(dkg_ready);
    lemma_deadlines_ordered(dkg_ready);
    if now <= spec_round_end(dkg_ready, 0) {
        assert(spec_in_round(dkg_ready, 0, now));
    } else if now <= spec_round_end(dkg_ready, 1) {
        assert(spec_in_round(dkg_ready, 1, now));
    } else if now <= spec_round_end(dkg_ready, 2) {
        assert(spec_in_round(dkg_ready, 2, now));
    } else {
        assert(spec_in_round(dkg_ready, 3, now));
    }
}

} // verus!
