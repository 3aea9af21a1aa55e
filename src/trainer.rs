use vstd::prelude::*;

verus! {

/// Shares and probabilities are written in parts per million.
pub const SHARE_SCALE: u32 = 1_000_000;

/// The chance, in parts per million, that a generation swaps the two fitness
/// scores before comparing them.
pub const EXPLORE_SHARE: u32 = 100_000;

/// Relies on rand's `thread_rng` and `Rng::gen_range`: a number drawn
/// uniformly from `0..bound`. `gen_range` panics on an empty range only.
#[verifier::external_body]
fn draw_below(bound: u32) -> (r: u32)
    requires
        bound > 0,
    ensures
        r < bound,
{
    rand::Rng::gen_range(&mut rand::thread_rng(), 0..bound)
}

/// Whether a draw from `0..SHARE_SCALE` falls below `share`.
pub open spec fn falls_below(draw: u32, share: u32) -> bool {
    draw < share
}

/// Decides an event from a number drawn from `0..SHARE_SCALE`: it happens
/// when the draw is below `share`.
pub fn falls_below_share(draw: u32, share: u32) -> (r: bool)
    ensures
        r == falls_below(draw, share),
{
    draw < share
}

/// Draws an event that happens with probability `share` parts per million:
/// a number is drawn from `0..SHARE_SCALE` and the event happens when it is
/// below `share`; so never for a share of zero, always for a share of a
/// whole million or more.
pub fn chance(share: u32) -> (r: bool)
    ensures
        exists|d: u32| d < SHARE_SCALE && r == #[trigger] falls_below(d, share),
        share == 0 ==> !r,
        share >= SHARE_SCALE ==> r,
{
    let d = draw_below(SHARE_SCALE);
    falls_below_share(d, share)
}

/// Draws whether this generation swaps its two fitness scores before
/// comparing them: a number is drawn from `0..SHARE_SCALE` and the swap
/// happens when it is below `EXPLORE_SHARE`.
pub fn explore_swap() -> (r: bool)
    ensures
        exists|d: u32| d < SHARE_SCALE && r == #[trigger] falls_below(d, EXPLORE_SHARE),
{
    let d = draw_below(SHARE_SCALE);
    falls_below_share(d, EXPLORE_SHARE)
}

/// One of the two candidates of a generation.
#[derive(Clone, Copy, Debug, PartialEq, Eq, Structural)]
pub enum Candidate {
    First,
    Second,
}

/// The outcome of a generation's selection step.
#[derive(Clone, Copy, Debug, PartialEq, Eq, Structural)]
pub struct Selection {
    /// The candidate that becomes the new champion.
    pub chosen: Candidate,
    /// The candidate whose score is recorded as the new fitness.
    pub scored: Candidate,
    /// Whether the scores were compared as they are, without a swap.
    pub greedy: bool,
}

/// The candidate that wins the comparison: the first where the score that
/// stands in the first slot is lower than the one in the second, else the
/// second. With `swap` the two scores trade slots before the comparison.
pub open spec fn survivor(first_lower: bool, second_lower: bool, swap: bool) -> Candidate {
    let slot_one_lower = if swap {
        second_lower
    } else {
        first_lower
    };
    if slot_one_lower {
        Candidate::First
    } else {
        Candidate::Second
    }
}

/// The candidate whose score stands in the winning slot after the swap.
pub open spec fn scored_by(chosen: Candidate, swap: bool) -> Candidate {
    if swap {
        if chosen == Candidate::First {
            Candidate::Second
        } else {
            Candidate::First
        }
    } else {
        chosen
    }
}

/// Picks the survivor of a generation from how its two scores compare:
/// `first_lower` when the first candidate's score is below the second's,
/// `second_lower` for the reverse, and `swap` when the scores trade places
/// before the comparison.
pub fn select(first_lower: bool, second_lower: bool, swap: bool) -> (r: Selection)
    ensures
        r.chosen == survivor(first_lower, second_lower, swap),
        r.scored == scored_by(r.chosen, swap),
        r.greedy == !swap,
{
    let one_lower = if swap {
        second_lower
    } else {
        first_lower
    };
    let chosen = if one_lower {
        Candidate::First
    } else {
        Candidate::Second
    };
    let scored = if swap {
        match chosen {
            Candidate::First => Candidate::Second,
            Candidate::Second => Candidate::First,
        }
    } else {
        chosen
    };
    Selection { chosen, scored, greedy: !swap }
}

} // verus!
