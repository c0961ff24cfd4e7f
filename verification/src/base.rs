//! Basic vocabulary of the simulation: error kinds, skill tiers,
//! construction states, and the dice helper.

use vstd::prelude::*;

verus! {

/// Recoverable error conditions reported by the simulation core.
#[derive(Clone, Copy, Debug, PartialEq, Eq, Structural)]
pub enum SamosborError {
    NoEmptyArea,
    NotEnoughArea,
    NotEnoughResources,
}

/// Skill grade: of a colonist, a piece of equipment, or a resource variant.
/// `NoTier` marks unique things outside the grade ladder.
#[derive(PartialEq, Eq, Structural, Clone, Copy, Debug, Hash)]
pub enum Tier {
    NoTier,
    T1,
    T2,
    T3,
}

/// Construction state of a room or a stationary object. Only `Ready`
/// entities contribute usable capacity or equipment capability.
#[derive(Clone, Copy, Debug, PartialEq, Eq, Structural, Hash)]
pub enum TaskStatus {
    Constructing,
    Ready,
}

#[verifier::external_type_specification]
#[verifier::external_body]
pub struct ExThreadRng(rand::rngs::ThreadRng);

/// Relies on rand::thread_rng: hands out the thread-local generator.
#[verifier::external_body]
fn fresh_rng() -> rand::rngs::ThreadRng {
    rand::thread_rng()
}

/// Relies on rand::Rng::gen_range on a half-open range: the draw is uniform
/// in `0..sides`, so in particular below `sides`; the call panics on an
/// empty range, which the precondition rules out.
#[verifier::external_body]
fn roll_die(rng: &mut rand::rngs::ThreadRng, sides: u8) -> (r: u8)
    requires
        sides >= 1,
    ensures
        r < sides,
{
    rand::Rng::gen_range(rng, 0..sides)
}

/// Roll `rolls` dice with faces `0..sides` each and sum the outcomes.
/// Degenerate requests (no dice, or no faces) yield zero.
pub fn _d(rolls: u8, sides: u8) -> (r: usize)
    ensures
        r <= (rolls as nat) * ((sides - 1) as nat) || r == 0,
        (sides < 1 || rolls < 1) ==> r == 0,
{
    if sides < 1 || rolls < 1 {
        0
    } else {
        let mut rng = fresh_rng();
        let mut result: usize = 0;
        let mut i: u8 = 0;
        while i < rolls
            invariant
                i <= rolls,
                sides >= 1,
                result <= (i as nat) * ((sides - 1) as nat),
            decreases rolls - i,
        {
            let roll = roll_die(&mut rng, sides);
            proof {
                assert((i + 1) as nat * ((sides - 1) as nat)
                    == (i as nat) * ((sides - 1) as nat) + ((sides - 1) as nat))
                    by (nonlinear_arith);
                assert(((i + 1) as nat) * ((sides - 1) as nat) <= 255 * 255) by (nonlinear_arith)
                    requires i <= 254 && 1 <= sides && sides <= 255;
            }
            result += roll as usize;
            i += 1;
        }
        result
    }
}

} // verus!
