//! The brightness ladder: a value type and its stepping rule.
//!
//! Brightness moves along the fixed ladder `0, 1, 500, 1000, ..., 7000, 7500`:
//! zero, one special single-unit rung, then multiples of 500 up to a cap. The
//! rung at 1 keeps the lowest visible brightness reachable as a deliberate
//! step, and "off" is only reached by an explicit decrease from 1.

use vstd::prelude::*;

verus! {

/// The top of the ladder: values never step above this.
pub const MAX_LEVEL: u64 = 7500;

/// The spacing of the regular rungs of the ladder.
pub const RUNG: u64 = 500;

/// Direction of a brightness adjustment.
pub enum Step {
    Up,
    Down,
}

/// A backlight brightness value, in the units of the hardware register.
/// Immutable; every operation returns a new value.
#[derive(Clone, Copy, Debug, PartialEq, Eq, Structural)]
pub struct Brightness(pub u64);

/// The rung reached by one increase from brightness `b`: 0 goes to 1, 1 goes
/// to 500, and any other value rounds down to a multiple of 500, rises one
/// rung, and is clipped to `MAX_LEVEL`.
pub open spec fn spec_step_up(b: nat) -> nat {
    if b == 0 {
        1
    } else if b == 1 {
        500
    } else {
        let raised = (b / 500) * 500 + 500;
        if raised <= 7500 {
            raised
        } else {
            7500
        }
    }
}

/// The rung reached by one decrease from brightness `b`: 0 and 1 go to 0, and
/// any other value rounds up to a multiple of 500, drops one rung, and is
/// clipped to a minimum of 1.
pub open spec fn spec_step_down(b: nat) -> nat {
    if b <= 1 {
        0
    } else {
        let lowered: int = ((b + 499) / 500) * 500 - 500;
        if lowered >= 1 {
            lowered as nat
        } else {
            1
        }
    }
}

/// One step along the ladder in the given direction.
pub open spec fn spec_step(b: nat, dir: Step) -> nat {
    match dir {
        Step::Up => spec_step_up(b),
        Step::Down => spec_step_down(b),
    }
}

impl Brightness {
    /// Step to the neighbouring rung of the ladder
    /// `0 - 1 - 500 - 1000 - ... - 7000 - 7500` in the given direction.
    pub fn step(&self, dir: Step) -> (r: Self)
        ensures
            r.0 == spec_step(self.0 as nat, dir),
    {
        match (self.0, dir) {
            (0, Step::Up) => Brightness(1),
            (1, Step::Up) => Brightness(500),
            (cur, Step::Up) => {
                if cur >= MAX_LEVEL {
                    proof {
                        lemma_round_down_past_top(cur as nat);
                    }
                    Brightness(MAX_LEVEL)
                } else {
                    let rounded = cur / RUNG * RUNG;
                    Brightness(rounded + RUNG)
                }
            },
            (0, Step::Down) => Brightness(0),
            (1, Step::Down) => Brightness(0),
            (cur, Step::Down) => {
                proof {
                    lemma_round_up_shifted(cur as nat);
                }
                let rounded = (cur - 1) / RUNG * RUNG;
                if rounded < 1 {
                    Brightness(1)
                } else {
                    Brightness(rounded)
                }
            },
        }
    }
}

/// The result of stepping `n` times from brightness `b` in direction `dir`.
pub open spec fn spec_step_iter(b: nat, dir: Step, n: nat) -> nat
    decreases n,
{
    if n == 0 {
        b
    } else {
        spec_step_iter(spec_step(b, dir), dir, (n - 1) as nat)
    }
}

/// The ladder's boundaries are fixed points: a decrease from 0 stays at 0, an
/// increase from the top stays at the top, and an increase from any value
/// above the top clips back down to the top rather than rising further.
pub proof fn lemma_step_boundary_fixed_points(b: nat)
    ensures
        spec_step(0, Step::Down) == 0,
        spec_step(7500, Step::Up) == 7500,
        b > 7500 ==> spec_step(b, Step::Up) == 7500,
{
    if b > 7500 {
        lemma_round_down_past_top(b);
    }
}

/// Stepping is idempotent at both extremes of the ladder: any number of
/// increases from the top yields the top, and any number of decreases from 0
/// yields 0.
pub proof fn lemma_step_idempotent_at_extremes(n: nat)
    ensures
        spec_step_iter(7500, Step::Up, n) == 7500,
        spec_step_iter(0, Step::Down, n) == 0,
    decreases n,
{
    if n > 0 {
        lemma_step_idempotent_at_extremes((n - 1) as nat);
    }
}

/// Rounding a value at or above the top of the ladder down to a multiple of
/// 500 still lands at or above the top.
proof fn lemma_round_down_past_top(b: nat)
    requires
        b >= 7500,
    ensures
        (b / 500) * 500 + 500 > 7500,
{
    vstd::arithmetic::div_mod::lemma_div_is_ordered(7500, b as int, 500);
}

/// Rounding up to a multiple of 500 and dropping one rung is the same as
/// rounding one less down to a multiple of 500.
proof fn lemma_round_up_shifted(b: nat)
    requires
        b >= 2,
    ensures
        ((b + 499) / 500) * 500 - 500 == ((b - 1) / 500) * 500,
{
    vstd::arithmetic::div_mod::lemma_div_plus_one(b - 1, 500);
}

} // verus!
