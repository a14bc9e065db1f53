//! The number-guessing game: a secret between 1 and 100, and guesses
//! judged against it.
use vstd::prelude::*;

use rand::Rng;

verus! {

/// The smallest number the game uses.
pub const LOWEST: i32 = 1;

/// The largest number the game uses.
pub const HIGHEST: i32 = 100;

/// A guess, always between 1 and 100.
pub struct Guess {
    value: i32,
}

impl Guess {
    /// The guess, as a number.
    pub closed spec fn spec_value(&self) -> i32 {
        self.value
    }

    #[verifier::type_invariant]
    spec fn in_range(&self) -> bool {
        LOWEST <= self.value <= HIGHEST
    }

    /// A guess of `value`, which must lie between 1 and 100.
    pub fn new(value: i32) -> (r: Guess)
        requires
            LOWEST <= value <= HIGHEST,
        ensures
            r.spec_value() == value,
    {
        Guess { value }
    }

    /// The number guessed.
    pub fn value(&self) -> (r: i32)
        ensures
            r == self.spec_value(),
            LOWEST <= r <= HIGHEST,
    {
        proof {
            use_type_invariant(self);
        }
        self.value
    }
}

/// How a guess compares with the secret.
#[derive(Debug, Clone, Copy, PartialEq, Eq, Structural)]
pub enum Verdict {
    /// The guess is below the secret.
    TooSmall,
    /// The guess is above the secret.
    TooBig,
    /// The guess is the secret.
    Win,
}

/// Judges `guess` against `secret`.
pub fn judge(guess: &Guess, secret: i32) -> (r: Verdict)
    ensures
        r == Verdict::TooSmall <==> guess.spec_value() < secret,
        r == Verdict::TooBig <==> guess.spec_value() > secret,
        r == Verdict::Win <==> guess.spec_value() == secret,
{
    let g = guess.value();
    if g < secret {
        Verdict::TooSmall
    } else if g > secret {
        Verdict::TooBig
    } else {
        Verdict::Win
    }
}

/// Relies on rand's `Rng::gen_range` over the inclusive range `low..=high`
/// with the thread-local generator: the value drawn lies in the range (it
/// panics only on an empty range, which `requires` rules out).
#[verifier::external_body]
fn random_between(low: i32, high: i32) -> (r: i32)
    requires
        low <= high,
    ensures
        low <= r <= high,
{
    rand::thread_rng().gen_range(low..=high)
}

/// A fresh secret for a game, drawn at random between 1 and 100.
pub fn secret_number() -> (r: i32)
    ensures
        LOWEST <= r <= HIGHEST,
{
    random_between(LOWEST, HIGHEST)
}

} // verus!
