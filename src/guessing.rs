//! Guess the number: a secret between 0 and 100 and a limited number of
//! guesses per round.

use vstd::prelude::*;
use crate::movement::random_below;

verus! {

/// What a guess earned.
#[derive(Debug, Clone, Copy, PartialEq, Eq, Structural)]
pub enum Verdict {
    Correct,
    TooLow,
    TooHigh,
    /// No guesses were left; the game is over.
    OutOfGuesses,
}

/// The state of a game: rounds won and guesses left.
#[derive(Debug)]
pub struct NumberGuess {
    pub score: i32,
    pub guesses: i32,
}

impl NumberGuess {
    /// A new game: no points, ten guesses.
    pub fn new() -> (r: Self)
        ensures
            r.score == 0,
            r.guesses == 10,
    {
        NumberGuess { score: 0, guesses: 10 }
    }

    /// A secret number from 0 to 100.
    pub fn secret() -> (r: i32)
        ensures
            0 <= r <= 100,
    {
        random_below(101) as i32
    }

    /// Judges `guess` against `secret`: a right guess scores a point, a
    /// wrong one costs a guess, and with no guesses left nothing changes.
    pub fn judge(&mut self, guess: i32, secret: i32) -> (r: Verdict)
        requires
            old(self).score < i32::MAX,
            old(self).guesses > i32::MIN,
        ensures
            old(self).guesses == 0 ==> r == Verdict::OutOfGuesses && *final(self) == *old(self),
            old(self).guesses != 0 && guess == secret ==> r == Verdict::Correct && final(self).score
                == old(self).score + 1 && final(self).guesses == old(self).guesses,
            old(self).guesses != 0 && guess < secret ==> r == Verdict::TooLow && final(self).score
                == old(self).score && final(self).guesses == old(self).guesses - 1,
            old(self).guesses != 0 && guess > secret ==> r == Verdict::TooHigh && final(self).score
                == old(self).score && final(self).guesses == old(self).guesses - 1,
    {
        if self.guesses == 0 {
            return Verdict::OutOfGuesses;
        }
        if guess == secret {
            self.score = self.score + 1;
            Verdict::Correct
        } else if guess < secret {
            self.guesses = self.guesses - 1;
            Verdict::TooLow
        } else {
            self.guesses = self.guesses - 1;
            Verdict::TooHigh
        }
    }
}

} // verus!
