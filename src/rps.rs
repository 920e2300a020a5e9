//! Rock, paper, scissors: reading a player's choice, deciding a round, and
//! keeping the score.

use vstd::prelude::*;
use crate::movement::random_below;
use crate::text::chars_equal;

verus! {

#[derive(Debug, Copy, Clone, PartialEq, Eq, Structural)]
pub enum Choice {
    Rock,
    Paper,
    Scissors,
}

#[derive(Debug, Copy, Clone, PartialEq, Eq, Structural)]
pub enum Outcome {
    Win,
    Lose,
    Tie,
}

/// The state of a game: points won and lives left.
#[derive(Debug)]
pub struct RockPaperScissors {
    pub score: i32,
    pub lives: i32,
}

/// The choice a player's word names, if any.
pub open spec fn choice_named(s: Seq<char>) -> Option<Choice> {
    if s == "rock"@ || s == "r"@ {
        Some(Choice::Rock)
    } else if s == "paper"@ || s == "p"@ {
        Some(Choice::Paper)
    } else if s == "scissors"@ || s == "s"@ {
        Some(Choice::Scissors)
    } else {
        None
    }
}

/// Whether `a` beats `b`.
pub open spec fn beats(a: Choice, b: Choice) -> bool {
    (a == Choice::Rock && b == Choice::Scissors) || (a == Choice::Paper && b == Choice::Rock) || (a
        == Choice::Scissors && b == Choice::Paper)
}

/// The player's outcome against the computer.
pub open spec fn outcome_of(player: Choice, computer: Choice) -> Outcome {
    if player == computer {
        Outcome::Tie
    } else if beats(computer, player) {
        Outcome::Lose
    } else {
        Outcome::Win
    }
}

impl RockPaperScissors {
    /// A new game: no points, three lives.
    pub fn new() -> (r: Self)
        ensures
            r.score == 0,
            r.lives == 3,
    {
        RockPaperScissors { score: 0, lives: 3 }
    }

    /// Reads `rock`, `paper` or `scissors`, or their first letters.
    pub fn parse_user(s: &str) -> (r: Result<Choice, String>)
        ensures
            match choice_named(s@) {
                Some(c) => r == Ok::<Choice, String>(c),
                None => (r matches Err(m) && m@
                    == "failed to parse rock, paper, or scissors from user input"@),
            },
    {
        if chars_equal(s, "rock") || chars_equal(s, "r") {
            Ok(Choice::Rock)
        } else if chars_equal(s, "paper") || chars_equal(s, "p") {
            Ok(Choice::Paper)
        } else if chars_equal(s, "scissors") || chars_equal(s, "s") {
            Ok(Choice::Scissors)
        } else {
            Err("failed to parse rock, paper, or scissors from user input".to_string())
        }
    }

    /// Decides a round from the player's side.
    pub fn determine_winner(player: Choice, computer: Choice) -> (r: Outcome)
        ensures
            r == outcome_of(player, computer),
    {
        if player == computer {
            return Outcome::Tie;
        }
        if player == Choice::Rock && computer == Choice::Paper || player == Choice::Paper
            && computer == Choice::Scissors || player == Choice::Scissors && computer
            == Choice::Rock {
            return Outcome::Lose;
        }
        Outcome::Win
    }

    /// A random choice for the computer.
    pub fn computer_chooses() -> (r: Choice) {
        let i = random_below(3);
        if i == 0 {
            Choice::Rock
        } else if i == 1 {
            Choice::Paper
        } else {
            Choice::Scissors
        }
    }

    /// Scores a round: a win adds a point, a loss takes a life, a tie changes
    /// nothing. Tells whether the game is over (no lives left).
    pub fn record(&mut self, outcome: Outcome) -> (over: bool)
        requires
            old(self).score < i32::MAX,
            old(self).lives > i32::MIN,
        ensures
            outcome == Outcome::Win ==> final(self).score == old(self).score + 1 && final(self).lives
                == old(self).lives,
            outcome == Outcome::Lose ==> final(self).score == old(self).score && final(self).lives
                == old(self).lives - 1,
            outcome == Outcome::Tie ==> *final(self) == *old(self),
            over == (outcome == Outcome::Lose && final(self).lives == 0),
    {
        match outcome {
            Outcome::Tie => false,
            Outcome::Lose => {
                self.lives = self.lives - 1;
                self.lives == 0
            },
            Outcome::Win => {
                self.score = self.score + 1;
                false
            },
        }
    }
}

} // verus!
