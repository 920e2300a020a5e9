use std::collections::HashSet;

use db_migrations_checker::cards::{Card, Deck, Rank, Suit, War};
use db_migrations_checker::guessing::{NumberGuess, Verdict};
use db_migrations_checker::rps::{Choice, Outcome, RockPaperScissors};
use db_migrations_checker::movement::{detect_collision, detect_moving_collision, Direction, MovingPoint, Point};

#[test]
fn deck_new() {
    let deck = Deck::new();
    assert_eq!(52, deck.cards.len());
    // 52 unique cards
    let mut set = HashSet::new();
    for card in &deck.cards {
        set.insert((card.suit, card.rank));
    }
    assert_eq!(52, set.len());
    // all expected are included
    for &suit in &[Suit::Clubs, Suit::Diamonds, Suit::Hearts, Suit::Spades] {
        for &rank in &[
            Rank::Two, Rank::Three, Rank::Four, Rank::Five, Rank::Six,
            Rank::Seven, Rank::Eight, Rank::Nine, Rank::Ten, Rank::Jack,
            Rank::Queen, Rank::King, Rank::Ace,
        ] {
            assert!(set.contains(&(suit, rank)))
        }
    }
}

#[test]
fn deck_shuffle() {
    let mut deck1 = Deck::new();
    let mut deck2 = deck1.clone();
    deck2.shuffle();
    assert_eq!(52, deck2.cards.len());
    let same_order = deck1.cards.iter().zip(deck2.cards.iter()).all(|(a, b)| a == b);
    assert!(!same_order, "order didn't change with shuffling");
    deck1.cards.sort_by(|a, b| a.cmp(b));
    deck2.cards.sort_by(|a, b| a.cmp(b));
    assert_eq!(deck1.cards, deck2.cards);
}

#[test]
fn card_emoji_and_rank_values() {
    let card = Card { suit: Suit::Hearts, rank: Rank::Ten };
    assert_eq!(card.emoji(), "10 of \u{2665}");
    let card = Card { suit: Suit::Spades, rank: Rank::Queen };
    assert_eq!(card.emoji(), "Q of \u{2660}");
    assert_eq!(Rank::Two.to_u8(), 2);
    assert_eq!(Rank::Ace.to_u8(), 14);
    assert_eq!(Rank::Jack.to_u8(), 11);
}

#[test]
fn direction_reverse_and_collisions() {
    assert_eq!(Direction::Up.reverse(), Direction::Down);
    assert_eq!(Direction::Left.reverse(), Direction::Right);
    let p = Point { x: 3, y: 4 };
    assert!(detect_collision(p, vec![Point { x: 1, y: 1 }, Point { x: 3, y: 4 }]));
    assert!(!detect_collision(p, vec![]));
    let mut m = MovingPoint::default();
    m.position = p;
    assert!(detect_moving_collision(p, &vec![m]));
    assert!(!detect_moving_collision(Point { x: 0, y: 0 }, &vec![m]));
}

#[test]
fn moving_point_bounces() {
    let mut m = MovingPoint { position: Point { x: 5, y: 5 }, direction: Direction::Right, speed: 2, wait_to_draw: 0 };
    m.update_position(10, 10, 3, vec![]);
    assert_eq!(m.position, Point { x: 7, y: 5 });
    assert_eq!(m.wait_to_draw, 3);
    m.update_position(10, 10, 0, vec![Point { x: 8, y: 5 }]);
    assert_eq!(m.direction, Direction::Left);
    assert_eq!(m.position, Point { x: 7, y: 5 });
    let mut top = MovingPoint { position: Point { x: 2, y: 1 }, direction: Direction::Up, speed: 1, wait_to_draw: 0 };
    top.update_position(10, 10, 0, vec![]);
    assert_eq!(top.direction, Direction::Down);
    let mut fast = MovingPoint { position: Point { x: 2, y: 3 }, direction: Direction::Up, speed: 9, wait_to_draw: 0 };
    fast.update_position(10, 10, 0, vec![]);
    assert_eq!(fast.position, Point { x: 2, y: 0 });
}

#[test]
fn rock_paper_scissors_rounds() {
    assert_eq!(RockPaperScissors::parse_user("r"), Ok(Choice::Rock));
    assert_eq!(RockPaperScissors::parse_user("scissors"), Ok(Choice::Scissors));
    assert!(RockPaperScissors::parse_user("lizard").is_err());
    assert_eq!(RockPaperScissors::determine_winner(Choice::Rock, Choice::Paper), Outcome::Lose);
    assert_eq!(RockPaperScissors::determine_winner(Choice::Rock, Choice::Scissors), Outcome::Win);
    assert_eq!(RockPaperScissors::determine_winner(Choice::Paper, Choice::Paper), Outcome::Tie);
    let mut game = RockPaperScissors::new();
    assert!(!game.record(Outcome::Win));
    assert_eq!(game.score, 1);
    assert!(!game.record(Outcome::Lose));
    assert!(!game.record(Outcome::Lose));
    assert!(game.record(Outcome::Lose));
    assert_eq!(game.lives, 0);
    let c = RockPaperScissors::computer_chooses();
    assert!(matches!(c, Choice::Rock | Choice::Paper | Choice::Scissors));
}

#[test]
fn test_new_game_initialization() {
    let war = War::new(0);
    assert_eq!(war.player.len(), 26);
    assert_eq!(war.computer.len(), 26);
}

#[test]
fn number_guess_rounds() {
    let mut game = NumberGuess::new();
    assert_eq!(game.guesses, 10);
    let secret = NumberGuess::secret();
    assert!((0..=100).contains(&secret));
    assert_eq!(game.judge(10, 50), Verdict::TooLow);
    assert_eq!(game.judge(90, 50), Verdict::TooHigh);
    assert_eq!(game.guesses, 8);
    assert_eq!(game.judge(50, 50), Verdict::Correct);
    assert_eq!(game.score, 1);
    game.guesses = 0;
    assert_eq!(game.judge(50, 50), Verdict::OutOfGuesses);
    assert_eq!(game.score, 1);
}
