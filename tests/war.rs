use std::collections::VecDeque;

use db_migrations_checker::cards::{Card, Deck, Rank, Suit, War};

#[test]
fn test_play_round_player_win() {
    let mut deck = Deck::new();
    deck.cards = vec![
        Card { suit: Suit::Hearts, rank: Rank::Five },
        Card { suit: Suit::Hearts, rank: Rank::Six },
        Card { suit: Suit::Clubs, rank: Rank::Three },
        Card { suit: Suit::Clubs, rank: Rank::Four },
    ];
    let mut war = War {
        player: VecDeque::from(deck.cards[0..2].to_vec()),
        computer: VecDeque::from(deck.cards[2..].to_vec()),
        seconds_rest: 0,
    };
    println!("{:?}", war);
    war.play_round();
    assert_eq!(war.player.len(), 3);
    assert_eq!(war.computer.len(), 1);
}
#[test]
fn test_play_round_computer_win() {
    let mut deck = Deck::new();
    deck.cards = vec![
        Card { suit: Suit::Hearts, rank: Rank::Three },
        Card { suit: Suit::Hearts, rank: Rank::Four },
        Card { suit: Suit::Clubs, rank: Rank::Five },
        Card { suit: Suit::Clubs, rank: Rank::Six },
    ];
    let mut war = War {
        player: VecDeque::from(deck.cards[0..2].to_vec()),
        computer: VecDeque::from(deck.cards[2..].to_vec()),
        seconds_rest: 0,
    };
    war.play_round();
    assert_eq!(war.player.len(), 1);
    assert_eq!(war.computer.len(), 3);
}
#[test]
fn test_play_round_war() {
    let mut deck = Deck::new();
    deck.cards = vec![
        Card { suit: Suit::Hearts, rank: Rank::Seven },
        Card { suit: Suit::Hearts, rank: Rank::Eight },
        Card { suit: Suit::Hearts, rank: Rank::Nine },
        Card { suit: Suit::Clubs, rank: Rank::Seven },
        Card { suit: Suit::Clubs, rank: Rank::Three },
        Card { suit: Suit::Hearts, rank: Rank::Eight },
    ];
    let mut war = War {
        player: VecDeque::from(deck.cards[0..=2].to_vec()),
        computer: VecDeque::from(deck.cards[3..].to_vec()),
        seconds_rest: 0,
    };
    war.play_round();
    assert_eq!(war.player.len(), 6);
    assert_eq!(war.computer.len(), 0);
}
#[test]
fn test_play_round_war_no_cards_remaining_win() {
    let mut deck = Deck::new();
    deck.cards = vec![
        Card { suit: Suit::Hearts, rank: Rank::Seven },
        Card { suit: Suit::Clubs, rank: Rank::Seven },
        Card { suit: Suit::Clubs, rank: Rank::Three },
        Card { suit: Suit::Hearts, rank: Rank::Five },
    ];
    let mut war = War {
        player: VecDeque::from(vec![deck.cards[0]]),
        computer: VecDeque::from(deck.cards[1..].to_vec()),
        seconds_rest: 0,
    };
    war.play_round();
    assert_eq!(war.player.len(), 4);
    assert_eq!(war.computer.len(), 0);
}
#[test]
fn test_play_round_war_no_cards_remaining_lose() {
    let mut deck = Deck::new();
    deck.cards = vec![
        Card { suit: Suit::Hearts, rank: Rank::Seven },
        Card { suit: Suit::Clubs, rank: Rank::Seven },
        Card { suit: Suit::Clubs, rank: Rank::Three },
        Card { suit: Suit::Hearts, rank: Rank::Five },
    ];
    let mut war = War {
        // swap from last test
        computer: VecDeque::from(vec![deck.cards[0]]),
        player: VecDeque::from(deck.cards[1..].to_vec()),
        seconds_rest: 0,
    };
    war.play_round();
    assert_eq!(war.player.len(), 0);
    assert_eq!(war.computer.len(), 4);
}
#[test]
fn test_play_round_war_one_card_remaining_win() {
    let mut deck = Deck::new();
    deck.cards = vec![
        Card { suit: Suit::Hearts, rank: Rank::Seven },
        Card { suit: Suit::Hearts, rank: Rank::Six },
        Card { suit: Suit::Clubs, rank: Rank::Seven },
        // make sure this is skipped correctly
        Card { suit: Suit::Clubs, rank: Rank::Nine },
        Card { suit: Suit::Hearts, rank: Rank::Five },
    ];
    let mut war = War {
        player: VecDeque::from(deck.cards[0..=1].to_vec()),
        computer: VecDeque::from(deck.cards[2..].to_vec()),
        seconds_rest: 0,
    };
    war.play_round();
    assert_eq!(war.player.len(), 5);
    assert_eq!(war.computer.len(), 0);
}
#[test]
fn test_play_round_war_one_card_remaining_lose() {
    let mut deck = Deck::new();
    deck.cards = vec![
        Card { suit: Suit::Hearts, rank: Rank::Seven },
        Card { suit: Suit::Hearts, rank: Rank::Six },
        Card { suit: Suit::Clubs, rank: Rank::Seven },
        Card { suit: Suit::Clubs, rank: Rank::Nine },
        Card { suit: Suit::Hearts, rank: Rank::Five },
    ];
    let mut war = War {
        computer: VecDeque::from(deck.cards[0..=1].to_vec()),
        player: VecDeque::from(deck.cards[2..].to_vec()),
        seconds_rest: 0,
    };
    war.play_round();
    assert_eq!(war.player.len(), 0);
    assert_eq!(war.computer.len(), 5);
}
#[test]
fn test_play_round_war_two_cards_remaining_win() {
    let mut deck = Deck::new();
    deck.cards = vec![
        Card { suit: Suit::Hearts, rank: Rank::Seven },
        Card { suit: Suit::Hearts, rank: Rank::Six },
        Card { suit: Suit::Hearts, rank: Rank::Nine },
        Card { suit: Suit::Clubs, rank: Rank::Seven },
        Card { suit: Suit::Clubs, rank: Rank::Nine },
        Card { suit: Suit::Hearts, rank: Rank::Five },
    ];
    let mut war = War {
        player: VecDeque::from(deck.cards[0..=2].to_vec()),
        computer: VecDeque::from(deck.cards[3..].to_vec()),
        seconds_rest: 0,
    };
    war.play_round();
    assert_eq!(war.player.len(), 6);
    assert_eq!(war.computer.len(), 0);
}
#[test]
fn test_play_round_war_two_cards_remaining_lose() {
    let mut deck = Deck::new();
    deck.cards = vec![
        Card { suit: Suit::Hearts, rank: Rank::Seven },
        Card { suit: Suit::Hearts, rank: Rank::Six },
        Card { suit: Suit::Hearts, rank: Rank::Nine },
        Card { suit: Suit::Clubs, rank: Rank::Seven },
        Card { suit: Suit::Clubs, rank: Rank::Nine },
        Card { suit: Suit::Hearts, rank: Rank::Five },
    ];
    let mut war = War {
        computer: VecDeque::from(deck.cards[0..=2].to_vec()),
        player: VecDeque::from(deck.cards[3..].to_vec()),
        seconds_rest: 0,
    };
    war.play_round();
    assert_eq!(war.player.len(), 0);
    assert_eq!(war.computer.len(), 6);
}
#[test]
fn test_play_round_double_win() {
    let mut deck = Deck::new();
    deck.cards = vec![
        Card { suit: Suit::Hearts, rank: Rank::Seven },
        Card { suit: Suit::Hearts, rank: Rank::Six },
        Card { suit: Suit::Hearts, rank: Rank::Nine },
        Card { suit: Suit::Hearts, rank: Rank::Four },
        Card { suit: Suit::Hearts, rank: Rank::King },
        Card { suit: Suit::Clubs, rank: Rank::Seven },
        Card { suit: Suit::Hearts, rank: Rank::Five },
        Card { suit: Suit::Clubs, rank: Rank::Nine },
        Card { suit: Suit::Hearts, rank: Rank::Two },
        Card { suit: Suit::Hearts, rank: Rank::Three },
        Card { suit: Suit::Hearts, rank: Rank::Queen },
    ];
    let mut war = War {
        player: VecDeque::from(deck.cards[0..=4].to_vec()),
        computer: VecDeque::from(deck.cards[5..].to_vec()),
        seconds_rest: 0,
    };
    war.play_round();
    assert_eq!(war.player.len(), 10);
    assert_eq!(war.computer.len(), 1);
}
#[test]
fn test_play_round_double_war_lose() {
    let mut deck = Deck::new();
    deck.cards = vec![
        Card { suit: Suit::Hearts, rank: Rank::Seven },
        Card { suit: Suit::Hearts, rank: Rank::Six },
        Card { suit: Suit::Hearts, rank: Rank::Nine },
        Card { suit: Suit::Hearts, rank: Rank::Four },
        Card { suit: Suit::Hearts, rank: Rank::King },
        Card { suit: Suit::Hearts, rank: Rank::Jack },
        Card { suit: Suit::Spades, rank: Rank::King },
        Card { suit: Suit::Diamonds, rank: Rank::King },
        Card { suit: Suit::Clubs, rank: Rank::Seven },
        Card { suit: Suit::Hearts, rank: Rank::Five },
        Card { suit: Suit::Clubs, rank: Rank::Nine },
        Card { suit: Suit::Hearts, rank: Rank::Two },
        Card { suit: Suit::Hearts, rank: Rank::Three },
        Card { suit: Suit::Hearts, rank: Rank::Queen },
        Card { suit: Suit::Diamonds, rank: Rank::Queen },
    ];
    let mut war = War {
        computer: VecDeque::from(deck.cards[0..=7].to_vec()),
        player: VecDeque::from(deck.cards[8..].to_vec()),
        seconds_rest: 0,
    };
    war.play_round();
    assert_eq!(war.player.len(), 2);
    assert_eq!(war.computer.len(), 13);
}

#[test]
fn war_with_both_piles_empty_ends_the_game() {
    let mut war = War {
        player: VecDeque::from(vec![Card { suit: Suit::Hearts, rank: Rank::Seven }]),
        computer: VecDeque::from(vec![Card { suit: Suit::Clubs, rank: Rank::Seven }]),
        seconds_rest: 0,
    };
    assert!(war.play_round());
    assert_eq!(war.player.len(), 0);
    assert_eq!(war.computer.len(), 0);
    assert!(!war.play_round());
}
