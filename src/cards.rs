//! Playing cards: suits, ranks, and a full 52-card deck.

use vstd::prelude::*;
use std::collections::VecDeque;

verus! {

#[derive(Debug, Clone, Copy, PartialEq, Eq, Structural, Hash, PartialOrd, Ord)]
pub enum Suit {
    Hearts,
    Spades,
    Clubs,
    Diamonds,
}

#[derive(Debug, Clone, Copy, PartialEq, Eq, Structural, Hash, PartialOrd, Ord)]
pub enum Rank {
    Two,
    Three,
    Four,
    Five,
    Six,
    Seven,
    Eight,
    Nine,
    Ten,
    Jack,
    Queen,
    King,
    Ace,
}

#[derive(Debug, Clone, Copy, PartialEq, Eq, Structural, Hash, PartialOrd, Ord)]
pub struct Card {
    pub suit: Suit,
    pub rank: Rank,
}

#[derive(Debug, Clone)]
pub struct Deck {
    pub cards: Vec<Card>,
}

/// The face value of a rank: 2 to 10, then 11 to 14 for jack, queen, king
/// and ace.
pub open spec fn rank_value(rank: Rank) -> u8 {
    match rank {
        Rank::Two => 2,
        Rank::Three => 3,
        Rank::Four => 4,
        Rank::Five => 5,
        Rank::Six => 6,
        Rank::Seven => 7,
        Rank::Eight => 8,
        Rank::Nine => 9,
        Rank::Ten => 10,
        Rank::Jack => 11,
        Rank::Queen => 12,
        Rank::King => 13,
        Rank::Ace => 14,
    }
}

/// The ranks in ascending order.
pub open spec fn rank_at(i: int) -> Rank {
    if i == 0 { Rank::Two }
    else if i == 1 { Rank::Three }
    else if i == 2 { Rank::Four }
    else if i == 3 { Rank::Five }
    else if i == 4 { Rank::Six }
    else if i == 5 { Rank::Seven }
    else if i == 6 { Rank::Eight }
    else if i == 7 { Rank::Nine }
    else if i == 8 { Rank::Ten }
    else if i == 9 { Rank::Jack }
    else if i == 10 { Rank::Queen }
    else if i == 11 { Rank::King }
    else { Rank::Ace }
}

/// The suits in the order a new deck holds them.
pub open spec fn suit_at(i: int) -> Suit {
    if i == 0 { Suit::Clubs }
    else if i == 1 { Suit::Diamonds }
    else if i == 2 { Suit::Hearts }
    else { Suit::Spades }
}

/// The label of a rank on a card face.
pub open spec fn rank_label(rank: Rank) -> Seq<char> {
    match rank {
        Rank::Two => "2"@,
        Rank::Three => "3"@,
        Rank::Four => "4"@,
        Rank::Five => "5"@,
        Rank::Six => "6"@,
        Rank::Seven => "7"@,
        Rank::Eight => "8"@,
        Rank::Nine => "9"@,
        Rank::Ten => "10"@,
        Rank::Jack => "J"@,
        Rank::Queen => "Q"@,
        Rank::King => "K"@,
        Rank::Ace => "A"@,
    }
}

/// The symbol of a suit.
pub open spec fn suit_symbol(suit: Suit) -> Seq<char> {
    match suit {
        Suit::Hearts => "\u{2665}"@,
        Suit::Spades => "\u{2660}"@,
        Suit::Clubs => "\u{2663}"@,
        Suit::Diamonds => "\u{2666}"@,
    }
}

impl Rank {
    /// The face value of the rank.
    pub fn to_u8(self) -> (r: u8)
        ensures
            r == rank_value(self),
    {
        match self {
            Rank::Two => 2,
            Rank::Three => 3,
            Rank::Four => 4,
            Rank::Five => 5,
            Rank::Six => 6,
            Rank::Seven => 7,
            Rank::Eight => 8,
            Rank::Nine => 9,
            Rank::Ten => 10,
            Rank::Jack => 11,
            Rank::Queen => 12,
            Rank::King => 13,
            Rank::Ace => 14,
        }
    }

    fn label(self) -> (r: &'static str)
        ensures
            r@ == rank_label(self),
    {
        match self {
            Rank::Two => "2",
            Rank::Three => "3",
            Rank::Four => "4",
            Rank::Five => "5",
            Rank::Six => "6",
            Rank::Seven => "7",
            Rank::Eight => "8",
            Rank::Nine => "9",
            Rank::Ten => "10",
            Rank::Jack => "J",
            Rank::Queen => "Q",
            Rank::King => "K",
            Rank::Ace => "A",
        }
    }

    fn at(i: usize) -> (r: Rank)
        requires
            i < 13,
        ensures
            r == rank_at(i as int),
    {
        if i == 0 { Rank::Two }
        else if i == 1 { Rank::Three }
        else if i == 2 { Rank::Four }
        else if i == 3 { Rank::Five }
        else if i == 4 { Rank::Six }
        else if i == 5 { Rank::Seven }
        else if i == 6 { Rank::Eight }
        else if i == 7 { Rank::Nine }
        else if i == 8 { Rank::Ten }
        else if i == 9 { Rank::Jack }
        else if i == 10 { Rank::Queen }
        else if i == 11 { Rank::King }
        else { Rank::Ace }
    }
}

impl Suit {
    fn symbol(self) -> (r: &'static str)
        ensures
            r@ == suit_symbol(self),
    {
        match self {
            Suit::Hearts => "\u{2665}",
            Suit::Spades => "\u{2660}",
            Suit::Clubs => "\u{2663}",
            Suit::Diamonds => "\u{2666}",
        }
    }

    fn at(i: usize) -> (r: Suit)
        requires
            i < 4,
        ensures
            r == suit_at(i as int),
    {
        if i == 0 { Suit::Clubs }
        else if i == 1 { Suit::Diamonds }
        else if i == 2 { Suit::Hearts }
        else { Suit::Spades }
    }
}

impl Card {
    /// A short text form of the card, such as `10 of ♥`.
    pub fn emoji(&self) -> (r: String)
        ensures
            r@ == rank_label(self.rank) + " of "@ + suit_symbol(self.suit),
    {
        let mut r = self.rank.label().to_string();
        r.append(" of ");
        r.append(self.suit.symbol());
        r
    }
}

/// Relies on `rand::seq::SliceRandom::shuffle`: it reorders the cards in
/// place, keeping each of them.
#[verifier::external_body]
fn shuffle_cards(cards: &mut Vec<Card>)
    ensures
        final(cards)@.to_multiset() == old(cards)@.to_multiset(),
{
    rand::seq::SliceRandom::shuffle(cards.as_mut_slice(), &mut rand::thread_rng());
}

impl Deck {
    /// The cards of a new deck, in order.
    pub open spec fn new_deck_cards() -> Seq<Card> {
        Seq::new(52, |i: int| Card { suit: suit_at(i / 13), rank: rank_at(i % 13) })
    }

    /// A new deck: every rank of clubs, diamonds, hearts, then spades, each
    /// suit from two to ace.
    pub fn new() -> (r: Deck)
        ensures
            r.cards@.len() == 52,
            forall|i: int| 0 <= i < 52 ==> #[trigger] r.cards@[i] == (Card {
                suit: suit_at(i / 13),
                rank: rank_at(i % 13),
            }),
    {
        let mut cards: Vec<Card> = Vec::with_capacity(52);
        let mut s: usize = 0;
        while s < 4
            invariant
                s <= 4,
                cards@.len() == 13 * s,
                forall|i: int| 0 <= i < 13 * s ==> #[trigger] cards@[i] == (Card {
                    suit: suit_at(i / 13),
                    rank: rank_at(i % 13),
                }),
            decreases 4 - s,
        {
            let suit = Suit::at(s);
            let mut k: usize = 0;
            while k < 13
                invariant
                    s < 4,
                    k <= 13,
                    suit == suit_at(s as int),
                    cards@.len() == 13 * s + k,
                    forall|i: int| 0 <= i < 13 * s + k ==> #[trigger] cards@[i] == (Card {
                        suit: suit_at(i / 13),
                        rank: rank_at(i % 13),
                    }),
                decreases 13 - k,
            {
                let rank = Rank::at(k);
                cards.push(Card { suit, rank });
                assert((13 * s + k) as int / 13 == s as int && (13 * s + k) as int % 13 == k as int)
                    by (nonlinear_arith)
                    requires k < 13;
                k = k + 1;
            }
            s = s + 1;
        }
        Deck { cards }
    }

    /// Puts the cards in a random order.
    pub fn shuffle(&mut self)
        ensures
            final(self).cards@.to_multiset() == old(self).cards@.to_multiset(),
    {
        shuffle_cards(&mut self.cards);
    }
}

/// A game of war between the player and the computer, each holding a pile
/// of cards whose front is played next.
#[derive(Debug)]
pub struct War {
    pub player: VecDeque<Card>,
    pub computer: VecDeque<Card>,
    pub seconds_rest: u64,
}

impl War {
    /// A new game: a shuffled deck, its first 26 cards to the player and the
    /// other 26 to the computer.
    pub fn new(seconds_rest: u64) -> (r: War)
        ensures
            r.player@.len() == 26,
            r.computer@.len() == 26,
            (r.player@ + r.computer@).to_multiset() == Deck::new_deck_cards().to_multiset(),
            r.seconds_rest == seconds_rest,
    {
        let mut deck = Deck::new();
        proof {
            assert(deck.cards@ =~= Deck::new_deck_cards());
        }
        let ghost before = deck.cards@;
        deck.shuffle();
        proof {
            vstd::seq_lib::to_multiset_len(before);
            vstd::seq_lib::to_multiset_len(deck.cards@);
        }
        let mut player: VecDeque<Card> = VecDeque::new();
        let mut computer: VecDeque<Card> = VecDeque::new();
        let mut i: usize = 0;
        while i < 52
            invariant
                deck.cards@.len() == 52,
                i <= 52,
                i <= 26 ==> player@ == deck.cards@.subrange(0, i as int) && computer@.len() == 0,
                i > 26 ==> player@ == deck.cards@.subrange(0, 26) && computer@ == deck.cards@.subrange(
                    26,
                    i as int,
                ),
            decreases 52 - i,
        {
            if i < 26 {
                player.push_back(deck.cards[i]);
                assert(player@ =~= deck.cards@.subrange(0, i + 1));
            } else {
                computer.push_back(deck.cards[i]);
                assert(computer@ =~= deck.cards@.subrange(26, i + 1));
            }
            i = i + 1;
        }
        assert(player@ + computer@ =~= deck.cards@);
        assert(before =~= Deck::new_deck_cards());
        War { player, computer, seconds_rest }
    }
}

/// A card for a war: from a pile of two or more the second card (the first
/// is laid face down into the pot), from a pile of one its card, and from an
/// empty pile the fallback, with `true` to mark that it was the last card.
/// Gives the card, the pile and pot afterwards, and that mark.
pub open spec fn war_draw(pile: Seq<Card>, pot: Seq<Card>, fallback: Card) -> (Card, Seq<Card>, Seq<Card>, bool) {
    if pile.len() == 0 {
        (fallback, pile, pot, true)
    } else if pile.len() == 1 {
        (pile[0], pile.skip(1), pot, false)
    } else {
        (pile[1], pile.skip(2), pot.push(pile[0]), false)
    }
}

/// The piles after a war fought over `pot`, whose first two cards are the
/// tied pair that started it. Each side draws; the higher card takes the
/// pot, and another tie fights on. When both piles are empty the war cannot
/// go on: the piles stay empty and the pot is set aside.
pub open spec fn war_result(player: Seq<Card>, computer: Seq<Card>, pot: Seq<Card>) -> (Seq<Card>, Seq<Card>)
    decreases player.len() + computer.len(),
{
    if player.len() == 0 && computer.len() == 0 {
        (player, computer)
    } else {
        let (pc, p2, pot1, l1) = war_draw(player, pot, pot[0]);
        let (cc, c2, pot2, l2) = war_draw(computer, pot1, pot[1]);
        let last = l1 || l2;
        if rank_value(pc.rank) > rank_value(cc.rank) {
            (p2 + (if !last { pot2.push(pc) } else { pot2 }).push(cc), c2)
        } else if rank_value(pc.rank) < rank_value(cc.rank) {
            (p2, c2 + (if !last { pot2.push(pc).push(cc) } else { pot2.push(pc) }))
        } else {
            war_result(p2, c2, pot2.push(pc).push(cc))
        }
    }
}

/// The piles after one round, and whether the game goes on: no round is
/// played when a pile is empty; otherwise each side plays its front card and
/// the higher card takes both, a tie starting a war.
pub open spec fn round_result(player: Seq<Card>, computer: Seq<Card>) -> (Seq<Card>, Seq<Card>, bool) {
    if player.len() == 0 || computer.len() == 0 {
        (player, computer, false)
    } else {
        let p = player[0];
        let c = computer[0];
        let pr = player.skip(1);
        let cr = computer.skip(1);
        if rank_value(p.rank) > rank_value(c.rank) {
            (pr + seq![p, c], cr, true)
        } else if rank_value(p.rank) < rank_value(c.rank) {
            (pr, cr + seq![p, c], true)
        } else {
            let (a, b) = war_result(pr, cr, seq![p, c]);
            (a, b, true)
        }
    }
}

/// Appends `cards` to the back of `pile`.
fn extend_pile(pile: &mut VecDeque<Card>, cards: &Vec<Card>)
    ensures
        final(pile)@ == old(pile)@ + cards@,
{
    let ghost start = pile@;
    let mut i: usize = 0;
    while i < cards.len()
        invariant
            i <= cards@.len(),
            pile@ == start + cards@.subrange(0, i as int),
        decreases cards.len() - i,
    {
        pile.push_back(cards[i]);
        assert(pile@ =~= start + cards@.subrange(0, i + 1));
        i = i + 1;
    }
    assert(cards@.subrange(0, cards@.len() as int) =~= cards@);
}

/// Takes a card from a pile for a war, as `war_draw` describes.
fn draw_for_war(pile: &mut VecDeque<Card>, pot: &mut Vec<Card>, fallback: Card) -> (r: (Card, bool))
    ensures
        ({
            let (card, rest, pot_after, last) = war_draw(old(pile)@, old(pot)@, fallback);
            r == (card, last) && final(pile)@ == rest && final(pot)@ == pot_after
        }),
{
    let n = pile.len();
    if n == 0 {
        (fallback, true)
    } else if n == 1 {
        let card = pile.pop_front().unwrap();
        (card, false)
    } else {
        let discard = pile.pop_front().unwrap();
        pot.push(discard);
        let card = pile.pop_front().unwrap();
        proof {
            assert(pile@ =~= old(pile)@.skip(2));
        }
        (card, false)
    }
}

impl War {
    /// Plays one round; `false` when a pile was already empty and the game
    /// is over.
    pub fn play_round(&mut self) -> (r: bool)
        ensures
            (final(self).player@, final(self).computer@, r) == round_result(old(self).player@, old(self).computer@),
            final(self).seconds_rest == old(self).seconds_rest,
    {
        if self.player.len() == 0 {
            return false;
        }
        if self.computer.len() == 0 {
            return false;
        }
        let player_card = self.player.pop_front().unwrap();
        let computer_card = self.computer.pop_front().unwrap();
        proof {
            assert(self.player@ =~= old(self).player@.skip(1));
            assert(self.computer@ =~= old(self).computer@.skip(1));
        }
        let mut winning_cards: Vec<Card> = Vec::new();
        winning_cards.push(player_card);
        winning_cards.push(computer_card);
        assert(winning_cards@ =~= seq![player_card, computer_card]);
        let p = player_card.rank.to_u8();
        let c = computer_card.rank.to_u8();
        if p > c {
            extend_pile(&mut self.player, &winning_cards);
        } else if p < c {
            extend_pile(&mut self.computer, &winning_cards);
        } else {
            self.resolve_war(winning_cards);
        }
        true
    }

    /// Fights a war over `winning_cards`, whose first two cards are the tied
    /// pair.
    fn resolve_war(&mut self, winning_cards: Vec<Card>)
        requires
            winning_cards@.len() >= 2,
        ensures
            (final(self).player@, final(self).computer@) == war_result(old(self).player@, old(self).computer@, winning_cards@),
            final(self).seconds_rest == old(self).seconds_rest,
    {
        let mut pot = winning_cards;
        let first = pot[0];
        let second = pot[1];
        loop
            invariant
                pot@.len() >= 2,
                pot@[0] == first,
                pot@[1] == second,
                self.seconds_rest == old(self).seconds_rest,
                war_result(self.player@, self.computer@, pot@) == war_result(old(self).player@, old(self).computer@, winning_cards@),
            decreases self.player@.len() + self.computer@.len(),
        {
            if self.player.len() == 0 && self.computer.len() == 0 {
                return;
            }
            let (player_card, l1) = draw_for_war(&mut self.player, &mut pot, first);
            let (computer_card, l2) = draw_for_war(&mut self.computer, &mut pot, second);
            let last_card = l1 || l2;
            let p = player_card.rank.to_u8();
            let c = computer_card.rank.to_u8();
            if p > c {
                if !last_card {
                    pot.push(player_card);
                }
                pot.push(computer_card);
                extend_pile(&mut self.player, &pot);
                return;
            } else if p < c {
                pot.push(player_card);
                if !last_card {
                    pot.push(computer_card);
                }
                extend_pile(&mut self.computer, &pot);
                return;
            } else {
                pot.push(player_card);
                pot.push(computer_card);
            }
        }
    }
}

} // verus!
