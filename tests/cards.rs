use card_game::cards::{Card, Deck, Hand, Rank, Suit};
use card_game::game::{deal_opening, Player};

const RANKS: [Rank; 13] = [
    Rank::Ace,
    Rank::Two,
    Rank::Three,
    Rank::Four,
    Rank::Five,
    Rank::Six,
    Rank::Seven,
    Rank::Eight,
    Rank::Nine,
    Rank::Ten,
    Rank::Jack,
    Rank::Queen,
    Rank::King,
];

const SUITS: [Suit; 4] = [Suit::Clubs, Suit::Diamonds, Suit::Hearts, Suit::Spades];

fn card(suit: Suit, rank: Rank) -> Card {
    Card { suit, rank }
}

fn hand_of(cards: &[Card]) -> Hand {
    let mut h = Hand::new();
    for c in cards {
        h.add_card(*c);
    }
    h
}

fn key(c: &Card) -> usize {
    c.suit.index() * 13 + c.rank.index()
}

#[test]
fn new_deck_has_52_cards() {
    assert_eq!(Deck::new().cards().len(), 52);
}

#[test]
fn new_deck_has_correct_cards() {
    let deck: Deck = Deck::new();

    let mut clubs = 0;
    let mut diamonds = 0;
    let mut hearts = 0;
    let mut spades = 0;

    let mut aces = 0;
    let mut twos = 0;
    let mut threes = 0;
    let mut fours = 0;
    let mut fives = 0;
    let mut sixes = 0;
    let mut sevens = 0;
    let mut eights = 0;
    let mut nines = 0;
    let mut tens = 0;
    let mut jacks = 0;
    let mut queens = 0;
    let mut kings = 0;

    for i in deck.cards() {
        match i.suit {
            Suit::Clubs => clubs += 1,
            Suit::Diamonds => diamonds += 1,
            Suit::Hearts => hearts += 1,
            Suit::Spades => spades += 1,
        };
        match i.rank {
            Rank::Ace => aces += 1,
            Rank::Two => twos += 1,
            Rank::Three => threes += 1,
            Rank::Four => fours += 1,
            Rank::Five => fives += 1,
            Rank::Six => sixes += 1,
            Rank::Seven => sevens += 1,
            Rank::Eight => eights += 1,
            Rank::Nine => nines += 1,
            Rank::Ten => tens += 1,
            Rank::Jack => jacks += 1,
            Rank::Queen => queens += 1,
            Rank::King => kings += 1,
        };
    }

    let exp_suit_in_deck: usize = 13;
    let exp_rank_in_deck: usize = 4;
    assert_eq!(clubs, exp_suit_in_deck);
    assert_eq!(diamonds, exp_suit_in_deck);
    assert_eq!(hearts, exp_suit_in_deck);
    assert_eq!(spades, exp_suit_in_deck);
    assert_eq!(aces, exp_rank_in_deck);
    assert_eq!(twos, exp_rank_in_deck);
    assert_eq!(threes, exp_rank_in_deck);
    assert_eq!(fours, exp_rank_in_deck);
    assert_eq!(fives, exp_rank_in_deck);
    assert_eq!(sixes, exp_rank_in_deck);
    assert_eq!(sevens, exp_rank_in_deck);
    assert_eq!(eights, exp_rank_in_deck);
    assert_eq!(nines, exp_rank_in_deck);
    assert_eq!(tens, exp_rank_in_deck);
    assert_eq!(jacks, exp_rank_in_deck);
    assert_eq!(queens, exp_rank_in_deck);
    assert_eq!(kings, exp_rank_in_deck);
}

#[test]
fn new_deck_is_in_suit_major_order_without_duplicates() {
    let deck = Deck::new();
    let mut seen = [false; 52];
    for (i, c) in deck.cards().iter().enumerate() {
        assert_eq!(c.suit, SUITS[i / 13]);
        assert_eq!(c.rank, RANKS[i % 13]);
        assert!(!seen[key(c)]);
        seen[key(c)] = true;
    }
    assert!(seen.iter().all(|s| *s));
}

#[test]
fn card_scores_follow_rank() {
    let expected = [1, 2, 3, 4, 5, 6, 7, 8, 9, 10, 10, 10, 10];
    for s in SUITS {
        for (r, e) in RANKS.iter().zip(expected.iter()) {
            assert_eq!(card(s, *r).score(), *e);
        }
    }
}

#[test]
fn card_renders_rank_then_suit() {
    assert_eq!(card(Suit::Clubs, Rank::Ace).to_string(), "A♣");
    assert_eq!(card(Suit::Diamonds, Rank::Ten).to_string(), "T♦");
    assert_eq!(card(Suit::Hearts, Rank::Seven).to_string(), "7♥");
    assert_eq!(card(Suit::Spades, Rank::King).to_string(), "K♠");
}

#[test]
fn hand_renders_cards_with_trailing_spaces() {
    let h = hand_of(&[card(Suit::Clubs, Rank::Three), card(Suit::Hearts, Rank::Queen)]);
    assert_eq!(h.to_string(), "3♣ Q♥ ");
    assert_eq!(Hand::new().to_string(), "");
}

#[test]
fn shuffle_keeps_the_same_cards() {
    let mut deck = Deck::new();
    deck.shuffle();
    assert_eq!(deck.len(), 52);
    let mut keys: Vec<usize> = deck.cards().iter().map(key).collect();
    keys.sort();
    assert_eq!(keys, (0..52).collect::<Vec<usize>>());
}

#[test]
fn shuffle_changes_the_order() {
    let fresh = Deck::new();
    let mut deck = Deck::new();
    deck.shuffle();
    assert_ne!(deck.cards(), fresh.cards());
}

#[test]
fn deal_takes_from_the_top_until_empty() {
    let mut deck = Deck::new();
    assert_eq!(deck.deal(), Some(card(Suit::Spades, Rank::King)));
    assert_eq!(deck.len(), 51);
    assert_eq!(deck.deal(), Some(card(Suit::Spades, Rank::Queen)));
    assert_eq!(deck.len(), 50);
    for n in (0..50).rev() {
        assert!(deck.deal().is_some());
        assert_eq!(deck.len(), n);
    }
    assert_eq!(deck.deal(), None);
    assert_eq!(deck.deal(), None);
    assert_eq!(deck.len(), 0);
}

#[test]
fn run_meld_in_clubs() {
    let h = hand_of(&[
        card(Suit::Clubs, Rank::Three),
        card(Suit::Clubs, Rank::Four),
        card(Suit::Clubs, Rank::Five),
        card(Suit::Hearts, Rank::Nine),
    ]);
    let runs = h.run_melds();
    assert_eq!(
        runs[0],
        vec![
            card(Suit::Clubs, Rank::Three),
            card(Suit::Clubs, Rank::Four),
            card(Suit::Clubs, Rank::Five)
        ]
    );
    assert!(runs[1].is_empty() && runs[2].is_empty() && runs[3].is_empty());
    assert!(!h.card_in_meld(&card(Suit::Hearts, Rank::Nine)));
    assert!(h.card_in_meld(&card(Suit::Clubs, Rank::Four)));
    assert_eq!(h.score(), 9);
}

#[test]
fn run_meld_ending_at_last_card_is_kept() {
    let h = hand_of(&[
        card(Suit::Clubs, Rank::Ace),
        card(Suit::Clubs, Rank::Two),
        card(Suit::Clubs, Rank::Three),
    ]);
    assert_eq!(
        h.run_melds()[0],
        vec![
            card(Suit::Clubs, Rank::Ace),
            card(Suit::Clubs, Rank::Two),
            card(Suit::Clubs, Rank::Three)
        ]
    );
    assert_eq!(h.score(), 0);
}

#[test]
fn run_meld_ignores_hand_order_and_gaps() {
    let h = hand_of(&[
        card(Suit::Spades, Rank::King),
        card(Suit::Spades, Rank::Ten),
        card(Suit::Spades, Rank::Queen),
        card(Suit::Spades, Rank::Jack),
        card(Suit::Spades, Rank::Eight),
        card(Suit::Spades, Rank::Two),
        card(Suit::Spades, Rank::Ace),
    ]);
    assert_eq!(
        h.run_melds()[3],
        vec![
            card(Suit::Spades, Rank::Ten),
            card(Suit::Spades, Rank::Jack),
            card(Suit::Spades, Rank::Queen),
            card(Suit::Spades, Rank::King)
        ]
    );
    assert_eq!(h.score(), 8 + 2 + 1);
}

#[test]
fn no_wraparound_from_king_to_ace() {
    let h = hand_of(&[
        card(Suit::Hearts, Rank::Queen),
        card(Suit::Hearts, Rank::King),
        card(Suit::Hearts, Rank::Ace),
    ]);
    assert!(h.run_melds()[2].is_empty());
    assert_eq!(h.score(), 21);
}

#[test]
fn set_meld_of_sevens() {
    let h = hand_of(&[
        card(Suit::Clubs, Rank::Seven),
        card(Suit::Diamonds, Rank::Seven),
        card(Suit::Hearts, Rank::Seven),
        card(Suit::Spades, Rank::Two),
    ]);
    let sets = h.set_melds();
    assert_eq!(
        sets[6],
        vec![
            card(Suit::Clubs, Rank::Seven),
            card(Suit::Diamonds, Rank::Seven),
            card(Suit::Hearts, Rank::Seven)
        ]
    );
    assert!(sets[1].is_empty());
    assert!(!h.card_in_meld(&card(Suit::Spades, Rank::Two)));
    assert_eq!(h.score(), 2);
}

#[test]
fn pair_is_no_set_meld() {
    let h = hand_of(&[card(Suit::Clubs, Rank::Nine), card(Suit::Hearts, Rank::Nine)]);
    assert!(h.set_melds().iter().all(|s| s.is_empty()));
    assert_eq!(h.score(), 18);
}

#[test]
fn empty_hand_scores_zero_and_has_no_melds() {
    let h = Hand::new();
    assert_eq!(h.score(), 0);
    assert_eq!(h.run_melds().len(), 4);
    assert!(h.run_melds().iter().all(|m| m.is_empty()));
    assert_eq!(h.set_melds().len(), 13);
    assert!(h.set_melds().iter().all(|m| m.is_empty()));
}

#[test]
fn card_in_run_and_set_is_excluded_once() {
    let h = hand_of(&[
        card(Suit::Clubs, Rank::Five),
        card(Suit::Clubs, Rank::Six),
        card(Suit::Clubs, Rank::Seven),
        card(Suit::Diamonds, Rank::Seven),
        card(Suit::Hearts, Rank::Seven),
        card(Suit::Spades, Rank::King),
        card(Suit::Diamonds, Rank::Four),
    ]);
    assert!(h.run_melds()[0].contains(&card(Suit::Clubs, Rank::Seven)));
    assert!(h.set_melds()[6].contains(&card(Suit::Clubs, Rank::Seven)));
    assert!(h.card_in_meld(&card(Suit::Clubs, Rank::Seven)));
    assert_eq!(h.score(), 10 + 4);
}

#[test]
fn card_not_in_hand_is_not_melded() {
    let h = hand_of(&[
        card(Suit::Clubs, Rank::Three),
        card(Suit::Clubs, Rank::Four),
        card(Suit::Clubs, Rank::Five),
    ]);
    assert!(!h.card_in_meld(&card(Suit::Diamonds, Rank::Four)));
}

#[test]
fn opening_deal_alternates_from_the_top() {
    let mut deck = Deck::new();
    let (player, dealer) = deal_opening(&mut deck).unwrap();
    assert_eq!(deck.len(), 32);
    assert_eq!(player.hand.cards.len(), 10);
    assert_eq!(dealer.hand.cards.len(), 10);
    assert_eq!(player.hand.cards[0], card(Suit::Spades, Rank::King));
    assert_eq!(dealer.hand.cards[0], card(Suit::Spades, Rank::Queen));
    assert_eq!(player.hand.cards[1], card(Suit::Spades, Rank::Jack));
    assert_eq!(player.hand.cards[9], card(Suit::Hearts, Rank::Eight));
    assert_eq!(dealer.hand.cards[9], card(Suit::Hearts, Rank::Seven));
}

#[test]
fn opening_deal_from_a_short_deck_deals_nothing() {
    let mut deck = Deck::new();
    for _ in 0..33 {
        deck.deal();
    }
    assert!(deal_opening(&mut deck).is_none());
    assert_eq!(deck.len(), 19);
}

#[test]
fn new_player_has_empty_hand() {
    assert!(Player::new().hand.cards.is_empty());
}
