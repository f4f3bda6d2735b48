use crate::cards::{after_deals, Card, Deck, Hand};
use vstd::prelude::*;

verus! {

/// Number of cards each player receives in the opening deal.
pub const HAND_SIZE: usize = 10;

/// A player, who owns exactly one hand.
pub struct Player {
    pub hand: Hand,
}

impl Player {
    /// A player with an empty hand.
    pub fn new() -> (p: Player)
        ensures
            p.hand@ == Seq::<Card>::empty(),
    {
        Player { hand: Hand::new() }
    }
}

/// The cards of the opening deal that go to the first (`first == true`) or
/// second player: deals alternate from the top, the first player first.
pub open spec fn opening_hand(d: Seq<Card>, first: bool) -> Seq<Card> {
    Seq::new(
        HAND_SIZE as nat,
        |i: int| d[d.len() - 1 - 2 * i - if first {
            0int
        } else {
            1int
        }],
    )
}

/// Deals `HAND_SIZE` cards to each of two new players, alternately from the
/// top of the deck, the first player first. When the deck holds fewer than
/// twice `HAND_SIZE` cards nothing is dealt and `None` is returned.
pub fn deal_opening(deck: &mut Deck) -> (r: Option<(Player, Player)>)
    ensures
        old(deck)@.len() < 2 * HAND_SIZE ==> r is None && final(deck)@ == old(deck)@,
        old(deck)@.len() >= 2 * HAND_SIZE ==> r is Some && ({
            let (p, q) = r->Some_0;
            &&& p.hand@ == opening_hand(old(deck)@, true)
            &&& q.hand@ == opening_hand(old(deck)@, false)
            &&& final(deck)@ == after_deals(old(deck)@, (2 * HAND_SIZE) as nat)
        }),
{
    if deck.len() < 2 * HAND_SIZE {
        return None;
    }
    let ghost d = deck@;
    let mut player = Player::new();
    let mut dealer = Player::new();
    let mut i: usize = 0;
    while i < HAND_SIZE
        invariant
            d.len() >= 2 * HAND_SIZE,
            i <= HAND_SIZE,
            deck@ == d.take(d.len() - 2 * i),
            player.hand@ == opening_hand(d, true).take(i as int),
            dealer.hand@ == opening_hand(d, false).take(i as int),
        decreases HAND_SIZE - i,
    {
        let a = deck.deal();
        let b = deck.deal();
        match (a, b) {
            (Some(a), Some(b)) => {
                player.hand.add_card(a);
                dealer.hand.add_card(b);
            },
            _ => {},
        }
        proof {
            assert(deck@ =~= d.take(d.len() - 2 * (i + 1)));
            assert(player.hand@ =~= opening_hand(d, true).take(i + 1));
            assert(dealer.hand@ =~= opening_hand(d, false).take(i + 1));
        }
        i = i + 1;
    }
    proof {
        crate::cards::lemma_deals_exhaust(d, (2 * HAND_SIZE) as nat);
        assert(player.hand@ =~= opening_hand(d, true));
        assert(dealer.hand@ =~= opening_hand(d, false));
    }
    Some((player, dealer))
}

} // verus!
