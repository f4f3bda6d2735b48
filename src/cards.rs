use rand::seq::SliceRandom;
use vstd::prelude::*;
use vstd::string::StringExecFns;

verus! {

/// The four suits of a standard deck.
#[derive(Debug, Clone, Copy, PartialEq, Eq, Hash, Structural)]
pub enum Suit {
    Clubs,
    Diamonds,
    Hearts,
    Spades,
}

/// The thirteen ranks, Ace low.
#[derive(Debug, Clone, Copy, PartialEq, Eq, Hash, Structural)]
pub enum Rank {
    Ace,
    Two,
    Three,
    Four,
    Five,
    Six,
    Seven,
    Eight,
    Nine,
    Ten,
    Jack,
    Queen,
    King,
}

/// Position of a suit in deck order (Clubs, Diamonds, Hearts, Spades).
pub open spec fn suit_index(s: Suit) -> int {
    match s {
        Suit::Clubs => 0,
        Suit::Diamonds => 1,
        Suit::Hearts => 2,
        Suit::Spades => 3,
    }
}

/// The suit at a position of deck order.
pub open spec fn suit_at(i: int) -> Suit {
    if i == 0 {
        Suit::Clubs
    } else if i == 1 {
        Suit::Diamonds
    } else if i == 2 {
        Suit::Hearts
    } else {
        Suit::Spades
    }
}

/// Position of a rank: Ace is 0, King is 12; adjacent ranks differ by one.
pub open spec fn rank_index(r: Rank) -> int {
    match r {
        Rank::Ace => 0,
        Rank::Two => 1,
        Rank::Three => 2,
        Rank::Four => 3,
        Rank::Five => 4,
        Rank::Six => 5,
        Rank::Seven => 6,
        Rank::Eight => 7,
        Rank::Nine => 8,
        Rank::Ten => 9,
        Rank::Jack => 10,
        Rank::Queen => 11,
        Rank::King => 12,
    }
}

/// The rank at a position (0 is Ace, 12 is King).
pub open spec fn rank_at(i: int) -> Rank {
    if i == 0 {
        Rank::Ace
    } else if i == 1 {
        Rank::Two
    } else if i == 2 {
        Rank::Three
    } else if i == 3 {
        Rank::Four
    } else if i == 4 {
        Rank::Five
    } else if i == 5 {
        Rank::Six
    } else if i == 6 {
        Rank::Seven
    } else if i == 7 {
        Rank::Eight
    } else if i == 8 {
        Rank::Nine
    } else if i == 9 {
        Rank::Ten
    } else if i == 10 {
        Rank::Jack
    } else if i == 11 {
        Rank::Queen
    } else {
        Rank::King
    }
}

/// Point value of a rank: Ace 1, Two to Nine their face value, the rest 10.
pub open spec fn rank_points(r: Rank) -> int {
    if rank_index(r) >= 9 {
        10
    } else {
        rank_index(r) + 1
    }
}

pub proof fn lemma_suit_index_round_trip(s: Suit)
    ensures
        0 <= suit_index(s) < 4,
        suit_at(suit_index(s)) == s,
{
}

pub proof fn lemma_rank_index_round_trip(r: Rank)
    ensures
        0 <= rank_index(r) < 13,
        rank_at(rank_index(r)) == r,
{
}

impl Suit {
    /// The suit at position `i` of deck order.
    pub fn from_index(i: usize) -> (s: Suit)
        requires
            i < 4,
        ensures
            s == suit_at(i as int),
            suit_index(s) == i,
    {
        if i == 0 {
            Suit::Clubs
        } else if i == 1 {
            Suit::Diamonds
        } else if i == 2 {
            Suit::Hearts
        } else {
            Suit::Spades
        }
    }

    /// Position of this suit in deck order.
    pub fn index(&self) -> (i: usize)
        ensures
            i == suit_index(*self),
    {
        match *self {
            Suit::Clubs => 0,
            Suit::Diamonds => 1,
            Suit::Hearts => 2,
            Suit::Spades => 3,
        }
    }

    /// The symbol that renders this suit.
    pub fn symbol(&self) -> (s: &'static str)
        ensures
            s@ == suit_symbol(*self),
    {
        match *self {
            Suit::Clubs => {
                proof { reveal_strlit("♣"); }
                "♣"
            },
            Suit::Diamonds => {
                proof { reveal_strlit("♦"); }
                "♦"
            },
            Suit::Hearts => {
                proof { reveal_strlit("♥"); }
                "♥"
            },
            Suit::Spades => {
                proof { reveal_strlit("♠"); }
                "♠"
            },
        }
    }
}

pub open spec fn suit_symbol(s: Suit) -> Seq<char> {
    match s {
        Suit::Clubs => seq!['♣'],
        Suit::Diamonds => seq!['♦'],
        Suit::Hearts => seq!['♥'],
        Suit::Spades => seq!['♠'],
    }
}

impl Rank {
    /// The rank at position `i` (0 is Ace, 12 is King).
    pub fn from_index(i: usize) -> (r: Rank)
        requires
            i < 13,
        ensures
            r == rank_at(i as int),
            rank_index(r) == i,
    {
        if i == 0 {
            Rank::Ace
        } else if i == 1 {
            Rank::Two
        } else if i == 2 {
            Rank::Three
        } else if i == 3 {
            Rank::Four
        } else if i == 4 {
            Rank::Five
        } else if i == 5 {
            Rank::Six
        } else if i == 6 {
            Rank::Seven
        } else if i == 7 {
            Rank::Eight
        } else if i == 8 {
            Rank::Nine
        } else if i == 9 {
            Rank::Ten
        } else if i == 10 {
            Rank::Jack
        } else if i == 11 {
            Rank::Queen
        } else {
            Rank::King
        }
    }

    /// Position of this rank: Ace is 0, King is 12.
    pub fn index(&self) -> (i: usize)
        ensures
            i == rank_index(*self),
    {
        match *self {
            Rank::Ace => 0,
            Rank::Two => 1,
            Rank::Three => 2,
            Rank::Four => 3,
            Rank::Five => 4,
            Rank::Six => 5,
            Rank::Seven => 6,
            Rank::Eight => 7,
            Rank::Nine => 8,
            Rank::Ten => 9,
            Rank::Jack => 10,
            Rank::Queen => 11,
            Rank::King => 12,
        }
    }

    /// The one-character code that renders this rank (A, 2 to 9, T, J, Q, K).
    pub fn code(&self) -> (s: &'static str)
        ensures
            s@ == rank_code(*self),
    {
        match *self {
            Rank::Ace => {
                proof { reveal_strlit("A"); }
                "A"
            },
            Rank::Two => {
                proof { reveal_strlit("2"); }
                "2"
            },
            Rank::Three => {
                proof { reveal_strlit("3"); }
                "3"
            },
            Rank::Four => {
                proof { reveal_strlit("4"); }
                "4"
            },
            Rank::Five => {
                proof { reveal_strlit("5"); }
                "5"
            },
            Rank::Six => {
                proof { reveal_strlit("6"); }
                "6"
            },
            Rank::Seven => {
                proof { reveal_strlit("7"); }
                "7"
            },
            Rank::Eight => {
                proof { reveal_strlit("8"); }
                "8"
            },
            Rank::Nine => {
                proof { reveal_strlit("9"); }
                "9"
            },
            Rank::Ten => {
                proof { reveal_strlit("T"); }
                "T"
            },
            Rank::Jack => {
                proof { reveal_strlit("J"); }
                "J"
            },
            Rank::Queen => {
                proof { reveal_strlit("Q"); }
                "Q"
            },
            Rank::King => {
                proof { reveal_strlit("K"); }
                "K"
            },
        }
    }
}

pub open spec fn rank_code(r: Rank) -> Seq<char> {
    match r {
        Rank::Ace => seq!['A'],
        Rank::Two => seq!['2'],
        Rank::Three => seq!['3'],
        Rank::Four => seq!['4'],
        Rank::Five => seq!['5'],
        Rank::Six => seq!['6'],
        Rank::Seven => seq!['7'],
        Rank::Eight => seq!['8'],
        Rank::Nine => seq!['9'],
        Rank::Ten => seq!['T'],
        Rank::Jack => seq!['J'],
        Rank::Queen => seq!['Q'],
        Rank::King => seq!['K'],
    }
}

/// A playing card; two cards are equal when suit and rank are.
#[derive(Debug, Clone, Copy, PartialEq, Eq, Hash, Structural)]
pub struct Card {
    pub suit: Suit,
    pub rank: Rank,
}

/// The rendering of a card: rank code, then suit symbol.
pub open spec fn card_text(c: Card) -> Seq<char> {
    rank_code(c.rank) + suit_symbol(c.suit)
}

impl Card {
    /// Point value of the card when it is not melded.
    pub fn score(&self) -> (r: i32)
        ensures
            r == rank_points(self.rank),
            1 <= r <= 10,
    {
        match self.rank {
            Rank::Ace => 1,
            Rank::Two => 2,
            Rank::Three => 3,
            Rank::Four => 4,
            Rank::Five => 5,
            Rank::Six => 6,
            Rank::Seven => 7,
            Rank::Eight => 8,
            Rank::Nine => 9,
            Rank::Ten | Rank::Jack | Rank::Queen | Rank::King => 10,
        }
    }

    /// Renders the card as its rank code followed by its suit symbol.
    pub fn to_string(&self) -> (s: String)
        ensures
            s@ == card_text(*self),
    {
        let s = String::from_str(self.rank.code());
        s.concat(self.suit.symbol())
    }
}

/// Whether the hand holds the card of suit `s` and rank position `k`.
pub open spec fn has_card(h: Seq<Card>, s: Suit, k: int) -> bool {
    0 <= k < 13 && h.contains(Card { suit: s, rank: rank_at(k) })
}

/// A held card lies in a run meld when some three consecutive ranks of its
/// suit, its own among them, are all held.
pub open spec fn in_run(h: Seq<Card>, c: Card) -> bool {
    let k = rank_index(c.rank);
    let s = c.suit;
    &&& has_card(h, s, k)
    &&& {
        ||| has_card(h, s, k - 2) && has_card(h, s, k - 1)
        ||| has_card(h, s, k - 1) && has_card(h, s, k + 1)
        ||| has_card(h, s, k + 1) && has_card(h, s, k + 2)
    }
}

/// The cards of the hand of rank `r`, in hand order.
pub open spec fn of_rank(h: Seq<Card>, r: Rank) -> Seq<Card>
    decreases h.len(),
{
    if h.len() == 0 {
        seq![]
    } else if h.last().rank == r {
        of_rank(h.drop_last(), r).push(h.last())
    } else {
        of_rank(h.drop_last(), r)
    }
}

/// A held card lies in a set meld when the hand holds three or more cards of its rank.
pub open spec fn in_set(h: Seq<Card>, c: Card) -> bool {
    h.contains(c) && of_rank(h, c.rank).len() >= 3
}

/// A card is melded when it lies in a run meld or in a set meld (or both).
pub open spec fn is_melded(h: Seq<Card>, c: Card) -> bool {
    in_run(h, c) || in_set(h, c)
}

/// The run-meld cards of suit `s` among the ranks below position `n`, ascending.
pub open spec fn run_cards(h: Seq<Card>, s: Suit, n: int) -> Seq<Card>
    decreases n,
{
    if n <= 0 {
        seq![]
    } else {
        let c = Card { suit: s, rank: rank_at(n - 1) };
        if in_run(h, c) {
            run_cards(h, s, n - 1).push(c)
        } else {
            run_cards(h, s, n - 1)
        }
    }
}

/// The run meld of a suit: its melded cards in ascending rank order.
pub open spec fn run_meld(h: Seq<Card>, s: Suit) -> Seq<Card> {
    run_cards(h, s, 13)
}

/// The set meld of a rank: all cards of that rank when there are three or
/// more of them, else nothing.
pub open spec fn set_meld(h: Seq<Card>, r: Rank) -> Seq<Card> {
    if of_rank(h, r).len() >= 3 {
        of_rank(h, r)
    } else {
        seq![]
    }
}

/// What a card adds to the score of hand `h`: nothing when melded, else its points.
pub open spec fn contribution(h: Seq<Card>, c: Card) -> int {
    if is_melded(h, c) {
        0
    } else {
        rank_points(c.rank)
    }
}

/// The sum of the contributions of the first `n` cards of the hand.
pub open spec fn score_upto(h: Seq<Card>, n: int) -> int
    decreases n,
{
    if n <= 0 || n > h.len() {
        0
    } else {
        score_upto(h, n - 1) + contribution(h, h[n - 1])
    }
}

/// The score of a hand: the points of its unmelded cards, each card once.
pub open spec fn hand_score(h: Seq<Card>) -> int {
    score_upto(h, h.len() as int)
}

/// A card is among the hand's cards of rank `r` exactly when it is held and has rank `r`.
pub proof fn lemma_of_rank_contains(h: Seq<Card>, r: Rank, c: Card)
    ensures
        of_rank(h, r).contains(c) <==> (h.contains(c) && c.rank == r),
    decreases h.len(),
{
    if h.len() > 0 {
        let p = h.drop_last();
        lemma_of_rank_contains(p, r, c);
        assert(h =~= p.push(h.last()));
        if h.contains(c) && c.rank == r {
            let j = choose|j: int| 0 <= j < h.len() && h[j] == c;
            if j < h.len() - 1 {
                assert(p[j] == c);
            }
        }
        if of_rank(h, r).contains(c) {
            if h.last().rank == r {
                let q = of_rank(p, r);
                let j = choose|j: int| 0 <= j < q.push(h.last()).len() && q.push(h.last())[j] == c;
                if j < q.len() {
                    assert(q[j] == c);
                } else {
                    assert(h[h.len() - 1] == c);
                }
            }
        }
        if h.contains(c) && c.rank == r && of_rank(p, r).contains(c) && h.last().rank == r {
            let q = of_rank(p, r);
            let j = choose|j: int| 0 <= j < q.len() && q[j] == c;
            assert(q.push(h.last())[j] == c);
        }
        if h.contains(c) && c.rank == r && !p.contains(c) {
            let j = choose|j: int| 0 <= j < h.len() && h[j] == c;
            if j < h.len() - 1 {
                assert(p[j] == c);
            }
            assert(h.last() == c);
            let q = of_rank(p, r);
            assert(q.push(h.last())[q.len() as int] == c);
        }
    }
}

/// A card is among the run-meld cards of suit `s` below position `n` exactly
/// when it has that suit, a rank below `n`, and lies in a run meld.
pub proof fn lemma_run_cards_contains(h: Seq<Card>, s: Suit, n: int, c: Card)
    requires
        0 <= n <= 13,
    ensures
        run_cards(h, s, n).contains(c) <==> (c.suit == s && rank_index(c.rank) < n && in_run(h, c)),
    decreases n,
{
    lemma_rank_index_round_trip(c.rank);
    if n > 0 {
        lemma_run_cards_contains(h, s, n - 1, c);
        let d = Card { suit: s, rank: rank_at(n - 1) };
        let q = run_cards(h, s, n - 1);
        assert(rank_index(rank_at(n - 1)) == n - 1);
        if c == d && in_run(h, d) {
            assert(q.push(d)[q.len() as int] == c);
        }
        if q.contains(c) && in_run(h, d) {
            let j = choose|j: int| 0 <= j < q.len() && q[j] == c;
            assert(q.push(d)[j] == c);
        }
        if in_run(h, d) && q.push(d).contains(c) {
            let j = choose|j: int| 0 <= j < q.push(d).len() && q.push(d)[j] == c;
            if j < q.len() {
                assert(q[j] == c);
            }
        }
    }
}

/// The rendering of a hand: each card's rendering followed by a space.
pub open spec fn hand_text(h: Seq<Card>) -> Seq<char>
    decreases h.len(),
{
    if h.len() == 0 {
        seq![]
    } else {
        hand_text(h.drop_last()) + card_text(h.last()) + seq![' ']
    }
}

/// The cards held by one player, in the order they were dealt.
pub struct Hand {
    pub cards: Vec<Card>,
}

impl View for Hand {
    type V = Seq<Card>;

    open spec fn view(&self) -> Seq<Card> {
        self.cards@
    }
}

/// Whether `v` holds a card equal to `c`.
fn holds(v: &Vec<Card>, c: &Card) -> (r: bool)
    ensures
        r == v@.contains(*c),
{
    let mut i: usize = 0;
    while i < v.len()
        invariant
            i <= v.len(),
            forall|j: int| 0 <= j < i ==> v@[j] != *c,
        decreases v.len() - i,
    {
        if v[i] == *c {
            return true;
        }
        i = i + 1;
    }
    false
}

impl Hand {
    /// An empty hand.
    pub fn new() -> (h: Hand)
        ensures
            h@ == Seq::<Card>::empty(),
    {
        Hand { cards: Vec::new() }
    }

    /// Appends a card to the hand.
    pub fn add_card(&mut self, card: Card)
        ensures
            final(self)@ == old(self)@.push(card),
    {
        self.cards.push(card);
    }

    /// The run melds, one list per suit in deck order. A suit's list holds,
    /// in ascending rank order, each held card of that suit that lies in a
    /// sequence of three or more consecutive held ranks (Ace low, no wrap).
    pub fn run_melds(&self) -> (r: Vec<Vec<Card>>)
        ensures
            r@.len() == 4,
            forall|i: int| 0 <= i < 4 ==> (#[trigger] r@[i])@ == run_meld(self@, suit_at(i)),
    {
        let mut r: Vec<Vec<Card>> = Vec::new();
        let mut si: usize = 0;
        while si < 4
            invariant
                si <= 4,
                r@.len() == si,
                forall|i: int| 0 <= i < si ==> (#[trigger] r@[i])@ == run_meld(self@, suit_at(i)),
            decreases 4 - si,
        {
            let s = Suit::from_index(si);
            let held = self.holdings(s);
            let mut run: Vec<Card> = Vec::new();
            let mut k: usize = 0;
            while k < 13
                invariant
                    k <= 13,
                    held@.len() == 13,
                    forall|j: int| 0 <= j < 13 ==> held@[j] == has_card(self@, s, j),
                    run@ == run_cards(self@, s, k as int),
                decreases 13 - k,
            {
                let c = Card { suit: s, rank: Rank::from_index(k) };
                let below = k >= 2 && held[k - 2] && held[k - 1];
                let around = k >= 1 && k + 1 < 13 && held[k - 1] && held[k + 1];
                let above = k + 2 < 13 && held[k + 1] && held[k + 2];
                if held[k] && (below || around || above) {
                    run.push(c);
                }
                k = k + 1;
            }
            r.push(run);
            si = si + 1;
        }
        r
    }

    /// The cards of rank `r` in hand order.
    fn cards_of_rank(&self, r: Rank) -> (v: Vec<Card>)
        ensures
            v@ == of_rank(self@, r),
    {
        let mut v: Vec<Card> = Vec::new();
        let mut i: usize = 0;
        while i < self.cards.len()
            invariant
                i <= self@.len(),
                v@ == of_rank(self@.take(i as int), r),
            decreases self@.len() - i,
        {
            proof {
                assert(self@.take(i + 1).drop_last() =~= self@.take(i as int));
            }
            if self.cards[i].rank == r {
                v.push(self.cards[i]);
            }
            i = i + 1;
        }
        proof {
            assert(self@.take(self@.len() as int) =~= self@);
        }
        v
    }

    /// The set melds, one list per rank from Ace to King: the cards of that
    /// rank when the hand holds three or more of them, else an empty list.
    pub fn set_melds(&self) -> (r: Vec<Vec<Card>>)
        ensures
            r@.len() == 13,
            forall|i: int| 0 <= i < 13 ==> (#[trigger] r@[i])@ == set_meld(self@, rank_at(i)),
    {
        let mut r: Vec<Vec<Card>> = Vec::new();
        let mut k: usize = 0;
        while k < 13
            invariant
                k <= 13,
                r@.len() == k,
                forall|i: int| 0 <= i < k ==> (#[trigger] r@[i])@ == set_meld(self@, rank_at(i)),
            decreases 13 - k,
        {
            let group = self.cards_of_rank(Rank::from_index(k));
            if group.len() >= 3 {
                r.push(group);
            } else {
                r.push(Vec::new());
            }
            k = k + 1;
        }
        r
    }

    /// Whether a card equal to `card` is held and lies in a run meld or a set meld.
    pub fn card_in_meld(&self, card: &Card) -> (r: bool)
        ensures
            r == is_melded(self@, *card),
    {
        let runs = self.run_melds();
        let sets = self.set_melds();
        let si = card.suit.index();
        let ri = card.rank.index();
        proof {
            lemma_suit_index_round_trip(card.suit);
            lemma_rank_index_round_trip(card.rank);
            lemma_run_cards_contains(self@, card.suit, 13, *card);
            lemma_of_rank_contains(self@, card.rank, *card);
            assert(runs@[si as int]@ == run_meld(self@, card.suit));
            assert(sets@[ri as int]@ == set_meld(self@, card.rank));
        }
        holds(&runs[si], card) || holds(&sets[ri], card)
    }

    /// The score of the hand: the sum of the points of its unmelded cards.
    pub fn score(&self) -> (r: i32)
        requires
            self@.len() <= 100_000_000,
        ensures
            r == hand_score(self@),
    {
        let mut score: i32 = 0;
        let mut i: usize = 0;
        while i < self.cards.len()
            invariant
                i <= self@.len() <= 100_000_000,
                score == score_upto(self@, i as int),
                0 <= score <= 10 * i,
            decreases self@.len() - i,
        {
            let card = self.cards[i];
            if !self.card_in_meld(&card) {
                score = score + card.score();
            }
            i = i + 1;
        }
        score
    }

    /// Renders the hand: each card's rendering followed by a space.
    pub fn to_string(&self) -> (s: String)
        ensures
            s@ == hand_text(self@),
    {
        let mut s = String::new();
        let mut i: usize = 0;
        while i < self.cards.len()
            invariant
                i <= self@.len(),
                s@ == hand_text(self@.take(i as int)),
            decreases self@.len() - i,
        {
            proof {
                assert(self@.take(i + 1).drop_last() =~= self@.take(i as int));
                reveal_strlit(" ");
            }
            let t = self.cards[i].to_string();
            s.append(t.as_str());
            s.append(" ");
            i = i + 1;
        }
        proof {
            assert(self@.take(self@.len() as int) =~= self@);
        }
        s
    }

    /// For each rank position `k`, whether the hand holds the card of suit `s` and rank `k`.
    fn holdings(&self, s: Suit) -> (v: Vec<bool>)
        ensures
            v@.len() == 13,
            forall|k: int| 0 <= k < 13 ==> v@[k] == has_card(self@, s, k),
    {
        let mut v: Vec<bool> = Vec::new();
        let mut k: usize = 0;
        while k < 13
            invariant
                k <= 13,
                v@.len() == k,
                forall|j: int| 0 <= j < k ==> !v@[j],
            decreases 13 - k,
        {
            v.push(false);
            k = k + 1;
        }
        let ghost h = self@;
        let mut i: usize = 0;
        while i < self.cards.len()
            invariant
                h == self@,
                i <= h.len(),
                v@.len() == 13,
                forall|j: int|
                    0 <= j < 13 ==> v@[j] == h.take(i as int).contains(
                        Card { suit: s, rank: rank_at(j) },
                    ),
            decreases h.len() - i,
        {
            let c = self.cards[i];
            proof {
                lemma_rank_index_round_trip(c.rank);
                assert(h.take(i + 1) =~= h.take(i as int).push(c));
                assert forall|j: int| 0 <= j < 13 implies (h.take(i as int).push(c).contains(
                    Card { suit: s, rank: rank_at(j) },
                ) <==> (h.take(i as int).contains(Card { suit: s, rank: rank_at(j) }) || c
                    == Card { suit: s, rank: rank_at(j) })) by {
                    let t = h.take(i as int);
                    let d = Card { suit: s, rank: rank_at(j) };
                    if c == d {
                        assert(t.push(c)[t.len() as int] == d);
                    }
                    if t.contains(d) {
                        let m = choose|m: int| 0 <= m < t.len() && t[m] == d;
                        assert(t.push(c)[m] == d);
                    }
                    if t.push(c).contains(d) {
                        let m = choose|m: int| 0 <= m < t.push(c).len() && t.push(c)[m] == d;
                        if m < t.len() {
                            assert(t[m] == d);
                        }
                    }
                }
            }
            if c.suit == s {
                let k = c.rank.index();
                v.set(k, true);
            }
            i = i + 1;
        }
        proof {
            assert(h.take(h.len() as int) =~= h);
        }
        v
    }
}


/// The 52 cards in deck order: Clubs Ace to King, then Diamonds, Hearts, Spades.
pub open spec fn full_deck() -> Seq<Card> {
    Seq::new(52, |i: int| Card { suit: suit_at(i / 13), rank: rank_at(i % 13) })
}

/// The deck after one deal: the top (last) card removed, if there is one.
pub open spec fn after_deal(d: Seq<Card>) -> Seq<Card> {
    if d.len() > 0 {
        d.drop_last()
    } else {
        d
    }
}

/// The card a deal hands out: the top (last) card, or none from an empty deck.
pub open spec fn dealt_card(d: Seq<Card>) -> Option<Card> {
    if d.len() > 0 {
        Some(d.last())
    } else {
        None
    }
}

/// Relies on rand's `SliceRandom::shuffle` with `thread_rng`: it permutes the
/// slice in place by swaps, so the same cards remain, in some order.
#[verifier::external_body]
fn shuffle_cards(v: &mut Vec<Card>)
    ensures
        final(v)@.len() == old(v)@.len(),
        final(v)@.to_multiset() == old(v)@.to_multiset(),
{
    let mut rng = rand::thread_rng();
    v.shuffle(&mut rng);
}

/// A deck of cards; the top is the end of the sequence.
pub struct Deck {
    cards: Vec<Card>,
}

impl View for Deck {
    type V = Seq<Card>;

    closed spec fn view(&self) -> Seq<Card> {
        self.cards@
    }
}

impl Deck {
    /// A fresh deck of the 52 distinct cards in deck order.
    pub fn new() -> (d: Deck)
        ensures
            d@ == full_deck(),
    {
        let mut cards: Vec<Card> = Vec::with_capacity(52);
        let mut i: usize = 0;
        while i < 52
            invariant
                i <= 52,
                cards@ == full_deck().take(i as int),
            decreases 52 - i,
        {
            let c = Card { suit: Suit::from_index(i / 13), rank: Rank::from_index(i % 13) };
            proof {
                assert(full_deck().take(i + 1) =~= full_deck().take(i as int).push(c));
            }
            cards.push(c);
            i = i + 1;
        }
        proof {
            assert(full_deck().take(52) =~= full_deck());
        }
        Deck { cards }
    }

    /// The cards left in the deck, bottom first.
    pub fn cards(&self) -> (r: &Vec<Card>)
        ensures
            r@ == self@,
    {
        &self.cards
    }

    /// Number of cards left in the deck.
    pub fn len(&self) -> (n: usize)
        ensures
            n == self@.len(),
    {
        self.cards.len()
    }

    /// Puts the remaining cards in a random order; the same cards remain.
    pub fn shuffle(&mut self)
        ensures
            final(self)@.len() == old(self)@.len(),
            final(self)@.to_multiset() == old(self)@.to_multiset(),
    {
        shuffle_cards(&mut self.cards);
    }

    /// Removes and returns the top card, or `None` when the deck is empty.
    pub fn deal(&mut self) -> (c: Option<Card>)
        ensures
            c == dealt_card(old(self)@),
            final(self)@ == after_deal(old(self)@),
    {
        self.cards.pop()
    }
}

/// The number of cards of `d` that satisfy `p`.
pub open spec fn count_where(d: Seq<Card>, p: spec_fn(Card) -> bool) -> nat
    decreases d.len(),
{
    if d.len() == 0 {
        0
    } else {
        count_where(d.drop_last(), p) + if p(d.last()) {
            1nat
        } else {
            0nat
        }
    }
}

proof fn lemma_full_deck_prefix_counts(n: int, s: Suit, r: Rank)
    requires
        0 <= n <= 52,
    ensures
        count_where(full_deck().take(n), |c: Card| c.suit == s) == if n <= 13 * suit_index(s) {
            0
        } else if n >= 13 * suit_index(s) + 13 {
            13
        } else {
            n - 13 * suit_index(s)
        },
        count_where(full_deck().take(n), |c: Card| c.rank == r) == n / 13 + if n % 13
            > rank_index(r) {
            1int
        } else {
            0int
        },
        count_where(full_deck().take(n), |c: Card| c == Card { suit: s, rank: r }) == if n > 13
            * suit_index(s) + rank_index(r) {
            1int
        } else {
            0int
        },
    decreases n,
{
    lemma_suit_index_round_trip(s);
    lemma_rank_index_round_trip(r);
    if n > 0 {
        let m = n - 1;
        lemma_full_deck_prefix_counts(m, s, r);
        assert(full_deck().take(n).drop_last() =~= full_deck().take(m));
        let c = full_deck()[m];
        assert(full_deck().take(n).last() == c);
        assert(0 <= m / 13 < 4);
        assert(0 <= m % 13 < 13);
        assert(m == 13 * (m / 13) + m % 13);
        assert(c.suit == s <==> m / 13 == suit_index(s));
        assert(c.rank == r <==> m % 13 == rank_index(r));
        if m % 13 == 12 {
            assert(n / 13 == m / 13 + 1);
            assert(n % 13 == 0);
        } else {
            assert(n / 13 == m / 13);
            assert(n % 13 == m % 13 + 1);
        }
    }
}

/// A fresh deck holds 52 cards: each suit 13 times, each rank 4 times, and
/// each pair of suit and rank exactly once.
pub proof fn lemma_full_deck_contents(s: Suit, r: Rank)
    ensures
        full_deck().len() == 52,
        count_where(full_deck(), |c: Card| c.suit == s) == 13,
        count_where(full_deck(), |c: Card| c.rank == r) == 4,
        count_where(full_deck(), |c: Card| c == Card { suit: s, rank: r }) == 1,
{
    lemma_full_deck_prefix_counts(52, s, r);
    lemma_suit_index_round_trip(s);
    lemma_rank_index_round_trip(r);
    assert(full_deck().take(52) =~= full_deck());
}

/// The deck after `n` deals.
pub open spec fn after_deals(d: Seq<Card>, n: nat) -> Seq<Card>
    decreases n,
{
    if n == 0 {
        d
    } else {
        after_deal(after_deals(d, (n - 1) as nat))
    }
}

/// Each deal removes one card while any are left: after `n` deals a deck of
/// `d.len()` cards holds `d.len() - n` of them (none once `n` reaches
/// `d.len()`), and from then on every deal hands out no card.
pub proof fn lemma_deals_exhaust(d: Seq<Card>, n: nat)
    ensures
        after_deals(d, n).len() == if n <= d.len() {
            d.len() - n
        } else {
            0
        },
        after_deals(d, n) == d.take(after_deals(d, n).len() as int),
        n >= d.len() ==> dealt_card(after_deals(d, n)) == None::<Card>,
    decreases n,
{
    if n == 0 {
        assert(d.take(d.len() as int) =~= d);
    } else {
        lemma_deals_exhaust(d, (n - 1) as nat);
        let p = after_deals(d, (n - 1) as nat);
        if p.len() > 0 {
            assert(p.drop_last() =~= d.take(p.len() - 1));
        }
    }
}

/// A fresh deck is empty after 52 deals, and a further deal hands out no card.
pub proof fn lemma_fresh_deck_deals_out()
    ensures
        after_deals(full_deck(), 52).len() == 0,
        dealt_card(after_deals(full_deck(), 52)) == None::<Card>,
{
    lemma_deals_exhaust(full_deck(), 52);
}

/// An empty hand scores 0 and has no run meld and no set meld.
pub proof fn lemma_empty_hand()
    ensures
        hand_score(Seq::<Card>::empty()) == 0,
        forall|s: Suit| (#[trigger] run_meld(Seq::<Card>::empty(), s)).len() == 0,
        forall|r: Rank| (#[trigger] set_meld(Seq::<Card>::empty(), r)).len() == 0,
{
    assert forall|s: Suit| (#[trigger] run_meld(Seq::<Card>::empty(), s)).len() == 0 by {
        let e = Seq::<Card>::empty();
        if run_meld(e, s).len() > 0 {
            let c = run_meld(e, s)[0];
            lemma_run_cards_contains(e, s, 13, c);
            assert(run_meld(e, s).contains(c));
        }
    }
}

/// The sum of the points of the first `n` cards of the hand.
pub open spec fn points_upto(h: Seq<Card>, n: int) -> int
    decreases n,
{
    if n <= 0 || n > h.len() {
        0
    } else {
        points_upto(h, n - 1) + rank_points(h[n - 1].rank)
    }
}

/// The sum of the points of the melded cards among the first `n` of the hand.
pub open spec fn melded_points_upto(h: Seq<Card>, n: int) -> int
    decreases n,
{
    if n <= 0 || n > h.len() {
        0
    } else {
        melded_points_upto(h, n - 1) + if is_melded(h, h[n - 1]) {
            rank_points(h[n - 1].rank)
        } else {
            0
        }
    }
}

proof fn lemma_score_upto_split(h: Seq<Card>, n: int)
    requires
        0 <= n <= h.len(),
    ensures
        score_upto(h, n) == points_upto(h, n) - melded_points_upto(h, n),
        0 <= melded_points_upto(h, n) <= points_upto(h, n),
    decreases n,
{
    if n > 0 {
        lemma_score_upto_split(h, n - 1);
    }
}

/// A card in both a run meld and a set meld is excluded once: the score is
/// the points of all cards less the points of the melded ones, each card
/// counted once, so it lies between 0 and the total points of the hand.
pub proof fn lemma_score_counts_each_card_once(h: Seq<Card>)
    ensures
        hand_score(h) == points_upto(h, h.len() as int) - melded_points_upto(h, h.len() as int),
        0 <= hand_score(h) <= points_upto(h, h.len() as int),
{
    lemma_score_upto_split(h, h.len() as int);
}

} // verus!
