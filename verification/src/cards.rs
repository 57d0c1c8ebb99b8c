//! Card identity, deck construction and the difficulty-scaled deck composition.

use vstd::prelude::*;

use crate::state::Difficulty;

verus! {

#[derive(Debug, Clone, Copy, PartialEq, Eq, Structural, Hash)]
pub enum Suit {
    Hearts,
    Diamonds,
    Clubs,
    Spades,
}

impl Suit {
    pub fn is_red(&self) -> (r: bool)
        ensures
            r == (*self == Suit::Hearts || *self == Suit::Diamonds),
    {
        matches!(self, Suit::Hearts | Suit::Diamonds)
    }

    pub fn as_str(&self) -> (r: &'static str)
        ensures
            *self == Suit::Hearts ==> r@ == "H"@,
            *self == Suit::Diamonds ==> r@ == "D"@,
            *self == Suit::Clubs ==> r@ == "C"@,
            *self == Suit::Spades ==> r@ == "S"@,
    {
        match self {
            Suit::Hearts => "H",
            Suit::Diamonds => "D",
            Suit::Clubs => "C",
            Suit::Spades => "S",
        }
    }
}

#[derive(Debug, Clone, Copy, PartialEq, Eq, Structural, Hash)]
pub enum Rank {
    Ace,
    Two,
    Three,
    Four,
    Five,
    Six,
    Seven,
    Eight,
    Nine,
    Ten,
    Jack,
    Queen,
    King,
}

/// Numeric value of a rank: Ace is 1, King is 13.
pub open spec fn rank_value_spec(r: Rank) -> int {
    match r {
        Rank::Ace => 1,
        Rank::Two => 2,
        Rank::Three => 3,
        Rank::Four => 4,
        Rank::Five => 5,
        Rank::Six => 6,
        Rank::Seven => 7,
        Rank::Eight => 8,
        Rank::Nine => 9,
        Rank::Ten => 10,
        Rank::Jack => 11,
        Rank::Queen => 12,
        Rank::King => 13,
    }
}

/// The rank at position `i` of the canonical Ace..King ordering.
pub open spec fn rank_of_index(i: int) -> Rank {
    if i == 0 {
        Rank::Ace
    } else if i == 1 {
        Rank::Two
    } else if i == 2 {
        Rank::Three
    } else if i == 3 {
        Rank::Four
    } else if i == 4 {
        Rank::Five
    } else if i == 5 {
        Rank::Six
    } else if i == 6 {
        Rank::Seven
    } else if i == 7 {
        Rank::Eight
    } else if i == 8 {
        Rank::Nine
    } else if i == 9 {
        Rank::Ten
    } else if i == 10 {
        Rank::Jack
    } else if i == 11 {
        Rank::Queen
    } else {
        Rank::King
    }
}

/// Position of a rank in the canonical Ace..King ordering.
pub open spec fn rank_index_spec(r: Rank) -> int {
    rank_value_spec(r) - 1
}

impl Rank {
    pub fn as_str(&self) -> (r: &'static str)
        ensures
            *self == Rank::Ace ==> r@ == "A"@,
            *self == Rank::Two ==> r@ == "2"@,
            *self == Rank::Three ==> r@ == "3"@,
            *self == Rank::Four ==> r@ == "4"@,
            *self == Rank::Five ==> r@ == "5"@,
            *self == Rank::Six ==> r@ == "6"@,
            *self == Rank::Seven ==> r@ == "7"@,
            *self == Rank::Eight ==> r@ == "8"@,
            *self == Rank::Nine ==> r@ == "9"@,
            *self == Rank::Ten ==> r@ == "10"@,
            *self == Rank::Jack ==> r@ == "J"@,
            *self == Rank::Queen ==> r@ == "Q"@,
            *self == Rank::King ==> r@ == "K"@,
    {
        match self {
            Rank::Ace => "A",
            Rank::Two => "2",
            Rank::Three => "3",
            Rank::Four => "4",
            Rank::Five => "5",
            Rank::Six => "6",
            Rank::Seven => "7",
            Rank::Eight => "8",
            Rank::Nine => "9",
            Rank::Ten => "10",
            Rank::Jack => "J",
            Rank::Queen => "Q",
            Rank::King => "K",
        }
    }

    pub fn value(&self) -> (r: u8)
        ensures
            r as int == rank_value_spec(*self),
            1 <= r <= 13,
    {
        match self {
            Rank::Ace => 1,
            Rank::Two => 2,
            Rank::Three => 3,
            Rank::Four => 4,
            Rank::Five => 5,
            Rank::Six => 6,
            Rank::Seven => 7,
            Rank::Eight => 8,
            Rank::Nine => 9,
            Rank::Ten => 10,
            Rank::Jack => 11,
            Rank::Queen => 12,
            Rank::King => 13,
        }
    }

    pub fn all() -> (r: [Rank; 13])
        ensures
            forall|i: int| 0 <= i < 13 ==> r@[i] == rank_of_index(i),
    {
        let r = [
            Rank::Ace,
            Rank::Two,
            Rank::Three,
            Rank::Four,
            Rank::Five,
            Rank::Six,
            Rank::Seven,
            Rank::Eight,
            Rank::Nine,
            Rank::Ten,
            Rank::Jack,
            Rank::Queen,
            Rank::King,
        ];
        r
    }
}

#[derive(Debug, Clone, Copy, PartialEq, Eq, Structural, Hash)]
pub struct Card {
    pub suit: Suit,
    pub rank: Rank,
    pub face_up: bool,
}

impl Card {
    pub fn new(suit: Suit, rank: Rank) -> (c: Card)
        ensures
            c == (Card { suit, rank, face_up: false }),
    {
        Card { suit, rank, face_up: false }
    }

    /// A lifted card may land on `other` iff their ranks are adjacent;
    /// suit is deliberately not part of this placement rule.
    pub fn can_stack_on(&self, other: &Card) -> (r: bool)
        ensures
            r == (rank_value_spec(self.rank) + 1 == rank_value_spec(other.rank)),
    {
        self.rank.value() + 1 == other.rank.value()
    }
}

/// Thirteen face-down cards of one suit, Ace up to King.
pub open spec fn run13(s: Suit) -> Seq<Card> {
    Seq::new(13, |i: int| Card { suit: s, rank: rank_of_index(i), face_up: false })
}

/// One 52-card deck: all four suits, Ace up to King each.
pub open spec fn standard_deck_seq() -> Seq<Card> {
    run13(Suit::Hearts) + run13(Suit::Diamonds) + run13(Suit::Clubs) + run13(Suit::Spades)
}

/// The thirteen ranks, each as a Spade immediately followed by a Heart.
pub open spec fn two_suit_round() -> Seq<Card> {
    Seq::new(
        26,
        |i: int|
            Card {
                suit: if i % 2 == 0 {
                    Suit::Spades
                } else {
                    Suit::Hearts
                },
                rank: rank_of_index(i / 2),
                face_up: false,
            },
    )
}

/// `q` concatenated with itself `n` times.
pub open spec fn repeat_seq(q: Seq<Card>, n: nat) -> Seq<Card>
    decreases n,
{
    if n == 0 {
        Seq::<Card>::empty()
    } else {
        repeat_seq(q, (n - 1) as nat) + q
    }
}

/// The unshuffled 104-card deck of a difficulty: one suit eight times over,
/// two suits four times over, or two full standard decks.
pub open spec fn spider_deck_seq(d: Difficulty) -> Seq<Card> {
    match d {
        Difficulty::Easy => repeat_seq(run13(Suit::Spades), 8),
        Difficulty::Medium => repeat_seq(two_suit_round(), 4),
        Difficulty::Hard => repeat_seq(standard_deck_seq(), 2),
    }
}

impl Card {
    pub fn new_standard_deck() -> (deck: Vec<Card>)
        ensures
            deck@ == standard_deck_seq(),
    {
        let suits = [Suit::Hearts, Suit::Diamonds, Suit::Clubs, Suit::Spades];
        let ranks = Rank::all();
        let mut deck: Vec<Card> = Vec::new();
        let ghost goal = standard_deck_seq();
        for si in 0..4usize
            invariant
                deck@.len() == 13 * si,
                deck@ == goal.take(13 * si as int),
                forall|i: int| 0 <= i < 4 ==> suits@[i] == suit_of_index(i),
                forall|i: int| 0 <= i < 13 ==> ranks@[i] == rank_of_index(i),
                goal == standard_deck_seq(),
        {
            let suit = suits[si];
            for j in 0..13usize
                invariant
                    si < 4,
                    suit == suit_of_index(si as int),
                    deck@.len() == 13 * si + j,
                    deck@ == goal.take(13 * si as int + j as int),
                    forall|i: int| 0 <= i < 13 ==> ranks@[i] == rank_of_index(i),
                    goal == standard_deck_seq(),
            {
                deck.push(Card::new(suit, ranks[j]));
                proof {
                    let k = 13 * si as int + j as int;
                    assert(goal[k] == (Card {
                        suit: suit_of_index(si as int),
                        rank: rank_of_index(j as int),
                        face_up: false,
                    })) by {
                        lemma_standard_deck_index(k);
                    }
                    assert(goal.take(k + 1) =~= goal.take(k).push(goal[k]));
                }
            }
        }
        proof {
            assert(deck@ =~= goal);
        }
        deck
    }

    /// Builds the difficulty's 104-card deck, in the canonical unshuffled order.
    pub fn new_spider_deck(difficulty: Difficulty) -> (deck: Vec<Card>)
        ensures
            deck@ == spider_deck_seq(difficulty),
    {
        let mut deck: Vec<Card> = Vec::new();
        match difficulty {
            Difficulty::Easy => {
                let ranks = Rank::all();
                for round in 0..8usize
                    invariant
                        deck@ == repeat_seq(run13(Suit::Spades), round as nat),
                        forall|i: int| 0 <= i < 13 ==> ranks@[i] == rank_of_index(i),
                {
                    for j in 0..13usize
                        invariant
                            round < 8,
                            deck@ == repeat_seq(run13(Suit::Spades), round as nat) + run13(
                                Suit::Spades,
                            ).take(j as int),
                            forall|i: int| 0 <= i < 13 ==> ranks@[i] == rank_of_index(i),
                    {
                        deck.push(Card::new(Suit::Spades, ranks[j]));
                        proof {
                            let r = run13(Suit::Spades);
                            assert(r.take(j + 1) =~= r.take(j as int).push(r[j as int]));
                        }
                    }
                    proof {
                        let r = run13(Suit::Spades);
                        assert(r.take(13) =~= r);
                        assert(repeat_seq(r, round as nat) + r == repeat_seq(r, round as nat + 1));
                    }
                }
            }
            Difficulty::Medium => {
                let ranks = Rank::all();
                for round in 0..4usize
                    invariant
                        deck@ == repeat_seq(two_suit_round(), round as nat),
                        forall|i: int| 0 <= i < 13 ==> ranks@[i] == rank_of_index(i),
                {
                    for j in 0..13usize
                        invariant
                            round < 4,
                            deck@ == repeat_seq(two_suit_round(), round as nat) + two_suit_round()
                                .take(2 * j as int),
                            forall|i: int| 0 <= i < 13 ==> ranks@[i] == rank_of_index(i),
                    {
                        deck.push(Card::new(Suit::Spades, ranks[j]));
                        deck.push(Card::new(Suit::Hearts, ranks[j]));
                        proof {
                            let r = two_suit_round();
                            let k = 2 * j as int;
                            assert(r.take(k + 2) =~= r.take(k).push(r[k]).push(r[k + 1]));
                        }
                    }
                    proof {
                        let r = two_suit_round();
                        assert(r.take(26) =~= r);
                        assert(repeat_seq(r, round as nat) + r == repeat_seq(r, round as nat + 1));
                    }
                }
            }
            Difficulty::Hard => {
                for round in 0..2usize
                    invariant
                        deck@ == repeat_seq(standard_deck_seq(), round as nat),
                {
                    let mut half = Card::new_standard_deck();
                    deck.append(&mut half);
                    proof {
                        let r = standard_deck_seq();
                        assert(repeat_seq(r, round as nat) + r == repeat_seq(r, round as nat + 1));
                    }
                }
            }
        }
        deck
    }
}

/// The suit at position `i` of the standard-deck suit ordering.
pub open spec fn suit_of_index(i: int) -> Suit {
    if i == 0 {
        Suit::Hearts
    } else if i == 1 {
        Suit::Diamonds
    } else if i == 2 {
        Suit::Clubs
    } else {
        Suit::Spades
    }
}

/// The standard deck at a flat position: suit changes every thirteen cards.
pub proof fn lemma_standard_deck_index(k: int)
    requires
        0 <= k < 52,
    ensures
        standard_deck_seq().len() == 52,
        standard_deck_seq()[k] == (Card {
            suit: suit_of_index(k / 13),
            rank: rank_of_index(k % 13),
            face_up: false,
        }),
{
}

/// How many cards of `s` have the given suit and rank; face orientation is
/// not part of a card's identity.
pub open spec fn count_cards(s: Seq<Card>, suit: Suit, rank: Rank) -> int
    decreases s.len(),
{
    if s.len() == 0 {
        0
    } else {
        count_cards(s.drop_last(), suit, rank) + if s.last().suit == suit && s.last().rank == rank {
            1int
        } else {
            0int
        }
    }
}

pub proof fn lemma_count_concat(a: Seq<Card>, b: Seq<Card>, suit: Suit, rank: Rank)
    ensures
        count_cards(a + b, suit, rank) == count_cards(a, suit, rank) + count_cards(b, suit, rank),
    decreases b.len(),
{
    if b.len() == 0 {
        assert(a + b =~= a);
    } else {
        lemma_count_concat(a, b.drop_last(), suit, rank);
        assert((a + b).drop_last() =~= a + b.drop_last());
        assert((a + b).last() == b.last());
    }
}

pub proof fn lemma_count_repeat(q: Seq<Card>, n: nat, suit: Suit, rank: Rank)
    ensures
        count_cards(repeat_seq(q, n), suit, rank) == n * count_cards(q, suit, rank),
        repeat_seq(q, n).len() == n * q.len(),
    decreases n,
{
    if n == 0 {
    } else {
        lemma_count_repeat(q, (n - 1) as nat, suit, rank);
        lemma_count_concat(repeat_seq(q, (n - 1) as nat), q, suit, rank);
        assert((n - 1) * count_cards(q, suit, rank) + count_cards(q, suit, rank) == n * count_cards(
            q,
            suit,
            rank,
        )) by (nonlinear_arith);
        assert((n - 1) * q.len() + q.len() == n * q.len()) by (nonlinear_arith);
    }
}

/// The canonical rank ordering and its index mapping invert each other.
pub proof fn lemma_rank_index_bijection(i: int, r: Rank)
    requires
        0 <= i < 13,
    ensures
        (rank_of_index(i) == r) <==> (i == rank_index_spec(r)),
{
}

proof fn lemma_count_run13_prefix(s2: Suit, suit: Suit, rank: Rank, j: int)
    requires
        0 <= j <= 13,
    ensures
        count_cards(run13(s2).take(j), suit, rank) == if s2 == suit && rank_index_spec(rank) < j {
            1int
        } else {
            0int
        },
    decreases j,
{
    if j > 0 {
        lemma_count_run13_prefix(s2, suit, rank, j - 1);
        let t = run13(s2).take(j);
        assert(t.drop_last() =~= run13(s2).take(j - 1));
        assert(t.last() == run13(s2)[j - 1]);
        lemma_rank_index_bijection(j - 1, rank);
    }
}

pub proof fn lemma_count_run13(s2: Suit, suit: Suit, rank: Rank)
    ensures
        count_cards(run13(s2), suit, rank) == if s2 == suit {
            1int
        } else {
            0int
        },
{
    lemma_count_run13_prefix(s2, suit, rank, 13);
    assert(run13(s2).take(13) =~= run13(s2));
}

proof fn lemma_count_two_suit_prefix(suit: Suit, rank: Rank, j: int)
    requires
        0 <= j <= 26,
    ensures
        count_cards(two_suit_round().take(j), suit, rank) == if suit == Suit::Spades
            && 2 * rank_index_spec(rank) < j {
            1int
        } else if suit == Suit::Hearts && 2 * rank_index_spec(rank) + 1 < j {
            1int
        } else {
            0int
        },
    decreases j,
{
    if j > 0 {
        lemma_count_two_suit_prefix(suit, rank, j - 1);
        let t = two_suit_round().take(j);
        assert(t.drop_last() =~= two_suit_round().take(j - 1));
        assert(t.last() == two_suit_round()[j - 1]);
        lemma_rank_index_bijection((j - 1) / 2, rank);
    }
}

pub proof fn lemma_count_two_suit_round(suit: Suit, rank: Rank)
    ensures
        count_cards(two_suit_round(), suit, rank) == if suit == Suit::Spades || suit
            == Suit::Hearts {
            1int
        } else {
            0int
        },
{
    lemma_count_two_suit_prefix(suit, rank, 26);
    assert(two_suit_round().take(26) =~= two_suit_round());
}

pub proof fn lemma_count_standard_deck(suit: Suit, rank: Rank)
    ensures
        count_cards(standard_deck_seq(), suit, rank) == 1,
{
    let h = run13(Suit::Hearts);
    let d = run13(Suit::Diamonds);
    let c = run13(Suit::Clubs);
    let s = run13(Suit::Spades);
    lemma_count_concat(h + d + c, s, suit, rank);
    lemma_count_concat(h + d, c, suit, rank);
    lemma_count_concat(h, d, suit, rank);
    lemma_count_run13(Suit::Hearts, suit, rank);
    lemma_count_run13(Suit::Diamonds, suit, rank);
    lemma_count_run13(Suit::Clubs, suit, rank);
    lemma_count_run13(Suit::Spades, suit, rank);
}

/// `count_cards` is the suit/rank occurrence count of the sequence's multiset.
pub proof fn lemma_count_cards_to_multiset(s: Seq<Card>, suit: Suit, rank: Rank)
    ensures
        count_cards(s, suit, rank) == s.to_multiset().count(
            Card { suit, rank, face_up: true },
        ) + s.to_multiset().count(Card { suit, rank, face_up: false }),
    decreases s.len(),
{
    broadcast use vstd::seq_lib::group_to_multiset_ensures;
    broadcast use vstd::multiset::group_multiset_axioms;

    if s.len() == 0 {
        assert(!s.contains(Card { suit, rank, face_up: true }));
        assert(!s.contains(Card { suit, rank, face_up: false }));
    } else {
        let bl = s.drop_last();
        lemma_count_cards_to_multiset(bl, suit, rank);
        assert(bl.push(s.last()) =~= s);
        assert(s.to_multiset() =~= bl.to_multiset().insert(s.last()));
    }
}

/// Sequences with equal multisets hold each suit/rank pair equally often.
pub proof fn lemma_count_cards_permutation(a: Seq<Card>, b: Seq<Card>, suit: Suit, rank: Rank)
    requires
        a.to_multiset() == b.to_multiset(),
    ensures
        count_cards(a, suit, rank) == count_cards(b, suit, rank),
{
    lemma_count_cards_to_multiset(a, suit, rank);
    lemma_count_cards_to_multiset(b, suit, rank);
}

/// The same cards, all turned face down.
pub open spec fn face_down_all(s: Seq<Card>) -> Seq<Card> {
    s.map_values(|c: Card| Card { face_up: false, ..c })
}

/// Turning cards over does not change which suits and ranks are present.
pub proof fn lemma_count_face_down_all(s: Seq<Card>, suit: Suit, rank: Rank)
    ensures
        count_cards(face_down_all(s), suit, rank) == count_cards(s, suit, rank),
    decreases s.len(),
{
    if s.len() > 0 {
        lemma_count_face_down_all(s.drop_last(), suit, rank);
        assert(face_down_all(s).drop_last() =~= face_down_all(s.drop_last()));
        assert(face_down_all(s).last() == (Card { face_up: false, ..s.last() }));
    }
}

/// How many copies of each suit-rank pair a difficulty's deck holds.
pub open spec fn expected_copies(d: Difficulty, suit: Suit) -> int {
    match d {
        Difficulty::Easy => if suit == Suit::Spades {
            8
        } else {
            0
        },
        Difficulty::Medium => if suit == Suit::Spades || suit == Suit::Hearts {
            4
        } else {
            0
        },
        Difficulty::Hard => 2,
    }
}

/// The generated deck has exactly 104 cards, and its suit/rank multiset is
/// the difficulty's specified composition: the same number of copies of every
/// rank, that number depending only on the suit.
pub proof fn lemma_spider_deck_composition(d: Difficulty)
    ensures
        spider_deck_seq(d).len() == 104,
        forall|suit: Suit, rank: Rank|
            count_cards(spider_deck_seq(d), suit, rank) == expected_copies(d, suit),
{
    assert forall|suit: Suit, rank: Rank|
        count_cards(spider_deck_seq(d), suit, rank) == expected_copies(d, suit) by {
        match d {
            Difficulty::Easy => {
                lemma_count_run13(Suit::Spades, suit, rank);
                lemma_count_repeat(run13(Suit::Spades), 8, suit, rank);
            }
            Difficulty::Medium => {
                lemma_count_two_suit_round(suit, rank);
                lemma_count_repeat(two_suit_round(), 4, suit, rank);
            }
            Difficulty::Hard => {
                lemma_count_standard_deck(suit, rank);
                lemma_count_repeat(standard_deck_seq(), 2, suit, rank);
            }
        }
    }
    match d {
        Difficulty::Easy => {
            lemma_count_repeat(run13(Suit::Spades), 8, Suit::Spades, Rank::Ace);
        }
        Difficulty::Medium => {
            lemma_count_repeat(two_suit_round(), 4, Suit::Spades, Rank::Ace);
        }
        Difficulty::Hard => {
            lemma_count_repeat(standard_deck_seq(), 2, Suit::Spades, Rank::Ace);
        }
    }
}

} // verus!
