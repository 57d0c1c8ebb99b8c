use spider_core::cards::{Card, Rank, Suit};
use spider_core::state::Difficulty;

fn count(deck: &[Card], suit: Suit, rank: Rank) -> usize {
    deck.iter().filter(|c| c.suit == suit && c.rank == rank).count()
}

const ALL_SUITS: [Suit; 4] = [Suit::Hearts, Suit::Diamonds, Suit::Clubs, Suit::Spades];

#[test]
fn spider_deck_easy_composition() {
    let deck = Card::new_spider_deck(Difficulty::Easy);
    assert_eq!(deck.len(), 104);
    for rank in Rank::all() {
        assert_eq!(count(&deck, Suit::Spades, rank), 8);
        assert_eq!(count(&deck, Suit::Hearts, rank), 0);
        assert_eq!(count(&deck, Suit::Diamonds, rank), 0);
        assert_eq!(count(&deck, Suit::Clubs, rank), 0);
    }
}

#[test]
fn spider_deck_medium_composition() {
    let deck = Card::new_spider_deck(Difficulty::Medium);
    assert_eq!(deck.len(), 104);
    for rank in Rank::all() {
        assert_eq!(count(&deck, Suit::Spades, rank), 4);
        assert_eq!(count(&deck, Suit::Hearts, rank), 4);
        assert_eq!(count(&deck, Suit::Diamonds, rank), 0);
        assert_eq!(count(&deck, Suit::Clubs, rank), 0);
    }
}

#[test]
fn spider_deck_hard_composition() {
    let deck = Card::new_spider_deck(Difficulty::Hard);
    assert_eq!(deck.len(), 104);
    for suit in ALL_SUITS {
        for rank in Rank::all() {
            assert_eq!(count(&deck, suit, rank), 2);
        }
    }
}

#[test]
fn spider_deck_starts_face_down() {
    for d in [Difficulty::Easy, Difficulty::Medium, Difficulty::Hard] {
        assert!(Card::new_spider_deck(d).iter().all(|c| !c.face_up));
    }
}

#[test]
fn standard_deck_has_every_card_once() {
    let deck = Card::new_standard_deck();
    assert_eq!(deck.len(), 52);
    for suit in ALL_SUITS {
        for rank in Rank::all() {
            assert_eq!(count(&deck, suit, rank), 1);
        }
    }
}

#[test]
fn rank_values_are_ace_low() {
    assert_eq!(Rank::Ace.value(), 1);
    assert_eq!(Rank::Two.value(), 2);
    assert_eq!(Rank::Ten.value(), 10);
    assert_eq!(Rank::Jack.value(), 11);
    assert_eq!(Rank::Queen.value(), 12);
    assert_eq!(Rank::King.value(), 13);
}

#[test]
fn rank_all_lists_thirteen_in_order() {
    let all = Rank::all();
    assert_eq!(all.len(), 13);
    for (i, r) in all.iter().enumerate() {
        assert_eq!(r.value() as usize, i + 1);
    }
}

#[test]
fn suit_strings_and_colors() {
    assert_eq!(Suit::Hearts.as_str(), "H");
    assert_eq!(Suit::Diamonds.as_str(), "D");
    assert_eq!(Suit::Clubs.as_str(), "C");
    assert_eq!(Suit::Spades.as_str(), "S");
    assert!(Suit::Hearts.is_red());
    assert!(Suit::Diamonds.is_red());
    assert!(!Suit::Clubs.is_red());
    assert!(!Suit::Spades.is_red());
    assert_eq!(Rank::Ace.as_str(), "A");
    assert_eq!(Rank::Ten.as_str(), "10");
    assert_eq!(Rank::King.as_str(), "K");
}

#[test]
fn can_stack_on_is_rank_adjacency_only() {
    let nine_d = Card::new(Suit::Diamonds, Rank::Nine);
    let ten_c = Card::new(Suit::Clubs, Rank::Ten);
    let eight_d = Card::new(Suit::Diamonds, Rank::Eight);
    assert!(nine_d.can_stack_on(&ten_c));
    assert!(!eight_d.can_stack_on(&ten_c));
    assert!(!ten_c.can_stack_on(&nine_d));
}

#[test]
fn new_card_is_face_down() {
    let c = Card::new(Suit::Hearts, Rank::Seven);
    assert_eq!(c.suit, Suit::Hearts);
    assert_eq!(c.rank, Rank::Seven);
    assert!(!c.face_up);
}
