use spider_core::cards::{Card, Rank, Suit};
use spider_core::deal::{apply_queued_deal, deal_stock, dispatch_next, start_new_game};
use spider_core::state::{
    AnimationEventQueue, Difficulty, GameHistory, PileType, SequenceCheckRequest, SpiderGame,
};

fn fresh_world() -> (SpiderGame, GameHistory, AnimationEventQueue, SequenceCheckRequest) {
    (
        SpiderGame::default(),
        GameHistory::default(),
        AnimationEventQueue::default(),
        SequenceCheckRequest::default(),
    )
}

fn count_everywhere(game: &SpiderGame, suit: Suit, rank: Rank) -> usize {
    let in_tableau: usize = game
        .tableau
        .iter()
        .map(|col| col.iter().filter(|c| c.suit == suit && c.rank == rank).count())
        .sum();
    let in_stock = game.stock.iter().filter(|c| c.suit == suit && c.rank == rank).count();
    in_tableau + in_stock
}

#[test]
fn new_game_splits_deck_into_stock_and_queue() {
    let (mut game, mut history, mut queue, _check) = fresh_world();
    start_new_game(&mut game, &mut history, &mut queue, Difficulty::Medium);
    assert_eq!(game.stock.len(), 50);
    assert_eq!(queue.queue.len(), 54);
    assert_eq!(game.score, 500);
    assert_eq!(game.move_count, 0);
    assert_eq!(game.difficulty, Difficulty::Medium);
    assert!(game.foundations.is_empty());
    assert!(game.selected.is_none());
    assert!(game.auto_move_to.is_none());
    assert!(history.stack.is_empty());
    assert!(game.tableau.iter().all(|col| col.is_empty()));
    assert!(game.visual_pile_locks.iter().all(|l| l.is_none()));
}

#[test]
fn opening_deal_dispatches_left_to_right() {
    let (mut game, mut history, mut queue, _check) = fresh_world();
    start_new_game(&mut game, &mut history, &mut queue, Difficulty::Easy);
    // The first released request is the very first card dealt: column 0,
    // landing at height 0, face-down.
    let ev = dispatch_next(&mut queue).unwrap();
    assert_eq!(ev.to, PileType::Tableau(0));
    assert_eq!(ev.from, PileType::Stock);
    assert_eq!(ev.target_index_override, Some(0));
    assert_eq!(ev.cards.len(), 1);
    assert!(!ev.cards[0].face_up);
    assert!(!ev.flip_final);
    let ev2 = dispatch_next(&mut queue).unwrap();
    assert_eq!(ev2.to, PileType::Tableau(1));
}

#[test]
fn applied_deal_matches_layout_and_multiset() {
    let (mut game, mut history, mut queue, mut check) = fresh_world();
    start_new_game(&mut game, &mut history, &mut queue, Difficulty::Hard);
    apply_queued_deal(&mut game, &mut queue, &mut check);
    for c in 0..4 {
        assert_eq!(game.tableau[c].len(), 6);
    }
    for c in 4..10 {
        assert_eq!(game.tableau[c].len(), 5);
    }
    assert_eq!(game.stock.len(), 50);
    assert_eq!(queue.queue.len(), 0);
    assert!(check.pending);
    // Exactly two copies of every card across tableau and stock: nothing
    // lost, nothing duplicated.
    for suit in [Suit::Hearts, Suit::Diamonds, Suit::Clubs, Suit::Spades] {
        for rank in Rank::all() {
            assert_eq!(count_everywhere(&game, suit, rank), 2);
        }
    }
    // In every column only the last-dealt card is face-up.
    for col in game.tableau.iter() {
        let top = col.len() - 1;
        for (i, card) in col.iter().enumerate() {
            assert_eq!(card.face_up, i == top);
        }
    }
}

#[test]
fn redeal_takes_ten_cards_and_snapshots() {
    let (mut game, mut history, mut queue, mut check) = fresh_world();
    start_new_game(&mut game, &mut history, &mut queue, Difficulty::Easy);
    apply_queued_deal(&mut game, &mut queue, &mut check);
    let stock_before = game.stock.clone();
    deal_stock(&mut game, &mut history, &mut queue);
    assert_eq!(game.stock.len(), 40);
    assert_eq!(queue.queue.len(), 10);
    assert_eq!(history.stack.len(), 1);
    // Each queued card is face-up, one per column, and dispatch order is
    // column 0 first.
    let ev = dispatch_next(&mut queue).unwrap();
    assert_eq!(ev.to, PileType::Tableau(0));
    assert!(ev.cards[0].face_up);
    assert!(!ev.flip_final);
    // The card flying to column 0 is the one that was on top of the stock.
    let top = stock_before[stock_before.len() - 1];
    assert_eq!(ev.cards[0].suit, top.suit);
    assert_eq!(ev.cards[0].rank, top.rank);
}

#[test]
fn redeal_on_empty_stock_is_a_no_op() {
    let (mut game, mut history, mut queue, _check) = fresh_world();
    game.stock.clear();
    deal_stock(&mut game, &mut history, &mut queue);
    assert!(history.stack.is_empty());
    assert!(queue.queue.is_empty());
    assert!(game.stock.is_empty());
}

#[test]
fn five_redeals_exhaust_the_stock() {
    let (mut game, mut history, mut queue, mut check) = fresh_world();
    start_new_game(&mut game, &mut history, &mut queue, Difficulty::Easy);
    apply_queued_deal(&mut game, &mut queue, &mut check);
    for round in 0..5 {
        deal_stock(&mut game, &mut history, &mut queue);
        assert_eq!(game.stock.len(), 50 - 10 * (round + 1));
        while let Some(ev) = dispatch_next(&mut queue) {
            let fin = spider_core::state::AnimationFinishedEvent {
                cards: ev.cards,
                from: ev.from,
                to: ev.to,
                flip_final: ev.flip_final,
            };
            spider_core::commit::apply_animation_finished(&mut game, &fin, &mut check);
        }
    }
    assert!(game.stock.is_empty());
    let total: usize = game.tableau.iter().map(|c| c.len()).sum();
    assert_eq!(total, 104);
    // A sixth redeal is a defined no-op.
    let history_len = history.stack.len();
    deal_stock(&mut game, &mut history, &mut queue);
    assert_eq!(history.stack.len(), history_len);
    assert!(queue.queue.is_empty());
}

#[test]
fn dispatch_next_on_empty_queue_is_none() {
    let mut queue = AnimationEventQueue::default();
    assert!(dispatch_next(&mut queue).is_none());
}
