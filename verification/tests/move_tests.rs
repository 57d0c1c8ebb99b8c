use spider_core::cards::{Card, Rank, Suit};
use spider_core::commit::commit_auto_move;
use spider_core::state::{
    AnimationEventQueue, GameHistory, PileType, SequenceCheckRequest, SpiderGame,
};
use spider_core::undo::undo;

fn face_up(suit: Suit, rank: Rank) -> Card {
    Card { suit, rank, face_up: true }
}

fn face_down(suit: Suit, rank: Rank) -> Card {
    Card { suit, rank, face_up: false }
}

#[test]
fn pick_up_requires_same_suit_descending_run() {
    let mut game = SpiderGame::default();
    game.tableau[0] = vec![
        face_up(Suit::Spades, Rank::Five),
        face_up(Suit::Spades, Rank::Four),
        face_up(Suit::Hearts, Rank::Three),
    ];
    // Index 1 is rejected: the pair 4S, 3H breaks suit.
    assert!(!game.try_pick_up(0, 1));
    assert!(game.selected.is_none());
    // Index 2, the single top card, is accepted.
    assert!(game.try_pick_up(0, 2));
    let sel = game.selected.unwrap();
    assert_eq!(sel.from, PileType::Tableau(0));
    assert_eq!(sel.index, 2);
    assert_eq!(sel.card.rank, Rank::Three);
}

#[test]
fn pick_up_accepts_whole_same_suit_run() {
    let mut game = SpiderGame::default();
    game.tableau[3] = vec![
        face_up(Suit::Clubs, Rank::Seven),
        face_up(Suit::Clubs, Rank::Six),
        face_up(Suit::Clubs, Rank::Five),
    ];
    assert!(game.try_pick_up(3, 0));
    assert_eq!(game.selected.unwrap().card.rank, Rank::Seven);
}

#[test]
fn pick_up_rejects_face_down_and_rank_gaps() {
    let mut game = SpiderGame::default();
    game.tableau[2] = vec![face_down(Suit::Spades, Rank::Nine), face_up(Suit::Spades, Rank::Eight)];
    assert!(!game.try_pick_up(2, 0));
    game.tableau[4] = vec![face_up(Suit::Spades, Rank::Nine), face_up(Suit::Spades, Rank::Seven)];
    assert!(!game.try_pick_up(4, 0));
    assert!(!game.try_pick_up(4, 7));
    assert!(!game.try_pick_up(11, 0));
}

#[test]
fn drop_checks_rank_adjacency_and_ignores_suit() {
    let mut game = SpiderGame::default();
    game.tableau[1] = vec![face_up(Suit::Clubs, Rank::Ten)];
    let nine_d = face_up(Suit::Diamonds, Rank::Nine);
    let eight_d = face_up(Suit::Diamonds, Rank::Eight);
    assert!(game.can_drop(&nine_d, 1));
    assert!(!game.can_drop(&eight_d, 1));
    // An empty column takes anything.
    assert!(game.can_drop(&eight_d, 5));
    assert!(!game.can_drop(&nine_d, 10));
}

#[test]
fn invalid_drop_cancels_gesture_without_history() {
    let mut game = SpiderGame::default();
    let mut history = GameHistory::default();
    game.tableau[0] = vec![face_up(Suit::Spades, Rank::Eight)];
    game.tableau[1] = vec![face_up(Suit::Clubs, Rank::Ten)];
    assert!(game.try_pick_up(0, 0));
    assert!(!game.try_drop(&mut history, 1));
    assert!(game.selected.is_none());
    assert!(game.auto_move_to.is_none());
    assert!(history.stack.is_empty());
    assert_eq!(game.tableau[0].len(), 1);
    assert_eq!(game.tableau[1].len(), 1);
}

#[test]
fn committed_move_updates_piles_and_counters() {
    let mut game = SpiderGame::default();
    let mut history = GameHistory::default();
    let mut check = SequenceCheckRequest::default();
    game.tableau[0] = vec![
        face_down(Suit::Hearts, Rank::King),
        face_up(Suit::Spades, Rank::Nine),
        face_up(Suit::Spades, Rank::Eight),
    ];
    game.tableau[1] = vec![face_up(Suit::Clubs, Rank::Ten)];
    assert!(game.try_pick_up(0, 1));
    assert!(game.try_drop(&mut history, 1));
    assert_eq!(game.auto_move_to, Some(PileType::Tableau(1)));
    assert_eq!(history.stack.len(), 1);
    let phase = commit_auto_move(&mut game, &mut check);
    assert!(phase.is_none());
    assert_eq!(game.tableau[0].len(), 1);
    // The exposed card flips face-up.
    assert!(game.tableau[0][0].face_up);
    assert_eq!(game.tableau[0][0].rank, Rank::King);
    assert_eq!(game.tableau[1].len(), 3);
    assert_eq!(game.tableau[1][1].rank, Rank::Nine);
    assert_eq!(game.tableau[1][2].rank, Rank::Eight);
    assert_eq!(game.move_count, 1);
    assert_eq!(game.score, 499);
    assert!(game.selected.is_none());
    assert!(game.auto_move_to.is_none());
    assert!(check.pending);
}

#[test]
fn move_then_undo_restores_previous_state() {
    let mut game = SpiderGame::default();
    let mut history = GameHistory::default();
    let mut queue = AnimationEventQueue::default();
    let mut check = SequenceCheckRequest::default();
    game.tableau[0] = vec![face_up(Suit::Spades, Rank::Nine)];
    game.tableau[1] = vec![face_up(Suit::Clubs, Rank::Ten)];
    game.score = 321;
    game.move_count = 7;
    let tableau_before = game.tableau.clone();
    assert!(game.try_pick_up(0, 0));
    assert!(game.try_drop(&mut history, 1));
    commit_auto_move(&mut game, &mut check);
    assert_eq!(game.tableau[0].len(), 0);
    undo(&mut game, &mut history, &mut queue, &mut check);
    // Exact restoration: pile contents, score and move count as before the
    // move; transients cleared on both sides.
    assert_eq!(game.tableau, tableau_before);
    assert_eq!(game.score, 321);
    assert_eq!(game.move_count, 7);
    assert!(game.selected.is_none());
    assert!(game.auto_move_to.is_none());
    assert!(history.stack.is_empty());
    assert!(queue.queue.is_empty());
    assert!(!check.pending);
    assert!(game.visual_pile_locks.iter().all(|l| l.is_none()));
}

#[test]
fn undo_is_a_no_op_mid_commit_or_with_empty_history() {
    let mut game = SpiderGame::default();
    let mut history = GameHistory::default();
    let mut queue = AnimationEventQueue::default();
    let mut check = SequenceCheckRequest::default();
    // Empty history: nothing happens.
    game.score = 123;
    undo(&mut game, &mut history, &mut queue, &mut check);
    assert_eq!(game.score, 123);
    // Pending commit in flight: undo refuses even with history present.
    game.tableau[0] = vec![face_up(Suit::Spades, Rank::Nine)];
    game.tableau[1] = vec![face_up(Suit::Clubs, Rank::Ten)];
    assert!(game.try_pick_up(0, 0));
    assert!(game.try_drop(&mut history, 1));
    assert_eq!(history.stack.len(), 1);
    undo(&mut game, &mut history, &mut queue, &mut check);
    assert_eq!(history.stack.len(), 1);
    assert!(game.auto_move_to.is_some());
}

#[test]
fn score_reaching_zero_loses_despite_legal_moves() {
    let mut game = SpiderGame::default();
    let mut history = GameHistory::default();
    let mut check = SequenceCheckRequest::default();
    game.score = 1;
    game.tableau[0] = vec![face_up(Suit::Spades, Rank::Nine)];
    game.tableau[1] = vec![face_up(Suit::Clubs, Rank::Ten)];
    assert!(game.try_pick_up(0, 0));
    assert!(game.try_drop(&mut history, 1));
    let phase = commit_auto_move(&mut game, &mut check);
    assert_eq!(phase, Some(spider_core::state::GameState::Lost));
    assert_eq!(game.score, 0);
}

#[test]
fn cancel_selection_discards_gesture() {
    let mut game = SpiderGame::default();
    game.tableau[0] = vec![face_up(Suit::Spades, Rank::Nine)];
    assert!(game.try_pick_up(0, 0));
    game.cancel_selection();
    assert!(game.selected.is_none());
}

#[test]
fn tableau_top_and_win_queries() {
    let mut game = SpiderGame::default();
    assert!(game.get_tableau_top(0).is_none());
    assert!(game.get_tableau_top(42).is_none());
    game.tableau[0] = vec![face_up(Suit::Spades, Rank::Nine), face_up(Suit::Spades, Rank::Eight)];
    assert_eq!(game.get_tableau_top(0).unwrap().rank, Rank::Eight);
    assert!(!game.is_won());
    for _ in 0..8 {
        let run: Vec<_> = Rank::all().iter().rev().map(|r| face_up(Suit::Spades, *r)).collect();
        game.foundations.push(run);
    }
    assert!(game.is_won());
}

#[test]
fn pick_up_refused_while_commit_in_flight() {
    let mut game = SpiderGame::default();
    game.tableau[0] = vec![face_up(Suit::Spades, Rank::Nine)];
    game.auto_move_to = Some(PileType::Tableau(1));
    assert!(!game.try_pick_up(0, 0));
}

#[test]
fn drop_and_cancel_refused_while_commit_in_flight() {
    let mut game = SpiderGame::default();
    let mut history = GameHistory::default();
    game.tableau[0] = vec![face_up(Suit::Spades, Rank::Nine)];
    game.tableau[1] = vec![face_up(Suit::Clubs, Rank::Ten)];
    assert!(game.try_pick_up(0, 0));
    assert!(game.try_drop(&mut history, 1));
    assert_eq!(history.stack.len(), 1);
    // A second drop in the window before the commit lands is refused
    // outright: no second snapshot, no re-targeted commit, selection kept.
    assert!(!game.try_drop(&mut history, 1));
    assert_eq!(history.stack.len(), 1);
    assert_eq!(game.auto_move_to, Some(PileType::Tableau(1)));
    assert!(game.selected.is_some());
    // A cancel in that window is refused too: the commit still needs the
    // selection.
    game.cancel_selection();
    assert!(game.selected.is_some());
}
