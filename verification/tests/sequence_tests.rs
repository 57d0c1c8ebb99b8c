use spider_core::cards::{Card, Rank, Suit};
use spider_core::commit::apply_animation_finished;
use spider_core::sequences::run_stability_check;
use spider_core::state::{
    AnimationEventQueue, AnimationFinishedEvent, GameState, PileType, SequenceCheckRequest,
    SpiderGame,
};

fn face_up(suit: Suit, rank: Rank) -> Card {
    Card { suit, rank, face_up: true }
}

fn king_to_ace(suit: Suit) -> Vec<Card> {
    let mut run = Vec::new();
    let mut ranks = Rank::all().to_vec();
    ranks.reverse();
    for r in ranks {
        run.push(face_up(suit, r));
    }
    run
}

fn logical_count(game: &SpiderGame) -> usize {
    game.tableau.iter().map(|c| c.len()).sum()
}

#[test]
fn completed_run_is_extracted_when_gate_is_green() {
    let mut game = SpiderGame::default();
    let mut queue = AnimationEventQueue::default();
    let mut check = SequenceCheckRequest::default();
    game.tableau[2] = vec![Card::new(Suit::Hearts, Rank::Four)];
    game.tableau[2].extend(king_to_ace(Suit::Spades));
    assert_eq!(game.tableau[2].len(), 14);
    check.pending = true;

    let visual = logical_count(&game);
    let ran = run_stability_check(&mut game, &mut queue, &mut check, visual, true);
    assert!(ran);
    assert!(!check.pending);
    // The run is drained; the face-down card below stays; the lock keeps the
    // pre-extraction length so layout does not reflow mid-flight.
    assert_eq!(game.tableau[2].len(), 1);
    assert_eq!(game.visual_pile_locks[2], Some(14));
    assert_eq!(queue.queue.len(), 13);
    // Queue order: the King's request sits first (popped last), marked
    // flip-final; the Ace's request leaves the tail first with no delay.
    assert_eq!(queue.queue[0].cards[0].rank, Rank::King);
    assert!(queue.queue[0].flip_final);
    assert_eq!(queue.queue[0].delay, 12);
    let last = &queue.queue[12];
    assert_eq!(last.cards[0].rank, Rank::Ace);
    assert_eq!(last.delay, 0);
    assert!(!last.flip_final);
    for ev in queue.queue.iter() {
        assert_eq!(ev.from, PileType::Tableau(2));
        assert_eq!(ev.to, PileType::Foundation(0));
        assert_eq!(ev.original_pile_len, Some(14));
    }
    // Foundations grow only when the King's completion is reported.
    assert!(game.foundations.is_empty());
}

#[test]
fn king_completion_scores_and_unlocks() {
    let mut game = SpiderGame::default();
    let mut queue = AnimationEventQueue::default();
    let mut check = SequenceCheckRequest::default();
    game.tableau[0] = vec![Card::new(Suit::Hearts, Rank::Four)];
    game.tableau[0].extend(king_to_ace(Suit::Spades));
    check.pending = true;
    let visual = logical_count(&game);
    run_stability_check(&mut game, &mut queue, &mut check, visual, true);

    let mut phase = None;
    while let Some(ev) = spider_core::deal::dispatch_next(&mut queue) {
        let fin = AnimationFinishedEvent {
            cards: ev.cards,
            from: ev.from,
            to: ev.to,
            flip_final: ev.flip_final,
        };
        let p = apply_animation_finished(&mut game, &fin, &mut check);
        if p.is_some() {
            phase = p;
        }
    }
    assert_eq!(phase, None);
    // The foundation slot retains the whole thirteen-card run, in arrival
    // order: the Ace flew first, the King last.
    assert_eq!(game.foundations.len(), 1);
    let run = &game.foundations[0];
    assert_eq!(run.len(), 13);
    assert_eq!(run[0].rank, Rank::Ace);
    assert_eq!(run[12].rank, Rank::King);
    assert!(run.iter().all(|c| c.suit == Suit::Spades));
    for (i, r) in Rank::all().iter().enumerate() {
        assert_eq!(run.iter().filter(|c| c.rank == *r).count(), 1, "rank {}", i);
    }
    // Nothing was lost: the card below plus the extracted run are all still
    // in the state.
    let total = game.tableau.iter().map(|c| c.len()).sum::<usize>()
        + game.foundations.iter().map(|f| f.len()).sum::<usize>()
        + game.stock.len();
    assert_eq!(total, 14);
    assert_eq!(game.score, 600);
    // The exposed card below the extracted run flips face-up and the lock
    // clears with the King's completion.
    assert!(game.tableau[0][0].face_up);
    assert_eq!(game.visual_pile_locks[0], None);
    assert!(check.pending);
}

#[test]
fn eighth_foundation_wins() {
    let mut game = SpiderGame::default();
    let mut queue = AnimationEventQueue::default();
    let mut check = SequenceCheckRequest::default();
    for _ in 0..7 {
        game.foundations.push(king_to_ace(Suit::Spades));
    }
    game.tableau[5] = king_to_ace(Suit::Spades);
    check.pending = true;
    let visual = logical_count(&game);
    run_stability_check(&mut game, &mut queue, &mut check, visual, true);
    let mut phase = None;
    while let Some(ev) = spider_core::deal::dispatch_next(&mut queue) {
        let fin = AnimationFinishedEvent {
            cards: ev.cards,
            from: ev.from,
            to: ev.to,
            flip_final: ev.flip_final,
        };
        let p = apply_animation_finished(&mut game, &fin, &mut check);
        if p.is_some() {
            phase = p;
        }
    }
    assert_eq!(phase, Some(GameState::Won));
    assert_eq!(game.foundations.len(), 8);
}

#[test]
fn stability_gate_defers_until_counts_match_and_stable() {
    let mut game = SpiderGame::default();
    let mut queue = AnimationEventQueue::default();
    let mut check = SequenceCheckRequest::default();
    game.tableau[0] = king_to_ace(Suit::Spades);
    check.pending = true;
    // A card still mid-flight: rendered count lags the logical count.
    assert!(!run_stability_check(&mut game, &mut queue, &mut check, 12, true));
    assert!(check.pending);
    assert_eq!(game.tableau[0].len(), 13);
    // All cards rendered but one still gliding to its target.
    assert!(!run_stability_check(&mut game, &mut queue, &mut check, 13, false));
    assert!(check.pending);
    // Gate green: the detector runs.
    assert!(run_stability_check(&mut game, &mut queue, &mut check, 13, true));
    assert_eq!(game.tableau[0].len(), 0);
}

#[test]
fn stability_check_fires_at_most_once_per_mutation() {
    let mut game = SpiderGame::default();
    let mut queue = AnimationEventQueue::default();
    let mut check = SequenceCheckRequest::default();
    game.tableau[1] = king_to_ace(Suit::Hearts);
    check.pending = true;
    assert!(run_stability_check(&mut game, &mut queue, &mut check, 13, true));
    assert_eq!(queue.queue.len(), 13);
    // Repeating the check with no intervening mutation does nothing: the
    // pending flag is already down.
    assert!(!run_stability_check(&mut game, &mut queue, &mut check, 0, true));
    assert_eq!(queue.queue.len(), 13);
    assert_eq!(game.visual_pile_locks[1], Some(13));
    assert!(!check.pending);
}

#[test]
fn no_check_runs_without_pending_flag() {
    let mut game = SpiderGame::default();
    let mut queue = AnimationEventQueue::default();
    let mut check = SequenceCheckRequest::default();
    game.tableau[0] = king_to_ace(Suit::Spades);
    assert!(!run_stability_check(&mut game, &mut queue, &mut check, 13, true));
    assert_eq!(game.tableau[0].len(), 13);
    assert!(queue.queue.is_empty());
}

#[test]
fn face_status_is_not_revalidated_by_the_detector() {
    // The detector checks order and suit alone: whether the thirteen cards
    // are face-up is the move rules' concern, not re-checked here.
    let mut game = SpiderGame::default();
    let mut queue = AnimationEventQueue::default();
    let mut check = SequenceCheckRequest::default();
    let mut run = king_to_ace(Suit::Spades);
    for c in run.iter_mut() {
        c.face_up = false;
    }
    game.tableau[0] = run;
    check.pending = true;
    assert!(run_stability_check(&mut game, &mut queue, &mut check, 13, true));
    assert_eq!(game.tableau[0].len(), 0);
    assert_eq!(queue.queue.len(), 13);
}

#[test]
fn completions_on_stock_or_bad_columns_are_no_ops() {
    let mut game = SpiderGame::default();
    let mut check = SequenceCheckRequest::default();
    let card = face_up(Suit::Spades, Rank::Five);
    let to_stock = AnimationFinishedEvent {
        cards: vec![card],
        from: PileType::Tableau(0),
        to: PileType::Stock,
        flip_final: false,
    };
    assert!(apply_animation_finished(&mut game, &to_stock, &mut check).is_none());
    assert!(game.stock.is_empty());
    assert!(check.pending);
    let out_of_range = AnimationFinishedEvent {
        cards: vec![card],
        from: PileType::Stock,
        to: PileType::Tableau(99),
        flip_final: false,
    };
    assert!(apply_animation_finished(&mut game, &out_of_range, &mut check).is_none());
    assert!(game.tableau.iter().all(|c| c.is_empty()));
}

#[test]
fn broken_runs_are_not_extracted() {
    let mut game = SpiderGame::default();
    let mut queue = AnimationEventQueue::default();
    let mut check = SequenceCheckRequest::default();
    // Same shape but one card of the wrong suit in the middle.
    let mut run = king_to_ace(Suit::Spades);
    run[6] = face_up(Suit::Hearts, run[6].rank);
    game.tableau[3] = run;
    check.pending = true;
    assert!(run_stability_check(&mut game, &mut queue, &mut check, 13, true));
    assert_eq!(game.tableau[3].len(), 13);
    assert!(queue.queue.is_empty());
    // Twelve cards, King to Two, are not a complete run either.
    let mut game2 = SpiderGame::default();
    let mut run2 = king_to_ace(Suit::Spades);
    run2.pop();
    game2.tableau[0] = run2;
    check.pending = true;
    assert!(run_stability_check(&mut game2, &mut queue, &mut check, 12, true));
    assert_eq!(game2.tableau[0].len(), 12);
    assert!(queue.queue.is_empty());
}
