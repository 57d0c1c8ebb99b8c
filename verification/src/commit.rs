//! Animation-synchronized commit protocol: canonical state changes only when
//! the matching visual transition has finished (deferred-queue path) or when
//! the dragged cards have arrived at their validated target (direct path).

use vstd::prelude::*;
use vstd::pervasive::VecAdditionalExecFns;

use crate::cards::{Card, Rank, Suit};
use crate::state::{AnimationFinishedEvent, GameState, GameView, PileType, SelectedCard,
    SequenceCheckRequest, SpiderGame};

verus! {

/// The same pile with its top card turned face-up; an empty pile is left as
/// it is.
pub open spec fn flip_top(pile: Seq<Card>) -> Seq<Card> {
    if pile.len() == 0 {
        pile
    } else {
        pile.update(
            pile.len() - 1,
            Card { suit: pile.last().suit, rank: pile.last().rank, face_up: true },
        )
    }
}

/// State change applied when one queued transition reports completion: cards
/// land on their destination pile, the arriving card may flip, and for the
/// final card of a foundation extraction the score rises, the source column's
/// new top flips and its visual lock clears.  A foundation slot retains every
/// card delivered to it, so a completed run stays whole.  An out-of-range
/// pile index is defensively a no-op for that part.
pub open spec fn apply_finish_spec(
    g: GameView,
    cards: Seq<Card>,
    from: PileType,
    to: PileType,
    flip_final: bool,
) -> GameView {
    match to {
        PileType::Tableau(col) => {
            if col < g.tableau.len() {
                let extended = g.tableau[col as int] + cards;
                let newcol = if flip_final {
                    flip_top(extended)
                } else {
                    extended
                };
                GameView { tableau: g.tableau.update(col as int, newcol), ..g }
            } else {
                g
            }
        },
        PileType::Foundation(idx) => {
            let f1 = if cards.len() > 0 {
                if idx >= g.foundations.len() {
                    g.foundations.push(seq![cards[0]])
                } else {
                    g.foundations.update(idx as int, g.foundations[idx as int].push(cards[0]))
                }
            } else {
                g.foundations
            };
            let g1 = GameView { foundations: f1, ..g };
            if flip_final {
                let g2 = GameView { score: g1.score + 100, ..g1 };
                match from {
                    PileType::Tableau(fc) => {
                        let g3 = if fc < g2.tableau.len() {
                            GameView {
                                tableau: g2.tableau.update(fc as int, flip_top(g2.tableau[fc as int])),
                                ..g2
                            }
                        } else {
                            g2
                        };
                        if fc < g3.visual_pile_locks.len() {
                            GameView {
                                visual_pile_locks: g3.visual_pile_locks.update(fc as int, None),
                                ..g3
                            }
                        } else {
                            g3
                        }
                    },
                    _ => g2,
                }
            } else {
                g1
            }
        },
        PileType::Stock => g,
    }
}

/// Phase transition a completion may announce: only the final card of a
/// foundation extraction re-evaluates the win condition.
pub open spec fn apply_finish_phase(g_after: GameView, to: PileType, flip_final: bool) -> Option<
    GameState,
> {
    match to {
        PileType::Foundation(idx) => if flip_final && g_after.is_won_spec() {
            Some(GameState::Won)
        } else {
            None
        },
        _ => None,
    }
}

/// Applies the mutation matching one finished visual transition and raises
/// the stability gate's pending flag.
pub fn apply_animation_finished(
    game: &mut SpiderGame,
    ev: &AnimationFinishedEvent,
    check: &mut SequenceCheckRequest,
) -> (phase: Option<GameState>)
    requires
        (ev.to is Foundation && ev.flip_final) ==> old(game).score <= i32::MAX - 100,
    ensures
        final(game)@ == apply_finish_spec(old(game)@, ev.cards@, ev.from, ev.to, ev.flip_final),
        phase == apply_finish_phase(final(game)@, ev.to, ev.flip_final),
        final(check).pending == true,
{
    let ghost gs = apply_finish_spec(old(game)@, ev.cards@, ev.from, ev.to, ev.flip_final);
    let mut phase: Option<GameState> = None;
    match ev.to {
        PileType::Tableau(col) => {
            if col < game.tableau.len() {
                extend_col(&mut game.tableau, col, &ev.cards);
                if ev.flip_final {
                    flip_top_col(&mut game.tableau, col);
                }
                proof {
                    assert(game@.tableau =~= gs.tableau);
                    assert(game@ == gs);
                }
            }
        }
        PileType::Foundation(idx) => {
            if ev.cards.len() > 0 {
                let c0 = ev.cards[0];
                if idx >= game.foundations.len() {
                    let mut slot: Vec<Card> = Vec::new();
                    slot.push(c0);
                    game.foundations.push(slot);
                } else {
                    game.foundations[idx].push(c0);
                }
            }
            if ev.flip_final {
                game.score = game.score + 100;
                match ev.from {
                    PileType::Tableau(fc) => {
                        if fc < game.tableau.len() {
                            flip_top_col(&mut game.tableau, fc);
                        }
                        if fc < game.visual_pile_locks.len() {
                            game.visual_pile_locks.set(fc, None);
                        }
                    }
                    _ => {}
                }
                if game.is_won() {
                    phase = Some(GameState::Won);
                }
            }
            proof {
                assert(game@.tableau =~= gs.tableau);
                assert(game@.foundations =~= gs.foundations);
                assert(game@.visual_pile_locks =~= gs.visual_pile_locks);
                assert(game@ == gs);
            }
        }
        PileType::Stock => {}
    }
    check.pending = true;
    phase
}

/// State change of a direct-path commit, once the dragged cards have visually
/// arrived: the lifted run moves from its source column to the destination,
/// both new tops flip face-up, the move count rises and the score drops by
/// one; the gesture fields clear.
pub open spec fn commit_move_spec(g: GameView) -> GameView {
    let sel = g.selected->Some_0;
    let t1 = match sel.from {
        PileType::Tableau(fc) => if fc < g.tableau.len() && sel.index <= g.tableau[fc as int].len() {
            g.tableau.update(fc as int, flip_top(g.tableau[fc as int].take(sel.index as int)))
        } else {
            g.tableau
        },
        _ => g.tableau,
    };
    let moved = match sel.from {
        PileType::Tableau(fc) => if fc < g.tableau.len() && sel.index <= g.tableau[fc as int].len() {
            g.tableau[fc as int].skip(sel.index as int)
        } else {
            Seq::<Card>::empty()
        },
        _ => Seq::<Card>::empty(),
    };
    let t2 = match g.auto_move_to->Some_0 {
        PileType::Tableau(col) => if col < t1.len() {
            t1.update(col as int, flip_top(t1[col as int] + moved))
        } else {
            t1
        },
        _ => t1,
    };
    GameView {
        tableau: t2,
        selected: None,
        auto_move_to: None,
        move_count: g.move_count + 1,
        score: g.score - 1,
        ..g
    }
}

/// Phase transition a direct-path commit announces: a score at or below zero
/// loses even if further legal moves exist; eight foundations win.
pub open spec fn commit_move_phase(g_after: GameView) -> Option<GameState> {
    if g_after.score <= 0 {
        Some(GameState::Lost)
    } else if g_after.is_won_spec() {
        Some(GameState::Won)
    } else {
        None
    }
}

/// Applies the direct-path commit once the collaborator reports that the
/// dragged cards have reached their validated target, and raises the
/// stability gate's pending flag.  The caller's history entry was already
/// pushed when the drop was validated.
pub fn commit_auto_move(game: &mut SpiderGame, check: &mut SequenceCheckRequest) -> (phase: Option<
    GameState,
>)
    requires
        old(game)@.wf(),
        old(game)@.selected is Some,
        old(game)@.auto_move_to is Some,
        old(game)@.auto_move_to->Some_0 is Tableau,
        old(game)@.auto_move_to->Some_0->Tableau_0 < 10,
        old(game).score > i32::MIN,
        old(game).move_count < u32::MAX,
    ensures
        final(game)@ == commit_move_spec(old(game)@),
        phase == commit_move_phase(final(game)@),
        final(check).pending == true,
{
    let sel = match &game.selected {
        Some(s) => *s,
        None => {
            proof {
                assert(false);
            }
            SelectedCard { card: Card { suit: Suit::Spades, rank: Rank::Ace, face_up: false }, from: PileType::Stock, index: 0 }
        }
    };
    let from_col = match sel.from {
        PileType::Tableau(c) => c,
        _ => {
            proof {
                assert(false);
            }
            0
        }
    };
    let to_col = match game.auto_move_to {
        Some(PileType::Tableau(c)) => c,
        _ => {
            proof {
                assert(false);
            }
            0
        }
    };
    let moved = game.tableau[from_col].split_off(sel.index);
    flip_top_col(&mut game.tableau, from_col);
    extend_col(&mut game.tableau, to_col, &moved);
    flip_top_col(&mut game.tableau, to_col);
    game.selected = None;
    game.auto_move_to = None;
    game.move_count = game.move_count + 1;
    game.score = game.score - 1;
    check.pending = true;
    let phase = if game.score <= 0 {
        Some(GameState::Lost)
    } else if game.is_won() {
        Some(GameState::Won)
    } else {
        None
    };
    proof {
        assert(game@.tableau =~= commit_move_spec(old(game)@).tableau);
        assert(game@ == commit_move_spec(old(game)@));
    }
    phase
}

/// Appends `cards` to column `col`, leaving every other column alone.
fn extend_col(t: &mut Vec<Vec<Card>>, col: usize, cards: &Vec<Card>)
    requires
        col < old(t).len(),
    ensures
        final(t)@.len() == old(t)@.len(),
        final(t)@[col as int]@ == old(t)@[col as int]@ + cards@,
        forall|j: int| 0 <= j < old(t)@.len() && j != col ==> final(t)@[j] == old(t)@[j],
{
    for idx in 0..cards.len()
        invariant
            col < t@.len(),
            t@.len() == old(t)@.len(),
            t@[col as int]@ == old(t)@[col as int]@ + cards@.take(idx as int),
            forall|j: int| 0 <= j < old(t)@.len() && j != col ==> t@[j] == old(t)@[j],
    {
        t[col].push(cards[idx]);
        proof {
            assert(old(t)@[col as int]@ + cards@.take(idx + 1) =~= (old(t)@[col as int]@
                + cards@.take(idx as int)).push(cards@[idx as int]));
        }
    }
    proof {
        assert(cards@.take(cards@.len() as int) =~= cards@);
    }
}

/// Turns the top card of column `col` face-up, leaving every other column
/// alone; an empty column is left as it is.
fn flip_top_col(t: &mut Vec<Vec<Card>>, col: usize)
    requires
        col < old(t).len(),
    ensures
        final(t)@.len() == old(t)@.len(),
        final(t)@[col as int]@ == flip_top(old(t)@[col as int]@),
        forall|j: int| 0 <= j < old(t)@.len() && j != col ==> final(t)@[j] == old(t)@[j],
{
    let l = t[col].len();
    if l > 0 {
        let c = t[col][l - 1];
        t[col].set(l - 1, Card { suit: c.suit, rank: c.rank, face_up: true });
    }
}

} // verus!
