//! Cross-cutting laws relating the validator, the commit protocol and undo.

use vstd::prelude::*;

use crate::cards::{count_cards, lemma_count_concat, Card, Rank, Suit};
use crate::commit::{apply_finish_spec, commit_move_spec, flip_top};
use crate::deal::{count_piles, lemma_count_flip_top, lemma_count_piles_update,
    lemma_count_push, lemma_queued_cards_concat, queued_cards};
use crate::moves::drop_allowed;
use crate::sequences::{check_column_spec, complete_run, extraction_events,
    lemma_extraction_events_cards, lemma_sweep_done, lemma_sweep_step, sweep_from_spec,
    sweep_spec};
use crate::state::{EventView, GameView, PileType};

verus! {

/// Performing a legal direct-path move and then undoing it restores exactly
/// the state that was current when the drop was validated: every pile, the
/// score, the move count and the difficulty are as they were, with the
/// transient gesture fields cleared and the visual pile locks reset, and the
/// history is back to what it held before the move.
pub proof fn lemma_move_undo_round_trip(g: GameView, h: Seq<GameView>, to: int)
    requires
        g.wf(),
        g.selected is Some,
        g.auto_move_to is None,
        0 <= to < 10,
        drop_allowed(g, g.selected->Some_0.card, to),
    ensures
        ({
            // the validated drop records the pending commit and pushes the
            // cleaned snapshot ...
            let g1 = GameView { auto_move_to: Some(PileType::Tableau(to as usize)), ..g };
            let h1 = h.push(g.cleaned());
            // ... the arrival commit applies the move ...
            let g2 = commit_move_spec(g1);
            // ... after which undo is enabled and restores the snapshot.
            &&& g2.auto_move_to is None
            &&& h1.len() > 0
            &&& (GameView { difficulty: g2.difficulty, ..h1.last().unlocked() }) == g.cleaned().unlocked()
            &&& h1.drop_last() == h
        }),
{
    let h1 = h.push(g.cleaned());
    assert(h1.drop_last() =~= h);
}

/// A direct-path commit moves cards between columns but never loses or
/// duplicates one: every suit/rank count over the whole tableau is exactly
/// what it was.
pub proof fn lemma_commit_preserves_cards(g: GameView)
    requires
        g.wf(),
        g.selected is Some,
        g.auto_move_to is Some,
        g.auto_move_to->Some_0 is Tableau,
        g.auto_move_to->Some_0->Tableau_0 < 10,
    ensures
        forall|suit: Suit, rank: Rank|
            count_piles(commit_move_spec(g).tableau, suit, rank) == count_piles(
                g.tableau,
                suit,
                rank,
            ),
{
    let sel = g.selected->Some_0;
    assert(sel.from is Tableau);
    let fc = sel.from->Tableau_0 as int;
    let to = g.auto_move_to->Some_0->Tableau_0 as int;
    let t = g.tableau;
    let pile = t[fc];
    let index = sel.index as int;
    let kept = flip_top(pile.take(index));
    let moved = pile.skip(index);
    let t1 = t.update(fc, kept);
    let t2 = t1.update(to, flip_top(t1[to] + moved));
    assert(commit_move_spec(g).tableau == t2);
    assert forall|suit: Suit, rank: Rank|
        count_piles(t2, suit, rank) == count_piles(t, suit, rank) by {
        lemma_count_flip_top(pile.take(index), suit, rank);
        lemma_count_piles_update(t, fc, kept, suit, rank);
        lemma_count_concat(t1[to], moved, suit, rank);
        lemma_count_flip_top(t1[to] + moved, suit, rank);
        lemma_count_piles_update(t1, to, flip_top(t1[to] + moved), suit, rank);
        lemma_count_concat(pile.take(index), moved, suit, rank);
        assert(pile.take(index) + moved =~= pile);
    }
}

/// The completion detector only relocates cards: what leaves a column is
/// exactly what its queued extraction requests carry, so tableau plus queue
/// together hold every suit/rank count unchanged.
pub proof fn lemma_detector_preserves_cards(g: GameView, q: Seq<EventView>)
    ensures
        ({
            let (g2, q2) = sweep_spec(g, q);
            &&& g2.foundations == g.foundations
            &&& g2.stock == g.stock
            &&& forall|suit: Suit, rank: Rank|
                count_piles(g2.tableau, suit, rank) + count_cards(queued_cards(q2), suit, rank)
                    == count_piles(g.tableau, suit, rank) + count_cards(
                    queued_cards(q),
                    suit,
                    rank,
                )
        }),
{
    lemma_sweep_from_preserves_cards(g, q, 0);
}

#[verifier::rlimit(50)]
proof fn lemma_sweep_from_preserves_cards(g: GameView, q: Seq<EventView>, col: int)
    requires
        0 <= col <= 10,
    ensures
        ({
            let (g2, q2) = sweep_from_spec(g, q, col);
            &&& g2.foundations == g.foundations
            &&& g2.stock == g.stock
            &&& forall|suit: Suit, rank: Rank|
                count_piles(g2.tableau, suit, rank) + count_cards(queued_cards(q2), suit, rank)
                    == count_piles(g.tableau, suit, rank) + count_cards(
                    queued_cards(q),
                    suit,
                    rank,
                )
        }),
    decreases 10 - col,
{
    if col == 10 {
        lemma_sweep_done(g, q);
    } else {
        let (g1, q1) = check_column_spec(g, q, col);
        if 0 <= col < g.tableau.len() && complete_run(g.tableau[col]) {
            let pile = g.tableau[col];
            let old_len = pile.len() as int;
            let run = pile.skip(old_len - 13);
            let evs = extraction_events(col, run, old_len, g.foundations.len() as int);
            assert(g1.tableau == g.tableau.update(col, pile.take(old_len - 13)) && q1 == q
                + evs && g1.foundations == g.foundations && g1.stock == g.stock) by {
                reveal(check_column_spec);
            }
            assert forall|suit: Suit, rank: Rank|
                count_piles(g1.tableau, suit, rank) + count_cards(
                    queued_cards(q1),
                    suit,
                    rank,
                ) == count_piles(g.tableau, suit, rank) + count_cards(
                    queued_cards(q),
                    suit,
                    rank,
                ) by {
                lemma_count_piles_update(g.tableau, col, pile.take(old_len - 13), suit, rank);
                lemma_queued_cards_concat(q, evs);
                lemma_extraction_events_cards(col, run, old_len, g.foundations.len() as int);
                lemma_count_concat(queued_cards(q), run, suit, rank);
                lemma_count_concat(pile.take(old_len - 13), run, suit, rank);
                assert(pile.take(old_len - 13) + run =~= pile);
            }
        } else {
            assert(g1 == g && q1 == q) by {
                reveal(check_column_spec);
            }
        }
        lemma_sweep_step(g, q, col);
        lemma_sweep_from_preserves_cards(g1, q1, col + 1);
    }
}

/// A reported completion relocates its cards without losing or duplicating
/// one: the suit/rank counts over tableau and foundations together grow by
/// exactly the delivered cards.  Tableau arrivals must name a real column; a
/// foundation arrival carries one card, as every extraction request does.
pub proof fn lemma_apply_finish_preserves_cards(
    g: GameView,
    cards: Seq<Card>,
    from: PileType,
    to: PileType,
    flip_final: bool,
)
    requires
        match to {
            PileType::Tableau(col) => col < g.tableau.len(),
            PileType::Foundation(idx) => cards.len() == 1,
            PileType::Stock => false,
        },
    ensures
        ({
            let g2 = apply_finish_spec(g, cards, from, to, flip_final);
            forall|suit: Suit, rank: Rank|
                count_piles(g2.tableau, suit, rank) + count_piles(g2.foundations, suit, rank)
                    == count_piles(g.tableau, suit, rank) + count_piles(g.foundations, suit, rank)
                    + count_cards(cards, suit, rank)
        }),
{
    let g2 = apply_finish_spec(g, cards, from, to, flip_final);
    match to {
        PileType::Tableau(col) => {
            let extended = g.tableau[col as int] + cards;
            assert forall|suit: Suit, rank: Rank|
                count_piles(g2.tableau, suit, rank) + count_piles(g2.foundations, suit, rank)
                    == count_piles(g.tableau, suit, rank) + count_piles(g.foundations, suit, rank)
                    + count_cards(cards, suit, rank) by {
                lemma_count_concat(g.tableau[col as int], cards, suit, rank);
                lemma_count_flip_top(extended, suit, rank);
                lemma_count_piles_update(
                    g.tableau,
                    col as int,
                    if flip_final {
                        flip_top(extended)
                    } else {
                        extended
                    },
                    suit,
                    rank,
                );
            }
        },
        PileType::Foundation(idx) => {
            let f1 = if (idx as int) >= g.foundations.len() {
                g.foundations.push(seq![cards[0]])
            } else {
                g.foundations.update(idx as int, g.foundations[idx as int].push(cards[0]))
            };
            assert forall|suit: Suit, rank: Rank|
                count_piles(g2.tableau, suit, rank) + count_piles(g2.foundations, suit, rank)
                    == count_piles(g.tableau, suit, rank) + count_piles(g.foundations, suit, rank)
                    + count_cards(cards, suit, rank) by {
                assert(cards =~= Seq::<Card>::empty().push(cards[0]));
                lemma_count_push(Seq::<Card>::empty(), cards[0], suit, rank);
                if (idx as int) >= g.foundations.len() {
                    assert(f1.drop_last() =~= g.foundations);
                    assert(f1.last() =~= Seq::<Card>::empty().push(cards[0]));
                } else {
                    lemma_count_piles_update(
                        g.foundations,
                        idx as int,
                        g.foundations[idx as int].push(cards[0]),
                        suit,
                        rank,
                    );
                    lemma_count_push(g.foundations[idx as int], cards[0], suit, rank);
                }
                assert(g2.foundations == f1);
                if flip_final {
                    match from {
                        PileType::Tableau(fc) => {
                            if (fc as int) < g.tableau.len() {
                                lemma_count_flip_top(g.tableau[fc as int], suit, rank);
                                lemma_count_piles_update(
                                    g.tableau,
                                    fc as int,
                                    flip_top(g.tableau[fc as int]),
                                    suit,
                                    rank,
                                );
                            }
                        },
                        _ => {},
                    }
                }
            }
        },
        PileType::Stock => {},
    }
}

} // verus!
