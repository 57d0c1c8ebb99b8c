//! Move validator: which runs may be lifted, and where they may be dropped.

use vstd::prelude::*;

use crate::cards::{rank_value_spec, Card};
use crate::state::{GameHistory, GameView, PileType, SelectedCard, SpiderGame};

verus! {

/// From `start` to the top of `pile`, every card's rank is exactly one more
/// than the next card's and the suits agree: a strict same-suit descending
/// run.
pub open spec fn descending_same_suit(pile: Seq<Card>, start: int) -> bool {
    forall|i: int|
        #![trigger pile[i], pile[i + 1]]
        start <= i < pile.len() - 1 ==> pile[i].suit == pile[i + 1].suit && rank_value_spec(
            pile[i].rank,
        ) == rank_value_spec(pile[i + 1].rank) + 1
}

/// A card is liftable iff it is face-up and everything from it to the
/// column's top forms a strict same-suit descending run.
pub open spec fn liftable(g: GameView, col: int, index: int) -> bool {
    &&& 0 <= col < g.tableau.len()
    &&& 0 <= index < g.tableau[col].len()
    &&& g.tableau[col][index].face_up
    &&& descending_same_suit(g.tableau[col], index)
}

/// A lifted run headed by `card` may land on column `to_col` iff that column
/// is empty or its top card's rank is one above `card`'s; suit is
/// deliberately not checked here.
pub open spec fn drop_allowed(g: GameView, card: Card, to_col: int) -> bool {
    &&& 0 <= to_col < g.tableau.len()
    &&& (g.tableau[to_col].len() == 0 || rank_value_spec(g.tableau[to_col].last().rank)
        == rank_value_spec(card.rank) + 1)
}

impl SpiderGame {
    /// Attempts to lift the run starting at `index` of column `col`.  The
    /// pick-up succeeds, recording the selection, iff no commit is in flight
    /// and the position is liftable; otherwise nothing changes.
    #[verifier::rlimit(60)]
    pub fn try_pick_up(&mut self, col: usize, index: usize) -> (r: bool)
        ensures
            r == (old(self)@.auto_move_to is None && liftable(old(self)@, col as int, index as int)),
            r ==> final(self)@ == (GameView {
                selected: Some(
                    SelectedCard {
                        card: old(self)@.tableau[col as int][index as int],
                        from: PileType::Tableau(col),
                        index,
                    },
                ),
                ..old(self)@
            }),
            !r ==> final(self)@ == old(self)@,
    {
        if self.auto_move_to.is_some() {
            return false;
        }
        if col >= self.tableau.len() {
            return false;
        }
        let l = self.tableau[col].len();
        if index >= l {
            return false;
        }
        let card = self.tableau[col][index];
        if !card.face_up {
            return false;
        }
        let ghost pile = self@.tableau[col as int];
        for i in index..l - 1
            invariant
                col < self@.tableau.len(),
                index < l,
                pile == self@.tableau[col as int],
                l == pile.len(),
                forall|j: int|
                    #![trigger pile[j]]
                    index <= j < i ==> pile[j].suit == pile[j + 1].suit && rank_value_spec(
                        pile[j].rank,
                    ) == rank_value_spec(pile[j + 1].rank) + 1,
        {
            let cur = self.tableau[col][i];
            let nxt = self.tableau[col][i + 1];
            if cur.suit != nxt.suit || cur.rank.value() != nxt.rank.value() + 1 {
                proof {
                    assert(!descending_same_suit(pile, index as int));
                }
                return false;
            }
        }
        proof {
            assert(descending_same_suit(pile, index as int));
        }
        self.selected = Some(SelectedCard { card, from: PileType::Tableau(col), index });
        true
    }

    /// Whether the selected card heading a lifted run may be dropped on
    /// column `to_col`: the column is empty, or rank-adjacent on top;
    /// suit is ignored.
    pub fn can_drop(&self, card: &Card, to_col: usize) -> (r: bool)
        ensures
            r == drop_allowed(self@, *card, to_col as int),
    {
        if to_col >= self.tableau.len() {
            return false;
        }
        match self.get_tableau_top(to_col) {
            Some(top) => card.can_stack_on(top),
            None => true,
        }
    }

    /// Resolves a drop gesture on column `to_col`.  A valid drop pushes a
    /// cleaned history snapshot and records the pending commit; an invalid
    /// one cancels the gesture with no state change and no history entry.
    /// While a commit is already in flight the gesture is refused outright:
    /// nothing changes, so only one commit is ever pending and only one
    /// history entry exists per committed move.
    pub fn try_drop(&mut self, history: &mut GameHistory, to_col: usize) -> (accepted: bool)
        requires
            old(self)@.selected is Some,
        ensures
            accepted == (old(self)@.auto_move_to is None && drop_allowed(
                old(self)@,
                old(self)@.selected->Some_0.card,
                to_col as int,
            )),
            old(self)@.auto_move_to is Some ==> {
                &&& final(history)@ == old(history)@
                &&& final(self)@ == old(self)@
            },
            accepted ==> {
                &&& final(history)@ == old(history)@.push(old(self)@.cleaned())
                &&& final(self)@ == (GameView {
                    auto_move_to: Some(PileType::Tableau(to_col)),
                    ..old(self)@
                })
            },
            (old(self)@.auto_move_to is None && !accepted) ==> {
                &&& final(history)@ == old(history)@
                &&& final(self)@ == (GameView { selected: None, ..old(self)@ })
            },
    {
        if self.auto_move_to.is_some() {
            return false;
        }
        let sel_card = match &self.selected {
            Some(s) => s.card,
            None => {
                proof {
                    assert(false);
                }
                Card { suit: crate::cards::Suit::Spades, rank: crate::cards::Rank::Ace, face_up: false }
            }
        };
        if self.can_drop(&sel_card, to_col) {
            let snap = self.snapshot_cleaned();
            history.stack.push(snap);
            proof {
                assert(history@ =~= old(history)@.push(old(self)@.cleaned()));
            }
            self.auto_move_to = Some(PileType::Tableau(to_col));
            true
        } else {
            self.selected = None;
            false
        }
    }

    /// Cancels the gesture when the drop found no target at all: the
    /// selection is discarded with no state change and no history entry.
    /// While a commit is in flight the selection belongs to that commit and
    /// the cancel is refused.
    pub fn cancel_selection(&mut self)
        ensures
            old(self)@.auto_move_to is None ==> final(self)@ == (GameView {
                selected: None,
                ..old(self)@
            }),
            old(self)@.auto_move_to is Some ==> final(self)@ == old(self)@,
    {
        if self.auto_move_to.is_none() {
            self.selected = None;
        }
    }
}

} // verus!
