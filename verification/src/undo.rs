//! Snapshot-based undo: pops the most recent history entry and restores it,
//! cancelling everything transient.

use vstd::prelude::*;

use crate::state::{AnimationEventQueue, GameHistory, GameView, SequenceCheckRequest, SpiderGame};

verus! {

/// Restores the most recent snapshot.  The current difficulty survives the
/// restore; all visual pile locks, the animation queue and the stability
/// gate's pending flag are cleared.  Undo is a no-op while a direct-path
/// commit is in flight or when the history is empty.
pub fn undo(
    game: &mut SpiderGame,
    history: &mut GameHistory,
    queue: &mut AnimationEventQueue,
    check: &mut SequenceCheckRequest,
)
    ensures
        old(game)@.auto_move_to is Some ==> {
            &&& final(game)@ == old(game)@
            &&& final(history)@ == old(history)@
            &&& final(queue)@ == old(queue)@
            &&& final(check).pending == old(check).pending
        },
        (old(game)@.auto_move_to is None && old(history)@.len() == 0) ==> {
            &&& final(game)@ == old(game)@
            &&& final(history)@ == old(history)@
            &&& final(queue)@ == old(queue)@
            &&& final(check).pending == old(check).pending
        },
        (old(game)@.auto_move_to is None && old(history)@.len() > 0) ==> {
            &&& final(history)@ == old(history)@.drop_last()
            &&& final(game)@ == (GameView {
                difficulty: old(game)@.difficulty,
                ..old(history)@.last().unlocked()
            })
            &&& final(queue)@.len() == 0
            &&& final(check).pending == false
        },
{
    if game.auto_move_to.is_some() {
        return ;
    }
    let popped = history.stack.pop();
    match popped {
        Some(prev) => {
            proof {
                assert(history@ =~= old(history)@.drop_last());
                assert(prev@ == old(history)@.last());
            }
            let diff = game.difficulty;
            *game = prev;
            game.difficulty = diff;
            let mut locks: Vec<Option<usize>> = Vec::new();
            for i in 0..10usize
                invariant
                    locks@.len() == i,
                    forall|j: int| 0 <= j < i ==> locks@[j] == Option::<usize>::None,
            {
                locks.push(None);
            }
            game.visual_pile_locks = locks;
            queue.queue.clear();
            check.pending = false;
            proof {
                assert(game@.visual_pile_locks =~= Seq::new(10, |i: int| None));
                assert(game@ == (GameView {
                    difficulty: old(game)@.difficulty,
                    ..old(history)@.last().unlocked()
                }));
                assert(queue@ =~= Seq::<crate::state::EventView>::empty());
            }
        }
        None => {}
    }
}

} // verus!
