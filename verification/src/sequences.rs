//! Sequence completion detector and the stability gate in front of it.

use vstd::prelude::*;
use vstd::pervasive::VecAdditionalExecFns;

use crate::cards::{Card, Rank};
use crate::moves::descending_same_suit;
use crate::state::{AnimationEventQueue, EventView, GameView, PileType, SequenceCheckRequest,
    SpiderGame, StartAnimationEvent};

verus! {

/// The trailing thirteen cards of `pile` form a complete run: the earliest
/// of them is a King, the latest an Ace, and each consecutive pair shares a
/// suit and descends by exactly one rank.
pub open spec fn complete_run(pile: Seq<Card>) -> bool {
    &&& pile.len() >= 13
    &&& pile[pile.len() - 13].rank == Rank::King
    &&& pile.last().rank == Rank::Ace
    &&& descending_same_suit(pile, pile.len() - 13)
}

/// The request carrying card `j` (counted from the drained run's King) of a
/// completed run flying from column `col` to foundation slot `fidx`.  The
/// Ace carries no start delay and is dispatched first; only the King's
/// request is marked flip-final.
pub open spec fn foundation_event_view(
    col: int,
    card: Card,
    j: int,
    old_len: int,
    fidx: int,
) -> EventView {
    EventView {
        cards: seq![card],
        from: PileType::Tableau(col as usize),
        to: PileType::Foundation(fidx as usize),
        from_index: old_len - 13 + j,
        delay: 12 - j,
        flip_final: j == 0,
        original_pile_len: Some(old_len),
        target_index_override: None,
        fly_z_override: Some(12 - j),
    }
}

/// The thirteen requests a completed run is queued as, in queue order
/// (King first, so that the Ace leaves the tail of the queue first).
pub open spec fn extraction_events(col: int, run: Seq<Card>, old_len: int, fidx: int) -> Seq<
    EventView,
> {
    Seq::new(13, |j: int| foundation_event_view(col, run[j], j, old_len, fidx))
}

/// One column's completion check: a qualifying trailing run is drained, the
/// column's visual pile lock records the pre-extraction length, and the
/// thirteen requests are appended to the queue.
#[verifier::opaque]
pub open spec fn check_column_spec(g: GameView, q: Seq<EventView>, col: int) -> (GameView, Seq<
    EventView,
>) {
    if 0 <= col < g.tableau.len() && complete_run(g.tableau[col]) {
        let pile = g.tableau[col];
        let old_len = pile.len() as int;
        let run = pile.skip(old_len - 13);
        let g2 = GameView {
            tableau: g.tableau.update(col, pile.take(old_len - 13)),
            visual_pile_locks: g.visual_pile_locks.update(col, Some(pile.len() as usize)),
            ..g
        };
        (g2, q + extraction_events(col, run, old_len, g.foundations.len() as int))
    } else {
        (g, q)
    }
}

/// The whole detector pass, sweeping the remaining columns from `col` on.
/// Every column uses the same foundation slot index: foundations only grow
/// when a request completes, never during the sweep itself.
#[verifier::opaque]
pub open spec fn sweep_from_spec(g: GameView, q: Seq<EventView>, col: int) -> (GameView, Seq<
    EventView,
>)
    decreases 10 - col,
{
    if col < 0 || col >= 10 {
        (g, q)
    } else {
        let (g1, q1) = check_column_spec(g, q, col);
        sweep_from_spec(g1, q1, col + 1)
    }
}

/// The whole detector pass over all ten columns.
pub open spec fn sweep_spec(g: GameView, q: Seq<EventView>) -> (GameView, Seq<EventView>) {
    sweep_from_spec(g, q, 0)
}

/// The thirteen extraction requests together carry exactly the drained run.
pub proof fn lemma_extraction_events_cards(col: int, run: Seq<Card>, old_len: int, fidx: int)
    requires
        run.len() == 13,
    ensures
        crate::deal::queued_cards(extraction_events(col, run, old_len, fidx)) == run,
{
    let evs = extraction_events(col, run, old_len, fidx);
    lemma_extraction_events_cards_prefix(col, run, old_len, fidx, 13);
    assert(evs.take(13) =~= evs);
    assert(run.take(13) =~= run);
}

proof fn lemma_extraction_events_cards_prefix(
    col: int,
    run: Seq<Card>,
    old_len: int,
    fidx: int,
    j: int,
)
    requires
        run.len() == 13,
        0 <= j <= 13,
    ensures
        crate::deal::queued_cards(extraction_events(col, run, old_len, fidx).take(j)) == run.take(
            j,
        ),
    decreases j,
{
    let evs = extraction_events(col, run, old_len, fidx);
    if j == 0 {
        assert(evs.take(0) =~= Seq::<EventView>::empty());
        assert(run.take(0) =~= Seq::<Card>::empty());
    } else {
        lemma_extraction_events_cards_prefix(col, run, old_len, fidx, j - 1);
        assert(evs.take(j).drop_last() =~= evs.take(j - 1));
        assert(evs.take(j).last() == evs[j - 1]);
        assert(run.take(j - 1) + evs[j - 1].cards =~= run.take(j));
    }
}

/// Unfolds one step of the detector sweep.
pub proof fn lemma_sweep_step(g: GameView, q: Seq<EventView>, col: int)
    requires
        0 <= col < 10,
    ensures
        sweep_from_spec(g, q, col) == ({
            let (g1, q1) = check_column_spec(g, q, col);
            sweep_from_spec(g1, q1, col + 1)
        }),
{
    reveal_with_fuel(sweep_from_spec, 2);
}

/// Past the last column the detector sweep changes nothing.
pub proof fn lemma_sweep_done(g: GameView, q: Seq<EventView>)
    ensures
        sweep_from_spec(g, q, 10) == (g, q),
{
    reveal_with_fuel(sweep_from_spec, 2);
}

/// Sweeping columns none of which holds a complete trailing run changes
/// nothing.
pub proof fn lemma_sweep_no_runs(g: GameView, q: Seq<EventView>, col: int)
    requires
        0 <= col <= 10,
        g.tableau.len() == 10,
        forall|j: int| col <= j < 10 ==> !complete_run(#[trigger] g.tableau[j]),
    ensures
        sweep_from_spec(g, q, col) == (g, q),
    decreases 10 - col,
{
    if col < 10 {
        let (g1, q1) = check_column_spec(g, q, col);
        assert(g1 == g && q1 == q) by {
            reveal(check_column_spec);
        }
        lemma_sweep_step(g, q, col);
        lemma_sweep_no_runs(g, q, col + 1);
    } else {
        lemma_sweep_done(g, q);
    }
}

proof fn lemma_sweep_skip_to(g: GameView, q: Seq<EventView>, col: int, c: int)
    requires
        0 <= col <= c <= 10,
        g.tableau.len() == 10,
        forall|j: int| col <= j < c ==> !complete_run(#[trigger] g.tableau[j]),
    ensures
        sweep_from_spec(g, q, col) == sweep_from_spec(g, q, c),
    decreases c - col,
{
    if col < c {
        let (g1, q1) = check_column_spec(g, q, col);
        assert(g1 == g && q1 == q) by {
            reveal(check_column_spec);
        }
        lemma_sweep_step(g, q, col);
        lemma_sweep_skip_to(g, q, col + 1, c);
    }
}

/// When exactly one column holds a complete trailing run, the whole detector
/// pass is that column's extraction and nothing else.
pub proof fn lemma_sweep_single_column(g: GameView, q: Seq<EventView>, c: int)
    requires
        g.tableau.len() == 10,
        0 <= c < 10,
        complete_run(g.tableau[c]),
        forall|j: int| 0 <= j < 10 && j != c ==> !complete_run(#[trigger] g.tableau[j]),
    ensures
        sweep_spec(g, q) == check_column_spec(g, q, c),
{
    lemma_sweep_skip_to(g, q, 0, c);
    lemma_sweep_step(g, q, c);
    let (g1, q1) = check_column_spec(g, q, c);
    assert(g1.tableau.len() == 10 && forall|j: int|
        0 <= j < 10 && j != c ==> #[trigger] g1.tableau[j] == g.tableau[j]) by {
        reveal(check_column_spec);
    }
    lemma_sweep_no_runs(g1, q1, c + 1);
}

/// Checks one column for a completed trailing run and extracts it.
#[verifier::rlimit(50)]
fn check_one_column(game: &mut SpiderGame, queue: &mut AnimationEventQueue, col: usize) -> (found:
    bool)
    requires
        col < 10,
        old(game)@.tableau.len() == 10,
        old(game)@.visual_pile_locks.len() == 10,
    ensures
        found == complete_run(old(game)@.tableau[col as int]),
        final(game)@.tableau.len() == old(game)@.tableau.len(),
        final(game)@.visual_pile_locks.len() == old(game)@.visual_pile_locks.len(),
        ({
            let (g2, q2) = check_column_spec(old(game)@, old(queue)@, col as int);
            final(game)@ == g2 && final(queue)@ == q2
        }),
{
    proof {
        reveal(check_column_spec);
    }
    let l = game.tableau[col].len();
    if l < 13 {
        return false;
    }
    let start = l - 13;
    if !(matches!(game.tableau[col][start].rank, Rank::King)) {
        return false;
    }
    if !(matches!(game.tableau[col][l - 1].rank, Rank::Ace)) {
        return false;
    }
    if !trailing_run_descends(&game.tableau[col], start) {
        proof {
            reveal(check_column_spec);
        }
        return false;
    }
    proof {
        assert(complete_run(game@.tableau[col as int]));
    }
    game.visual_pile_locks.set(col, Some(l));
    let run = game.tableau[col].split_off(start);
    let fidx = game.foundations.len();
    push_extraction_events(queue, col, &run, l, fidx);
    proof {
        reveal(check_column_spec);
        let (g2, q2) = check_column_spec(old(game)@, old(queue)@, col as int);
        assert(game@.tableau =~= g2.tableau);
        assert(game@.visual_pile_locks =~= g2.visual_pile_locks);
        assert(game@ == g2);
        assert(queue@ == q2);
    }
    true
}

/// Whether every card from `start` to the top of the column continues a
/// strict same-suit descending run.
#[verifier::rlimit(30)]
fn trailing_run_descends(colv: &Vec<Card>, start: usize) -> (r: bool)
    requires
        start < colv@.len(),
    ensures
        r == descending_same_suit(colv@, start as int),
{
    let l = colv.len();
    let ghost pile = colv@;
    for i in start..l - 1
        invariant
            start < l,
            l == pile.len(),
            pile == colv@,
            forall|j: int|
                #![trigger pile[j]]
                start <= j < i ==> pile[j].suit == pile[j + 1].suit
                    && crate::cards::rank_value_spec(pile[j].rank) == crate::cards::rank_value_spec(
                    pile[j + 1].rank,
                ) + 1,
    {
        let cur = colv[i];
        let nxt = colv[i + 1];
        if cur.suit != nxt.suit || cur.rank.value() != nxt.rank.value() + 1 {
            proof {
                assert(!descending_same_suit(pile, start as int));
            }
            return false;
        }
    }
    proof {
        assert(descending_same_suit(pile, start as int));
    }
    true
}

/// Queues the thirteen requests that carry a drained run to foundation slot
/// `fidx`, King's request first.
#[verifier::rlimit(50)]
fn push_extraction_events(
    queue: &mut AnimationEventQueue,
    col: usize,
    run: &Vec<Card>,
    old_len: usize,
    fidx: usize,
)
    requires
        col < 10,
        run@.len() == 13,
        old_len >= 13,
    ensures
        final(queue)@ == old(queue)@ + extraction_events(
            col as int,
            run@,
            old_len as int,
            fidx as int,
        ),
{
    let ghost q0 = queue@;
    let ghost evs = extraction_events(col as int, run@, old_len as int, fidx as int);
    proof {
        assert(q0 + evs.take(0) =~= q0);
    }
    for j in 0..13usize
        invariant
            col < 10,
            run@.len() == 13,
            old_len >= 13,
            queue@ == q0 + evs.take(j as int),
            evs == extraction_events(col as int, run@, old_len as int, fidx as int),
    {
        let c = run[j];
        let mut cards: Vec<Card> = Vec::new();
        cards.push(c);
        let ev = StartAnimationEvent {
            cards,
            from: PileType::Tableau(col),
            to: PileType::Foundation(fidx),
            from_index: (old_len - 13) + j,
            delay: (12 - j) as u32,
            flip_final: j == 0,
            original_pile_len: Some(old_len),
            target_index_override: None,
            fly_z_override: Some((12 - j) as u32),
        };
        let ghost qb = queue@;
        queue.queue.push(ev);
        proof {
            assert(ev@ == evs[j as int]);
            assert(queue@ =~= qb.push(ev@));
            assert(evs.take(j + 1) =~= evs.take(j as int).push(evs[j as int]));
            assert(queue@ =~= q0 + evs.take(j + 1));
        }
    }
    proof {
        assert(evs.take(13) =~= evs);
    }
}

/// Scans every tableau column for a complete trailing run and extracts each
/// qualifying one to the next foundation slot.
#[verifier::rlimit(50)]
pub fn check_completed_sequences(game: &mut SpiderGame, queue: &mut AnimationEventQueue)
    requires
        old(game)@.wf(),
    ensures
        ({
            let (g2, q2) = sweep_spec(old(game)@, old(queue)@);
            final(game)@ == g2 && final(queue)@ == q2
        }),
{
    for col in 0..10usize
        invariant
            game@.tableau.len() == 10,
            game@.visual_pile_locks.len() == 10,
            sweep_from_spec(game@, queue@, col as int) == sweep_spec(old(game)@, old(queue)@),
    {
        let ghost g_before = game@;
        let ghost q_before = queue@;
        proof {
            lemma_sweep_step(g_before, q_before, col as int);
        }
        check_one_column(game, queue, col);
    }
    proof {
        lemma_sweep_done(game@, queue@);
    }
}

/// Sum of the lengths of all columns in `t`.
pub open spec fn total_len(t: Seq<Seq<Card>>) -> int
    decreases t.len(),
{
    if t.len() == 0 {
        0
    } else {
        total_len(t.drop_last()) + t.last().len()
    }
}

/// The stability gate's full transition: the detector sweeps, and the
/// pending flag clears, exactly when a check is pending, the logically held
/// tableau cards all have a rendered counterpart, and every rendered card
/// sits at its target.
pub open spec fn stability_spec(
    g: GameView,
    q: Seq<EventView>,
    pending: bool,
    visual_count: int,
    all_stable: bool,
) -> (GameView, Seq<EventView>, bool) {
    if pending && total_len(g.tableau) == visual_count && all_stable {
        let (g2, q2) = sweep_spec(g, q);
        (g2, q2, false)
    } else {
        (g, q, pending)
    }
}

/// Runs the stability gate: the completion detector fires, and the pending
/// flag clears, only once every rendered card matches the logical state.
#[verifier::rlimit(50)]
pub fn run_stability_check(
    game: &mut SpiderGame,
    queue: &mut AnimationEventQueue,
    check: &mut SequenceCheckRequest,
    visual_count: usize,
    all_stable: bool,
) -> (ran: bool)
    requires
        old(game)@.wf(),
    ensures
        ran == (old(check).pending && total_len(old(game)@.tableau) == visual_count as int
            && all_stable),
        ({
            let (g2, q2, p2) = stability_spec(
                old(game)@,
                old(queue)@,
                old(check).pending,
                visual_count as int,
                all_stable,
            );
            final(game)@ == g2 && final(queue)@ == q2 && final(check).pending == p2
        }),
{
    if !check.pending {
        return false;
    }
    let mut logical: u128 = 0;
    for i in 0..10usize
        invariant
            game@.tableau.len() == 10,
            logical == total_len(game@.tableau.take(i as int)),
            logical as int <= i as int * 0x1_0000_0000_0000_0000,
    {
        proof {
            assert(game@.tableau.take(i + 1).drop_last() =~= game@.tableau.take(i as int));
            assert(game@.tableau.take(i + 1).last() == game@.tableau[i as int]);
        }
        logical = logical + game.tableau[i].len() as u128;
    }
    proof {
        assert(game@.tableau.take(10) =~= game@.tableau);
    }
    if logical != visual_count as u128 {
        return false;
    }
    if !all_stable {
        return false;
    }
    check_completed_sequences(game, queue);
    check.pending = false;
    true
}

/// The stability gate is idempotent: once a check has fired, the pending
/// flag is down, and a second check with no intervening mutation changes
/// nothing, whatever the collaborator reports.
pub proof fn lemma_stability_check_idempotent(
    g: GameView,
    q: Seq<EventView>,
    pending: bool,
    v1: int,
    s1: bool,
    v2: int,
    s2: bool,
)
    ensures
        ({
            let (g1, q1, p1) = stability_spec(g, q, pending, v1, s1);
            pending && total_len(g.tableau) == v1 && s1 ==> stability_spec(g1, q1, p1, v2, s2) == (
                g1,
                q1,
                p1,
            )
        }),
{
}

} // verus!
