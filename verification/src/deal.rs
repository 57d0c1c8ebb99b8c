//! Deal engine: builds and shuffles the deck, lays out the opening deal as a
//! reversed batch of queued animation requests, and redeals the stock.

use vstd::prelude::*;

use rand::seq::SliceRandom;

use crate::cards::{count_cards, face_down_all, lemma_count_cards_permutation, lemma_count_concat,
    lemma_count_face_down_all, lemma_spider_deck_composition, spider_deck_seq, Card, Rank, Suit,
    expected_copies};
use crate::state::{AnimationEventQueue, AnimationFinishedEvent, Difficulty, EventView,
    GameHistory, PileType, SequenceCheckRequest, SpiderGame, StartAnimationEvent, fresh_game,
    GameView};

verus! {

/// Relies on rand's `SliceRandom::shuffle`: an in-place Fisher-Yates
/// permutation of the slice, so every outcome holds exactly the old cards,
/// merely reordered.
#[verifier::external_body]
fn shuffle_cards(deck: &mut Vec<Card>)
    ensures
        final(deck)@.to_multiset() == old(deck)@.to_multiset(),
        final(deck)@.len() == old(deck)@.len(),
{
    deck.shuffle(&mut rand::thread_rng());
}

/// All cards carried by a batch of queued animation requests, in queue order.
pub open spec fn queued_cards(q: Seq<EventView>) -> Seq<Card>
    decreases q.len(),
{
    if q.len() == 0 {
        Seq::<Card>::empty()
    } else {
        queued_cards(q.drop_last()) + q.last().cards
    }
}

pub proof fn lemma_queued_cards_push(q: Seq<EventView>, ev: EventView)
    ensures
        queued_cards(q.push(ev)) == queued_cards(q) + ev.cards,
{
    assert(q.push(ev).drop_last() =~= q);
    assert(q.push(ev).last() == ev);
}

pub proof fn lemma_queued_cards_concat(a: Seq<EventView>, b: Seq<EventView>)
    ensures
        queued_cards(a + b) == queued_cards(a) + queued_cards(b),
    decreases b.len(),
{
    if b.len() == 0 {
        assert(a + b =~= a);
        assert(queued_cards(a) + queued_cards(b) =~= queued_cards(a));
    } else {
        lemma_queued_cards_concat(a, b.drop_last());
        assert((a + b).drop_last() =~= a + b.drop_last());
        assert((a + b).last() == b.last());
        assert(queued_cards(a) + queued_cards(b.drop_last()) + b.last().cards =~= queued_cards(a)
            + (queued_cards(b.drop_last()) + b.last().cards));
    }
}

/// Shape of the opening deal's request for round-robin position `k`
/// (`k` counts dispatch order: card `k` lands on column `k % 10` at height
/// `k / 10`, and the last card of each column flips face-up on arrival).
pub open spec fn initial_deal_event(ev: EventView, k: int) -> bool {
    &&& ev.cards.len() == 1
    &&& !ev.cards[0].face_up
    &&& ev.from == PileType::Stock
    &&& ev.to == PileType::Tableau((k % 10) as usize)
    &&& ev.from_index == 0
    &&& ev.delay == 0
    &&& ev.flip_final == if k % 10 < 4 {
        k >= 50
    } else {
        k >= 44
    }
    &&& ev.original_pile_len == Option::<int>::None
    &&& ev.target_index_override == Option::Some(k / 10)
}

/// A freshly produced opening-deal batch: 54 requests, reversed so that the
/// dispatcher, popping from the tail, releases round-robin order.
pub open spec fn initial_deal_queue(q: Seq<EventView>) -> bool {
    &&& q.len() == 54
    &&& forall|i: int| 0 <= i < 54 ==> initial_deal_event(#[trigger] q[i], 53 - i)
}

/// Starts a new deal: resets the state, clears the history, builds and
/// shuffles the difficulty's 104-card deck, queues the 54 opening-deal
/// requests and leaves the remaining 50 cards in the stock.  No card is lost:
/// stock plus queued cards still hold the difficulty's exact composition.
pub fn start_new_game(
    game: &mut SpiderGame,
    history: &mut GameHistory,
    queue: &mut AnimationEventQueue,
    difficulty: Difficulty,
)
    ensures
        final(history)@.len() == 0,
        final(game)@ == (GameView { stock: final(game)@.stock, ..fresh_game(difficulty) }),
        final(game)@.stock.len() == 50,
        initial_deal_queue(final(queue)@),
        forall|suit: Suit, rank: Rank|
            count_cards(final(game)@.stock + queued_cards(final(queue)@), suit, rank)
                == expected_copies(difficulty, suit),
{
    history.stack.clear();
    let mut fresh = SpiderGame::default();
    fresh.difficulty = difficulty;
    *game = fresh;

    let mut deck = Card::new_spider_deck(difficulty);
    shuffle_cards(&mut deck);
    let ghost deck0 = deck@;

    queue.queue.clear();
    proof {
        lemma_spider_deck_composition(difficulty);
        assert(queue@ =~= Seq::<EventView>::empty());
        assert(queued_cards(queue@) =~= face_down_all(deck0.subrange(50, 50)));
    }
    for i in 0..54usize
        invariant
            deck@ == deck0,
            deck0.len() == 104,
            queue@.len() == i,
            forall|j: int| 0 <= j < i ==> initial_deal_event(#[trigger] queue@[j], 53 - j),
            queued_cards(queue@) == face_down_all(deck0.subrange(50, 50 + i as int)),
    {
        let ghost q_before = queue@;
        let k: usize = 53 - i;
        let c = deck[50 + i];
        let card = Card { suit: c.suit, rank: c.rank, face_up: false };
        let col = k % 10;
        let flip = if col < 4 {
            k >= 50
        } else {
            k >= 44
        };
        let mut cards: Vec<Card> = Vec::new();
        cards.push(card);
        let ev = StartAnimationEvent {
            cards,
            from: PileType::Stock,
            to: PileType::Tableau(col),
            from_index: 0,
            delay: 0,
            flip_final: flip,
            original_pile_len: None,
            target_index_override: Some(k / 10),
            fly_z_override: Some(k as u32),
        };
        queue.queue.push(ev);
        proof {
            assert(queue@ =~= q_before.push(ev@));
            lemma_queued_cards_push(q_before, ev@);
            assert(face_down_all(deck0.subrange(50, 50 + i + 1)) =~= face_down_all(
                deck0.subrange(50, 50 + i as int),
            ) + ev@.cards);
        }
    }
    deck.truncate(50);
    game.stock = deck;
    proof {
        assert(game@ == (GameView { stock: game@.stock, ..fresh_game(difficulty) }));
        let stock = deck0.subrange(0, 50);
        let rest = deck0.subrange(50, 104);
        assert forall|suit: Suit, rank: Rank|
            count_cards(game@.stock + queued_cards(queue@), suit, rank) == expected_copies(
                difficulty,
                suit,
            ) by {
            lemma_count_concat(stock, face_down_all(rest), suit, rank);
            lemma_count_face_down_all(rest, suit, rank);
            lemma_count_concat(stock, rest, suit, rank);
            assert(stock + rest =~= deck0);
            lemma_count_cards_permutation(deck0, spider_deck_seq(difficulty), suit, rank);
            lemma_spider_deck_composition(difficulty);
        }
    }
}

/// Shape of one stock-redeal request: a single card, already turned face-up,
/// flying from the stock onto column `col` at height `height`.
pub open spec fn redeal_event(ev: EventView, col: int, card: Card, height: int) -> bool {
    &&& ev.cards.len() == 1
    &&& ev.cards[0] == (Card { suit: card.suit, rank: card.rank, face_up: true })
    &&& ev.from == PileType::Stock
    &&& ev.to == PileType::Tableau(col as usize)
    &&& ev.from_index == 0
    &&& ev.delay == 0
    &&& ev.flip_final == false
    &&& ev.original_pile_len == Option::<int>::None
    &&& ev.target_index_override == Option::Some(height)
}

/// Redeals the stock: one card per column, face-up on arrival, queued as a
/// reversed batch behind whatever is already queued.  A snapshot is pushed
/// first; an empty stock makes the whole request a no-op.
pub fn deal_stock(game: &mut SpiderGame, history: &mut GameHistory, queue: &mut AnimationEventQueue)
    requires
        old(game)@.wf(),
    ensures
        old(game)@.stock.len() == 0 ==> final(game)@ == old(game)@ && final(history)@ == old(
            history,
        )@ && final(queue)@ == old(queue)@,
        old(game)@.stock.len() > 0 ==> {
            let slen = old(game)@.stock.len() as int;
            let n = if slen >= 10 {
                10int
            } else {
                slen
            };
            let qlen = old(queue)@.len() as int;
            &&& final(history)@ == old(history)@.push(old(game)@.cleaned())
            &&& final(game)@ == (GameView {
                stock: old(game)@.stock.take(slen - n),
                ..old(game)@
            })
            &&& final(queue)@.len() == qlen + n
            &&& final(queue)@.take(qlen) == old(queue)@
            &&& forall|j: int|
                0 <= j < n ==> redeal_event(
                    #[trigger] final(queue)@[qlen + j],
                    n - 1 - j,
                    old(game)@.stock[slen - n + j],
                    old(game)@.tableau[n - 1 - j].len() as int,
                )
        },
{
    if game.stock.len() == 0 {
        return ;
    }
    let snap = game.snapshot_cleaned();
    history.stack.push(snap);
    proof {
        assert(history@ =~= old(history)@.push(old(game)@.cleaned()));
    }
    let slen = game.stock.len();
    let n: usize = if slen >= 10 {
        10
    } else {
        slen
    };
    let ghost q0 = queue@;
    for j in 0..n
        invariant
            game@ == old(game)@,
            game@.wf(),
            slen == game@.stock.len(),
            n == if slen >= 10 {
                10int
            } else {
                slen as int
            },
            queue@.len() == q0.len() + j,
            queue@.take(q0.len() as int) == q0,
            forall|t: int|
                0 <= t < j ==> redeal_event(
                    #[trigger] queue@[q0.len() + t],
                    n - 1 - t,
                    game@.stock[slen - n + t],
                    game@.tableau[n - 1 - t].len() as int,
                ),
    {
        let i: usize = n - 1 - j;
        let c = game.stock[slen - n + j];
        let card = Card { suit: c.suit, rank: c.rank, face_up: true };
        let target = game.tableau[i].len();
        let mut cards: Vec<Card> = Vec::new();
        cards.push(card);
        let ev = StartAnimationEvent {
            cards,
            from: PileType::Stock,
            to: PileType::Tableau(i),
            from_index: 0,
            delay: 0,
            flip_final: false,
            original_pile_len: None,
            target_index_override: Some(target),
            fly_z_override: Some(i as u32),
        };
        let ghost qb = queue@;
        queue.queue.push(ev);
        proof {
            assert(queue@ =~= qb.push(ev@));
            assert(queue@.take(q0.len() as int) =~= q0);
        }
    }
    game.stock.truncate(slen - n);
    proof {
        assert(game@ == (GameView { stock: old(game)@.stock.take(slen - n), ..old(game)@ }));
    }
}

/// How many cards column `c` holds after the first `m` round-robin deals.
pub open spec fn col_fill(m: int, c: int) -> int {
    m / 10 + if c < m % 10 {
        1int
    } else {
        0int
    }
}

/// How many cards of the given suit and rank the whole tableau holds.
pub open spec fn count_piles(t: Seq<Seq<Card>>, suit: Suit, rank: Rank) -> int
    decreases t.len(),
{
    if t.len() == 0 {
        0
    } else {
        count_piles(t.drop_last(), suit, rank) + count_cards(t.last(), suit, rank)
    }
}

/// Replacing one column changes the tableau's count by that column's change.
pub proof fn lemma_count_piles_update(
    t: Seq<Seq<Card>>,
    col: int,
    newcol: Seq<Card>,
    suit: Suit,
    rank: Rank,
)
    requires
        0 <= col < t.len(),
    ensures
        count_piles(t.update(col, newcol), suit, rank) == count_piles(t, suit, rank)
            - count_cards(t[col], suit, rank) + count_cards(newcol, suit, rank),
    decreases t.len(),
{
    let u = t.update(col, newcol);
    if col == t.len() - 1 {
        assert(u.drop_last() =~= t.drop_last());
        assert(u.last() == newcol);
    } else {
        assert(u.drop_last() =~= t.drop_last().update(col, newcol));
        assert(u.last() == t.last());
        lemma_count_piles_update(t.drop_last(), col, newcol, suit, rank);
    }
}

/// Appending one card raises the column's matching count by at most one.
pub proof fn lemma_count_push(p: Seq<Card>, c: Card, suit: Suit, rank: Rank)
    ensures
        count_cards(p.push(c), suit, rank) == count_cards(p, suit, rank) + if c.suit == suit
            && c.rank == rank {
            1int
        } else {
            0int
        },
{
    assert(p.push(c).drop_last() =~= p);
    assert(p.push(c).last() == c);
}

/// Turning a pile's top card face-up leaves every suit/rank count unchanged.
pub proof fn lemma_count_flip_top(p: Seq<Card>, suit: Suit, rank: Rank)
    ensures
        count_cards(crate::commit::flip_top(p), suit, rank) == count_cards(p, suit, rank),
{
    if p.len() > 0 {
        let q = crate::commit::flip_top(p);
        assert(q.drop_last() =~= p.drop_last());
        assert(q.last().suit == p.last().suit && q.last().rank == p.last().rank);
    }
}

/// The card that the opening deal's round-robin position `k` receives, as it
/// lies after the drain: the queued card, face-up exactly when its request
/// was marked flip-final.
pub open spec fn dealt_card(q0: Seq<EventView>, k: int) -> Card {
    let ev = q0[53 - k];
    Card { suit: ev.cards[0].suit, rank: ev.cards[0].rank, face_up: ev.flip_final }
}

/// Drains a freshly produced opening-deal queue, applying every completion
/// in dispatch order: columns 0-3 end with six cards, columns 4-9 with five,
/// every position holds exactly the card its request carried with only each
/// column's top card face-up, the stock and every other field stay as they
/// were, and no card is lost or duplicated.
#[verifier::rlimit(50)]
pub fn apply_queued_deal(
    game: &mut SpiderGame,
    queue: &mut AnimationEventQueue,
    check: &mut SequenceCheckRequest,
)
    requires
        old(game)@.wf(),
        forall|c: int| 0 <= c < 10 ==> old(game)@.tableau[c].len() == 0,
        initial_deal_queue(old(queue)@),
    ensures
        final(game)@ == (GameView { tableau: final(game)@.tableau, ..old(game)@ }),
        final(game)@.tableau.len() == 10,
        forall|c: int| 0 <= c < 4 ==> final(game)@.tableau[c].len() == 6,
        forall|c: int| 4 <= c < 10 ==> final(game)@.tableau[c].len() == 5,
        final(queue)@.len() == 0,
        final(check).pending == true,
        forall|c: int, i: int|
            #![trigger final(game)@.tableau[c][i]]
            0 <= c < 10 && 0 <= i < final(game)@.tableau[c].len() ==> final(game)@.tableau[c][i]
                == dealt_card(old(queue)@, 10 * i + c),
        forall|c: int, i: int|
            #![trigger final(game)@.tableau[c][i].face_up]
            0 <= c < 10 && 0 <= i < final(game)@.tableau[c].len() ==> {
                let column = final(game)@.tableau[c];
                column[i].face_up <==> i == column.len() - 1
            },
        forall|suit: Suit, rank: Rank|
            count_piles(final(game)@.tableau, suit, rank) == count_cards(
                queued_cards(old(queue)@),
                suit,
                rank,
            ),
{
    let ghost q0 = old(queue)@;
    proof {
        assert(q0.take(54) =~= q0);
        assert forall|suit: Suit, rank: Rank|
            count_piles(game@.tableau, suit, rank) == 0 by {
            lemma_count_piles_empty(game@.tableau, suit, rank);
        }
    }
    for m in 0..54usize
        invariant
            initial_deal_queue(q0),
            queue@ == q0.take(54 - m as int),
            game@.tableau.len() == 10,
            game@ == (GameView { tableau: game@.tableau, ..old(game)@ }),
            forall|c: int| 0 <= c < 10 ==> #[trigger] game@.tableau[c].len() == col_fill(m as int, c),
            forall|c: int, i: int|
                #![trigger game@.tableau[c][i]]
                0 <= c < 10 && 0 <= i < game@.tableau[c].len() ==> game@.tableau[c][i]
                    == dealt_card(q0, 10 * i + c),
            forall|suit: Suit, rank: Rank|
                count_piles(game@.tableau, suit, rank) + count_cards(
                    queued_cards(queue@),
                    suit,
                    rank,
                ) == count_cards(queued_cards(q0), suit, rank),
            m > 0 ==> check.pending == true,
    {
        let ghost q_rem = queue@;
        let ev = match dispatch_next(queue) {
            Some(e) => e,
            None => {
                proof {
                    assert(false);
                }
                StartAnimationEvent {
                    cards: Vec::new(),
                    from: PileType::Stock,
                    to: PileType::Stock,
                    from_index: 0,
                    delay: 0,
                    flip_final: false,
                    original_pile_len: None,
                    target_index_override: None,
                    fly_z_override: None,
                }
            }
        };
        proof {
            assert(q_rem.last() == q0[53 - m as int]);
            assert(initial_deal_event(ev@, m as int));
            assert(queue@ =~= q0.take(54 - (m + 1)));
        }
        let fin = AnimationFinishedEvent {
            cards: ev.cards,
            from: ev.from,
            to: ev.to,
            flip_final: ev.flip_final,
        };
        let ghost t_before = game@.tableau;
        let _ = crate::commit::apply_animation_finished(game, &fin, check);
        proof {
            let col = (m as int) % 10;
            let pile = t_before[col];
            let extended = pile + fin.cards@;
            assert(extended =~= pile.push(fin.cards@[0]));
            assert forall|suit: Suit, rank: Rank|
                count_piles(game@.tableau, suit, rank) + count_cards(
                    queued_cards(queue@),
                    suit,
                    rank,
                ) == count_cards(queued_cards(q0), suit, rank) by {
                lemma_count_push(pile, fin.cards@[0], suit, rank);
                lemma_count_flip_top(extended, suit, rank);
                lemma_count_piles_update(
                    t_before,
                    col,
                    game@.tableau[col],
                    suit,
                    rank,
                );
                assert(queued_cards(q_rem) == queued_cards(queue@) + q_rem.last().cards);
                lemma_count_concat(queued_cards(queue@), q_rem.last().cards, suit, rank);
                lemma_count_push(Seq::<Card>::empty(), fin.cards@[0], suit, rank);
                assert(q_rem.last().cards =~= Seq::<Card>::empty().push(fin.cards@[0]));
            }
            assert forall|c: int| 0 <= c < 10 implies #[trigger] game@.tableau[c].len()
                == col_fill(m + 1, c) by {}
            let i_new = m as int / 10;
            assert(10 * i_new + col == m as int);
            assert(initial_deal_event(ev@, m as int));
            assert forall|c: int, i: int|
                0 <= c < 10 && 0 <= i < game@.tableau[c].len() implies #[trigger] game@.tableau[c][i]
                == dealt_card(q0, 10 * i + c) by {
                if c == col {
                    if i < i_new {
                        assert(game@.tableau[c][i] == t_before[c][i]);
                    } else {
                        assert(i == i_new);
                        assert(game@.tableau[c][i] == dealt_card(q0, m as int));
                    }
                } else {
                    assert(game@.tableau[c][i] == t_before[c][i]);
                }
            }
        }
    }
    proof {
        assert forall|c: int, i: int|
            0 <= c < 10 && 0 <= i < game@.tableau[c].len() implies (
        #[trigger] game@.tableau[c][i].face_up <==> i == game@.tableau[c].len() - 1) by {
            let k = 10 * i + c;
            assert(game@.tableau[c][i] == dealt_card(q0, k));
            assert(initial_deal_event(q0[53 - k], k));
        }
    }
    proof {
        assert(queue@ =~= Seq::<EventView>::empty());
    }
}

/// The empty tableau holds no cards at all.
proof fn lemma_count_piles_empty(t: Seq<Seq<Card>>, suit: Suit, rank: Rank)
    requires
        forall|c: int| 0 <= c < t.len() ==> t[c].len() == 0,
    ensures
        count_piles(t, suit, rank) == 0,
    decreases t.len(),
{
    if t.len() > 0 {
        lemma_count_piles_empty(t.drop_last(), suit, rank);
    }
}

/// Together with the deal's own contract: after the opening deal is applied,
/// the whole partition of cards across tableau, stock and the (still empty)
/// foundations holds the difficulty's exact 104-card composition.
pub proof fn lemma_opening_deal_conservation(
    stock: Seq<Card>,
    q: Seq<EventView>,
    t: Seq<Seq<Card>>,
    f: Seq<Seq<Card>>,
    d: Difficulty,
)
    requires
        f.len() == 0,
        forall|suit: Suit, rank: Rank|
            count_cards(stock + queued_cards(q), suit, rank) == expected_copies(d, suit),
        forall|suit: Suit, rank: Rank|
            count_piles(t, suit, rank) == count_cards(queued_cards(q), suit, rank),
    ensures
        forall|suit: Suit, rank: Rank|
            count_piles(t, suit, rank) + count_cards(stock, suit, rank) + count_piles(
                f,
                suit,
                rank,
            ) == expected_copies(d, suit),
{
    assert forall|suit: Suit, rank: Rank|
        count_piles(t, suit, rank) + count_cards(stock, suit, rank) + count_piles(f, suit, rank)
            == expected_copies(d, suit) by {
        lemma_count_concat(stock, queued_cards(q), suit, rank);
    }
}

/// Pops the next queued visual transition from the tail of the queue; the
/// collaborator's cadence timer decides when to call this.
pub fn dispatch_next(queue: &mut AnimationEventQueue) -> (r: Option<StartAnimationEvent>)
    ensures
        old(queue)@.len() == 0 ==> r is None && final(queue)@ == old(queue)@,
        old(queue)@.len() > 0 ==> {
            &&& r is Some
            &&& r->Some_0@ == old(queue)@.last()
            &&& final(queue)@ == old(queue)@.drop_last()
        },
{
    let r = queue.queue.pop();
    proof {
        if old(queue)@.len() > 0 {
            assert(queue@ =~= old(queue)@.drop_last());
        }
    }
    r
}

} // verus!
