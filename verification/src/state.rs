//! Core state types: difficulty, lifecycle phase and pile addressing.

use vstd::prelude::*;

use crate::cards::Card;

verus! {

/// How many distinct suits the deck is built from.
#[derive(Debug, Clone, Copy, PartialEq, Eq, Structural)]
pub enum Difficulty {
    Easy,
    Medium,
    Hard,
}

impl Default for Difficulty {
    fn default() -> (d: Difficulty)
        ensures
            d == Difficulty::Easy,
    {
        Difficulty::Easy
    }
}

/// Lifecycle phase of the whole game; collaborators gate their behaviour on it.
#[derive(Debug, Clone, Copy, PartialEq, Eq, Structural)]
pub enum GameState {
    Loading,
    Menu,
    Playing,
    Won,
    Lost,
}

impl Default for GameState {
    fn default() -> (s: GameState)
        ensures
            s == GameState::Loading,
    {
        GameState::Loading
    }
}

/// Tagged pile address, used uniformly wherever a pile is named.
#[derive(Debug, Clone, Copy, PartialEq, Eq, Structural)]
pub enum PileType {
    Tableau(usize),
    Stock,
    Foundation(usize),
}

/// The transient selection between pick-up and drop: the lifted card, the
/// pile it came from, and its position there.
#[derive(Debug, Clone, Copy, PartialEq, Eq, Structural)]
pub struct SelectedCard {
    pub card: Card,
    pub from: PileType,
    pub index: usize,
}

/// A queued visual transition: the collaborator moves `cards` from `from` to
/// `to` and reports completion, at which point the matching mutation is
/// applied.  `delay` counts dispatcher steps before the motion starts;
/// `fly_z_override` is a draw-order hint.
#[derive(Debug)]
pub struct StartAnimationEvent {
    pub cards: Vec<Card>,
    pub from: PileType,
    pub to: PileType,
    pub from_index: usize,
    pub delay: u32,
    pub flip_final: bool,
    pub original_pile_len: Option<usize>,
    pub target_index_override: Option<usize>,
    pub fly_z_override: Option<u32>,
}

/// Completion acknowledgment for one queued transition, carrying enough
/// identity to apply the matching mutation.
#[derive(Debug)]
pub struct AnimationFinishedEvent {
    pub cards: Vec<Card>,
    pub from: PileType,
    pub to: PileType,
    pub flip_final: bool,
}

/// Mathematical model of a queued animation request.
pub ghost struct EventView {
    pub cards: Seq<Card>,
    pub from: PileType,
    pub to: PileType,
    pub from_index: int,
    pub delay: int,
    pub flip_final: bool,
    pub original_pile_len: Option<int>,
    pub target_index_override: Option<int>,
    pub fly_z_override: Option<int>,
}

impl View for StartAnimationEvent {
    type V = EventView;

    open spec fn view(&self) -> EventView {
        EventView {
            cards: self.cards@,
            from: self.from,
            to: self.to,
            from_index: self.from_index as int,
            delay: self.delay as int,
            flip_final: self.flip_final,
            original_pile_len: match self.original_pile_len {
                Some(v) => Some(v as int),
                None => None,
            },
            target_index_override: match self.target_index_override {
                Some(v) => Some(v as int),
                None => None,
            },
            fly_z_override: match self.fly_z_override {
                Some(v) => Some(v as int),
                None => None,
            },
        }
    }
}

/// Pending visual transitions, released one at a time from the tail on the
/// collaborator's cadence.  Producers push batches already reversed, so the
/// first visual event sits last.
pub struct AnimationEventQueue {
    pub queue: Vec<StartAnimationEvent>,
}

impl View for AnimationEventQueue {
    type V = Seq<EventView>;

    open spec fn view(&self) -> Seq<EventView> {
        self.queue@.map_values(|e: StartAnimationEvent| e@)
    }
}

impl Default for AnimationEventQueue {
    fn default() -> (q: AnimationEventQueue)
        ensures
            q@.len() == 0,
    {
        AnimationEventQueue { queue: Vec::new() }
    }
}

/// Raised after any commit that changes tableau contents; completed-run
/// evaluation is deferred until the stability gate clears it.
pub struct SequenceCheckRequest {
    pub pending: bool,
}

impl Default for SequenceCheckRequest {
    fn default() -> (c: SequenceCheckRequest)
        ensures
            c.pending == false,
    {
        SequenceCheckRequest { pending: false }
    }
}

/// The authoritative game state: ten tableau columns, the stock, the
/// completed foundation runs (thirteen cards each, in arrival order),
/// counters, and the transient selection / pending-commit / pile-lock
/// fields.
pub struct SpiderGame {
    pub tableau: Vec<Vec<Card>>,
    pub stock: Vec<Card>,
    pub foundations: Vec<Vec<Card>>,
    pub selected: Option<SelectedCard>,
    pub move_count: u32,
    pub score: i32,
    pub auto_move_to: Option<PileType>,
    pub difficulty: Difficulty,
    pub visual_pile_locks: Vec<Option<usize>>,
}

/// Mathematical model of a `SpiderGame`.
pub ghost struct GameView {
    pub tableau: Seq<Seq<Card>>,
    pub stock: Seq<Card>,
    pub foundations: Seq<Seq<Card>>,
    pub selected: Option<SelectedCard>,
    pub move_count: int,
    pub score: int,
    pub auto_move_to: Option<PileType>,
    pub difficulty: Difficulty,
    pub visual_pile_locks: Seq<Option<usize>>,
}

impl View for SpiderGame {
    type V = GameView;

    open spec fn view(&self) -> GameView {
        GameView {
            tableau: self.tableau@.map_values(|col: Vec<Card>| col@),
            stock: self.stock@,
            foundations: self.foundations@.map_values(|run: Vec<Card>| run@),
            selected: self.selected,
            move_count: self.move_count as int,
            score: self.score as int,
            auto_move_to: self.auto_move_to,
            difficulty: self.difficulty,
            visual_pile_locks: self.visual_pile_locks@,
        }
    }
}

impl GameView {
    /// Structural well-formedness: ten columns, ten locks, and a selection
    /// that addresses an existing tableau card.
    pub open spec fn wf(self) -> bool {
        &&& self.tableau.len() == 10
        &&& self.visual_pile_locks.len() == 10
        &&& match self.selected {
            Some(sel) => match sel.from {
                PileType::Tableau(col) => col < 10 && sel.index < self.tableau[col as int].len(),
                _ => false,
            },
            None => true,
        }
    }

    /// The same state with the transient gesture fields cleared, as a
    /// history snapshot stores it.
    pub open spec fn cleaned(self) -> GameView {
        GameView { selected: None, auto_move_to: None, ..self }
    }

    /// The same state with every visual pile lock cleared.
    pub open spec fn unlocked(self) -> GameView {
        GameView { visual_pile_locks: Seq::new(10, |i: int| None), ..self }
    }

    pub open spec fn is_won_spec(self) -> bool {
        self.foundations.len() == 8
    }
}

/// The freshly reset state a new deal starts from, before any card moves.
pub open spec fn fresh_game(difficulty: Difficulty) -> GameView {
    GameView {
        tableau: Seq::new(10, |i: int| Seq::<Card>::empty()),
        stock: Seq::<Card>::empty(),
        foundations: Seq::<Seq<Card>>::empty(),
        selected: None,
        move_count: 0,
        score: 500,
        auto_move_to: None,
        difficulty,
        visual_pile_locks: Seq::new(10, |i: int| None),
    }
}

impl Default for SpiderGame {
    fn default() -> (g: SpiderGame)
        ensures
            g@ == fresh_game(Difficulty::Easy),
    {
        let mut tableau: Vec<Vec<Card>> = Vec::new();
        let mut locks: Vec<Option<usize>> = Vec::new();
        for i in 0..10usize
            invariant
                tableau@.len() == i,
                locks@.len() == i,
                forall|j: int| 0 <= j < i ==> tableau@[j]@ == Seq::<Card>::empty(),
                forall|j: int| 0 <= j < i ==> locks@[j] == Option::<usize>::None,
        {
            tableau.push(Vec::new());
            locks.push(None);
        }
        let g = SpiderGame {
            tableau,
            stock: Vec::new(),
            foundations: Vec::new(),

            selected: None,
            move_count: 0,
            score: 500,
            auto_move_to: None,
            difficulty: Difficulty::Easy,
            visual_pile_locks: locks,
        };
        proof {
            assert(g@.tableau =~= fresh_game(Difficulty::Easy).tableau);
            assert(g@.foundations =~= fresh_game(Difficulty::Easy).foundations);
            assert(g@.visual_pile_locks =~= fresh_game(Difficulty::Easy).visual_pile_locks);
            assert(g@ == fresh_game(Difficulty::Easy));
        }
        g
    }
}

impl SpiderGame {
    pub fn get_tableau_top(&self, index: usize) -> (r: Option<&Card>)
        ensures
            match r {
                Some(c) => index < self@.tableau.len() && self@.tableau[index as int].len() > 0
                    && *c == self@.tableau[index as int].last(),
                None => index >= self@.tableau.len() || self@.tableau[index as int].len() == 0,
            },
    {
        if index < self.tableau.len() {
            let col = &self.tableau[index];
            if col.len() > 0 {
                Some(&col[col.len() - 1])
            } else {
                None
            }
        } else {
            None
        }
    }

    /// The game is won when all eight runs have reached the foundation.
    pub fn is_won(&self) -> (r: bool)
        ensures
            r == self@.is_won_spec(),
    {
        self.foundations.len() == 8
    }

    /// A deep copy with the transient gesture fields cleared, exactly as a
    /// history snapshot stores the state.
    pub fn snapshot_cleaned(&self) -> (s: SpiderGame)
        ensures
            s@ == self@.cleaned(),
    {
        let s = SpiderGame {
            tableau: clone_piles(&self.tableau),
            stock: clone_cards(&self.stock),
            foundations: clone_piles(&self.foundations),
            selected: None,
            move_count: self.move_count,
            score: self.score,
            auto_move_to: None,
            difficulty: self.difficulty,
            visual_pile_locks: clone_locks(&self.visual_pile_locks),
        };
        proof {
            assert(s@.tableau =~= self@.cleaned().tableau);
            assert(s@.foundations =~= self@.cleaned().foundations);
            assert(s@ == self@.cleaned());
        }
        s
    }
}

fn clone_cards(v: &Vec<Card>) -> (r: Vec<Card>)
    ensures
        r@ == v@,
{
    let mut r: Vec<Card> = Vec::new();
    for i in 0..v.len()
        invariant
            r@ == v@.take(i as int),
    {
        r.push(v[i]);
        proof {
            assert(v@.take(i + 1) =~= v@.take(i as int).push(v@[i as int]));
        }
    }
    proof {
        assert(v@.take(v@.len() as int) =~= v@);
    }
    r
}

fn clone_piles(v: &Vec<Vec<Card>>) -> (r: Vec<Vec<Card>>)
    ensures
        r@.len() == v@.len(),
        forall|i: int| 0 <= i < v@.len() ==> r@[i]@ == v@[i]@,
{
    let mut r: Vec<Vec<Card>> = Vec::new();
    for i in 0..v.len()
        invariant
            r@.len() == i,
            forall|j: int| 0 <= j < i ==> r@[j]@ == v@[j]@,
    {
        r.push(clone_cards(&v[i]));
    }
    r
}

fn clone_locks(v: &Vec<Option<usize>>) -> (r: Vec<Option<usize>>)
    ensures
        r@ == v@,
{
    let mut r: Vec<Option<usize>> = Vec::new();
    for i in 0..v.len()
        invariant
            r@ == v@.take(i as int),
    {
        r.push(v[i]);
        proof {
            assert(v@.take(i + 1) =~= v@.take(i as int).push(v@[i as int]));
        }
    }
    proof {
        assert(v@.take(v@.len() as int) =~= v@);
    }
    r
}

/// Stack of full-state snapshots, one per committing mutation.
pub struct GameHistory {
    pub stack: Vec<SpiderGame>,
}

impl View for GameHistory {
    type V = Seq<GameView>;

    open spec fn view(&self) -> Seq<GameView> {
        self.stack@.map_values(|g: SpiderGame| g@)
    }
}

impl Default for GameHistory {
    fn default() -> (h: GameHistory)
        ensures
            h@.len() == 0,
    {
        GameHistory { stack: Vec::new() }
    }
}

} // verus!
