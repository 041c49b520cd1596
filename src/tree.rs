use vstd::prelude::*;

use crate::combat::SoundEvent;
use crate::geometry::{dist_sq, dist_sq_spec, within_or_at, within_or_at_spec, within_spec, Point};
use crate::pickup::{PickupType, PlayerPickup, XpShard};
use crate::rng::{chance_one_in, random_in_range};

verus! {

/// Rotation added each tick while a tree falls, in milliradians.
pub const FALL_STEP_MRAD: u32 = 40;

/// A falling tree lies dead once its rotation exceeds this, in milliradians.
pub const FALLEN_MRAD: u32 = 700;

/// Invulnerability and gathering cooldown set by a cut, in hundredths of a second.
pub const CUT_COOLDOWN: u32 = 30;

/// A cut drops one piece of wood with odds of one in this many.
pub const WOOD_DROP_ODDS: u32 = 10;

/// How far from the cursor a tree can be picked.
pub const PICK_RADIUS: u32 = 32;

/// Experience carried by each shard that a fallen tree drops.
pub const TREE_SHARD_XP: u64 = 100;

/// Spacing of the grid on which trees may grow, in world units.
pub const TREE_GRID_STEP: i32 = 10;

/// Trees grow on grid cells `-TREE_GRID_HALF .. TREE_GRID_HALF` on each axis.
pub const TREE_GRID_HALF: i32 = 1000;

/// A grid cell holds a tree with odds of one in this many.
pub const TREE_ODDS: u32 = 1000;

/// Cells along one side of the tree grid.
pub const TREE_GRID_SIDE: usize = 2000;

/// Cells of the tree grid.
pub const TREE_CELLS: usize = 4_000_000;

/// Health of a tree, in tenths of a health point.
pub const TREE_HEALTH: i64 = 1000;

/// Wood pieces fall this far below the point they drop from.
pub const WOOD_DROP_OFFSET: i32 = 50;

/// Stages of a tree's life.
#[derive(Debug, Clone, Copy, PartialEq, Eq, Structural)]
pub enum TreeState {
    Standing,
    Falling,
    Dead,
}

/// A tree: its health, invulnerability left, stage, and how far it has tipped over.
#[derive(Debug, Clone, Copy, PartialEq, Eq, Structural)]
pub struct Tree {
    pub health: i64,
    pub max_health: i64,
    pub iframes: u32,
    pub state: TreeState,
    pub rotation_mrad: u32,
}

/// The player's woodcutting: damage per cut, reach, and cooldown left.
#[derive(Debug, Clone, Copy, PartialEq, Eq, Structural)]
pub struct Gathering {
    pub damage: u32,
    pub range: u32,
    pub cooldown: u32,
}

/// What a cut attempt did.
#[derive(Debug, Clone, Copy, PartialEq, Eq, Structural)]
pub enum CutOutcome {
    /// A timer was still running: nothing happened.
    NotReady,
    /// The tree was hit; `drops_wood` says whether a piece of wood falls.
    Hit { drops_wood: bool },
}

/// What a fallen tree leaves behind.
#[derive(Debug, Clone, Copy, PartialEq, Eq, Structural)]
pub struct TreeDrops {
    pub xp_shards: u32,
    pub wood: u32,
}

/// One tick of a tree's stage, and whether it announces its death this tick.
pub open spec fn tree_update_spec(t: Tree) -> (Tree, bool) {
    match t.state {
        TreeState::Standing => if t.health <= 0 {
            (Tree { state: TreeState::Falling, ..t }, false)
        } else {
            (t, false)
        },
        TreeState::Falling => {
            let rot = t.rotation_mrad + FALL_STEP_MRAD;
            (Tree {
                rotation_mrad: rot as u32,
                state: if rot > FALLEN_MRAD { TreeState::Dead } else { TreeState::Falling },
                ..t
            }, false)
        },
        TreeState::Dead => (t, true),
    }
}

/// A tree after `n` ticks of its stage.
pub open spec fn tree_run(t: Tree, n: nat) -> Tree
    decreases n,
{
    if n == 0 {
        t
    } else {
        tree_update_spec(tree_run(t, (n - 1) as nat)).0
    }
}

/// A tree that has just started to fall tips over by `FALL_STEP_MRAD` a tick and lies dead
/// exactly from the eighteenth tick on (720 mrad is the first step past 700); once dead it
/// stops moving.
pub proof fn law_fall_takes_eighteen_ticks(t: Tree, n: nat)
    requires
        t.state == TreeState::Falling,
        t.rotation_mrad == 0,
    ensures
        tree_run(t, n).state == TreeState::Dead <==> n >= 18,
        tree_run(t, n).state != TreeState::Standing,
        tree_run(t, n).rotation_mrad == if n <= 18 { 40 * n } else { 720 },
    decreases n,
{
    if n > 0 {
        law_fall_takes_eighteen_ticks(t, (n - 1) as nat);
    }
}

/// A cut on `t` with gathering `g`, when both timers have run out.
pub open spec fn cut_ready_spec(g: Gathering, t: Tree) -> bool {
    t.iframes == 0 && g.cooldown == 0
}

impl Tree {
    /// Well-formed: health within its maximum, and a rotation that fits the stage.
    pub open spec fn wf(&self) -> bool {
        &&& self.health <= self.max_health
        &&& self.state == TreeState::Standing ==> self.rotation_mrad == 0
        &&& self.state == TreeState::Falling ==> self.rotation_mrad <= FALLEN_MRAD
    }

    pub fn new(max_health: i64) -> (r: Tree)
        ensures
            r.wf(),
            r.health == max_health,
            r.max_health == max_health,
            r.iframes == 0,
            r.state == TreeState::Standing,
            r.rotation_mrad == 0,
    {
        Tree { health: max_health, max_health, iframes: 0, state: TreeState::Standing, rotation_mrad: 0 }
    }

    /// Advance the stage by one tick. True while the tree lies dead: its owner should
    /// then remove it and hand out what it drops.
    pub fn update(&mut self) -> (died: bool)
        requires
            old(self).wf(),
        ensures
            (*final(self), died) == tree_update_spec(*old(self)),
            final(self).wf(),
    {
        match self.state {
            TreeState::Standing => {
                if self.health <= 0 {
                    self.state = TreeState::Falling;
                }
                false
            },
            TreeState::Falling => {
                self.rotation_mrad = self.rotation_mrad + FALL_STEP_MRAD;
                if self.rotation_mrad > FALLEN_MRAD {
                    self.state = TreeState::Dead;
                }
                false
            },
            TreeState::Dead => true,
        }
    }

    /// One tick of invulnerability running out.
    pub fn tick_iframes(&mut self)
        ensures
            *final(self) == (Tree {
                iframes: if old(self).iframes > 0 { (old(self).iframes - 1) as u32 } else { 0 },
                ..*old(self)
            }),
    {
        self.iframes = self.iframes.saturating_sub(1);
    }
}

impl Gathering {
    pub fn new(damage: u32, range: u32) -> (r: Gathering)
        ensures
            r == (Gathering { damage, range, cooldown: 0 }),
    {
        Gathering { damage, range, cooldown: 0 }
    }

    /// One tick of the cooldown running out.
    pub fn tick(&mut self)
        ensures
            *final(self) == (Gathering {
                cooldown: if old(self).cooldown > 0 { (old(self).cooldown - 1) as u32 } else { 0 },
                ..*old(self)
            }),
    {
        self.cooldown = self.cooldown.saturating_sub(1);
    }
}

/// Cut a tree with the wood draw given: only when the player's cooldown and the tree's
/// invulnerability have both run out; then both restart, and the tree loses the cut's damage.
pub fn cut_tree(g: &mut Gathering, t: &mut Tree, drops_wood: bool) -> (r: CutOutcome)
    requires
        old(t).wf(),
        old(t).health - old(g).damage as int >= i64::MIN,
    ensures
        final(t).wf(),
        cut_ready_spec(*old(g), *old(t)) ==> {
            &&& r == CutOutcome::Hit { drops_wood }
            &&& *final(g) == (Gathering { cooldown: CUT_COOLDOWN, ..*old(g) })
            &&& *final(t) == (Tree {
                iframes: CUT_COOLDOWN,
                health: (old(t).health - old(g).damage) as i64,
                ..*old(t)
            })
        },
        !cut_ready_spec(*old(g), *old(t)) ==> {
            &&& r == CutOutcome::NotReady
            &&& *final(g) == *old(g)
            &&& *final(t) == *old(t)
        },
{
    if t.iframes == 0 && g.cooldown == 0 {
        g.cooldown = CUT_COOLDOWN;
        t.iframes = CUT_COOLDOWN;
        t.health = t.health - g.damage as i64;
        CutOutcome::Hit { drops_wood }
    } else {
        CutOutcome::NotReady
    }
}

/// Cut a tree, drawing the wood drop at random on a hit.
pub fn cut_tree_with_draw(g: &mut Gathering, t: &mut Tree) -> (r: CutOutcome)
    requires
        old(t).wf(),
        old(t).health - old(g).damage as int >= i64::MIN,
    ensures
        final(t).wf(),
        cut_ready_spec(*old(g), *old(t)) ==> {
            &&& r is Hit
            &&& *final(g) == (Gathering { cooldown: CUT_COOLDOWN, ..*old(g) })
            &&& *final(t) == (Tree {
                iframes: CUT_COOLDOWN,
                health: (old(t).health - old(g).damage) as i64,
                ..*old(t)
            })
        },
        !cut_ready_spec(*old(g), *old(t)) ==> {
            &&& r == CutOutcome::NotReady
            &&& *final(g) == *old(g)
            &&& *final(t) == *old(t)
        },
{
    if t.iframes == 0 && g.cooldown == 0 {
        let drops = chance_one_in(WOOD_DROP_ODDS);
        cut_tree(g, t, drops)
    } else {
        CutOutcome::NotReady
    }
}

/// Tree `i` is a pick candidate: strictly closer to the cursor than `PICK_RADIUS`.
pub open spec fn pick_candidate(trees: Seq<Point>, cursor: Point, i: int) -> bool {
    0 <= i < trees.len() && within_spec(trees[i], cursor, PICK_RADIUS as int)
}

/// Tree `i` is the first of the candidates nearest to the cursor.
pub open spec fn nearest_pick(trees: Seq<Point>, cursor: Point, i: int) -> bool {
    &&& pick_candidate(trees, cursor, i)
    &&& forall|j: int|
        #![trigger pick_candidate(trees, cursor, j)]
        pick_candidate(trees, cursor, j) ==> dist_sq_spec(trees[i], cursor) <= dist_sq_spec(trees[j], cursor)
    &&& forall|j: int|
        #![trigger pick_candidate(trees, cursor, j)]
        0 <= j < i && pick_candidate(trees, cursor, j) ==> dist_sq_spec(trees[i], cursor) < dist_sq_spec(
            trees[j],
            cursor,
        )
}

/// The tree that the cursor selects: the nearest one under the cursor, if the player can
/// reach it; otherwise none.
pub fn select_tree(cursor: Point, player: Point, gathering_range: u32, trees: &Vec<Point>) -> (r: Option<usize>)
    ensures
        r matches Some(i) ==> nearest_pick(trees@, cursor, i as int) && within_or_at_spec(
            player,
            trees@[i as int],
            gathering_range as int,
        ),
        r is None ==> forall|i: int|
            #![trigger nearest_pick(trees@, cursor, i)]
            nearest_pick(trees@, cursor, i) ==> !within_or_at_spec(
                player,
                trees@[i],
                gathering_range as int,
            ),
{
    let mut best: Option<usize> = None;
    let mut best_dist: u128 = 0;
    let mut k: usize = 0;
    while k < trees.len()
        invariant
            k <= trees@.len(),
            best matches Some(b) ==> b < k && pick_candidate(trees@, cursor, b as int) && best_dist
                == dist_sq_spec(trees@[b as int], cursor),
            best matches Some(b) ==> forall|j: int|
                #![trigger pick_candidate(trees@, cursor, j)]
                0 <= j < k && pick_candidate(trees@, cursor, j) ==> best_dist <= dist_sq_spec(
                    trees@[j],
                    cursor,
                ),
            best matches Some(b) ==> forall|j: int|
                #![trigger pick_candidate(trees@, cursor, j)]
                0 <= j < b && pick_candidate(trees@, cursor, j) ==> best_dist < dist_sq_spec(
                    trees@[j],
                    cursor,
                ),
            best is None ==> forall|j: int|
                #![trigger pick_candidate(trees@, cursor, j)]
                0 <= j < k ==> !pick_candidate(trees@, cursor, j),
        decreases trees@.len() - k,
    {
        let d = dist_sq(trees[k], cursor);
        let pick: u128 = PICK_RADIUS as u128;
        assert(pick * pick == 1024) by (nonlinear_arith)
            requires pick == 32;
        let near = d < pick * pick;
        proof {
            assert(near == pick_candidate(trees@, cursor, k as int));
        }
        if near {
            match best {
                Some(_) => {
                    if d < best_dist {
                        best = Some(k);
                        best_dist = d;
                    }
                },
                None => {
                    best = Some(k);
                    best_dist = d;
                },
            }
        }
        k = k + 1;
    }
    match best {
        Some(b) => {
            if within_or_at(player, trees[b], gathering_range) {
                Some(b)
            } else {
                proof {
                    assert forall|i: int| #[trigger] nearest_pick(trees@, cursor, i) implies i == b by {
                        assert(pick_candidate(trees@, cursor, b as int));
                        assert(pick_candidate(trees@, cursor, i));
                        if i < b {
                        } else if i > b {
                        }
                    }
                }
                None
            }
        },
        None => None,
    }
}

/// What a fallen tree drops: one to four experience shards and one to ten pieces of wood.
pub fn tree_death_drops() -> (r: TreeDrops)
    ensures
        1 <= r.xp_shards <= 4,
        1 <= r.wood <= 10,
{
    let shards = random_in_range(1, 4);
    let wood = random_in_range(1, 10);
    TreeDrops { xp_shards: shards as u32, wood: wood as u32 }
}

/// Grid cell `k`, counted row by row: rows run along x, cells within a row along y.
pub open spec fn grid_cell(k: int) -> Point {
    Point {
        x: ((k / TREE_GRID_SIDE as int - TREE_GRID_HALF) * TREE_GRID_STEP) as i32,
        y: ((k % TREE_GRID_SIDE as int - TREE_GRID_HALF) * TREE_GRID_STEP) as i32,
    }
}

/// The cells whose draw came out true, in order.
pub open spec fn trees_of(draws: Seq<bool>) -> Seq<Point>
    decreases draws.len(),
{
    if draws.len() == 0 {
        Seq::empty()
    } else if draws.last() {
        trees_of(draws.drop_last()).push(grid_cell(draws.len() - 1))
    } else {
        trees_of(draws.drop_last())
    }
}

proof fn lemma_trees_of_len(draws: Seq<bool>)
    ensures
        trees_of(draws).len() <= draws.len(),
    decreases draws.len(),
{
    if draws.len() > 0 {
        lemma_trees_of_len(draws.drop_last());
    }
}

proof fn lemma_grid_cell_injective(k1: int, k2: int)
    requires
        0 <= k1 < TREE_CELLS,
        0 <= k2 < TREE_CELLS,
        grid_cell(k1) == grid_cell(k2),
    ensures
        k1 == k2,
{
    let side = TREE_GRID_SIDE as int;
    assert(0 <= k1 / side < 2000 && 0 <= k2 / side < 2000) by (nonlinear_arith)
        requires 0 <= k1 < 4_000_000, 0 <= k2 < 4_000_000, side == 2000;
    assert(0 <= k1 % side < 2000 && 0 <= k2 % side < 2000) by (nonlinear_arith)
        requires 0 <= k1, 0 <= k2, side == 2000;
    assert(k1 / side == k2 / side);
    assert(k1 % side == k2 % side);
    assert(k1 == side * (k1 / side) + k1 % side) by (nonlinear_arith)
        requires side == 2000, k1 >= 0;
    assert(k2 == side * (k2 / side) + k2 % side) by (nonlinear_arith)
        requires side == 2000, k2 >= 0;
}

/// Every position of `trees_of(draws)` is a cell before `draws.len()`, and no two are the same.
pub proof fn lemma_trees_of_distinct(draws: Seq<bool>)
    requires
        draws.len() <= TREE_CELLS,
    ensures
        forall|i: int|
            0 <= i < trees_of(draws).len() ==> exists|k: int|
                0 <= k < draws.len() && #[trigger] trees_of(draws)[i] == grid_cell(k),
        forall|i: int, j: int|
            0 <= i < j < trees_of(draws).len() ==> #[trigger] trees_of(draws)[i] != #[trigger] trees_of(draws)[j],
    decreases draws.len(),
{
    if draws.len() > 0 {
        let prev = draws.drop_last();
        lemma_trees_of_distinct(prev);
        let t = trees_of(prev);
        if draws.last() {
            let n = draws.len() - 1;
            let full = t.push(grid_cell(n));
            assert forall|i: int| 0 <= i < full.len() implies exists|k: int|
                0 <= k < draws.len() && #[trigger] full[i] == grid_cell(k) by {
                if i < t.len() {
                    assert(full[i] == t[i]);
                    let k = choose|k: int| 0 <= k < prev.len() && #[trigger] t[i] == grid_cell(k);
                    assert(full[i] == grid_cell(k));
                } else {
                    assert(full[i] == grid_cell(n));
                }
            }
            assert forall|i: int, j: int| 0 <= i < j < full.len() implies #[trigger] full[i] != #[trigger] full[j] by {
                assert(full[i] == t[i]);
                if j < t.len() {
                    assert(full[j] == t[j]);
                } else {
                    let k = choose|k: int| 0 <= k < prev.len() && #[trigger] t[i] == grid_cell(k);
                    if full[i] == full[j] {
                        lemma_grid_cell_injective(k, n);
                    }
                }
            }
        }
    }
}

/// The tree positions for one draw per grid cell, in order: a tree stands on each cell
/// whose draw is true.
pub fn trees_from_draws(draws: &Vec<bool>) -> (r: Vec<Point>)
    requires
        draws@.len() <= TREE_CELLS,
    ensures
        r@ == trees_of(draws@),
{
    let mut out: Vec<Point> = Vec::new();
    let mut k: usize = 0;
    while k < draws.len()
        invariant
            k <= draws@.len() <= TREE_CELLS,
            out@ == trees_of(draws@.take(k as int)),
        decreases draws@.len() - k,
    {
        assert(draws@.take(k + 1).drop_last() =~= draws@.take(k as int));
        if draws[k] {
            let row: i32 = (k / TREE_GRID_SIDE) as i32 - TREE_GRID_HALF;
            let col: i32 = (k % TREE_GRID_SIDE) as i32 - TREE_GRID_HALF;
            let p = Point { x: row * TREE_GRID_STEP, y: col * TREE_GRID_STEP };
            assert(p == grid_cell(k as int));
            out.push(p);
        }
        k = k + 1;
    }
    assert(draws@.take(draws@.len() as int) =~= draws@);
    out
}

/// Scatter trees over the grid: each cell holds one with odds of one in `TREE_ODDS`.
pub fn scatter_trees() -> (r: Vec<Point>)
    ensures
        exists|d: Seq<bool>| d.len() == TREE_CELLS && r@ == #[trigger] trees_of(d),
        forall|i: int, j: int| 0 <= i < j < r@.len() ==> #[trigger] r@[i] != #[trigger] r@[j],
{
    let mut draws: Vec<bool> = Vec::new();
    let mut k: usize = 0;
    while k < TREE_CELLS
        invariant
            k <= TREE_CELLS,
            draws@.len() == k,
        decreases TREE_CELLS - k,
    {
        draws.push(chance_one_in(TREE_ODDS));
        k = k + 1;
    }
    proof {
        lemma_trees_of_distinct(draws@);
    }
    trees_from_draws(&draws)
}

/// A tree standing in the world, with its identity and place.
#[derive(Debug, Clone, Copy, PartialEq, Eq, Structural)]
pub struct PlacedTree {
    pub id: u64,
    pub position: Point,
    pub tree: Tree,
}

/// A newly grown tree: full health, standing, not invulnerable, upright.
pub open spec fn fresh_tree() -> Tree {
    Tree { health: TREE_HEALTH, max_health: TREE_HEALTH, iframes: 0, state: TreeState::Standing, rotation_mrad: 0 }
}

/// A fresh tree on each position, in order, with identities from `next_id` upward.
pub fn plant_trees(next_id: &mut u64, positions: &Vec<Point>) -> (r: Vec<PlacedTree>)
    requires
        *old(next_id) + positions@.len() <= u64::MAX,
    ensures
        *final(next_id) == *old(next_id) + positions@.len(),
        r@.len() == positions@.len(),
        forall|k: int|
            0 <= k < r@.len() ==> #[trigger] r@[k] == (PlacedTree {
                id: (*old(next_id) + k) as u64,
                position: positions@[k],
                tree: fresh_tree(),
            }),
{
    let ghost id0 = *next_id;
    let mut out: Vec<PlacedTree> = Vec::new();
    let mut k: usize = 0;
    while k < positions.len()
        invariant
            k <= positions@.len(),
            out@.len() == k,
            *next_id == id0 + k,
            id0 + positions@.len() <= u64::MAX,
            forall|m: int|
                0 <= m < out@.len() ==> #[trigger] out@[m] == (PlacedTree {
                    id: (id0 + m) as u64,
                    position: positions@[m],
                    tree: fresh_tree(),
                }),
        decreases positions@.len() - k,
    {
        out.push(PlacedTree { id: *next_id, position: positions[k], tree: Tree::new(TREE_HEALTH) });
        *next_id = *next_id + 1;
        k = k + 1;
    }
    out
}

/// Grow the world's trees: scatter them over the grid and plant a fresh one on each cell
/// chosen, with identities from `next_id` upward.
pub fn spawn_trees(next_id: &mut u64) -> (r: Vec<PlacedTree>)
    requires
        *old(next_id) + TREE_CELLS <= u64::MAX,
    ensures
        *final(next_id) == *old(next_id) + r@.len(),
        exists|d: Seq<bool>|
            d.len() == TREE_CELLS && r@.len() == (#[trigger] trees_of(d)).len() && forall|k: int|
                0 <= k < r@.len() ==> #[trigger] r@[k] == (PlacedTree {
                    id: (*old(next_id) + k) as u64,
                    position: trees_of(d)[k],
                    tree: fresh_tree(),
                }),
        forall|i: int, j: int| 0 <= i < j < r@.len() ==> (#[trigger] r@[i]).position != (#[trigger] r@[j]).position,
{
    let positions = scatter_trees();
    proof {
        let d = choose|d: Seq<bool>| d.len() == TREE_CELLS && positions@ == #[trigger] trees_of(d);
        lemma_trees_of_len(d);
    }
    let r = plant_trees(next_id, &positions);
    assert forall|i: int, j: int| 0 <= i < j < r@.len() implies (#[trigger] r@[i]).position != (#[trigger] r@[j]).position by {
        assert(r@[i].position == positions@[i] && r@[j].position == positions@[j]);
    }
    r
}

/// The result of pressing the cut button: what the cut did, the sound it makes, and the
/// wood it drops.
#[derive(Debug, Clone, Copy, PartialEq, Eq, Structural)]
pub struct CutReport {
    pub outcome: CutOutcome,
    pub sound: Option<SoundEvent>,
    pub wood: Option<ItemDropEvent>,
}

/// A request to drop items: this many pieces of wood at a place.
#[derive(Debug, Clone, Copy, PartialEq, Eq, Structural)]
pub enum ItemDropEvent {
    Wood(u32, Point),
}

/// The right mouse button cuts the selected tree, if any and if the timers allow. A hit
/// clears the selection, makes the cutting sound, and may drop one piece of wood where
/// the tree stands.
pub fn cut_selected_tree(
    pressed: bool,
    selected: &mut Option<usize>,
    g: &mut Gathering,
    trees: &mut Vec<PlacedTree>,
) -> (r: Option<CutReport>)
    requires
        forall|i: int| 0 <= i < old(trees)@.len() ==> (#[trigger] old(trees)@[i]).tree.wf() && old(trees)@[i].tree.health
            >= i64::MIN + u32::MAX,
    ensures
        final(trees)@.len() == old(trees)@.len(),
        forall|i: int| 0 <= i < final(trees)@.len() ==> (#[trigger] final(trees)@[i]).tree.wf(),
        r is None ==> *final(g) == *old(g) && final(trees)@ == old(trees)@ && *final(selected) == *old(selected),
        r is Some <==> pressed && (match *old(selected) {
            Some(i) => i < old(trees)@.len(),
            None => false,
        }),
        r matches Some(rep) ==> {
            let i = old(selected)->0 as int;
            let t = old(trees)@[i];
            &&& (rep.outcome is Hit <==> cut_ready_spec(*old(g), t.tree))
            &&& rep.outcome is Hit ==> {
                &&& *final(selected) is None
                &&& final(trees)@ == old(trees)@.update(i, PlacedTree {
                    tree: Tree {
                        iframes: CUT_COOLDOWN,
                        health: (t.tree.health - old(g).damage) as i64,
                        ..t.tree
                    },
                    ..t
                })
                &&& *final(g) == (Gathering { cooldown: CUT_COOLDOWN, ..*old(g) })
                &&& rep.sound == Some(SoundEvent::AttackTree)
                &&& rep.wood == if rep.outcome == (CutOutcome::Hit { drops_wood: true }) {
                    Some(ItemDropEvent::Wood(1, t.position))
                } else {
                    None
                }
            }
            &&& rep.outcome is NotReady ==> {
                &&& *final(selected) == *old(selected)
                &&& final(trees)@ == old(trees)@
                &&& *final(g) == *old(g)
                &&& rep.sound is None
                &&& rep.wood is None
            }
        },
{
    if !pressed {
        return None;
    }
    match *selected {
        None => None,
        Some(i) => {
            if i >= trees.len() {
                return None;
            }
            let mut pt = trees[i];
            let out = cut_tree_with_draw(g, &mut pt.tree);
            let ghost t0 = trees@;
            trees.set(i, pt);
            proof {
                assert forall|k: int| 0 <= k < trees@.len() implies (#[trigger] trees@[k]).tree.wf() by {
                    if k != i {
                        assert(trees@[k] == t0[k]);
                    }
                }
            }
            match out {
                CutOutcome::Hit { drops_wood } => {
                    *selected = None;
                    let wood = if drops_wood { Some(ItemDropEvent::Wood(1, pt.position)) } else { None };
                    Some(CutReport { outcome: out, sound: Some(SoundEvent::AttackTree), wood })
                },
                CutOutcome::NotReady => {
                    assert(trees@ =~= t0);
                    Some(CutReport { outcome: out, sound: None, wood: None })
                },
            }
        },
    }
}

/// A tree lies dead: its identity, its place, and the experience of each shard it drops.
#[derive(Debug, Clone, Copy, PartialEq, Eq, Structural)]
pub struct TreeDiedEvent(pub u64, pub Point, pub u64);

/// What handling a tree's death produces: its shards, its wood, and the sound of the fall.
#[derive(Debug, PartialEq, Eq)]
pub struct TreeDeathOutcome {
    pub shards: Vec<XpShard>,
    pub wood: ItemDropEvent,
    pub sound: SoundEvent,
}

/// A tree after one tick of its stage.
pub open spec fn tree_updated(p: PlacedTree) -> PlacedTree {
    PlacedTree { tree: tree_update_spec(p.tree).0, ..p }
}

/// One death announcement for each tree lying dead, in order.
pub open spec fn dead_events(s: Seq<PlacedTree>) -> Seq<TreeDiedEvent>
    decreases s.len(),
{
    if s.len() == 0 {
        Seq::empty()
    } else if s.last().tree.state == TreeState::Dead {
        dead_events(s.drop_last()).push(TreeDiedEvent(s.last().id, s.last().position, TREE_SHARD_XP))
    } else {
        dead_events(s.drop_last())
    }
}

/// Advance every tree by one tick; announce each tree that lies dead, once, in order.
pub fn update_trees(trees: &mut Vec<PlacedTree>) -> (r: Vec<TreeDiedEvent>)
    requires
        forall|i: int| 0 <= i < old(trees)@.len() ==> (#[trigger] old(trees)@[i]).tree.wf(),
    ensures
        final(trees)@ == old(trees)@.map_values(|p: PlacedTree| tree_updated(p)),
        forall|i: int| 0 <= i < final(trees)@.len() ==> (#[trigger] final(trees)@[i]).tree.wf(),
        r@ == dead_events(old(trees)@),
{
    let ghost t0 = trees@;
    let mut out: Vec<TreeDiedEvent> = Vec::new();
    let mut k: usize = 0;
    while k < trees.len()
        invariant
            k <= trees@.len(),
            trees@.len() == t0.len(),
            forall|i: int| 0 <= i < t0.len() ==> (#[trigger] t0[i]).tree.wf(),
            forall|i: int|
                #![trigger trees@[i]]
                0 <= i < k ==> trees@[i] == tree_updated(t0[i]) && trees@[i].tree.wf(),
            forall|i: int| #![trigger trees@[i]] k <= i < trees@.len() ==> trees@[i] == t0[i],
            out@ == dead_events(t0.take(k as int)),
        decreases trees@.len() - k,
    {
        assert(t0.take(k + 1).drop_last() =~= t0.take(k as int));
        let mut pt = trees[k];
        let died = pt.tree.update();
        trees.set(k, pt);
        if died {
            out.push(TreeDiedEvent(pt.id, pt.position, TREE_SHARD_XP));
        }
        k = k + 1;
    }
    assert(t0.take(t0.len() as int) =~= t0);
    assert(trees@ =~= t0.map_values(|p: PlacedTree| tree_updated(p)));
    out
}

/// The trees other than the one with identity `id`, in order.
pub open spec fn without_tree(s: Seq<PlacedTree>, id: u64) -> Seq<PlacedTree>
    decreases s.len(),
{
    if s.len() == 0 {
        s
    } else if s.last().id == id {
        without_tree(s.drop_last(), id)
    } else {
        without_tree(s.drop_last(), id).push(s.last())
    }
}

/// `n` shards of a dead tree, lying where it stood.
pub open spec fn tree_shards(ev: TreeDiedEvent, n: nat) -> Seq<XpShard> {
    Seq::new(n, |_i: int| XpShard { position: ev.1, value: ev.2, attracted: false })
}

/// What a dead tree leaves, for the given counts: `shards` shards of its experience and
/// `wood` pieces of wood where it stood, and the sound of its fall.
pub fn tree_death_outcome(ev: &TreeDiedEvent, shards: u32, wood: u32) -> (r: TreeDeathOutcome)
    ensures
        r.shards@ == tree_shards(*ev, shards as nat),
        r.wood == ItemDropEvent::Wood(wood, ev.1),
        r.sound == SoundEvent::TreeHitGround,
{
    let mut out: Vec<XpShard> = Vec::new();
    let mut k: u32 = 0;
    while k < shards
        invariant
            k <= shards,
            out@ == tree_shards(*ev, k as nat),
        decreases shards - k,
    {
        out.push(XpShard { position: ev.1, value: ev.2, attracted: false });
        k = k + 1;
        assert(out@ =~= tree_shards(*ev, k as nat));
    }
    TreeDeathOutcome { shards: out, wood: ItemDropEvent::Wood(wood, ev.1), sound: SoundEvent::TreeHitGround }
}

/// Handle a tree's death: remove it (if it is still there), and scatter one to four shards
/// and one to ten pieces of wood where it stood, with the sound of its fall.
pub fn handle_tree_death(trees: &mut Vec<PlacedTree>, ev: &TreeDiedEvent) -> (r: TreeDeathOutcome)
    ensures
        final(trees)@ == without_tree(old(trees)@, ev.0),
        exists|n: nat| 1 <= n <= 4 && r.shards@ == #[trigger] tree_shards(*ev, n),
        r.wood matches ItemDropEvent::Wood(w, p) && 1 <= w <= 10 && p == ev.1,
        r.sound == SoundEvent::TreeHitGround,
{
    let mut kept: Vec<PlacedTree> = Vec::new();
    let mut k: usize = 0;
    while k < trees.len()
        invariant
            k <= trees@.len(),
            kept@ == without_tree(trees@.take(k as int), ev.0),
        decreases trees@.len() - k,
    {
        assert(trees@.take(k + 1).drop_last() =~= trees@.take(k as int));
        if trees[k].id != ev.0 {
            kept.push(trees[k]);
        }
        k = k + 1;
    }
    assert(trees@.take(trees@.len() as int) =~= trees@);
    *trees = kept;
    let drops = tree_death_drops();
    tree_death_outcome(ev, drops.xp_shards, drops.wood)
}

/// The pieces of wood that a drop request puts into the world: as many as asked for, just
/// below the place, with identities taken from `next_id` upward.
pub fn drop_wood(next_id: &mut u64, position: Point, count: u32) -> (r: Vec<PlayerPickup>)
    requires
        *old(next_id) + count <= u64::MAX,
        position.y - WOOD_DROP_OFFSET >= i32::MIN,
    ensures
        r@.len() == count,
        *final(next_id) == *old(next_id) + count,
        forall|k: int|
            0 <= k < r@.len() ==> #[trigger] r@[k] == (PlayerPickup {
                id: (*old(next_id) + k) as u64,
                position: Point { x: position.x, y: (position.y - WOOD_DROP_OFFSET) as i32 },
                kind: PickupType::Item,
            }),
{
    let ghost id0 = *next_id;
    let at = Point { x: position.x, y: position.y - WOOD_DROP_OFFSET };
    let mut out: Vec<PlayerPickup> = Vec::new();
    let mut k: u32 = 0;
    while k < count
        invariant
            k <= count,
            out@.len() == k,
            *next_id == id0 + k,
            id0 + count <= u64::MAX,
            at == (Point { x: position.x, y: (position.y - WOOD_DROP_OFFSET) as i32 }),
            forall|m: int|
                0 <= m < out@.len() ==> #[trigger] out@[m] == (PlayerPickup {
                    id: (id0 + m) as u64,
                    position: at,
                    kind: PickupType::Item,
                }),
        decreases count - k,
    {
        out.push(PlayerPickup { id: *next_id, position: at, kind: PickupType::Item });
        *next_id = *next_id + 1;
        k = k + 1;
    }
    out
}

} // verus!
