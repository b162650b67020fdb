//! Trees: they grow, faster on irrigated land, until they can be chopped.
use vstd::prelude::*;

use crate::sim::map::{MapView, TileMap, TilePos};

verus! {

/// The growth of a tree that can be chopped. On irrigated land a tree takes
/// seventy seconds to it, on dry land two hundred.
pub const MATURE: u64 = 1_400_000_000;

/// Growth a microsecond, on irrigated land.
pub const GROWTH_IRRIGATED: u64 = 20;

/// Growth a microsecond, on dry land.
pub const GROWTH_DRY: u64 = 7;

/// A tree on a tile.
#[derive(Clone, Copy, PartialEq, Eq, Structural, Debug)]
pub struct Tree {
    pub tile: TilePos,
    pub growth: u64,
}

/// A tree and its entity.
#[derive(Clone, Copy, PartialEq, Eq, Structural, Debug)]
pub struct TreeRow {
    pub id: u64,
    pub tree: Tree,
}

impl Tree {
    pub open spec fn mature(self) -> bool {
        self.growth >= MATURE
    }

    pub fn is_mature(&self) -> (r: bool)
        ensures
            r == self.mature(),
    {
        self.growth >= MATURE
    }

    /// The tree after `dt` microseconds.
    pub open spec fn grown(self, irrigated: bool, dt: u32) -> Tree {
        let rate = if irrigated {
            GROWTH_IRRIGATED
        } else {
            GROWTH_DRY
        };
        Tree {
            growth: if self.growth >= MATURE {
                self.growth
            } else if self.growth + rate * dt >= MATURE {
                MATURE
            } else {
                (self.growth + rate * dt) as u64
            },
            ..self
        }
    }
}

/// Every tree stands on the map.
pub open spec fn trees_stand(trees: Seq<TreeRow>, map: MapView) -> bool {
    forall|i: int| 0 <= i < trees.len() ==> map.holds((#[trigger] trees[i]).tree.tile)
}

/// Let all trees grow for `dt` microseconds.
pub fn grow_trees(map: &TileMap, trees: &mut Vec<TreeRow>, dt: u32)
    requires
        map.wf(),
        trees_stand(old(trees)@, map@),
    ensures
        final(trees)@ == old(trees)@.map_values(
            |r: TreeRow|
                TreeRow { tree: r.tree.grown(map@.irrigated[map@.at(r.tree.tile)], dt), ..r },
        ),
        trees_stand(final(trees)@, map@),
{
    let ghost before = trees@;
    let ghost grow = |r: TreeRow|
        TreeRow { tree: r.tree.grown(map@.irrigated[map@.at(r.tree.tile)], dt), ..r };
    let mut i: usize = 0;
    while i < trees.len()
        invariant
            map.wf(),
            trees_stand(before, map@),
            grow == (|r: TreeRow|
                TreeRow { tree: r.tree.grown(map@.irrigated[map@.at(r.tree.tile)], dt), ..r }),
            i <= before.len(),
            trees@.len() == before.len(),
            forall|j: int| 0 <= j < i ==> #[trigger] trees@[j] == grow(before[j]),
            forall|j: int| i <= j < before.len() ==> #[trigger] trees@[j] == before[j],
        decreases before.len() - i,
    {
        let mut row: TreeRow = trees[i];
        assert(map@.holds(before[i as int].tree.tile));
        if row.tree.growth < MATURE {
            let rate: u64 = if map.irrigated[map.idx(row.tree.tile.x, row.tree.tile.y)] {
                GROWTH_IRRIGATED
            } else {
                GROWTH_DRY
            };
            assert(rate * dt <= 20 * 0xffff_ffff) by (nonlinear_arith)
                requires
                    rate <= 20,
                    dt <= 0xffff_ffff,
            ;
            assert(0 <= rate * dt) by (nonlinear_arith);
            let growth: u64 = row.tree.growth + rate * dt as u64;
            row.tree.growth = if growth >= MATURE {
                MATURE
            } else {
                growth
            };
            trees.set(i, row);
        }
        i += 1;
    }
    proof {
        assert(trees@ =~= before.map_values(grow));
        assert forall|j: int| 0 <= j < trees@.len() implies map@.holds(
            (#[trigger] trees@[j]).tree.tile,
        ) by {
            assert(map@.holds(before[j].tree.tile));
        }
    }
}

/// A number that looks random and is the same for a tile every time.
pub open spec fn scatter(x: u32, y: u32) -> u32 {
    ((((x * 2654435761) % 0x1_0000_0000) as u32 ^ ((y * 40503) % 0x1_0000_0000) as u32) >> 3) % 100
}

impl MapView {
    /// Does a tree stand here at first? Trees stand on free land, more of them
    /// near the river.
    pub open spec fn wooded(self, t: TilePos) -> bool {
        let near = self.irrigated[self.at(t)] || self.ground[self.at(t)] <= 1;
        scatter(t.x, t.y) < (if near {
            18u32
        } else {
            7u32
        }) && self.free_land(t)
    }

    /// The tree that stands here at first.
    pub open spec fn first_tree(self, t: TilePos) -> Tree {
        Tree {
            tile: t,
            growth: (560_000_000 + (scatter(t.x, t.y) % 7) * 140_000_000) as u64,
        }
    }

    /// The trees of the first `n` tiles, row by row.
    pub open spec fn first_trees(self, n: nat) -> Seq<Tree>
        decreases n,
    {
        if n == 0 {
            Seq::empty()
        } else {
            let i = n - 1;
            let t = TilePos {
                x: (i % (self.width as int)) as u32,
                y: (i / (self.width as int)) as u32,
            };
            let prior = self.first_trees((n - 1) as nat);
            if self.wooded(t) {
                prior.push(self.first_tree(t))
            } else {
                prior
            }
        }
    }
}

fn scatter_of(x: u32, y: u32) -> (r: u32)
    ensures
        r == scatter(x, y),
        r < 100,
{
    let a: u32 = x.wrapping_mul(2654435761);
    let b: u32 = y.wrapping_mul(40503);
    ((a ^ b) >> 3) % 100
}

/// The trees that stand on a new map, row by row.
pub fn scatter_initial_trees(map: &TileMap) -> (r: Vec<Tree>)
    requires
        map.wf(),
    ensures
        r@ == map@.first_trees(map@.size() as nat),
{
    let n: usize = map.water.len();
    let mut r: Vec<Tree> = Vec::new();
    let mut i: usize = 0;
    while i < n
        invariant
            map.wf(),
            n == map@.size(),
            i <= n,
            r@ == map@.first_trees(i as nat),
        decreases n - i,
    {
        proof {
            crate::sim::map::places_have_tiles(map.width, map.height, i as int);
        }
        let x: u32 = i as u32 % map.width;
        let y: u32 = i as u32 / map.width;
        let hash: u32 = scatter_of(x, y);
        let chance: u32 = if map.irrigated[i] || map.ground[i] <= 1 {
            18
        } else {
            7
        };
        if hash < chance && map.is_free_land(x, y) {
            r.push(
                Tree {
                    tile: TilePos { x, y },
                    growth: 560_000_000 + (hash % 7) as u64 * 140_000_000,
                },
            );
        }
        i += 1;
    }
    r
}

/// A tree on its tile, which is now taken.
pub fn spawn_tree(map: &mut TileMap, tile: TilePos, growth: u64, id: u64) -> (r: TreeRow)
    requires
        old(map).wf(),
        old(map)@.holds(tile),
    ensures
        final(map).wf(),
        final(map)@ == (MapView {
            tree: old(map)@.tree.update(old(map)@.at(tile), Some(id)),
            ..old(map)@
        }),
        r == (TreeRow { id, tree: Tree { tile, growth } }),
{
    let ghost before = map@;
    let i: usize = map.idx(tile.x, tile.y);
    map.tree.set(i, Some(id));
    proof {
        assert(map@ =~= (MapView { tree: before.tree.update(i as int, Some(id)), ..before }));
    }
    TreeRow { id, tree: Tree { tile, growth } }
}

/// Growth never goes back, and stops when the tree is mature.
pub proof fn trees_grow_up(tree: Tree, irrigated: bool, dt: u32)
    ensures
        tree.grown(irrigated, dt).growth >= tree.growth,
        tree.mature() ==> tree.grown(irrigated, dt) == tree,
        !tree.mature() ==> tree.grown(irrigated, dt).growth <= MATURE,
        tree.grown(false, dt).growth <= tree.grown(true, dt).growth,
{
    assert(7 * dt <= 20 * dt);
}

} // verus!
