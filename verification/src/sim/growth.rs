//! How trees grow and where they stand at first.
use vstd::prelude::*;

use crate::sim::map::{MapView, TilePos};
use crate::sim::trees::Tree;

verus! {

/// A young tree grows by the time that passes until it is grown up: twenty
/// parts a microsecond on irrigated land and seven on dry land, so that it
/// takes seventy or two hundred seconds in all. Its place stays.
pub proof fn growing_takes_its_time(tree: Tree, irrigated: bool, dt: u32)
    requires
        tree.growth < 1_400_000_000,
    ensures
        ({
            let after = tree.grown(irrigated, dt);
            let gained = if irrigated {
                20 * dt
            } else {
                7 * dt
            };
            &&& after.tile == tree.tile
            &&& tree.growth + gained < 1_400_000_000 ==> after.growth == tree.growth + gained
                && !after.mature()
            &&& tree.growth + gained >= 1_400_000_000 ==> after.growth == 1_400_000_000
                && after.mature()
        }),
{
}

/// Growing for two moments is growing for the time of both.
pub proof fn growing_adds_up(tree: Tree, irrigated: bool, a: u32, b: u32)
    requires
        a + b <= u32::MAX,
    ensures
        tree.grown(irrigated, a).grown(irrigated, b) == tree.grown(irrigated, (a + b) as u32),
        tree.mature() <==> tree.growth >= 1_400_000_000,
{
    assert(20 * a + 20 * b == 20 * (a + b));
    assert(7 * a + 7 * b == 7 * (a + b));
}

/// On a new map a tree stands on free land only, on about one tile in six near
/// the river and one in fourteen elsewhere, as the tile's number has it; it has
/// two fifths of its growth at least.
pub proof fn woods_grow_on_free_land(map: MapView, t: TilePos)
    ensures
        ({
            let i = t.y * map.width + t.x;
            let chance = if map.irrigated[i] || map.ground[i] <= 1 {
                18int
            } else {
                7
            };
            map.wooded(t) <==> {
                &&& map.ground[i] >= 1 && map.water[i] <= 50_000
                &&& map.building[i] is None && map.tree[i] is None
                &&& crate::sim::trees::scatter(t.x, t.y) < chance
            }
        }),
        map.first_tree(t).tile == t,
        560_000_000 <= map.first_tree(t).growth <= 1_400_000_000,
        map.first_tree(t).growth == 140_000_000 * (4 + crate::sim::trees::scatter(t.x, t.y) % 7),
{
}

/// The tiles of a new map are gone through row by row, and each wooded one gets
/// one tree: there is a tree for every wooded tile, every tree has its wooded
/// tile, and they come in the order of the tiles.
pub proof fn every_wooded_tile_gets_a_tree(map: MapView, n: nat)
    requires
        map.wf(),
        n <= map.size(),
    ensures
        forall|t: TilePos|
            t.x < map.width && t.y < map.height && t.y * map.width + t.x < n
                && #[trigger] map.wooded(t) ==> exists|k: int|
                0 <= k < map.first_trees(n).len() && #[trigger] map.first_trees(n)[k]
                    == map.first_tree(t),
        forall|k: int|
            0 <= k < map.first_trees(n).len() ==> {
                let tree = #[trigger] map.first_trees(n)[k];
                let t = tree.tile;
                &&& t.x < map.width && t.y < map.height && t.y * map.width + t.x < n
                &&& map.wooded(t)
                &&& tree == map.first_tree(t)
            },
        forall|j: int, k: int|
            0 <= j < k < map.first_trees(n).len() ==> {
                let a = (#[trigger] map.first_trees(n)[j]).tile;
                let b = (#[trigger] map.first_trees(n)[k]).tile;
                a.y * map.width + a.x < b.y * map.width + b.x
            },
    decreases n,
{
    if n > 0 {
        let m = (n - 1) as nat;
        every_wooded_tile_gets_a_tree(map, m);
        crate::sim::map::places_have_tiles(map.width, map.height, n - 1);
        let w = map.width as int;
        let here = TilePos { x: ((n - 1) % w) as u32, y: ((n - 1) / w) as u32 };
        let prior = map.first_trees(m);
        let all = map.first_trees(n);
        assert(here.y * map.width + here.x == n - 1);
        assert forall|t: TilePos|
            t.x < map.width && t.y < map.height && t.y * map.width + t.x < n
                && #[trigger] map.wooded(t) implies exists|k: int|
            0 <= k < all.len() && #[trigger] all[k] == map.first_tree(t) by {
            crate::sim::map::tiles_have_places(map.width, map.height, t.x as int, t.y as int);
            if t.y * map.width + t.x == n - 1 {
                assert(t == here);
                assert(all[all.len() - 1] == map.first_tree(t));
            } else {
                let k = choose|k: int|
                    0 <= k < prior.len() && #[trigger] prior[k] == map.first_tree(t);
                assert(all[k] == prior[k]);
            }
        }
        assert forall|k: int| 0 <= k < all.len() implies ({
            let tree = #[trigger] all[k];
            let t = tree.tile;
            &&& t.x < map.width && t.y < map.height && t.y * map.width + t.x < n
            &&& map.wooded(t)
            &&& tree == map.first_tree(t)
        }) by {
            if k < prior.len() {
                assert(all[k] == prior[k]);
            }
        }
        assert forall|j: int, k: int| 0 <= j < k < all.len() implies ({
            let a = (#[trigger] all[j]).tile;
            let b = (#[trigger] all[k]).tile;
            a.y * map.width + a.x < b.y * map.width + b.x
        }) by {
            assert(all[j] == prior[j]);
            if k < prior.len() {
                assert(all[k] == prior[k]);
            }
        }
    }
}

} // verus!
