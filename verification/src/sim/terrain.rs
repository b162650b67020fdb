//! What the map holds, told by columns and rows.
use vstd::prelude::*;

use crate::sim::map::{MapView, Pos, TilePos};

verus! {

/// A position lies on the tile whose column and row it falls into, tiles being
/// one unit wide and the map's middle at the origin; one beyond the outermost
/// tiles lies on none.
pub proof fn positions_fall_into_tiles(map: MapView, pos: Pos, t: TilePos)
    requires
        map.wf(),
    ensures
        map.tile_under(pos) == Some(t) <==> {
            &&& t.x < map.width && t.y < map.height
            &&& t.x * 1_000_000 <= pos.x + map.width * 500_000 < t.x * 1_000_000 + 1_000_000
            &&& t.y * 1_000_000 <= pos.z + map.height * 500_000 < t.y * 1_000_000 + 1_000_000
        },
        map.tile_under(pos) is None <==> {
            ||| pos.x < -(map.width * 500_000)
            ||| pos.x >= map.width * 500_000
            ||| pos.z < -(map.height * 500_000)
            ||| pos.z >= map.height * 500_000
        },
{
}

/// The middle of a tile is half a tile from each of its sides, as high as its
/// ground, at half a unit a level.
pub proof fn middles_of_tiles(map: MapView, t: TilePos)
    requires
        map.wf(),
        map.holds(t),
    ensures
        map.center(t).x == t.x * 1_000_000 + 500_000 - map.width * 500_000,
        map.center(t).z == t.y * 1_000_000 + 500_000 - map.height * 500_000,
        map.center(t).y == map.ground[t.y * map.width + t.x] * 500_000,
{
    crate::sim::map::tiles_have_places(map.width, map.height, t.x as int, t.y as int);
    assert(-1000 <= map.ground[t.y * map.width + t.x] <= 1000);
}

/// Free land is ground above the river bed, without surface water, building or
/// tree, and all such ground is free. Surface water is deeper than a twentieth
/// of a level.
pub proof fn free_land_is_bare(map: MapView, t: TilePos)
    ensures
        ({
            let i = t.y * map.width + t.x;
            &&& map.free_land(t) <==> map.ground[i] >= 1 && map.water[i] <= 50_000
                && map.building[i] is None && map.tree[i] is None
            &&& map.wet(t) <==> map.water[i] > 50_000
            &&& map.river_bed(t) <==> map.ground[i] == 0
            &&& map.holds(t) <==> t.x < map.width && t.y < map.height
        }),
{
}

/// The tiles beside a tile are those one step away along its row or its column,
/// each once, in the order east, west, south, north.
pub proof fn neighbours_are_one_step_away(map: MapView, t: TilePos, u: TilePos, i: int, j: int)
    requires
        map.wf(),
        map.holds(t),
    ensures
        ({
            let dx = u.x - t.x;
            let dy = u.y - t.y;
            map.beside(t).contains(u) <==> {
                &&& u.x < map.width && u.y < map.height
                &&& dx * dx + dy * dy == 1
            }
        }),
        0 <= i < j < map.beside(t).len() ==> {
            let rank = |v: TilePos|
                if v.x > t.x {
                    0int
                } else if v.x < t.x {
                    1
                } else if v.y > t.y {
                    2
                } else {
                    3
                };
            rank(map.beside(t)[i]) < rank(map.beside(t)[j])
        },
{
    let dx = u.x - t.x;
    let dy = u.y - t.y;
    let b = map.beside(t);
    assert(dx * dx + dy * dy == 1 <==> (dy == 0 && (dx == 1 || dx == -1)) || (dx == 0 && (dy == 1
        || dy == -1))) by (nonlinear_arith);
    let e = if t.x + 1 < map.width {
        1int
    } else {
        0
    };
    let w = if t.x > 0 {
        1int
    } else {
        0
    };
    let s = if t.y + 1 < map.height {
        1int
    } else {
        0
    };
    if e == 1 {
        assert(b[0] == TilePos { x: (t.x + 1) as u32, y: t.y });
    }
    if w == 1 {
        assert(b[e] == TilePos { x: (t.x - 1) as u32, y: t.y });
    }
    if s == 1 {
        assert(b[e + w] == TilePos { x: t.x, y: (t.y + 1) as u32 });
    }
    if t.y > 0 {
        assert(b[e + w + s] == TilePos { x: t.x, y: (t.y - 1) as u32 });
    }
}

/// A tile is near water exactly where a tile one step away has surface water.
pub proof fn near_water_is_one_step_away(map: MapView, t: TilePos)
    requires
        map.wf(),
        map.holds(t),
    ensures
        map.near_water(t) <==> exists|u: TilePos|
            u.x < map.width && u.y < map.height && (u.x - t.x) * (u.x - t.x) + (u.y - t.y) * (u.y
                - t.y) == 1 && #[trigger] map.wet(u),
{
    let b = map.beside(t);
    if map.near_water(t) {
        let i = choose|i: int| 0 <= i < b.len() && map.wet(#[trigger] b[i]);
        let u = b[i];
        neighbours_are_one_step_away(map, t, u, 0, 0);
        assert(b.contains(u));
        assert(map.wet(u));
    }
    if exists|u: TilePos|
        u.x < map.width && u.y < map.height && (u.x - t.x) * (u.x - t.x) + (u.y - t.y) * (u.y
            - t.y) == 1 && #[trigger] map.wet(u) {
        let u = choose|u: TilePos|
            u.x < map.width && u.y < map.height && (u.x - t.x) * (u.x - t.x) + (u.y - t.y) * (u.y
                - t.y) == 1 && #[trigger] map.wet(u);
        neighbours_are_one_step_away(map, t, u, 0, 0);
        let i = choose|i: int| 0 <= i < b.len() && b[i] == u;
        assert(map.wet(b[i]));
    }
}

/// The river runs from west to east through the rows that its middles give: two
/// rows hold one level of water, one more is dug out beside them, and at the
/// map's edge they are held on it. It enters in the first column and leaves in
/// the last. All other ground is dry and one to four levels high, as the hills
/// have it. Nothing stands on the map.
pub proof fn rivers_run_east(
    width: u32,
    height: u32,
    levels: Seq<i32>,
    middles: Seq<i32>,
    x: int,
    y: int,
)
    requires
        0 <= x < width,
        0 <= y < height,
        levels.len() == width * height,
        middles.len() == width,
    ensures
        ({
            let map = MapView::landscape(width, height, levels, middles);
            let i = y * width + x;
            let held = |row: int|
                if row < 0 {
                    0
                } else if row >= height {
                    height - 1
                } else {
                    row
                };
            let flows = y == held(middles[x] - 1) || y == held(middles[x] as int);
            let dug = flows || y == held(middles[x] + 1);
            &&& map.width == width && map.height == height
            &&& map.water[i] == if flows {
                1_000_000
            } else {
                0int
            }
            &&& dug ==> map.ground[i] == 0
            &&& !dug ==> 1 <= map.ground[i] <= 4
            &&& !dug && 1 <= levels[i] <= 4 ==> map.ground[i] == levels[i]
            &&& !dug && levels[i] < 1 ==> map.ground[i] == 1
            &&& !dug && levels[i] > 4 ==> map.ground[i] == 4
            &&& map.source[i] <==> flows && x == 0
            &&& map.drain[i] <==> flows && x == width - 1
            &&& !map.dam[i] && !map.irrigated[i] && map.building[i] is None && map.tree[i] is None
        }),
{
    crate::sim::map::tiles_have_places(width, height, x, y);
}

} // verus!
