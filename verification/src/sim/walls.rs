//! Where the river can be closed, and what the governor makes of a beat.
use vstd::prelude::*;

use crate::sim::buildings::{BuildingKind, BuildingRow};
use crate::sim::governor::Scene;
use crate::sim::map::{MapView, TilePos};
use crate::sim::season::Population;
use crate::sim::trees::TreeRow;

verus! {

/// Crossings are looked for from four columns down the river to half the map's
/// width.
pub proof fn where_crossings_are_looked_for(map: MapView, anchor: TilePos, x: int)
    ensures
        map.in_band(anchor, x) <==> anchor.x + 4 <= x && 2 * (x - anchor.x) < map.width - map.width
            % 2,
{
}

/// The tiles of a column where a dam may stand come from the top down.
proof fn columns_come_in_order(map: MapView, x: u32, n: nat)
    requires
        n <= u32::MAX,
    ensures
        forall|i: int, j: int|
            0 <= i < j < map.dam_column(x, n).len() ==> (#[trigger] map.dam_column(x, n)[i]).y < (
            #[trigger] map.dam_column(x, n)[j]).y,
    decreases n,
{
    if n > 0 {
        let m = (n - 1) as nat;
        columns_come_in_order(map, x, m);
        crate::sim::crossing::column_holds(map, x, m);
        let above = map.dam_column(x, m);
        let here = map.dam_column(x, n);
        assert forall|i: int, j: int| 0 <= i < j < here.len() implies (#[trigger] here[i]).y < (
        #[trigger] here[j]).y by {
            assert(here[i] == above[i]);
            if j < above.len() {
                assert(here[j] == above[j]);
            }
        }
    }
}

/// The river can be closed in a column of the map where its free bed is one
/// stretch of one to three tiles, with every dam six columns off or more; the
/// wall is then that stretch, from the top down.
pub proof fn where_the_river_can_be_closed(
    map: MapView,
    dams: Seq<TilePos>,
    x: u32,
    top: int,
    len: int,
)
    requires
        map.wf(),
        x < map.width,
        1 <= len <= 3,
        0 <= top,
        top + len <= map.height,
        forall|y: int|
            0 <= y < map.height ==> ((#[trigger] map.ground[y * map.width + x] == 0
                && map.building[y * map.width + x] is None) <==> top <= y < top + len),
        forall|i: int|
            0 <= i < dams.len() ==> (#[trigger] dams[i]).x >= x + 6 || dams[i].x + 6 <= x,
    ensures
        map.wall_in(dams, x as int) == Some(
            Seq::new(len as nat, |k: int| TilePos { x, y: (top + k) as u32 }),
        ),
{
    let n = map.height as nat;
    let column = map.dam_column(x, n);
    crate::sim::crossing::column_holds(map, x, n);
    columns_come_in_order(map, x, n);
    let want = Seq::new(len as nat, |k: int| TilePos { x, y: (top + k) as u32 });
    assert forall|i: int| 0 <= i < column.len() implies top <= (#[trigger] column[i]).y < top
        + len by {
        let t = column[i];
        assert(map.refusal(BuildingKind::Dam, t) is None);
        assert(map.ground[t.y * map.width + x] == 0);
    }
    assert forall|k: int| 0 <= k < len implies column.contains(#[trigger] want[k]) by {
        let y = (top + k) as u32;
        assert(map.ground[y * map.width + x] == 0);
        assert(map.refusal(BuildingKind::Dam, TilePos { x, y }) is None);
    }
    stretches_are_whole(column, want, top, len);
    assert forall|i: int| 1 <= i < column.len() implies (#[trigger] column[i]).y == column[i
        - 1].y + 1 by {
        assert(column[i] == want[i]);
        assert(column[i - 1] == want[i - 1]);
    }
}

/// An ascending list within a stretch that holds all of it is that stretch.
proof fn stretches_are_whole(s: Seq<TilePos>, want: Seq<TilePos>, top: int, len: int)
    requires
        1 <= len <= 3,
        want.len() == len,
        0 <= top,
        top + len <= u32::MAX,
        forall|k: int| 0 <= k < len ==> (#[trigger] want[k]).y == top + k,
        forall|k: int| 0 <= k < len ==> s.contains(#[trigger] want[k]),
        forall|i: int| 0 <= i < s.len() ==> top <= (#[trigger] s[i]).y < top + len,
        forall|i: int, j: int|
            0 <= i < j < s.len() ==> (#[trigger] s[i]).y < (#[trigger] s[j]).y,
    ensures
        s == want,
{
    assert(s.len() <= len) by {
        if s.len() > len {
            assert(s[0].y >= top);
            assert(s[1].y > s[0].y);
            if len >= 2 {
                assert(s[2].y > s[1].y);
            }
            if len >= 3 {
                assert(s[3].y > s[2].y);
            }
            assert(s[len].y < top + len);
        }
    }
    let a = choose|a: int| 0 <= a < s.len() && s[a] == want[0];
    assert(s.contains(want[0]));
    if len >= 2 {
        assert(s.contains(want[1]));
        let b = choose|b: int| 0 <= b < s.len() && s[b] == want[1];
        assert(a < b) by {
            if b < a {
                assert(s[b].y < s[a].y);
            }
        }
        if len >= 3 {
            assert(s.contains(want[2]));
            let c = choose|c: int| 0 <= c < s.len() && s[c] == want[2];
            assert(b < c) by {
                if c < b {
                    assert(s[c].y < s[b].y);
                }
            }
        }
    }
    assert(s =~= want);
}

/// And a column where it can be closed is of that kind.
pub proof fn walls_close_the_river(map: MapView, dams: Seq<TilePos>, x: int, y: int)
    requires
        map.wf(),
        map.wall_in(dams, x) is Some,
        0 <= y < map.height,
    ensures
        ({
            let wall = map.wall_in(dams, x)->0;
            let i = y * map.width + x;
            &&& 0 <= x < map.width
            &&& 1 <= wall.len() <= 3
            &&& (map.ground[i] == 0 && map.building[i] is None) <==> wall[0].y <= y < wall[0].y
                + wall.len()
            &&& forall|k: int|
                0 <= k < wall.len() ==> (#[trigger] wall[k]).x == x && wall[k].y == wall[0].y + k
            &&& forall|k: int|
                0 <= k < dams.len() ==> (#[trigger] dams[k]).x >= x + 6 || dams[k].x + 6 <= x
        }),
{
    let n = map.height as nat;
    let wall = map.wall_in(dams, x)->0;
    crate::sim::crossing::column_holds(map, x as u32, n);
    assert forall|k: int| 0 <= k < wall.len() implies (#[trigger] wall[k]).x == x && wall[k].y
        == wall[0].y + k by {
        if k >= 1 {
            assert(wall[k].y == wall[k - 1].y + 1);
        }
        if k >= 2 {
            assert(wall[1].y == wall[0].y + 1);
        }
    }
    let t = TilePos { x: x as u32, y: y as u32 };
    if map.refusal(BuildingKind::Dam, t) is None {
        assert(wall.contains(t));
        let k = choose|k: int| 0 <= k < wall.len() && wall[k] == t;
        assert(wall[k].y == wall[0].y + k);
    } else if wall[0].y <= y < wall[0].y + wall.len() {
        let k = y - wall[0].y;
        assert(wall[k] == t);
    }
}

/// A beat with crews free goes on with a dam if that comes first; else what is
/// to be built next is built, and remembered; and where nothing is, nothing is
/// done beyond planning.
pub proof fn how_the_governor_acts(
    before: Scene,
    after: Scene,
    pop: Population,
    rows: Seq<BuildingRow>,
    trees: Seq<TreeRow>,
)
    requires
        crate::sim::governor::acted(before, after, pop, rows, trees),
    ensures
        ({
            let planned = before.planned(pop, rows);
            let next = planned.next(pop, rows, trees);
            if planned.builds_dam(rows) {
                after == planned.dammed(pop, rows, trees)
            } else if next is None {
                after == planned
            } else {
                let (kind, tile) = next->0;
                &&& after.placed.len() == before.placed.len() + 1
                &&& after.placed.last().0.building.kind == kind
                &&& after.placed.last().0.building.tile == tile
                &&& after.governor.last_built == Some(tile)
                &&& after.governor.dam_project == planned.governor.dam_project
                &&& kind == BuildingKind::Forester ==> after.governor.road
                    == before.governor.road
            }
        }),
{
}

/// The road to a new building is the cheapest way from the colony to it, the
/// first step last: `way` is the colony's place, those of the road from its end,
/// and the building's. Each is beside the one before it, and no way costs less.
/// Where there is no way the old road stands.
pub proof fn roads_are_cheapest_ways(
    map: MapView,
    rows: Seq<BuildingRow>,
    goal: TilePos,
    old_road: Seq<TilePos>,
    road: Seq<TilePos>,
    way: Seq<int>,
    q: Seq<int>,
)
    requires
        crate::sim::governor::road_to(map, rows, goal, old_road, road),
        goal != map.anchor(rows),
        way.len() == road.len() + 2,
        way[0] == map.anchor(rows).y * map.width + map.anchor(rows).x,
        way.last() == goal.y * map.width + goal.x,
        forall|k: int|
            0 <= k < road.len() ==> #[trigger] way[road.len() - k] == road[k].y * map.width
                + road[k].x,
    ensures
        ({
            let f = crate::sim::governor::road_field(map, rows, goal);
            &&& f.cost == map.walk_costs(rows, rows.len())
            &&& f.width == map.width && f.height == map.height
            &&& f.goal == goal.y * map.width + goal.x
            &&& f.route(way[0], q) ==> f.walk(way) && f.walk_cost(way) <= f.walk_cost(q)
            &&& road != old_road ==> f.walk(way)
        }),
{
    let f = crate::sim::governor::road_field(map, rows, goal);
    let same = (seq![way[0]] + crate::sim::pathfind::places(map.width, road.reverse())).push(
        f.goal,
    );
    assert forall|i: int| 0 <= i < way.len() implies way[i] == same[i] by {
        if 1 <= i <= road.len() {
            let k = road.len() - i;
            assert(way[road.len() - k] == road[k].y * map.width + road[k].x);
            assert(road.reverse()[i - 1] == road[k]);
        }
    }
    assert(way =~= same);
    let start = map.at(map.anchor(rows));
    assert(start == way[0]);
    let way_there = exists|p: Seq<int>| #[trigger] f.route(start, p);
    if f.route(start, q) {
        assert(way_there);
        assert(f.route(start, way));
        assert(f.walk_cost(way) <= f.walk_cost(q));
    }
    if road != old_road {
        assert(way_there);
        assert(f.route(start, way));
    }
}

} // verus!
