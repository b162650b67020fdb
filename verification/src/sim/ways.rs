//! What a way over the map is, told by columns, rows and costs; and where the
//! founders of a colony stand.
use vstd::prelude::*;

use crate::sim::buildings::{BuildingKind, BuildingRow};
use crate::sim::governor::Scene;
use crate::sim::map::{MapView, TilePos};
use crate::sim::pathfind::Field;
use crate::sim::season::Population;
use crate::sim::trees::TreeRow;

verus! {

/// A step leads to a tile that is one column or one row away, and to no other;
/// never over the edge of the map.
pub proof fn steps_lead_to_the_next_tile(f: Field, x: int, y: int, u: int, v: int)
    requires
        0 <= x < f.width,
        0 <= y < f.height,
        0 <= u < f.width,
        0 <= v < f.height,
    ensures
        f.beside(y * f.width + x, v * f.width + u) <==> (u - x) * (u - x) + (v - y) * (v - y) == 1,
{
    let w = f.width as int;
    let dx = u - x;
    let dy = v - y;
    crate::sim::map::tiles_have_places(f.width, f.height, x, y);
    crate::sim::map::tiles_have_places(f.width, f.height, u, v);
    assert(dx * dx + dy * dy == 1 <==> (dy == 0 && (dx == 1 || dx == -1)) || (dx == 0 && (dy == 1
        || dy == -1))) by (nonlinear_arith);
    assert(v * w + u - (y * w + x) == dy * w + dx) by (nonlinear_arith)
        requires
            dx == u - x,
            dy == v - y,
    ;
    let a = y * w + x;
    let b = v * w + u;
    if b == a + 1 && x + 1 < w {
        assert(dy == 0 && dx == 1) by (nonlinear_arith)
            requires
                dy * w + dx == 1,
                x + 1 < w,
                0 <= x,
                0 <= x + dx < w,
        ;
    }
    if b == a - 1 && x > 0 {
        assert(dy == 0 && dx == -1) by (nonlinear_arith)
            requires
                dy * w + dx == -1,
                x > 0,
                x < w,
                0 <= x + dx < w,
        ;
    }
    if b == a + w {
        assert(dy == 1 && dx == 0) by (nonlinear_arith)
            requires
                dy * w + dx == w,
                0 <= x < w,
                0 <= x + dx < w,
        ;
    }
    if b == a - w {
        assert(dy == -1 && dx == 0) by (nonlinear_arith)
            requires
                dy * w + dx == -w,
                0 <= x < w,
                0 <= x + dx < w,
        ;
    }
    if dx == 0 && dy == 1 {
        assert(dy * w == w) by (nonlinear_arith)
            requires
                dy == 1,
        ;
    }
    if dx == 0 && dy == -1 {
        assert(dy * w == -w) by (nonlinear_arith)
            requires
                dy == -1,
        ;
    }
    if dy == 0 {
        assert(dy * w == 0) by (nonlinear_arith)
            requires
                dy == 0,
        ;
    }
}

/// The goal can always be entered, at the cost of grass; any other tile at its
/// own cost, unless it is blocked.
pub proof fn what_entering_costs(f: Field, j: int)
    ensures
        j == f.goal ==> f.open_to(j) && f.enter(j) == 100,
        j != f.goal ==> f.enter(j) == f.cost[j] && (f.open_to(j) <==> f.cost[j] < 0xffff_ffff),
{
}

/// A walk may begin on any tile of the map and costs nothing so far. It goes on
/// to a tile exactly if that lies beside the last one and can be entered, and
/// then costs as much more as entering it does.
pub proof fn walks_go_on_step_by_step(f: Field, p: Seq<int>, j: int)
    requires
        p.len() >= 1,
    ensures
        f.walk(seq![j]) <==> 0 <= j < f.width * f.height,
        f.walk_cost(seq![j]) == 0,
        f.walk(p.push(j)) <==> f.walk(p) && f.beside(p.last(), j) && f.open_to(j),
        f.walk_cost(p.push(j)) == f.walk_cost(p) + f.enter(j),
        f.route(p[0], p) <==> f.walk(p) && p.last() == f.goal,
{
    let q = p.push(j);
    assert(q.drop_last() =~= p);
    if f.walk(q) {
        assert(q[p.len() as int] == j);
        assert(f.beside(q[p.len() - 1], q[p.len() as int]));
        assert forall|k: int| 1 <= k < p.len() implies f.beside(p[k - 1], #[trigger] p[k])
            && f.open_to(p[k]) by {
            assert(q[k] == p[k]);
            assert(q[k - 1] == p[k - 1]);
        }
        assert(q[0] == p[0]);
    }
    if f.walk(p) && f.beside(p.last(), j) && f.open_to(j) {
        assert forall|k: int| 1 <= k < q.len() implies f.beside(q[k - 1], #[trigger] q[k])
            && f.open_to(q[k]) by {
            if k < p.len() {
                assert(q[k] == p[k]);
                assert(q[k - 1] == p[k - 1]);
            }
        }
    }
}

/// The founders of a colony are three at most and stand on free land, each a
/// little off the middle of a tile; the first on the middle of the map, if that
/// is free.
pub proof fn founders_stand_on_free_land(map: MapView, i: int)
    requires
        map.wf(),
        map.width >= 2,
        map.height >= 2,
    ensures
        ({
            let tiles = map.founding_tiles();
            &&& tiles.len() <= 3
            &&& 0 <= i < tiles.len() ==> map.holds(tiles[i]) && map.free_land(tiles[i])
            &&& 0 <= i < tiles.len() ==> map.founder(tiles[i], i).x == map.center(tiles[i]).x
                + 300_000 * (i - 1)
            &&& 0 <= i < tiles.len() ==> map.founder(tiles[i], i).z == map.center(tiles[i]).z
            &&& map.free_land(map.middle()) ==> tiles.len() >= 1 && tiles[0] == map.middle()
        }),
{
    let reach = if map.width <= map.height {
        map.width as int / 2
    } else {
        map.height as int / 2
    };
    let c = map.middle();
    let all = map.free_in_squares(c, reach as nat);
    squares_hold_free_land(map, c, reach as nat);
    let tiles = map.founding_tiles();
    if 0 <= i < tiles.len() {
        assert(tiles[i] == all[i]);
        crate::sim::terrain::middles_of_tiles(map, tiles[i]);
    }
    if map.free_land(c) {
        the_middle_comes_first(map, c, reach as nat);
        assert(tiles[0] == all[0]);
    }
}

proof fn squares_hold_free_land(map: MapView, c: TilePos, n: nat)
    ensures
        forall|k: int|
            0 <= k < map.free_in_squares(c, n).len() ==> map.holds(
                #[trigger] map.free_in_squares(c, n)[k],
            ) && map.free_land(map.free_in_squares(c, n)[k]),
    decreases n,
{
    if n > 0 {
        let m = (n - 1) as nat;
        squares_hold_free_land(map, c, m);
        let side = 2 * (n - 1) + 1;
        let square = map.free_upto(c, n - 1, (side * side) as nat);
        rows_hold_free_land(map, c, n - 1, (side * side) as nat);
        let prior = map.free_in_squares(c, m);
        let all = map.free_in_squares(c, n);
        assert(all =~= prior + square);
        assert forall|k: int| 0 <= k < all.len() implies map.holds(#[trigger] all[k])
            && map.free_land(all[k]) by {
            if k < prior.len() {
                assert(all[k] == prior[k]);
            } else {
                assert(all[k] == square[k - prior.len()]);
            }
        }
    }
}

proof fn rows_hold_free_land(map: MapView, c: TilePos, r: int, n: nat)
    ensures
        forall|k: int|
            0 <= k < map.free_upto(c, r, n).len() ==> map.holds(
                #[trigger] map.free_upto(c, r, n)[k],
            ) && map.free_land(map.free_upto(c, r, n)[k]),
    decreases n,
{
    if n > 0 {
        let m = (n - 1) as nat;
        rows_hold_free_land(map, c, r, m);
        let prior = map.free_upto(c, r, m);
        let all = map.free_upto(c, r, n);
        assert forall|k: int| 0 <= k < all.len() implies map.holds(#[trigger] all[k])
            && map.free_land(all[k]) by {
            if k < prior.len() {
                assert(all[k] == prior[k]);
            }
        }
    }
}

proof fn the_middle_comes_first(map: MapView, c: TilePos, n: nat)
    requires
        n >= 1,
        map.holds(c),
        map.free_land(c),
    ensures
        map.free_in_squares(c, n).len() >= 1,
        map.free_in_squares(c, n)[0] == c,
    decreases n,
{
    if n == 1 {
        reveal_with_fuel(MapView::free_upto, 2);
        reveal_with_fuel(MapView::free_in_squares, 2);
        assert(map.square_tile(c, 0, 0) == Some(c));
        assert(map.free_upto(c, 0, 1) =~= seq![c]);
        assert(map.free_in_squares(c, 1) =~= seq![c]);
    } else {
        the_middle_comes_first(map, c, (n - 1) as nat);
    }
}

/// The first founder stands as near to the middle of the map as free land is, by
/// the larger of the steps along rows and columns; and where there is free land
/// within half the smaller side of the map, there is a founder.
pub proof fn founders_stand_near_the_middle(map: MapView, u: TilePos, r: int)
    requires
        map.wf(),
        map.holds(u),
        map.free_land(u),
        0 <= r,
        2 * r + 2 <= map.width,
        2 * r + 2 <= map.height,
        -r <= u.x - map.middle().x <= r,
        -r <= u.y - map.middle().y <= r,
    ensures
        ({
            let tiles = map.founding_tiles();
            &&& tiles.len() >= 1
            &&& -r <= tiles[0].x - map.middle().x <= r
            &&& -r <= tiles[0].y - map.middle().y <= r
        }),
{
    let c = map.middle();
    let reach = if map.width <= map.height {
        map.width as int / 2
    } else {
        map.height as int / 2
    };
    let n = (r + 1) as nat;
    let some = map.free_in_squares(c, n);
    let all = map.free_in_squares(c, reach as nat);
    crate::sim::beavers::free_in_squares_grows(map, c, n, reach as nat);
    squares_keep_their_reach(map, c, n);
    let side = 2 * r + 1;
    let total = (side * side) as nat;
    let k = (u.y - c.y + r) * side + (u.x - c.x + r);
    assert(0 <= k < side * side) by (nonlinear_arith)
        requires
            k == (u.y - c.y + r) * side + (u.x - c.x + r),
            0 <= u.y - c.y + r < side,
            0 <= u.x - c.x + r < side,
    ;
    vstd::arithmetic::div_mod::lemma_fundamental_div_mod_converse(
        k,
        side,
        u.y - c.y + r,
        u.x - c.x + r,
    );
    assert(map.square_tile(c, r, k) == Some(u));
    rows_find_free_land(map, c, r, total, k);
    assert(some.len() >= 1);
    assert(all.take(some.len() as int)[0] == all[0]);
    assert(map.founding_tiles()[0] == all[0]);
}

proof fn rows_find_free_land(map: MapView, c: TilePos, r: int, n: nat, k: int)
    requires
        0 <= k < n,
        map.square_tile(c, r, k) is Some,
        map.free_land(map.square_tile(c, r, k)->0),
    ensures
        map.free_upto(c, r, n).len() >= 1,
    decreases n,
{
    if k < n - 1 {
        rows_find_free_land(map, c, r, (n - 1) as nat, k);
    }
}

proof fn squares_keep_their_reach(map: MapView, c: TilePos, n: nat)
    ensures
        forall|k: int|
            0 <= k < map.free_in_squares(c, n).len() ==> {
                let t = #[trigger] map.free_in_squares(c, n)[k];
                -(n - 1) <= t.x - c.x <= n - 1 && -(n - 1) <= t.y - c.y <= n - 1
            },
    decreases n,
{
    if n > 0 {
        let m = (n - 1) as nat;
        squares_keep_their_reach(map, c, m);
        let side = 2 * (n - 1) + 1;
        let square = map.free_upto(c, n - 1, (side * side) as nat);
        rows_keep_their_reach(map, c, n - 1, (side * side) as nat);
        let prior = map.free_in_squares(c, m);
        let all = map.free_in_squares(c, n);
        assert(all =~= prior + square);
        assert forall|k: int| 0 <= k < all.len() implies ({
            let t = #[trigger] all[k];
            -(n - 1) <= t.x - c.x <= n - 1 && -(n - 1) <= t.y - c.y <= n - 1
        }) by {
            if k < prior.len() {
                assert(all[k] == prior[k]);
            } else {
                assert(all[k] == square[k - prior.len()]);
            }
        }
    }
}

proof fn rows_keep_their_reach(map: MapView, c: TilePos, r: int, n: nat)
    requires
        0 <= r,
        n <= (2 * r + 1) * (2 * r + 1),
    ensures
        forall|k: int|
            0 <= k < map.free_upto(c, r, n).len() ==> {
                let t = #[trigger] map.free_upto(c, r, n)[k];
                -r <= t.x - c.x <= r && -r <= t.y - c.y <= r
            },
    decreases n,
{
    if n > 0 {
        let m = (n - 1) as nat;
        rows_keep_their_reach(map, c, r, m);
        let prior = map.free_upto(c, r, m);
        let all = map.free_upto(c, r, n);
        let side = 2 * r + 1;
        let q = (n - 1) / side;
        vstd::arithmetic::div_mod::lemma_fundamental_div_mod(n - 1, side);
        assert(0 <= q < side) by (nonlinear_arith)
            requires
                0 <= n - 1 < side * side,
                q == (n - 1) / side,
                side > 0,
        ;
        assert forall|k: int| 0 <= k < all.len() implies ({
            let t = #[trigger] all[k];
            -r <= t.x - c.x <= r && -r <= t.y - c.y <= r
        }) by {
            if k < prior.len() {
                assert(all[k] == prior[k]);
            }
        }
    }
}

/// The road of the demonstration grows by the last of its tiles that can be
/// paved; those behind it that cannot are dropped. Without a log it waits.
pub proof fn how_the_demo_paves(scene: Scene)
    ensures
        ({
            let after = scene.paved_on();
            let road = scene.governor.road;
            &&& road.len() == 0 || scene.stock.logs < 2 ==> after == scene
            &&& road.len() > 0 && scene.stock.logs >= 2 && scene.map.refusal(
                BuildingKind::Path,
                road.last(),
            ) is None ==> {
                &&& after.governor.road == road.drop_last()
                &&& after.placed.len() == scene.placed.len() + 1
                &&& after.placed.last().0.building.kind == BuildingKind::Path
                &&& after.placed.last().0.building.tile == road.last()
            }
            &&& road.len() > 0 && scene.stock.logs >= 2 && scene.map.refusal(
                BuildingKind::Path,
                road.last(),
            ) is Some ==> after == scene.with_road(road.drop_last()).paved_on()
        }),
{
}

/// The governor of the demonstration acts every three and a half seconds, and
/// only while fewer than two buildings are being built. It builds what it wants
/// if it can be paid, or a lumberjack in its place, and paves when it wants
/// nothing.
pub proof fn how_the_demo_governs(
    scene: Scene,
    pop: Population,
    rows: Seq<BuildingRow>,
    trees: Seq<TreeRow>,
    retention: Option<u32>,
    dt: u32,
)
    ensures
        ({
            let after = scene.demo_governed(pop, rows, trees, retention, dt);
            let rested = scene.with_cooldown(3_500_000);
            let want = crate::sim::demo::demo_wanted(
                scene.stock,
                pop,
                rows,
                trees.len(),
                retention,
            );
            let paid = crate::sim::governor::paid_for(scene.stock, rows, want->0);
            if scene.governor.cooldown > dt {
                &&& after.governor.cooldown == scene.governor.cooldown - dt
                &&& after.governor.road == scene.governor.road
                &&& after.map == scene.map && after.stock == scene.stock
                &&& after.placed == scene.placed && after.fresh == scene.fresh
            } else if crate::sim::sites::sites_of(rows) >= 2 {
                after == rested
            } else if want is None {
                after == rested.paved_on()
            } else if paid is None {
                after == rested
            } else {
                after == rested.demo_built(rows, trees, paid->0)
            }
        }),
{
}

/// What the demonstration builds stands on the best place by the colony; a
/// straight road to lumberjacks, pumps and farms is begun.
pub proof fn what_the_demo_builds(
    scene: Scene,
    rows: Seq<BuildingRow>,
    trees: Seq<TreeRow>,
    kind: BuildingKind,
)
    ensures
        ({
            let after = scene.demo_built(rows, trees, kind);
            let home = scene.map.anchor(rows);
            let spot = scene.map.best_spot(kind, trees, home, scene.map.size() as nat);
            let road = kind == BuildingKind::Lumberjack || kind == BuildingKind::WaterPump || kind
                == BuildingKind::CarrotFarm;
            &&& spot is None ==> after == scene
            &&& spot is Some ==> {
                &&& after.placed.len() == scene.placed.len() + 1
                &&& after.placed.last().0.building.kind == kind
                &&& after.placed.last().0.building.tile == spot->0
                &&& road ==> after.governor.road == crate::sim::demo::line(
                    home,
                    spot->0,
                ).reverse()
                &&& !road ==> after.governor.road == scene.governor.road
            }
        }),
{
}

} // verus!
