//! What the governor aims at, told by numbers and distances.
use vstd::prelude::*;

use crate::sim::buildings::{BuildingKind, BuildingRow};
use crate::sim::governor::Scene;
use crate::sim::map::{MapView, TilePos};
use crate::sim::season::Population;
use crate::sim::stock::Stockpile;
use crate::sim::trees::TreeRow;

verus! {

/// A place is good where the building may stand, for a farm on irrigated land,
/// and for a lumberjack with a grown tree at most five tiles off.
pub proof fn good_places(map: MapView, kind: BuildingKind, trees: Seq<TreeRow>, t: TilePos)
    ensures
        ({
            let wood = exists|i: int|
                0 <= i < trees.len() && (#[trigger] trees[i]).tree.growth >= 1_400_000_000 && (
                trees[i].tree.tile.x - t.x) * (trees[i].tree.tile.x - t.x) + (trees[i].tree.tile.y
                    - t.y) * (trees[i].tree.tile.y - t.y) <= 25;
            map.good_spot(kind, trees, t) <==> map.refusal(kind, t) is None && match kind {
                BuildingKind::CarrotFarm => map.irrigated[t.y * map.width + t.x],
                BuildingKind::Lumberjack => wood,
                _ => true,
            }
        }),
{
}

/// Of all good places on the map the one nearest to the place given is taken, in
/// the first row and then in the first column where several are as near. None is
/// taken only where no place is good.
pub proof fn the_nearest_good_place_is_taken(
    map: MapView,
    kind: BuildingKind,
    trees: Seq<TreeRow>,
    by: TilePos,
    u: TilePos,
)
    requires
        map.wf(),
        map.holds(u),
        map.good_spot(kind, trees, u),
    ensures
        ({
            let best = map.best_spot(kind, trees, by, map.size() as nat);
            let t = best->0;
            let near = (t.x - by.x) * (t.x - by.x) + (t.y - by.y) * (t.y - by.y);
            let off = (u.x - by.x) * (u.x - by.x) + (u.y - by.y) * (u.y - by.y);
            &&& best is Some
            &&& map.holds(t) && map.good_spot(kind, trees, t)
            &&& near <= off
            &&& near == off ==> t.y < u.y || (t.y == u.y && t.x <= u.x)
        }),
{
    crate::sim::map::tiles_have_places(map.width, map.height, u.x as int, u.y as int);
    let i = u.y * map.width + u.x;
    assert(map.tile_of(i) == u);
    best_is_first(map, kind, trees, by, map.size() as nat, i);
    let t = map.best_spot(kind, trees, by, map.size() as nat)->0;
    let j = choose|j: int|
        0 <= j < map.size() && #[trigger] map.tile_of(j) == t && (
        crate::sim::sites::tiles_apart(t, by) < crate::sim::sites::tiles_apart(u, by) || j <= i);
    crate::sim::map::places_have_tiles(map.width, map.height, j);
    if crate::sim::sites::tiles_apart(t, by) == crate::sim::sites::tiles_apart(u, by) {
        let w = map.width as int;
        assert(t.y < u.y || (t.y == u.y && t.x <= u.x)) by (nonlinear_arith)
            requires
                t.y * w + t.x <= u.y * w + u.x,
                0 <= t.x < w,
                0 <= u.x < w,
        ;
    }
}

proof fn best_is_first(
    map: MapView,
    kind: BuildingKind,
    trees: Seq<TreeRow>,
    by: TilePos,
    n: nat,
    i: int,
)
    requires
        map.wf(),
        0 <= i < n <= map.size(),
        map.good_spot(kind, trees, map.tile_of(i)),
    ensures
        map.best_spot(kind, trees, by, n) is Some,
        ({
            let t = map.best_spot(kind, trees, by, n)->0;
            let u = map.tile_of(i);
            &&& map.good_spot(kind, trees, t)
            &&& crate::sim::sites::tiles_apart(t, by) <= crate::sim::sites::tiles_apart(u, by)
            &&& exists|j: int|
                0 <= j < n && #[trigger] map.tile_of(j) == t && (crate::sim::sites::tiles_apart(
                    t,
                    by,
                ) < crate::sim::sites::tiles_apart(u, by) || j <= i)
        }),
    decreases n,
{
    let m = (n - 1) as nat;
    let here = map.tile_of(n - 1);
    let t = map.best_spot(kind, trees, by, n)->0;
    if i < n - 1 {
        best_is_first(map, kind, trees, by, m, i);
        if t == here {
            assert(map.tile_of(n - 1) == t);
        }
    } else {
        assert(here == map.tile_of(i));
        match map.best_spot(kind, trees, by, m) {
            None => {
                assert(map.tile_of(n - 1) == t);
            },
            Some(p) => {
                crate::sim::sites::the_nearest_good_spot_is_found(map, kind, trees, by, m);
                best_has_place(map, kind, trees, by, m);
                let j = choose|j: int| 0 <= j < m && #[trigger] map.tile_of(j) == p;
                if t == p {
                    assert(map.tile_of(j) == t);
                } else {
                    assert(map.tile_of(n - 1) == t);
                }
            },
        }
    }
}

proof fn best_has_place(
    map: MapView,
    kind: BuildingKind,
    trees: Seq<TreeRow>,
    by: TilePos,
    n: nat,
)
    requires
        n <= map.size(),
        map.best_spot(kind, trees, by, n) is Some,
    ensures
        exists|j: int|
            0 <= j < n && #[trigger] map.tile_of(j) == map.best_spot(kind, trees, by, n)->0,
    decreases n,
{
    let m = (n - 1) as nat;
    if map.best_spot(kind, trees, by, n) == map.best_spot(kind, trees, by, m) {
        best_has_place(map, kind, trees, by, m);
        let j = choose|j: int|
            0 <= j < m && #[trigger] map.tile_of(j) == map.best_spot(kind, trees, by, m)->0;
        assert(map.tile_of(j) == map.best_spot(kind, trees, by, n)->0);
    } else {
        assert(map.tile_of(n - 1) == map.best_spot(kind, trees, by, n)->0);
    }
}

/// The colony is where its first lodge stands; without one it is in the middle
/// of the map.
pub proof fn where_the_colony_is(map: MapView, rows: Seq<BuildingRow>, k: int)
    requires
        0 <= k <= rows.len(),
        forall|j: int|
            0 <= j < k ==> (#[trigger] rows[j]).building.kind != BuildingKind::Lodge,
        k < rows.len() ==> rows[k].building.kind == BuildingKind::Lodge,
    ensures
        k < rows.len() ==> map.anchor(rows) == rows[k].building.tile,
        k == rows.len() ==> 2 * map.anchor(rows).x <= map.width <= 2 * map.anchor(rows).x + 1
            && 2 * map.anchor(rows).y <= map.height <= 2 * map.anchor(rows).y + 1,
{
    crate::sim::trade::buildings_are_counted(rows, BuildingKind::Lodge);
    if let Some(t) = crate::sim::sites::first_of(rows, BuildingKind::Lodge) {
        let m = choose|m: int|
            0 <= m < rows.len() && (#[trigger] rows[m]).building.kind == BuildingKind::Lodge
                && rows[m].building.tile == t && forall|j: int|
                0 <= j < m ==> (#[trigger] rows[j]).building.kind != BuildingKind::Lodge;
        if k < m {
            assert(rows[k].building.kind != BuildingKind::Lodge);
        }
        assert(m == k);
    }
}

/// Survival comes first: without a lumberjack one is wanted, and after that a
/// pump, a farm and a forester, in this order, whatever the stores hold.
pub proof fn survival_comes_first(
    stock: Stockpile,
    pop: Population,
    rows: Seq<BuildingRow>,
    trees: nat,
)
    ensures
        ({
            let n = |kind: BuildingKind| crate::sim::sites::count_of(rows, kind);
            let want = crate::sim::governor::wanted(stock, pop, rows, trees);
            let jack = n(BuildingKind::Lumberjack) == 0;
            let pump = n(BuildingKind::WaterPump) == 0;
            let farm = n(BuildingKind::CarrotFarm) == 0;
            let forester = n(BuildingKind::Forester) == 0;
            &&& jack ==> want == Some(BuildingKind::Lumberjack)
            &&& !jack && pump ==> want == Some(BuildingKind::WaterPump)
            &&& !jack && !pump && farm ==> want == Some(BuildingKind::CarrotFarm)
            &&& !jack && !pump && !farm && forester ==> want == Some(BuildingKind::Forester)
            &&& want != Some(BuildingKind::Dam) && want != Some(BuildingKind::Path)
        }),
{
}

/// Once there is one of each, want is met before growth: thirst before hunger,
/// hunger before wood, wood before new trees. There is a bound for each by the
/// number of beavers: a pump for every three, a farm for every four, a
/// lumberjack for every three beyond the first two, and a forester for every
/// six. Stores count in halves.
pub proof fn want_comes_before_growth(
    stock: Stockpile,
    pop: Population,
    rows: Seq<BuildingRow>,
    trees: nat,
)
    requires
        crate::sim::sites::count_of(rows, BuildingKind::Lumberjack) > 0,
        crate::sim::sites::count_of(rows, BuildingKind::WaterPump) > 0,
        crate::sim::sites::count_of(rows, BuildingKind::CarrotFarm) > 0,
        crate::sim::sites::count_of(rows, BuildingKind::Forester) > 0,
    ensures
        ({
            let n = |kind: BuildingKind| crate::sim::sites::count_of(rows, kind);
            let want = crate::sim::governor::wanted(stock, pop, rows, trees);
            let dry = stock.water < 16 + 2 * pop.count && 3 * n(BuildingKind::WaterPump)
                <= pop.count;
            let hungry = stock.food < 16 + 2 * pop.count && 4 * n(BuildingKind::CarrotFarm)
                <= pop.count;
            let bare = stock.logs < 50 && 3 * (n(BuildingKind::Lumberjack) - 1) <= pop.count;
            let thin = 6 * n(BuildingKind::Forester) <= pop.count && trees < 240;
            let calm = !dry && !hungry && !bare && !thin;
            let dams = n(BuildingKind::Dam);
            let lodge = dams >= 2 && (pop.count >= pop.cap || stock.logs > 70);
            &&& dry ==> want == Some(BuildingKind::WaterPump)
            &&& !dry && hungry ==> want == Some(BuildingKind::CarrotFarm)
            &&& !dry && !hungry && bare ==> want == Some(BuildingKind::Lumberjack)
            &&& !dry && !hungry && !bare && thin ==> want == Some(BuildingKind::Forester)
            &&& want == Some(BuildingKind::Lodge) <==> calm && lodge
            &&& calm && !lodge ==> (want is None <==> stock.logs <= 56)
            &&& calm && !lodge && stock.logs > 56 ==> want == Some(
                if n(BuildingKind::WaterPump) <= n(BuildingKind::CarrotFarm) {
                    BuildingKind::WaterPump
                } else {
                    BuildingKind::CarrotFarm
                },
            )
        }),
{
}

/// What cannot be paid is not built: a lumberjack stands in for it while there
/// are fewer than three and it can be paid.
pub proof fn only_what_can_be_paid(stock: Stockpile, rows: Seq<BuildingRow>, kind: BuildingKind)
    ensures
        ({
            let built = crate::sim::governor::paid_for(stock, rows, kind);
            &&& stock.logs >= kind.cost() ==> built == Some(kind)
            &&& stock.logs < kind.cost() ==> (built == Some(BuildingKind::Lumberjack) <==>
                stock.logs >= 10 && crate::sim::sites::count_of(rows, BuildingKind::Lumberjack)
                <= 2)
            &&& stock.logs < kind.cost() ==> built is None || built == Some(
                BuildingKind::Lumberjack,
            )
        }),
{
}

/// A first dam is planned once there is a lumberjack, another one while there
/// are two to seven, six beavers and more than thirty-five logs; and none while
/// one is being worked on.
pub proof fn when_dams_are_planned(scene: Scene, pop: Population, rows: Seq<BuildingRow>)
    ensures
        ({
            let after = scene.planned(pop, rows);
            let dams = crate::sim::sites::count_of(rows, BuildingKind::Dam);
            let first = dams == 0 && crate::sim::sites::count_of(rows, BuildingKind::Lumberjack)
                > 0;
            let another = 2 <= dams <= 7 && pop.count >= 6 && scene.stock.logs > 70;
            let busy = scene.governor.dam_project.len() > 0;
            &&& after.map == scene.map && after.stock == scene.stock
            &&& after.fresh == scene.fresh && after.placed == scene.placed
            &&& after.governor.road == scene.governor.road
            &&& after.governor.cooldown == scene.governor.cooldown
            &&& after.governor.last_built == scene.governor.last_built
            &&& busy || !(first || another) ==> after == scene
            &&& !busy && first ==> after.governor.dam_project == scene.map.crossing(
                scene.map.anchor(rows),
                Seq::empty(),
            )
            &&& !busy && another ==> after.governor.dam_project == scene.map.crossing(
                scene.map.anchor(rows),
                rows.filter(|r: BuildingRow| r.building.kind == BuildingKind::Dam).map_values(
                    |r: BuildingRow| r.building.tile,
                ),
            )
        }),
{
    dams_are_listed(rows);
}

proof fn dams_are_listed(rows: Seq<BuildingRow>)
    ensures
        crate::sim::governor::dam_tiles(rows) == rows.filter(
            |r: BuildingRow| r.building.kind == BuildingKind::Dam,
        ).map_values(|r: BuildingRow| r.building.tile),
    decreases rows.len(),
{
    reveal(Seq::filter);
    let dams = rows.filter(|r: BuildingRow| r.building.kind == BuildingKind::Dam).map_values(
        |r: BuildingRow| r.building.tile,
    );
    if rows.len() > 0 {
        dams_are_listed(rows.drop_last());
        let prior = rows.drop_last().filter(
            |r: BuildingRow| r.building.kind == BuildingKind::Dam,
        ).map_values(|r: BuildingRow| r.building.tile);
        if rows.last().building.kind == BuildingKind::Dam {
            assert(dams =~= prior.push(rows.last().building.tile));
        } else {
            assert(dams =~= prior);
        }
    } else {
        assert(dams =~= Seq::<TilePos>::empty());
    }
}

/// A planned wall is one of at most three tiles of free river bed in one column,
/// four columns or more down the river from the colony but within half the map's
/// width, and six columns or more from every dam there is.
pub proof fn where_walls_are_planned(map: MapView, anchor: TilePos, dams: Seq<TilePos>, i: int)
    requires
        map.wf(),
        0 <= i < map.crossing(anchor, dams).len(),
    ensures
        ({
            let wall = map.crossing(anchor, dams);
            let x = wall[0].x as int;
            &&& wall.len() <= 3
            &&& wall[i].x == x && map.holds(wall[i])
            &&& map.ground[wall[i].y * map.width + x] == 0
            &&& map.building[wall[i].y * map.width + x] is None
            &&& x - anchor.x >= 4
            &&& x - anchor.x < map.width as int / 2
            &&& forall|k: int|
                0 <= k < dams.len() ==> (#[trigger] dams[k]).x - x >= 6 || x - dams[k].x >= 6
        }),
{
    crate::sim::crossing::a_crossing_closes_the_river(map, anchor, dams);
    let wall = map.crossing(anchor, dams);
    assert(wall.to_multiset().len() == wall.len()) by {
        vstd::seq_lib::to_multiset_len(wall);
    }
    let column = map.dam_column(wall[0].x, map.height as nat);
    vstd::seq_lib::to_multiset_len(column);
    assert(map.refusal(BuildingKind::Dam, wall[i]) is None);
}

/// Pumps are looked for half way between the colony and the end of the planned
/// wall, or the first dam there is; all else, and pumps without any dam, by the
/// colony.
pub proof fn where_to_look(scene: Scene, rows: Seq<BuildingRow>, kind: BuildingKind)
    ensures
        ({
            let home = scene.map.anchor(rows);
            let aim = scene.aim(rows, kind);
            let wall = scene.governor.dam_project;
            let first = crate::sim::sites::first_of(rows, BuildingKind::Dam);
            let half = |a: TilePos, b: TilePos, c: TilePos|
                2 * c.x <= a.x + b.x <= 2 * c.x + 1 && 2 * c.y <= a.y + b.y <= 2 * c.y + 1;
            &&& kind != BuildingKind::WaterPump ==> aim == home
            &&& kind == BuildingKind::WaterPump && wall.len() > 0 ==> half(home, wall[0], aim)
            &&& kind == BuildingKind::WaterPump && wall.len() == 0 && first is Some ==> half(
                home,
                first->0,
                aim,
            )
            &&& wall.len() == 0 && first is None ==> aim == home
        }),
{
}

/// The dam goes on with its last tile if it can be paid and may stand there; a
/// blocked dam is given up. Without the logs for it another lumberjack is set
/// up, if it can be paid and there are not enough: two, and one for every three
/// beavers.
pub proof fn how_a_dam_goes_on(
    scene: Scene,
    pop: Population,
    rows: Seq<BuildingRow>,
    trees: Seq<TreeRow>,
)
    requires
        scene.governor.dam_project.len() > 0,
    ensures
        ({
            let after = scene.dammed(pop, rows, trees);
            let wall = scene.governor.dam_project;
            let tile = wall[wall.len() - 1];
            let spot = scene.map.best_spot(
                BuildingKind::Lumberjack,
                trees,
                scene.map.anchor(rows),
                scene.map.size() as nat,
            );
            let few = crate::sim::sites::count_of(rows, BuildingKind::Lumberjack) * 3 < 6 + (
            pop.count - pop.count % 3);
            if scene.stock.logs >= 12 && scene.map.refusal(BuildingKind::Dam, tile) is None {
                &&& after.governor.dam_project == wall.drop_last()
                &&& after.governor.last_built == Some(tile)
                &&& after.placed.len() == scene.placed.len() + 1
                &&& after.placed.last().0.building.kind == BuildingKind::Dam
                &&& after.placed.last().0.building.tile == tile
            } else if scene.stock.logs >= 12 {
                &&& after.governor.dam_project.len() == 0
                &&& after.placed == scene.placed && after.stock == scene.stock
            } else if scene.stock.logs >= 10 && few && spot is Some {
                &&& after.governor == scene.governor
                &&& after.placed.len() == scene.placed.len() + 1
                &&& after.placed.last().0.building.kind == BuildingKind::Lumberjack
                &&& after.placed.last().0.building.tile == spot->0
            } else {
                after == scene
            }
        }),
{
}

/// A dam is worked on before anything else once there is a pump and a farm.
pub proof fn when_dams_come_first(scene: Scene, rows: Seq<BuildingRow>)
    ensures
        scene.builds_dam(rows) <==> {
            &&& scene.governor.dam_project.len() > 0
            &&& crate::sim::sites::count_of(rows, BuildingKind::WaterPump) > 0
            &&& crate::sim::sites::count_of(rows, BuildingKind::CarrotFarm) > 0
        },
{
}

/// What is built is what is wanted and can be paid, on the best place by where
/// it is looked for.
pub proof fn what_is_built_next(
    scene: Scene,
    pop: Population,
    rows: Seq<BuildingRow>,
    trees: Seq<TreeRow>,
    kind: BuildingKind,
    tile: TilePos,
)
    ensures
        scene.next(pop, rows, trees) == Some((kind, tile)) <==> {
            let want = crate::sim::governor::wanted(scene.stock, pop, rows, trees.len());
            &&& want is Some
            &&& crate::sim::governor::paid_for(scene.stock, rows, want->0) == Some(kind)
            &&& scene.map.best_spot(
                kind,
                trees,
                scene.aim(rows, kind),
                scene.map.size() as nat,
            ) == Some(tile)
        },
        scene.next(pop, rows, trees) matches Some((k, t)) ==> scene.stock.logs >= k.cost(),
{
}

/// Paving takes the last tile off the road, and paves it if that can be paid and
/// may be done; without a road nothing is done.
pub proof fn how_roads_are_paved(scene: Scene)
    ensures
        ({
            let after = scene.paved();
            let road = scene.governor.road;
            let tile = road[road.len() - 1];
            let can = scene.stock.logs >= 2 && scene.map.refusal(BuildingKind::Path, tile) is None;
            &&& road.len() == 0 ==> after == scene
            &&& road.len() > 0 ==> after.governor.road == road.drop_last()
            &&& road.len() > 0 && !can ==> after.map == scene.map && after.stock == scene.stock
                && after.placed == scene.placed && after.fresh == scene.fresh
            &&& road.len() > 0 && can ==> {
                &&& after.placed.len() == scene.placed.len() + 1
                &&& after.placed.last().0.building.kind == BuildingKind::Path
                &&& after.placed.last().0.building.tile == tile
                &&& after.stock.logs == scene.stock.logs - 2
            }
        }),
{
}

/// Placing pays the price, takes the tile, uses up two numbers, and puts the
/// building and its job behind those placed before.
pub proof fn what_placing_does(scene: Scene, kind: BuildingKind, t: TilePos)
    requires
        scene.stock.logs >= 0,
        scene.fresh.len() >= 2,
    ensures
        ({
            let after = scene.place(kind, t);
            let n = scene.fresh.len() as int;
            let (row, job) = after.placed[scene.placed.len() as int];
            &&& after.stock.logs == scene.stock.logs - kind.cost()
            &&& after.stock.food == scene.stock.food && after.stock.water == scene.stock.water
            &&& after.fresh.len() == n - 2
            &&& after.placed.len() == scene.placed.len() + 1
            &&& after.placed.drop_last() == scene.placed
            &&& row.id == scene.fresh[n - 1] && job.id == scene.fresh[n - 2]
            &&& row.building.kind == kind && row.building.tile == t
            &&& job.job.kind == crate::sim::beavers::JobKind::Build(row.id)
            &&& after.governor == scene.governor
        }),
{
    assert(scene.place(kind, t).placed.drop_last() =~= scene.placed);
}

/// The governor waits for its beat, which comes every two seconds; before it
/// nothing is placed and nothing is planned. While two buildings are being built
/// a beat does no more than pave.
pub proof fn the_governor_keeps_its_beat(
    before: Scene,
    after: Scene,
    pop: Population,
    rows: Seq<BuildingRow>,
    trees: Seq<TreeRow>,
    dt: u32,
)
    requires
        crate::sim::governor::governed(before, after, pop, rows, trees, dt),
    ensures
        before.governor.cooldown > dt ==> {
            &&& after.governor.cooldown == before.governor.cooldown - dt
            &&& after.governor.road == before.governor.road
            &&& after.governor.dam_project == before.governor.dam_project
            &&& after.governor.last_built == before.governor.last_built
            &&& after.map == before.map && after.stock == before.stock
            &&& after.fresh == before.fresh && after.placed == before.placed
        },
        before.governor.cooldown <= dt ==> after.governor.cooldown == 2_000_000,
        before.governor.cooldown <= dt && crate::sim::sites::sites_of(rows) >= 2 ==> {
            let rested = before.with_cooldown(2_000_000);
            &&& after == rested.paved()
            &&& rested.map == before.map && rested.stock == before.stock
            &&& rested.governor.road == before.governor.road
        },
{
}

/// Roads lead to lumberjacks, pumps, farms and lodges.
pub proof fn where_roads_lead(kind: BuildingKind)
    ensures
        crate::sim::governor::has_road(kind) <==> kind == BuildingKind::Lumberjack || kind
            == BuildingKind::WaterPump || kind == BuildingKind::CarrotFarm || kind
            == BuildingKind::Lodge,
{
}

/// The governor of the demo wants one lumberjack, pump and farm first; then a
/// pump or a farm while a store holds less than ten units and there are fewer
/// than four, a second lumberjack while there are fewer than twenty-five logs,
/// a lodge when the colony is full, a dam when less than two fifths of the water
/// would last and there are fewer than two, and one forester while there are
/// fewer than two hundred trees.
pub proof fn what_the_demo_wants(
    stock: Stockpile,
    pop: Population,
    rows: Seq<BuildingRow>,
    trees: nat,
    retention: Option<u32>,
)
    ensures
        ({
            let n = |kind: BuildingKind| crate::sim::sites::count_of(rows, kind);
            let want = crate::sim::demo::demo_wanted(stock, pop, rows, trees, retention);
            let jacks = n(BuildingKind::Lumberjack);
            let pumps = n(BuildingKind::WaterPump);
            let farms = n(BuildingKind::CarrotFarm);
            let one = jacks >= 1 && pumps >= 1 && farms >= 1;
            let dry = stock.water <= 19 && pumps <= 3;
            let hungry = stock.food <= 19 && farms <= 3;
            let bare = stock.logs <= 49 && jacks <= 1;
            let fed = one && !dry && !hungry && !bare;
            let grim = retention is Some && retention->0 < 400_000 && n(BuildingKind::Dam) <= 1;
            let full = pop.count >= pop.cap;
            &&& jacks == 0 ==> want == Some(BuildingKind::Lumberjack)
            &&& jacks >= 1 && pumps == 0 ==> want == Some(BuildingKind::WaterPump)
            &&& jacks >= 1 && pumps >= 1 && farms == 0 ==> want == Some(BuildingKind::CarrotFarm)
            &&& one && dry ==> want == Some(BuildingKind::WaterPump)
            &&& one && !dry && hungry ==> want == Some(BuildingKind::CarrotFarm)
            &&& one && !dry && !hungry && bare ==> want == Some(BuildingKind::Lumberjack)
            &&& want == Some(BuildingKind::Lodge) <==> fed && full
            &&& want == Some(BuildingKind::Dam) <==> fed && !full && grim
            &&& want == Some(BuildingKind::Forester) <==> fed && !full && !grim && n(
                BuildingKind::Forester,
            ) == 0 && trees <= 199
        }),
{
}

} // verus!
