//! What water does, told by heights, depths and rates alone.
use vstd::prelude::*;

use crate::sim::map::MapView;

verus! {

/// The depth of a source that held `depth`, once it has run for `dt`: three
/// levels a second, but no more than it holds at most.
pub open spec fn refilled(depth: int, dt: u32) -> int {
    if depth + 3_000_000 * dt / 1_000_000 <= 1_600_000 {
        depth + 3_000_000 * dt / 1_000_000
    } else {
        1_600_000
    }
}

/// What a tile pours over to its neighbour in `dt`. The two grounds are given
/// in levels. Water passes over the higher of them, and over a dam that stands
/// on either tile, to where the surface is lower: twice the head a second, but
/// no more than a quarter of the depth.
pub open spec fn poured(
    ground: int,
    depth: int,
    other_ground: int,
    other_depth: int,
    dammed: bool,
    dt: u32,
) -> int {
    let sill = if ground >= other_ground {
        ground
    } else {
        other_ground
    };
    let brink = sill * 1_000_000 + if dammed {
        1_200_000int
    } else {
        0
    };
    let below = if brink >= other_ground * 1_000_000 + other_depth {
        brink
    } else {
        other_ground * 1_000_000 + other_depth
    };
    let head = ground * 1_000_000 + depth - below;
    if head <= 0 {
        0
    } else if head * 2 * dt / 1_000_000 <= depth / 4 {
        head * 2 * dt / 1_000_000
    } else {
        depth / 4
    }
}

proof fn spills_are_pours(basin: crate::sim::water::Basin, a: int, b: int, dt: u32)
    ensures
        basin.spill(a, b, dt) == poured(
            basin.ground[a] as int,
            basin.water[a] as int,
            basin.ground[b] as int,
            basin.water[b] as int,
            basin.dam[a] || basin.dam[b],
            dt,
        ),
{
}

/// What tile (x, y) gains from the tile at (p, q), if that is on the map.
pub open spec fn poured_in(
    ground: Seq<i32>,
    dam: Seq<bool>,
    depth: spec_fn(int) -> int,
    width: u32,
    height: u32,
    dt: u32,
    x: int,
    y: int,
    p: int,
    q: int,
) -> int {
    let i = y * width + x;
    let j = q * width + p;
    let dammed = dam[i] || dam[j];
    if 0 <= p < width && 0 <= q < height {
        poured(ground[j] as int, depth(j), ground[i] as int, depth(i), dammed, dt) - poured(
            ground[i] as int,
            depth(i),
            ground[j] as int,
            depth(j),
            dammed,
            dt,
        )
    } else {
        0
    }
}

/// What runs over from one tile to the next. The brink is the highest of the two
/// grounds, raised by a dam on either tile, and of the other surface. Water that
/// does not stand above it stays. What stands above it runs at twice its height
/// a second, but no more than a quarter of the tile's depth runs in one step.
pub proof fn what_runs_over_a_brink(
    basin: crate::sim::water::Basin,
    a: int,
    b: int,
    dt: u32,
    brink: int,
)
    requires
        ({
            let raised = if basin.dam[a] || basin.dam[b] {
                1_200_000int
            } else {
                0
            };
            let here = basin.ground[a] * 1_000_000 + raised;
            let there = basin.ground[b] * 1_000_000 + raised;
            let other = basin.ground[b] * 1_000_000 + basin.water[b];
            &&& brink >= here && brink >= there && brink >= other
            &&& brink == here || brink == there || brink == other
        }),
    ensures
        ({
            let head = basin.ground[a] * 1_000_000 + basin.water[a] - brink;
            let run = basin.spill(a, b, dt);
            &&& head <= 0 ==> run == 0
            &&& head > 0 ==> {
                &&& 0 <= run && 4 * run <= basin.water[a]
                &&& run * 1_000_000 <= head * 2 * dt
                &&& 4 * (run + 1) <= basin.water[a] ==> head * 2 * dt < (run + 1) * 1_000_000
            }
        }),
{
    let head = basin.ground[a] * 1_000_000 + basin.water[a] - brink;
    if head > 0 {
        assert(0 <= head * 2 * dt) by (nonlinear_arith)
            requires
                head > 0,
                0 <= dt,
        ;
    }
}

/// A source gains three levels of water a second until it holds one and six
/// tenths; without inflow, and on every other tile, water stays as it is.
pub proof fn sources_fill_up(water: Seq<u64>, source: Seq<bool>, dt: u32, i: int)
    requires
        0 <= i < water.len(),
        water[i] <= crate::sim::water::MAX_DEPTH,
    ensures
        ({
            let after = crate::sim::water::fed(water, Some(source), dt);
            &&& after.len() == water.len()
            &&& !source[i] ==> after[i] == water[i]
            &&& source[i] && water[i] + 3 * dt <= 1_600_000 ==> after[i] == water[i] + 3 * dt
            &&& source[i] && water[i] + 3 * dt > 1_600_000 ==> after[i] == 1_600_000
            &&& crate::sim::water::fed(water, None, dt) == water
        }),
{
}

/// What a tile holds after a step is what it held, with the inflow of a source,
/// and what its four neighbours pour in, less what it pours out to them, what
/// evaporates and what a drain takes.
pub proof fn a_step_of_the_river(
    ground: Seq<i32>,
    dam: Seq<bool>,
    drain: Seq<bool>,
    source: Option<Seq<bool>>,
    water: Seq<u64>,
    width: u32,
    height: u32,
    dt: u32,
    evaporation: u32,
    x: int,
    y: int,
)
    requires
        water.len() == width * height,
        ground.len() == water.len(),
        dam.len() == water.len(),
        drain.len() == water.len(),
        source matches Some(s) ==> s.len() == water.len(),
        forall|k: int|
            0 <= k < water.len() ==> #[trigger] water[k] <= crate::sim::water::MAX_DEPTH,
        0 <= x < width,
        0 <= y < height,
    ensures
        ({
            let depth = |k: int|
                if source is Some && source->0[k] {
                    refilled(water[k] as int, dt)
                } else {
                    water[k] as int
                };
            let i = y * width + x;
            let left = depth(i) + poured_in(
                ground,
                dam,
                depth,
                width,
                height,
                dt,
                x,
                y,
                x + 1,
                y,
            ) + poured_in(ground, dam, depth, width, height, dt, x, y, x - 1, y) + poured_in(
                ground,
                dam,
                depth,
                width,
                height,
                dt,
                x,
                y,
                x,
                y + 1,
            ) + poured_in(ground, dam, depth, width, height, dt, x, y, x, y - 1) - evaporation * dt
                / 1_000_000;
            let kept = if left >= 0 {
                left
            } else {
                0
            };
            let drained = if drain[i] {
                1_600_000 * dt / 1_000_000
            } else {
                0
            };
            crate::sim::water::stepped(
                ground,
                dam,
                drain,
                source,
                water,
                width,
                dt,
                evaporation,
            )[i] == if kept >= drained {
                kept - drained
            } else {
                0
            }
        }),
{
    let given = crate::sim::water::fed(water, source, dt);
    let basin = crate::sim::water::Basin { ground, dam, water: given, width };
    let depth = |k: int|
        if source is Some && source->0[k] {
            refilled(water[k] as int, dt)
        } else {
            water[k] as int
        };
    assert forall|k: int| 0 <= k < given.len() implies #[trigger] given[k]
        <= crate::sim::water::MAX_DEPTH && given[k] == depth(k) by {
        assert(water[k] <= crate::sim::water::MAX_DEPTH);
    }
    let i = y * width + x;
    crate::sim::map::tiles_have_places(width, height, x, y);
    if x + 1 < width {
        crate::sim::map::tiles_have_places(width, height, x + 1, y);
        gains_are_poured_in(ground, dam, given, depth, width, height, dt, x, y, x + 1, y);
    }
    if x > 0 {
        crate::sim::map::tiles_have_places(width, height, x - 1, y);
        gains_are_poured_in(ground, dam, given, depth, width, height, dt, x, y, x - 1, y);
    }
    assert((y + 1) * width == y * width + width) by (nonlinear_arith);
    assert((y - 1) * width == y * width - width) by (nonlinear_arith);
    if y + 1 < height {
        crate::sim::map::tiles_have_places(width, height, x, y + 1);
        gains_are_poured_in(ground, dam, given, depth, width, height, dt, x, y, x, y + 1);
    } else {
        assert(y * width + width == width * height) by (nonlinear_arith)
            requires
                y + 1 == height,
        ;
    }
    if y > 0 {
        crate::sim::map::tiles_have_places(width, height, x, y - 1);
        gains_are_poured_in(ground, dam, given, depth, width, height, dt, x, y, x, y - 1);
    } else {
        assert(y * width == 0) by (nonlinear_arith)
            requires
                y == 0,
        ;
    }
    basin.net_is_bounded(height, i, dt);
    assert(given[i] <= crate::sim::water::MAX_DEPTH);
    assert(0 <= evaporation * dt) by (nonlinear_arith)
        requires
            0 <= evaporation,
            0 <= dt,
    ;
    assert(basin.from_east(i, dt) == poured_in(
        ground,
        dam,
        depth,
        width,
        height,
        dt,
        x,
        y,
        x + 1,
        y,
    ));
    assert(basin.from_west(i, dt) == poured_in(
        ground,
        dam,
        depth,
        width,
        height,
        dt,
        x,
        y,
        x - 1,
        y,
    ));
    assert(basin.from_south(i, dt) == poured_in(
        ground,
        dam,
        depth,
        width,
        height,
        dt,
        x,
        y,
        x,
        y + 1,
    ));
    assert(basin.from_north(i, dt) == poured_in(
        ground,
        dam,
        depth,
        width,
        height,
        dt,
        x,
        y,
        x,
        y - 1,
    ));
}

proof fn gains_are_poured_in(
    ground: Seq<i32>,
    dam: Seq<bool>,
    given: Seq<u64>,
    depth: spec_fn(int) -> int,
    width: u32,
    height: u32,
    dt: u32,
    x: int,
    y: int,
    p: int,
    q: int,
)
    requires
        given[y * width + x] == depth(y * width + x),
        given[q * width + p] == depth(q * width + p),
        0 <= p < width,
        0 <= q < height,
    ensures
        (crate::sim::water::Basin { ground, dam, water: given, width }).gain(
            y * width + x,
            q * width + p,
            dt,
        ) == poured_in(ground, dam, depth, width, height, dt, x, y, p, q),
{
    let basin = crate::sim::water::Basin { ground, dam, water: given, width };
    spills_are_pours(basin, y * width + x, q * width + p, dt);
    spills_are_pours(basin, q * width + p, y * width + x, dt);
}

/// Where all water stands at one level none of it runs, whatever dams and
/// ground lie between: in a step each tile loses what evaporates, and a drain
/// what it takes, until it is dry.
pub proof fn still_water_stays(
    ground: Seq<i32>,
    dam: Seq<bool>,
    drain: Seq<bool>,
    water: Seq<u64>,
    width: u32,
    height: u32,
    dt: u32,
    evaporation: u32,
    level: int,
    i: int,
)
    requires
        water.len() == width * height,
        ground.len() == water.len(),
        dam.len() == water.len(),
        drain.len() == water.len(),
        forall|k: int|
            0 <= k < water.len() ==> #[trigger] water[k] <= crate::sim::water::MAX_DEPTH,
        forall|k: int|
            0 <= k < water.len() ==> #[trigger] water[k] == if level > ground[k] * 1_000_000 {
                level - ground[k] * 1_000_000
            } else {
                0
            },
        0 <= i < water.len(),
    ensures
        ({
            let lost = evaporation * dt / 1_000_000 + if drain[i] {
                1_600_000 * dt / 1_000_000
            } else {
                0
            };
            crate::sim::water::stepped(
                ground,
                dam,
                drain,
                None,
                water,
                width,
                dt,
                evaporation,
            )[i] == if water[i] >= lost {
                water[i] - lost
            } else {
                0
            }
        }),
{
    let basin = crate::sim::water::Basin { ground, dam, water, width };
    let w = width as int;
    crate::sim::map::places_have_tiles(width, height, i);
    let x = i % w;
    let y = i / w;
    assert forall|a: int, b: int|
        0 <= a < water.len() && 0 <= b < water.len() implies #[trigger] basin.spill(a, b, dt)
        == 0 by {
        assert(water[a] <= crate::sim::water::MAX_DEPTH);
        assert(water[b] <= crate::sim::water::MAX_DEPTH);
    }
    if x + 1 < w {
        crate::sim::map::tiles_have_places(width, height, x + 1, y);
    }
    if x > 0 {
        crate::sim::map::tiles_have_places(width, height, x - 1, y);
    }
    assert(basin.net(i, dt) == 0);
    assert(0 <= evaporation * dt) by (nonlinear_arith)
        requires
            0 <= evaporation,
            0 <= dt,
    ;
    assert(water[i] <= crate::sim::water::MAX_DEPTH);
}

/// The river of a map runs by these steps: with its sources and a little
/// evaporation while it is wet, and in a drought without them and with ten times
/// as much. Nothing but the water changes.
pub proof fn rivers_run_by_the_season(map: MapView, drought: bool, dt: u32)
    ensures
        ({
            let after = map.flowed(drought, dt);
            let source = if drought {
                None
            } else {
                Some(map.source)
            };
            let evaporation: u32 = if drought {
                20_000
            } else {
                2_000
            };
            &&& after.water == crate::sim::water::stepped(
                map.ground,
                map.dam,
                map.drain,
                source,
                map.water,
                map.width,
                dt,
                evaporation,
            )
            &&& after == (MapView { water: after.water, ..map })
        }),
{
}

/// The forecast is the map's own course: what a drought leaves after one step
/// more is what the river leaves of a map with what the steps before have left,
/// in a drought of a sixteenth of a second.
pub proof fn forecasts_are_droughts(map: MapView, n: nat)
    ensures
        ({
            let left = crate::sim::water::after_drought(
                map.ground,
                map.dam,
                map.drain,
                map.water,
                map.width,
                n,
            );
            crate::sim::water::after_drought(
                map.ground,
                map.dam,
                map.drain,
                map.water,
                map.width,
                (n + 1) as nat,
            ) == (MapView { water: left, ..map }).flowed(true, 62_500).water
        }),
{
}

/// The forecast of a drought is the river's own course: it begins with the
/// water there is, and each of its steps, the first and the last alike, is the
/// step of a sixteenth of a second that the river makes without inflow, at the
/// rate at which a drought evaporates water.
pub proof fn forecasts_follow_the_river(
    ground: Seq<i32>,
    dam: Seq<bool>,
    drain: Seq<bool>,
    water: Seq<u64>,
    width: u32,
    n: nat,
)
    ensures
        crate::sim::water::after_drought(ground, dam, drain, water, width, 0) == water,
        crate::sim::water::after_drought(ground, dam, drain, water, width, (n + 1) as nat)
            == crate::sim::water::stepped(
            ground,
            dam,
            drain,
            None,
            crate::sim::water::after_drought(ground, dam, drain, water, width, n),
            width,
            62_500,
            20_000,
        ),
{
}

/// A still pool without drains sinks evenly in a drought, for as long as it
/// lasts: by 1250 millionths of a level a step, on every tile until it is dry.
pub proof fn still_pools_sink_evenly(
    ground: Seq<i32>,
    dam: Seq<bool>,
    drain: Seq<bool>,
    water: Seq<u64>,
    width: u32,
    height: u32,
    level: int,
    n: nat,
    i: int,
)
    requires
        water.len() == width * height,
        ground.len() == water.len(),
        dam.len() == water.len(),
        drain.len() == water.len(),
        forall|k: int|
            0 <= k < water.len() ==> #[trigger] water[k] <= crate::sim::water::MAX_DEPTH,
        forall|k: int|
            0 <= k < water.len() ==> #[trigger] water[k] == if level > ground[k] * 1_000_000 {
                level - ground[k] * 1_000_000
            } else {
                0
            },
        forall|k: int| 0 <= k < drain.len() ==> !#[trigger] drain[k],
        0 <= i < water.len(),
    ensures
        crate::sim::water::after_drought(ground, dam, drain, water, width, n).len() == water.len(),
        crate::sim::water::after_drought(ground, dam, drain, water, width, n)[i] == if water[i]
            >= 1250 * n {
            water[i] - 1250 * n
        } else {
            0
        },
    decreases n,
{
    if n > 0 {
        let m = (n - 1) as nat;
        let before = crate::sim::water::after_drought(ground, dam, drain, water, width, m);
        still_pools_sink_evenly(ground, dam, drain, water, width, height, level, m, i);
        assert forall|k: int| 0 <= k < before.len() implies #[trigger] before[k]
            <= crate::sim::water::MAX_DEPTH && before[k] == if level - 1250 * m > ground[k]
            * 1_000_000 {
            level - 1250 * m - ground[k] * 1_000_000
        } else {
            0
        } by {
            still_pools_sink_evenly(ground, dam, drain, water, width, height, level, m, k);
            assert(water[k] <= crate::sim::water::MAX_DEPTH);
        }
        still_water_stays(
            ground,
            dam,
            drain,
            before,
            width,
            height,
            62_500,
            20_000,
            level - 1250 * m,
            i,
        );
        assert(!drain[i]);
    }
}

/// Taking all water together each tile counts once.
pub proof fn all_water_is_counted(water: Seq<u64>, depth: u64)
    ensures
        crate::sim::water::total(Seq::<u64>::empty()) == 0,
        crate::sim::water::total(water.push(depth)) == crate::sim::water::total(water) + depth,
{
    let f = |i: int| water[i] as int;
    let g = |i: int| water.push(depth)[i] as int;
    sums_of_the_same(f, g, water.len());
}

proof fn sums_of_the_same(f: spec_fn(int) -> int, g: spec_fn(int) -> int, n: nat)
    requires
        forall|i: int| 0 <= i < n ==> #[trigger] f(i) == g(i),
    ensures
        crate::sim::water::sum(f, n) == crate::sim::water::sum(g, n),
    decreases n,
{
    if n > 0 {
        sums_of_the_same(f, g, (n - 1) as nat);
        assert(f(n - 1) == g(n - 1));
    }
}

/// A tile is within irrigation range exactly where surface water, deeper than
/// a twentieth of a level, lies at most five tiles away, counted along rows and
/// columns.
pub proof fn irrigation_reaches_five_tiles(map: MapView, x: int, y: int)
    requires
        map.wf(),
        0 <= x < map.width,
        0 <= y < map.height,
    ensures
        map.wet_within(y * map.width + x, crate::sim::map::IRRIGATION_RANGE as int)
            <==> exists|u: int, v: int|
            0 <= u < map.width && 0 <= v < map.height && #[trigger] map.water[v * map.width + u]
                > 50_000 && (if u >= x {
                u - x
            } else {
                x - u
            }) + (if v >= y {
                v - y
            } else {
                y - v
            }) <= 5,
{
    let w = map.width as int;
    let i = y * map.width + x;
    crate::sim::map::tiles_have_places(map.width, map.height, x, y);
    if map.wet_within(i, 5) {
        let j = choose|j: int|
            0 <= j < map.size() && #[trigger] map.water[j] > crate::sim::map::WET
                && crate::sim::water::steps_between(map.width, i, j) <= 5;
        crate::sim::map::places_have_tiles(map.width, map.height, j);
        let u = j % w;
        let v = j / w;
        assert(map.water[v * map.width + u] > 50_000);
    }
    if exists|u: int, v: int|
        0 <= u < map.width && 0 <= v < map.height && #[trigger] map.water[v * map.width + u]
            > 50_000 && (if u >= x {
            u - x
        } else {
            x - u
        }) + (if v >= y {
            v - y
        } else {
            y - v
        }) <= 5 {
        let (u, v) = choose|u: int, v: int|
            0 <= u < map.width && 0 <= v < map.height && #[trigger] map.water[v * map.width + u]
                > 50_000 && (if u >= x {
                u - x
            } else {
                x - u
            }) + (if v >= y {
                v - y
            } else {
                y - v
            }) <= 5;
        crate::sim::map::tiles_have_places(map.width, map.height, u, v);
        let j = v * map.width + u;
        assert(map.water[j] > crate::sim::map::WET);
        assert(crate::sim::water::steps_between(map.width, i, j) <= 5);
    }
}

} // verus!
