//! How beavers walk: along their route if there is one, else straight ahead.
use vstd::prelude::*;

use crate::sim::beavers::{Beaver, BeaverRow, BeaverState, ComputedPath, JobRow};
use crate::sim::buildings::{BuildingKind, BuildingRow};
use crate::sim::map::{MapView, Pos, TileMap, TilePos};

verus! {

/// Walking speed, in millionths of a tile a second.
pub const WALK_SPEED: u64 = 2_600_000;

/// Walking speed on a finished path.
pub const PATH_SPEED: u64 = 4_680_000;

/// A beaver that is nearer than this to its job is at work.
pub const ARRIVED: i128 = 250_000;

/// A beaver that is nearer than this to a tile of its route has reached it.
pub const REACHED: i128 = 200_000;

/// Positions near enough for walking.
pub const WALK_FAR: i64 = 0x4_0000_0000_0000;

impl Pos {
    pub open spec fn walkable(self) -> bool {
        -WALK_FAR <= self.x <= WALK_FAR && -WALK_FAR <= self.y <= WALK_FAR && -WALK_FAR <= self.z
            <= WALK_FAR
    }
}

/// The square of the distance over ground.
pub open spec fn flat(a: Pos, b: Pos) -> int {
    (a.x - b.x) * (a.x - b.x) + (a.z - b.z) * (a.z - b.z)
}

/// `r` is the square root of `n`, rounded down.
pub open spec fn is_root(n: int, r: int) -> bool {
    0 <= r && r * r <= n && n < (r + 1) * (r + 1)
}

/// The square root, rounded down.
pub open spec fn root(n: int) -> int {
    choose|r: int| is_root(n, r)
}

/// No two numbers are the square root of one.
pub(crate) proof fn root_is_unique(n: int, a: int, b: int)
    requires
        is_root(n, a),
        is_root(n, b),
    ensures
        a == b,
{
    if a < b {
        assert((a + 1) * (a + 1) <= b * b) by (nonlinear_arith)
            requires
                0 <= a,
                a + 1 <= b,
        ;
    } else if b < a {
        assert((b + 1) * (b + 1) <= a * a) by (nonlinear_arith)
            requires
                0 <= b,
                b + 1 <= a,
        ;
    }
}

/// The square root, rounded down, by halving.
pub fn square_root(n: i128) -> (r: i128)
    requires
        0 <= n <= 0x1000_0000_0000_0000_0000_0000_0000,
    ensures
        r == root(n as int),
        is_root(n as int, r as int),
        r <= 0x4000_0000_0000_00,
{
    let mut low: i128 = 0;
    let mut high: i128 = 0x4000_0000_0000_01;
    assert(0 * 0 <= n);
    assert(n < high * high) by (nonlinear_arith)
        requires
            high == 0x4000_0000_0000_01,
            n <= 0x1000_0000_0000_0000_0000_0000_0000,
    ;
    while high - low > 1
        invariant
            0 <= low < high <= 0x4000_0000_0000_01,
            low * low <= n,
            n < high * high,
        decreases high - low,
    {
        let mid: i128 = low + (high - low) / 2;
        assert(0 <= mid * mid <= 0x4000_0000_0000_01 * 0x4000_0000_0000_01) by (nonlinear_arith)
            requires
                0 <= mid <= 0x4000_0000_0000_01,
        ;
        if mid * mid <= n {
            low = mid;
        } else {
            high = mid;
        }
    }
    proof {
        assert(is_root(n as int, low as int));
        root_is_unique(n as int, low as int, root(n as int));
    }
    low
}

/// A part of a way: `d` times `len` over `whole`, rounded towards nothing.
pub open spec fn part_of(d: int, len: int, whole: int) -> int {
    if d >= 0 {
        d * len / whole
    } else {
        -((-d) * len / whole)
    }
}

fn part(d: i128, len: i128, whole: i128) -> (r: i128)
    requires
        -0x8_0000_0000_0000 <= d <= 0x8_0000_0000_0000,
        0 <= len <= whole,
        0 < whole <= 0x4000_0000_0000_00,
    ensures
        r == part_of(d as int, len as int, whole as int),
        d >= 0 ==> 0 <= r <= d,
        d <= 0 ==> d <= r <= 0,
{
    let a: i128 = if d >= 0 {
        d
    } else {
        -d
    };
    proof {
        assert(0 <= a * len <= 0x8_0000_0000_0000 * 0x4000_0000_0000_00) by (nonlinear_arith)
            requires
                0 <= a <= 0x8_0000_0000_0000,
                0 <= len <= 0x4000_0000_0000_00,
        ;
        assert(0 <= a * len / whole as int <= a) by (nonlinear_arith)
            requires
                0 <= a,
                0 <= len <= whole,
                0 < whole,
        ;
    }
    let q: i128 = a * len / whole;
    if d >= 0 {
        q
    } else {
        -q
    }
}

fn flat_distance(a: Pos, b: Pos) -> (r: i128)
    requires
        a.walkable(),
        b.walkable(),
    ensures
        r == flat(a, b),
        0 <= r <= 0x1000_0000_0000_0000_0000_0000_0000,
{
    let dx: i128 = a.x as i128 - b.x as i128;
    let dz: i128 = a.z as i128 - b.z as i128;
    assert(0 <= dx * dx <= 0x8_0000_0000_0000 * 0x8_0000_0000_0000) by (nonlinear_arith)
        requires
            -0x8_0000_0000_0000 <= dx <= 0x8_0000_0000_0000,
    ;
    assert(0 <= dz * dz <= 0x8_0000_0000_0000 * 0x8_0000_0000_0000) by (nonlinear_arith)
        requires
            -0x8_0000_0000_0000 <= dz <= 0x8_0000_0000_0000,
    ;
    dx * dx + dz * dz
}

/// The job of an entity: the place of its first row.
pub open spec fn job_row(jobs: Seq<JobRow>, id: u64) -> Option<int>
    decreases jobs.len(),
{
    if jobs.len() == 0 {
        None
    } else {
        match job_row(jobs.drop_last(), id) {
            Some(i) => Some(i),
            None => if jobs.last().id == id {
                Some(jobs.len() - 1)
            } else {
                None
            },
        }
    }
}

/// The place of a job is one of the list.
pub(crate) proof fn jobs_have_places(jobs: Seq<JobRow>, id: u64)
    ensures
        job_row(jobs, id) matches Some(i) ==> 0 <= i < jobs.len() && jobs[i].id == id,
    decreases jobs.len(),
{
    if jobs.len() > 0 {
        jobs_have_places(jobs.drop_last(), id);
    }
}

proof fn job_row_prefix(jobs: Seq<JobRow>, id: u64, n: int)
    requires
        0 <= n <= jobs.len(),
        job_row(jobs.take(n), id) is Some,
    ensures
        job_row(jobs, id) == job_row(jobs.take(n), id),
    decreases jobs.len() - n,
{
    if n < jobs.len() {
        assert(jobs.take(n + 1).drop_last() =~= jobs.take(n));
        job_row_prefix(jobs, id, n + 1);
    } else {
        assert(jobs.take(n) =~= jobs);
    }
}

pub fn find_job(jobs: &Vec<JobRow>, id: u64) -> (r: Option<usize>)
    ensures
        match r {
            Some(i) => job_row(jobs@, id) == Some(i as int) && i < jobs@.len() && jobs@[i as int].id
                == id,
            None => job_row(jobs@, id) is None,
        },
{
    let mut i: usize = 0;
    while i < jobs.len()
        invariant
            i <= jobs@.len(),
            job_row(jobs@.take(i as int), id) is None,
        decreases jobs@.len() - i,
    {
        proof {
            assert(jobs@.take(i + 1).drop_last() =~= jobs@.take(i as int));
            assert(jobs@.take(i + 1).last() == jobs@[i as int]);
        }
        if jobs[i].id == id {
            proof {
                job_row_prefix(jobs@, id, i + 1);
            }
            return Some(i);
        }
        i += 1;
    }
    assert(jobs@.take(i as int) =~= jobs@);
    None
}

/// The first row of a building's entity, if the building is finished.
pub open spec fn is_finished_path(rows: Seq<BuildingRow>, id: u64) -> bool {
    exists|i: int|
        0 <= i < rows.len() && (#[trigger] rows[i]).id == id && rows[i].construction is None
            && rows[i].building.kind == BuildingKind::Path
}

impl MapView {
    /// Does a position lie on a finished path?
    pub open spec fn on_path(self, rows: Seq<BuildingRow>, pos: Pos) -> bool {
        match self.tile_under(pos) {
            Some(t) => match self.building[self.at(t)] {
                Some(e) => is_finished_path(rows, e),
                None => false,
            },
            None => false,
        }
    }

    /// The height of the surface under a position: the water's, or the
    /// ground's; that of the position itself off the map.
    pub open spec fn surface_under(self, pos: Pos) -> int {
        match self.tile_under(pos) {
            Some(t) => self.ground[self.at(t)] * crate::sim::map::LEVEL + self.water[self.at(t)]
                as int / 2,
            None => pos.y as int,
        }
    }

    /// A route without the tiles at its beginning that have been reached.
    pub open spec fn ahead(self, pos: Pos, tiles: Seq<TilePos>) -> Seq<TilePos>
        decreases tiles.len(),
    {
        if tiles.len() > 0 && flat(self.center(tiles[0]), pos) < REACHED * REACHED {
            self.ahead(pos, tiles.skip(1))
        } else {
            tiles
        }
    }
}

/// Where a beaver at `pos` steps on its way to `target` by `waypoint`, and as
/// far as its speed takes it, but past neither.
pub open spec fn stepped_to(pos: Pos, waypoint: Pos, target: Pos, reach: int, height: int) -> Pos {
    let way = root(flat(waypoint, pos));
    let left = root(flat(target, pos));
    let most = if way <= left {
        way
    } else {
        left
    };
    let len = if reach <= most {
        reach
    } else {
        most
    };
    if way == 0 {
        Pos { y: height as i64, ..pos }
    } else {
        Pos {
            x: (pos.x + part_of(waypoint.x - pos.x, len, way)) as i64,
            y: height as i64,
            z: (pos.z + part_of(waypoint.z - pos.z, len, way)) as i64,
        }
    }
}

/// How far a beaver gets in `dt`.
pub open spec fn stride(on_path: bool, dt: u32) -> int {
    (if on_path {
        PATH_SPEED
    } else {
        WALK_SPEED
    }) * dt / 1_000_000
}

/// The tiles of a route, if it leads to this job.
pub open spec fn route_to(route: Option<ComputedPath>, job: u64) -> Option<Seq<TilePos>> {
    match route {
        Some(path) => if path.job == job {
            match path.tiles {
                Some(tiles) => Some(tiles@),
                None => None,
            }
        } else {
            None
        },
        None => None,
    }
}

/// A walking beaver after `dt`.
pub open spec fn walked(
    map: MapView,
    jobs: Seq<JobRow>,
    rows: Seq<BuildingRow>,
    row: BeaverRow,
    route: Option<ComputedPath>,
    dt: u32,
) -> BeaverRow {
    let idle = BeaverRow {
        beaver: Beaver { state: BeaverState::Idle, ..row.beaver },
        ..row
    };
    match row.beaver.state {
        BeaverState::Goto(id) => match job_row(jobs, id) {
            None => idle,
            Some(j) => {
                let target = map.center(jobs[j].job.tile);
                if flat(target, row.pos) < ARRIVED * ARRIVED {
                    BeaverRow {
                        beaver: Beaver { state: BeaverState::Work(id), ..row.beaver },
                        ..row
                    }
                } else {
                    let tiles = match route_to(route, id) {
                        Some(t) => map.ahead(row.pos, t),
                        None => Seq::empty(),
                    };
                    let waypoint = if tiles.len() > 0 {
                        map.center(tiles[0])
                    } else {
                        target
                    };
                    BeaverRow {
                        pos: stepped_to(
                            row.pos,
                            waypoint,
                            target,
                            stride(map.on_path(rows, row.pos), dt),
                            map.surface_under(row.pos),
                        ),
                        ..row
                    }
                }
            },
        },
        _ => row,
    }
}

/// The route of a walking beaver after a moment: what it has reached is gone.
pub open spec fn route_left(
    map: MapView,
    jobs: Seq<JobRow>,
    row: BeaverRow,
    route: Option<ComputedPath>,
) -> Option<Seq<TilePos>> {
    match row.beaver.state {
        BeaverState::Goto(id) => match (job_row(jobs, id), route_to(route, id)) {
            (Some(j), Some(tiles)) => if flat(map.center(jobs[j].job.tile), row.pos) < ARRIVED
                * ARRIVED {
                Some(tiles)
            } else {
                Some(map.ahead(row.pos, tiles))
            },
            (_, t) => t,
        },
        _ => None,
    }
}

/// Is `after` what a moment leaves of a beaver's route? One that leads to its job
/// loses the tiles that have been reached; any other stays as it was.
pub open spec fn route_follows(
    map: MapView,
    jobs: Seq<JobRow>,
    row: BeaverRow,
    before: Option<ComputedPath>,
    after: Option<ComputedPath>,
) -> bool {
    match (row.beaver.state, before) {
        (BeaverState::Goto(id), Some(path)) if path.job == id => {
            &&& after is Some
            &&& (after->0).job == id
            &&& route_to(after, id) == route_left(map, jobs, row, before)
        },
        _ => after == before,
    }
}

fn stands_on_path(map: &TileMap, rows: &Vec<BuildingRow>, tile: Option<TilePos>) -> (r: bool)
    requires
        map.wf(),
        tile matches Some(t) ==> map@.holds(t),
    ensures
        r == match tile {
            Some(t) => match map@.building[map@.at(t)] {
                Some(e) => is_finished_path(rows@, e),
                None => false,
            },
            None => false,
        },
{
    let t = match tile {
        Some(t) => t,
        None => return false,
    };
    let e: u64 = match map.building[map.idx(t.x, t.y)] {
        Some(e) => e,
        None => return false,
    };
    let mut i: usize = 0;
    while i < rows.len()
        invariant
            i <= rows@.len(),
            tile == Some(t),
            map@.building[map@.at(t)] == Some(e),
            forall|j: int|
                0 <= j < i ==> !((#[trigger] rows@[j]).id == e && rows@[j].construction is None
                    && rows@[j].building.kind == BuildingKind::Path),
        decreases rows@.len() - i,
    {
        if rows[i].id == e && rows[i].construction.is_none() && rows[i].building.kind
            == BuildingKind::Path {
            return true;
        }
        i += 1;
    }
    false
}

/// Every tile of a route is on the map.
pub open spec fn route_stands(route: Option<ComputedPath>, map: MapView) -> bool {
    match route {
        Some(path) => match path.tiles {
            Some(tiles) => forall|k: int|
                0 <= k < tiles@.len() ==> map.holds(#[trigger] tiles@[k]),
            None => true,
        },
        None => true,
    }
}

/// Drop the tiles that have been reached; the answer is the next one's middle.
fn go_ahead(map: &TileMap, pos: Pos, tiles: &mut Vec<TilePos>) -> (r: Option<Pos>)
    requires
        map.wf(),
        pos.walkable(),
        forall|k: int| 0 <= k < old(tiles)@.len() ==> map@.holds(#[trigger] old(tiles)@[k]),
    ensures
        final(tiles)@ == map@.ahead(pos, old(tiles)@),
        r == if final(tiles)@.len() > 0 {
            Some(map@.center(final(tiles)@[0]))
        } else {
            None
        },
        r matches Some(p) ==> p.walkable(),
        forall|k: int| 0 <= k < final(tiles)@.len() ==> map@.holds(#[trigger] final(tiles)@[k]),
{
    let ghost goal = map@.ahead(pos, tiles@);
    while tiles.len() > 0
        invariant
            map.wf(),
            pos.walkable(),
            forall|k: int| 0 <= k < tiles@.len() ==> map@.holds(#[trigger] tiles@[k]),
            map@.ahead(pos, tiles@) == goal,
            goal == map@.ahead(pos, old(tiles)@),
        decreases tiles@.len(),
    {
        let next = tiles[0];
        assert(map@.holds(tiles@[0]));
        let center = map.tile_center(next.x, next.y);
        if flat_distance(center, pos) < REACHED * REACHED {
            let ghost before = tiles@;
            let _ = tiles.remove(0);
            proof {
                assert(tiles@ =~= before.skip(1));
            }
        } else {
            return Some(center);
        }
    }
    None
}

/// The state of walking: beavers, and their routes beside them.
pub open spec fn routes_stand(routes: Seq<Option<ComputedPath>>, map: MapView) -> bool {
    forall|i: int| 0 <= i < routes.len() ==> route_stands(#[trigger] routes[i], map)
}

/// Let one beaver walk for `dt`.
fn walk(
    map: &TileMap,
    jobs: &Vec<JobRow>,
    rows: &Vec<BuildingRow>,
    row: BeaverRow,
    route: &mut Option<ComputedPath>,
    dt: u32,
) -> (r: BeaverRow)
    requires
        map.wf(),
        crate::sim::beavers::jobs_stand(jobs@, map@),
        row.pos.walkable(),
        route_stands(*old(route), map@),
    ensures
        r == walked(map@, jobs@, rows@, row, *old(route), dt),
        r.pos.walkable(),
        route_stands(*final(route), map@),
        route_follows(map@, jobs@, row, *old(route), *final(route)),
{
    let mut row = row;
    let id: u64 = match row.beaver.state {
        BeaverState::Goto(id) => id,
        _ => return row,
    };
    let j: usize = match find_job(jobs, id) {
        Some(j) => j,
        None => {
            row.beaver.state = BeaverState::Idle;
            return row;
        },
    };
    let tile = jobs[j].job.tile;
    assert(map@.holds(jobs@[j as int].job.tile));
    let target = map.tile_center(tile.x, tile.y);
    let dist: i128 = flat_distance(target, row.pos);
    if dist < ARRIVED * ARRIVED {
        row.beaver.state = BeaverState::Work(id);
        return row;
    }
    let mut waypoint = target;
    match route.take() {
        Some(mut path) => {
            if path.job == id {
                if let Some(mut tiles) = path.tiles {
                    if let Some(next) = go_ahead(map, row.pos, &mut tiles) {
                        waypoint = next;
                    }
                    *route = Some(ComputedPath { job: path.job, tiles: Some(tiles) });
                } else {
                    *route = Some(ComputedPath { job: path.job, tiles: None });
                }
            } else {
                *route = Some(path);
            }
        },
        None => {},
    }
    let at = map.tile_at(row.pos);
    let on_path = stands_on_path(map, rows, at);
    let speed: u64 = if on_path {
        PATH_SPEED
    } else {
        WALK_SPEED
    };
    assert(0 <= speed * dt <= 4_680_000 * 0xffff_ffff) by (nonlinear_arith)
        requires
            0 <= speed <= 4_680_000,
            0 <= dt <= 0xffff_ffff,
    ;
    let reach: i128 = (speed * dt as u64 / 1_000_000) as i128;
    let way: i128 = square_root(flat_distance(waypoint, row.pos));
    let left: i128 = square_root(dist);
    let most: i128 = if way <= left {
        way
    } else {
        left
    };
    let len: i128 = if reach <= most {
        reach
    } else {
        most
    };
    if let Some(t) = at {
        let i: usize = map.idx(t.x, t.y);
        assert(-1000 <= map@.ground[i as int] <= 1000);
        assert(map@.ground[i as int] * crate::sim::map::MICRO + map@.water[i as int]
            <= crate::sim::map::CEILING);
        row.pos.y = map.ground[i] as i64 * crate::sim::map::LEVEL + (map.water[i] / 2) as i64;
    }
    if way > 0 {
        let px: i64 = row.pos.x;
        let pz: i64 = row.pos.z;
        let dx: i128 = part(waypoint.x as i128 - px as i128, len, way);
        let dz: i128 = part(waypoint.z as i128 - pz as i128, len, way);
        row.pos.x = px + dx as i64;
        row.pos.z = pz + dz as i64;
    }
    row
}

/// Let all beavers walk for `dt`. A beaver whose job is gone is idle again; one
/// that has arrived is at work; the others go on, along their route where they
/// have one for their job.
pub fn move_beavers(
    map: &TileMap,
    jobs: &Vec<JobRow>,
    rows: &Vec<BuildingRow>,
    beavers: &mut Vec<BeaverRow>,
    routes: &mut Vec<Option<ComputedPath>>,
    dt: u32,
)
    requires
        map.wf(),
        crate::sim::beavers::jobs_stand(jobs@, map@),
        old(routes)@.len() == old(beavers)@.len(),
        routes_stand(old(routes)@, map@),
        forall|i: int| 0 <= i < old(beavers)@.len() ==> (#[trigger] old(beavers)@[i]).pos.walkable(),
    ensures
        final(beavers)@ == Seq::new(
            old(beavers)@.len(),
            |i: int| walked(map@, jobs@, rows@, old(beavers)@[i], old(routes)@[i], dt),
        ),
        final(routes)@.len() == old(routes)@.len(),
        routes_stand(final(routes)@, map@),
        forall|i: int|
            0 <= i < old(beavers)@.len() ==> route_follows(
                map@,
                jobs@,
                old(beavers)@[i],
                old(routes)@[i],
                #[trigger] final(routes)@[i],
            ),
        forall|i: int|
            0 <= i < final(beavers)@.len() ==> (#[trigger] final(beavers)@[i]).pos.walkable(),
{
    let ghost before = beavers@;
    let ghost ways = routes@;
    let n: usize = beavers.len();
    let mut i: usize = 0;
    while i < n
        invariant
            map.wf(),
            crate::sim::beavers::jobs_stand(jobs@, map@),
            i <= n,
            n == before.len(),
            beavers@.len() == n,
            routes@.len() == n,
            ways.len() == n,
            routes_stand(routes@, map@),
            forall|k: int| 0 <= k < n ==> (#[trigger] beavers@[k]).pos.walkable(),
            forall|k: int|
                0 <= k < i ==> #[trigger] beavers@[k] == walked(
                    map@,
                    jobs@,
                    rows@,
                    before[k],
                    ways[k],
                    dt,
                ),
            forall|k: int| i <= k < n ==> #[trigger] beavers@[k] == before[k],
            forall|k: int| i <= k < n ==> #[trigger] routes@[k] == ways[k],
            forall|k: int|
                0 <= k < i ==> route_follows(
                    map@,
                    jobs@,
                    before[k],
                    ways[k],
                    #[trigger] routes@[k],
                ),
        decreases n - i,
    {
        let row: BeaverRow = beavers[i];
        let ghost routes_before = routes@;
        assert(beavers@[i as int].pos.walkable());
        assert(route_stands(routes@[i as int], map@));
        let next = walk(map, jobs, rows, row, &mut routes[i], dt);
        beavers.set(i, next);
        proof {
            assert forall|k: int| 0 <= k < routes@.len() implies route_stands(
                #[trigger] routes@[k],
                map@,
            ) by {
                if k != i {
                    assert(routes@[k] == routes_before[k]);
                    assert(route_stands(routes_before[k], map@));
                }
            }
        }
        i += 1;
    }
    proof {
        assert(beavers@ =~= Seq::new(
            before.len(),
            |i: int| walked(map@, jobs@, rows@, before[i], ways[i], dt),
        ));
    }
}

/// A beaver is at work exactly when its job is there and within reach.
pub proof fn arriving_is_being_near(
    map: MapView,
    jobs: Seq<JobRow>,
    rows: Seq<BuildingRow>,
    row: BeaverRow,
    route: Option<ComputedPath>,
    dt: u32,
    id: u64,
)
    requires
        row.beaver.state == BeaverState::Goto(id),
    ensures
        walked(map, jobs, rows, row, route, dt).beaver.state is Work <==> (job_row(jobs, id) is Some
            && flat(map.center(jobs[job_row(jobs, id)->0].job.tile), row.pos) < ARRIVED * ARRIVED),
        walked(map, jobs, rows, row, route, dt).beaver.state is Idle <==> job_row(jobs, id) is None,
{
}

/// Every number has a square root, rounded down.
pub(crate) proof fn root_exists(n: int)
    requires
        n >= 0,
    ensures
        is_root(n, root(n)),
    decreases n,
{
    if n == 0 {
        assert(is_root(0, 0));
    } else {
        root_exists(n - 1);
        let r = root(n - 1);
        if (r + 1) * (r + 1) <= n {
            assert(n < (r + 1 + 1) * (r + 1 + 1)) by (nonlinear_arith)
                requires
                    n - 1 < (r + 1) * (r + 1),
                    0 <= r,
            ;
            assert(is_root(n, r + 1));
        } else {
            assert(is_root(n, r));
        }
    }
}

/// A part is no more than the whole, and on the same side of nothing.
pub(crate) proof fn parts_are_parts(d: int, len: int, whole: int)
    requires
        0 <= len <= whole,
        0 < whole,
    ensures
        d >= 0 ==> 0 <= part_of(d, len, whole) <= d,
        d <= 0 ==> d <= part_of(d, len, whole) <= 0,
{
    if d >= 0 {
        assert(0 <= d * len / whole <= d) by (nonlinear_arith)
            requires
                0 <= d,
                0 <= len <= whole,
                0 < whole,
        ;
    } else {
        let a = -d;
        assert(0 <= a * len / whole <= a) by (nonlinear_arith)
            requires
                0 <= a,
                0 <= len <= whole,
                0 < whole,
        ;
    }
}

/// A step leads towards the waypoint and never past it.
pub proof fn steps_do_not_overshoot(
    pos: Pos,
    waypoint: Pos,
    target: Pos,
    reach: int,
    height: int,
)
    requires
        0 <= reach,
        pos.walkable(),
        waypoint.walkable(),
        target.walkable(),
    ensures
        ({
            let next = stepped_to(pos, waypoint, target, reach, height);
            &&& pos.x <= next.x <= waypoint.x || waypoint.x <= next.x <= pos.x
            &&& pos.z <= next.z <= waypoint.z || waypoint.z <= next.z <= pos.z
        }),
{
    let dx = waypoint.x - pos.x;
    let dz = waypoint.z - pos.z;
    let tx = target.x - pos.x;
    let tz = target.z - pos.z;
    assert(dx * dx >= 0) by (nonlinear_arith);
    assert(dz * dz >= 0) by (nonlinear_arith);
    assert(tx * tx >= 0) by (nonlinear_arith);
    assert(tz * tz >= 0) by (nonlinear_arith);
    root_exists(flat(waypoint, pos));
    root_exists(flat(target, pos));
    let way = root(flat(waypoint, pos));
    let left = root(flat(target, pos));
    if way > 0 {
        let most = if way <= left {
            way
        } else {
            left
        };
        let len = if reach <= most {
            reach
        } else {
            most
        };
        parts_are_parts(dx, len, way);
        parts_are_parts(dz, len, way);
    }
}

} // verus!
