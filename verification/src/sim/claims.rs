//! Who takes which job, and over what ground the way to it leads.
use vstd::prelude::*;

use crate::sim::beavers::{BeaverRow, BeaverState, Job, JobKind, JobRow};
use crate::sim::buildings::{BuildingKind, BuildingRow};
use crate::sim::map::{MapView, Pos, TileMap, TilePos};
use crate::sim::pathfind::{WalkGrid, BLOCKED, GRASS_COST, PATH_COST};

verus! {

/// Water deeper than this cannot be waded through.
pub const DEEP: u64 = 350_000;

/// The cost of walking over a building: finished paths are cheap, paths that
/// are being built are grass still, and all else blocks the way.
pub open spec fn walk_over(row: BuildingRow) -> u32 {
    if row.building.kind != BuildingKind::Path {
        BLOCKED
    } else if row.construction is Some {
        GRASS_COST
    } else {
        PATH_COST
    }
}

impl MapView {
    /// Walking costs, once the first `n` buildings have been entered: deep
    /// water and trees block the way, all else is grass.
    pub open spec fn walk_costs(self, rows: Seq<BuildingRow>, n: nat) -> Seq<u32>
        decreases n,
    {
        if n == 0 {
            Seq::new(
                self.size() as nat,
                |i: int|
                    if self.water[i] > DEEP || self.tree[i] is Some {
                        BLOCKED
                    } else {
                        GRASS_COST
                    },
            )
        } else {
            self.walk_costs(rows, (n - 1) as nat).update(
                self.at(rows[n - 1].building.tile),
                walk_over(rows[n - 1]),
            )
        }
    }
}

/// A snapshot of walking costs.
pub fn walk_grid(map: &TileMap, rows: &Vec<BuildingRow>) -> (r: WalkGrid)
    requires
        map.wf(),
        crate::sim::buildings::buildings_stand(rows@, map@),
    ensures
        r.wf(),
        r.width == map.width,
        r.height == map.height,
        r.cost@ == map@.walk_costs(rows@, rows@.len()),
{
    let n: usize = map.water.len();
    let mut cost: Vec<u32> = Vec::new();
    let mut i: usize = 0;
    while i < n
        invariant
            map.wf(),
            n == map@.size(),
            i <= n,
            cost@ =~= map@.walk_costs(rows@, 0).take(i as int),
        decreases n - i,
    {
        if map.water[i] > DEEP || map.tree[i].is_some() {
            cost.push(BLOCKED);
        } else {
            cost.push(GRASS_COST);
        }
        i += 1;
    }
    assert(cost@ =~= map@.walk_costs(rows@, 0));
    let mut k: usize = 0;
    while k < rows.len()
        invariant
            map.wf(),
            crate::sim::buildings::buildings_stand(rows@, map@),
            k <= rows@.len(),
            cost@.len() == map@.size(),
            cost@ == map@.walk_costs(rows@, k as nat),
        decreases rows@.len() - k,
    {
        let row: BuildingRow = rows[k];
        assert(map@.holds(rows@[k as int].building.tile));
        let at: usize = map.idx(row.building.tile.x, row.building.tile.y);
        let c: u32 = if row.building.kind != BuildingKind::Path {
            BLOCKED
        } else if row.construction.is_some() {
            GRASS_COST
        } else {
            PATH_COST
        };
        cost.set(at, c);
        k += 1;
    }
    WalkGrid { width: map.width, height: map.height, cost }
}

/// No ground is cheaper than a finished path, so routes over these grids are
/// cheapest ones.
pub proof fn finished_paths_are_cheapest(map: MapView, rows: Seq<BuildingRow>, n: nat, i: int)
    requires
        map.wf(),
        n <= rows.len(),
        crate::sim::buildings::buildings_stand(rows, map),
        0 <= i < map.size(),
    ensures
        map.walk_costs(rows, n).len() == map.size(),
        map.walk_costs(rows, n)[i] >= PATH_COST,
    decreases n,
{
    if n > 0 {
        finished_paths_are_cheapest(map, rows, (n - 1) as nat, i);
        let t = rows[n - 1].building.tile;
        assert(map.holds(t));
        crate::sim::map::tiles_have_places(map.width, map.height, t.x as int, t.y as int);
    }
}

/// Positions that distances can be taken of.
pub const FAR: i64 = 0x1000_0000_0000_0000;

impl Pos {
    pub open spec fn near(self) -> bool {
        -FAR <= self.x <= FAR && -FAR <= self.y <= FAR && -FAR <= self.z <= FAR
    }
}

/// The square of the distance between two positions.
pub open spec fn apart(a: Pos, b: Pos) -> int {
    (a.x - b.x) * (a.x - b.x) + (a.y - b.y) * (a.y - b.y) + (a.z - b.z) * (a.z - b.z)
}

fn square(a: i64, b: i64) -> (r: i128)
    requires
        -FAR <= a <= FAR,
        -FAR <= b <= FAR,
    ensures
        r == (a - b) * (a - b),
        0 <= r <= 0x400_0000_0000_0000_0000_0000_0000_0000,
{
    let d: i128 = a as i128 - b as i128;
    assert(0 <= d * d <= 0x2000_0000_0000_0000 * 0x2000_0000_0000_0000) by (nonlinear_arith)
        requires
            -0x2000_0000_0000_0000 <= d <= 0x2000_0000_0000_0000,
    ;
    d * d
}

/// The square of the distance between two positions.
pub fn distance_squared(a: Pos, b: Pos) -> (r: i128)
    requires
        a.near(),
        b.near(),
    ensures
        r == apart(a, b),
        r >= 0,
{
    square(a.x, b.x) + square(a.y, b.y) + square(a.z, b.z)
}

impl Job {
    pub open spec fn is_build(self) -> bool {
        self.kind is Build
    }
}

/// Is job `a` to be preferred to job `b` by a beaver at `pos`? Building comes
/// first, then what is nearer.
pub open spec fn preferred(map: MapView, pos: Pos, a: Job, b: Job) -> bool {
    if a.is_build() != b.is_build() {
        a.is_build()
    } else {
        apart(map.center(a.tile), pos) < apart(map.center(b.tile), pos)
    }
}

/// The job that a beaver at `pos` takes among the first `n`: an unclaimed one
/// than which no other is to be preferred, the first of those.
pub open spec fn best_job(map: MapView, pos: Pos, jobs: Seq<JobRow>, n: nat) -> Option<int>
    decreases n,
{
    if n == 0 {
        None
    } else {
        let prior = best_job(map, pos, jobs, (n - 1) as nat);
        let job = jobs[n - 1].job;
        if job.claimed_by is Some {
            prior
        } else {
            match prior {
                None => Some(n - 1),
                Some(b) => if preferred(map, pos, job, jobs[b].job) {
                    Some(n - 1)
                } else {
                    Some(b)
                },
            }
        }
    }
}

/// The job taken is unclaimed, no unclaimed job is to be preferred to it, and
/// one is taken if any is unclaimed.
pub proof fn the_best_job_is_taken(map: MapView, pos: Pos, jobs: Seq<JobRow>, n: nat)
    requires
        n <= jobs.len(),
    ensures
        match best_job(map, pos, jobs, n) {
            Some(b) => {
                &&& 0 <= b < n
                &&& jobs[b].job.claimed_by is None
                &&& forall|j: int|
                    0 <= j < n && (#[trigger] jobs[j]).job.claimed_by is None ==> !preferred(
                        map,
                        pos,
                        jobs[j].job,
                        jobs[b].job,
                    )
            },
            None => forall|j: int| 0 <= j < n ==> (#[trigger] jobs[j]).job.claimed_by is Some,
        },
    decreases n,
{
    if n > 0 {
        the_best_job_is_taken(map, pos, jobs, (n - 1) as nat);
    }
}

fn find_best_job(map: &TileMap, pos: Pos, jobs: &Vec<JobRow>) -> (r: Option<usize>)
    requires
        map.wf(),
        pos.near(),
        crate::sim::beavers::jobs_stand(jobs@, map@),
    ensures
        match r {
            Some(i) => best_job(map@, pos, jobs@, jobs@.len()) == Some(i as int) && i < jobs@.len(),
            None => best_job(map@, pos, jobs@, jobs@.len()) is None,
        },
{
    let mut best: Option<usize> = None;
    let mut best_build = false;
    let mut best_dist: i128 = 0;
    let mut i: usize = 0;
    while i < jobs.len()
        invariant
            map.wf(),
            pos.near(),
            crate::sim::beavers::jobs_stand(jobs@, map@),
            i <= jobs@.len(),
            match best {
                Some(b) => {
                    &&& b < i
                    &&& best_job(map@, pos, jobs@, i as nat) == Some(b as int)
                    &&& best_build == jobs@[b as int].job.is_build()
                    &&& best_dist == apart(map@.center(jobs@[b as int].job.tile), pos)
                },
                None => best_job(map@, pos, jobs@, i as nat) is None,
            },
        decreases jobs@.len() - i,
    {
        let job: Job = jobs[i].job;
        assert(map@.holds(jobs@[i as int].job.tile));
        if job.claimed_by.is_none() {
            let is_build = match job.kind {
                JobKind::Build(_) => true,
                _ => false,
            };
            let center = map.tile_center(job.tile.x, job.tile.y);
            let dist: i128 = distance_squared(center, pos);
            let better = match best {
                None => true,
                Some(_) => if is_build != best_build {
                    is_build
                } else {
                    dist < best_dist
                },
            };
            if better {
                best = Some(i);
                best_build = is_build;
                best_dist = dist;
            }
        }
        i += 1;
    }
    best
}

/// A route that is to be found for a beaver.
#[derive(Clone, Copy, PartialEq, Eq, Structural, Debug)]
pub struct RouteRequest {
    pub beaver: u64,
    pub job: u64,
    pub start: TilePos,
    pub goal: TilePos,
}

/// The board while jobs are being claimed.
#[verifier::ext_equal]
pub ghost struct Board {
    pub beavers: Seq<BeaverRow>,
    pub jobs: Seq<JobRow>,
    pub requests: Seq<RouteRequest>,
}

impl MapView {
    /// The tile at a position, if it is on the map.
    pub open spec fn tile_under(self, pos: Pos) -> Option<TilePos> {
        let x = MapView::cell(pos.x, self.width);
        let y = MapView::cell(pos.z, self.height);
        if self.inside(x, y) {
            Some(TilePos { x: x as u32, y: y as u32 })
        } else {
            None
        }
    }
}

impl Board {
    /// The board once the `i`th beaver has had its choice.
    pub open spec fn chosen(self, map: MapView, i: int) -> Board {
        let row = self.beavers[i];
        match best_job(map, row.pos, self.jobs, self.jobs.len()) {
            Some(b) if row.beaver.state == BeaverState::Idle => {
                let job = self.jobs[b];
                Board {
                    beavers: self.beavers.update(
                        i,
                        BeaverRow {
                            beaver: crate::sim::beavers::Beaver {
                                state: BeaverState::Goto(job.id),
                                ..row.beaver
                            },
                            ..row
                        },
                    ),
                    jobs: self.jobs.update(
                        b,
                        JobRow { job: Job { claimed_by: Some(row.id), ..job.job }, ..job },
                    ),
                    requests: match map.tile_under(row.pos) {
                        Some(start) => self.requests.push(
                            RouteRequest {
                                beaver: row.id,
                                job: job.id,
                                start,
                                goal: job.job.tile,
                            },
                        ),
                        None => self.requests,
                    },
                }
            },
            _ => self,
        }
    }

    /// The board once the first `n` beavers have had their choice.
    pub open spec fn chosen_upto(self, map: MapView, n: nat) -> Board
        decreases n,
    {
        if n == 0 {
            self
        } else {
            self.chosen_upto(map, (n - 1) as nat).chosen(map, n - 1)
        }
    }
}

pub open spec fn all_near(rows: Seq<BeaverRow>) -> bool {
    forall|i: int| 0 <= i < rows.len() ==> (#[trigger] rows[i]).pos.near()
}

/// Idle beavers take jobs, one after another: each the best of those that are
/// still unclaimed. For each the answer asks for a route; until one is found
/// the beaver walks straight ahead.
pub fn claim_jobs(map: &TileMap, beavers: &mut Vec<BeaverRow>, jobs: &mut Vec<JobRow>) -> (r: Vec<
    RouteRequest,
>)
    requires
        map.wf(),
        crate::sim::beavers::jobs_stand(old(jobs)@, map@),
        all_near(old(beavers)@),
    ensures
        ({
            let start = Board {
                beavers: old(beavers)@,
                jobs: old(jobs)@,
                requests: Seq::empty(),
            };
            let end = start.chosen_upto(map@, old(beavers)@.len());
            &&& final(beavers)@ == end.beavers
            &&& final(jobs)@ == end.jobs
            &&& r@ == end.requests
        }),
        crate::sim::beavers::jobs_stand(final(jobs)@, map@),
        all_near(final(beavers)@),
{
    let ghost start = Board { beavers: beavers@, jobs: jobs@, requests: Seq::empty() };
    let mut r: Vec<RouteRequest> = Vec::new();
    let mut i: usize = 0;
    let n: usize = beavers.len();
    while i < n
        invariant
            map.wf(),
            i <= n,
            n == beavers@.len(),
            n == start.beavers.len(),
            crate::sim::beavers::jobs_stand(jobs@, map@),
            all_near(beavers@),
            (Board { beavers: beavers@, jobs: jobs@, requests: r@ }) == start.chosen_upto(
                map@,
                i as nat,
            ),
        decreases n - i,
    {
        let ghost now = Board { beavers: beavers@, jobs: jobs@, requests: r@ };
        let mut row: BeaverRow = beavers[i];
        let ghost given = row;
        assert(beavers@[i as int].pos.near());
        if row.beaver.state == BeaverState::Idle {
            if let Some(b) = find_best_job(map, row.pos, jobs) {
                let mut job: JobRow = jobs[b];
                let ghost chosen = job;
                assert(map@.holds(jobs@[b as int].job.tile));
                job.job.claimed_by = Some(row.id);
                row.beaver.state = BeaverState::Goto(job.id);
                jobs.set(b, job);
                beavers.set(i, row);
                if let Some(at) = map.tile_at(row.pos) {
                    r.push(
                        RouteRequest {
                            beaver: row.id,
                            job: job.id,
                            start: at,
                            goal: job.job.tile,
                        },
                    );
                }
            }
        }
        proof {
            assert((Board { beavers: beavers@, jobs: jobs@, requests: r@ }) =~= now.chosen(
                map@,
                i as int,
            ));
            assert forall|k: int| 0 <= k < jobs@.len() implies {
                let job = (#[trigger] jobs@[k]).job;
                map@.holds(job.tile) && (job.kind matches JobKind::Plant(t) ==> map@.holds(t))
            } by {
                let was = now.jobs[k].job;
                assert(map@.holds(was.tile));
            }
            assert forall|k: int| 0 <= k < beavers@.len() implies (
            #[trigger] beavers@[k]).pos.near() by {
                assert(now.beavers[k].pos.near());
            }
        }
        i += 1;
    }
    r
}

/// No job is given to two beavers: a claimed job stays with its beaver, and a
/// beaver that is on its way or at work takes no other.
pub proof fn claims_stand(board: Board, map: MapView, i: int, j: int, k: int)
    requires
        0 <= i < board.beavers.len(),
        0 <= j < board.jobs.len(),
        0 <= k < board.beavers.len(),
    ensures
        board.jobs[j].job.claimed_by is Some ==> board.chosen(map, i).jobs[j] == board.jobs[j],
        board.beavers[k].beaver.state != BeaverState::Idle ==> board.chosen(map, i).beavers[k]
            == board.beavers[k],
{
    the_best_job_is_taken(map, board.beavers[i].pos, board.jobs, board.jobs.len());
}

} // verus!
