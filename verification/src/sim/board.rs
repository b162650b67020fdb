//! Who takes which job, told by distances.
use vstd::prelude::*;

use crate::sim::beavers::{BeaverState, JobKind, JobRow};
use crate::sim::buildings::{BuildingKind, BuildingRow};
use crate::sim::claims::{Board, RouteRequest};
use crate::sim::map::{MapView, Pos, TilePos};

verus! {

/// The square of the distance between a position and the middle of a tile's
/// ground.
pub open spec fn way_off(map: MapView, pos: Pos, t: TilePos) -> int {
    let dx = t.x * 1_000_000 + 500_000 - map.width * 500_000 - pos.x;
    let dy = map.ground[t.y * map.width + t.x] * 500_000 - pos.y;
    let dz = t.y * 1_000_000 + 500_000 - map.height * 500_000 - pos.z;
    dx * dx + dy * dy + dz * dz
}

proof fn ways_are_distances(map: MapView, pos: Pos, t: TilePos)
    requires
        map.wf(),
        map.holds(t),
    ensures
        crate::sim::claims::apart(map.center(t), pos) == way_off(map, pos, t),
{
    crate::sim::terrain::middles_of_tiles(map, t);
}

/// The nearest construction job is taken, if any is unclaimed, and else the
/// nearest unclaimed job; of jobs at the same distance the first. Nothing is
/// taken only where every job is claimed.
pub proof fn the_nearest_job_is_taken(map: MapView, pos: Pos, jobs: Seq<JobRow>, n: nat)
    requires
        map.wf(),
        crate::sim::beavers::jobs_stand(jobs, map),
        n <= jobs.len(),
    ensures
        match crate::sim::claims::best_job(map, pos, jobs, n) {
            Some(b) => {
                &&& 0 <= b < n
                &&& jobs[b].job.claimed_by is None
                &&& jobs[b].job.kind is Build ==> forall|j: int|
                    0 <= j < n && (#[trigger] jobs[j]).job.claimed_by is None && jobs[j].job.kind
                        is Build ==> {
                        &&& way_off(map, pos, jobs[b].job.tile) <= way_off(
                            map,
                            pos,
                            jobs[j].job.tile,
                        )
                        &&& j < b ==> way_off(map, pos, jobs[b].job.tile) < way_off(
                            map,
                            pos,
                            jobs[j].job.tile,
                        )
                    }
                &&& !(jobs[b].job.kind is Build) ==> forall|j: int|
                    0 <= j < n && (#[trigger] jobs[j]).job.claimed_by is None ==> {
                        &&& !(jobs[j].job.kind is Build)
                        &&& way_off(map, pos, jobs[b].job.tile) <= way_off(
                            map,
                            pos,
                            jobs[j].job.tile,
                        )
                        &&& j < b ==> way_off(map, pos, jobs[b].job.tile) < way_off(
                            map,
                            pos,
                            jobs[j].job.tile,
                        )
                    }
            },
            None => forall|j: int| 0 <= j < n ==> (#[trigger] jobs[j]).job.claimed_by is Some,
        },
    decreases n,
{
    if n > 0 {
        the_nearest_job_is_taken(map, pos, jobs, (n - 1) as nat);
        assert(map.holds(jobs[n - 1].job.tile));
        ways_are_distances(map, pos, jobs[n - 1].job.tile);
        if let Some(b) = crate::sim::claims::best_job(map, pos, jobs, (n - 1) as nat) {
            assert(map.holds(jobs[b].job.tile));
            ways_are_distances(map, pos, jobs[b].job.tile);
        }
    }
}

/// An idle beaver that finds a job claims it and sets out for it, and a route
/// from the tile where it stands to the tile of the job is asked for. Nobody
/// else and no other job is touched. A beaver that is busy, or finds every job
/// claimed, changes nothing.
pub proof fn taking_a_job(board: Board, map: MapView, i: int)
    requires
        map.wf(),
        crate::sim::beavers::jobs_stand(board.jobs, map),
        0 <= i < board.beavers.len(),
    ensures
        ({
            let after = board.chosen(map, i);
            let row = board.beavers[i];
            let open = exists|j: int|
                0 <= j < board.jobs.len() && (#[trigger] board.jobs[j]).job.claimed_by is None;
            if row.beaver.state is Idle && open {
                exists|b: int|
                    {
                        &&& 0 <= b < board.jobs.len()
                        &&& (#[trigger] board.jobs[b]).job.claimed_by is None
                        &&& after.jobs[b].job.claimed_by == Some(row.id)
                        &&& after.jobs[b].id == board.jobs[b].id
                        &&& after.jobs[b].job.kind == board.jobs[b].job.kind
                        &&& after.jobs[b].job.tile == board.jobs[b].job.tile
                        &&& after.jobs[b].job.work == board.jobs[b].job.work
                        &&& after.jobs.len() == board.jobs.len()
                        &&& forall|j: int|
                            0 <= j < board.jobs.len() && j != b ==> #[trigger] after.jobs[j]
                                == board.jobs[j]
                        &&& after.beavers.len() == board.beavers.len()
                        &&& after.beavers[i].beaver.state == BeaverState::Goto(board.jobs[b].id)
                        &&& after.beavers[i].id == row.id && after.beavers[i].pos == row.pos
                        &&& after.beavers[i].beaver.hunger == row.beaver.hunger
                        &&& after.beavers[i].beaver.thirst == row.beaver.thirst
                        &&& after.beavers[i].beaver.starving == row.beaver.starving
                        &&& forall|k: int|
                            0 <= k < board.beavers.len() && k != i ==> #[trigger] after.beavers[k]
                                == board.beavers[k]
                        &&& match map.tile_under(row.pos) {
                            Some(t) => after.requests == board.requests.push(
                                RouteRequest {
                                    beaver: row.id,
                                    job: board.jobs[b].id,
                                    start: t,
                                    goal: board.jobs[b].job.tile,
                                },
                            ),
                            None => after.requests == board.requests,
                        }
                    }
            } else {
                after == board
            }
        }),
{
    let row = board.beavers[i];
    the_nearest_job_is_taken(map, row.pos, board.jobs, board.jobs.len());
    if let Some(b) = crate::sim::claims::best_job(map, row.pos, board.jobs, board.jobs.len()) {
        assert(board.jobs[b].job.claimed_by is None);
    }
}

/// Beavers choose one after another, each from what those before it have left.
pub proof fn beavers_choose_in_turn(board: Board, map: MapView, n: nat)
    ensures
        board.chosen_upto(map, 0) == board,
        board.chosen_upto(map, (n + 1) as nat) == board.chosen_upto(map, n).chosen(map, n as int),
{
}

/// A tile costs what stands on it: a finished path less than half of grass, a
/// path still being built as much as grass, and any other building cannot be
/// walked over. Where nothing is built, deep water and trees cannot be walked
/// over either, and all else is grass. Of several buildings on a tile the last
/// counts.
pub proof fn walking_costs_what_stands_there(
    map: MapView,
    rows: Seq<BuildingRow>,
    n: nat,
    t: TilePos,
)
    requires
        map.wf(),
        map.holds(t),
        n <= rows.len(),
        crate::sim::buildings::buildings_stand(rows, map),
    ensures
        ({
            let i = t.y * map.width + t.x;
            let cost = map.walk_costs(rows, n)[i];
            &&& (forall|k: int| 0 <= k < n ==> (#[trigger] rows[k]).building.tile != t) ==> cost
                == if map.water[i] > 350_000 || map.tree[i] is Some {
                0xffff_ffff
            } else {
                100int
            }
            &&& forall|k: int|
                0 <= k < n && (#[trigger] rows[k]).building.tile == t && (forall|j: int|
                    k < j < n ==> (#[trigger] rows[j]).building.tile != t) ==> cost
                    == if rows[k].building.kind != BuildingKind::Path {
                    0xffff_ffff
                } else if rows[k].construction is Some {
                    100int
                } else {
                    45
                }
        }),
    decreases n,
{
    let i = t.y * map.width + t.x;
    crate::sim::map::tiles_have_places(map.width, map.height, t.x as int, t.y as int);
    crate::sim::claims::finished_paths_are_cheapest(map, rows, n, i);
    if n > 0 {
        let m = (n - 1) as nat;
        walking_costs_what_stands_there(map, rows, m, t);
        crate::sim::claims::finished_paths_are_cheapest(map, rows, m, i);
        let u = rows[n - 1].building.tile;
        assert(map.holds(u));
        crate::sim::map::tiles_have_places(map.width, map.height, u.x as int, u.y as int);
        if u != t {
            assert(map.walk_costs(rows, n)[i] == map.walk_costs(rows, m)[i]);
        }
    }
}

/// A job stays on the board exactly as long as what it is about is there, and
/// for a planting as long as the land is bare.
pub proof fn jobs_last_as_long_as_their_cause(
    map: MapView,
    targets: Seq<u64>,
    job: crate::sim::beavers::Job,
)
    ensures
        crate::sim::beavers::job_valid(map, targets, job) <==> match job.kind {
            JobKind::Plant(t) => {
                let i = t.y * map.width + t.x;
                map.ground[i] >= 1 && map.water[i] <= 50_000 && map.building[i] is None
                    && map.tree[i] is None
            },
            JobKind::Build(e) | JobKind::Chop(e) | JobKind::Pump(e) | JobKind::Farm(e) => exists|
                k: int,
            | 0 <= k < targets.len() && #[trigger] targets[k] == e,
        },
{
}

} // verus!
