//! What work yields, told by the time it takes and by what is there afterwards.
use vstd::prelude::*;

use crate::sim::beavers::{BeaverState, Job, JobKind};
use crate::sim::map::{MapView, TilePos};
use crate::sim::trees::{Tree, TreeRow};
use crate::sim::work::{Site, WorkEvent};

verus! {

/// A pump draws from the first tile beside it that has surface water, in the
/// order in which the tiles beside a tile are given; it finds one if there is
/// any.
pub proof fn pumps_draw_beside_themselves(map: MapView, t: TilePos, n: nat)
    requires
        n <= map.beside(t).len(),
    ensures
        match map.first_wet(t, n) {
            Some(w) => exists|k: int|
                0 <= k < n && #[trigger] map.beside(t)[k] == w && map.water[w.y * map.width + w.x]
                    > 50_000 && forall|j: int|
                    0 <= j < k ==> {
                        let v = #[trigger] map.beside(t)[j];
                        map.water[v.y * map.width + v.x] <= 50_000
                    },
            None => forall|j: int|
                0 <= j < n ==> {
                    let v = #[trigger] map.beside(t)[j];
                    map.water[v.y * map.width + v.x] <= 50_000
                },
        },
    decreases n,
{
    if n > 0 {
        pumps_draw_beside_themselves(map, t, (n - 1) as nat);
        let v = map.beside(t)[n - 1];
        assert(map.wet(v) == (map.water[v.y * map.width + v.x] > 50_000));
    }
}

/// A turn at the pump gives two units of water and takes fifteen hundredths of
/// a level out of the tile that it draws from, or all that is there; no other
/// tile is touched, and nothing else. Without water beside it nothing comes.
pub proof fn what_pumping_yields(site: Site, trees: Seq<TreeRow>, job: Job, j: int)
    requires
        site.map.wf(),
        site.map.holds(job.tile),
        job.kind is Pump,
        site.stock.water <= i64::MAX - 4,
        0 <= j < site.map.size(),
    ensures
        ({
            let after = site.effect(trees, job);
            match site.map.first_wet(job.tile, site.map.beside(job.tile).len()) {
                Some(w) => {
                    let i = w.y * site.map.width + w.x;
                    &&& after.stock.water == site.stock.water + 4
                    &&& after.stock.food == site.stock.food && after.stock.logs == site.stock.logs
                    &&& j != i ==> after.map.water[j] == site.map.water[j]
                    &&& j == i && site.map.water[i] >= 150_000 ==> after.map.water[i]
                        == site.map.water[i] - 150_000
                    &&& j == i && site.map.water[i] < 150_000 ==> after.map.water[i] == 0
                    &&& after.map == (MapView { water: after.map.water, ..site.map })
                    &&& after.events == site.events && after.fresh == site.fresh
                    &&& after.jobs == site.jobs && after.beavers == site.beavers
                },
                None => after == site,
            }
        }),
{
    let n = site.map.beside(job.tile).len();
    if site.map.first_wet(job.tile, n) is Some {
        crate::sim::work::first_wet_is_wet(site.map, job.tile, n);
    }
}

/// A felled tree gives three logs and leaves its tile without a tree; one that
/// is gone already gives nothing. A harvest gives two units of food. A planted
/// tree stands on its tile, without any growth, under the last free number, if
/// the land is still bare. A finished building is told of. Nothing else changes.
pub proof fn what_work_yields(site: Site, trees: Seq<TreeRow>, job: Job)
    requires
        site.map.wf(),
        crate::sim::trees::trees_stand(trees, site.map),
        site.fresh.len() > 0,
        job.kind matches JobKind::Plant(t) ==> site.map.holds(t),
        site.stock.logs <= i64::MAX - 6,
        site.stock.food <= i64::MAX - 4,
    ensures
        ({
            let after = site.effect(trees, job);
            let at = |t: TilePos| t.y * site.map.width + t.x;
            match job.kind {
                JobKind::Build(b) => after == (Site {
                    events: site.events.push(WorkEvent::Built(b)),
                    ..site
                }),
                JobKind::Farm(_) => {
                    &&& after.stock.food == site.stock.food + 4
                    &&& after.stock.water == site.stock.water
                    &&& after.stock.logs == site.stock.logs
                    &&& after == (Site { stock: after.stock, ..site })
                },
                JobKind::Chop(e) => match crate::sim::production::tree_of(trees, e) {
                    Some(tree) => if site.map.tree[at(tree.tile)] is Some {
                        &&& after.stock.logs == site.stock.logs + 6
                        &&& after.stock.water == site.stock.water
                        &&& after.stock.food == site.stock.food
                        &&& after.map.tree[at(tree.tile)] is None
                        &&& forall|j: int|
                            0 <= j < site.map.size() && j != at(tree.tile)
                                ==> #[trigger] after.map.tree[j] == site.map.tree[j]
                        &&& after.map == (MapView { tree: after.map.tree, ..site.map })
                        &&& after == (Site {
                            map: after.map,
                            stock: after.stock,
                            events: site.events.push(WorkEvent::Felled(e)),
                            ..site
                        })
                    } else {
                        after == site
                    },
                    None => after == site,
                },
                JobKind::Plant(t) => {
                    let i = at(t);
                    let bare = site.map.ground[i] >= 1 && site.map.water[i] <= 50_000
                        && site.map.building[i] is None && site.map.tree[i] is None;
                    if bare {
                        let id = site.fresh[site.fresh.len() - 1];
                        &&& after.map.tree[i] == Some(id)
                        &&& forall|j: int|
                            0 <= j < site.map.size() && j != i ==> #[trigger] after.map.tree[j]
                                == site.map.tree[j]
                        &&& after.map == (MapView { tree: after.map.tree, ..site.map })
                        &&& after.fresh == site.fresh.drop_last()
                        &&& after.stock == site.stock
                        &&& after.events == site.events.push(
                            WorkEvent::Planted(TreeRow { id, tree: Tree { tile: t, growth: 0 } }),
                        )
                        &&& after.jobs == site.jobs && after.beavers == site.beavers
                    } else {
                        after == site
                    }
                },
                JobKind::Pump(_) => true,
            }
        }),
{
    match job.kind {
        JobKind::Chop(e) => {
            if crate::sim::production::tree_of(trees, e) is Some {
                crate::sim::work::tree_stands(trees, e, site.map);
                let t = (crate::sim::production::tree_of(trees, e)->0).tile;
                crate::sim::map::tiles_have_places(
                    site.map.width,
                    site.map.height,
                    t.x as int,
                    t.y as int,
                );
            }
        },
        JobKind::Plant(t) => {
            crate::sim::map::tiles_have_places(
                site.map.width,
                site.map.height,
                t.x as int,
                t.y as int,
            );
        },
        _ => {},
    }
}

/// A beaver at work takes the time that passes off its job; work on a building
/// is told of. Once no work is left the job has its effect and is told to be
/// done, and the beaver is idle, as it is where its job is gone. A beaver that
/// is not at work does nothing.
pub proof fn a_moment_of_work(site: Site, trees: Seq<TreeRow>, i: int, dt: u32)
    requires
        0 <= i < site.beavers.len(),
    ensures
        ({
            let after = site.worked(trees, i, dt);
            let row = site.beavers[i];
            match row.beaver.state {
                BeaverState::Work(id) => match crate::sim::walking::job_row(site.jobs, id) {
                    None => {
                        &&& after.beavers[i].beaver.state is Idle
                        &&& after.beavers[i].pos == row.pos
                        &&& after == (Site { beavers: after.beavers, ..site })
                    },
                    Some(j) => {
                        let job = site.jobs[j].job;
                        let builds = job.kind is Build;
                        &&& after.jobs.len() == site.jobs.len()
                        &&& after.jobs[j].id == site.jobs[j].id
                        &&& after.jobs[j].job.kind == job.kind
                        &&& after.jobs[j].job.tile == job.tile
                        &&& after.jobs[j].job.claimed_by == job.claimed_by
                        &&& after.jobs[j].job.work + dt == job.work || (after.jobs[j].job.work == 0
                            && job.work <= dt)
                        &&& forall|k: int|
                            0 <= k < site.jobs.len() && k != j ==> #[trigger] after.jobs[k]
                                == site.jobs[k]
                        &&& if job.work > dt {
                            &&& after.beavers == site.beavers && after.map == site.map
                            &&& after.stock == site.stock && after.fresh == site.fresh
                            &&& builds ==> after.events == site.events.push(
                                WorkEvent::Progress(job.kind->Build_0, dt),
                            )
                            &&& !builds ==> after.events == site.events
                        } else {
                            let told = if builds {
                                site.events.push(WorkEvent::Progress(job.kind->Build_0, dt))
                            } else {
                                site.events
                            };
                            let on = Site { jobs: after.jobs, events: told, ..site };
                            let out = on.effect(trees, job);
                            &&& after.map == out.map && after.stock == out.stock
                            &&& after.fresh == out.fresh
                            &&& after.events == out.events.push(WorkEvent::Done(id))
                            &&& after.beavers[i].beaver.state is Idle
                        }
                    },
                },
                _ => after == site,
            }
        }),
        ({
            let after = site.worked(trees, i, dt);
            let row = site.beavers[i];
            &&& after.beavers.len() == site.beavers.len()
            &&& after.beavers[i].id == row.id && after.beavers[i].pos == row.pos
            &&& after.beavers[i].beaver.hunger == row.beaver.hunger
            &&& after.beavers[i].beaver.thirst == row.beaver.thirst
            &&& after.beavers[i].beaver.starving == row.beaver.starving
            &&& forall|k: int|
                0 <= k < site.beavers.len() && k != i ==> #[trigger] after.beavers[k]
                    == site.beavers[k]
        }),
{
    if let BeaverState::Work(id) = site.beavers[i].beaver.state {
        crate::sim::walking::jobs_have_places(site.jobs, id);
    }
}

/// Beavers work one after another, each on what those before it have left.
pub proof fn beavers_work_in_turn(site: Site, trees: Seq<TreeRow>, dt: u32, n: nat)
    ensures
        site.worked_upto(trees, dt, 0) == site,
        site.worked_upto(trees, dt, (n + 1) as nat) == site.worked_upto(trees, dt, n).worked(
            trees,
            n as int,
            dt,
        ),
{
}

} // verus!
