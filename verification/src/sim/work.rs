//! Work: what beavers at work get done, and what comes of finished jobs.
use vstd::prelude::*;

use crate::sim::beavers::{Beaver, BeaverRow, BeaverState, Job, JobKind, JobRow};
use crate::sim::map::{MapView, TileMap, TilePos};
use crate::sim::production::find_tree;
use crate::sim::stock::{add_to, Stockpile};
use crate::sim::trees::{spawn_tree, Tree, TreeRow};
use crate::sim::walking::find_job;

verus! {

/// Logs that a tree gives, in halves of a log.
pub const TREE_LOGS: i64 = 6;

/// Water that one turn at the pump gives, in halves of a unit.
pub const PUMP_WATER: i64 = 4;

/// What one turn at the pump takes out of the world, in millionths of a level.
pub const PUMP_DEPTH: u64 = 150_000;

/// Food that one harvest gives, in halves of a unit.
pub const HARVEST_FOOD: i64 = 4;

/// What is to be done in the world about the work of a moment.
#[derive(Clone, Copy, PartialEq, Eq, Structural, Debug)]
pub enum WorkEvent {
    /// So much work was done on a building.
    Progress(u64, u32),
    /// The building is finished.
    Built(u64),
    /// The tree is felled.
    Felled(u64),
    /// A tree was planted.
    Planted(TreeRow),
    /// The job is done.
    Done(u64),
}

/// The colony at work.
#[verifier::ext_equal]
pub ghost struct Site {
    pub map: MapView,
    pub stock: Stockpile,
    pub beavers: Seq<BeaverRow>,
    pub jobs: Seq<JobRow>,
    /// Numbers for new trees; they are taken from the end.
    pub fresh: Seq<u64>,
    pub events: Seq<WorkEvent>,
}

impl MapView {
    /// The first tile beside this one with surface water, of the first `n`.
    pub open spec fn first_wet(self, t: TilePos, n: nat) -> Option<TilePos>
        decreases n,
    {
        if n == 0 {
            None
        } else {
            match self.first_wet(t, (n - 1) as nat) {
                Some(w) => Some(w),
                None => if self.wet(self.beside(t)[n - 1]) {
                    Some(self.beside(t)[n - 1])
                } else {
                    None
                },
            }
        }
    }

    /// The map after a turn at the pump that draws from tile `w`.
    pub open spec fn pumped(self, w: TilePos) -> MapView {
        let i = self.at(w);
        MapView {
            water: self.water.update(
                i,
                if self.water[i] > PUMP_DEPTH {
                    (self.water[i] - PUMP_DEPTH) as u64
                } else {
                    0
                },
            ),
            ..self
        }
    }
}

impl Site {
    /// The site once the work of a finished job has had its effect.
    pub open spec fn effect(self, trees: Seq<TreeRow>, job: Job) -> Site {
        match job.kind {
            JobKind::Build(b) => Site { events: self.events.push(WorkEvent::Built(b)), ..self },
            JobKind::Chop(t) => match crate::sim::production::tree_of(trees, t) {
                Some(tree) => if self.map.tree[self.map.at(tree.tile)] is Some {
                    Site {
                        map: MapView {
                            tree: self.map.tree.update(self.map.at(tree.tile), None),
                            ..self.map
                        },
                        stock: Stockpile {
                            logs: crate::sim::stock::plus(self.stock.logs, TREE_LOGS as int),
                            ..self.stock
                        },
                        events: self.events.push(WorkEvent::Felled(t)),
                        ..self
                    }
                } else {
                    self
                },
                None => self,
            },
            JobKind::Pump(_) => match self.map.first_wet(
                job.tile,
                self.map.beside(job.tile).len(),
            ) {
                Some(w) => Site {
                    map: self.map.pumped(w),
                    stock: Stockpile {
                        water: crate::sim::stock::plus(self.stock.water, PUMP_WATER as int),
                        ..self.stock
                    },
                    ..self
                },
                None => self,
            },
            JobKind::Farm(_) => Site {
                stock: Stockpile {
                    food: crate::sim::stock::plus(self.stock.food, HARVEST_FOOD as int),
                    ..self.stock
                },
                ..self
            },
            JobKind::Plant(tile) => if self.map.free_land(tile) {
                let id = self.fresh.last();
                Site {
                    map: MapView {
                        tree: self.map.tree.update(self.map.at(tile), Some(id)),
                        ..self.map
                    },
                    fresh: self.fresh.drop_last(),
                    events: self.events.push(
                        WorkEvent::Planted(TreeRow { id, tree: Tree { tile, growth: 0 } }),
                    ),
                    ..self
                }
            } else {
                self
            },
        }
    }

    /// The site once the `i`th beaver has worked for `dt`.
    pub open spec fn worked(self, trees: Seq<TreeRow>, i: int, dt: u32) -> Site {
        let row = self.beavers[i];
        let idle = BeaverRow { beaver: Beaver { state: BeaverState::Idle, ..row.beaver }, ..row };
        match row.beaver.state {
            BeaverState::Work(id) => match crate::sim::walking::job_row(self.jobs, id) {
                None => Site { beavers: self.beavers.update(i, idle), ..self },
                Some(j) => {
                    let job = self.jobs[j].job;
                    let done = job.work <= dt;
                    let left = Job {
                        work: if done {
                            0
                        } else {
                            (job.work - dt) as u64
                        },
                        ..job
                    };
                    let on = Site {
                        jobs: self.jobs.update(j, JobRow { job: left, ..self.jobs[j] }),
                        events: match job.kind {
                            JobKind::Build(b) => self.events.push(WorkEvent::Progress(b, dt)),
                            _ => self.events,
                        },
                        ..self
                    };
                    if done {
                        let after = on.effect(trees, job);
                        Site {
                            beavers: after.beavers.update(i, idle),
                            events: after.events.push(WorkEvent::Done(id)),
                            ..after
                        }
                    } else {
                        on
                    }
                },
            },
            _ => self,
        }
    }

    /// The site once the first `n` beavers have worked for `dt`.
    pub open spec fn worked_upto(self, trees: Seq<TreeRow>, dt: u32, n: nat) -> Site
        decreases n,
    {
        if n == 0 {
            self
        } else {
            self.worked_upto(trees, dt, (n - 1) as nat).worked(trees, n - 1, dt)
        }
    }
}

/// Every tree that was planted stands on the map.
pub open spec fn plantings_stand(events: Seq<WorkEvent>, map: MapView) -> bool {
    forall|i: int|
        0 <= i < events.len() ==> ((#[trigger] events[i]) matches WorkEvent::Planted(row)
            ==> map.holds(row.tree.tile))
}

fn find_wet(map: &TileMap, t: TilePos) -> (r: Option<TilePos>)
    requires
        map.wf(),
        map@.holds(t),
    ensures
        r == map@.first_wet(t, map@.beside(t).len()),
        r matches Some(w) ==> map@.holds(w),
{
    let ns = map.neighbors4(t.x, t.y);
    let mut i: usize = 0;
    while i < ns.len()
        invariant
            map.wf(),
            i <= ns@.len(),
            ns@ == map@.beside(t),
            forall|k: int| 0 <= k < ns@.len() ==> map@.holds(#[trigger] ns@[k]),
            map@.first_wet(t, i as nat) is None,
        decreases ns@.len() - i,
    {
        let n = ns[i];
        assert(map@.holds(ns@[i as int]));
        if map.has_water(n.x, n.y) {
            proof {
                assert(map@.first_wet(t, (i + 1) as nat) == Some(n));
                first_wet_stays(map@, t, (i + 1) as nat, map@.beside(t).len());
            }
            return Some(n);
        }
        i += 1;
    }
    None
}

proof fn first_wet_stays(map: MapView, t: TilePos, m: nat, n: nat)
    requires
        m <= n,
        map.first_wet(t, m) is Some,
    ensures
        map.first_wet(t, n) == map.first_wet(t, m),
    decreases n,
{
    if m < n {
        first_wet_stays(map, t, m, (n - 1) as nat);
    }
}

/// Give a finished job its effect.
fn apply_effect(
    map: &mut TileMap,
    stockpile: &mut Stockpile,
    trees: &Vec<TreeRow>,
    fresh: &mut Vec<u64>,
    events: &mut Vec<WorkEvent>,
    job: Job,
    Ghost(site): Ghost<Site>,
)
    requires
        old(map).wf(),
        crate::sim::trees::trees_stand(trees@, old(map)@),
        old(map)@.holds(job.tile),
        job.kind matches JobKind::Plant(t) ==> old(map)@.holds(t),
        old(fresh)@.len() > 0,
        site.map == old(map)@,
        site.stock == *old(stockpile),
        site.fresh == old(fresh)@,
        site.events == old(events)@,
    ensures
        final(map).wf(),
        final(map)@.width == old(map)@.width,
        final(map)@.height == old(map)@.height,
        ({
            let after = site.effect(trees@, job);
            &&& final(map)@ == after.map
            &&& *final(stockpile) == after.stock
            &&& final(fresh)@ == after.fresh
            &&& final(events)@ == after.events
        }),
        final(fresh)@.len() >= old(fresh)@.len() - 1,
        plantings_stand(old(events)@, old(map)@) ==> plantings_stand(final(events)@, final(map)@),
{
    let ghost before = map@;
    match job.kind {
        JobKind::Build(b) => {
            events.push(WorkEvent::Built(b));
        },
        JobKind::Chop(t) => {
            if let Some(tree) = find_tree(trees, t) {
                proof {
                    tree_stands(trees@, t, before);
                }
                let i: usize = map.idx(tree.tile.x, tree.tile.y);
                if map.tree[i].is_some() {
                    map.tree.set(i, None);
                    stockpile.logs = add_to(stockpile.logs, TREE_LOGS);
                    events.push(WorkEvent::Felled(t));
                    proof {
                        assert(map@ =~= (MapView {
                            tree: before.tree.update(i as int, None),
                            ..before
                        }));
                    }
                }
            }
        },
        JobKind::Pump(_) => {
            if let Some(w) = find_wet(map, job.tile) {
                let i: usize = map.idx(w.x, w.y);
                let depth: u64 = map.water[i];
                map.water.set(
                    i,
                    if depth > PUMP_DEPTH {
                        depth - PUMP_DEPTH
                    } else {
                        0
                    },
                );
                stockpile.water = add_to(stockpile.water, PUMP_WATER);
                proof {
                    assert(map@ =~= before.pumped(w));
                    assert forall|k: int| 0 <= k < map@.size() implies map@.ground[k]
                        * crate::sim::map::MICRO + (#[trigger] map@.water[k])
                        <= crate::sim::map::CEILING by {
                        assert(before.ground[k] * crate::sim::map::MICRO + before.water[k]
                            <= crate::sim::map::CEILING);
                        assert(-1000 <= before.ground[k] <= 1000);
                    }
                }
            }
        },
        JobKind::Farm(_) => {
            stockpile.food = add_to(stockpile.food, HARVEST_FOOD);
        },
        JobKind::Plant(tile) => {
            if map.is_free_land(tile.x, tile.y) {
                if let Some(id) = fresh.pop() {
                    let row = spawn_tree(map, tile, 0, id);
                    events.push(WorkEvent::Planted(row));
                    proof {
                        assert(fresh@ =~= site.fresh.drop_last());
                    }
                }
            }
        },
    }
}

/// The tree of an entity stands where its row says.
pub(crate) proof fn tree_stands(trees: Seq<TreeRow>, id: u64, map: MapView)
    requires
        crate::sim::trees::trees_stand(trees, map),
        crate::sim::production::tree_of(trees, id) is Some,
    ensures
        map.holds((crate::sim::production::tree_of(trees, id)->0).tile),
    decreases trees.len(),
{
    let prior = trees.drop_last();
    assert forall|i: int| 0 <= i < prior.len() implies map.holds(
        (#[trigger] prior[i]).tree.tile,
    ) by {
        assert(map.holds(trees[i].tree.tile));
    }
    if crate::sim::production::tree_of(prior, id) is Some {
        tree_stands(prior, id, map);
    } else {
        assert(map.holds(trees[trees.len() - 1].tree.tile));
    }
}

/// Let the beavers at work go on for `dt`. A job without work left has its
/// effect and is done, and its beaver is idle again. Numbers for planted trees
/// are taken from `fresh`. Jobs that are done are still in the list; the events
/// name them.
pub fn work_jobs(
    map: &mut TileMap,
    stockpile: &mut Stockpile,
    beavers: &mut Vec<BeaverRow>,
    jobs: &mut Vec<JobRow>,
    trees: &Vec<TreeRow>,
    fresh: &mut Vec<u64>,
    dt: u32,
) -> (events: Vec<WorkEvent>)
    requires
        old(map).wf(),
        crate::sim::trees::trees_stand(trees@, old(map)@),
        crate::sim::beavers::jobs_stand(old(jobs)@, old(map)@),
        old(fresh)@.len() >= old(beavers)@.len(),
    ensures
        final(map).wf(),
        ({
            let start = Site {
                map: old(map)@,
                stock: *old(stockpile),
                beavers: old(beavers)@,
                jobs: old(jobs)@,
                fresh: old(fresh)@,
                events: Seq::empty(),
            };
            let end = start.worked_upto(trees@, dt, old(beavers)@.len());
            &&& final(map)@ == end.map
            &&& *final(stockpile) == end.stock
            &&& final(beavers)@ == end.beavers
            &&& final(jobs)@ == end.jobs
            &&& final(fresh)@ == end.fresh
            &&& events@ == end.events
        }),
        final(map)@.width == old(map)@.width,
        final(map)@.height == old(map)@.height,
        crate::sim::beavers::jobs_stand(final(jobs)@, final(map)@),
        plantings_stand(events@, final(map)@),
{
    let ghost start = Site {
        map: map@,
        stock: *stockpile,
        beavers: beavers@,
        jobs: jobs@,
        fresh: fresh@,
        events: Seq::empty(),
    };
    let mut events: Vec<WorkEvent> = Vec::new();
    let n: usize = beavers.len();
    let mut i: usize = 0;
    while i < n
        invariant
            map.wf(),
            map@.width == start.map.width,
            map@.height == start.map.height,
            crate::sim::trees::trees_stand(trees@, map@),
            crate::sim::beavers::jobs_stand(jobs@, map@),
            plantings_stand(events@, map@),
            i <= n,
            n == beavers@.len(),
            n == start.beavers.len(),
            fresh@.len() >= n - i,
            (Site {
                map: map@,
                stock: *stockpile,
                beavers: beavers@,
                jobs: jobs@,
                fresh: fresh@,
                events: events@,
            }) == start.worked_upto(trees@, dt, i as nat),
        decreases n - i,
    {
        let ghost now = Site {
            map: map@,
            stock: *stockpile,
            beavers: beavers@,
            jobs: jobs@,
            fresh: fresh@,
            events: events@,
        };
        let mut row: BeaverRow = beavers[i];
        if let BeaverState::Work(id) = row.beaver.state {
            match find_job(jobs, id) {
                None => {
                    row.beaver.state = BeaverState::Idle;
                    beavers.set(i, row);
                },
                Some(j) => {
                    let mut job: JobRow = jobs[j];
                    let given: Job = job.job;
                    assert(map@.holds(jobs@[j as int].job.tile));
                    let done = given.work <= dt as u64;
                    job.job.work = if done {
                        0
                    } else {
                        given.work - dt as u64
                    };
                    jobs.set(j, job);
                    if let JobKind::Build(b) = given.kind {
                        events.push(WorkEvent::Progress(b, dt));
                    }
                    if done {
                        let ghost on = Site {
                            map: map@,
                            stock: *stockpile,
                            beavers: beavers@,
                            jobs: jobs@,
                            fresh: fresh@,
                            events: events@,
                        };
                        apply_effect(
                            map,
                            stockpile,
                            trees,
                            fresh,
                            &mut events,
                            given,
                            Ghost(on),
                        );
                        events.push(WorkEvent::Done(id));
                        row.beaver.state = BeaverState::Idle;
                        beavers.set(i, row);
                    }
                },
            }
        }
        proof {
            let next = now.worked(trees@, i as int, dt);
            assert((Site {
                map: map@,
                stock: *stockpile,
                beavers: beavers@,
                jobs: jobs@,
                fresh: fresh@,
                events: events@,
            }) =~= next);
            assert forall|k: int| 0 <= k < jobs@.len() implies {
                let job = (#[trigger] jobs@[k]).job;
                map@.holds(job.tile) && (job.kind matches JobKind::Plant(t) ==> map@.holds(t))
            } by {
                let was = now.jobs[k].job;
                assert(now.map.holds(was.tile));
            }
            assert forall|k: int| 0 <= k < trees@.len() implies map@.holds(
                (#[trigger] trees@[k]).tree.tile,
            ) by {
                assert(now.map.holds(trees@[k].tree.tile));
            }
        }
        i += 1;
    }
    events
}

/// A tree pays once: when two finish chopping the same tree, the second finds
/// its tile empty and gets nothing.
pub proof fn a_tree_pays_once(site: Site, trees: Seq<TreeRow>, a: Job, b: Job, t: u64)
    requires
        site.map.wf(),
        crate::sim::trees::trees_stand(trees, site.map),
        a.kind == JobKind::Chop(t),
        b.kind == JobKind::Chop(t),
    ensures
        site.effect(trees, a).effect(trees, b) == site.effect(trees, a),
{
    if crate::sim::production::tree_of(trees, t) is Some {
        tree_stands(trees, t, site.map);
        let tile = (crate::sim::production::tree_of(trees, t)->0).tile;
        crate::sim::map::tiles_have_places(
            site.map.width,
            site.map.height,
            tile.x as int,
            tile.y as int,
        );
    }
}

/// Water that is pumped comes out of the world: a turn at the pump lowers the
/// tile it draws from, and a pump without water beside it gives nothing.
pub proof fn pumping_draws_water(site: Site, trees: Seq<TreeRow>, job: Job)
    requires
        site.map.wf(),
        site.map.holds(job.tile),
        job.kind is Pump,
    ensures
        ({
            let after = site.effect(trees, job);
            let n = site.map.beside(job.tile).len();
            match site.map.first_wet(job.tile, n) {
                Some(w) => {
                    &&& after.map.water[site.map.at(w)] < site.map.water[site.map.at(w)]
                    &&& after.stock.water == crate::sim::stock::plus(
                        site.stock.water,
                        PUMP_WATER as int,
                    )
                },
                None => after == site,
            }
        }),
{
    let n = site.map.beside(job.tile).len();
    if site.map.first_wet(job.tile, n) is Some {
        first_wet_is_wet(site.map, job.tile, n);
    }
}

/// The first wet tile is wet, and on the map.
pub(crate) proof fn first_wet_is_wet(map: MapView, t: TilePos, n: nat)
    requires
        map.wf(),
        map.holds(t),
        n <= map.beside(t).len(),
        map.first_wet(t, n) is Some,
    ensures
        map.wet(map.first_wet(t, n)->0),
        map.holds(map.first_wet(t, n)->0),
        0 <= map.at(map.first_wet(t, n)->0) < map.size(),
    decreases n,
{
    if map.first_wet(t, (n - 1) as nat) is Some {
        first_wet_is_wet(map, t, (n - 1) as nat);
    } else {
        let w = map.beside(t)[n - 1];
        assert(map.holds(w));
        crate::sim::map::tiles_have_places(map.width, map.height, w.x as int, w.y as int);
    }
}

} // verus!
