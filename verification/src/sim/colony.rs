//! A colony: all that stands and lives on a map, and what a moment does to it.
//! Every operation leaves what is on the map on the map, keeps the living within
//! what a beaver can feel, and overdraws no store.
use vstd::prelude::*;

use crate::sim::beavers::{
    needs, spawn_beaver, validate_jobs, Beaver, BeaverRow, BeaverState, ComputedPath, JobKind, JobRow,
    NeedEvent, Needs, STARVE_LIMIT,
};
use crate::sim::buildings::{BuildingRow, UnderConstruction};
use crate::sim::claims::{claim_jobs, Board, RouteRequest};
use crate::sim::map::{MapView, Pos, TileMap};
use crate::sim::production::{lodge_spawning, post_production_jobs, update_population};
use crate::sim::season::Population;
use crate::sim::stock::Stockpile;
use crate::sim::trees::{grow_trees, spawn_tree, Tree, TreeRow};
use crate::sim::walking::move_beavers;
use crate::sim::work::{work_jobs, Site, WorkEvent};

verus! {

/// Buildings, trees, beavers with their routes beside them, and the jobs on the
/// board.
pub struct Colony {
    pub buildings: Vec<BuildingRow>,
    pub trees: Vec<TreeRow>,
    pub beavers: Vec<BeaverRow>,
    pub routes: Vec<Option<ComputedPath>>,
    pub jobs: Vec<JobRow>,
}

#[verifier::ext_equal]
pub ghost struct ColonyView {
    pub buildings: Seq<BuildingRow>,
    pub trees: Seq<TreeRow>,
    pub beavers: Seq<BeaverRow>,
    pub routes: Seq<Option<ComputedPath>>,
    pub jobs: Seq<JobRow>,
}

impl View for Colony {
    type V = ColonyView;

    open spec fn view(&self) -> ColonyView {
        ColonyView {
            buildings: self.buildings@,
            trees: self.trees@,
            beavers: self.beavers@,
            routes: self.routes@,
            jobs: self.jobs@,
        }
    }
}

/// Every beaver is where it can walk.
pub open spec fn all_walkable(rows: Seq<BeaverRow>) -> bool {
    forall|i: int| 0 <= i < rows.len() ==> (#[trigger] rows[i]).pos.walkable()
}

impl ColonyView {
    /// All that stands is on the map, jobs and routes lead over it, every beaver
    /// lives, and each has a place for its route.
    pub open spec fn wf(self, map: MapView) -> bool {
        &&& crate::sim::buildings::buildings_stand(self.buildings, map)
        &&& crate::sim::trees::trees_stand(self.trees, map)
        &&& crate::sim::beavers::jobs_stand(self.jobs, map)
        &&& self.routes.len() == self.beavers.len()
        &&& crate::sim::walking::routes_stand(self.routes, map)
        &&& crate::sim::beavers::all_alive(self.beavers)
        &&& all_walkable(self.beavers)
    }

    pub open spec fn empty() -> ColonyView {
        ColonyView {
            buildings: Seq::empty(),
            trees: Seq::empty(),
            beavers: Seq::empty(),
            routes: Seq::empty(),
            jobs: Seq::empty(),
        }
    }

    /// The numbers of the jobs on the board.
    pub open spec fn job_ids(self) -> Seq<u64> {
        self.jobs.map_values(|r: JobRow| r.id)
    }

    /// The numbers of what jobs can be about: buildings and trees.
    pub open spec fn targets(self) -> Seq<u64> {
        self.buildings.map_values(|r: BuildingRow| r.id) + self.trees.map_values(
            |r: TreeRow| r.id,
        )
    }
}

impl ColonyView {
    /// The numbers of all that lives and stands: trees, buildings and beavers.
    pub open spec fn residents(self) -> Seq<u64> {
        self.trees.map_values(|r: TreeRow| r.id) + self.buildings.map_values(
            |r: BuildingRow| r.id,
        ) + self.beavers.map_values(|r: BeaverRow| r.id)
    }
}

impl Colony {
    pub open spec fn wf(&self, map: &TileMap) -> bool {
        self@.wf(map@)
    }

    /// End the colony. Gives back the numbers of all that lived and stood.
    pub fn disband(&mut self) -> (gone: Vec<u64>)
        ensures
            final(self)@ == ColonyView::empty(),
            gone@ == old(self)@.residents(),
    {
        let mut gone: Vec<u64> = Vec::new();
        let mut i: usize = 0;
        while i < self.trees.len()
            invariant
                i <= self.trees@.len(),
                gone@ =~= self@.trees.take(i as int).map_values(|r: TreeRow| r.id),
            decreases self.trees@.len() - i,
        {
            gone.push(self.trees[i].id);
            i += 1;
        }
        let ghost trees = self@.trees.map_values(|r: TreeRow| r.id);
        assert(self@.trees.take(i as int) =~= self@.trees);
        i = 0;
        while i < self.buildings.len()
            invariant
                i <= self.buildings@.len(),
                gone@ =~= trees + self@.buildings.take(i as int).map_values(
                    |r: BuildingRow| r.id,
                ),
            decreases self.buildings@.len() - i,
        {
            gone.push(self.buildings[i].id);
            i += 1;
        }
        let ghost before = trees + self@.buildings.map_values(|r: BuildingRow| r.id);
        assert(self@.buildings.take(i as int) =~= self@.buildings);
        i = 0;
        while i < self.beavers.len()
            invariant
                i <= self.beavers@.len(),
                gone@ =~= before + self@.beavers.take(i as int).map_values(|r: BeaverRow| r.id),
            decreases self.beavers@.len() - i,
        {
            gone.push(self.beavers[i].id);
            i += 1;
        }
        assert(self@.beavers.take(i as int) =~= self@.beavers);
        assert(gone@ =~= old(self)@.residents());
        *self = Colony::new();
        gone
    }

    pub fn new() -> (r: Colony)
        ensures
            r@ == ColonyView::empty(),
            forall|map: MapView| #[trigger] r@.wf(map),
    {
        Colony {
            buildings: Vec::new(),
            trees: Vec::new(),
            beavers: Vec::new(),
            routes: Vec::new(),
            jobs: Vec::new(),
        }
    }

    /// A tree joins the colony, on its tile.
    pub fn plant(&mut self, map: &mut TileMap, tree: Tree, id: u64)
        requires
            old(map).wf(),
            old(self).wf(old(map)),
            old(map)@.holds(tree.tile),
        ensures
            final(map).wf(),
            final(self).wf(final(map)),
            final(map)@ == (MapView {
                tree: old(map)@.tree.update(old(map)@.at(tree.tile), Some(id)),
                ..old(map)@
            }),
            final(self)@ == (ColonyView {
                trees: old(self)@.trees.push(TreeRow { id, tree }),
                ..old(self)@
            }),
    {
        let ghost before = self@;
        let ghost ground = map@;
        let row = spawn_tree(map, tree.tile, tree.growth, id);
        self.trees.push(row);
        proof {
            wf_goes_by_extent(before, ground, map@);
            assert(self@ =~= (ColonyView { trees: before.trees.push(row), ..before }));
        }
    }

    /// A beaver joins the colony.
    pub fn welcome(&mut self, map: &TileMap, pos: Pos, id: u64)
        requires
            old(self).wf(map),
            pos.walkable(),
        ensures
            final(self).wf(map),
            final(self)@ == (ColonyView {
                beavers: old(self)@.beavers.push(
                    BeaverRow {
                        id,
                        beaver: Beaver { state: BeaverState::Idle, hunger: 0, thirst: 0, starving: 0 },
                        pos,
                    },
                ),
                routes: old(self)@.routes.push(None),
                ..old(self)@
            }),
    {
        self.beavers.push(spawn_beaver(id, pos));
        self.routes.push(None);
    }

    /// A building that was placed joins the colony, with the job of building it.
    pub fn settle(&mut self, map: &TileMap, row: BuildingRow, job: JobRow)
        requires
            old(self).wf(map),
            map@.holds(row.building.tile),
            map@.holds(job.job.tile),
            job.job.kind is Build,
        ensures
            final(self).wf(map),
            final(self)@ == (ColonyView {
                buildings: old(self)@.buildings.push(row),
                jobs: old(self)@.jobs.push(job),
                ..old(self)@
            }),
    {
        self.buildings.push(row);
        self.jobs.push(job);
    }

    /// A building that was taken down leaves the colony. Its jobs leave with the
    /// next look at the board.
    pub fn raze(&mut self, map: &TileMap, id: u64)
        requires
            old(self).wf(map),
        ensures
            final(self).wf(map),
            final(self)@ == (ColonyView {
                buildings: old(self)@.buildings.filter(|r: BuildingRow| r.id != id),
                ..old(self)@
            }),
    {
        let ghost before = self@;
        let ghost pred = |r: BuildingRow| r.id != id;
        let mut kept: Vec<BuildingRow> = Vec::new();
        let mut i: usize = 0;
        proof {
            reveal(Seq::filter);
            assert(before.buildings.take(0) =~= Seq::<BuildingRow>::empty());
        }
        while i < self.buildings.len()
            invariant
                i <= self.buildings@.len(),
                self.buildings@ == before.buildings,
                pred == (|r: BuildingRow| r.id != id),
                kept@ == before.buildings.take(i as int).filter(pred),
                crate::sim::buildings::buildings_stand(before.buildings, map@),
                crate::sim::buildings::buildings_stand(kept@, map@),
            decreases self.buildings@.len() - i,
        {
            proof {
                reveal(Seq::filter);
                assert(before.buildings.take(i + 1).drop_last() =~= before.buildings.take(
                    i as int,
                ));
                assert(map@.holds(before.buildings[i as int].building.tile));
            }
            if self.buildings[i].id != id {
                kept.push(self.buildings[i]);
            }
            i += 1;
        }
        proof {
            assert(before.buildings.take(i as int) =~= before.buildings);
        }
        self.buildings = kept;
    }

    /// Let the trees grow for `dt`.
    pub fn grow(&mut self, map: &TileMap, dt: u32)
        requires
            map.wf(),
            old(self).wf(map),
        ensures
            final(self).wf(map),
            final(self)@ == (ColonyView {
                trees: old(self)@.trees.map_values(
                    |r: TreeRow|
                        TreeRow {
                            tree: r.tree.grown(map@.irrigated[map@.at(r.tree.tile)], dt),
                            ..r
                        },
                ),
                ..old(self)@
            }),
    {
        grow_trees(map, &mut self.trees, dt);
    }
}

/// The same beaver in the same place, though it may be doing something else.
pub open spec fn same_body(a: BeaverRow, b: BeaverRow) -> bool {
    a == (BeaverRow { beaver: Beaver { state: a.beaver.state, ..b.beaver }, ..b })
}

/// Choosing jobs moves no beaver and feeds none.
proof fn choosing_keeps_bodies(board: Board, map: MapView, n: nat)
    requires
        n <= board.beavers.len(),
    ensures
        board.chosen_upto(map, n).beavers.len() == board.beavers.len(),
        forall|i: int|
            0 <= i < board.beavers.len() ==> same_body(
                #[trigger] board.chosen_upto(map, n).beavers[i],
                board.beavers[i],
            ),
    decreases n,
{
    if n > 0 {
        choosing_keeps_bodies(board, map, (n - 1) as nat);
        let prior = board.chosen_upto(map, (n - 1) as nat);
        assert forall|i: int| 0 <= i < board.beavers.len() implies same_body(
            #[trigger] board.chosen_upto(map, n).beavers[i],
            board.beavers[i],
        ) by {
            assert(same_body(prior.beavers[i], board.beavers[i]));
            assert(same_body(prior.chosen(map, n - 1).beavers[i], prior.beavers[i]));
        }
    }
}

/// The place of a beaver: that of its first row.
pub open spec fn beaver_row(rows: Seq<BeaverRow>, id: u64) -> Option<int>
    decreases rows.len(),
{
    if rows.len() == 0 {
        None
    } else {
        match beaver_row(rows.drop_last(), id) {
            Some(i) => Some(i),
            None => if rows.last().id == id {
                Some(rows.len() - 1)
            } else {
                None
            },
        }
    }
}

proof fn beaver_row_prefix(rows: Seq<BeaverRow>, id: u64, n: int)
    requires
        0 <= n <= rows.len(),
        beaver_row(rows.take(n), id) is Some,
    ensures
        beaver_row(rows, id) == beaver_row(rows.take(n), id),
    decreases rows.len() - n,
{
    if n < rows.len() {
        assert(rows.take(n + 1).drop_last() =~= rows.take(n));
        beaver_row_prefix(rows, id, n + 1);
    } else {
        assert(rows.take(n) =~= rows);
    }
}

fn find_beaver(rows: &Vec<BeaverRow>, id: u64) -> (r: Option<usize>)
    ensures
        match r {
            Some(i) => beaver_row(rows@, id) == Some(i as int) && i < rows@.len(),
            None => beaver_row(rows@, id) is None,
        },
{
    let mut i: usize = 0;
    while i < rows.len()
        invariant
            i <= rows@.len(),
            beaver_row(rows@.take(i as int), id) is None,
        decreases rows@.len() - i,
    {
        proof {
            assert(rows@.take(i + 1).drop_last() =~= rows@.take(i as int));
        }
        if rows[i].id == id {
            proof {
                beaver_row_prefix(rows@, id, i + 1);
            }
            return Some(i);
        }
        i += 1;
    }
    proof {
        assert(rows@.take(i as int) =~= rows@);
    }
    None
}

impl ColonyView {
    /// The board once jobs that can no longer be done are off it and every idle
    /// beaver has had its choice.
    pub open spec fn sent_out(self, map: MapView) -> Board {
        let targets = self.targets();
        Board {
            beavers: self.beavers,
            jobs: self.jobs.filter(
                |r: JobRow| crate::sim::beavers::job_valid(map, targets, r.job),
            ),
            requests: Seq::empty(),
        }.chosen_upto(map, self.beavers.len())
    }

    /// The routes once beavers have new jobs: theirs are still to be found.
    pub open spec fn routes_kept(self, beavers: Seq<BeaverRow>) -> Seq<Option<ComputedPath>> {
        Seq::new(
            self.routes.len(),
            |i: int|
                if beavers[i].beaver.state == self.beavers[i].beaver.state {
                    self.routes[i]
                } else {
                    None
                },
        )
    }
}

impl Colony {
    /// Lodges raise beavers, and then finished buildings post jobs: the other way
    /// round no nest would come due. The answer is where beavers are born; they are
    /// to be welcomed. Numbers for jobs are taken from `fresh`.
    pub fn produce(
        &mut self,
        map: &TileMap,
        stockpile: &mut Stockpile,
        population: &Population,
        fresh: &mut Vec<u64>,
        dt: u32,
    ) -> (born: Vec<Pos>)
        requires
            map.wf(),
            old(self).wf(map),
            old(fresh)@.len() >= old(self)@.buildings.len(),
        ensures
            final(self).wf(map),
            forall|i: int| 0 <= i < born@.len() ==> (#[trigger] born@[i]).walkable(),
            ({
                let before = old(self)@;
                let n = before.buildings.len();
                let (now, posts) = crate::sim::production::posted_upto(
                    map@,
                    before.trees,
                    before.job_ids(),
                    before.buildings.map_values(
                        |r: BuildingRow| crate::sim::production::nested(r, dt),
                    ),
                    old(fresh)@,
                    dt,
                    n,
                );
                &&& final(self)@ == (ColonyView {
                    buildings: now,
                    jobs: before.jobs + posts,
                    ..before
                })
                &&& final(fresh)@ == old(fresh)@.take(old(fresh)@.len() - posts.len())
                &&& (*final(stockpile), born@) == crate::sim::production::born_upto(
                    map@,
                    *population,
                    *old(stockpile),
                    before.buildings,
                    dt,
                    n,
                )
            }),
            old(stockpile).solvent() ==> final(stockpile).solvent(),
    {
        let ghost before = self@;
        let ghost stock = *stockpile;
        let mut alive: Vec<u64> = Vec::new();
        let mut i: usize = 0;
        while i < self.jobs.len()
            invariant
                i <= self.jobs@.len(),
                self.jobs@ == before.jobs,
                alive@ =~= before.job_ids().take(i as int),
            decreases self.jobs@.len() - i,
        {
            alive.push(self.jobs[i].id);
            i += 1;
        }
        assert(alive@ =~= before.job_ids());
        let born = lodge_spawning(map, population, stockpile, &mut self.buildings, dt);
        let mut posts = post_production_jobs(
            map,
            &self.trees,
            &alive,
            &mut self.buildings,
            fresh,
            dt,
        );
        let ghost posted = posts@;
        self.jobs.append(&mut posts);
        proof {
            assert(self.jobs@ =~= before.jobs + posted);
            assert forall|k: int| 0 <= k < self.jobs@.len() implies {
                let job = (#[trigger] self.jobs@[k]).job;
                map@.holds(job.tile) && (job.kind matches JobKind::Plant(t) ==> map@.holds(t))
            } by {
                if k < before.jobs.len() {
                    assert(map@.holds(before.jobs[k].job.tile));
                } else {
                    assert(map@.holds(posted[k - before.jobs.len()].job.tile));
                }
            }
            crate::sim::production::births_are_paid_for(
                map@,
                *population,
                stock,
                before.buildings,
                dt,
                before.buildings.len(),
            );
        }
        born
    }

    /// Count beavers and homes; is anything another than before?
    pub fn census(&self, population: &mut Population) -> (changed: bool)
        requires
            self@.buildings.len() <= 0x1000_0000,
            self@.beavers.len() <= u32::MAX,
        ensures
            *final(population) == (Population {
                count: self@.beavers.len() as u32,
                cap: (3 + 5 * crate::sim::production::lodges(self@.buildings)) as u32,
            }),
            changed == (*final(population) != *old(population)),
    {
        update_population(population, self.beavers.len() as u32, &self.buildings)
    }

    /// Look at the board: jobs that can no longer be done leave it, and idle
    /// beavers take the others. The answer asks for their routes.
    pub fn send_out(&mut self, map: &TileMap) -> (r: Vec<RouteRequest>)
        requires
            map.wf(),
            old(self).wf(map),
        ensures
            final(self).wf(map),
            ({
                let end = old(self)@.sent_out(map@);
                &&& r@ == end.requests
                &&& final(self)@ == (ColonyView {
                    beavers: end.beavers,
                    jobs: end.jobs,
                    routes: old(self)@.routes_kept(end.beavers),
                    ..old(self)@
                })
            }),
    {
        let ghost before = self@;
        let ghost end = before.sent_out(map@);
        let mut targets: Vec<u64> = Vec::new();
        let mut i: usize = 0;
        while i < self.buildings.len()
            invariant
                i <= self.buildings@.len(),
                self.buildings@ == before.buildings,
                targets@ =~= before.targets().take(i as int),
            decreases self.buildings@.len() - i,
        {
            targets.push(self.buildings[i].id);
            i += 1;
        }
        let mut i: usize = 0;
        while i < self.trees.len()
            invariant
                i <= self.trees@.len(),
                self.trees@ == before.trees,
                targets@ =~= before.targets().take(before.buildings.len() + i),
            decreases self.trees@.len() - i,
        {
            targets.push(self.trees[i].id);
            i += 1;
        }
        assert(targets@ =~= before.targets());
        let mut states: Vec<BeaverState> = Vec::new();
        let mut i: usize = 0;
        while i < self.beavers.len()
            invariant
                i <= self.beavers@.len(),
                states@ =~= Seq::new(i as nat, |j: int| self.beavers@[j].beaver.state),
            decreases self.beavers@.len() - i,
        {
            states.push(self.beavers[i].beaver.state);
            i += 1;
        }
        validate_jobs(map, &targets, &mut self.jobs);
        let r = claim_jobs(map, &mut self.beavers, &mut self.jobs);
        proof {
            let start = Board {
                beavers: before.beavers,
                jobs: before.jobs.filter(
                    |r: JobRow| crate::sim::beavers::job_valid(map@, before.targets(), r.job),
                ),
                requests: Seq::empty(),
            };
            choosing_keeps_bodies(start, map@, before.beavers.len());
            assert(self.beavers@ == end.beavers);
        }
        let mut i: usize = 0;
        while i < self.beavers.len()
            invariant
                i <= self.beavers@.len(),
                self.beavers@ == end.beavers,
                self.jobs@ == end.jobs,
                self.trees@ == before.trees,
                self.buildings@ == before.buildings,
                states@.len() == self.beavers@.len(),
                before.beavers.len() == self.beavers@.len(),
                before.routes.len() == self.beavers@.len(),
                forall|j: int|
                    0 <= j < states@.len() ==> #[trigger] states@[j]
                        == before.beavers[j].beaver.state,
                self.routes@.len() == before.routes.len(),
                forall|j: int|
                    0 <= j < i ==> #[trigger] self.routes@[j] == before.routes_kept(end.beavers)[j],
                forall|j: int|
                    i <= j < self.routes@.len() ==> #[trigger] self.routes@[j] == before.routes[j],
            decreases self.beavers@.len() - i,
        {
            if self.beavers[i].beaver.state != states[i] {
                self.routes.set(i, None);
            }
            i += 1;
        }
        proof {
            assert(self.routes@ =~= before.routes_kept(end.beavers));
            assert forall|j: int| 0 <= j < self.routes@.len() implies
                crate::sim::walking::route_stands(#[trigger] self.routes@[j], map@) by {
                assert(crate::sim::walking::route_stands(before.routes[j], map@));
            }
            assert forall|j: int| 0 <= j < self.beavers@.len() implies (
            #[trigger] self.beavers@[j]).beaver.wf() && self.beavers@[j].pos.walkable() by {
                assert(same_body(self.beavers@[j], before.beavers[j]));
                assert(before.beavers[j].beaver.wf());
                assert(before.beavers[j].pos.walkable());
            }
        }
        r
    }

    /// A route was found for a beaver.
    pub fn deliver(&mut self, map: &TileMap, beaver: u64, path: ComputedPath)
        requires
            old(self).wf(map),
            crate::sim::walking::route_stands(Some(path), map@),
        ensures
            final(self).wf(map),
            final(self)@ == (ColonyView {
                routes: match beaver_row(old(self)@.beavers, beaver) {
                    Some(i) => old(self)@.routes.update(i, Some(path)),
                    None => old(self)@.routes,
                },
                ..old(self)@
            }),
    {
        if let Some(i) = find_beaver(&self.beavers, beaver) {
            self.routes.set(i, Some(path));
        }
    }

    /// Let the beavers walk for `dt`.
    pub fn walk(&mut self, map: &TileMap, dt: u32)
        requires
            map.wf(),
            old(self).wf(map),
        ensures
            final(self).wf(map),
            ({
                let before = old(self)@;
                &&& final(self)@ == (ColonyView {
                    beavers: Seq::new(
                        before.beavers.len(),
                        |i: int|
                            crate::sim::walking::walked(
                                map@,
                                before.jobs,
                                before.buildings,
                                before.beavers[i],
                                before.routes[i],
                                dt,
                            ),
                    ),
                    routes: final(self)@.routes,
                    ..before
                })
                &&& forall|i: int|
                    0 <= i < before.beavers.len() ==> crate::sim::walking::route_follows(
                        map@,
                        before.jobs,
                        before.beavers[i],
                        before.routes[i],
                        #[trigger] final(self)@.routes[i],
                    )
            }),
    {
        let ghost before = self@;
        move_beavers(map, &self.jobs, &self.buildings, &mut self.beavers, &mut self.routes, dt);
        proof {
            assert forall|j: int| 0 <= j < self.beavers@.len() implies (
            #[trigger] self.beavers@[j]).beaver.wf() by {
                assert(before.beavers[j].beaver.wf());
            }
        }
    }
}

/// A building after these events: work on it is counted, and once it is built it
/// is no site any more.
pub open spec fn built(row: BuildingRow, events: Seq<WorkEvent>) -> BuildingRow
    decreases events.len(),
{
    if events.len() == 0 {
        row
    } else {
        let now = built(row, events.drop_last());
        match events.last() {
            WorkEvent::Progress(id, dt) => if id == row.id {
                BuildingRow { construction: progressed(now.construction, dt), ..now }
            } else {
                now
            },
            WorkEvent::Built(id) => if id == row.id {
                BuildingRow { construction: None, ..now }
            } else {
                now
            },
            _ => now,
        }
    }
}

/// A site after so much more work, counted as far as a machine number goes.
pub open spec fn progressed(site: Option<UnderConstruction>, dt: u32) -> Option<UnderConstruction> {
    match site {
        Some(site) => Some(
            UnderConstruction {
                done: if site.done + dt > u64::MAX {
                    u64::MAX
                } else {
                    (site.done + dt) as u64
                },
                ..site
            },
        ),
        None => None,
    }
}

/// The trees that were planted, in order.
pub open spec fn plantings(events: Seq<WorkEvent>) -> Seq<TreeRow>
    decreases events.len(),
{
    if events.len() == 0 {
        Seq::empty()
    } else {
        match events.last() {
            WorkEvent::Planted(row) => plantings(events.drop_last()).push(row),
            _ => plantings(events.drop_last()),
        }
    }
}

fn build_on(row: BuildingRow, events: &Vec<WorkEvent>) -> (r: BuildingRow)
    ensures
        r == built(row, events@),
        r.building == row.building,
{
    let mut now: BuildingRow = row;
    let mut i: usize = 0;
    assert(events@.take(0) =~= Seq::<WorkEvent>::empty());
    while i < events.len()
        invariant
            i <= events@.len(),
            now == built(row, events@.take(i as int)),
            now.building == row.building,
        decreases events@.len() - i,
    {
        proof {
            assert(events@.take(i + 1).drop_last() =~= events@.take(i as int));
            assert(events@.take(i + 1).last() == events@[i as int]);
        }
        match events[i] {
            WorkEvent::Progress(id, dt) => {
                if id == row.id {
                    if let Some(mut site) = now.construction {
                        site.done = site.done.saturating_add(dt as u64);
                        now.construction = Some(site);
                    }
                }
            },
            WorkEvent::Built(id) => {
                if id == row.id {
                    now.construction = None;
                }
            },
            _ => {},
        }
        i += 1;
    }
    assert(events@.take(i as int) =~= events@);
    now
}

fn has_event(events: &Vec<WorkEvent>, event: WorkEvent) -> (r: bool)
    ensures
        r == events@.contains(event),
{
    let mut i: usize = 0;
    while i < events.len()
        invariant
            i <= events@.len(),
            forall|j: int| 0 <= j < i ==> events@[j] != event,
        decreases events@.len() - i,
    {
        if events[i] == event {
            return true;
        }
        i += 1;
    }
    false
}

/// Work moves no beaver and feeds none, and no store shrinks by it.
proof fn working_keeps_bodies(site: Site, trees: Seq<TreeRow>, dt: u32, n: nat)
    requires
        n <= site.beavers.len(),
    ensures
        site.worked_upto(trees, dt, n).beavers.len() == site.beavers.len(),
        forall|i: int|
            0 <= i < site.beavers.len() ==> same_body(
                #[trigger] site.worked_upto(trees, dt, n).beavers[i],
                site.beavers[i],
            ),
        site.stock.logs <= site.worked_upto(trees, dt, n).stock.logs,
        site.stock.food <= site.worked_upto(trees, dt, n).stock.food,
        site.stock.water <= site.worked_upto(trees, dt, n).stock.water,
    decreases n,
{
    if n > 0 {
        working_keeps_bodies(site, trees, dt, (n - 1) as nat);
        let prior = site.worked_upto(trees, dt, (n - 1) as nat);
        assert forall|i: int| 0 <= i < site.beavers.len() implies same_body(
            #[trigger] site.worked_upto(trees, dt, n).beavers[i],
            site.beavers[i],
        ) by {
            assert(same_body(prior.beavers[i], site.beavers[i]));
            assert(same_body(prior.worked(trees, n - 1, dt).beavers[i], prior.beavers[i]));
        }
    }
}

impl ColonyView {
    pub open spec fn site(self, map: MapView, stock: Stockpile, fresh: Seq<u64>) -> Site {
        Site {
            map,
            stock,
            beavers: self.beavers,
            jobs: self.jobs,
            fresh,
            events: Seq::empty(),
        }
    }

    /// The colony after the work of a moment that ended in `end`.
    pub open spec fn after_work(self, end: Site) -> ColonyView {
        let events = end.events;
        ColonyView {
            buildings: self.buildings.map_values(|r: BuildingRow| built(r, events)),
            trees: self.trees.filter(|r: TreeRow| !events.contains(WorkEvent::Felled(r.id)))
                + plantings(events),
            beavers: end.beavers,
            jobs: end.jobs.filter(|r: JobRow| !events.contains(WorkEvent::Done(r.id))),
            ..self
        }
    }
}

impl Colony {
    /// Let the beavers at work go on for `dt`, with all that comes of it. Numbers
    /// for planted trees are taken from `fresh`.
    pub fn work(
        &mut self,
        map: &mut TileMap,
        stockpile: &mut Stockpile,
        fresh: &mut Vec<u64>,
        dt: u32,
    ) -> (events: Vec<WorkEvent>)
        requires
            old(map).wf(),
            old(self).wf(old(map)),
            old(fresh)@.len() >= old(self)@.beavers.len(),
        ensures
            final(map).wf(),
            final(self).wf(final(map)),
            ({
                let before = old(self)@;
                let end = before.site(old(map)@, *old(stockpile), old(fresh)@).worked_upto(
                    before.trees,
                    dt,
                    before.beavers.len(),
                );
                &&& final(map)@ == end.map
                &&& *final(stockpile) == end.stock
                &&& final(fresh)@ == end.fresh
                &&& events@ == end.events
                &&& final(self)@ == before.after_work(end)
            }),
            old(stockpile).solvent() ==> final(stockpile).solvent(),
    {
        let ghost before = self@;
        let ghost start = before.site(map@, *stockpile, fresh@);
        let ghost end = start.worked_upto(before.trees, dt, before.beavers.len());
        let ghost ground = map@;
        let events = work_jobs(
            map,
            stockpile,
            &mut self.beavers,
            &mut self.jobs,
            &self.trees,
            fresh,
            dt,
        );
        proof {
            working_keeps_bodies(start, before.trees, dt, before.beavers.len());
            wf_goes_by_extent(before, ground, map@);
        }
        self.count_work(map, &events);
        self.replant(map, &events);
        self.clear_board(map, &events);
        proof {
            assert(self@ =~= before.after_work(end));
            assert forall|j: int| 0 <= j < self.beavers@.len() implies (
            #[trigger] self.beavers@[j]).beaver.wf() && self.beavers@[j].pos.walkable() by {
                assert(same_body(self.beavers@[j], before.beavers[j]));
                assert(before.beavers[j].beaver.wf());
                assert(before.beavers[j].pos.walkable());
            }
        }
        events
    }

    fn count_work(&mut self, map: &TileMap, events: &Vec<WorkEvent>)
        requires
            crate::sim::buildings::buildings_stand(old(self)@.buildings, map@),
        ensures
            final(self)@ == (ColonyView {
                buildings: old(self)@.buildings.map_values(|r: BuildingRow| built(r, events@)),
                ..old(self)@
            }),
            crate::sim::buildings::buildings_stand(final(self)@.buildings, map@),
    {
        let ghost before = self@;
        let mut i: usize = 0;
        while i < self.buildings.len()
            invariant
                i <= self.buildings@.len(),
                self@ == (ColonyView { buildings: self@.buildings, ..before }),
                self.buildings@.len() == before.buildings.len(),
                forall|j: int|
                    0 <= j < i ==> #[trigger] self.buildings@[j] == built(
                        before.buildings[j],
                        events@,
                    ),
                forall|j: int|
                    i <= j < self.buildings@.len() ==> #[trigger] self.buildings@[j]
                        == before.buildings[j],
                crate::sim::buildings::buildings_stand(self.buildings@, map@),
            decreases self.buildings@.len() - i,
        {
            assert(map@.holds(self.buildings@[i as int].building.tile));
            let row = build_on(self.buildings[i], events);
            self.buildings.set(i, row);
            i += 1;
        }
        assert(self.buildings@ =~= before.buildings.map_values(
            |r: BuildingRow| built(r, events@),
        ));
    }

    fn replant(&mut self, map: &TileMap, events: &Vec<WorkEvent>)
        requires
            crate::sim::trees::trees_stand(old(self)@.trees, map@),
            crate::sim::work::plantings_stand(events@, map@),
        ensures
            final(self)@ == (ColonyView {
                trees: old(self)@.trees.filter(
                    |r: TreeRow| !events@.contains(WorkEvent::Felled(r.id)),
                ) + plantings(events@),
                ..old(self)@
            }),
            crate::sim::trees::trees_stand(final(self)@.trees, map@),
    {
        let ghost before = self@.trees;
        let ghost pred = |r: TreeRow| !events@.contains(WorkEvent::Felled(r.id));
        let mut kept: Vec<TreeRow> = Vec::new();
        let mut i: usize = 0;
        proof {
            reveal(Seq::filter);
            assert(before.take(0) =~= Seq::<TreeRow>::empty());
        }
        while i < self.trees.len()
            invariant
                i <= self.trees@.len(),
                self.trees@ == before,
                pred == (|r: TreeRow| !events@.contains(WorkEvent::Felled(r.id))),
                kept@ == before.take(i as int).filter(pred),
                crate::sim::trees::trees_stand(before, map@),
                crate::sim::trees::trees_stand(kept@, map@),
            decreases self.trees@.len() - i,
        {
            proof {
                reveal(Seq::filter);
                assert(before.take(i + 1).drop_last() =~= before.take(i as int));
                assert(map@.holds(before[i as int].tree.tile));
            }
            if !has_event(events, WorkEvent::Felled(self.trees[i].id)) {
                kept.push(self.trees[i]);
            }
            i += 1;
        }
        let ghost stayed = kept@;
        proof {
            assert(before.take(i as int) =~= before);
            assert(events@.take(0) =~= Seq::<WorkEvent>::empty());
            assert(stayed + Seq::<TreeRow>::empty() =~= stayed);
        }
        let mut k: usize = 0;
        while k < events.len()
            invariant
                k <= events@.len(),
                kept@ == stayed + plantings(events@.take(k as int)),
                crate::sim::work::plantings_stand(events@, map@),
                crate::sim::trees::trees_stand(kept@, map@),
            decreases events@.len() - k,
        {
            proof {
                assert(events@.take(k + 1).drop_last() =~= events@.take(k as int));
                assert(events@.take(k + 1).last() == events@[k as int]);
            }
            let ghost prior = kept@;
            if let WorkEvent::Planted(row) = events[k] {
                assert(events@[k as int] == WorkEvent::Planted(row));
                kept.push(row);
                assert(kept@ =~= stayed + plantings(events@.take(k as int)).push(row));
            }
            k += 1;
        }
        assert(events@.take(k as int) =~= events@);
        self.trees = kept;
    }

    fn clear_board(&mut self, map: &TileMap, events: &Vec<WorkEvent>)
        requires
            crate::sim::beavers::jobs_stand(old(self)@.jobs, map@),
        ensures
            final(self)@ == (ColonyView {
                jobs: old(self)@.jobs.filter(
                    |r: JobRow| !events@.contains(WorkEvent::Done(r.id)),
                ),
                ..old(self)@
            }),
            crate::sim::beavers::jobs_stand(final(self)@.jobs, map@),
    {
        let ghost before = self@.jobs;
        let ghost pred = |r: JobRow| !events@.contains(WorkEvent::Done(r.id));
        let mut kept: Vec<JobRow> = Vec::new();
        let mut i: usize = 0;
        proof {
            reveal(Seq::filter);
            assert(before.take(0) =~= Seq::<JobRow>::empty());
        }
        while i < self.jobs.len()
            invariant
                i <= self.jobs@.len(),
                self.jobs@ == before,
                pred == (|r: JobRow| !events@.contains(WorkEvent::Done(r.id))),
                kept@ == before.take(i as int).filter(pred),
                crate::sim::beavers::jobs_stand(before, map@),
                crate::sim::beavers::jobs_stand(kept@, map@),
            decreases self.jobs@.len() - i,
        {
            proof {
                reveal(Seq::filter);
                assert(before.take(i + 1).drop_last() =~= before.take(i as int));
                assert(map@.holds(before[i as int].job.tile));
            }
            if !has_event(events, WorkEvent::Done(self.jobs[i].id)) {
                kept.push(self.jobs[i]);
            }
            i += 1;
        }
        assert(before.take(i as int) =~= before);
        self.jobs = kept;
    }
}

/// Those of a list whose beavers live.
pub open spec fn with_the_living<A>(rows: Seq<BeaverRow>, list: Seq<A>) -> Seq<A>
    decreases rows.len(),
{
    if rows.len() == 0 {
        Seq::empty()
    } else {
        let prior = with_the_living(rows.drop_last(), list);
        if rows.last().beaver.starving <= STARVE_LIMIT {
            prior.push(list[rows.len() - 1])
        } else {
            prior
        }
    }
}

impl ColonyView {
    pub open spec fn needs(self, stock: Stockpile, starving: u32, dt: u32, n: nat) -> Needs {
        Needs { stock, starving, events: Seq::empty() }.met_upto(self.beavers, dt, n)
    }

    /// The beavers after `dt`, the dead still among them.
    pub open spec fn lived(self, stock: Stockpile, starving: u32, dt: u32) -> Seq<BeaverRow> {
        Seq::new(
            self.beavers.len(),
            |i: int|
                BeaverRow {
                    beaver: self.beavers[i].beaver.lived(
                        self.needs(stock, starving, dt, i as nat).stock,
                        dt,
                    ),
                    ..self.beavers[i]
                },
        )
    }
}

/// Meals are only taken where there is something to eat.
proof fn meals_overdraw_nothing(start: Needs, rows: Seq<BeaverRow>, dt: u32, n: nat)
    requires
        start.stock.solvent(),
    ensures
        start.met_upto(rows, dt, n).stock.solvent(),
    decreases n,
{
    if n > 0 {
        meals_overdraw_nothing(start, rows, dt, (n - 1) as nat);
    }
}

impl Colony {
    /// Let all beavers live for `dt`. The dead leave the colony, and their routes
    /// with them; the events name them.
    pub fn feed(
        &mut self,
        map: &TileMap,
        stockpile: &mut Stockpile,
        starving: &mut u32,
        dt: u32,
    ) -> (events: Vec<NeedEvent>)
        requires
            old(self).wf(map),
        ensures
            final(self).wf(map),
            ({
                let before = old(self)@;
                let lived = before.lived(*old(stockpile), *old(starving), dt);
                let end = before.needs(*old(stockpile), *old(starving), dt, before.beavers.len());
                &&& *final(stockpile) == end.stock
                &&& *final(starving) == end.starving
                &&& events@ == end.events
                &&& final(self)@ == (ColonyView {
                    beavers: with_the_living(lived, lived),
                    routes: with_the_living(lived, before.routes),
                    ..before
                })
            }),
            old(stockpile).solvent() ==> final(stockpile).solvent(),
    {
        let ghost before = self@;
        let ghost start = Needs { stock: *stockpile, starving: *starving, events: Seq::empty() };
        let ghost lived = before.lived(*stockpile, *starving, dt);
        let events = needs(stockpile, starving, &mut self.beavers, dt);
        proof {
            if start.stock.solvent() {
                meals_overdraw_nothing(start, before.beavers, dt, before.beavers.len());
            }
            assert(self.beavers@ =~= lived);
            assert(lived.take(0) =~= Seq::<BeaverRow>::empty());
            assert(lived.skip(0) =~= lived);
            assert(before.routes.skip(0) =~= before.routes);
        }
        let ghost mut seen: int = 0;
        let mut i: usize = 0;
        proof {
            assert(self.beavers@ =~= with_the_living(lived.take(0), lived) + lived.skip(0));
            assert(self.routes@ =~= with_the_living(lived.take(0), before.routes)
                + before.routes.skip(0));
        }
        while i < self.beavers.len()
            invariant
                0 <= seen <= lived.len(),
                lived.len() == before.beavers.len(),
                before.routes.len() == before.beavers.len(),
                i == with_the_living(lived.take(seen), lived).len(),
                i == with_the_living(lived.take(seen), before.routes).len(),
                self.beavers@ == with_the_living(lived.take(seen), lived) + lived.skip(seen),
                self.routes@ == with_the_living(lived.take(seen), before.routes)
                    + before.routes.skip(seen),
                self@ == (ColonyView {
                    beavers: self@.beavers,
                    routes: self@.routes,
                    ..before
                }),
            decreases lived.len() - seen,
        {
            proof {
                assert(lived.take(seen + 1).drop_last() =~= lived.take(seen));
                assert(self.beavers@[i as int] == lived[seen]);
                assert(lived.skip(seen).skip(1) =~= lived.skip(seen + 1));
            }
            if self.beavers[i].beaver.starving > STARVE_LIMIT {
                self.beavers.remove(i);
                self.routes.remove(i);
            } else {
                i += 1;
            }
            proof {
                seen = seen + 1;
                assert(self.beavers@ =~= with_the_living(lived.take(seen), lived) + lived.skip(
                    seen,
                ));
                assert(self.routes@ =~= with_the_living(lived.take(seen), before.routes)
                    + before.routes.skip(seen));
            }
        }
        proof {
            assert(lived.take(seen) =~= lived);
            assert(lived.skip(seen) =~= Seq::<BeaverRow>::empty());
            the_living_are_well(before, map@, *old(stockpile), *old(starving), dt, lived.len());
        }
        events
    }
}

/// Those who live on feel no more than the living do, and are where they were.
proof fn the_living_are_well(
    colony: ColonyView,
    map: MapView,
    stock: Stockpile,
    starving: u32,
    dt: u32,
    n: nat,
)
    requires
        colony.wf(map),
        n <= colony.beavers.len(),
    ensures
        ({
            let lived = colony.lived(stock, starving, dt);
            let rows = with_the_living(lived.take(n as int), lived);
            let routes = with_the_living(lived.take(n as int), colony.routes);
            &&& rows.len() == routes.len()
            &&& crate::sim::beavers::all_alive(rows)
            &&& all_walkable(rows)
            &&& crate::sim::walking::routes_stand(routes, map)
        }),
    decreases n,
{
    if n > 0 {
        the_living_are_well(colony, map, stock, starving, dt, (n - 1) as nat);
        let lived = colony.lived(stock, starving, dt);
        assert(lived.take(n as int).drop_last() =~= lived.take(n - 1));
        assert(colony.beavers[n - 1].beaver.wf());
        assert(colony.beavers[n - 1].pos.walkable());
        assert(crate::sim::walking::route_stands(colony.routes[n - 1], map));
    }
}

/// Where things stand goes by how far the map reaches, and by nothing else of it.
proof fn wf_goes_by_extent(colony: ColonyView, a: MapView, b: MapView)
    requires
        colony.wf(a),
        a.width == b.width,
        a.height == b.height,
    ensures
        colony.wf(b),
{
    assert forall|i: int| 0 <= i < colony.buildings.len() implies b.holds(
        (#[trigger] colony.buildings[i]).building.tile,
    ) by {
        assert(a.holds(colony.buildings[i].building.tile));
    }
    assert forall|i: int| 0 <= i < colony.trees.len() implies b.holds(
        (#[trigger] colony.trees[i]).tree.tile,
    ) by {
        assert(a.holds(colony.trees[i].tree.tile));
    }
    assert forall|i: int| 0 <= i < colony.jobs.len() implies {
        let job = (#[trigger] colony.jobs[i]).job;
        b.holds(job.tile) && (job.kind matches JobKind::Plant(t) ==> b.holds(t))
    } by {
        assert(a.holds(colony.jobs[i].job.tile));
    }
    assert forall|i: int| 0 <= i < colony.routes.len() implies crate::sim::walking::route_stands(
        #[trigger] colony.routes[i],
        b,
    ) by {
        assert(crate::sim::walking::route_stands(colony.routes[i], a));
    }
}

} // verus!
