//! Beavers: the jobs they take, the ways they walk and what they need.
use vstd::prelude::*;

use crate::sim::map::{MapView, Pos, TileMap, TilePos};
use crate::sim::stock::{take_from, Stockpile, UNIT};

verus! {

/// What a job is about.
#[derive(Clone, Copy, PartialEq, Eq, Structural, Debug)]
pub enum JobKind {
    /// Build the building.
    Build(u64),
    /// Chop the tree.
    Chop(u64),
    /// Pump once at the water pump.
    Pump(u64),
    /// Harvest once at the farm.
    Farm(u64),
    /// Plant a tree on the tile.
    Plant(TilePos),
}

/// A job on the board of the colony, to be done at a tile.
#[derive(Clone, Copy, PartialEq, Eq, Structural, Debug)]
pub struct Job {
    pub kind: JobKind,
    pub tile: TilePos,
    /// Microseconds of work that are left.
    pub work: u64,
    pub claimed_by: Option<u64>,
}

/// A job and its entity.
#[derive(Clone, Copy, PartialEq, Eq, Structural, Debug)]
pub struct JobRow {
    pub id: u64,
    pub job: Job,
}

/// What a beaver is doing.
#[derive(Clone, Copy, PartialEq, Eq, Structural, Debug)]
pub enum BeaverState {
    Idle,
    /// On the way to a job.
    Goto(u64),
    /// At work on a job.
    Work(u64),
}

/// A beaver. Hunger and thirst are in microseconds since the last meal or
/// drink, up to those after which it needs the next.
#[derive(Clone, Copy, PartialEq, Eq, Structural, Debug)]
pub struct Beaver {
    pub state: BeaverState,
    pub hunger: u64,
    pub thirst: u64,
    /// For how many microseconds it has gone without.
    pub starving: u64,
}

/// A beaver, its entity and its place.
#[derive(Clone, Copy, PartialEq, Eq, Structural, Debug)]
pub struct BeaverRow {
    pub id: u64,
    pub beaver: Beaver,
    pub pos: Pos,
}

/// A route, with the job that it leads to, so that one for another job can be
/// told apart.
pub struct ComputedPath {
    pub job: u64,
    pub tiles: Option<Vec<TilePos>>,
}

/// A beaver eats this often.
pub const HUNGER_FULL: u64 = 35_000_000;

/// A beaver drinks this often.
pub const THIRST_FULL: u64 = 30_000_000;

/// A beaver that goes without for longer than this dies.
pub const STARVE_LIMIT: u64 = 45_000_000;

impl Beaver {
    /// No need is beyond what a living beaver can feel.
    pub open spec fn wf(self) -> bool {
        self.hunger <= HUNGER_FULL && self.thirst <= THIRST_FULL && self.starving <= STARVE_LIMIT
    }

    pub fn new() -> (r: Beaver)
        ensures
            r == (Beaver { state: BeaverState::Idle, hunger: 0, thirst: 0, starving: 0 }),
    {
        Beaver { state: BeaverState::Idle, hunger: 0, thirst: 0, starving: 0 }
    }
}

/// A new beaver at a place.
pub fn spawn_beaver(id: u64, pos: Pos) -> (r: BeaverRow)
    ensures
        r == (BeaverRow {
            id,
            beaver: Beaver { state: BeaverState::Idle, hunger: 0, thirst: 0, starving: 0 },
            pos,
        }),
{
    BeaverRow { id, beaver: Beaver::new(), pos }
}

impl MapView {
    /// The `k`th tile of the square of reach `r` around `center`, row by row,
    /// if it is on the map.
    pub open spec fn square_tile(self, center: TilePos, r: int, k: int) -> Option<TilePos> {
        let side = 2 * r + 1;
        let x = center.x + k % side - r;
        let y = center.y + k / side - r;
        if self.inside(x, y) {
            Some(TilePos { x: x as u32, y: y as u32 })
        } else {
            None
        }
    }

    /// The free land among the first `n` tiles of that square.
    pub open spec fn free_upto(self, center: TilePos, r: int, n: nat) -> Seq<TilePos>
        decreases n,
    {
        if n == 0 {
            Seq::empty()
        } else {
            let prior = self.free_upto(center, r, (n - 1) as nat);
            match self.square_tile(center, r, n - 1) {
                Some(t) => if self.free_land(t) {
                    prior.push(t)
                } else {
                    prior
                },
                None => prior,
            }
        }
    }

    /// The free land of the squares of reach 0 to `n - 1`, one after another.
    pub open spec fn free_in_squares(self, center: TilePos, n: nat) -> Seq<TilePos>
        decreases n,
    {
        if n == 0 {
            Seq::empty()
        } else {
            let side = 2 * (n - 1) + 1;
            self.free_in_squares(center, (n - 1) as nat) + self.free_upto(
                center,
                n - 1,
                (side * side) as nat,
            )
        }
    }

    pub open spec fn middle(self) -> TilePos {
        TilePos { x: self.width / 2, y: self.height / 2 }
    }

    /// Where the founders of a colony stand: on the first three tiles of free
    /// land in growing squares around the middle of the map. A tile counts
    /// again in each larger square.
    pub open spec fn founding_tiles(self) -> Seq<TilePos> {
        let reach = if self.width <= self.height {
            self.width as int / 2
        } else {
            self.height as int / 2
        };
        let all = self.free_in_squares(self.middle(), reach as nat);
        if all.len() <= 3 {
            all
        } else {
            all.take(3)
        }
    }

    /// The place of the `i`th founder, a little apart from the others.
    pub open spec fn founder(self, t: TilePos, i: int) -> Pos {
        Pos { x: (self.center(t).x + (i - 1) * 300_000) as i64, ..self.center(t) }
    }
}

/// Prefixes of the list of free tiles of a square are prefixes of the whole.
proof fn free_upto_grows(map: MapView, center: TilePos, r: int, m: nat, n: nat)
    requires
        m <= n,
    ensures
        map.free_upto(center, r, m).len() <= map.free_upto(center, r, n).len(),
        map.free_upto(center, r, n).take(map.free_upto(center, r, m).len() as int)
            == map.free_upto(center, r, m),
    decreases n,
{
    let part = map.free_upto(center, r, m);
    let all = map.free_upto(center, r, n);
    if m < n {
        free_upto_grows(map, center, r, m, (n - 1) as nat);
        let prior = map.free_upto(center, r, (n - 1) as nat);
        assert(all.take(part.len() as int) =~= prior.take(part.len() as int));
    } else {
        assert(all.take(part.len() as int) =~= part);
    }
}

/// Fewer squares give the beginning of what more of them give.
pub(crate) proof fn free_in_squares_grows(map: MapView, center: TilePos, m: nat, n: nat)
    requires
        m <= n,
    ensures
        map.free_in_squares(center, m).len() <= map.free_in_squares(center, n).len(),
        map.free_in_squares(center, n).take(map.free_in_squares(center, m).len() as int)
            == map.free_in_squares(center, m),
    decreases n,
{
    let part = map.free_in_squares(center, m);
    let all = map.free_in_squares(center, n);
    if m < n {
        free_in_squares_grows(map, center, m, (n - 1) as nat);
        let prior = map.free_in_squares(center, (n - 1) as nat);
        assert(all.take(part.len() as int) =~= prior.take(part.len() as int));
    } else {
        assert(all.take(part.len() as int) =~= part);
    }
}

/// The places of the three founders of a colony, fewer where there is hardly
/// any free land.
pub fn initial_colony(map: &TileMap) -> (r: Vec<Pos>)
    requires
        map.wf(),
    ensures
        r@ == Seq::new(
            map@.founding_tiles().len(),
            |i: int| map@.founder(map@.founding_tiles()[i], i),
        ),
{
    let center = TilePos { x: map.width / 2, y: map.height / 2 };
    let reach: u32 = if map.width <= map.height {
        map.width / 2
    } else {
        map.height / 2
    };
    let ghost goal = map@.founding_tiles();
    let ghost all = map@.free_in_squares(center, reach as nat);
    let ghost mut tiles: Seq<TilePos> = Seq::empty();
    let mut r: Vec<Pos> = Vec::new();
    let mut n: u32 = 0;
    while n < reach
        invariant
            map.wf(),
            n <= reach,
            reach <= 0x1fff_ffff,
            center == map@.middle(),
            all == map@.free_in_squares(center, reach as nat),
            goal == if all.len() <= 3 {
                all
            } else {
                all.take(3)
            },
            tiles == map@.free_in_squares(center, n as nat),
            tiles.len() < 3,
            r@ =~= Seq::new(tiles.len(), |i: int| map@.founder(tiles[i], i)),
            goal == map@.founding_tiles(),
        decreases reach - n,
    {
        let side: i64 = 2 * n as i64 + 1;
        assert(side * side <= 0x4000_0000 * 0x4000_0000) by (nonlinear_arith)
            requires
                0 <= side <= 0x4000_0000,
        ;
        let total: i64 = side * side;
        let ghost base = tiles;
        let mut k: i64 = 0;
        while k < total
            invariant
                map.wf(),
                n < reach,
                reach <= 0x1fff_ffff,
                center == map@.middle(),
                side == 2 * n + 1,
                total == side * side,
                0 <= k <= total,
                base == map@.free_in_squares(center, n as nat),
                all == map@.free_in_squares(center, reach as nat),
                goal == if all.len() <= 3 {
                    all
                } else {
                    all.take(3)
                },
                tiles == base + map@.free_upto(center, n as int, k as nat),
                tiles.len() < 3,
                r@ =~= Seq::new(tiles.len(), |i: int| map@.founder(tiles[i], i)),
                goal == map@.founding_tiles(),
            decreases total - k,
        {
            proof {
                vstd::arithmetic::div_mod::lemma_fundamental_div_mod(k as int, side as int);
                let q = k as int / side as int;
                assert(0 <= q < side) by (nonlinear_arith)
                    requires
                        0 <= k < side * side,
                        q == k as int / side as int,
                        side > 0,
                ;
            }
            let x: i64 = center.x as i64 + k % side - n as i64;
            let y: i64 = center.y as i64 + k / side - n as i64;
            let ghost before = tiles;
            let inside = x >= 0 && y >= 0 && x < map.width as i64 && y < map.height as i64;
            if inside && map.is_free_land(x as u32, y as u32) {
                let t = TilePos { x: x as u32, y: y as u32 };
                let mut pos = map.tile_center(t.x, t.y);
                let at: i64 = r.len() as i64;
                pos.x = pos.x + (at - 1) * 300_000;
                r.push(pos);
                proof {
                    tiles = tiles.push(t);
                    assert(tiles =~= base + map@.free_upto(center, n as int, (k + 1) as nat));
                    assert(r@ =~= Seq::new(tiles.len(), |i: int| map@.founder(tiles[i], i)));
                }
                if r.len() == 3 {
                    proof {
                        let more = map@.free_upto(center, n as int, (k + 1) as nat);
                        let full = map@.free_upto(center, n as int, total as nat);
                        let next = map@.free_in_squares(center, (n + 1) as nat);
                        free_upto_grows(map@, center, n as int, (k + 1) as nat, total as nat);
                        free_in_squares_grows(map@, center, (n + 1) as nat, reach as nat);
                        assert(next == base + full);
                        assert(tiles =~= next.take(3)) by {
                            assert forall|i: int| 0 <= i < 3 implies tiles[i] == next[i] by {
                                if i >= base.len() {
                                    assert(full.take(more.len() as int)[i - base.len()]
                                        == more[i - base.len()]);
                                }
                            }
                        }
                        assert(all.take(3) =~= next.take(3)) by {
                            assert forall|i: int| 0 <= i < 3 implies all[i] == next[i] by {
                                assert(all.take(next.len() as int)[i] == next[i]);
                            }
                        }
                        assert(all.len() >= 3);
                        assert(goal =~= tiles);
                    }
                    return r;
                }
            }
            proof {
                assert(tiles =~= base + map@.free_upto(center, n as int, (k + 1) as nat));
            }
            k += 1;
        }
        n += 1;
    }
    r
}

/// May a job still be done? What it is about has to be there, and land to be
/// planted has to be free.
pub open spec fn job_valid(map: MapView, targets: Seq<u64>, job: Job) -> bool {
    match job.kind {
        JobKind::Build(t) => targets.contains(t),
        JobKind::Chop(t) => targets.contains(t),
        JobKind::Pump(t) => targets.contains(t),
        JobKind::Farm(t) => targets.contains(t),
        JobKind::Plant(tile) => map.free_land(tile),
    }
}

/// Jobs are to be done on the map.
pub open spec fn jobs_stand(jobs: Seq<JobRow>, map: MapView) -> bool {
    forall|i: int|
        0 <= i < jobs.len() ==> {
            let job = (#[trigger] jobs[i]).job;
            map.holds(job.tile) && (job.kind matches JobKind::Plant(t) ==> map.holds(t))
        }
}

pub(crate) fn among(ids: &Vec<u64>, id: u64) -> (r: bool)
    ensures
        r == ids@.contains(id),
{
    let mut i: usize = 0;
    while i < ids.len()
        invariant
            i <= ids@.len(),
            forall|j: int| 0 <= j < i ==> ids@[j] != id,
        decreases ids@.len() - i,
    {
        if ids[i] == id {
            return true;
        }
        i += 1;
    }
    false
}

/// Take the jobs off the board that can no longer be done; `targets` are the
/// buildings and trees there are. The answer is the jobs taken off.
pub fn validate_jobs(map: &TileMap, targets: &Vec<u64>, jobs: &mut Vec<JobRow>) -> (dropped: Vec<
    JobRow,
>)
    requires
        map.wf(),
        jobs_stand(old(jobs)@, map@),
    ensures
        final(jobs)@ == old(jobs)@.filter(|r: JobRow| job_valid(map@, targets@, r.job)),
        dropped@ == old(jobs)@.filter(|r: JobRow| !job_valid(map@, targets@, r.job)),
        jobs_stand(final(jobs)@, map@),
{
    let ghost before = jobs@;
    let ghost good = |r: JobRow| job_valid(map@, targets@, r.job);
    let ghost bad = |r: JobRow| !job_valid(map@, targets@, r.job);
    let mut kept: Vec<JobRow> = Vec::new();
    let mut dropped: Vec<JobRow> = Vec::new();
    let mut i: usize = 0;
    proof {
        reveal(Seq::filter);
        assert(before.take(0) =~= Seq::<JobRow>::empty());
    }
    while i < jobs.len()
        invariant
            map.wf(),
            jobs@ == before,
            jobs_stand(before, map@),
            i <= before.len(),
            good == (|r: JobRow| job_valid(map@, targets@, r.job)),
            bad == (|r: JobRow| !job_valid(map@, targets@, r.job)),
            kept@ == before.take(i as int).filter(good),
            jobs_stand(kept@, map@),
            dropped@ == before.take(i as int).filter(bad),
        decreases before.len() - i,
    {
        let row: JobRow = jobs[i];
        proof {
            reveal(Seq::filter);
            assert(before.take(i + 1).drop_last() =~= before.take(i as int));
            assert(before.take(i + 1).last() == row);
            assert(before[i as int] == row);
        }
        let valid = match row.job.kind {
            JobKind::Build(t) => among(targets, t),
            JobKind::Chop(t) => among(targets, t),
            JobKind::Pump(t) => among(targets, t),
            JobKind::Farm(t) => among(targets, t),
            JobKind::Plant(tile) => map.is_free_land(tile.x, tile.y),
        };
        if valid {
            kept.push(row);
        } else {
            dropped.push(row);
        }
        i += 1;
    }
    proof {
        assert(before.take(i as int) =~= before);
    }
    *jobs = kept;
    dropped
}

/// What happens to a beaver's needs.
#[derive(Clone, Copy, PartialEq, Eq, Structural, Debug)]
pub enum NeedEvent {
    /// It goes without food or water now.
    Starves(u64),
    /// It has what it needs again.
    Recovers(u64),
    /// It has gone without for too long.
    Dies(u64),
}

/// The needs of the colony: the stores, how many starve, and what happened.
#[verifier::ext_equal]
pub ghost struct Needs {
    pub stock: Stockpile,
    pub starving: u32,
    pub events: Seq<NeedEvent>,
}

impl Beaver {
    pub open spec fn hungry(self, dt: u32) -> bool {
        self.hunger + dt >= HUNGER_FULL
    }

    pub open spec fn thirsty(self, dt: u32) -> bool {
        self.thirst + dt >= THIRST_FULL
    }

    /// Does it eat, and does it drink?
    pub open spec fn eats(self, stock: Stockpile, dt: u32) -> bool {
        self.hungry(dt) && stock.food >= UNIT
    }

    pub open spec fn drinks(self, stock: Stockpile, dt: u32) -> bool {
        self.thirsty(dt) && stock.water >= UNIT
    }

    /// Does it need something that is not there?
    pub open spec fn deprived(self, stock: Stockpile, dt: u32) -> bool {
        (self.hungry(dt) && !self.eats(stock, dt)) || (self.thirsty(dt) && !self.drinks(stock, dt))
    }

    /// The beaver after `dt`.
    pub open spec fn lived(self, stock: Stockpile, dt: u32) -> Beaver {
        Beaver {
            state: self.state,
            hunger: if self.eats(stock, dt) {
                0
            } else if self.hungry(dt) {
                HUNGER_FULL
            } else {
                (self.hunger + dt) as u64
            },
            thirst: if self.drinks(stock, dt) {
                0
            } else if self.thirsty(dt) {
                THIRST_FULL
            } else {
                (self.thirst + dt) as u64
            },
            starving: if self.deprived(stock, dt) {
                (self.starving + dt) as u64
            } else {
                0
            },
        }
    }

    /// Has it gone without for too long?
    pub open spec fn dies(self, stock: Stockpile, dt: u32) -> bool {
        self.deprived(stock, dt) && self.starving + dt > STARVE_LIMIT
    }
}

pub open spec fn one_fewer(n: u32) -> u32 {
    if n == 0 {
        0
    } else {
        (n - 1) as u32
    }
}

impl Needs {
    /// The needs once one more beaver has been seen to.
    pub open spec fn met(self, row: BeaverRow, dt: u32) -> Needs {
        let b = row.beaver;
        let stock = Stockpile {
            food: if b.eats(self.stock, dt) {
                (self.stock.food - UNIT) as i64
            } else {
                self.stock.food
            },
            water: if b.drinks(self.stock, dt) {
                (self.stock.water - UNIT) as i64
            } else {
                self.stock.water
            },
            ..self.stock
        };
        if b.deprived(self.stock, dt) {
            let begins = b.starving == 0;
            let begun = if begins {
                self.events.push(NeedEvent::Starves(row.id))
            } else {
                self.events
            };
            let more = if begins && self.starving < u32::MAX {
                (self.starving + 1) as u32
            } else {
                self.starving
            };
            if b.dies(self.stock, dt) {
                Needs {
                    stock,
                    starving: one_fewer(more),
                    events: begun.push(NeedEvent::Dies(row.id)),
                }
            } else {
                Needs { stock, starving: more, events: begun }
            }
        } else if b.starving > 0 {
            Needs {
                stock,
                starving: one_fewer(self.starving),
                events: self.events.push(NeedEvent::Recovers(row.id)),
            }
        } else {
            Needs { stock, ..self }
        }
    }

    /// The needs once the first `n` beavers have been seen to.
    pub open spec fn met_upto(self, rows: Seq<BeaverRow>, dt: u32, n: nat) -> Needs
        decreases n,
    {
        if n == 0 {
            self
        } else {
            self.met_upto(rows, dt, (n - 1) as nat).met(rows[n - 1], dt)
        }
    }
}

pub open spec fn all_alive(rows: Seq<BeaverRow>) -> bool {
    forall|i: int| 0 <= i < rows.len() ==> (#[trigger] rows[i]).beaver.wf()
}

/// Let all beavers live for `dt`: they eat and drink from the stores, one after
/// another, and those that find nothing starve. Those that have died are still
/// in the list; the events name them.
pub fn needs(
    stockpile: &mut Stockpile,
    starving: &mut u32,
    rows: &mut Vec<BeaverRow>,
    dt: u32,
) -> (events: Vec<NeedEvent>)
    requires
        all_alive(old(rows)@),
    ensures
        ({
            let start = Needs {
                stock: *old(stockpile),
                starving: *old(starving),
                events: Seq::empty(),
            };
            let end = start.met_upto(old(rows)@, dt, old(rows)@.len());
            &&& *final(stockpile) == end.stock
            &&& *final(starving) == end.starving
            &&& events@ == end.events
            &&& final(rows)@ == Seq::new(
                old(rows)@.len(),
                |i: int|
                    BeaverRow {
                        beaver: old(rows)@[i].beaver.lived(
                            start.met_upto(old(rows)@, dt, i as nat).stock,
                            dt,
                        ),
                        ..old(rows)@[i]
                    },
            )
        }),
{
    let ghost before = rows@;
    let ghost start = Needs { stock: *stockpile, starving: *starving, events: Seq::empty() };
    let mut events: Vec<NeedEvent> = Vec::new();
    let mut i: usize = 0;
    while i < rows.len()
        invariant
            i <= before.len(),
            rows@.len() == before.len(),
            all_alive(before),
            (Needs { stock: *stockpile, starving: *starving, events: events@ }) == start.met_upto(
                before,
                dt,
                i as nat,
            ),
            forall|j: int|
                0 <= j < i ==> #[trigger] rows@[j] == (BeaverRow {
                    beaver: before[j].beaver.lived(
                        start.met_upto(before, dt, j as nat).stock,
                        dt,
                    ),
                    ..before[j]
                }),
            forall|j: int| i <= j < before.len() ==> #[trigger] rows@[j] == before[j],
        decreases before.len() - i,
    {
        let mut row: BeaverRow = rows[i];
        let ghost now = Needs { stock: *stockpile, starving: *starving, events: events@ };
        assert(before[i as int].beaver.wf());
        let mut deprived = false;
        row.beaver.hunger = row.beaver.hunger + dt as u64;
        row.beaver.thirst = row.beaver.thirst + dt as u64;
        if row.beaver.hunger >= HUNGER_FULL {
            if stockpile.food >= UNIT {
                stockpile.food = take_from(stockpile.food, UNIT);
                row.beaver.hunger = 0;
            } else {
                row.beaver.hunger = HUNGER_FULL;
                deprived = true;
            }
        }
        if row.beaver.thirst >= THIRST_FULL {
            if stockpile.water >= UNIT {
                stockpile.water = take_from(stockpile.water, UNIT);
                row.beaver.thirst = 0;
            } else {
                row.beaver.thirst = THIRST_FULL;
                deprived = true;
            }
        }
        if deprived {
            if row.beaver.starving == 0 {
                events.push(NeedEvent::Starves(row.id));
                if *starving < u32::MAX {
                    *starving = *starving + 1;
                }
            }
            row.beaver.starving = row.beaver.starving + dt as u64;
            if row.beaver.starving > STARVE_LIMIT {
                events.push(NeedEvent::Dies(row.id));
                if *starving > 0 {
                    *starving = *starving - 1;
                }
            }
        } else if row.beaver.starving > 0 {
            row.beaver.starving = 0;
            events.push(NeedEvent::Recovers(row.id));
            if *starving > 0 {
                *starving = *starving - 1;
            }
        }
        rows.set(i, row);
        proof {
            assert((Needs { stock: *stockpile, starving: *starving, events: events@ }) =~= now.met(
                before[i as int],
                dt,
            ));
            assert(row.beaver == before[i as int].beaver.lived(now.stock, dt));
        }
        i += 1;
    }
    proof {
        assert(rows@ =~= Seq::new(
            before.len(),
            |i: int|
                BeaverRow {
                    beaver: before[i].beaver.lived(
                        start.met_upto(before, dt, i as nat).stock,
                        dt,
                    ),
                    ..before[i]
                },
        ));
    }
    events
}

/// Beavers that do not die stay within what a living beaver can feel.
pub proof fn the_living_stay_alive(beaver: Beaver, stock: Stockpile, dt: u32)
    requires
        beaver.wf(),
        !beaver.dies(stock, dt),
    ensures
        beaver.lived(stock, dt).wf(),
{
}

/// Only a beaver that has gone without for longer than the limit dies: one with
/// all it needs, or one whose last lack ended, has the whole time before it.
pub proof fn no_beaver_dies_fed(beaver: Beaver, stock: Stockpile, dt: u32)
    requires
        beaver.wf(),
    ensures
        beaver.dies(stock, dt) ==> beaver.deprived(stock, dt) && beaver.lived(stock, dt).starving
            > STARVE_LIMIT,
        !beaver.deprived(stock, dt) ==> beaver.lived(stock, dt).starving == 0,
        stock.food >= UNIT && stock.water >= UNIT ==> !beaver.dies(stock, dt),
{
}

} // verus!
