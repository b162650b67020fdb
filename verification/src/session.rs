//! A game from its start to its end: how it begins, how it begins anew, and
//! what the demonstration does when its colony falls.
use vstd::prelude::*;

use crate::chronicle::Chronicle;
use crate::interact::Tool;
use crate::sim::beavers::JobRow;
use crate::sim::buildings::{placement_error, BuildingKind, BuildingRow};
use crate::sim::colony::Colony;
use crate::sim::governor::build;
use crate::sim::map::{MapView, TileMap, TilePos};
use crate::sim::season::{Clock, ColonyStats, Population, Season};
use crate::sim::sites::tile_distance;
use crate::sim::stock::{add_to, Stockpile};

verus! {

/// Where the game is: it plays itself, it is played, or it is over.
#[derive(Clone, Copy, PartialEq, Eq, Structural, Debug)]
pub enum AppState {
    Intro,
    Playing,
    GameOver,
}

/// What ends the introduction, and what founds a new colony when one has
/// fallen: a click, or one of two keys.
#[derive(Clone, Copy, PartialEq, Eq, Structural, Debug)]
pub struct StartInput {
    pub click: bool,
    pub space: bool,
    pub enter: bool,
}

/// Does the game begin? It does at the player's word, and the introduction ends
/// by itself after some time if it was told to. Times are in microseconds.
pub fn starts(input: StartInput, elapsed: u64, auto_after: Option<u64>) -> (r: bool)
    ensures
        r == (input.click || input.space || input.enter || (auto_after matches Some(t) && elapsed
            > t)),
{
    let auto = match auto_after {
        Some(t) => elapsed > t,
        None => false,
    };
    auto || input.click || input.space || input.enter
}

/// All that begins anew with a colony, but for the map, who lives on it and what
/// was written of it.
#[derive(Clone, Copy, PartialEq, Eq, Structural, Debug)]
pub struct Session {
    pub stock: Stockpile,
    pub season: Season,
    pub population: Population,
    /// How many beavers starve.
    pub starving: u32,
    pub stats: ColonyStats,
    pub tool: Tool,
    pub selected: Option<u64>,
    pub hover: Option<TilePos>,
    pub clock: Clock,
}

impl Session {
    /// What a colony begins with.
    pub open spec fn first(clock: Clock) -> Session {
        Session {
            stock: Stockpile { logs: 60, food: 24, water: 24 },
            season: Season {
                drought: false,
                remaining: 90_000_000,
                day: 1,
                cycle: 0,
                day_timer: 0,
            },
            population: Population { count: 0, cap: 0 },
            starving: 0,
            stats: ColonyStats { started: false, peak: 0 },
            tool: Tool::Select,
            selected: None,
            hover: None,
            clock,
        }
    }

    /// Begin anew: nobody lives on the map, and nothing is written. The clock runs,
    /// at its usual speed unless `fast` says that its speed is not to be touched.
    /// Gives back the numbers of what lived and stood.
    pub fn reset(
        &mut self,
        colony: &mut Colony,
        chronicle: &mut Chronicle,
        fast: bool,
    ) -> (gone: Vec<u64>)
        ensures
            final(colony)@ == crate::sim::colony::ColonyView::empty(),
            final(chronicle)@ == Seq::<Seq<char>>::empty(),
            gone@ == old(colony)@.residents(),
            *final(self) == Session::first(
                Clock {
                    paused: false,
                    speed: if fast {
                        old(self).clock.speed
                    } else {
                        1
                    },
                },
            ),
    {
        self.stock = Stockpile::initial();
        self.season = Season::new();
        self.population = Population { count: 0, cap: 0 };
        self.starving = 0;
        self.stats = ColonyStats { started: false, peak: 0 };
        self.tool = Tool::Select;
        self.selected = None;
        self.hover = None;
        self.clock.paused = false;
        if !fast {
            self.clock.speed = 1;
        }
        chronicle.clear();
        colony.disband()
    }
}

/// How long the demonstration lingers on a fallen colony, in microseconds.
pub const LINGER: u64 = 6_000_000;

/// Watches over the colony of the demonstration.
#[derive(Clone, Copy, PartialEq, Eq, Structural, Debug)]
pub struct DemoWatch {
    /// Did it live when it was last seen to?
    pub alive: bool,
    /// Microseconds since it fell.
    pub fallen_for: u64,
}

impl DemoWatch {
    pub open spec fn watched(self, population: u32, dt: u32) -> DemoWatch {
        if population > 0 {
            DemoWatch { alive: true, fallen_for: 0 }
        } else if !self.alive {
            self
        } else if self.fallen_for + dt < LINGER {
            DemoWatch { alive: true, fallen_for: (self.fallen_for + dt) as u64 }
        } else {
            DemoWatch { alive: false, fallen_for: 0 }
        }
    }

    /// Watch for `dt` microseconds. The answer is whether to begin anew: the
    /// demonstration neither shows the end of the game nor stays on a dead
    /// world for good.
    pub fn restart_demo_if_fallen(&mut self, population: u32, dt: u32) -> (restart: bool)
        requires
            old(self).fallen_for < LINGER,
        ensures
            final(self).fallen_for < LINGER,
            *final(self) == old(self).watched(population, dt),
            restart == (population == 0 && old(self).alive && old(self).fallen_for + dt >= LINGER),
    {
        if population > 0 {
            self.alive = true;
            self.fallen_for = 0;
            return false;
        }
        if !self.alive {
            return false;
        }
        let t: u64 = self.fallen_for + dt as u64;
        if t < LINGER {
            self.fallen_for = t;
            return false;
        }
        self.alive = false;
        self.fallen_for = 0;
        true
    }
}

/// A demonstration is begun anew once for each fall: not again until its new
/// colony has lived.
pub proof fn one_restart_a_fall(w: DemoWatch, dt: u32, later: u32)
    requires
        w.alive,
        w.fallen_for + dt >= LINGER,
    ensures
        !w.watched(0, dt).alive,
        w.watched(0, dt).watched(0, later) == w.watched(0, dt),
{
}

impl MapView {
    /// The tile nearest to `by` among the first `n` where a building of this
    /// kind may stand, the first of those that are equally near.
    pub open spec fn nearest_place(self, kind: BuildingKind, by: TilePos, n: nat) -> Option<TilePos>
        decreases n,
    {
        if n == 0 {
            None
        } else {
            let prior = self.nearest_place(kind, by, (n - 1) as nat);
            let t = self.tile_of(n - 1);
            if self.refusal(kind, t) is Some {
                prior
            } else {
                match prior {
                    None => Some(t),
                    Some(p) => if crate::sim::sites::tiles_apart(t, by)
                        < crate::sim::sites::tiles_apart(p, by) {
                        Some(t)
                    } else {
                        Some(p)
                    },
                }
            }
        }
    }
}

/// The tile nearest to `by` where a building of this kind may stand.
pub fn nearest_place(map: &TileMap, kind: BuildingKind, by: TilePos) -> (r: Option<TilePos>)
    requires
        map.wf(),
        by.x <= 0x3fff_ffff && by.y <= 0x3fff_ffff,
    ensures
        r == map@.nearest_place(kind, by, map@.size() as nat),
        r matches Some(t) ==> map@.holds(t),
{
    let n: usize = map.water.len();
    let mut best: Option<TilePos> = None;
    let mut best_dist: u64 = 0;
    let mut i: usize = 0;
    while i < n
        invariant
            map.wf(),
            n == map@.size(),
            i <= n,
            by.x <= 0x3fff_ffff && by.y <= 0x3fff_ffff,
            best == map@.nearest_place(kind, by, i as nat),
            best matches Some(t) ==> best_dist == crate::sim::sites::tiles_apart(t, by)
                && map@.holds(t),
        decreases n - i,
    {
        proof {
            crate::sim::map::places_have_tiles(map.width, map.height, i as int);
        }
        let t = TilePos { x: i as u32 % map.width, y: i as u32 / map.width };
        assert(t == map@.tile_of(i as int));
        if placement_error(map, kind, t).is_none() {
            let dist: u64 = tile_distance(t, by);
            let better = match best {
                None => true,
                Some(_) => dist < best_dist,
            };
            if better {
                best = Some(t);
                best_dist = dist;
            }
        }
        i += 1;
    }
    best
}

/// What is built for a look at everything: one of each, and a stretch of path.
pub open spec fn showcase() -> Seq<BuildingKind> {
    seq![
        BuildingKind::Lodge,
        BuildingKind::WaterPump,
        BuildingKind::CarrotFarm,
        BuildingKind::Lumberjack,
        BuildingKind::Forester,
        BuildingKind::Dam,
        BuildingKind::Path,
        BuildingKind::Path,
        BuildingKind::Path,
    ]
}

/// What is done at a showcase: the map, the stores, the entities left over, the
/// buildings placed, and the lodge, which is selected.
#[verifier::ext_equal]
pub ghost struct Show {
    pub map: MapView,
    pub stock: Stockpile,
    pub fresh: Seq<u64>,
    pub placed: Seq<(BuildingRow, JobRow)>,
    pub selected: Option<u64>,
}

impl Show {
    /// A building is placed as near to the middle as it may stand, if it may
    /// anywhere.
    pub open spec fn add_one(self, kind: BuildingKind) -> Show {
        match self.map.nearest_place(kind, self.map.middle(), self.map.size() as nat) {
            None => self,
            Some(tile) => {
                let n = self.fresh.len() as int;
                let id = self.fresh[n - 1];
                Show {
                    map: self.map.with_building(kind, tile, id),
                    stock: Stockpile {
                        logs: crate::sim::stock::plus(self.stock.logs, -kind.cost()),
                        ..self.stock
                    },
                    fresh: self.fresh.take(n - 2),
                    placed: self.placed.push(
                        (
                            crate::sim::buildings::placed_row(kind, tile, id),
                            crate::sim::buildings::build_job(kind, tile, id, self.fresh[n - 2]),
                        ),
                    ),
                    selected: if kind == BuildingKind::Lodge {
                        Some(id)
                    } else {
                        self.selected
                    },
                }
            },
        }
    }

    /// The first `n` of the showcase are placed.
    pub open spec fn add_upto(self, n: nat) -> Show
        decreases n,
    {
        if n == 0 {
            self
        } else {
            self.add_upto((n - 1) as nat).add_one(showcase()[n - 1])
        }
    }
}

fn showcase_kind(i: usize) -> (r: BuildingKind)
    requires
        i < 9,
    ensures
        r == showcase()[i as int],
{
    if i == 0 {
        BuildingKind::Lodge
    } else if i == 1 {
        BuildingKind::WaterPump
    } else if i == 2 {
        BuildingKind::CarrotFarm
    } else if i == 3 {
        BuildingKind::Lumberjack
    } else if i == 4 {
        BuildingKind::Forester
    } else if i == 5 {
        BuildingKind::Dam
    } else {
        BuildingKind::Path
    }
}

/// Build one of each kind, for a look at everything: a hundred logs come for
/// it, and the lodge is selected. Entities are taken from the end of `fresh`.
pub fn autobuild(
    map: &mut TileMap,
    stockpile: &mut Stockpile,
    selected: &mut Option<u64>,
    fresh: &mut Vec<u64>,
) -> (placed: Vec<(BuildingRow, JobRow)>)
    requires
        old(map).wf(),
        old(fresh)@.len() >= 18,
    ensures
        final(map).wf(),
        (Show {
            map: final(map)@,
            stock: *final(stockpile),
            fresh: final(fresh)@,
            placed: placed@,
            selected: *final(selected),
        }) == (Show {
            map: old(map)@,
            stock: Stockpile {
                logs: crate::sim::stock::plus(old(stockpile).logs, 200),
                ..*old(stockpile)
            },
            fresh: old(fresh)@,
            placed: seq![],
            selected: *old(selected),
        }).add_upto(9),
{
    stockpile.logs = add_to(stockpile.logs, 200);
    let mut placed: Vec<(BuildingRow, JobRow)> = Vec::new();
    let ghost begin = Show {
        map: map@,
        stock: *stockpile,
        fresh: fresh@,
        placed: seq![],
        selected: *selected,
    };
    let center = TilePos { x: map.width / 2, y: map.height / 2 };
    let mut i: usize = 0;
    assert(placed@ =~= seq![]);
    while i < 9
        invariant
            i <= 9,
            map.wf(),
            center == map@.middle(),
            map.width <= 0x3fff_ffff && map.height <= 0x3fff_ffff,
            fresh@.len() >= 18 - 2 * i,
            (Show {
                map: map@,
                stock: *stockpile,
                fresh: fresh@,
                placed: placed@,
                selected: *selected,
            }) == begin.add_upto(i as nat),
        decreases 9 - i,
    {
        let kind = showcase_kind(i);
        let ghost now = begin.add_upto(i as nat);
        let spot = nearest_place(map, kind, center);
        if let Some(tile) = spot {
            let last: usize = fresh.len() - 1;
            let id: u64 = fresh[last];
            let ghost s = crate::sim::governor::scene(
                crate::sim::governor::GovernorView {
                    cooldown: 0,
                    road: seq![],
                    dam_project: seq![],
                    last_built: None,
                },
                map@,
                *stockpile,
                fresh@,
                placed@,
            );
            build(map, stockpile, fresh, &mut placed, kind, tile);
            assert(crate::sim::governor::scene(
                s.governor,
                map@,
                *stockpile,
                fresh@,
                placed@,
            ) == s.place(kind, tile));
            if kind == BuildingKind::Lodge {
                *selected = Some(id);
            }
        }
        i += 1;
    }
    placed
}

} // verus!
