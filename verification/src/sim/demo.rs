//! The demonstration: a simpler governor, that watches the drought forecast and
//! paves its roads when it has nothing else to do.
use vstd::prelude::*;

use crate::sim::beavers::JobRow;
use crate::sim::buildings::{def, placement_error, BuildingKind, BuildingRow};
use crate::sim::governor::{build, settle_for, GovernorView, Scene};
use crate::sim::map::{MapView, TileMap, TilePos};
use crate::sim::season::Population;
use crate::sim::sites::{colony_anchor, count_kind, count_sites, find_spot};
use crate::sim::stock::Stockpile;
use crate::sim::trees::TreeRow;

verus! {

/// The time between two beats, in microseconds.
pub const DEMO_BEAT: u64 = 3_500_000;

/// What the governor of a demonstration has in mind.
pub struct DemoGovernor {
    /// The time until the next beat, in microseconds.
    pub cooldown: u64,
    /// The road: tiles still to pave, the next one last.
    pub road: Vec<TilePos>,
}

impl View for DemoGovernor {
    type V = GovernorView;

    open spec fn view(&self) -> GovernorView {
        GovernorView {
            cooldown: self.cooldown,
            road: self.road@,
            dam_project: seq![],
            last_built: None,
        }
    }
}

/// What the colony needs most. Dams are for a grim forecast (in millionths of
/// the water that survives), and two are enough.
pub open spec fn demo_wanted(
    stock: Stockpile,
    pop: Population,
    rows: Seq<BuildingRow>,
    trees: nat,
    retention: Option<u32>,
) -> Option<BuildingKind> {
    let lumberjacks = crate::sim::sites::count_of(rows, BuildingKind::Lumberjack);
    let pumps = crate::sim::sites::count_of(rows, BuildingKind::WaterPump);
    let farms = crate::sim::sites::count_of(rows, BuildingKind::CarrotFarm);
    if lumberjacks == 0 {
        Some(BuildingKind::Lumberjack)
    } else if pumps == 0 {
        Some(BuildingKind::WaterPump)
    } else if farms == 0 {
        Some(BuildingKind::CarrotFarm)
    } else if stock.water < 20 && pumps < 4 {
        Some(BuildingKind::WaterPump)
    } else if stock.food < 20 && farms < 4 {
        Some(BuildingKind::CarrotFarm)
    } else if lumberjacks < 2 && stock.logs < 50 {
        Some(BuildingKind::Lumberjack)
    } else if pop.count >= pop.cap {
        Some(BuildingKind::Lodge)
    } else if (retention matches Some(r) && r < 400_000) && crate::sim::sites::count_of(
        rows,
        BuildingKind::Dam,
    ) < 2 {
        Some(BuildingKind::Dam)
    } else if crate::sim::sites::count_of(rows, BuildingKind::Forester) == 0 && trees < 200 {
        Some(BuildingKind::Forester)
    } else {
        None
    }
}

pub fn choose_demo_building(
    stock: &Stockpile,
    population: &Population,
    rows: &Vec<BuildingRow>,
    trees: usize,
    retention: Option<u32>,
) -> (r: Option<BuildingKind>)
    ensures
        r == demo_wanted(*stock, *population, rows@, trees as nat, retention),
{
    let lumberjacks: usize = count_kind(rows, BuildingKind::Lumberjack);
    let pumps: usize = count_kind(rows, BuildingKind::WaterPump);
    let farms: usize = count_kind(rows, BuildingKind::CarrotFarm);
    let grim = match retention {
        Some(r) => r < 400_000,
        None => false,
    };
    if lumberjacks == 0 {
        Some(BuildingKind::Lumberjack)
    } else if pumps == 0 {
        Some(BuildingKind::WaterPump)
    } else if farms == 0 {
        Some(BuildingKind::CarrotFarm)
    } else if stock.water < 20 && pumps < 4 {
        Some(BuildingKind::WaterPump)
    } else if stock.food < 20 && farms < 4 {
        Some(BuildingKind::CarrotFarm)
    } else if lumberjacks < 2 && stock.logs < 50 {
        Some(BuildingKind::Lumberjack)
    } else if population.count >= population.cap {
        Some(BuildingKind::Lodge)
    } else if grim && count_kind(rows, BuildingKind::Dam) < 2 {
        Some(BuildingKind::Dam)
    } else if count_kind(rows, BuildingKind::Forester) == 0 && trees < 200 {
        Some(BuildingKind::Forester)
    } else {
        None
    }
}

/// The size of a number.
pub open spec fn size_of_step(d: int) -> nat {
    if d < 0 {
        (-d) as nat
    } else {
        d as nat
    }
}

/// One step from `d` towards nought.
pub open spec fn direction(d: int) -> int {
    if d < 0 {
        -1
    } else if d > 0 {
        1
    } else {
        0
    }
}

/// The tile after `from` on the way to `to`: a step along the longer side.
pub open spec fn toward(from: TilePos, to: TilePos) -> TilePos {
    let dx = to.x - from.x;
    let dy = to.y - from.y;
    if size_of_step(dx) >= size_of_step(dy) {
        TilePos { x: (from.x + direction(dx)) as u32, ..from }
    } else {
        TilePos { y: (from.y + direction(dy)) as u32, ..from }
    }
}

/// How many steps it is from one tile to the other.
pub open spec fn steps(from: TilePos, to: TilePos) -> nat {
    size_of_step(to.x - from.x) + size_of_step(to.y - from.y)
}

/// The tiles between two tiles.
pub open spec fn line(from: TilePos, to: TilePos) -> Seq<TilePos>
    decreases steps(from, to),
{
    if from == to || toward(from, to) == to {
        seq![]
    } else {
        seq![toward(from, to)] + line(toward(from, to), to)
    }
}

/// The line between two tiles, without these two, the end first: to be paved
/// from the colony outward, it is taken from its end.
pub fn line_between(from: TilePos, to: TilePos) -> (r: Vec<TilePos>)
    ensures
        r@ == line(from, to).reverse(),
{
    let mut here = from;
    let mut tiles: Vec<TilePos> = Vec::new();
    while here.x != to.x || here.y != to.y
        invariant
            from != to ==> tiles@ + line(here, to) == line(from, to),
            from == to ==> here == to && tiles@.len() == 0,
        decreases steps(here, to),
    {
        let ghost was = here;
        let ghost had = tiles@;
        let dx: u32 = if here.x < to.x {
            to.x - here.x
        } else {
            here.x - to.x
        };
        let dy: u32 = if here.y < to.y {
            to.y - here.y
        } else {
            here.y - to.y
        };
        if dx >= dy {
            here.x = if here.x < to.x {
                here.x + 1
            } else {
                here.x - 1
            };
        } else {
            here.y = if here.y < to.y {
                here.y + 1
            } else {
                here.y - 1
            };
        }
        assert(here == toward(was, to));
        if here.x != to.x || here.y != to.y {
            tiles.push(here);
            assert(tiles@ + line(here, to) =~= had + line(was, to));
        } else {
            assert(tiles@ + line(here, to) =~= had + line(was, to));
        }
    }
    assert(tiles@ =~= line(from, to));
    let n: usize = tiles.len();
    let mut r: Vec<TilePos> = Vec::new();
    while r.len() < n
        invariant
            n == tiles@.len(),
            r@.len() <= n,
            forall|k: int| 0 <= k < r@.len() ==> r@[k] == tiles@[n - 1 - k],
        decreases n - r@.len(),
    {
        let at: usize = n - 1 - r.len();
        r.push(tiles[at]);
    }
    assert(r@ =~= line(from, to).reverse());
    r
}

/// Are two tiles next to each other?
pub open spec fn touch(a: TilePos, b: TilePos) -> bool {
    steps(a, b) == 1
}

/// A line leads from the one tile to the other without a gap, and is no longer
/// than it has to be.
pub proof fn lines_have_no_gaps(from: TilePos, to: TilePos)
    requires
        from != to,
    ensures
        line(from, to).len() == steps(from, to) - 1,
        ({
            let whole = seq![from] + line(from, to) + seq![to];
            forall|i: int| 1 <= i < whole.len() ==> touch(whole[i - 1], #[trigger] whole[i])
        }),
    decreases steps(from, to),
{
    let next = toward(from, to);
    assert(touch(from, next));
    let whole = seq![from] + line(from, to) + seq![to];
    if next == to {
        assert(whole =~= seq![from, to]);
    } else {
        lines_have_no_gaps(next, to);
        let rest = seq![next] + line(next, to) + seq![to];
        assert(whole =~= seq![from] + rest);
        assert forall|i: int| 1 <= i < whole.len() implies touch(
            whole[i - 1],
            #[trigger] whole[i],
        ) by {
            if i > 1 {
                assert(whole[i] == rest[i - 1]);
                assert(whole[i - 1] == rest[i - 2]);
            }
        }
    }
}

/// Lines stay within the rectangle that their ends span.
proof fn lines_stay_inside(from: TilePos, to: TilePos, map: MapView)
    requires
        map.holds(from),
        map.holds(to),
    ensures
        crate::sim::governor::all_on(line(from, to), map),
    decreases steps(from, to),
{
    if from != to && toward(from, to) != to {
        let next = toward(from, to);
        lines_stay_inside(next, to, map);
        assert forall|i: int| 0 <= i < line(from, to).len() implies map.holds(
            #[trigger] line(from, to)[i],
        ) by {
            if i > 0 {
                assert(line(from, to)[i] == line(next, to)[i - 1]);
            }
        }
    }
}

impl Scene {
    /// The next tile of the road that can be paved is paved; those that cannot
    /// are left out. Without logs the road waits.
    pub open spec fn paved_on(self) -> Scene
        decreases self.governor.road.len(),
    {
        let road = self.governor.road;
        if road.len() == 0 || !crate::sim::governor::affordable(self.stock, BuildingKind::Path) {
            self
        } else if self.map.refusal(BuildingKind::Path, road.last()) is None {
            self.with_road(road.drop_last()).place(BuildingKind::Path, road.last())
        } else {
            self.with_road(road.drop_last()).paved_on()
        }
    }

    /// The choice is built, and a road to it begun.
    pub open spec fn demo_built(
        self,
        rows: Seq<BuildingRow>,
        trees: Seq<TreeRow>,
        kind: BuildingKind,
    ) -> Scene {
        let anchor = self.map.anchor(rows);
        match self.map.best_spot(kind, trees, anchor, self.map.size() as nat) {
            None => self,
            Some(tile) => {
                let built = self.place(kind, tile);
                if kind == BuildingKind::Lumberjack || kind == BuildingKind::WaterPump || kind
                    == BuildingKind::CarrotFarm {
                    built.with_road(line(anchor, tile).reverse())
                } else {
                    built
                }
            },
        }
    }

    /// What comes of `dt` microseconds.
    pub open spec fn demo_governed(
        self,
        pop: Population,
        rows: Seq<BuildingRow>,
        trees: Seq<TreeRow>,
        retention: Option<u32>,
        dt: u32,
    ) -> Scene {
        if self.governor.cooldown > dt {
            self.with_cooldown((self.governor.cooldown - dt) as u64)
        } else {
            let b = self.with_cooldown(DEMO_BEAT);
            if crate::sim::sites::sites_of(rows) >= crate::sim::governor::CREWS {
                b
            } else {
                match demo_wanted(b.stock, pop, rows, trees.len(), retention) {
                    None => b.paved_on(),
                    Some(kind) => match crate::sim::governor::paid_for(b.stock, rows, kind) {
                        None => b,
                        Some(kind) => b.demo_built(rows, trees, kind),
                    },
                }
            }
        }
    }
}

impl DemoGovernor {
    /// A governor that acts at once.
    pub fn new() -> (r: DemoGovernor)
        ensures
            r.cooldown == 0,
            r.road@.len() == 0,
    {
        DemoGovernor { cooldown: 0, road: Vec::new() }
    }

    fn pave_on(
        &mut self,
        map: &mut TileMap,
        stock: &mut Stockpile,
        fresh: &mut Vec<u64>,
        placed: &mut Vec<(BuildingRow, JobRow)>,
    )
        requires
            old(map).wf(),
            crate::sim::governor::all_on(old(self).road@, old(map)@),
            old(fresh)@.len() >= 2,
        ensures
            final(map).wf(),
            crate::sim::governor::all_on(final(self).road@, final(map)@),
            crate::sim::governor::scene(
                final(self)@,
                final(map)@,
                *final(stock),
                final(fresh)@,
                final(placed)@,
            ) == crate::sim::governor::scene(
                old(self)@,
                old(map)@,
                *old(stock),
                old(fresh)@,
                old(placed)@,
            ).paved_on(),
    {
        let ghost want = crate::sim::governor::scene(
            self@,
            map@,
            *stock,
            fresh@,
            placed@,
        ).paved_on();
        let d = def(BuildingKind::Path);
        while self.road.len() > 0
            invariant
                map.wf(),
                crate::sim::governor::all_on(self.road@, map@),
                fresh@.len() >= 2,
                d.describes(BuildingKind::Path),
                want == crate::sim::governor::scene(
                    old(self)@,
                    old(map)@,
                    *old(stock),
                    old(fresh)@,
                    old(placed)@,
                ).paved_on(),
                want == crate::sim::governor::scene(
                    self@,
                    map@,
                    *stock,
                    fresh@,
                    placed@,
                ).paved_on(),
            decreases self.road@.len(),
        {
            let last: usize = self.road.len() - 1;
            let tile: TilePos = self.road[last];
            let ghost now = crate::sim::governor::scene(self@, map@, *stock, fresh@, placed@);
            if stock.logs < d.cost_logs {
                return;
            }
            self.road.truncate(last);
            assert(self.road@ =~= now.governor.road.drop_last());
            assert(crate::sim::governor::scene(self@, map@, *stock, fresh@, placed@)
                =~= now.with_road(now.governor.road.drop_last()));
            if placement_error(map, BuildingKind::Path, tile).is_none() {
                build(map, stock, fresh, placed, BuildingKind::Path, tile);
                return;
            }
        }
    }

    /// Govern the colony for `dt` microseconds: one action at every beat.
    /// `retention` is the forecast, if there is one. Gives back the buildings
    /// placed, with the jobs of building them; their entities are taken from
    /// the end of `fresh`.
    pub fn govern(
        &mut self,
        map: &mut TileMap,
        stockpile: &mut Stockpile,
        population: &Population,
        rows: &Vec<BuildingRow>,
        trees: &Vec<TreeRow>,
        retention: Option<u32>,
        fresh: &mut Vec<u64>,
        dt: u32,
    ) -> (placed: Vec<(BuildingRow, JobRow)>)
        requires
            old(map).wf(),
            crate::sim::governor::all_on(old(self).road@, old(map)@),
            old(fresh)@.len() >= 2,
            crate::sim::trees::trees_stand(trees@, old(map)@),
            crate::sim::buildings::buildings_stand(rows@, old(map)@),
        ensures
            final(map).wf(),
            crate::sim::governor::all_on(final(self).road@, final(map)@),
            crate::sim::governor::scene(
                final(self)@,
                final(map)@,
                *final(stockpile),
                final(fresh)@,
                placed@,
            ) == crate::sim::governor::scene(
                old(self)@,
                old(map)@,
                *old(stockpile),
                old(fresh)@,
                seq![],
            ).demo_governed(*population, rows@, trees@, retention, dt),
    {
        let mut placed: Vec<(BuildingRow, JobRow)> = Vec::new();
        assert(placed@ =~= seq![]);
        let ghost before = crate::sim::governor::scene(self@, map@, *stockpile, fresh@, seq![]);
        if self.cooldown > dt as u64 {
            self.cooldown = self.cooldown - dt as u64;
            return placed;
        }
        self.cooldown = DEMO_BEAT;
        let ghost b = crate::sim::governor::scene(self@, map@, *stockpile, fresh@, placed@);
        assert(b =~= before.with_cooldown(DEMO_BEAT));
        if count_sites(rows) >= crate::sim::governor::CREWS {
            return placed;
        }
        let anchor = colony_anchor(map, rows);
        match choose_demo_building(stockpile, population, rows, trees.len(), retention) {
            None => {
                self.pave_on(map, stockpile, fresh, &mut placed);
            },
            Some(choice) => {
                if let Some(kind) = settle_for(stockpile, rows, choice) {
                    if let Some(tile) = find_spot(map, kind, anchor, trees, None) {
                        build(map, stockpile, fresh, &mut placed, kind, tile);
                        assert(crate::sim::governor::scene(
                            self@,
                            map@,
                            *stockpile,
                            fresh@,
                            placed@,
                        ) == b.place(kind, tile));
                        if kind == BuildingKind::Lumberjack || kind == BuildingKind::WaterPump
                            || kind == BuildingKind::CarrotFarm {
                            self.road = line_between(anchor, tile);
                            proof {
                                lines_stay_inside(anchor, tile, map@);
                                let l = line(anchor, tile);
                                assert forall|i: int| 0 <= i < self.road@.len() implies map@.holds(
                                    #[trigger] self.road@[i],
                                ) by {
                                    assert(map@.holds(l[l.len() - 1 - i]));
                                }
                            }
                        }
                    }
                }
            },
        }
        placed
    }
}

} // verus!
