//! The governor: the colony plays itself, one deliberate action at a beat.
use vstd::prelude::*;

use crate::sim::beavers::JobRow;
use crate::sim::buildings::{def, place_building, placement_error, BuildingKind, BuildingRow};
use crate::sim::claims::walk_grid;
use crate::sim::crossing::plan_dam_crossing;
use crate::sim::map::{MapView, TileMap, TilePos};
use crate::sim::pathfind::{find_path, Field};
use crate::sim::season::Population;
use crate::sim::sites::{colony_anchor, count_kind, count_sites, find_spot, first_kind};
use crate::sim::stock::Stockpile;
use crate::sim::trees::TreeRow;

verus! {

/// The time between two beats, in microseconds.
pub const BEAT: u64 = 2_000_000;

/// How many buildings may be under construction before the governor waits.
pub const CREWS: usize = 2;

/// What the governor has in mind.
pub struct Governor {
    /// The time until the next beat, in microseconds.
    pub cooldown: u64,
    /// The road: tiles still to pave, the next one last.
    pub road: Vec<TilePos>,
    /// The dam: tiles of the wall still to build, the next one last.
    pub dam_project: Vec<TilePos>,
    /// The most recent building, for the camera to look at.
    pub last_built: Option<TilePos>,
}

#[verifier::ext_equal]
pub ghost struct GovernorView {
    pub cooldown: u64,
    pub road: Seq<TilePos>,
    pub dam_project: Seq<TilePos>,
    pub last_built: Option<TilePos>,
}

impl View for Governor {
    type V = GovernorView;

    open spec fn view(&self) -> GovernorView {
        GovernorView {
            cooldown: self.cooldown,
            road: self.road@,
            dam_project: self.dam_project@,
            last_built: self.last_built,
        }
    }
}

/// All of these tiles are on the map.
pub open spec fn all_on(tiles: Seq<TilePos>, map: MapView) -> bool {
    forall|i: int| 0 <= i < tiles.len() ==> map.holds(#[trigger] tiles[i])
}

impl GovernorView {
    /// What is planned is planned on the map.
    pub open spec fn wf(self, map: MapView) -> bool {
        all_on(self.road, map) && all_on(self.dam_project, map)
    }
}

/// What a beat changes: the governor's mind, the map, the stores, the entities
/// that are left for new things, and the buildings placed with their jobs.
#[verifier::ext_equal]
pub ghost struct Scene {
    pub governor: GovernorView,
    pub map: MapView,
    pub stock: Stockpile,
    pub fresh: Seq<u64>,
    pub placed: Seq<(BuildingRow, JobRow)>,
}

/// Are there logs enough for a building of this kind?
pub open spec fn affordable(stock: Stockpile, kind: BuildingKind) -> bool {
    stock.logs >= kind.cost()
}

impl Scene {
    /// A building is placed. Its entity and that of its job are the last two
    /// of `fresh`.
    pub open spec fn place(self, kind: BuildingKind, tile: TilePos) -> Scene {
        let n = self.fresh.len() as int;
        let id = self.fresh[n - 1];
        Scene {
            map: self.map.with_building(kind, tile, id),
            stock: Stockpile {
                logs: crate::sim::stock::plus(self.stock.logs, -kind.cost()),
                ..self.stock
            },
            fresh: self.fresh.take(n - 2),
            placed: self.placed.push(
                (
                    crate::sim::buildings::placed_row(kind, tile, id),
                    crate::sim::buildings::build_job(kind, tile, id, self.fresh[n - 2]),
                ),
            ),
            ..self
        }
    }

    pub open spec fn with_road(self, road: Seq<TilePos>) -> Scene {
        Scene { governor: GovernorView { road, ..self.governor }, ..self }
    }

    pub open spec fn with_project(self, dam_project: Seq<TilePos>) -> Scene {
        Scene { governor: GovernorView { dam_project, ..self.governor }, ..self }
    }

    pub open spec fn with_cooldown(self, cooldown: u64) -> Scene {
        Scene { governor: GovernorView { cooldown, ..self.governor }, ..self }
    }

    pub open spec fn with_built(self, tile: TilePos) -> Scene {
        Scene { governor: GovernorView { last_built: Some(tile), ..self.governor }, ..self }
    }

    /// The next tile of the road is paved, if that can be done; it leaves the
    /// road in any case.
    pub open spec fn paved(self) -> Scene {
        let road = self.governor.road;
        if road.len() == 0 {
            self
        } else {
            let rest = self.with_road(road.drop_last());
            if affordable(self.stock, BuildingKind::Path) && self.map.refusal(
                BuildingKind::Path,
                road.last(),
            ) is None {
                rest.place(BuildingKind::Path, road.last())
            } else {
                rest
            }
        }
    }

    /// Is it time to plan the first dam? As soon as a lumberjack earns logs.
    pub open spec fn wants_first_dam(self, rows: Seq<BuildingRow>) -> bool {
        &&& self.governor.dam_project.len() == 0
        &&& crate::sim::sites::count_of(rows, BuildingKind::Dam) == 0
        &&& crate::sim::sites::count_of(rows, BuildingKind::Lumberjack) >= 1
    }

    /// Is it time to plan another dam? Once the colony prospers behind the
    /// first one.
    pub open spec fn wants_another_dam(self, pop: Population, rows: Seq<BuildingRow>) -> bool {
        &&& self.governor.dam_project.len() == 0
        &&& 2 <= crate::sim::sites::count_of(rows, BuildingKind::Dam) < 8
        &&& pop.count >= 6
        &&& self.stock.logs > 70
    }

    /// With a dam planned, if it is time for that.
    pub open spec fn planned(self, pop: Population, rows: Seq<BuildingRow>) -> Scene {
        let anchor = self.map.anchor(rows);
        if self.wants_first_dam(rows) {
            self.with_project(self.map.crossing(anchor, seq![]))
        } else if self.wants_another_dam(pop, rows) {
            self.with_project(self.map.crossing(anchor, dam_tiles(rows)))
        } else {
            self
        }
    }

    /// An unfinished dam comes before growth, once there is a pump and a farm.
    pub open spec fn builds_dam(self, rows: Seq<BuildingRow>) -> bool {
        &&& self.governor.dam_project.len() > 0
        &&& crate::sim::sites::count_of(rows, BuildingKind::WaterPump) >= 1
        &&& crate::sim::sites::count_of(rows, BuildingKind::CarrotFarm) >= 1
    }

    /// Work on the dam: place its next tile, give the dam up where that tile
    /// is blocked, or set up another lumberjack where logs are short.
    pub open spec fn dammed(
        self,
        pop: Population,
        rows: Seq<BuildingRow>,
        trees: Seq<TreeRow>,
    ) -> Scene {
        let tile = self.governor.dam_project.last();
        if affordable(self.stock, BuildingKind::Dam) {
            if self.map.refusal(BuildingKind::Dam, tile) is None {
                self.with_project(self.governor.dam_project.drop_last()).place(
                    BuildingKind::Dam,
                    tile,
                ).with_built(tile)
            } else {
                self.with_project(seq![])
            }
        } else {
            match self.map.best_spot(
                BuildingKind::Lumberjack,
                trees,
                self.map.anchor(rows),
                self.map.size() as nat,
            ) {
                Some(spot) => if crate::sim::sites::count_of(rows, BuildingKind::Lumberjack) < 2
                    + pop.count as int / 3 && affordable(self.stock, BuildingKind::Lumberjack) {
                    self.place(BuildingKind::Lumberjack, spot)
                } else {
                    self
                },
                None => self,
            }
        }
    }

    /// What to build next, and where: the choice, or a lumberjack where the
    /// choice cannot be paid, in the best place there is.
    pub open spec fn next(
        self,
        pop: Population,
        rows: Seq<BuildingRow>,
        trees: Seq<TreeRow>,
    ) -> Option<(BuildingKind, TilePos)> {
        match wanted(self.stock, pop, rows, trees.len()) {
            None => None,
            Some(kind) => match paid_for(self.stock, rows, kind) {
                None => None,
                Some(kind) => match self.map.best_spot(
                    kind,
                    trees,
                    self.aim(rows, kind),
                    self.map.size() as nat,
                ) {
                    None => None,
                    Some(tile) => Some((kind, tile)),
                },
            },
        }
    }

    /// Where to look for a place: by the colony; for pumps half way to the dam,
    /// where the reservoir will be.
    pub open spec fn aim(self, rows: Seq<BuildingRow>, kind: BuildingKind) -> TilePos {
        let anchor = self.map.anchor(rows);
        match self.dam_in_mind(rows) {
            Some(dam) => if kind == BuildingKind::WaterPump {
                TilePos {
                    x: ((anchor.x + dam.x) / 2) as u32,
                    y: ((anchor.y + dam.y) / 2) as u32,
                }
            } else {
                anchor
            },
            None => anchor,
        }
    }

    pub open spec fn dam_in_mind(self, rows: Seq<BuildingRow>) -> Option<TilePos> {
        if self.governor.dam_project.len() > 0 {
            Some(self.governor.dam_project[0])
        } else {
            crate::sim::sites::first_of(rows, BuildingKind::Dam)
        }
    }
}

/// The tiles of the dams there are.
pub open spec fn dam_tiles(rows: Seq<BuildingRow>) -> Seq<TilePos>
    decreases rows.len(),
{
    if rows.len() == 0 {
        seq![]
    } else {
        let before = dam_tiles(rows.drop_last());
        if rows.last().building.kind == BuildingKind::Dam {
            before.push(rows.last().building.tile)
        } else {
            before
        }
    }
}

/// What the colony needs most. Survival comes first: something to live on,
/// water and food; then wood, then growth, which waits for a dam; and what is
/// left over goes into more of the same.
pub open spec fn wanted(
    stock: Stockpile,
    pop: Population,
    rows: Seq<BuildingRow>,
    trees: nat,
) -> Option<BuildingKind> {
    let lumberjacks = crate::sim::sites::count_of(rows, BuildingKind::Lumberjack);
    let pumps = crate::sim::sites::count_of(rows, BuildingKind::WaterPump);
    let farms = crate::sim::sites::count_of(rows, BuildingKind::CarrotFarm);
    let foresters = crate::sim::sites::count_of(rows, BuildingKind::Forester);
    let dams = crate::sim::sites::count_of(rows, BuildingKind::Dam);
    let n = pop.count as int;
    if lumberjacks == 0 {
        Some(BuildingKind::Lumberjack)
    } else if pumps == 0 {
        Some(BuildingKind::WaterPump)
    } else if farms == 0 {
        Some(BuildingKind::CarrotFarm)
    } else if foresters == 0 {
        Some(BuildingKind::Forester)
    } else if stock.water < 2 * (8 + n) && pumps < 1 + n / 3 {
        Some(BuildingKind::WaterPump)
    } else if stock.food < 2 * (8 + n) && farms < 1 + n / 4 {
        Some(BuildingKind::CarrotFarm)
    } else if stock.logs < 50 && lumberjacks < 2 + n / 3 {
        Some(BuildingKind::Lumberjack)
    } else if foresters < 1 + n / 6 && trees < 240 {
        Some(BuildingKind::Forester)
    } else if pop.count >= pop.cap && dams >= 2 {
        Some(BuildingKind::Lodge)
    } else if stock.logs > 70 && dams >= 2 {
        Some(BuildingKind::Lodge)
    } else if stock.logs > 56 {
        if pumps <= farms {
            Some(BuildingKind::WaterPump)
        } else {
            Some(BuildingKind::CarrotFarm)
        }
    } else {
        None
    }
}

/// What is built instead of what is wanted: that itself if it can be paid, else
/// a cheap lumberjack, of whom there are to be three at most, else nothing.
pub open spec fn paid_for(
    stock: Stockpile,
    rows: Seq<BuildingRow>,
    kind: BuildingKind,
) -> Option<BuildingKind> {
    if affordable(stock, kind) {
        Some(kind)
    } else if crate::sim::sites::count_of(rows, BuildingKind::Lumberjack) < 3 && affordable(
        stock,
        BuildingKind::Lumberjack,
    ) {
        Some(BuildingKind::Lumberjack)
    } else {
        None
    }
}

/// Does a road lead to buildings of this kind?
pub open spec fn has_road(kind: BuildingKind) -> bool {
    match kind {
        BuildingKind::Lumberjack
        | BuildingKind::WaterPump
        | BuildingKind::CarrotFarm
        | BuildingKind::Lodge => true,
        _ => false,
    }
}

/// The ground a road to a tile leads over.
pub open spec fn road_field(map: MapView, rows: Seq<BuildingRow>, goal: TilePos) -> Field {
    Field {
        width: map.width,
        height: map.height,
        cost: map.walk_costs(rows, rows.len()),
        goal: map.at(goal),
    }
}

/// The road to a new building: the way that beavers will walk from the colony,
/// without the building's own tile, the first step last. Where there is no way
/// the old road stands.
pub open spec fn road_to(
    map: MapView,
    rows: Seq<BuildingRow>,
    goal: TilePos,
    old_road: Seq<TilePos>,
    road: Seq<TilePos>,
) -> bool {
    let f = road_field(map, rows, goal);
    let start = map.at(map.anchor(rows));
    let way = seq![start] + crate::sim::pathfind::places(map.width, road.reverse());
    if goal == map.anchor(rows) {
        road.len() == 0
    } else if exists|q: Seq<int>| #[trigger] f.route(start, q) {
        &&& f.route(start, way.push(f.goal))
        &&& forall|q: Seq<int>| #[trigger]
            f.route(start, q) ==> f.walk_cost(way.push(f.goal)) <= f.walk_cost(q)
    } else {
        road == old_road
    }
}

/// What comes of a beat once the buildings that are begun leave crews free.
pub open spec fn acted(
    b: Scene,
    after: Scene,
    pop: Population,
    rows: Seq<BuildingRow>,
    trees: Seq<TreeRow>,
) -> bool {
    let p = b.planned(pop, rows);
    if p.builds_dam(rows) {
        after == p.dammed(pop, rows, trees)
    } else {
        match p.next(pop, rows, trees) {
            None => after == p,
            Some((kind, tile)) => {
                let built = p.place(kind, tile).with_built(tile);
                if has_road(kind) {
                    &&& after == built.with_road(after.governor.road)
                    &&& road_to(
                        built.map,
                        rows,
                        tile,
                        built.governor.road,
                        after.governor.road,
                    )
                } else {
                    after == built
                }
            },
        }
    }
}

/// What comes of `dt` microseconds of governing: nothing but waiting until the
/// beat; then the road grows by a tile, and if there are crews free one other
/// thing is done.
pub open spec fn governed(
    before: Scene,
    after: Scene,
    pop: Population,
    rows: Seq<BuildingRow>,
    trees: Seq<TreeRow>,
    dt: u32,
) -> bool {
    if before.governor.cooldown > dt {
        after == before.with_cooldown((before.governor.cooldown - dt) as u64)
    } else {
        let b = before.with_cooldown(BEAT).paved();
        if crate::sim::sites::sites_of(rows) >= CREWS {
            after == b
        } else {
            acted(b, after, pop, rows, trees)
        }
    }
}

impl Governor {
    /// A governor that acts at once.
    pub fn new() -> (r: Governor)
        ensures
            r@ == (GovernorView { cooldown: 0, road: seq![], dam_project: seq![], last_built: None }),
    {
        Governor { cooldown: 0, road: Vec::new(), dam_project: Vec::new(), last_built: None }
    }
}

/// The scene made of its parts.
pub open spec fn scene(
    governor: GovernorView,
    map: MapView,
    stock: Stockpile,
    fresh: Seq<u64>,
    placed: Seq<(BuildingRow, JobRow)>,
) -> Scene {
    Scene { governor, map, stock, fresh, placed }
}

/// Place a building, with entities from the end of `fresh`.
pub(crate) fn build(
    map: &mut TileMap,
    stock: &mut Stockpile,
    fresh: &mut Vec<u64>,
    placed: &mut Vec<(BuildingRow, JobRow)>,
    kind: BuildingKind,
    tile: TilePos,
)
    requires
        old(map).wf(),
        old(map)@.holds(tile),
        old(fresh)@.len() >= 2,
    ensures
        final(map).wf(),
        forall|g: GovernorView|
            #![trigger scene(g, old(map)@, *old(stock), old(fresh)@, old(placed)@)]
            #![trigger scene(g, final(map)@, *final(stock), final(fresh)@, final(placed)@)]
            scene(g, final(map)@, *final(stock), final(fresh)@, final(placed)@) == scene(
                g,
                old(map)@,
                *old(stock),
                old(fresh)@,
                old(placed)@,
            ).place(kind, tile),
{
    let ghost pool = fresh@;
    let at: usize = fresh.len() - 1;
    let id: u64 = fresh[at];
    let job: u64 = fresh[at - 1];
    fresh.truncate(at - 1);
    let row = place_building(map, stock, kind, tile, id, job);
    placed.push(row);
    assert(fresh@ =~= pool.take(pool.len() - 2));
}

fn pave(
    governor: &mut Governor,
    map: &mut TileMap,
    stock: &mut Stockpile,
    fresh: &mut Vec<u64>,
    placed: &mut Vec<(BuildingRow, JobRow)>,
)
    requires
        old(map).wf(),
        old(governor)@.wf(old(map)@),
        old(fresh)@.len() >= 2,
    ensures
        final(map).wf(),
        scene(final(governor)@, final(map)@, *final(stock), final(fresh)@, final(placed)@)
            == scene(
            old(governor)@,
            old(map)@,
            *old(stock),
            old(fresh)@,
            old(placed)@,
        ).paved(),
{
    match governor.road.pop() {
        Some(tile) => {
            assert(old(governor)@.road[old(governor)@.road.len() - 1] == tile);
            assert(governor@.road =~= old(governor)@.road.drop_last());
            let d = def(BuildingKind::Path);
            if stock.logs >= d.cost_logs && placement_error(map, BuildingKind::Path, tile).is_none() {
                build(map, stock, fresh, placed, BuildingKind::Path, tile);
            }
        },
        None => {},
    }
}

fn dams_of(rows: &Vec<BuildingRow>) -> (r: Vec<TilePos>)
    ensures
        r@ == dam_tiles(rows@),
{
    let mut r: Vec<TilePos> = Vec::new();
    let mut i: usize = 0;
    while i < rows.len()
        invariant
            i <= rows@.len(),
            r@ == dam_tiles(rows@.take(i as int)),
        decreases rows@.len() - i,
    {
        proof {
            assert(rows@.take(i + 1).drop_last() =~= rows@.take(i as int));
            assert(rows@.take(i + 1).last() == rows@[i as int]);
        }
        if rows[i].building.kind == BuildingKind::Dam {
            r.push(rows[i].building.tile);
        }
        i += 1;
    }
    assert(rows@.take(i as int) =~= rows@);
    r
}

/// The tiles of a planned crossing are on the map.
proof fn crossings_are_on_the_map(map: MapView, anchor: TilePos, dams: Seq<TilePos>)
    requires
        map.wf(),
    ensures
        all_on(map.crossing(anchor, dams), map),
{
    if map.crossing(anchor, dams).len() > 0 {
        crate::sim::crossing::a_crossing_closes_the_river(map, anchor, dams);
    }
}

fn plan(
    governor: &mut Governor,
    map: &TileMap,
    stock: &Stockpile,
    population: &Population,
    rows: &Vec<BuildingRow>,
    anchor: TilePos,
)
    requires
        map.wf(),
        old(governor)@.wf(map@),
        anchor == map@.anchor(rows@),
        anchor.x <= 0x3fff_ffff,
        anchor.y <= 0x3fff_ffff,
    ensures
        final(governor)@.wf(map@),
        forall|fresh: Seq<u64>, placed: Seq<(BuildingRow, JobRow)>|
            #![trigger scene(old(governor)@, map@, *stock, fresh, placed)]
            scene(final(governor)@, map@, *stock, fresh, placed) == scene(
                old(governor)@,
                map@,
                *stock,
                fresh,
                placed,
            ).planned(*population, rows@),
{
    let dams: usize = count_kind(rows, BuildingKind::Dam);
    if governor.dam_project.len() == 0 && dams == 0 && count_kind(rows, BuildingKind::Lumberjack)
        >= 1 {
        let none: Vec<TilePos> = Vec::new();
        governor.dam_project = plan_dam_crossing(map, anchor, &none);
        proof {
            assert(none@ =~= seq![]);
            crossings_are_on_the_map(map@, anchor, seq![]);
        }
    } else if governor.dam_project.len() == 0 && dams >= 2 && dams < 8 && population.count >= 6
        && stock.logs > 70 {
        let existing = dams_of(rows);
        governor.dam_project = plan_dam_crossing(map, anchor, &existing);
        proof {
            crossings_are_on_the_map(map@, anchor, dam_tiles(rows@));
        }
    }
}

fn work_on_dam(
    governor: &mut Governor,
    map: &mut TileMap,
    stock: &mut Stockpile,
    fresh: &mut Vec<u64>,
    placed: &mut Vec<(BuildingRow, JobRow)>,
    population: &Population,
    rows: &Vec<BuildingRow>,
    trees: &Vec<TreeRow>,
    anchor: TilePos,
)
    requires
        old(map).wf(),
        old(governor)@.wf(old(map)@),
        old(governor)@.dam_project.len() > 0,
        old(fresh)@.len() >= 2,
        crate::sim::trees::trees_stand(trees@, old(map)@),
        anchor == old(map)@.anchor(rows@),
        anchor.x <= 0x3fff_ffff,
        anchor.y <= 0x3fff_ffff,
    ensures
        final(map).wf(),
        scene(final(governor)@, final(map)@, *final(stock), final(fresh)@, final(placed)@)
            == scene(
            old(governor)@,
            old(map)@,
            *old(stock),
            old(fresh)@,
            old(placed)@,
        ).dammed(*population, rows@, trees@),
{
    let project: usize = governor.dam_project.len();
    let tile: TilePos = governor.dam_project[project - 1];
    let dam = def(BuildingKind::Dam);
    if stock.logs >= dam.cost_logs {
        if placement_error(map, BuildingKind::Dam, tile).is_none() {
            governor.dam_project.truncate(project - 1);
            assert(governor@.dam_project =~= old(governor)@.dam_project.drop_last());
            build(map, stock, fresh, placed, BuildingKind::Dam, tile);
            governor.last_built = Some(tile);
        } else {
            governor.dam_project = Vec::new();
        }
    } else {
        let lumberjack = def(BuildingKind::Lumberjack);
        if count_kind(rows, BuildingKind::Lumberjack) < 2 + (population.count / 3) as usize
            && stock.logs >= lumberjack.cost_logs {
            if let Some(spot) = find_spot(map, BuildingKind::Lumberjack, anchor, trees, None) {
                build(map, stock, fresh, placed, BuildingKind::Lumberjack, spot);
            }
        }
    }
}

/// What the colony needs most.
pub fn choose_building(
    stock: &Stockpile,
    population: &Population,
    rows: &Vec<BuildingRow>,
    trees: usize,
) -> (r: Option<BuildingKind>)
    ensures
        r == wanted(*stock, *population, rows@, trees as nat),
{
    let lumberjacks: usize = count_kind(rows, BuildingKind::Lumberjack);
    let pumps: usize = count_kind(rows, BuildingKind::WaterPump);
    let farms: usize = count_kind(rows, BuildingKind::CarrotFarm);
    let foresters: usize = count_kind(rows, BuildingKind::Forester);
    let dams: usize = count_kind(rows, BuildingKind::Dam);
    let n: usize = population.count as usize;
    let needed: i64 = 2 * (8 + population.count as i64);
    if lumberjacks == 0 {
        Some(BuildingKind::Lumberjack)
    } else if pumps == 0 {
        Some(BuildingKind::WaterPump)
    } else if farms == 0 {
        Some(BuildingKind::CarrotFarm)
    } else if foresters == 0 {
        Some(BuildingKind::Forester)
    } else if stock.water < needed && pumps < 1 + n / 3 {
        Some(BuildingKind::WaterPump)
    } else if stock.food < needed && farms < 1 + n / 4 {
        Some(BuildingKind::CarrotFarm)
    } else if stock.logs < 50 && lumberjacks < 2 + n / 3 {
        Some(BuildingKind::Lumberjack)
    } else if foresters < 1 + n / 6 && trees < 240 {
        Some(BuildingKind::Forester)
    } else if population.count >= population.cap && dams >= 2 {
        Some(BuildingKind::Lodge)
    } else if stock.logs > 70 && dams >= 2 {
        Some(BuildingKind::Lodge)
    } else if stock.logs > 56 {
        if pumps <= farms {
            Some(BuildingKind::WaterPump)
        } else {
            Some(BuildingKind::CarrotFarm)
        }
    } else {
        None
    }
}

/// What is built instead of what is wanted: that itself if it can be paid, else
/// a lumberjack, else nothing.
pub fn settle_for(stock: &Stockpile, rows: &Vec<BuildingRow>, kind: BuildingKind) -> (r: Option<
    BuildingKind,
>)
    ensures
        r == paid_for(*stock, rows@, kind),
{
    let d = def(kind);
    if stock.logs >= d.cost_logs {
        return Some(kind);
    }
    let lumberjack = def(BuildingKind::Lumberjack);
    if count_kind(rows, BuildingKind::Lumberjack) < 3 && stock.logs >= lumberjack.cost_logs {
        Some(BuildingKind::Lumberjack)
    } else {
        None
    }
}

fn reversed(path: &Vec<TilePos>) -> (r: Vec<TilePos>)
    ensures
        r@ == path@.reverse(),
{
    let n: usize = path.len();
    let mut r: Vec<TilePos> = Vec::new();
    while r.len() < n
        invariant
            n == path@.len(),
            r@.len() <= n,
            forall|k: int| 0 <= k < r@.len() ==> r@[k] == path@[n - 1 - k],
        decreases n - r@.len(),
    {
        let at: usize = n - 1 - r.len();
        r.push(path[at]);
    }
    assert(r@ =~= path@.reverse());
    r
}

fn lay_road(
    governor: &mut Governor,
    map: &TileMap,
    rows: &Vec<BuildingRow>,
    anchor: TilePos,
    tile: TilePos,
)
    requires
        map.wf(),
        crate::sim::buildings::buildings_stand(rows@, map@),
        map@.holds(anchor),
        map@.holds(tile),
        anchor == map@.anchor(rows@),
        old(governor)@.wf(map@),
    ensures
        final(governor)@.wf(map@),
        final(governor)@ == (GovernorView {
            road: final(governor)@.road,
            ..old(governor)@
        }),
        road_to(map@, rows@, tile, old(governor)@.road, final(governor)@.road),
{
    let grid = walk_grid(map, rows);
    let ghost f = grid.field(tile);
    let ghost start = grid.at(anchor);
    assert(f == road_field(map@, rows@, tile));
    proof {
        assert forall|j: int| 0 <= j < f.size() implies #[trigger] f.cost[j]
            >= crate::sim::pathfind::PATH_COST by {
            crate::sim::claims::finished_paths_are_cheapest(map@, rows@, rows@.len(), j);
        }
    }
    let found = find_path(&grid, anchor, tile);
    if let Some(path) = found {
        let mut path = path;
        let ghost whole = path@;
        let ghost p = seq![start] + crate::sim::pathfind::places(grid.width, whole);
        let _last = path.pop();
        let road = reversed(&path);
        proof {
            let way = seq![start] + crate::sim::pathfind::places(map.width, road@.reverse());
            assert(road@.reverse() =~= path@);
            if tile != anchor {
                if whole.len() == 0 {
                    assert(p =~= seq![start]);
                    same_place_same_tile(map@, anchor, tile);
                }
                assert(path@ =~= whole.drop_last());
                assert(way.push(f.goal) =~= p) by {
                    assert(p.last() == f.goal);
                }
            } else {
                assert(road@ =~= seq![]);
            }
            assert forall|i: int| 0 <= i < road@.len() implies map@.holds(#[trigger] road@[i]) by {
                assert(grid.holds(whole[path@.len() - 1 - i]));
            }
        }
        governor.road = road;
    }
}

/// Tiles of the same place are the same.
proof fn same_place_same_tile(map: MapView, a: TilePos, b: TilePos)
    requires
        map.wf(),
        map.holds(a),
        map.holds(b),
        map.at(a) == map.at(b),
    ensures
        a == b,
{
    crate::sim::map::tiles_have_places(map.width, map.height, a.x as int, a.y as int);
    crate::sim::map::tiles_have_places(map.width, map.height, b.x as int, b.y as int);
}

fn aim_for(
    governor: &Governor,
    map: &TileMap,
    rows: &Vec<BuildingRow>,
    anchor: TilePos,
    kind: BuildingKind,
) -> (r: TilePos)
    requires
        map.wf(),
        governor@.wf(map@),
        crate::sim::buildings::buildings_stand(rows@, map@),
        anchor == map@.anchor(rows@),
        anchor.x <= 0x3fff_ffff,
        anchor.y <= 0x3fff_ffff,
    ensures
        r.x <= 0x3fff_ffff,
        r.y <= 0x3fff_ffff,
        forall|stock: Stockpile, fresh: Seq<u64>, placed: Seq<(BuildingRow, JobRow)>|
            #![trigger scene(governor@, map@, stock, fresh, placed)]
            r == scene(governor@, map@, stock, fresh, placed).aim(rows@, kind),
{
    if kind == BuildingKind::WaterPump {
        let dam = if governor.dam_project.len() > 0 {
            assert(map@.holds(governor@.dam_project[0]));
            Some(governor.dam_project[0])
        } else {
            first_kind(rows, BuildingKind::Dam)
        };
        if let Some(t) = dam {
            return TilePos { x: (anchor.x + t.x) / 2, y: (anchor.y + t.y) / 2 };
        }
    }
    anchor
}

/// Where a building goes, something is free, so the map has tiles and the
/// colony is on it.
proof fn the_colony_is_on_the_map(map: MapView, rows: Seq<BuildingRow>, t: TilePos)
    requires
        crate::sim::buildings::buildings_stand(rows, map),
        map.holds(t),
    ensures
        map.holds(map.anchor(rows)),
{
    first_is_one(rows, BuildingKind::Lodge);
}

proof fn first_is_one(rows: Seq<BuildingRow>, kind: BuildingKind)
    ensures
        crate::sim::sites::first_of(rows, kind) matches Some(t) ==> exists|i: int|
            0 <= i < rows.len() && (#[trigger] rows[i]).building.tile == t,
    decreases rows.len(),
{
    if rows.len() > 0 {
        first_is_one(rows.drop_last(), kind);
        if let Some(t) = crate::sim::sites::first_of(rows.drop_last(), kind) {
            let i = choose|i: int|
                0 <= i < rows.len() - 1 && (#[trigger] rows.drop_last()[i]).building.tile == t;
            assert(rows[i].building.tile == t);
        } else {
            assert(rows[rows.len() - 1] == rows.last());
        }
    }
}

fn grow(
    governor: &mut Governor,
    map: &mut TileMap,
    stock: &mut Stockpile,
    fresh: &mut Vec<u64>,
    placed: &mut Vec<(BuildingRow, JobRow)>,
    population: &Population,
    rows: &Vec<BuildingRow>,
    trees: &Vec<TreeRow>,
    anchor: TilePos,
)
    requires
        old(map).wf(),
        old(governor)@.wf(old(map)@),
        old(fresh)@.len() >= 2,
        crate::sim::trees::trees_stand(trees@, old(map)@),
        crate::sim::buildings::buildings_stand(rows@, old(map)@),
        anchor == old(map)@.anchor(rows@),
        anchor.x <= 0x3fff_ffff,
        anchor.y <= 0x3fff_ffff,
    ensures
        final(map).wf(),
        final(governor)@.wf(final(map)@),
        ({
            let b = scene(
                old(governor)@,
                old(map)@,
                *old(stock),
                old(fresh)@,
                old(placed)@,
            );
            let after = scene(
                final(governor)@,
                final(map)@,
                *final(stock),
                final(fresh)@,
                final(placed)@,
            );
            match b.next(*population, rows@, trees@) {
                None => after == b,
                Some((kind, tile)) => {
                    let built = b.place(kind, tile).with_built(tile);
                    if has_road(kind) {
                        &&& after == built.with_road(after.governor.road)
                        &&& road_to(
                            built.map,
                            rows@,
                            tile,
                            built.governor.road,
                            after.governor.road,
                        )
                    } else {
                        after == built
                    }
                },
            }
        }),
{
    let ghost b = scene(governor@, map@, *stock, fresh@, placed@);
    let choice = choose_building(stock, population, rows, trees.len());
    let kind = match choice {
        Some(kind) => kind,
        None => {
            return;
        },
    };
    let kind = match settle_for(stock, rows, kind) {
        Some(kind) => kind,
        None => {
            return;
        },
    };
    let near = aim_for(governor, map, rows, anchor, kind);
    assert(near == b.aim(rows@, kind));
    let tile = match find_spot(map, kind, anchor, trees, Some(near)) {
        Some(tile) => tile,
        None => {
            return;
        },
    };
    assert(b.next(*population, rows@, trees@) == Some((kind, tile)));
    build(map, stock, fresh, placed, kind, tile);
    governor.last_built = Some(tile);
    let ghost built = scene(governor@, map@, *stock, fresh@, placed@);
    assert(built =~= b.place(kind, tile).with_built(tile));
    let road = match kind {
        BuildingKind::Lumberjack
        | BuildingKind::WaterPump
        | BuildingKind::CarrotFarm
        | BuildingKind::Lodge => true,
        _ => false,
    };
    if road {
        proof {
            the_colony_is_on_the_map(map@, rows@, tile);
        }
        lay_road(governor, map, rows, anchor, tile);
    }
}

/// Govern the colony for `dt` microseconds: one action at every beat, survival
/// first, water and food before growth, and growth before more of the same.
/// A beat is let pass where the choice cannot be paid, or a cheap lumberjack
/// set up instead, so that there is wood again. Gives back the buildings
/// placed, with the jobs of building them; their entities are taken from the
/// end of `fresh`.
pub fn govern(
    governor: &mut Governor,
    map: &mut TileMap,
    stockpile: &mut Stockpile,
    population: &Population,
    rows: &Vec<BuildingRow>,
    trees: &Vec<TreeRow>,
    fresh: &mut Vec<u64>,
    dt: u32,
) -> (placed: Vec<(BuildingRow, JobRow)>)
    requires
        old(map).wf(),
        old(governor)@.wf(old(map)@),
        old(fresh)@.len() >= 4,
        crate::sim::trees::trees_stand(trees@, old(map)@),
        crate::sim::buildings::buildings_stand(rows@, old(map)@),
    ensures
        final(map).wf(),
        final(governor)@.wf(final(map)@),
        governed(
            scene(old(governor)@, old(map)@, *old(stockpile), old(fresh)@, seq![]),
            scene(final(governor)@, final(map)@, *final(stockpile), final(fresh)@, placed@),
            *population,
            rows@,
            trees@,
            dt,
        ),
{
    let mut placed: Vec<(BuildingRow, JobRow)> = Vec::new();
    let ghost before = scene(governor@, map@, *stockpile, fresh@, seq![]);
    assert(placed@ =~= seq![]);
    if governor.cooldown > dt as u64 {
        governor.cooldown = governor.cooldown - dt as u64;
        return placed;
    }
    governor.cooldown = BEAT;
    pave(governor, map, stockpile, fresh, &mut placed);
    let ghost b = scene(governor@, map@, *stockpile, fresh@, placed@);
    assert(b == before.with_cooldown(BEAT).paved());
    assert(fresh@.len() >= 2);
    if count_sites(rows) >= CREWS {
        return placed;
    }
    let anchor = colony_anchor(map, rows);
    assert(anchor.x <= 0x3fff_ffff && anchor.y <= 0x3fff_ffff);
    plan(governor, map, stockpile, population, rows, anchor);
    let ghost p = scene(governor@, map@, *stockpile, fresh@, placed@);
    assert(p == b.planned(*population, rows@));
    if governor.dam_project.len() > 0 && count_kind(rows, BuildingKind::WaterPump) >= 1
        && count_kind(rows, BuildingKind::CarrotFarm) >= 1 {
        work_on_dam(
            governor,
            map,
            stockpile,
            fresh,
            &mut placed,
            population,
            rows,
            trees,
            anchor,
        );
    } else {
        grow(
            governor,
            map,
            stockpile,
            fresh,
            &mut placed,
            population,
            rows,
            trees,
            anchor,
        );
    }
    placed
}

/// The place that was found is good.
proof fn spots_are_good(map: MapView, kind: BuildingKind, trees: Seq<TreeRow>, by: TilePos)
    requires
        map.wf(),
        map.best_spot(kind, trees, by, map.size() as nat) is Some,
    ensures
        map.refusal(kind, map.best_spot(kind, trees, by, map.size() as nat)->0) is None,
{
    crate::sim::sites::the_nearest_good_spot_is_found(map, kind, trees, by, map.size() as nat);
}

/// The governor never spends what the colony does not have, and never touches
/// its food or water.
pub proof fn the_governor_stays_solvent(
    before: Scene,
    after: Scene,
    pop: Population,
    rows: Seq<BuildingRow>,
    trees: Seq<TreeRow>,
    dt: u32,
)
    requires
        governed(before, after, pop, rows, trees, dt),
        before.stock.logs >= 0,
    ensures
        after.stock.logs >= 0,
        after.stock.logs <= before.stock.logs,
        after.stock.food == before.stock.food,
        after.stock.water == before.stock.water,
{
}

/// At one beat the governor begins at most one building besides a tile of its
/// road, and none but that tile while two are under construction.
pub proof fn one_building_at_a_beat(
    before: Scene,
    after: Scene,
    pop: Population,
    rows: Seq<BuildingRow>,
    trees: Seq<TreeRow>,
    dt: u32,
)
    requires
        governed(before, after, pop, rows, trees, dt),
        before.placed.len() == 0,
    ensures
        after.placed.len() <= 2,
        after.placed.len() == 2 ==> after.placed[0].0.building.kind == BuildingKind::Path,
        crate::sim::sites::sites_of(rows) >= CREWS ==> after.placed.len() <= 1 && forall|i: int|
            0 <= i < after.placed.len() ==> (#[trigger] after.placed[i]).0.building.kind
                == BuildingKind::Path,
        before.governor.cooldown > dt ==> after.placed.len() == 0,
{
}

/// What the governor builds stands where it may: the tile was free, and fit for
/// that kind of building.
pub proof fn the_governor_builds_where_it_may(
    before: Scene,
    after: Scene,
    pop: Population,
    rows: Seq<BuildingRow>,
    trees: Seq<TreeRow>,
    dt: u32,
)
    requires
        before.map.wf(),
        before.placed.len() == 0,
        before.governor.wf(before.map),
        governed(before, after, pop, rows, trees, dt),
    ensures
        after.placed.len() >= 1 ==> before.map.refusal(
            after.placed[0].0.building.kind,
            after.placed[0].0.building.tile,
        ) is None,
        after.placed.len() == 2 ==> before.map.with_building(
            BuildingKind::Path,
            after.placed[0].0.building.tile,
            after.placed[0].0.id,
        ).refusal(
            after.placed[1].0.building.kind,
            after.placed[1].0.building.tile,
        ) is None,
{
    if before.governor.cooldown <= dt {
        let b = before.with_cooldown(BEAT).paved();
        if b.placed.len() > 0 {
            let t = before.governor.road.last();
            assert(before.map.holds(t));
            crate::sim::map::tiles_have_places(
                before.map.width,
                before.map.height,
                t.x as int,
                t.y as int,
            );
        }
        if crate::sim::sites::sites_of(rows) < CREWS {
            let p = b.planned(pop, rows);
            assert(p.map == b.map);
            assert(p.map.wf());
            if p.builds_dam(rows) {
                if p.map.best_spot(
                    BuildingKind::Lumberjack,
                    trees,
                    p.map.anchor(rows),
                    p.map.size() as nat,
                ) is Some {
                    spots_are_good(p.map, BuildingKind::Lumberjack, trees, p.map.anchor(rows));
                }
            } else if let Some((kind, _)) = p.next(pop, rows, trees) {
                spots_are_good(p.map, kind, trees, p.aim(rows, kind));
            }
        }
    }
}

} // verus!
