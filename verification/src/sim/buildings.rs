//! Buildings: what they cost, where they may stand, and the work they ask for.
use vstd::prelude::*;

use crate::sim::beavers::{Job, JobKind, JobRow};
use crate::sim::map::{MapView, TileMap, TilePos};
use crate::sim::stock::{add_to, take_from, Stockpile};

verus! {

#[derive(Clone, Copy, PartialEq, Eq, Structural, Debug)]
pub enum BuildingKind {
    Lodge,
    WaterPump,
    CarrotFarm,
    Lumberjack,
    Forester,
    Dam,
    Path,
}

/// What is known of a kind of building.
#[derive(Clone, Copy)]
pub struct BuildingDef {
    pub kind: BuildingKind,
    pub name: &'static str,
    pub description: &'static str,
    /// In halves of a log.
    pub cost_logs: i64,
    /// In microseconds of work.
    pub build_work: u64,
    /// How far it works around itself, in tiles.
    pub radius: u32,
}

impl BuildingKind {
    /// The cost of a building, in halves of a log.
    pub open spec fn cost(self) -> i64 {
        match self {
            BuildingKind::Lodge => 40,
            BuildingKind::WaterPump => 24,
            BuildingKind::CarrotFarm => 20,
            BuildingKind::Lumberjack => 10,
            BuildingKind::Forester => 16,
            BuildingKind::Dam => 12,
            BuildingKind::Path => 2,
        }
    }

    /// The work that building it takes, in microseconds.
    pub open spec fn build_work(self) -> u64 {
        match self {
            BuildingKind::Lodge => 10_000_000,
            BuildingKind::WaterPump => 6_000_000,
            BuildingKind::CarrotFarm => 6_000_000,
            BuildingKind::Lumberjack => 3_000_000,
            BuildingKind::Forester => 5_000_000,
            BuildingKind::Dam => 5_000_000,
            BuildingKind::Path => 800_000,
        }
    }

    /// How far it works around itself, in tiles.
    pub open spec fn radius(self) -> u32 {
        match self {
            BuildingKind::Lumberjack => 6,
            BuildingKind::Forester => 5,
            _ => 0,
        }
    }

    pub open spec fn name(self) -> Seq<char> {
        match self {
            BuildingKind::Lodge => "Lodge"@,
            BuildingKind::WaterPump => "Water pump"@,
            BuildingKind::CarrotFarm => "Carrot farm"@,
            BuildingKind::Lumberjack => "Lumberjack flag"@,
            BuildingKind::Forester => "Forester"@,
            BuildingKind::Dam => "Dam"@,
            BuildingKind::Path => "Path"@,
        }
    }

    pub open spec fn description(self) -> Seq<char> {
        match self {
            BuildingKind::Lodge =>
                "Houses 5 beavers. New beavers arrive while food and water last."@,
            BuildingKind::WaterPump => "Pumps drinking water. Must stand next to water."@,
            BuildingKind::CarrotFarm => "Grows food. The tile must be irrigated (green)."@,
            BuildingKind::Lumberjack => "Beavers chop mature trees nearby."@,
            BuildingKind::Forester => "Plants new trees on free land nearby."@,
            BuildingKind::Dam =>
                "Holds water back. Build in the river to store water for droughts."@,
            BuildingKind::Path => "A stone path. Beavers walk much faster on it."@,
        }
    }
}

impl BuildingDef {
    pub open spec fn describes(self, kind: BuildingKind) -> bool {
        &&& self.kind == kind
        &&& self.name@ == kind.name()
        &&& self.description@ == kind.description()
        &&& self.cost_logs == kind.cost()
        &&& self.build_work == kind.build_work()
        &&& self.radius == kind.radius()
    }
}

pub fn def(kind: BuildingKind) -> (d: BuildingDef)
    ensures
        d.describes(kind),
{
    match kind {
        BuildingKind::Lodge => BuildingDef {
            kind,
            name: "Lodge",
            description: "Houses 5 beavers. New beavers arrive while food and water last.",
            cost_logs: 40,
            build_work: 10_000_000,
            radius: 0,
        },
        BuildingKind::WaterPump => BuildingDef {
            kind,
            name: "Water pump",
            description: "Pumps drinking water. Must stand next to water.",
            cost_logs: 24,
            build_work: 6_000_000,
            radius: 0,
        },
        BuildingKind::CarrotFarm => BuildingDef {
            kind,
            name: "Carrot farm",
            description: "Grows food. The tile must be irrigated (green).",
            cost_logs: 20,
            build_work: 6_000_000,
            radius: 0,
        },
        BuildingKind::Lumberjack => BuildingDef {
            kind,
            name: "Lumberjack flag",
            description: "Beavers chop mature trees nearby.",
            cost_logs: 10,
            build_work: 3_000_000,
            radius: 6,
        },
        BuildingKind::Forester => BuildingDef {
            kind,
            name: "Forester",
            description: "Plants new trees on free land nearby.",
            cost_logs: 16,
            build_work: 5_000_000,
            radius: 5,
        },
        BuildingKind::Dam => BuildingDef {
            kind,
            name: "Dam",
            description: "Holds water back. Build in the river to store water for droughts.",
            cost_logs: 12,
            build_work: 5_000_000,
            radius: 0,
        },
        BuildingKind::Path => BuildingDef {
            kind,
            name: "Path",
            description: "A stone path. Beavers walk much faster on it.",
            cost_logs: 2,
            build_work: 800_000,
            radius: 0,
        },
    }
}

/// All kinds, in the order of the build menu.
pub open spec fn all_kinds() -> Seq<BuildingKind> {
    seq![
        BuildingKind::Lodge,
        BuildingKind::WaterPump,
        BuildingKind::CarrotFarm,
        BuildingKind::Lumberjack,
        BuildingKind::Forester,
        BuildingKind::Dam,
        BuildingKind::Path,
    ]
}

/// The definitions of all kinds, in the order of the build menu.
pub fn building_defs() -> (r: Vec<BuildingDef>)
    ensures
        r@.len() == all_kinds().len(),
        forall|i: int| 0 <= i < r@.len() ==> (#[trigger] r@[i]).describes(all_kinds()[i]),
{
    let mut r: Vec<BuildingDef> = Vec::new();
    r.push(def(BuildingKind::Lodge));
    r.push(def(BuildingKind::WaterPump));
    r.push(def(BuildingKind::CarrotFarm));
    r.push(def(BuildingKind::Lumberjack));
    r.push(def(BuildingKind::Forester));
    r.push(def(BuildingKind::Dam));
    r.push(def(BuildingKind::Path));
    r
}

/// A building on a tile.
#[derive(Clone, Copy, PartialEq, Eq, Structural, Debug)]
pub struct Building {
    pub kind: BuildingKind,
    pub tile: TilePos,
}

/// What has been done of the work of building, and what it takes.
#[derive(Clone, Copy, PartialEq, Eq, Structural, Debug)]
pub struct UnderConstruction {
    pub done: u64,
    pub required: u64,
}

/// When a building next asks for work, and the job it waits for.
#[derive(Clone, Copy, PartialEq, Eq, Structural, Debug)]
pub struct WorkCycle {
    pub cooldown: u64,
    pub job: Option<u64>,
}

/// A building, its entity and its state.
#[derive(Clone, Copy, PartialEq, Eq, Structural, Debug)]
pub struct BuildingRow {
    pub id: u64,
    pub building: Building,
    pub construction: Option<UnderConstruction>,
    pub cycle: WorkCycle,
}

/// Every building stands on the map.
pub open spec fn buildings_stand(rows: Seq<BuildingRow>, map: MapView) -> bool {
    forall|i: int| 0 <= i < rows.len() ==> map.holds((#[trigger] rows[i]).building.tile)
}

impl MapView {
    /// Why a building of this kind cannot stand here, if it cannot.
    pub open spec fn refusal(self, kind: BuildingKind, t: TilePos) -> Option<Seq<char>> {
        if self.building[self.at(t)] is Some {
            Some("occupied"@)
        } else if kind == BuildingKind::Dam {
            if !self.river_bed(t) {
                Some("must be built in the river bed"@)
            } else {
                None
            }
        } else if !self.free_land(t) {
            Some("needs free land"@)
        } else if kind == BuildingKind::WaterPump && !self.near_water(t) {
            Some("must stand next to water"@)
        } else {
            None
        }
    }
}

/// Why a building of this kind cannot stand on a tile, in words for the
/// player; nothing if it can.
pub fn placement_error(map: &TileMap, kind: BuildingKind, tile: TilePos) -> (r: Option<
    &'static str,
>)
    requires
        map.wf(),
        map@.holds(tile),
    ensures
        match r {
            Some(s) => map@.refusal(kind, tile) == Some(s@),
            None => map@.refusal(kind, tile) is None,
        },
{
    let i: usize = map.idx(tile.x, tile.y);
    if map.building[i].is_some() {
        return Some("occupied");
    }
    match kind {
        BuildingKind::Dam => {
            if !map.is_river_bed(tile.x, tile.y) {
                return Some("must be built in the river bed");
            }
        },
        BuildingKind::WaterPump => {
            if !map.is_free_land(tile.x, tile.y) {
                return Some("needs free land");
            }
            if !map.adjacent_to_water(tile.x, tile.y) {
                return Some("must stand next to water");
            }
        },
        _ => {
            if !map.is_free_land(tile.x, tile.y) {
                return Some("needs free land");
            }
        },
    }
    None
}

/// The row of a building that has just been placed.
pub open spec fn placed_row(kind: BuildingKind, tile: TilePos, id: u64) -> BuildingRow {
    BuildingRow {
        id,
        building: Building { kind, tile },
        construction: Some(UnderConstruction { done: 0, required: kind.build_work() }),
        cycle: WorkCycle { cooldown: 0, job: None },
    }
}

/// The job of building it.
pub open spec fn build_job(kind: BuildingKind, tile: TilePos, id: u64, job: u64) -> JobRow {
    JobRow {
        id: job,
        job: Job {
            kind: JobKind::Build(id),
            tile,
            work: kind.build_work(),
            claimed_by: None,
        },
    }
}

impl MapView {
    /// The map with a building on a tile.
    pub open spec fn with_building(self, kind: BuildingKind, t: TilePos, id: u64) -> MapView {
        MapView {
            building: self.building.update(self.at(t), Some(id)),
            dam: if kind == BuildingKind::Dam {
                self.dam.update(self.at(t), true)
            } else {
                self.dam
            },
            ..self
        }
    }

    /// The map without the building on a tile.
    pub open spec fn without_building(self, kind: BuildingKind, t: TilePos) -> MapView {
        MapView {
            building: self.building.update(self.at(t), None),
            dam: if kind == BuildingKind::Dam {
                self.dam.update(self.at(t), false)
            } else {
                self.dam
            },
            ..self
        }
    }
}

/// Place a building, paid from the stores; that it may stand there and can be
/// paid has been seen to. Beavers have to come and build it.
pub fn place_building(
    map: &mut TileMap,
    stockpile: &mut Stockpile,
    kind: BuildingKind,
    tile: TilePos,
    id: u64,
    job: u64,
) -> (r: (BuildingRow, JobRow))
    requires
        old(map).wf(),
        old(map)@.holds(tile),
    ensures
        final(map).wf(),
        final(map)@ == old(map)@.with_building(kind, tile, id),
        *final(stockpile) == (Stockpile {
            logs: crate::sim::stock::plus(old(stockpile).logs, -kind.cost()),
            ..*old(stockpile)
        }),
        r.0 == placed_row(kind, tile, id),
        r.1 == build_job(kind, tile, id, job),
{
    let ghost before = map@;
    let d = def(kind);
    stockpile.logs = take_from(stockpile.logs, d.cost_logs);
    let i: usize = map.idx(tile.x, tile.y);
    map.building.set(i, Some(id));
    if kind == BuildingKind::Dam {
        map.dam.set(i, true);
    }
    proof {
        assert(map@ =~= before.with_building(kind, tile, id));
    }
    (
        BuildingRow {
            id,
            building: Building { kind, tile },
            construction: Some(UnderConstruction { done: 0, required: d.build_work }),
            cycle: WorkCycle { cooldown: 0, job: None },
        },
        JobRow {
            id: job,
            job: Job { kind: JobKind::Build(id), tile, work: d.build_work, claimed_by: None },
        },
    )
}

/// Take a building down; half of its cost comes back.
pub fn demolish(map: &mut TileMap, stockpile: &mut Stockpile, building: &Building)
    requires
        old(map).wf(),
        old(map)@.holds(building.tile),
    ensures
        final(map).wf(),
        final(map)@ == old(map)@.without_building(building.kind, building.tile),
        *final(stockpile) == (Stockpile {
            logs: crate::sim::stock::plus(old(stockpile).logs, building.kind.cost() as int / 2),
            ..*old(stockpile)
        }),
{
    let ghost before = map@;
    let i: usize = map.idx(building.tile.x, building.tile.y);
    map.building.set(i, None);
    if building.kind == BuildingKind::Dam {
        map.dam.set(i, false);
    }
    let d = def(building.kind);
    stockpile.logs = add_to(stockpile.logs, d.cost_logs / 2);
    proof {
        assert(map@ =~= before.without_building(building.kind, building.tile));
    }
}

/// Taking down what was just placed gives the map back as it was, and costs
/// half of what was paid. (A store counts no further down than a machine number
/// goes.)
pub proof fn demolishing_undoes_placing(
    map: MapView,
    logs: i64,
    kind: BuildingKind,
    t: TilePos,
    id: u64,
)
    requires
        logs - kind.cost() >= i64::MIN,
        map.wf(),
        map.holds(t),
        map.building[map.at(t)] is None,
        kind == BuildingKind::Dam ==> !map.dam[map.at(t)],
    ensures
        map.with_building(kind, t, id).without_building(kind, t) == map,
        ({
            let paid = crate::sim::stock::plus(logs, -kind.cost());
            crate::sim::stock::plus(paid, kind.cost() as int / 2)
        }) == logs - kind.cost() as int / 2,
{
    crate::sim::map::tiles_have_places(map.width, map.height, t.x as int, t.y as int);
    assert(map.with_building(kind, t, id).without_building(kind, t) =~= map);
}

/// Where a building stands nothing else can be placed.
pub proof fn a_placed_tile_is_occupied(
    map: MapView,
    kind: BuildingKind,
    t: TilePos,
    id: u64,
    other: BuildingKind,
)
    requires
        map.wf(),
        map.holds(t),
    ensures
        map.with_building(kind, t, id).refusal(other, t) == Some("occupied"@),
{
    crate::sim::map::tiles_have_places(map.width, map.height, t.x as int, t.y as int);
}

} // verus!
