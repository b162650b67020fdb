//! The rules of building, told by what they allow and what they cost.
use vstd::prelude::*;

use crate::sim::beavers::JobKind;
use crate::sim::buildings::BuildingKind;
use crate::sim::map::{MapView, TilePos};

verus! {

/// What buildings cost in halves of a log, how many thousandths of a second of
/// work they take, and how far they work around themselves.
pub proof fn the_price_list(kind: BuildingKind)
    ensures
        (kind.cost() as int, kind.build_work() as int / 1000, kind.radius() as int) == match kind {
            BuildingKind::Lodge => (40int, 10_000int, 0int),
            BuildingKind::WaterPump => (24int, 6_000int, 0int),
            BuildingKind::CarrotFarm => (20int, 6_000int, 0int),
            BuildingKind::Lumberjack => (10int, 3_000int, 6int),
            BuildingKind::Forester => (16int, 5_000int, 5int),
            BuildingKind::Dam => (12int, 5_000int, 0int),
            BuildingKind::Path => (2int, 800int, 0int),
        },
        kind.build_work() as int % 1000 == 0,
{
}

/// A dam may stand in the river bed and nowhere else, a pump on free land next
/// to water, and any other building on free land; nothing where something
/// stands already.
pub proof fn where_buildings_may_stand(map: MapView, kind: BuildingKind, t: TilePos)
    requires
        map.wf(),
        map.holds(t),
    ensures
        ({
            let i = t.y * map.width + t.x;
            let bare = map.ground[i] >= 1 && map.water[i] <= 50_000 && map.building[i] is None
                && map.tree[i] is None;
            let shore = exists|u: TilePos|
                u.x < map.width && u.y < map.height && (u.x - t.x) * (u.x - t.x) + (u.y - t.y) * (
                u.y - t.y) == 1 && #[trigger] map.wet(u);
            &&& map.refusal(kind, t) is None <==> match kind {
                BuildingKind::Dam => map.building[i] is None && map.ground[i] == 0,
                BuildingKind::WaterPump => bare && shore,
                _ => bare,
            }
            &&& map.building[i] is Some <==> map.refusal(kind, t) == Some("occupied"@)
            &&& map.building[i] is None && kind != BuildingKind::Dam && !bare ==> map.refusal(
                kind,
                t,
            ) == Some("needs free land"@)
            &&& map.building[i] is None && kind == BuildingKind::Dam && map.ground[i] != 0
                ==> map.refusal(kind, t) == Some("must be built in the river bed"@)
            &&& kind == BuildingKind::WaterPump && bare && !shore ==> map.refusal(kind, t) == Some(
                "must stand next to water"@,
            )
        }),
{
    crate::sim::terrain::near_water_is_one_step_away(map, t);
    reveal_strlit("occupied");
    reveal_strlit("must be built in the river bed");
    reveal_strlit("needs free land");
    reveal_strlit("must stand next to water");
    assert("occupied"@.len() == 8);
    assert("must be built in the river bed"@.len() == 30);
    assert("needs free land"@.len() == 15);
    assert("must stand next to water"@.len() == 24);
}

/// Placing a building takes its tile, and makes it hold water back if it is a
/// dam; taking it down frees the tile and lets the water go. All other tiles
/// and everything else on the map stay as they are.
pub proof fn buildings_take_their_tile(
    map: MapView,
    kind: BuildingKind,
    t: TilePos,
    id: u64,
    j: int,
)
    requires
        map.wf(),
        map.holds(t),
        0 <= j < map.size(),
    ensures
        ({
            let i = t.y * map.width + t.x;
            let with = map.with_building(kind, t, id);
            let without = map.without_building(kind, t);
            &&& with.building[j] == if j == i {
                Some(id)
            } else {
                map.building[j]
            }
            &&& with.dam[j] == (map.dam[j] || (j == i && kind == BuildingKind::Dam))
            &&& without.building[j] == if j == i {
                None
            } else {
                map.building[j]
            }
            &&& without.dam[j] == (map.dam[j] && !(j == i && kind == BuildingKind::Dam))
            &&& with.width == map.width && with.height == map.height
            &&& without.width == map.width && without.height == map.height
            &&& with.ground == map.ground && without.ground == map.ground
            &&& with.water == map.water && without.water == map.water
            &&& with.source == map.source && without.source == map.source
            &&& with.drain == map.drain && without.drain == map.drain
            &&& with.irrigated == map.irrigated && without.irrigated == map.irrigated
            &&& with.tree == map.tree && without.tree == map.tree
            &&& with.wf() && without.wf()
        }),
{
    crate::sim::map::tiles_have_places(map.width, map.height, t.x as int, t.y as int);
}

/// A placed building waits for all of its work, and its job asks for the same
/// work on its tile and is open to everyone.
pub proof fn placed_buildings_are_to_be_built(
    kind: BuildingKind,
    t: TilePos,
    id: u64,
    job: u64,
)
    ensures
        ({
            let row = crate::sim::buildings::placed_row(kind, t, id);
            let work = crate::sim::buildings::build_job(kind, t, id, job);
            &&& row.id == id && row.building.kind == kind && row.building.tile == t
            &&& row.construction is Some && (row.construction->0).done == 0
            &&& (row.construction->0).required == kind.build_work()
            &&& row.cycle.cooldown == 0 && row.cycle.job is None
            &&& work.id == job && work.job.kind == JobKind::Build(id) && work.job.tile == t
            &&& work.job.work == (row.construction->0).required && work.job.claimed_by is None
        }),
{
}

/// Stores add and take as numbers do, as far as they can count, and never turn
/// over.
pub proof fn stores_count(a: i64, b: int, c: int)
    ensures
        i64::MIN <= a + b <= i64::MAX ==> crate::sim::stock::plus(a, b) == a + b,
        b >= 0 ==> crate::sim::stock::plus(a, b) >= a,
        b <= 0 ==> crate::sim::stock::plus(a, b) <= a,
        b <= c ==> crate::sim::stock::plus(a, b) <= crate::sim::stock::plus(a, c),
{
}

} // verus!
