//! What finished buildings ask for and give, told by what lies around them and
//! by the time that passes.
use vstd::prelude::*;

use crate::sim::beavers::{Job, JobKind};
use crate::sim::buildings::{BuildingKind, BuildingRow};
use crate::sim::map::{MapView, Pos};
use crate::sim::season::Population;
use crate::sim::stock::Stockpile;
use crate::sim::trees::TreeRow;

verus! {

/// The tree of an entity is the first with that entity, and one is found if
/// there is any.
pub proof fn trees_are_found_by_entity(trees: Seq<TreeRow>, id: u64)
    ensures
        match crate::sim::production::tree_of(trees, id) {
            Some(tree) => exists|k: int|
                0 <= k < trees.len() && (#[trigger] trees[k]).id == id && trees[k].tree == tree
                    && forall|j: int| 0 <= j < k ==> (#[trigger] trees[j]).id != id,
            None => forall|j: int| 0 <= j < trees.len() ==> (#[trigger] trees[j]).id != id,
        },
    decreases trees.len(),
{
    if trees.len() > 0 {
        let rest = trees.drop_last();
        trees_are_found_by_entity(rest, id);
        match crate::sim::production::tree_of(rest, id) {
            Some(tree) => {
                let k = choose|k: int|
                    0 <= k < rest.len() && (#[trigger] rest[k]).id == id && rest[k].tree == tree
                        && forall|j: int| 0 <= j < k ==> (#[trigger] rest[j]).id != id;
                assert(trees[k] == rest[k]);
                assert forall|j: int| 0 <= j < k implies (#[trigger] trees[j]).id != id by {
                    assert(rest[j] == trees[j]);
                }
            },
            None => {
                assert forall|j: int| 0 <= j < trees.len() - 1 implies (#[trigger] trees[j]).id
                    != id by {
                    assert(rest[j] == trees[j]);
                }
                if trees.last().id == id {
                    assert(trees[trees.len() - 1].id == id);
                }
            },
        }
    }
}

/// A finished pump asks for three seconds of work while water is beside it, and
/// a farm for five while its tile is irrigated, each at its own place. Lodges,
/// dams and paths ask for no work. Whoever comes may do it.
pub proof fn what_pumps_and_farms_ask_for(
    map: MapView,
    trees: Seq<TreeRow>,
    row: BuildingRow,
)
    requires
        map.wf(),
        map.holds(row.building.tile),
        row.building.kind != BuildingKind::Lumberjack,
        row.building.kind != BuildingKind::Forester,
    ensures
        match row.building.kind {
            BuildingKind::WaterPump => {
                let ask = crate::sim::production::wanted_job(map, trees, row);
                &&& ask is Some <==> map.near_water(row.building.tile)
                &&& ask is Some ==> ask == Some(
                    Job {
                        kind: JobKind::Pump(row.id),
                        tile: row.building.tile,
                        work: 3_000_000,
                        claimed_by: None,
                    },
                )
            },
            BuildingKind::CarrotFarm => {
                let ask = crate::sim::production::wanted_job(map, trees, row);
                let c = row.building.tile;
                &&& ask is Some <==> map.irrigated[c.y * map.width + c.x]
                &&& ask is Some ==> ask == Some(
                    Job { kind: JobKind::Farm(row.id), tile: c, work: 5_000_000, claimed_by: None },
                )
            },
            _ => crate::sim::production::wanted_job(map, trees, row) is None,
        },
{
}

/// A finished building whose last job is on the board waits, and so does one
/// whose pause is longer than the moment; the pause runs meanwhile only in the
/// second case. Else it posts the job that it wants and pauses for two seconds,
/// or wants none and pauses for one and a half.
pub proof fn how_buildings_post(
    map: MapView,
    trees: Seq<TreeRow>,
    alive: Seq<u64>,
    row: BuildingRow,
    dt: u32,
    id: u64,
)
    ensures
        ({
            let (after, post) = crate::sim::production::worked(map, trees, alive, row, dt, id);
            let waits = row.cycle.job is Some && exists|k: int|
                0 <= k < alive.len() && #[trigger] alive[k] == row.cycle.job->0;
            let wants = crate::sim::production::wanted_job(map, trees, row);
            &&& after.id == row.id && after.building == row.building
            &&& after.construction == row.construction
            &&& if row.construction is Some || waits {
                after == row && post is None
            } else if row.cycle.cooldown > dt {
                &&& after.cycle.cooldown == row.cycle.cooldown - dt
                &&& after.cycle.job is None
                &&& post is None
            } else if wants is Some {
                &&& after.cycle.cooldown == 2_000_000
                &&& after.cycle.job == Some(id)
                &&& post is Some && (post->0).id == id && (post->0).job == wants->0
            } else {
                &&& after.cycle.cooldown == 1_500_000
                &&& after.cycle.job is None
                &&& post is None
            }
        }),
{
    if row.cycle.job is Some && alive.contains(row.cycle.job->0) {
        let k = choose|k: int| 0 <= k < alive.len() && alive[k] == row.cycle.job->0;
        assert(alive[k] == row.cycle.job->0);
    }
}

/// The nest of a finished lodge is due when its pause is up, and then pauses for
/// twenty-five seconds; else the pause runs. No other building is touched.
pub proof fn nests_are_due_in_time(row: BuildingRow, dt: u32)
    ensures
        ({
            let after = crate::sim::production::nested(row, dt);
            let lodge = row.construction is None && row.building.kind == BuildingKind::Lodge;
            &&& crate::sim::production::nest_due(row, dt) <==> lodge && row.cycle.cooldown <= dt
            &&& !lodge ==> after == row
            &&& after.id == row.id && after.building == row.building
            &&& after.construction == row.construction && after.cycle.job == row.cycle.job
            &&& lodge && row.cycle.cooldown <= dt ==> after.cycle.cooldown == 25_000_000
            &&& lodge && row.cycle.cooldown > dt ==> after.cycle.cooldown == row.cycle.cooldown
                - dt
        }),
{
}

/// A lodge whose nest is due raises a beaver while the colony has fewer beavers
/// than homes and three units of food and of water; it costs that much, and the
/// beaver is born in the middle of the lodge. Lodges are seen to in turn.
pub proof fn lodges_raise_beavers(
    map: MapView,
    population: Population,
    stock: Stockpile,
    rows: Seq<BuildingRow>,
    dt: u32,
    n: nat,
)
    requires
        n < rows.len(),
    ensures
        crate::sim::production::born_upto(map, population, stock, rows, dt, 0) == (
            stock,
            Seq::<Pos>::empty(),
        ),
        ({
            let (left, born) = crate::sim::production::born_upto(
                map,
                population,
                stock,
                rows,
                dt,
                n,
            );
            let (kept, more) = crate::sim::production::born_upto(
                map,
                population,
                stock,
                rows,
                dt,
                (n + 1) as nat,
            );
            let row = rows[n as int];
            if row.construction is None && row.building.kind == BuildingKind::Lodge
                && row.cycle.cooldown <= dt && population.count < population.cap && left.food >= 6
                && left.water >= 6 {
                &&& kept.food == left.food - 6
                &&& kept.water == left.water - 6
                &&& kept.logs == left.logs
                &&& more == born.push(map.center(row.building.tile))
            } else {
                kept == left && more == born
            }
        }),
{
}

/// Finished lodges are counted one by one.
pub proof fn lodges_are_counted(rows: Seq<BuildingRow>)
    ensures
        crate::sim::production::lodges(rows) == rows.filter(
            |r: BuildingRow| r.construction is None && r.building.kind == BuildingKind::Lodge,
        ).len(),
    decreases rows.len(),
{
    reveal(Seq::filter);
    if rows.len() > 0 {
        lodges_are_counted(rows.drop_last());
    }
}

/// Buildings of a kind, and those being built, are counted one by one; of a
/// kind the first is found, if there is any.
pub proof fn buildings_are_counted(rows: Seq<BuildingRow>, kind: BuildingKind)
    ensures
        crate::sim::sites::count_of(rows, kind) == rows.filter(
            |r: BuildingRow| r.building.kind == kind,
        ).len(),
        crate::sim::sites::sites_of(rows) == rows.filter(
            |r: BuildingRow| r.construction is Some,
        ).len(),
        match crate::sim::sites::first_of(rows, kind) {
            Some(t) => exists|k: int|
                0 <= k < rows.len() && (#[trigger] rows[k]).building.kind == kind
                    && rows[k].building.tile == t && forall|j: int|
                    0 <= j < k ==> (#[trigger] rows[j]).building.kind != kind,
            None => forall|j: int| 0 <= j < rows.len() ==> (#[trigger] rows[j]).building.kind
                != kind,
        },
    decreases rows.len(),
{
    reveal(Seq::filter);
    if rows.len() > 0 {
        let rest = rows.drop_last();
        buildings_are_counted(rest, kind);
        match crate::sim::sites::first_of(rest, kind) {
            Some(t) => {
                let k = choose|k: int|
                    0 <= k < rest.len() && (#[trigger] rest[k]).building.kind == kind
                        && rest[k].building.tile == t && forall|j: int|
                        0 <= j < k ==> (#[trigger] rest[j]).building.kind != kind;
                assert(rows[k] == rest[k]);
                assert forall|j: int| 0 <= j < k implies (#[trigger] rows[j]).building.kind
                    != kind by {
                    assert(rest[j] == rows[j]);
                }
            },
            None => {
                assert forall|j: int| 0 <= j < rows.len() - 1 implies (
                #[trigger] rows[j]).building.kind != kind by {
                    assert(rest[j] == rows[j]);
                }
                if rows.last().building.kind == kind {
                    assert(rows[rows.len() - 1].building.kind == kind);
                }
            },
        }
    }
}

} // verus!
