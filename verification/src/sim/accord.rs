//! The map and the rows agree: each tree and building of a colony is the one that
//! the map has on its tile, and the map has no other; and the count of those who
//! starve is their number. What is done to a colony keeps it so.
use vstd::prelude::*;

use crate::sim::beavers::{
    BeaverRow, BeaverState, Job, JobKind, JobRow, STARVE_LIMIT,
};
use crate::sim::buildings::{BuildingKind, BuildingRow};
use crate::sim::colony::ColonyView;
use crate::sim::map::{MapView, TilePos};
use crate::sim::stock::Stockpile;
use crate::sim::trees::{Tree, TreeRow};
use crate::sim::work::{Site, WorkEvent};

verus! {

/// The trees are those of the map.
pub open spec fn trees_agree(trees: Seq<TreeRow>, map: MapView) -> bool {
    &&& forall|i: int, j: int|
        0 <= i < j < trees.len() ==> (#[trigger] trees[i]).id != (#[trigger] trees[j]).id
    &&& forall|i: int|
        0 <= i < trees.len() ==> map.tree[map.at((#[trigger] trees[i]).tree.tile)] == Some(
            trees[i].id,
        )
    &&& forall|k: int|
        0 <= k < map.size() && (#[trigger] map.tree[k]) is Some ==> exists|i: int|
            0 <= i < trees.len() && map.at((#[trigger] trees[i]).tree.tile) == k
}

/// Does a building of this kind stand on this place?
pub open spec fn stands_at(rows: Seq<BuildingRow>, map: MapView, k: int, dam: bool) -> bool {
    exists|i: int|
        0 <= i < rows.len() && map.at((#[trigger] rows[i]).building.tile) == k && (dam
            ==> rows[i].building.kind == BuildingKind::Dam)
}

/// The buildings are those of the map, and its dams are the dams among them.
pub open spec fn buildings_agree(rows: Seq<BuildingRow>, map: MapView) -> bool {
    &&& forall|i: int, j: int|
        0 <= i < j < rows.len() ==> (#[trigger] rows[i]).id != (#[trigger] rows[j]).id
    &&& forall|i: int|
        0 <= i < rows.len() ==> map.building[map.at((#[trigger] rows[i]).building.tile)] == Some(
            rows[i].id,
        )
    &&& forall|k: int|
        0 <= k < map.size() && (#[trigger] map.building[k]) is Some ==> stands_at(
            rows,
            map,
            k,
            false,
        )
    &&& forall|k: int|
        0 <= k < map.size() ==> (#[trigger] map.dam[k]) == stands_at(rows, map, k, true)
}

/// A tree that is planted where none stands, under a new number, keeps trees and
/// map in accord.
pub proof fn planting_keeps_accord(trees: Seq<TreeRow>, map: MapView, tree: Tree, id: u64)
    requires
        map.wf(),
        crate::sim::trees::trees_stand(trees, map),
        trees_agree(trees, map),
        map.holds(tree.tile),
        map.tree[map.at(tree.tile)] is None,
        forall|i: int| 0 <= i < trees.len() ==> (#[trigger] trees[i]).id != id,
    ensures
        trees_agree(
            trees.push(TreeRow { id, tree }),
            MapView { tree: map.tree.update(map.at(tree.tile), Some(id)), ..map },
        ),
{
    let k0 = map.at(tree.tile);
    let rows = trees.push(TreeRow { id, tree });
    let after = MapView { tree: map.tree.update(k0, Some(id)), ..map };
    crate::sim::map::tiles_have_places(map.width, map.height, tree.tile.x as int, tree.tile.y as int);
    assert forall|i: int| 0 <= i < rows.len() implies after.tree[after.at(
        (#[trigger] rows[i]).tree.tile,
    )] == Some(rows[i].id) by {
        if i < trees.len() {
            let t = trees[i].tree.tile;
            assert(map.holds(t));
            crate::sim::map::tiles_have_places(map.width, map.height, t.x as int, t.y as int);
            assert(map.tree[map.at(t)] == Some(trees[i].id));
        }
    }
    assert forall|k: int| 0 <= k < after.size() && (#[trigger] after.tree[k]) is Some implies exists|
        i: int,
    |
        0 <= i < rows.len() && after.at((#[trigger] rows[i]).tree.tile) == k by {
        if k == k0 {
            assert(after.at(rows[trees.len() as int].tree.tile) == k);
        } else {
            assert(map.tree[k] is Some);
            let i = choose|i: int|
                0 <= i < trees.len() && map.at((#[trigger] trees[i]).tree.tile) == k;
            assert(after.at(rows[i].tree.tile) == k);
        }
    }
}

/// A building that is placed where none stands, under a new number, keeps
/// buildings and map in accord.
pub proof fn placing_keeps_accord(
    rows: Seq<BuildingRow>,
    map: MapView,
    kind: BuildingKind,
    t: TilePos,
    id: u64,
)
    requires
        map.wf(),
        crate::sim::buildings::buildings_stand(rows, map),
        buildings_agree(rows, map),
        map.holds(t),
        map.building[map.at(t)] is None,
        forall|i: int| 0 <= i < rows.len() ==> (#[trigger] rows[i]).id != id,
    ensures
        buildings_agree(
            rows.push(crate::sim::buildings::placed_row(kind, t, id)),
            map.with_building(kind, t, id),
        ),
{
    let k0 = map.at(t);
    let row = crate::sim::buildings::placed_row(kind, t, id);
    let all = rows.push(row);
    let after = map.with_building(kind, t, id);
    crate::sim::map::tiles_have_places(map.width, map.height, t.x as int, t.y as int);
    assert forall|i: int| 0 <= i < rows.len() implies map.at((#[trigger] rows[i]).building.tile)
        != k0 && 0 <= map.at(rows[i].building.tile) < map.size() by {
        let s = rows[i].building.tile;
        assert(map.holds(s));
        crate::sim::map::tiles_have_places(map.width, map.height, s.x as int, s.y as int);
        assert(map.building[map.at(s)] == Some(rows[i].id));
    }
    assert forall|i: int| 0 <= i < all.len() implies after.building[after.at(
        (#[trigger] all[i]).building.tile,
    )] == Some(all[i].id) by {
        if i < rows.len() {
            assert(map.building[map.at(rows[i].building.tile)] == Some(rows[i].id));
        }
    }
    assert forall|k: int, dam: bool| k != k0 implies #[trigger] stands_at(all, after, k, dam)
        == stands_at(rows, map, k, dam) by {
        if stands_at(rows, map, k, dam) {
            let i = choose|i: int|
                0 <= i < rows.len() && map.at((#[trigger] rows[i]).building.tile) == k && (dam
                    ==> rows[i].building.kind == BuildingKind::Dam);
            assert(after.at(all[i].building.tile) == k);
        }
        if stands_at(all, after, k, dam) {
            let i = choose|i: int|
                0 <= i < all.len() && after.at((#[trigger] all[i]).building.tile) == k && (dam
                    ==> all[i].building.kind == BuildingKind::Dam);
            assert(i < rows.len());
            assert(map.at(rows[i].building.tile) == k);
        }
    }
    assert(after.at(all[rows.len() as int].building.tile) == k0);
    assert(stands_at(all, after, k0, false));
    assert(stands_at(all, after, k0, true) == (kind == BuildingKind::Dam)) by {
        if stands_at(all, after, k0, true) {
            let i = choose|i: int|
                0 <= i < all.len() && after.at((#[trigger] all[i]).building.tile) == k0 && (true
                    ==> all[i].building.kind == BuildingKind::Dam);
            if i < rows.len() {
                assert(map.at(rows[i].building.tile) != k0);
            }
        }
    }
    assert(!map.dam[k0]) by {
        if stands_at(rows, map, k0, true) {
            let i = choose|i: int|
                0 <= i < rows.len() && map.at((#[trigger] rows[i]).building.tile) == k0 && (true
                    ==> rows[i].building.kind == BuildingKind::Dam);
            assert(map.at(rows[i].building.tile) != k0);
        }
    }
    assert forall|k: int| 0 <= k < after.size() && (#[trigger] after.building[k]) is Some implies
        stands_at(all, after, k, false) by {
        if k != k0 {
            assert(map.building[k] is Some);
        }
    }
    assert forall|k: int| 0 <= k < after.size() implies (#[trigger] after.dam[k]) == stands_at(
        all,
        after,
        k,
        true,
    ) by {
        if k != k0 {
            assert(after.dam[k] == map.dam[k]);
        }
    }
}

/// What holds between any two of a list, the earlier first, holds between any two
/// that a filter keeps.
proof fn filters_keep_pairs<A>(
    list: Seq<A>,
    keeps: spec_fn(A) -> bool,
    fits: spec_fn(A, A) -> bool,
)
    requires
        forall|i: int, j: int|
            0 <= i < j < list.len() ==> fits(#[trigger] list[i], #[trigger] list[j]),
    ensures
        forall|i: int, j: int|
            0 <= i < j < list.filter(keeps).len() ==> fits(
                #[trigger] list.filter(keeps)[i],
                #[trigger] list.filter(keeps)[j],
            ),
    decreases list.len(),
{
    reveal(Seq::filter);
    if list.len() > 0 {
        let prior = list.drop_last();
        assert forall|i: int, j: int| 0 <= i < j < prior.len() implies fits(
            #[trigger] prior[i],
            #[trigger] prior[j],
        ) by {
            assert(fits(list[i], list[j]));
        }
        filters_keep_pairs(prior, keeps, fits);
        let kept = list.filter(keeps);
        assert forall|i: int, j: int| 0 <= i < j < kept.len() implies fits(
            #[trigger] kept[i],
            #[trigger] kept[j],
        ) by {
            let rest = prior.filter(keeps);
            if j < rest.len() {
                assert(fits(rest[i], rest[j]));
            } else {
                assert(rest.contains(rest[i]));
                prior.lemma_filter_contains_rev(keeps, rest[i]);
                let a = choose|a: int| 0 <= a < prior.len() && prior[a] == rest[i];
                assert(fits(list[a], list[list.len() - 1]));
            }
        }
    }
}

/// What a filter keeps comes from the list and fits, and all that fits is kept.
proof fn filters_keep_what_fits<A>(list: Seq<A>, keeps: spec_fn(A) -> bool)
    ensures
        forall|i: int|
            0 <= i < list.filter(keeps).len() ==> keeps(#[trigger] list.filter(keeps)[i])
                && list.contains(list.filter(keeps)[i]),
        forall|i: int|
            0 <= i < list.len() && keeps(#[trigger] list[i]) ==> list.filter(keeps).contains(
                list[i],
            ),
{
    assert forall|i: int| 0 <= i < list.filter(keeps).len() implies keeps(
        #[trigger] list.filter(keeps)[i],
    ) && list.contains(list.filter(keeps)[i]) by {
        list.lemma_filter_pred(keeps, i);
        assert(list.filter(keeps).contains(list.filter(keeps)[i]));
        list.lemma_filter_contains_rev(keeps, list.filter(keeps)[i]);
    }
    assert forall|i: int| 0 <= i < list.len() && keeps(#[trigger] list[i]) implies list.filter(
        keeps,
    ).contains(list[i]) by {
        list.lemma_filter_contains(keeps, i);
    }
}

/// Taking a building down, on the map and among the rows, keeps the others in
/// accord.
pub proof fn demolishing_keeps_accord(rows: Seq<BuildingRow>, map: MapView, gone: int)
    requires
        map.wf(),
        crate::sim::buildings::buildings_stand(rows, map),
        buildings_agree(rows, map),
        0 <= gone < rows.len(),
    ensures
        buildings_agree(
            rows.filter(|r: BuildingRow| r.id != rows[gone].id),
            map.without_building(rows[gone].building.kind, rows[gone].building.tile),
        ),
{
    let id = rows[gone].id;
    let keeps = |r: BuildingRow| r.id != id;
    let left = rows.filter(keeps);
    let t = rows[gone].building.tile;
    let k0 = map.at(t);
    let after = map.without_building(rows[gone].building.kind, t);
    assert(map.holds(t));
    crate::sim::map::tiles_have_places(map.width, map.height, t.x as int, t.y as int);
    filters_keep_what_fits(rows, keeps);
    filters_keep_pairs(rows, keeps, |a: BuildingRow, b: BuildingRow| a.id != b.id);
    assert(forall|i: int, j: int|
        0 <= i < j < left.len() ==> (#[trigger] left[i]).id != (#[trigger] left[j]).id) by {
        let fits = |a: BuildingRow, b: BuildingRow| a.id != b.id;
        assert forall|i: int, j: int| 0 <= i < j < left.len() implies (#[trigger] left[i]).id != (
        #[trigger] left[j]).id by {
            assert(fits(left[i], left[j]));
        }
    }
    // Every row that stays is one of the others, on another place.
    assert forall|i: int| 0 <= i < left.len() implies after.building[after.at(
        (#[trigger] left[i]).building.tile,
    )] == Some(left[i].id) && after.at(left[i].building.tile) != k0 by {
        assert(keeps(left[i]));
        let a = choose|a: int| 0 <= a < rows.len() && rows[a] == left[i];
        let s = rows[a].building.tile;
        assert(map.holds(s));
        crate::sim::map::tiles_have_places(map.width, map.height, s.x as int, s.y as int);
        assert(map.building[map.at(s)] == Some(rows[a].id));
        assert(map.building[k0] == Some(rows[gone].id));
    }
    assert forall|k: int, dam: bool| k != k0 implies #[trigger] stands_at(left, after, k, dam)
        == stands_at(rows, map, k, dam) by {
        if stands_at(rows, map, k, dam) {
            let a = choose|a: int|
                0 <= a < rows.len() && map.at((#[trigger] rows[a]).building.tile) == k && (dam
                    ==> rows[a].building.kind == BuildingKind::Dam);
            assert(a != gone);
            assert(rows[a].id != id);
            assert(keeps(rows[a]));
            assert(left.contains(rows[a]));
            let i = choose|i: int| 0 <= i < left.len() && left[i] == rows[a];
            assert(after.at(left[i].building.tile) == k);
        }
        if stands_at(left, after, k, dam) {
            let i = choose|i: int|
                0 <= i < left.len() && after.at((#[trigger] left[i]).building.tile) == k && (dam
                    ==> left[i].building.kind == BuildingKind::Dam);
            assert(rows.contains(left[i]));
            let a = choose|a: int| 0 <= a < rows.len() && rows[a] == left[i];
            assert(map.at(rows[a].building.tile) == k);
        }
    }
    assert(!stands_at(left, after, k0, true)) by {
        if stands_at(left, after, k0, true) {
            let i = choose|i: int|
                0 <= i < left.len() && after.at((#[trigger] left[i]).building.tile) == k0 && (true
                    ==> left[i].building.kind == BuildingKind::Dam);
            assert(after.at(left[i].building.tile) != k0);
        }
    }
    assert(rows[gone].building.kind != BuildingKind::Dam ==> !map.dam[k0]) by {
        if stands_at(rows, map, k0, true) {
            let a = choose|a: int|
                0 <= a < rows.len() && map.at((#[trigger] rows[a]).building.tile) == k0 && (true
                    ==> rows[a].building.kind == BuildingKind::Dam);
            assert(map.building[k0] == Some(rows[a].id));
            assert(map.building[map.at(rows[gone].building.tile)] == Some(id));
            if a != gone {
                assert(rows[a].id != rows[gone].id);
            }
        }
    }
    assert forall|k: int| 0 <= k < after.size() && (#[trigger] after.building[k]) is Some implies
        stands_at(left, after, k, false) by {
        assert(k != k0);
        assert(map.building[k] is Some);
    }
    assert forall|k: int| 0 <= k < after.size() implies (#[trigger] after.dam[k]) == stands_at(
        left,
        after,
        k,
        true,
    ) by {
        if k != k0 {
            assert(after.dam[k] == map.dam[k]);
        }
    }
}

/// What is left of the accord while beavers work: trees that have fallen are off
/// the map, and those that were planted are on it under new numbers.
spec fn working_accord(
    site: Site,
    trees: Seq<TreeRow>,
    map: MapView,
    jobs: Seq<JobRow>,
    fresh: Seq<u64>,
) -> bool {
    let felled = |id: u64| site.events.contains(WorkEvent::Felled(id));
    let planted = crate::sim::colony::plantings(site.events);
    &&& site.map.width == map.width
    &&& site.map.height == map.height
    &&& site.map.tree.len() == map.tree.len()
    &&& site.jobs.len() == jobs.len()
    &&& forall|j: int|
        0 <= j < jobs.len() ==> (#[trigger] site.jobs[j]).job.kind == jobs[j].job.kind
    &&& site.fresh == fresh.take(fresh.len() - planted.len())
    &&& planted.len() <= fresh.len()
    &&& forall|i: int|
        0 <= i < trees.len() ==> site.map.tree[map.at((#[trigger] trees[i]).tree.tile)] == (
        if felled(trees[i].id) {
            None
        } else {
            Some(trees[i].id)
        })
    &&& forall|a: int|
        0 <= a < planted.len() ==> {
            let row = #[trigger] planted[a];
            &&& row.id == fresh[fresh.len() - 1 - a]
            &&& map.holds(row.tree.tile)
            &&& map.tree[map.at(row.tree.tile)] is None
            &&& site.map.tree[map.at(row.tree.tile)] == Some(row.id)
        }
    &&& forall|k: int|
        0 <= k < map.size() && (#[trigger] site.map.tree[k]) is Some ==> ({
            ||| exists|i: int|
                0 <= i < trees.len() && map.at((#[trigger] trees[i]).tree.tile) == k && !felled(
                    trees[i].id,
                )
            ||| exists|a: int|
                0 <= a < planted.len() && map.at((#[trigger] planted[a]).tree.tile) == k
        })
}

/// Events other than the felling and the planting of trees change nothing here.
proof fn other_events_change_nothing(
    site: Site,
    trees: Seq<TreeRow>,
    map: MapView,
    jobs: Seq<JobRow>,
    fresh: Seq<u64>,
    event: WorkEvent,
)
    requires
        working_accord(site, trees, map, jobs, fresh),
        !(event is Felled),
        !(event is Planted),
    ensures
        working_accord(
            Site { events: site.events.push(event), ..site },
            trees,
            map,
            jobs,
            fresh,
        ),
{
    let after = Site { events: site.events.push(event), ..site };
    assert(after.events.drop_last() =~= site.events);
    assert forall|id: u64| after.events.contains(WorkEvent::Felled(id)) == site.events.contains(
        WorkEvent::Felled(id),
    ) by {
        pushing_adds_one(site.events, event, WorkEvent::Felled(id));
    }
}

proof fn pushing_adds_one(events: Seq<WorkEvent>, event: WorkEvent, other: WorkEvent)
    ensures
        events.push(event).contains(other) == (events.contains(other) || event == other),
{
    let all = events.push(event);
    if events.contains(other) {
        let i = choose|i: int| 0 <= i < events.len() && events[i] == other;
        assert(all[i] == other);
    }
    if event == other {
        assert(all[events.len() as int] == other);
    }
    if all.contains(other) {
        let i = choose|i: int| 0 <= i < all.len() && all[i] == other;
        if i < events.len() {
            assert(events[i] == other);
        }
    }
}

/// The row of a tree that is found by its number.
proof fn tree_has_a_row(trees: Seq<TreeRow>, id: u64) -> (i: int)
    requires
        crate::sim::production::tree_of(trees, id) is Some,
    ensures
        0 <= i < trees.len(),
        trees[i] == (TreeRow { id, tree: crate::sim::production::tree_of(trees, id)->0 }),
    decreases trees.len(),
{
    if crate::sim::production::tree_of(trees.drop_last(), id) is Some {
        let i = tree_has_a_row(trees.drop_last(), id);
        assert(trees.drop_last()[i] == trees[i]);
        i
    } else {
        trees.len() - 1
    }
}

/// Every place of a tree is its own, and is on the map.
proof fn trees_have_their_places(trees: Seq<TreeRow>, map: MapView)
    requires
        map.wf(),
        crate::sim::trees::trees_stand(trees, map),
        trees_agree(trees, map),
    ensures
        forall|i: int|
            0 <= i < trees.len() ==> 0 <= map.at((#[trigger] trees[i]).tree.tile) < map.size(),
        forall|i: int, j: int|
            0 <= i < trees.len() && 0 <= j < trees.len() && i != j ==> map.at(
                (#[trigger] trees[i]).tree.tile,
            ) != map.at((#[trigger] trees[j]).tree.tile) && trees[i].id != trees[j].id,
{
    assert forall|i: int| 0 <= i < trees.len() implies 0 <= map.at(
        (#[trigger] trees[i]).tree.tile,
    ) < map.size() by {
        let t = trees[i].tree.tile;
        assert(map.holds(t));
        crate::sim::map::tiles_have_places(map.width, map.height, t.x as int, t.y as int);
    }
    assert forall|i: int, j: int|
        0 <= i < trees.len() && 0 <= j < trees.len() && i != j implies map.at(
        (#[trigger] trees[i]).tree.tile,
    ) != map.at((#[trigger] trees[j]).tree.tile) && trees[i].id != trees[j].id by {
        assert(map.tree[map.at(trees[i].tree.tile)] == Some(trees[i].id));
        assert(map.tree[map.at(trees[j].tree.tile)] == Some(trees[j].id));
        if i < j {
            assert(trees[i].id != trees[j].id);
        } else {
            assert(trees[j].id != trees[i].id);
        }
    }
}

/// No job asks for a tree to be planted where one stands.
pub open spec fn plantings_have_room(jobs: Seq<JobRow>, map: MapView) -> bool {
    forall|j: int|
        0 <= j < jobs.len() ==> ((#[trigger] jobs[j]).job.kind matches JobKind::Plant(t)
            ==> map.tree[map.at(t)] is None)
}

proof fn felling_keeps_working_accord(
    site: Site,
    trees: Seq<TreeRow>,
    map: MapView,
    jobs: Seq<JobRow>,
    fresh: Seq<u64>,
    job: Job,
    t: u64,
)
    requires
        map.wf(),
        crate::sim::trees::trees_stand(trees, map),
        trees_agree(trees, map),
        working_accord(site, trees, map, jobs, fresh),
        job.kind == JobKind::Chop(t),
    ensures
        working_accord(site.effect(trees, job), trees, map, jobs, fresh),
{
    trees_have_their_places(trees, map);
    if crate::sim::production::tree_of(trees, t) is Some {
        let tree = crate::sim::production::tree_of(trees, t)->0;
        let i0 = tree_has_a_row(trees, t);
        let k0 = map.at(tree.tile);
        assert(trees[i0].tree.tile == tree.tile);
        if site.map.tree[site.map.at(tree.tile)] is Some {
            let after = site.effect(trees, job);
            let event = WorkEvent::Felled(t);
            assert(after.events.drop_last() =~= site.events);
            assert(map.tree[k0] == Some(trees[i0].id));
            assert forall|id: u64| after.events.contains(WorkEvent::Felled(id)) == (
            site.events.contains(WorkEvent::Felled(id)) || id == t) by {
                pushing_adds_one(site.events, event, WorkEvent::Felled(id));
            }
            let planted = crate::sim::colony::plantings(site.events);
            let now = crate::sim::colony::plantings(after.events);
            assert(now == planted);
            assert forall|i: int| 0 <= i < trees.len() implies after.map.tree[map.at(
                (#[trigger] trees[i]).tree.tile,
            )] == (if after.events.contains(WorkEvent::Felled(trees[i].id)) {
                None
            } else {
                Some(trees[i].id)
            }) by {
                if i != i0 {
                    assert(map.at(trees[i].tree.tile) != map.at(trees[i0].tree.tile));
                    assert(trees[i].id != trees[i0].id);
                }
            }
            assert forall|a: int| 0 <= a < now.len() implies {
                let r = #[trigger] now[a];
                &&& r.id == fresh[fresh.len() - 1 - a]
                &&& map.holds(r.tree.tile)
                &&& map.tree[map.at(r.tree.tile)] is None
                &&& after.map.tree[map.at(r.tree.tile)] == Some(r.id)
            } by {
                let r = planted[a];
                assert(map.tree[map.at(r.tree.tile)] is None);
                assert(map.at(r.tree.tile) != k0);
                assert(site.map.tree[map.at(r.tree.tile)] == Some(r.id));
                crate::sim::map::tiles_have_places(
                    map.width,
                    map.height,
                    r.tree.tile.x as int,
                    r.tree.tile.y as int,
                );
            }
            assert forall|k: int| 0 <= k < map.size() && (#[trigger] after.map.tree[k]) is Some
                implies ({
                ||| exists|i: int|
                    0 <= i < trees.len() && map.at((#[trigger] trees[i]).tree.tile) == k
                        && !after.events.contains(WorkEvent::Felled(trees[i].id))
                ||| exists|a: int|
                    0 <= a < now.len() && map.at((#[trigger] now[a]).tree.tile) == k
            }) by {
                assert(k != k0);
                assert(site.map.tree[k] is Some);
                if exists|i: int|
                    0 <= i < trees.len() && map.at((#[trigger] trees[i]).tree.tile) == k
                        && !site.events.contains(WorkEvent::Felled(trees[i].id)) {
                    let i = choose|i: int|
                        0 <= i < trees.len() && map.at((#[trigger] trees[i]).tree.tile) == k
                            && !site.events.contains(WorkEvent::Felled(trees[i].id));
                    assert(i != i0);
                    assert(trees[i].id != trees[i0].id);
                    assert(!after.events.contains(WorkEvent::Felled(trees[i].id)));
                } else {
                    let a = choose|a: int|
                        0 <= a < planted.len() && map.at((#[trigger] planted[a]).tree.tile) == k;
                    assert(map.at(now[a].tree.tile) == k);
                }
            }
        }
    }
}

proof fn planting_keeps_working_accord(
    site: Site,
    trees: Seq<TreeRow>,
    map: MapView,
    jobs: Seq<JobRow>,
    fresh: Seq<u64>,
    job: Job,
    t: TilePos,
)
    requires
        map.wf(),
        crate::sim::trees::trees_stand(trees, map),
        trees_agree(trees, map),
        working_accord(site, trees, map, jobs, fresh),
        site.fresh.len() > 0,
        job.kind == JobKind::Plant(t),
        map.holds(t),
        map.tree[map.at(t)] is None,
    ensures
        working_accord(site.effect(trees, job), trees, map, jobs, fresh),
{
    trees_have_their_places(trees, map);
    crate::sim::map::tiles_have_places(map.width, map.height, t.x as int, t.y as int);
    if site.map.free_land(t) {
        let k0 = map.at(t);
        let after = site.effect(trees, job);
        let planted = crate::sim::colony::plantings(site.events);
        let now = crate::sim::colony::plantings(after.events);
        let row = TreeRow { id: site.fresh.last(), tree: Tree { tile: t, growth: 0 } };
        assert(after.events.drop_last() =~= site.events);
        assert(now == planted.push(row));
        assert(site.fresh.len() == fresh.len() - planted.len());
        assert(row.id == fresh[fresh.len() - 1 - planted.len()]);
        assert(after.fresh =~= fresh.take(fresh.len() - now.len()));
        assert forall|id: u64| after.events.contains(WorkEvent::Felled(id))
            == site.events.contains(WorkEvent::Felled(id)) by {
            pushing_adds_one(site.events, WorkEvent::Planted(row), WorkEvent::Felled(id));
        }
        assert forall|i: int| 0 <= i < trees.len() implies map.at(
            (#[trigger] trees[i]).tree.tile,
        ) != k0 by {
            assert(map.tree[map.at(trees[i].tree.tile)] == Some(trees[i].id));
        }
        assert forall|a: int| 0 <= a < now.len() implies {
            let r = #[trigger] now[a];
            &&& r.id == fresh[fresh.len() - 1 - a]
            &&& map.holds(r.tree.tile)
            &&& map.tree[map.at(r.tree.tile)] is None
            &&& after.map.tree[map.at(r.tree.tile)] == Some(r.id)
        } by {
            if a < planted.len() {
                let r = planted[a];
                assert(now[a] == r);
                assert(site.map.tree[map.at(r.tree.tile)] == Some(r.id));
                crate::sim::map::tiles_have_places(
                    map.width,
                    map.height,
                    r.tree.tile.x as int,
                    r.tree.tile.y as int,
                );
            }
        }
        assert forall|k: int| 0 <= k < map.size() && (#[trigger] after.map.tree[k]) is Some
            implies ({
            ||| exists|i: int|
                0 <= i < trees.len() && map.at((#[trigger] trees[i]).tree.tile) == k
                    && !after.events.contains(WorkEvent::Felled(trees[i].id))
            ||| exists|a: int| 0 <= a < now.len() && map.at((#[trigger] now[a]).tree.tile) == k
        }) by {
            if k == k0 {
                assert(map.at(now[planted.len() as int].tree.tile) == k);
            } else {
                assert(site.map.tree[k] is Some);
                if exists|a: int|
                    0 <= a < planted.len() && map.at((#[trigger] planted[a]).tree.tile) == k {
                    let a = choose|a: int|
                        0 <= a < planted.len() && map.at((#[trigger] planted[a]).tree.tile) == k;
                    assert(map.at(now[a].tree.tile) == k);
                }
            }
        }
    }
}

/// One beaver's work keeps what is left of the accord.
proof fn working_keeps_working_accord(
    site: Site,
    trees: Seq<TreeRow>,
    map: MapView,
    jobs: Seq<JobRow>,
    fresh: Seq<u64>,
    i: int,
    dt: u32,
)
    requires
        map.wf(),
        crate::sim::trees::trees_stand(trees, map),
        trees_agree(trees, map),
        crate::sim::beavers::jobs_stand(jobs, map),
        plantings_have_room(jobs, map),
        working_accord(site, trees, map, jobs, fresh),
        site.fresh.len() > 0,
        0 <= i < site.beavers.len(),
    ensures
        working_accord(site.worked(trees, i, dt), trees, map, jobs, fresh),
        site.worked(trees, i, dt).fresh.len() >= site.fresh.len() - 1,
        site.worked(trees, i, dt).beavers.len() == site.beavers.len(),
{
    let row = site.beavers[i];
    if let BeaverState::Work(id) = row.beaver.state {
        if let Some(j) = crate::sim::walking::job_row(site.jobs, id) {
            crate::sim::walking::jobs_have_places(site.jobs, id);
            let job = site.jobs[j].job;
            let done = job.work <= dt;
            let left = Job {
                work: if done {
                    0
                } else {
                    (job.work - dt) as u64
                },
                ..job
            };
            let begun = Site {
                jobs: site.jobs.update(j, JobRow { job: left, ..site.jobs[j] }),
                ..site
            };
            assert(job.kind == jobs[j].job.kind);
            assert(working_accord(begun, trees, map, jobs, fresh)) by {
                assert forall|k: int| 0 <= k < jobs.len() implies (
                #[trigger] begun.jobs[k]).job.kind == jobs[k].job.kind by {
                    assert(site.jobs[k].job.kind == jobs[k].job.kind);
                }
            }
            let on = match job.kind {
                JobKind::Build(b) => Site {
                    events: begun.events.push(WorkEvent::Progress(b, dt)),
                    ..begun
                },
                _ => begun,
            };
            if let JobKind::Build(b) = job.kind {
                other_events_change_nothing(
                    begun,
                    trees,
                    map,
                    jobs,
                    fresh,
                    WorkEvent::Progress(b, dt),
                );
            }
            if done {
                match job.kind {
                    JobKind::Build(b) => {
                        other_events_change_nothing(
                            on,
                            trees,
                            map,
                            jobs,
                            fresh,
                            WorkEvent::Built(b),
                        );
                    },
                    JobKind::Chop(t) => {
                        felling_keeps_working_accord(on, trees, map, jobs, fresh, job, t);
                    },
                    JobKind::Plant(t) => {
                        assert(jobs[j].job.kind == JobKind::Plant(t));
                        planting_keeps_working_accord(on, trees, map, jobs, fresh, job, t);
                    },
                    _ => {},
                }
                let after = on.effect(trees, job);
                other_events_change_nothing(
                    after,
                    trees,
                    map,
                    jobs,
                    fresh,
                    WorkEvent::Done(id),
                );
            }
        }
    }
}

proof fn working_upto_keeps_working_accord(
    start: Site,
    trees: Seq<TreeRow>,
    dt: u32,
    n: nat,
)
    requires
        start.map.wf(),
        crate::sim::trees::trees_stand(trees, start.map),
        trees_agree(trees, start.map),
        crate::sim::beavers::jobs_stand(start.jobs, start.map),
        plantings_have_room(start.jobs, start.map),
        start.events.len() == 0,
        start.fresh.len() >= start.beavers.len(),
        n <= start.beavers.len(),
    ensures
        working_accord(
            start.worked_upto(trees, dt, n),
            trees,
            start.map,
            start.jobs,
            start.fresh,
        ),
        start.worked_upto(trees, dt, n).fresh.len() >= start.fresh.len() - n,
        start.worked_upto(trees, dt, n).beavers.len() == start.beavers.len(),
    decreases n,
{
    if n == 0 {
        assert(start.fresh.take(start.fresh.len() as int) =~= start.fresh);
        assert forall|k: int| 0 <= k < start.map.size() && (#[trigger] start.map.tree[k]) is Some
            implies exists|i: int|
            0 <= i < trees.len() && start.map.at((#[trigger] trees[i]).tree.tile) == k
                && !start.events.contains(WorkEvent::Felled(trees[i].id)) by {
            let i = choose|i: int|
                0 <= i < trees.len() && start.map.at((#[trigger] trees[i]).tree.tile) == k;
            assert(!start.events.contains(WorkEvent::Felled(trees[i].id)));
        }
    } else {
        working_upto_keeps_working_accord(start, trees, dt, (n - 1) as nat);
        let prior = start.worked_upto(trees, dt, (n - 1) as nat);
        working_keeps_working_accord(
            prior,
            trees,
            start.map,
            start.jobs,
            start.fresh,
            n - 1,
            dt,
        );
    }
}

/// A moment of work keeps trees and map in accord: what has fallen is gone from
/// both, and what was planted is on both, as long as numbers for new trees are new
/// and no job asks for a tree to be planted where one stands.
pub proof fn work_keeps_accord(
    colony: ColonyView,
    map: MapView,
    stock: Stockpile,
    fresh: Seq<u64>,
    dt: u32,
)
    requires
        map.wf(),
        colony.wf(map),
        trees_agree(colony.trees, map),
        plantings_have_room(colony.jobs, map),
        fresh.len() >= colony.beavers.len(),
        fresh.no_duplicates(),
        forall|i: int| 0 <= i < colony.trees.len() ==> !fresh.contains((#[trigger] colony.trees[i]).id),
    ensures
        ({
            let end = colony.site(map, stock, fresh).worked_upto(
                colony.trees,
                dt,
                colony.beavers.len(),
            );
            trees_agree(colony.after_work(end).trees, end.map)
        }),
{
    let trees = colony.trees;
    let start = colony.site(map, stock, fresh);
    let end = start.worked_upto(trees, dt, colony.beavers.len());
    working_upto_keeps_working_accord(start, trees, dt, colony.beavers.len());
    let planted = crate::sim::colony::plantings(end.events);
    let keeps = |r: TreeRow| !end.events.contains(WorkEvent::Felled(r.id));
    let left = trees.filter(keeps);
    let all = left + planted;
    assert(colony.after_work(end).trees == all);
    filters_keep_what_fits(trees, keeps);
    let fits = |a: TreeRow, b: TreeRow| a.id != b.id;
    filters_keep_pairs(trees, keeps, fits);
    assert forall|i: int| 0 <= i < left.len() implies trees.contains(#[trigger] left[i])
        && !fresh.contains(left[i].id) && end.map.tree[end.map.at(left[i].tree.tile)] == Some(
        left[i].id,
    ) by {
        assert(keeps(left[i]));
        let a = choose|a: int| 0 <= a < trees.len() && trees[a] == left[i];
        assert(!fresh.contains(trees[a].id));
        assert(end.map.at(trees[a].tree.tile) == map.at(trees[a].tree.tile));
    }
    assert forall|i: int, j: int| 0 <= i < j < all.len() implies (#[trigger] all[i]).id != (
    #[trigger] all[j]).id by {
        if j < left.len() {
            assert(fits(left[i], left[j]));
        } else {
            let b = j - left.len();
            assert(all[j] == planted[b]);
            assert(planted[b].id == fresh[fresh.len() - 1 - b]);
            if i < left.len() {
                assert(all[i] == left[i]);
                assert(!fresh.contains(left[i].id));
                assert(fresh.contains(planted[b].id));
            } else {
                let a = i - left.len();
                assert(all[i] == planted[a]);
                assert(planted[a].id == fresh[fresh.len() - 1 - a]);
            }
        }
    }
    assert forall|i: int| 0 <= i < all.len() implies end.map.tree[end.map.at(
        (#[trigger] all[i]).tree.tile,
    )] == Some(all[i].id) by {
        if i < left.len() {
            assert(all[i] == left[i]);
        } else {
            let b = i - left.len();
            assert(all[i] == planted[b]);
            assert(end.map.tree[map.at(planted[b].tree.tile)] == Some(planted[b].id));
        }
    }
    assert forall|k: int| 0 <= k < end.map.size() && (#[trigger] end.map.tree[k]) is Some implies
        exists|i: int| 0 <= i < all.len() && end.map.at((#[trigger] all[i]).tree.tile) == k by {
        if exists|i: int|
            0 <= i < trees.len() && map.at((#[trigger] trees[i]).tree.tile) == k
                && !end.events.contains(WorkEvent::Felled(trees[i].id)) {
            let i = choose|i: int|
                0 <= i < trees.len() && map.at((#[trigger] trees[i]).tree.tile) == k
                    && !end.events.contains(WorkEvent::Felled(trees[i].id));
            assert(keeps(trees[i]));
            assert(left.contains(trees[i]));
            let a = choose|a: int| 0 <= a < left.len() && left[a] == trees[i];
            assert(all[a] == left[a]);
            assert(end.map.at(all[a].tree.tile) == k);
        } else {
            let b = choose|b: int|
                0 <= b < planted.len() && map.at((#[trigger] planted[b]).tree.tile) == k;
            assert(all[left.len() + b] == planted[b]);
            assert(end.map.at(all[left.len() + b].tree.tile) == k);
        }
    }
}

/// Jobs that have just been looked at have room for what they plant.
pub proof fn valid_plantings_have_room(colony: ColonyView, map: MapView)
    ensures
        plantings_have_room(colony.sent_out(map).jobs, map),
{
    let targets = colony.targets();
    let keeps = |r: JobRow| crate::sim::beavers::job_valid(map, targets, r.job);
    let start = crate::sim::claims::Board {
        beavers: colony.beavers,
        jobs: colony.jobs.filter(keeps),
        requests: Seq::empty(),
    };
    filters_keep_what_fits(colony.jobs, keeps);
    assert(plantings_have_room(start.jobs, map)) by {
        assert forall|j: int| 0 <= j < start.jobs.len() implies ((
        #[trigger] start.jobs[j]).job.kind matches JobKind::Plant(t) ==> map.tree[map.at(t)]
            is None) by {
            assert(keeps(start.jobs[j]));
        }
    }
    choosing_keeps_kinds(start, map, colony.beavers.len());
}

proof fn choosing_keeps_kinds(board: crate::sim::claims::Board, map: MapView, n: nat)
    requires
        plantings_have_room(board.jobs, map),
    ensures
        plantings_have_room(board.chosen_upto(map, n).jobs, map),
    decreases n,
{
    if n > 0 {
        choosing_keeps_kinds(board, map, (n - 1) as nat);
        let prior = board.chosen_upto(map, (n - 1) as nat);
        let row = prior.beavers[n - 1];
        crate::sim::claims::the_best_job_is_taken(map, row.pos, prior.jobs, prior.jobs.len());
        assert forall|j: int| 0 <= j < prior.chosen(map, n - 1).jobs.len() implies ((
        #[trigger] prior.chosen(map, n - 1).jobs[j]).job.kind matches JobKind::Plant(t)
            ==> map.tree[map.at(t)] is None) by {
            assert(prior.jobs[j].job.kind == prior.chosen(map, n - 1).jobs[j].job.kind);
        }
    }
}

/// Growing trees stay where they are.
pub proof fn growing_keeps_accord(trees: Seq<TreeRow>, map: MapView, dt: u32)
    requires
        trees_agree(trees, map),
    ensures
        trees_agree(
            trees.map_values(
                |r: TreeRow|
                    TreeRow { tree: r.tree.grown(map.irrigated[map.at(r.tree.tile)], dt), ..r },
            ),
            map,
        ),
{
    let grown = trees.map_values(
        |r: TreeRow| TreeRow { tree: r.tree.grown(map.irrigated[map.at(r.tree.tile)], dt), ..r },
    );
    assert forall|i: int, j: int| 0 <= i < j < grown.len() implies (#[trigger] grown[i]).id != (
    #[trigger] grown[j]).id by {
        assert(trees[i].id != trees[j].id);
    }
    assert forall|i: int| 0 <= i < grown.len() implies map.tree[map.at(
        (#[trigger] grown[i]).tree.tile,
    )] == Some(grown[i].id) by {
        assert(map.tree[map.at(trees[i].tree.tile)] == Some(trees[i].id));
    }
    assert forall|k: int| 0 <= k < map.size() && (#[trigger] map.tree[k]) is Some implies exists|
        i: int,
    |
        0 <= i < grown.len() && map.at((#[trigger] grown[i]).tree.tile) == k by {
        let i = choose|i: int| 0 <= i < trees.len() && map.at((#[trigger] trees[i]).tree.tile) == k;
        assert(map.at(grown[i].tree.tile) == k);
    }
}

/// The same buildings on the same tiles, in whatever state.
spec fn same_buildings(a: Seq<BuildingRow>, b: Seq<BuildingRow>) -> bool {
    &&& a.len() == b.len()
    &&& forall|i: int|
        0 <= i < a.len() ==> (#[trigger] a[i]).id == b[i].id && a[i].building == b[i].building
}

proof fn accord_goes_by_places(
    a: Seq<BuildingRow>,
    b: Seq<BuildingRow>,
    map: MapView,
    other: MapView,
)
    requires
        buildings_agree(a, map),
        same_buildings(b, a),
        other.width == map.width,
        other.height == map.height,
        other.building == map.building,
        other.dam == map.dam,
    ensures
        buildings_agree(b, other),
{
    assert forall|i: int, j: int| 0 <= i < j < b.len() implies (#[trigger] b[i]).id != (
    #[trigger] b[j]).id by {
        assert(a[i].id != a[j].id);
    }
    assert forall|i: int| 0 <= i < b.len() implies other.building[other.at(
        (#[trigger] b[i]).building.tile,
    )] == Some(b[i].id) by {
        assert(map.building[map.at(a[i].building.tile)] == Some(a[i].id));
    }
    assert forall|k: int, dam: bool| #[trigger] stands_at(b, other, k, dam) == stands_at(
        a,
        map,
        k,
        dam,
    ) by {
        if stands_at(a, map, k, dam) {
            let i = choose|i: int|
                0 <= i < a.len() && map.at((#[trigger] a[i]).building.tile) == k && (dam
                    ==> a[i].building.kind == BuildingKind::Dam);
            assert(other.at(b[i].building.tile) == k);
        }
        if stands_at(b, other, k, dam) {
            let i = choose|i: int|
                0 <= i < b.len() && other.at((#[trigger] b[i]).building.tile) == k && (dam
                    ==> b[i].building.kind == BuildingKind::Dam);
            assert(map.at(a[i].building.tile) == k);
        }
    }
    assert forall|k: int| 0 <= k < other.size() && (#[trigger] other.building[k]) is Some implies
        stands_at(b, other, k, false) by {
        assert(map.building[k] is Some);
    }
    assert forall|k: int| 0 <= k < other.size() implies (#[trigger] other.dam[k]) == stands_at(
        b,
        other,
        k,
        true,
    ) by {
        assert(map.dam[k] == stands_at(a, map, k, true));
    }
}

proof fn posting_keeps_buildings(
    map: MapView,
    trees: Seq<TreeRow>,
    alive: Seq<u64>,
    rows: Seq<BuildingRow>,
    fresh: Seq<u64>,
    dt: u32,
    n: nat,
)
    requires
        n <= rows.len(),
    ensures
        same_buildings(
            crate::sim::production::posted_upto(map, trees, alive, rows, fresh, dt, n).0,
            rows,
        ),
        forall|i: int|
            n <= i < rows.len() ==> #[trigger] crate::sim::production::posted_upto(
                map,
                trees,
                alive,
                rows,
                fresh,
                dt,
                n,
            ).0[i] == rows[i],
    decreases n,
{
    if n > 0 {
        posting_keeps_buildings(map, trees, alive, rows, fresh, dt, (n - 1) as nat);
    }
}

/// Production keeps buildings and map in accord.
pub proof fn production_keeps_accord(
    colony: ColonyView,
    map: MapView,
    fresh: Seq<u64>,
    dt: u32,
)
    requires
        buildings_agree(colony.buildings, map),
    ensures
        buildings_agree(
            crate::sim::production::posted_upto(
                map,
                colony.trees,
                colony.job_ids(),
                colony.buildings.map_values(
                    |r: BuildingRow| crate::sim::production::nested(r, dt),
                ),
                fresh,
                dt,
                colony.buildings.len(),
            ).0,
            map,
        ),
{
    let n = colony.buildings.len();
    let nests = colony.buildings.map_values(
        |r: BuildingRow| crate::sim::production::nested(r, dt),
    );
    posting_keeps_buildings(map, colony.trees, colony.job_ids(), nests, fresh, dt, n);
    let now = crate::sim::production::posted_upto(
        map,
        colony.trees,
        colony.job_ids(),
        nests,
        fresh,
        dt,
        n,
    ).0;
    assert forall|i: int| 0 <= i < now.len() implies (#[trigger] now[i]).id
        == colony.buildings[i].id && now[i].building == colony.buildings[i].building by {
        assert(nests[i].id == colony.buildings[i].id);
    }
    accord_goes_by_places(colony.buildings, now, map, map);
}

proof fn work_keeps_the_built_map(site: Site, trees: Seq<TreeRow>, dt: u32, n: nat)
    ensures
        ({
            let end = site.worked_upto(trees, dt, n);
            &&& end.map.width == site.map.width
            &&& end.map.height == site.map.height
            &&& end.map.building == site.map.building
            &&& end.map.dam == site.map.dam
        }),
    decreases n,
{
    if n > 0 {
        work_keeps_the_built_map(site, trees, dt, (n - 1) as nat);
    }
}

proof fn building_keeps_the_building(row: BuildingRow, events: Seq<WorkEvent>)
    ensures
        crate::sim::colony::built(row, events).id == row.id,
        crate::sim::colony::built(row, events).building == row.building,
    decreases events.len(),
{
    if events.len() > 0 {
        building_keeps_the_building(row, events.drop_last());
    }
}

/// A moment of work keeps buildings and map in accord.
pub proof fn work_keeps_buildings_in_accord(
    colony: ColonyView,
    map: MapView,
    stock: Stockpile,
    fresh: Seq<u64>,
    dt: u32,
)
    requires
        buildings_agree(colony.buildings, map),
    ensures
        ({
            let end = colony.site(map, stock, fresh).worked_upto(
                colony.trees,
                dt,
                colony.beavers.len(),
            );
            buildings_agree(colony.after_work(end).buildings, end.map)
        }),
{
    let start = colony.site(map, stock, fresh);
    let end = start.worked_upto(colony.trees, dt, colony.beavers.len());
    work_keeps_the_built_map(start, colony.trees, dt, colony.beavers.len());
    let after = colony.after_work(end).buildings;
    assert forall|i: int| 0 <= i < after.len() implies (#[trigger] after[i]).id
        == colony.buildings[i].id && after[i].building == colony.buildings[i].building by {
        building_keeps_the_building(colony.buildings[i], end.events);
    }
    accord_goes_by_places(colony.buildings, after, map, end.map);
}

/// How many of these live and starve.
pub open spec fn starving_among(rows: Seq<BeaverRow>) -> nat
    decreases rows.len(),
{
    if rows.len() == 0 {
        0
    } else {
        starving_among(rows.drop_last()) + if 0 < rows.last().beaver.starving <= STARVE_LIMIT {
            1nat
        } else {
            0nat
        }
    }
}

proof fn no_more_starve_than_live(rows: Seq<BeaverRow>, n: int)
    requires
        0 <= n <= rows.len(),
    ensures
        starving_among(rows.take(n)) <= n,
        starving_among(rows.take(n)) <= starving_among(rows),
        starving_among(rows) <= rows.len(),
    decreases rows.len(),
{
    if rows.len() > 0 {
        if n < rows.len() {
            no_more_starve_than_live(rows.drop_last(), n);
            assert(rows.drop_last().take(n) =~= rows.take(n));
        } else {
            no_more_starve_than_live(rows.drop_last(), rows.len() - 1);
            assert(rows.drop_last().take(rows.len() - 1) =~= rows.drop_last());
            assert(rows.take(n) =~= rows);
        }
    } else {
        assert(rows.take(n) =~= rows);
    }
}

proof fn count_goes_along(colony: ColonyView, stock: Stockpile, starving: u32, dt: u32, n: nat)
    requires
        crate::sim::beavers::all_alive(colony.beavers),
        colony.beavers.len() <= u32::MAX,
        dt > 0,
        starving == starving_among(colony.beavers),
        n <= colony.beavers.len(),
    ensures
        ({
            let lived = colony.lived(stock, starving, dt);
            colony.needs(stock, starving, dt, n).starving == starving - starving_among(
                colony.beavers.take(n as int),
            ) + starving_among(lived.take(n as int))
        }),
    decreases n,
{
    let rows = colony.beavers;
    let lived = colony.lived(stock, starving, dt);
    no_more_starve_than_live(rows, n as int);
    no_more_starve_than_live(lived, n as int);
    if n == 0 {
        assert(rows.take(0) =~= Seq::<BeaverRow>::empty());
        assert(lived.take(0) =~= Seq::<BeaverRow>::empty());
    } else {
        count_goes_along(colony, stock, starving, dt, (n - 1) as nat);
        let prior = colony.needs(stock, starving, dt, (n - 1) as nat);
        assert(rows.take(n as int).drop_last() =~= rows.take(n - 1));
        assert(lived.take(n as int).drop_last() =~= lived.take(n - 1));
        assert(rows[n - 1].beaver.wf());
        no_more_starve_than_live(rows, n - 1);
        no_more_starve_than_live(lived, n - 1);
        starving_later(rows, n - 1);
        assert(colony.needs(stock, starving, dt, n) == prior.met(rows[n - 1], dt));
    }
}

/// Those from the `n`th on are no more than there are from there on.
proof fn starving_later(rows: Seq<BeaverRow>, n: int)
    requires
        0 <= n < rows.len(),
    ensures
        starving_among(rows) - starving_among(rows.take(n)) <= rows.len() - n,
        starving_among(rows) - starving_among(rows.take(n + 1)) <= rows.len() - n - 1,
        starving_among(rows) >= starving_among(rows.take(n + 1)),
    decreases rows.len() - n,
{
    no_more_starve_than_live(rows, n + 1);
    assert(rows.take(n + 1).drop_last() =~= rows.take(n));
    if n + 1 < rows.len() {
        starving_later(rows, n + 1);
    } else {
        assert(rows.take(n + 1) =~= rows);
    }
}

proof fn the_dead_do_not_count(lived: Seq<BeaverRow>, n: int)
    requires
        0 <= n <= lived.len(),
    ensures
        starving_among(crate::sim::colony::with_the_living(lived.take(n), lived))
            == starving_among(lived.take(n)),
    decreases n,
{
    if n > 0 {
        the_dead_do_not_count(lived, n - 1);
        assert(lived.take(n).drop_last() =~= lived.take(n - 1));
        let prior = crate::sim::colony::with_the_living(lived.take(n - 1), lived);
        let now = crate::sim::colony::with_the_living(lived.take(n), lived);
        if lived[n - 1].beaver.starving <= STARVE_LIMIT {
            assert(now.drop_last() =~= prior);
        }
    }
}

/// The count of those who starve is their number, before a meal and after it. (A
/// moment has to take some time: one that takes none lets a beaver begin to
/// starve, and again at the next.)
pub proof fn the_starving_are_counted(
    colony: ColonyView,
    stock: Stockpile,
    starving: u32,
    dt: u32,
)
    requires
        crate::sim::beavers::all_alive(colony.beavers),
        colony.beavers.len() <= u32::MAX,
        dt > 0,
        starving == starving_among(colony.beavers),
    ensures
        ({
            let lived = colony.lived(stock, starving, dt);
            colony.needs(stock, starving, dt, colony.beavers.len()).starving == starving_among(
                crate::sim::colony::with_the_living(lived, lived),
            )
        }),
{
    let n = colony.beavers.len();
    let lived = colony.lived(stock, starving, dt);
    count_goes_along(colony, stock, starving, dt, n);
    the_dead_do_not_count(lived, n as int);
    assert(lived.take(n as int) =~= lived);
    assert(colony.beavers.take(n as int) =~= colony.beavers);
}

} // verus!
