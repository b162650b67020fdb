//! What lies within a radius of a tile.
use vstd::prelude::*;

use crate::sim::beavers::JobKind;
use crate::sim::buildings::{BuildingKind, BuildingRow};
use crate::sim::map::{MapView, TilePos};
use crate::sim::trees::TreeRow;

verus! {

/// A disc around a tile holds the tiles of the map whose distance is at most
/// its radius.
pub proof fn discs_are_round(map: MapView, center: TilePos, r: u32, t: TilePos)
    requires
        map.wf(),
    ensures
        map.disc(center, r).contains(t) <==> {
            &&& t.x < map.width && t.y < map.height
            &&& (t.x - center.x) * (t.x - center.x) + (t.y - center.y) * (t.y - center.y) <= r * r
        },
{
    crate::sim::production::discs_hold_what_is_near(map, center, r);
}

/// The first tile of a list that fits does fit, and none before it does; none
/// is found only where none fits.
pub proof fn the_first_fit_is_taken(s: Seq<TilePos>, fits: spec_fn(TilePos) -> bool)
    ensures
        match crate::sim::production::first_where(s, fits) {
            Some(t) => exists|k: int|
                0 <= k < s.len() && #[trigger] s[k] == t && fits(t) && forall|j: int|
                    0 <= j < k ==> !fits(#[trigger] s[j]),
            None => forall|j: int| 0 <= j < s.len() ==> !fits(#[trigger] s[j]),
        },
    decreases s.len(),
{
    if s.len() > 0 {
        let rest = s.drop_last();
        the_first_fit_is_taken(rest, fits);
        match crate::sim::production::first_where(rest, fits) {
            Some(t) => {
                let k = choose|k: int|
                    0 <= k < rest.len() && #[trigger] rest[k] == t && fits(t) && forall|j: int|
                        0 <= j < k ==> !fits(#[trigger] rest[j]);
                assert(s[k] == t);
                assert forall|j: int| 0 <= j < k implies !fits(#[trigger] s[j]) by {
                    assert(rest[j] == s[j]);
                }
            },
            None => {
                assert forall|j: int| 0 <= j < s.len() - 1 implies !fits(#[trigger] s[j]) by {
                    assert(rest[j] == s[j]);
                }
                if fits(s.last()) {
                    assert(s[s.len() - 1] == s.last());
                }
            },
        }
    }
}

/// The first tile, row by row, within a radius that fits: it is one of those
/// within the radius, and no other of them that fits comes before it.
pub(crate) proof fn first_in_disc(
    map: MapView,
    center: TilePos,
    r: u32,
    fits: spec_fn(TilePos) -> bool,
    u: TilePos,
)
    requires
        map.wf(),
    ensures
        ({
            let within = |t: TilePos|
                t.x < map.width && t.y < map.height && (t.x - center.x) * (t.x - center.x) + (t.y
                    - center.y) * (t.y - center.y) <= r * r;
            match crate::sim::production::first_where(map.disc(center, r), fits) {
                Some(t) => within(t) && fits(t) && (within(u) && fits(u) && u != t ==> t.y < u.y
                    || (t.y == u.y && t.x < u.x)),
                None => within(u) ==> !fits(u),
            }
        }),
{
    let s = map.disc(center, r);
    the_first_fit_is_taken(s, fits);
    crate::sim::production::discs_hold_what_is_near(map, center, r);
    discs_are_round(map, center, r, u);
    if let Some(t) = crate::sim::production::first_where(s, fits) {
        let k = choose|k: int|
            0 <= k < s.len() && #[trigger] s[k] == t && fits(t) && forall|j: int|
                0 <= j < k ==> !fits(#[trigger] s[j]);
        assert(s.contains(t));
        discs_are_round(map, center, r, t);
        if s.contains(u) && fits(u) && u != t {
            let j = choose|j: int| 0 <= j < s.len() && s[j] == u;
            assert(k < j);
        }
    } else if s.contains(u) {
        let j = choose|j: int| 0 <= j < s.len() && s[j] == u;
        assert(!fits(s[j]));
    }
}

/// A lumberjack asks to have the first grown tree within six tiles chopped, row
/// by row, in four seconds; there is nothing to ask for only where no grown tree
/// stands that near.
pub proof fn what_lumberjacks_ask_for(
    map: MapView,
    trees: Seq<TreeRow>,
    row: BuildingRow,
    u: TilePos,
)
    requires
        map.wf(),
        map.holds(row.building.tile),
        row.building.kind == BuildingKind::Lumberjack,
        u.x < map.width,
        u.y < map.height,
    ensures
        ({
            let c = row.building.tile;
            let here = map.tree[u.y * map.width + u.x];
            let grown = here is Some && match crate::sim::production::tree_of(trees, here->0) {
                Some(tree) => tree.growth >= 1_400_000_000,
                None => false,
            };
            let near = (u.x - c.x) * (u.x - c.x) + (u.y - c.y) * (u.y - c.y) <= 36;
            match crate::sim::production::wanted_job(map, trees, row) {
                Some(job) => {
                    let t = job.tile;
                    &&& t.x < map.width && t.y < map.height
                    &&& (t.x - c.x) * (t.x - c.x) + (t.y - c.y) * (t.y - c.y) <= 36
                    &&& u == t ==> grown && job.kind == JobKind::Chop(here->0)
                    &&& near && grown && u != t ==> t.y < u.y || (t.y == u.y && t.x < u.x)
                    &&& job.kind is Chop && job.work == 4_000_000 && job.claimed_by is None
                },
                None => near ==> !grown,
            }
        }),
{
    first_in_disc(map, row.building.tile, 6, |t: TilePos| map.choppable(trees, t), u);
    assert(6int * 6 == 36);
}

/// A forester asks to have the first free land within five tiles planted, row by
/// row, in three seconds; there is nothing to ask for only where no free land
/// lies that near.
pub proof fn what_foresters_ask_for(
    map: MapView,
    trees: Seq<TreeRow>,
    row: BuildingRow,
    u: TilePos,
)
    requires
        map.wf(),
        map.holds(row.building.tile),
        row.building.kind == BuildingKind::Forester,
        u.x < map.width,
        u.y < map.height,
    ensures
        ({
            let c = row.building.tile;
            let i = u.y * map.width + u.x;
            let bare = map.ground[i] >= 1 && map.water[i] <= 50_000 && map.building[i] is None
                && map.tree[i] is None;
            let near = (u.x - c.x) * (u.x - c.x) + (u.y - c.y) * (u.y - c.y) <= 25;
            match crate::sim::production::wanted_job(map, trees, row) {
                Some(job) => {
                    let t = job.tile;
                    &&& t.x < map.width && t.y < map.height
                    &&& (t.x - c.x) * (t.x - c.x) + (t.y - c.y) * (t.y - c.y) <= 25
                    &&& u == t ==> bare
                    &&& near && bare && u != t ==> t.y < u.y || (t.y == u.y && t.x < u.x)
                    &&& job.kind == JobKind::Plant(t) && job.work == 3_000_000
                    &&& job.claimed_by is None
                },
                None => near ==> !bare,
            }
        }),
{
    first_in_disc(map, row.building.tile, 5, |t: TilePos| map.free_land(t), u);
    assert(5int * 5 == 25);
}

} // verus!
