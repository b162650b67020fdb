//! Where to build: counting what there is, and finding a place for more.
use vstd::prelude::*;

use crate::sim::buildings::{placement_error, BuildingKind, BuildingRow};
use crate::sim::map::{MapView, TileMap, TilePos};
use crate::sim::trees::TreeRow;

verus! {

/// How many buildings of a kind there are, finished or not.
pub open spec fn count_of(rows: Seq<BuildingRow>, kind: BuildingKind) -> nat
    decreases rows.len(),
{
    if rows.len() == 0 {
        0
    } else {
        count_of(rows.drop_last(), kind) + if rows.last().building.kind == kind {
            1nat
        } else {
            0nat
        }
    }
}

pub fn count_kind(rows: &Vec<BuildingRow>, kind: BuildingKind) -> (r: usize)
    ensures
        r == count_of(rows@, kind),
        r <= rows@.len(),
{
    let mut r: usize = 0;
    let mut i: usize = 0;
    while i < rows.len()
        invariant
            i <= rows@.len(),
            r <= i,
            r == count_of(rows@.take(i as int), kind),
        decreases rows@.len() - i,
    {
        proof {
            assert(rows@.take(i + 1).drop_last() =~= rows@.take(i as int));
            assert(rows@.take(i + 1).last() == rows@[i as int]);
        }
        if rows[i].building.kind == kind {
            r += 1;
        }
        i += 1;
    }
    assert(rows@.take(i as int) =~= rows@);
    r
}

/// How many buildings are being built.
pub open spec fn sites_of(rows: Seq<BuildingRow>) -> nat
    decreases rows.len(),
{
    if rows.len() == 0 {
        0
    } else {
        sites_of(rows.drop_last()) + if rows.last().construction is Some {
            1nat
        } else {
            0nat
        }
    }
}

pub fn count_sites(rows: &Vec<BuildingRow>) -> (r: usize)
    ensures
        r == sites_of(rows@),
{
    let mut r: usize = 0;
    let mut i: usize = 0;
    while i < rows.len()
        invariant
            i <= rows@.len(),
            r <= i,
            r == sites_of(rows@.take(i as int)),
        decreases rows@.len() - i,
    {
        proof {
            assert(rows@.take(i + 1).drop_last() =~= rows@.take(i as int));
            assert(rows@.take(i + 1).last() == rows@[i as int]);
        }
        if rows[i].construction.is_some() {
            r += 1;
        }
        i += 1;
    }
    assert(rows@.take(i as int) =~= rows@);
    r
}

/// The tile of the first building of a kind.
pub open spec fn first_of(rows: Seq<BuildingRow>, kind: BuildingKind) -> Option<TilePos>
    decreases rows.len(),
{
    if rows.len() == 0 {
        None
    } else {
        match first_of(rows.drop_last(), kind) {
            Some(t) => Some(t),
            None => if rows.last().building.kind == kind {
                Some(rows.last().building.tile)
            } else {
                None
            },
        }
    }
}

proof fn first_of_prefix(rows: Seq<BuildingRow>, kind: BuildingKind, n: int)
    requires
        0 <= n <= rows.len(),
        first_of(rows.take(n), kind) is Some,
    ensures
        first_of(rows, kind) == first_of(rows.take(n), kind),
    decreases rows.len() - n,
{
    if n < rows.len() {
        assert(rows.take(n + 1).drop_last() =~= rows.take(n));
        first_of_prefix(rows, kind, n + 1);
    } else {
        assert(rows.take(n) =~= rows);
    }
}

pub fn first_kind(rows: &Vec<BuildingRow>, kind: BuildingKind) -> (r: Option<TilePos>)
    ensures
        r == first_of(rows@, kind),
        r matches Some(t) ==> exists|i: int|
            0 <= i < rows@.len() && (#[trigger] rows@[i]).building.tile == t,
{
    let mut i: usize = 0;
    while i < rows.len()
        invariant
            i <= rows@.len(),
            first_of(rows@.take(i as int), kind) is None,
        decreases rows@.len() - i,
    {
        proof {
            assert(rows@.take(i + 1).drop_last() =~= rows@.take(i as int));
            assert(rows@.take(i + 1).last() == rows@[i as int]);
        }
        if rows[i].building.kind == kind {
            proof {
                first_of_prefix(rows@, kind, i + 1);
            }
            return Some(rows[i].building.tile);
        }
        i += 1;
    }
    assert(rows@.take(i as int) =~= rows@);
    None
}

impl MapView {
    /// Where the colony is: at its first lodge, else in the middle of the map.
    pub open spec fn anchor(self, rows: Seq<BuildingRow>) -> TilePos {
        match first_of(rows, BuildingKind::Lodge) {
            Some(t) => t,
            None => self.middle(),
        }
    }
}

/// Where the colony is: at its first lodge, else in the middle of the map.
pub fn colony_anchor(map: &TileMap, rows: &Vec<BuildingRow>) -> (r: TilePos)
    requires
        crate::sim::buildings::buildings_stand(rows@, map@),
    ensures
        r == map@.anchor(rows@),
        map.width > 0 && map.height > 0 ==> map@.holds(r),
{
    match first_kind(rows, BuildingKind::Lodge) {
        Some(t) => t,
        None => TilePos { x: map.width / 2, y: map.height / 2 },
    }
}

/// The square of the distance between two tiles.
pub open spec fn tiles_apart(a: TilePos, b: TilePos) -> int {
    (a.x - b.x) * (a.x - b.x) + (a.y - b.y) * (a.y - b.y)
}

/// The square of the distance between two tiles.
pub fn tile_distance(a: TilePos, b: TilePos) -> (r: u64)
    requires
        a.x <= 0x3fff_ffff,
        a.y <= 0x3fff_ffff,
        b.x <= 0x3fff_ffff,
        b.y <= 0x3fff_ffff,
    ensures
        r == tiles_apart(a, b),
{
    let dx: i64 = a.x as i64 - b.x as i64;
    let dy: i64 = a.y as i64 - b.y as i64;
    assert(0 <= dx * dx <= 0x3fff_ffff * 0x3fff_ffff) by (nonlinear_arith)
        requires
            -0x3fff_ffff <= dx <= 0x3fff_ffff,
    ;
    assert(0 <= dy * dy <= 0x3fff_ffff * 0x3fff_ffff) by (nonlinear_arith)
        requires
            -0x3fff_ffff <= dy <= 0x3fff_ffff,
    ;
    (dx * dx + dy * dy) as u64
}

/// Is there a mature tree within five tiles?
pub open spec fn wood_near(trees: Seq<TreeRow>, t: TilePos) -> bool {
    exists|i: int|
        0 <= i < trees.len() && (#[trigger] trees[i]).tree.mature() && tiles_apart(
            trees[i].tree.tile,
            t,
        ) <= 25
}

impl MapView {
    /// Is this a good place for a building of this kind? It may stand there;
    /// farms want irrigated land, and lumberjacks mature trees near by.
    pub open spec fn good_spot(self, kind: BuildingKind, trees: Seq<TreeRow>, t: TilePos) -> bool {
        &&& self.refusal(kind, t) is None
        &&& kind == BuildingKind::CarrotFarm ==> self.irrigated[self.at(t)]
        &&& kind == BuildingKind::Lumberjack ==> wood_near(trees, t)
    }

    /// The tile at a place of the list.
    pub open spec fn tile_of(self, i: int) -> TilePos {
        TilePos { x: (i % (self.width as int)) as u32, y: (i / (self.width as int)) as u32 }
    }

    /// The good place nearest to `by` among the first `n` tiles, the first of
    /// those that are equally near.
    pub open spec fn best_spot(
        self,
        kind: BuildingKind,
        trees: Seq<TreeRow>,
        by: TilePos,
        n: nat,
    ) -> Option<TilePos>
        decreases n,
    {
        if n == 0 {
            None
        } else {
            let prior = self.best_spot(kind, trees, by, (n - 1) as nat);
            let t = self.tile_of(n - 1);
            if !self.good_spot(kind, trees, t) {
                prior
            } else {
                match prior {
                    None => Some(t),
                    Some(p) => if tiles_apart(t, by) < tiles_apart(p, by) {
                        Some(t)
                    } else {
                        Some(p)
                    },
                }
            }
        }
    }
}

fn has_wood(trees: &Vec<TreeRow>, t: TilePos) -> (r: bool)
    requires
        t.x <= 0x3fff_ffff,
        t.y <= 0x3fff_ffff,
        forall|i: int|
            0 <= i < trees@.len() ==> (#[trigger] trees@[i]).tree.tile.x <= 0x3fff_ffff
                && trees@[i].tree.tile.y <= 0x3fff_ffff,
    ensures
        r == wood_near(trees@, t),
{
    let mut i: usize = 0;
    while i < trees.len()
        invariant
            t.x <= 0x3fff_ffff,
            t.y <= 0x3fff_ffff,
            forall|i: int|
                0 <= i < trees@.len() ==> (#[trigger] trees@[i]).tree.tile.x <= 0x3fff_ffff
                    && trees@[i].tree.tile.y <= 0x3fff_ffff,
            i <= trees@.len(),
            forall|j: int|
                0 <= j < i ==> !((#[trigger] trees@[j]).tree.mature() && tiles_apart(
                    trees@[j].tree.tile,
                    t,
                ) <= 25),
        decreases trees@.len() - i,
    {
        let row: TreeRow = trees[i];
        if row.tree.is_mature() && tile_distance(row.tree.tile, t) <= 25 {
            assert(trees@[i as int].tree.mature());
            return true;
        }
        i += 1;
    }
    false
}

/// The good place for a building that is nearest to `near`, or else to the
/// colony.
pub fn find_spot(
    map: &TileMap,
    kind: BuildingKind,
    anchor: TilePos,
    trees: &Vec<TreeRow>,
    near: Option<TilePos>,
) -> (r: Option<TilePos>)
    requires
        map.wf(),
        crate::sim::trees::trees_stand(trees@, map@),
        anchor.x <= 0x3fff_ffff && anchor.y <= 0x3fff_ffff,
        near matches Some(t) ==> t.x <= 0x3fff_ffff && t.y <= 0x3fff_ffff,
    ensures
        r == map@.best_spot(
            kind,
            trees@,
            match near {
                Some(t) => t,
                None => anchor,
            },
            map@.size() as nat,
        ),
        r matches Some(t) ==> map@.holds(t),
{
    let by = match near {
        Some(t) => t,
        None => anchor,
    };
    let n: usize = map.water.len();
    let mut best: Option<TilePos> = None;
    let mut best_dist: u64 = 0;
    let mut i: usize = 0;
    proof {
        assert forall|k: int| 0 <= k < trees@.len() implies (
        #[trigger] trees@[k]).tree.tile.x <= 0x3fff_ffff && trees@[k].tree.tile.y
            <= 0x3fff_ffff by {
            assert(map@.holds(trees@[k].tree.tile));
        }
    }
    while i < n
        invariant
            map.wf(),
            n == map@.size(),
            i <= n,
            by.x <= 0x3fff_ffff && by.y <= 0x3fff_ffff,
            forall|i: int|
                0 <= i < trees@.len() ==> (#[trigger] trees@[i]).tree.tile.x <= 0x3fff_ffff
                    && trees@[i].tree.tile.y <= 0x3fff_ffff,
            best == map@.best_spot(kind, trees@, by, i as nat),
            best matches Some(t) ==> best_dist == tiles_apart(t, by) && map@.holds(t),
        decreases n - i,
    {
        proof {
            crate::sim::map::places_have_tiles(map.width, map.height, i as int);
        }
        let t = TilePos { x: i as u32 % map.width, y: i as u32 / map.width };
        assert(t == map@.tile_of(i as int));
        assert(map@.at(t) == i);
        let mut good = placement_error(map, kind, t).is_none();
        if good && kind == BuildingKind::CarrotFarm {
            good = map.irrigated[i];
        }
        if good && kind == BuildingKind::Lumberjack {
            good = has_wood(trees, t);
        }
        assert(good == map@.good_spot(kind, trees@, t));
        if good {
            let dist: u64 = tile_distance(t, by);
            let better = match best {
                None => true,
                Some(_) => dist < best_dist,
            };
            if better {
                best = Some(t);
                best_dist = dist;
            }
        }
        i += 1;
    }
    best
}

/// The place found is good, none that is good is nearer, and one is found if
/// any is good.
pub proof fn the_nearest_good_spot_is_found(
    map: MapView,
    kind: BuildingKind,
    trees: Seq<TreeRow>,
    by: TilePos,
    n: nat,
)
    requires
        map.wf(),
        n <= map.size(),
    ensures
        match map.best_spot(kind, trees, by, n) {
            Some(t) => {
                &&& map.good_spot(kind, trees, t)
                &&& forall|i: int|
                    0 <= i < n && map.good_spot(kind, trees, #[trigger] map.tile_of(i))
                        ==> tiles_apart(t, by) <= tiles_apart(map.tile_of(i), by)
            },
            None => forall|i: int|
                0 <= i < n ==> !map.good_spot(kind, trees, #[trigger] map.tile_of(i)),
        },
    decreases n,
{
    if n > 0 {
        the_nearest_good_spot_is_found(map, kind, trees, by, (n - 1) as nat);
    }
}

} // verus!
