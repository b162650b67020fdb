//! Where a dam can close the river.
use vstd::prelude::*;

use crate::sim::buildings::{placement_error, BuildingKind};
use crate::sim::map::{MapView, TileMap, TilePos};
use crate::sim::sites::tile_distance;

verus! {

/// The widest river that a dam closes, in tiles.
pub const WIDEST_WALL: usize = 3;

/// Walls keep at least this many columns of river between them.
pub const BETWEEN_WALLS: u32 = 6;

/// Crossings are looked for from this many columns off the colony. The river flows
/// towards higher columns.
pub const NEAREST_WALL: u32 = 4;

/// Is there a dam too near to this column?
pub open spec fn crowded(dams: Seq<TilePos>, x: int) -> bool {
    exists|i: int|
        0 <= i < dams.len() && -(BETWEEN_WALLS as int) < (#[trigger] dams[i]).x - x < BETWEEN_WALLS
}

/// A wall that closes the river: it is not too wide and has no gap.
pub open spec fn closes(wall: Seq<TilePos>) -> bool {
    &&& 1 <= wall.len() <= WIDEST_WALL
    &&& forall|i: int| 1 <= i < wall.len() ==> (#[trigger] wall[i]).y == wall[i - 1].y + 1
}

/// The shorter of two walls, the first if neither is.
pub open spec fn shorter(a: Option<Seq<TilePos>>, b: Option<Seq<TilePos>>) -> Option<Seq<TilePos>> {
    match (a, b) {
        (Some(u), Some(v)) => if v.len() < u.len() {
            b
        } else {
            a
        },
        (None, _) => b,
        (_, None) => a,
    }
}

/// A tile put among tiles that come nearest to `by` first, behind those that are
/// as near.
pub open spec fn put_by_distance(sorted: Seq<TilePos>, t: TilePos, by: TilePos) -> Seq<TilePos>
    decreases sorted.len(),
{
    if sorted.len() == 0 || crate::sim::sites::tiles_apart(sorted.last(), by)
        <= crate::sim::sites::tiles_apart(t, by) {
        sorted.push(t)
    } else {
        put_by_distance(sorted.drop_last(), t, by).push(sorted.last())
    }
}

/// The tiles, the nearest to `by` first.
pub open spec fn nearest_first(tiles: Seq<TilePos>, by: TilePos) -> Seq<TilePos>
    decreases tiles.len(),
{
    if tiles.len() == 0 {
        seq![]
    } else {
        put_by_distance(nearest_first(tiles.drop_last(), by), tiles.last(), by)
    }
}

/// Does no tile come before one that is nearer to `by`?
pub open spec fn comes_nearest_first(tiles: Seq<TilePos>, by: TilePos) -> bool {
    forall|i: int, j: int|
        0 <= i < j < tiles.len() ==> crate::sim::sites::tiles_apart(#[trigger] tiles[i], by)
            <= crate::sim::sites::tiles_apart(#[trigger] tiles[j], by)
}

impl MapView {
    /// The tiles of a column, in its first `n` rows, where a dam may stand.
    pub open spec fn dam_column(self, x: u32, n: nat) -> Seq<TilePos>
        decreases n,
    {
        if n == 0 {
            seq![]
        } else {
            let above = self.dam_column(x, (n - 1) as nat);
            let t = TilePos { x, y: (n - 1) as u32 };
            if self.refusal(BuildingKind::Dam, t) is None {
                above.push(t)
            } else {
                above
            }
        }
    }

    /// The wall that closes the river in a column, if one does.
    pub open spec fn wall_in(self, dams: Seq<TilePos>, x: int) -> Option<Seq<TilePos>> {
        let wall = self.dam_column(x as u32, self.height as nat);
        if 0 <= x < self.width && !crowded(dams, x) && closes(wall) {
            Some(wall)
        } else {
            None
        }
    }

    /// The shortest wall that lies less than `n` columns down the river, the nearest
    /// of those that are equally short.
    pub open spec fn wall_within(self, anchor: TilePos, dams: Seq<TilePos>, n: nat) -> Option<
        Seq<TilePos>,
    >
        decreases n,
    {
        if n <= NEAREST_WALL {
            None
        } else {
            shorter(
                self.wall_within(anchor, dams, (n - 1) as nat),
                self.wall_in(dams, anchor.x + (n - 1)),
            )
        }
    }

    /// Does the column lie in the band where crossings are looked for, downstream of
    /// the colony?
    pub open spec fn in_band(self, anchor: TilePos, x: int) -> bool {
        NEAREST_WALL <= x - anchor.x < self.width / 2
    }

    /// The wall to build for a colony, its nearest tile first; empty if there is
    /// none.
    pub open spec fn crossing(self, anchor: TilePos, dams: Seq<TilePos>) -> Seq<TilePos> {
        match self.wall_within(anchor, dams, (self.width / 2) as nat) {
            Some(w) => nearest_first(w, anchor),
            None => seq![],
        }
    }
}

fn is_crowded(dams: &Vec<TilePos>, x: u32) -> (r: bool)
    ensures
        r == crowded(dams@, x as int),
{
    let mut i: usize = 0;
    while i < dams.len()
        invariant
            i <= dams@.len(),
            forall|j: int|
                0 <= j < i ==> !(-(BETWEEN_WALLS as int) < (#[trigger] dams@[j]).x - x
                    < BETWEEN_WALLS),
        decreases dams@.len() - i,
    {
        let d: u32 = dams[i].x;
        let off: u32 = if d < x {
            x - d
        } else {
            d - x
        };
        if off < BETWEEN_WALLS {
            assert(dams@[i as int].x == d);
            return true;
        }
        i += 1;
    }
    false
}

fn does_close(wall: &Vec<TilePos>) -> (r: bool)
    ensures
        r == closes(wall@),
{
    if wall.len() == 0 || wall.len() > WIDEST_WALL {
        return false;
    }
    let mut i: usize = 1;
    while i < wall.len()
        invariant
            1 <= i <= wall@.len(),
            wall@.len() <= WIDEST_WALL,
            forall|j: int| 1 <= j < i ==> (#[trigger] wall@[j]).y == wall@[j - 1].y + 1,
        decreases wall@.len() - i,
    {
        if wall[i].y == 0 || wall[i].y - 1 != wall[i - 1].y {
            assert(wall@[i as int].y != wall@[i - 1].y + 1);
            return false;
        }
        i += 1;
    }
    true
}

fn wall_in_column(map: &TileMap, dams: &Vec<TilePos>, x: u32) -> (r: Option<Vec<TilePos>>)
    requires
        map.wf(),
        x < map.width,
    ensures
        match r {
            Some(w) => map@.wall_in(dams@, x as int) == Some(w@),
            None => map@.wall_in(dams@, x as int) is None,
        },
{
    if is_crowded(dams, x) {
        return None;
    }
    let mut wall: Vec<TilePos> = Vec::new();
    let mut y: u32 = 0;
    while y < map.height
        invariant
            map.wf(),
            x < map.width,
            y <= map.height,
            wall@ == map@.dam_column(x, y as nat),
        decreases map.height - y,
    {
        let t = TilePos { x, y };
        if placement_error(map, BuildingKind::Dam, t).is_none() {
            wall.push(t);
        }
        y += 1;
    }
    if does_close(&wall) {
        Some(wall)
    } else {
        None
    }
}

/// A tile is put where the tiles before it are no farther off and those behind it
/// are.
proof fn put_is_insert(sorted: Seq<TilePos>, t: TilePos, by: TilePos, p: int)
    requires
        0 <= p <= sorted.len(),
        p > 0 ==> crate::sim::sites::tiles_apart(sorted[p - 1], by)
            <= crate::sim::sites::tiles_apart(t, by),
        forall|k: int|
            p <= k < sorted.len() ==> crate::sim::sites::tiles_apart(#[trigger] sorted[k], by)
                > crate::sim::sites::tiles_apart(t, by),
    ensures
        put_by_distance(sorted, t, by) == sorted.insert(p, t),
    decreases sorted.len(),
{
    if p == sorted.len() {
        assert(sorted.insert(p, t) =~= sorted.push(t));
    } else {
        assert(sorted.last() == sorted[sorted.len() - 1]);
        put_is_insert(sorted.drop_last(), t, by, p);
        assert(sorted.insert(p, t) =~= sorted.drop_last().insert(p, t).push(sorted.last()));
    }
}

fn sort_by_distance(tiles: &Vec<TilePos>, by: TilePos) -> (r: Vec<TilePos>)
    requires
        by.x <= 0x3fff_ffff,
        by.y <= 0x3fff_ffff,
        forall|i: int|
            0 <= i < tiles@.len() ==> (#[trigger] tiles@[i]).x <= 0x3fff_ffff && tiles@[i].y
                <= 0x3fff_ffff,
    ensures
        r@ == nearest_first(tiles@, by),
{
    let mut r: Vec<TilePos> = Vec::new();
    let mut i: usize = 0;
    proof {
        assert(tiles@.take(0) =~= seq![]);
        assert(r@ =~= nearest_first(tiles@.take(0), by));
    }
    while i < tiles.len()
        invariant
            by.x <= 0x3fff_ffff,
            by.y <= 0x3fff_ffff,
            forall|k: int|
                0 <= k < tiles@.len() ==> (#[trigger] tiles@[k]).x <= 0x3fff_ffff && tiles@[k].y
                    <= 0x3fff_ffff,
            i <= tiles@.len(),
            r@.len() == i,
            forall|k: int|
                0 <= k < r@.len() ==> (#[trigger] r@[k]).x <= 0x3fff_ffff && r@[k].y
                    <= 0x3fff_ffff,
            r@ == nearest_first(tiles@.take(i as int), by),
        decreases tiles@.len() - i,
    {
        let t: TilePos = tiles[i];
        let off: u64 = tile_distance(t, by);
        let mut p: usize = r.len();
        while p > 0 && tile_distance(r[p - 1], by) > off
            invariant
                by.x <= 0x3fff_ffff,
                by.y <= 0x3fff_ffff,
                forall|k: int|
                    0 <= k < r@.len() ==> (#[trigger] r@[k]).x <= 0x3fff_ffff && r@[k].y
                        <= 0x3fff_ffff,
                off == crate::sim::sites::tiles_apart(t, by),
                p <= r@.len(),
                forall|k: int|
                    p <= k < r@.len() ==> crate::sim::sites::tiles_apart(#[trigger] r@[k], by)
                        > off,
            decreases p,
        {
            p -= 1;
        }
        proof {
            assert(tiles@.take(i + 1).drop_last() =~= tiles@.take(i as int));
            put_is_insert(r@, t, by, p as int);
        }
        r.insert(p, t);
        i += 1;
    }
    assert(tiles@.take(i as int) =~= tiles@);
    r
}

/// The narrowest place to close the river downstream of the colony, and the nearest
/// of those that are equally narrow: the tiles of the wall, the nearest to the
/// colony first. They are all those of the bed, also where it has run dry for now.
/// `avoid` holds the dams there are: a new wall keeps its
/// distance from them, so that each holds back a stretch of water.
pub fn plan_dam_crossing(map: &TileMap, anchor: TilePos, avoid: &Vec<TilePos>) -> (r: Vec<TilePos>)
    requires
        map.wf(),
        anchor.x <= 0x3fff_ffff,
        anchor.y <= 0x3fff_ffff,
    ensures
        r@ == map@.crossing(anchor, avoid@),
{
    let half: u32 = map.width / 2;
    let mut dx: u32 = NEAREST_WALL;
    let mut best: Option<Vec<TilePos>> = None;
    while dx < half
        invariant
            map.wf(),
            anchor.x <= 0x3fff_ffff,
            half == map.width / 2,
            NEAREST_WALL <= dx,
            dx <= half || dx == NEAREST_WALL,
            tiles_of(best) == map@.wall_within(anchor, avoid@, dx as nat),
        decreases half - dx,
    {
        let here = if anchor.x + dx < map.width {
            wall_in_column(map, avoid, anchor.x + dx)
        } else {
            None
        };
        best = shorter_of(best, here);
        dx += 1;
    }
    assert(map@.wall_within(anchor, avoid@, dx as nat) == map@.wall_within(
        anchor,
        avoid@,
        half as nat,
    ));
    match best {
        Some(wall) => {
            proof {
                found_wall(map@, anchor, avoid@, half as nat);
            }
            sort_by_distance(&wall, anchor)
        },
        None => Vec::new(),
    }
}

spec fn tiles_of(wall: Option<Vec<TilePos>>) -> Option<Seq<TilePos>> {
    match wall {
        Some(w) => Some(w@),
        None => None,
    }
}

fn shorter_of(a: Option<Vec<TilePos>>, b: Option<Vec<TilePos>>) -> (r: Option<Vec<TilePos>>)
    ensures
        tiles_of(r) == shorter(tiles_of(a), tiles_of(b)),
{
    match a {
        Some(u) => match b {
            Some(v) => if v.len() < u.len() {
                Some(v)
            } else {
                Some(u)
            },
            None => Some(u),
        },
        None => b,
    }
}

/// The list of a column holds the tiles where a dam may stand, and no others.
pub(crate) proof fn column_holds(map: MapView, x: u32, n: nat)
    requires
        n <= u32::MAX,
    ensures
        forall|i: int|
            0 <= i < map.dam_column(x, n).len() ==> {
                let t = #[trigger] map.dam_column(x, n)[i];
                t.x == x && t.y < n && map.refusal(BuildingKind::Dam, t) is None
            },
        forall|y: u32|
            y < n && (#[trigger] map.refusal(BuildingKind::Dam, TilePos { x, y })) is None
                ==> map.dam_column(x, n).contains(TilePos { x, y }),
    decreases n,
{
    if n > 0 {
        column_holds(map, x, (n - 1) as nat);
        let above = map.dam_column(x, (n - 1) as nat);
        let here = map.dam_column(x, n);
        assert forall|y: u32|
            y < n && (#[trigger] map.refusal(BuildingKind::Dam, TilePos { x, y })) is None implies
            here.contains(TilePos { x, y }) by {
            if y == n - 1 {
                assert(here.last() == TilePos { x, y });
            } else {
                let i = choose|i: int| 0 <= i < above.len() && above[i] == (TilePos { x, y });
                assert(here[i] == TilePos { x, y });
            }
        }
    }
}

proof fn put_keeps_tiles(sorted: Seq<TilePos>, t: TilePos, by: TilePos)
    requires
        comes_nearest_first(sorted, by),
    ensures
        put_by_distance(sorted, t, by).len() == sorted.len() + 1,
        comes_nearest_first(put_by_distance(sorted, t, by), by),
        put_by_distance(sorted, t, by).to_multiset() == sorted.to_multiset().insert(t),
        forall|i: int|
            0 <= i < sorted.len() + 1 ==> (#[trigger] put_by_distance(sorted, t, by)[i]) == t
                || sorted.contains(put_by_distance(sorted, t, by)[i]),
    decreases sorted.len(),
{
    broadcast use vstd::seq_lib::group_to_multiset_ensures;

    let put = put_by_distance(sorted, t, by);
    if sorted.len() > 0 && crate::sim::sites::tiles_apart(sorted.last(), by)
        > crate::sim::sites::tiles_apart(t, by) {
        let front = sorted.drop_last();
        put_keeps_tiles(front, t, by);
        let rest = put_by_distance(front, t, by);
        assert(sorted =~= front.push(sorted.last()));
        assert(put.to_multiset() =~= sorted.to_multiset().insert(t));
        assert forall|i: int| 0 <= i < put.len() implies (#[trigger] put[i]) == t
            || sorted.contains(put[i]) by {
            if i == sorted.len() {
                assert(put[i] == sorted[sorted.len() - 1]);
            } else {
                assert(put[i] == rest[i]);
                if rest[i] != t {
                    let j = choose|j: int| 0 <= j < front.len() && front[j] == rest[i];
                    assert(sorted[j] == put[i]);
                }
            }
        }
        assert forall|i: int, j: int| 0 <= i < j < put.len() implies
            crate::sim::sites::tiles_apart(#[trigger] put[i], by)
            <= crate::sim::sites::tiles_apart(#[trigger] put[j], by) by {
            assert(put[i] == rest[i]);
            if j < rest.len() {
                assert(put[j] == rest[j]);
            } else {
                assert(put[j] == sorted[sorted.len() - 1]);
                if rest[i] != t {
                    let k = choose|k: int| 0 <= k < front.len() && front[k] == rest[i];
                    assert(sorted[k] == put[i]);
                }
            }
        }
    } else {
        assert forall|i: int| 0 <= i < put.len() implies (#[trigger] put[i]) == t
            || sorted.contains(put[i]) by {
            if i < sorted.len() {
                assert(sorted[i] == put[i]);
            }
        }
        assert forall|i: int, j: int| 0 <= i < j < put.len() implies
            crate::sim::sites::tiles_apart(#[trigger] put[i], by)
            <= crate::sim::sites::tiles_apart(#[trigger] put[j], by) by {
            assert(put[i] == sorted[i]);
            if j < sorted.len() {
                assert(put[j] == sorted[j]);
            } else {
                assert(sorted.last() == sorted[sorted.len() - 1]);
                if i < sorted.len() - 1 {
                    assert(crate::sim::sites::tiles_apart(sorted[i], by)
                        <= crate::sim::sites::tiles_apart(sorted[sorted.len() - 1], by));
                }
            }
        }
    }
}

proof fn sorting_keeps_tiles(tiles: Seq<TilePos>, by: TilePos)
    ensures
        nearest_first(tiles, by).len() == tiles.len(),
        comes_nearest_first(nearest_first(tiles, by), by),
        nearest_first(tiles, by).to_multiset() == tiles.to_multiset(),
        forall|t: TilePos| #[trigger]
            nearest_first(tiles, by).contains(t) <==> tiles.contains(t),
    decreases tiles.len(),
{
    broadcast use vstd::seq_lib::group_to_multiset_ensures;

    if tiles.len() > 0 {
        sorting_keeps_tiles(tiles.drop_last(), by);
        put_keeps_tiles(nearest_first(tiles.drop_last(), by), tiles.last(), by);
        assert(tiles =~= tiles.drop_last().push(tiles.last()));
    } else {
        assert(nearest_first(tiles, by) =~= tiles);
    }
    assert forall|t: TilePos| #[trigger]
        nearest_first(tiles, by).contains(t) <==> tiles.contains(t) by {
        vstd::seq_lib::to_multiset_contains(nearest_first(tiles, by), t);
        vstd::seq_lib::to_multiset_contains(tiles, t);
    }
}

/// The planned wall closes the river: its tiles are those of one column of the
/// band where a dam may stand, which have no gap and are no more than a dam can be
/// wide, and it keeps its distance from the dams there are.
pub proof fn a_crossing_closes_the_river(map: MapView, anchor: TilePos, dams: Seq<TilePos>)
    requires
        map.wf(),
        map.crossing(anchor, dams).len() > 0,
    ensures
        ({
            let wall = map.crossing(anchor, dams);
            let column = map.dam_column(wall[0].x, map.height as nat);
            &&& map.in_band(anchor, wall[0].x as int)
            &&& closes(column)
            &&& wall.to_multiset() == column.to_multiset()
            &&& forall|i: int|
                0 <= i < wall.len() ==> map.holds(#[trigger] wall[i]) && wall[i].x == wall[0].x
                    && map.refusal(BuildingKind::Dam, wall[i]) is None
            &&& forall|y: u32|
                y < map.height && (#[trigger] map.refusal(
                    BuildingKind::Dam,
                    TilePos { x: wall[0].x, y },
                )) is None ==> wall.contains(TilePos { x: wall[0].x, y })
            &&& forall|i: int|
                0 <= i < dams.len() ==> (#[trigger] dams[i]).x - wall[0].x >= BETWEEN_WALLS
                    || wall[0].x - dams[i].x >= BETWEEN_WALLS
        }),
{
    let half = (map.width / 2) as nat;
    let found = map.wall_within(anchor, dams, half)->0;
    let wall = map.crossing(anchor, dams);
    found_wall(map, anchor, dams, half);
    sorting_keeps_tiles(found, anchor);
    assert forall|i: int| 0 <= i < wall.len() implies found.contains(#[trigger] wall[i]) by {
        assert(wall.contains(wall[i]));
    }
    assert(found.contains(wall[0]));
    let x = wall[0].x;
    column_holds(map, x, map.height as nat);
    assert forall|y: u32|
        y < map.height && (#[trigger] map.refusal(BuildingKind::Dam, TilePos { x, y }))
            is None implies wall.contains(TilePos { x, y }) by {
        assert(found.contains(TilePos { x, y }));
    }
}

/// The planned wall is the narrowest: no column of the band has a shorter one, and
/// none is planned only where no column has any. Of the equally short ones it is
/// the nearest.
pub proof fn crossings_are_narrowest(map: MapView, anchor: TilePos, dams: Seq<TilePos>, x: int)
    requires
        map.wf(),
        map.in_band(anchor, x),
        map.wall_in(dams, x) is Some,
    ensures
        ({
            let wall = map.crossing(anchor, dams);
            let other = map.wall_in(dams, x)->0;
            &&& 1 <= wall.len() <= other.len()
            &&& wall.len() == other.len() ==> wall[0].x <= x
        }),
{
    let half = (map.width / 2) as nat;
    let found = map.wall_within(anchor, dams, half);
    narrowest_within(map, anchor, dams, x, half);
    found_wall(map, anchor, dams, half);
    sorting_keeps_tiles(found->0, anchor);
    let wall = map.crossing(anchor, dams);
    assert(wall.contains(wall[0]));
    assert((found->0).contains(wall[0]));
}

/// The wall is built from its far end: its tiles come nearest to the colony first.
pub proof fn crossings_come_nearest_first(map: MapView, anchor: TilePos, dams: Seq<TilePos>)
    ensures
        comes_nearest_first(map.crossing(anchor, dams), anchor),
{
    let found = map.wall_within(anchor, dams, (map.width / 2) as nat);
    if found is Some {
        sorting_keeps_tiles(found->0, anchor);
    }
}

proof fn narrowest_within(map: MapView, anchor: TilePos, dams: Seq<TilePos>, x: int, n: nat)
    requires
        map.wf(),
        NEAREST_WALL <= x - anchor.x < n,
        map.wall_in(dams, x) is Some,
    ensures
        map.wall_within(anchor, dams, n) is Some,
        ({
            let wall = map.wall_within(anchor, dams, n)->0;
            let other = map.wall_in(dams, x)->0;
            &&& wall.len() <= other.len()
            &&& wall.len() == other.len() ==> wall[0].x <= x
        }),
    decreases n,
{
    if x - anchor.x < n - 1 {
        narrowest_within(map, anchor, dams, x, (n - 1) as nat);
    } else if map.wall_within(anchor, dams, (n - 1) as nat) is Some {
        found_wall(map, anchor, dams, (n - 1) as nat);
    }
    found_wall(map, anchor, dams, n);
}

proof fn found_wall(map: MapView, anchor: TilePos, dams: Seq<TilePos>, n: nat)
    requires
        map.wf(),
        map.wall_within(anchor, dams, n) is Some,
    ensures
        ({
            let wall = map.wall_within(anchor, dams, n)->0;
            &&& NEAREST_WALL <= wall[0].x - anchor.x < n
            &&& wall == map.dam_column(wall[0].x, map.height as nat)
            &&& closes(wall)
            &&& forall|i: int|
                0 <= i < wall.len() ==> map.holds(#[trigger] wall[i]) && wall[i].x == wall[0].x
                    && map.refusal(BuildingKind::Dam, wall[i]) is None
            &&& !crowded(dams, wall[0].x as int)
        }),
    decreases n,
{
    if map.wall_within(anchor, dams, (n - 1) as nat) is Some {
        found_wall(map, anchor, dams, (n - 1) as nat);
    }
    column_holds(map, (anchor.x + (n - 1)) as u32, map.height as nat);
}

} // verus!
