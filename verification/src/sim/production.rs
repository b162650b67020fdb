//! What finished buildings do: they post jobs, raise beavers and give homes.
use vstd::prelude::*;

use crate::sim::beavers::{among, Job, JobKind, JobRow};
use crate::sim::buildings::{def, BuildingKind, BuildingRow, WorkCycle};
use crate::sim::map::{MapView, Pos, TileMap, TilePos};
use crate::sim::season::Population;
use crate::sim::stock::{take_from, Stockpile};
use crate::sim::trees::{Tree, TreeRow};

verus! {

/// The largest radius of which twice the square is a 32-bit number.
pub const MAX_RADIUS: u32 = 32767;

impl MapView {
    /// The `k`th tile of the square around `center`, row by row, if it is on
    /// the map and within `r` of the center.
    pub open spec fn disc_tile(self, center: TilePos, r: u32, k: int) -> Option<TilePos> {
        let side = 2 * r + 1;
        let dx = k % side - r;
        let dy = k / side - r;
        let x = center.x + dx;
        let y = center.y + dy;
        if dx * dx + dy * dy <= r * r && self.inside(x, y) {
            Some(TilePos { x: x as u32, y: y as u32 })
        } else {
            None
        }
    }

    /// The tiles within `r` of `center` among the first `n` of the square.
    pub open spec fn disc_upto(self, center: TilePos, r: u32, n: nat) -> Seq<TilePos>
        decreases n,
    {
        if n == 0 {
            Seq::empty()
        } else {
            let prior = self.disc_upto(center, r, (n - 1) as nat);
            match self.disc_tile(center, r, n - 1) {
                Some(t) => prior.push(t),
                None => prior,
            }
        }
    }

    /// The tiles within `r` of `center`, row by row.
    pub open spec fn disc(self, center: TilePos, r: u32) -> Seq<TilePos> {
        self.disc_upto(center, r, ((2 * r + 1) * (2 * r + 1)) as nat)
    }
}

/// Where a tile comes in the square around `center`, row by row.
spec fn rank(center: TilePos, r: u32, t: TilePos) -> int {
    (t.y - center.y + r) * (2 * r + 1) + (t.x - center.x + r)
}

/// A tile of the disc has the rank at which it was found.
proof fn ranks_of_disc(map: MapView, center: TilePos, r: u32, k: int)
    requires
        map.wf(),
        k >= 0,
        map.disc_tile(center, r, k) is Some,
    ensures
        ({
            let t = map.disc_tile(center, r, k)->0;
            &&& rank(center, r, t) == k
            &&& map.holds(t)
            &&& -(r as int) <= t.x - center.x <= r
            &&& crate::sim::sites::tiles_apart(t, center) <= r * r
        }),
{
    let side = 2 * r + 1;
    vstd::arithmetic::div_mod::lemma_fundamental_div_mod(k, side);
    vstd::arithmetic::mul::lemma_mul_is_commutative(side, k / side);
}

proof fn disc_upto_is_ranked(map: MapView, center: TilePos, r: u32, n: nat)
    requires
        map.wf(),
    ensures
        ({
            let tiles = map.disc_upto(center, r, n);
            &&& forall|i: int|
                0 <= i < tiles.len() ==> {
                    let t = #[trigger] tiles[i];
                    &&& 0 <= rank(center, r, t) < n
                    &&& map.holds(t)
                    &&& -(r as int) <= t.x - center.x <= r
                    &&& crate::sim::sites::tiles_apart(t, center) <= r * r
                }
            &&& forall|i: int, j: int|
                0 <= i < j < tiles.len() ==> rank(center, r, #[trigger] tiles[i]) < rank(
                    center,
                    r,
                    #[trigger] tiles[j],
                )
            &&& forall|k: int|
                0 <= k < n && (#[trigger] map.disc_tile(center, r, k)) is Some ==> tiles.contains(
                    map.disc_tile(center, r, k)->0,
                )
        }),
    decreases n,
{
    if n > 0 {
        disc_upto_is_ranked(map, center, r, (n - 1) as nat);
        let prior = map.disc_upto(center, r, (n - 1) as nat);
        let tiles = map.disc_upto(center, r, n);
        if map.disc_tile(center, r, n - 1) is Some {
            ranks_of_disc(map, center, r, n - 1);
        }
        assert forall|k: int|
            0 <= k < n && (#[trigger] map.disc_tile(center, r, k)) is Some implies tiles.contains(
            map.disc_tile(center, r, k)->0,
        ) by {
            let t = map.disc_tile(center, r, k)->0;
            if k == n - 1 {
                assert(tiles.last() == t);
            } else {
                let i = choose|i: int| 0 <= i < prior.len() && prior[i] == t;
                assert(tiles[i] == t);
            }
        }
    }
}

/// A disc holds exactly the tiles of the map within the radius, each once, row by
/// row and in a row from left to right.
pub proof fn discs_hold_what_is_near(map: MapView, center: TilePos, r: u32)
    requires
        map.wf(),
    ensures
        forall|t: TilePos| #[trigger]
            map.disc(center, r).contains(t) <==> map.holds(t) && crate::sim::sites::tiles_apart(
                t,
                center,
            ) <= r * r,
        forall|i: int, j: int|
            0 <= i < j < map.disc(center, r).len() ==> {
                let a = #[trigger] map.disc(center, r)[i];
                let b = #[trigger] map.disc(center, r)[j];
                a.y < b.y || (a.y == b.y && a.x < b.x)
            },
{
    let side = 2 * r + 1;
    let n = (side * side) as nat;
    let tiles = map.disc(center, r);
    disc_upto_is_ranked(map, center, r, n);
    assert forall|t: TilePos| #[trigger] tiles.contains(t) <==> map.holds(t)
        && crate::sim::sites::tiles_apart(t, center) <= r * r by {
        let dx = t.x - center.x;
        let dy = t.y - center.y;
        if map.holds(t) && crate::sim::sites::tiles_apart(t, center) <= r * r {
            let k = rank(center, r, t);
            assert(-(r as int) <= dx <= r && -(r as int) <= dy <= r) by (nonlinear_arith)
                requires
                    dx * dx + dy * dy <= r * r,
                    r >= 0,
            ;
            assert(0 <= k < side * side && k % side == dx + r && k / side == dy + r) by {
                vstd::arithmetic::div_mod::lemma_fundamental_div_mod_converse(
                    k,
                    side,
                    dy + r,
                    dx + r,
                );
                assert(0 <= (dy + r) * side + (dx + r) < side * side) by (nonlinear_arith)
                    requires
                        0 <= dx + r < side,
                        0 <= dy + r < side,
                ;
            }
            assert(map.disc_tile(center, r, k) == Some(t));
        }
    }
    assert forall|i: int, j: int| 0 <= i < j < tiles.len() implies {
        let a = #[trigger] tiles[i];
        let b = #[trigger] tiles[j];
        a.y < b.y || (a.y == b.y && a.x < b.x)
    } by {
        let a = tiles[i];
        let b = tiles[j];
        assert(rank(center, r, a) < rank(center, r, b));
        let (ay, ax) = (a.y - center.y + r, a.x - center.x + r);
        let (by, bx) = (b.y - center.y + r, b.x - center.x + r);
        assert(ay < by || (ay == by && ax < bx)) by (nonlinear_arith)
            requires
                ay * side + ax < by * side + bx,
                0 <= ax < side,
                0 <= bx < side,
        ;
    }
}

/// The tiles within a radius of a tile, row by row.
pub fn tiles_in_radius(map: &TileMap, center: TilePos, radius: u32) -> (r: Vec<TilePos>)
    requires
        map.wf(),
        map@.holds(center),
        radius <= MAX_RADIUS,
    ensures
        r@ == map@.disc(center, radius),
        forall|i: int| 0 <= i < r@.len() ==> map@.holds(#[trigger] r@[i]),
{
    let mut r: Vec<TilePos> = Vec::new();
    let side: i64 = 2 * radius as i64 + 1;
    let reach: i64 = radius as i64;
    let mut k: i64 = 0;
    assert(side * side <= 65535 * 65535) by (nonlinear_arith)
        requires
            0 <= side <= 65535,
    ;
    let total: i64 = side * side;
    while k < total
        invariant
            map.wf(),
            map@.holds(center),
            radius <= MAX_RADIUS,
            reach == radius,
            side == 2 * radius + 1,
            total == side * side,
            total <= 65535 * 65535,
            0 <= k <= total,
            r@ == map@.disc_upto(center, radius, k as nat),
            forall|i: int| 0 <= i < r@.len() ==> map@.holds(#[trigger] r@[i]),
        decreases total - k,
    {
        proof {
            vstd::arithmetic::div_mod::lemma_fundamental_div_mod(k as int, side as int);
            let q = k as int / side as int;
            assert(0 <= q < side) by (nonlinear_arith)
                requires
                    0 <= k < side * side,
                    q == k as int / side as int,
                    side > 0,
            ;
        }
        let dx: i64 = k % side - reach;
        let dy: i64 = k / side - reach;
        assert(dx * dx <= 32767 * 32767) by (nonlinear_arith)
            requires
                -32767 <= dx <= 32767,
        ;
        assert(dy * dy <= 32767 * 32767) by (nonlinear_arith)
            requires
                -32767 <= dy <= 32767,
        ;
        assert(reach * reach <= 32767 * 32767) by (nonlinear_arith)
            requires
                0 <= reach <= 32767,
        ;
        assert(0 <= dx * dx) by (nonlinear_arith);
        assert(0 <= dy * dy) by (nonlinear_arith);
        let x: i32 = (center.x as i64 + dx) as i32;
        let y: i32 = (center.y as i64 + dy) as i32;
        if dx * dx + dy * dy <= reach * reach && map.in_bounds(x, y) {
            r.push(TilePos { x: x as u32, y: y as u32 });
        }
        k += 1;
    }
    r
}

/// The first tile of a list that fits.
pub open spec fn first_where(s: Seq<TilePos>, fits: spec_fn(TilePos) -> bool) -> Option<TilePos>
    decreases s.len(),
{
    if s.len() == 0 {
        None
    } else {
        match first_where(s.drop_last(), fits) {
            Some(t) => Some(t),
            None => if fits(s.last()) {
                Some(s.last())
            } else {
                None
            },
        }
    }
}

proof fn first_where_prefix(s: Seq<TilePos>, fits: spec_fn(TilePos) -> bool, n: int)
    requires
        0 <= n <= s.len(),
        first_where(s.take(n), fits) is Some,
    ensures
        first_where(s, fits) == first_where(s.take(n), fits),
    decreases s.len() - n,
{
    if n < s.len() {
        assert(s.take(n + 1).drop_last() =~= s.take(n));
        first_where_prefix(s, fits, n + 1);
    } else {
        assert(s.take(n) =~= s);
    }
}

/// The tree of an entity: its first row.
pub open spec fn tree_of(trees: Seq<TreeRow>, id: u64) -> Option<Tree>
    decreases trees.len(),
{
    if trees.len() == 0 {
        None
    } else {
        match tree_of(trees.drop_last(), id) {
            Some(t) => Some(t),
            None => if trees.last().id == id {
                Some(trees.last().tree)
            } else {
                None
            },
        }
    }
}

proof fn tree_of_prefix(trees: Seq<TreeRow>, id: u64, n: int)
    requires
        0 <= n <= trees.len(),
        tree_of(trees.take(n), id) is Some,
    ensures
        tree_of(trees, id) == tree_of(trees.take(n), id),
    decreases trees.len() - n,
{
    if n < trees.len() {
        assert(trees.take(n + 1).drop_last() =~= trees.take(n));
        tree_of_prefix(trees, id, n + 1);
    } else {
        assert(trees.take(n) =~= trees);
    }
}

pub fn find_tree(trees: &Vec<TreeRow>, id: u64) -> (r: Option<Tree>)
    ensures
        r == tree_of(trees@, id),
{
    let mut i: usize = 0;
    while i < trees.len()
        invariant
            i <= trees@.len(),
            tree_of(trees@.take(i as int), id) is None,
        decreases trees@.len() - i,
    {
        proof {
            assert(trees@.take(i + 1).drop_last() =~= trees@.take(i as int));
            assert(trees@.take(i + 1).last() == trees@[i as int]);
        }
        if trees[i].id == id {
            proof {
                tree_of_prefix(trees@, id, i + 1);
            }
            return Some(trees[i].tree);
        }
        i += 1;
    }
    assert(trees@.take(i as int) =~= trees@);
    None
}

impl MapView {
    /// Is there a tree on this tile that can be chopped?
    pub open spec fn choppable(self, trees: Seq<TreeRow>, t: TilePos) -> bool {
        match self.tree[self.at(t)] {
            Some(e) => match tree_of(trees, e) {
                Some(tree) => tree.mature(),
                None => false,
            },
            None => false,
        }
    }
}

/// The first mature tree around a tile, and where it stands.
pub fn find_mature_tree(
    map: &TileMap,
    center: TilePos,
    radius: u32,
    trees: &Vec<TreeRow>,
) -> (r: Option<(u64, TilePos)>)
    requires
        map.wf(),
        map@.holds(center),
        radius <= MAX_RADIUS,
    ensures
        match first_where(
            map@.disc(center, radius),
            |t: TilePos| map@.choppable(trees@, t),
        ) {
            Some(t) => r == Some((map@.tree[map@.at(t)]->0, t)) && map@.holds(t),
            None => r is None,
        },
{
    let tiles = tiles_in_radius(map, center, radius);
    let ghost fits = |t: TilePos| map@.choppable(trees@, t);
    let mut i: usize = 0;
    while i < tiles.len()
        invariant
            map.wf(),
            i <= tiles@.len(),
            tiles@ == map@.disc(center, radius),
            forall|k: int| 0 <= k < tiles@.len() ==> map@.holds(#[trigger] tiles@[k]),
            fits == (|t: TilePos| map@.choppable(trees@, t)),
            first_where(tiles@.take(i as int), fits) is None,
        decreases tiles@.len() - i,
    {
        let t = tiles[i];
        proof {
            assert(map@.holds(tiles@[i as int]));
            assert(tiles@.take(i + 1).drop_last() =~= tiles@.take(i as int));
            assert(tiles@.take(i + 1).last() == t);
        }
        if let Some(e) = map.tree[map.idx(t.x, t.y)] {
            if let Some(tree) = find_tree(trees, e) {
                if tree.is_mature() {
                    proof {
                        assert(fits(t));
                        first_where_prefix(tiles@, fits, i + 1);
                    }
                    return Some((e, t));
                }
            }
        }
        assert(!fits(t));
        i += 1;
    }
    assert(tiles@.take(i as int) =~= tiles@);
    None
}

/// The first free land around a tile.
pub fn find_plant_spot(map: &TileMap, center: TilePos, radius: u32) -> (r: Option<TilePos>)
    requires
        map.wf(),
        map@.holds(center),
        radius <= MAX_RADIUS,
    ensures
        r == first_where(map@.disc(center, radius), |t: TilePos| map@.free_land(t)),
        r matches Some(t) ==> map@.holds(t),
{
    let tiles = tiles_in_radius(map, center, radius);
    let ghost fits = |t: TilePos| map@.free_land(t);
    let mut i: usize = 0;
    while i < tiles.len()
        invariant
            map.wf(),
            i <= tiles@.len(),
            tiles@ == map@.disc(center, radius),
            forall|k: int| 0 <= k < tiles@.len() ==> map@.holds(#[trigger] tiles@[k]),
            fits == (|t: TilePos| map@.free_land(t)),
            first_where(tiles@.take(i as int), fits) is None,
        decreases tiles@.len() - i,
    {
        let t = tiles[i];
        proof {
            assert(map@.holds(tiles@[i as int]));
            assert(tiles@.take(i + 1).drop_last() =~= tiles@.take(i as int));
            assert(tiles@.take(i + 1).last() == t);
        }
        if map.is_free_land(t.x, t.y) {
            proof {
                assert(fits(t));
                first_where_prefix(tiles@, fits, i + 1);
            }
            return Some(t);
        }
        assert(!fits(t));
        i += 1;
    }
    assert(tiles@.take(i as int) =~= tiles@);
    None
}

/// The work that a finished building asks for now, if any.
pub open spec fn wanted_job(map: MapView, trees: Seq<TreeRow>, row: BuildingRow) -> Option<Job> {
    let b = row.building;
    let job = |kind: JobKind, tile: TilePos, work: u64| Job { kind, tile, work, claimed_by: None };
    match b.kind {
        BuildingKind::WaterPump => if map.near_water(b.tile) {
            Some(job(JobKind::Pump(row.id), b.tile, 3_000_000))
        } else {
            None
        },
        BuildingKind::CarrotFarm => if map.irrigated[map.at(b.tile)] {
            Some(job(JobKind::Farm(row.id), b.tile, 5_000_000))
        } else {
            None
        },
        BuildingKind::Lumberjack => match first_where(
            map.disc(b.tile, b.kind.radius()),
            |t: TilePos| map.choppable(trees, t),
        ) {
            Some(t) => Some(job(JobKind::Chop(map.tree[map.at(t)]->0), t, 4_000_000)),
            None => None,
        },
        BuildingKind::Forester => match first_where(
            map.disc(b.tile, b.kind.radius()),
            |t: TilePos| map.free_land(t),
        ) {
            Some(t) => Some(job(JobKind::Plant(t), t, 3_000_000)),
            None => None,
        },
        _ => None,
    }
}

fn job_for(map: &TileMap, trees: &Vec<TreeRow>, row: &BuildingRow) -> (r: Option<Job>)
    requires
        map.wf(),
        map@.holds(row.building.tile),
    ensures
        r == wanted_job(map@, trees@, *row),
        r matches Some(job) ==> map@.holds(job.tile) && (job.kind matches JobKind::Plant(t)
            ==> map@.holds(t)),
{
    let b = row.building;
    match b.kind {
        BuildingKind::WaterPump => if map.adjacent_to_water(b.tile.x, b.tile.y) {
            Some(
                Job { kind: JobKind::Pump(row.id), tile: b.tile, work: 3_000_000, claimed_by: None },
            )
        } else {
            None
        },
        BuildingKind::CarrotFarm => if map.irrigated[map.idx(b.tile.x, b.tile.y)] {
            Some(
                Job { kind: JobKind::Farm(row.id), tile: b.tile, work: 5_000_000, claimed_by: None },
            )
        } else {
            None
        },
        BuildingKind::Lumberjack => match find_mature_tree(map, b.tile, def(b.kind).radius, trees) {
            Some((tree, tile)) => Some(
                Job { kind: JobKind::Chop(tree), tile, work: 4_000_000, claimed_by: None },
            ),
            None => None,
        },
        BuildingKind::Forester => match find_plant_spot(map, b.tile, def(b.kind).radius) {
            Some(tile) => Some(
                Job { kind: JobKind::Plant(tile), tile, work: 3_000_000, claimed_by: None },
            ),
            None => None,
        },
        _ => None,
    }
}

/// What a moment of `dt` does to a building: its state, and the job it posts
/// under the number `id`. It waits while its last job is on the board; then it
/// waits out its pause; then it posts, or looks again a little later. A building
/// that has no jobs to post looks again and again.
pub open spec fn worked(
    map: MapView,
    trees: Seq<TreeRow>,
    alive: Seq<u64>,
    row: BuildingRow,
    dt: u32,
    id: u64,
) -> (BuildingRow, Option<JobRow>) {
    let waits = match row.cycle.job {
        Some(j) => alive.contains(j),
        None => false,
    };
    if row.construction is Some || waits {
        (row, None)
    } else if row.cycle.cooldown > dt {
        (
            BuildingRow {
                cycle: WorkCycle { cooldown: (row.cycle.cooldown - dt) as u64, job: None },
                ..row
            },
            None,
        )
    } else {
        match wanted_job(map, trees, row) {
            Some(job) => (
                BuildingRow { cycle: WorkCycle { cooldown: 2_000_000, job: Some(id) }, ..row },
                Some(JobRow { id, job }),
            ),
            None => (
                BuildingRow { cycle: WorkCycle { cooldown: 1_500_000, job: None }, ..row },
                None,
            ),
        }
    }
}

/// The buildings after a moment, and the jobs that the first `n` of them post.
/// Numbers for jobs are taken from the end of `fresh`.
pub open spec fn posted_upto(
    map: MapView,
    trees: Seq<TreeRow>,
    alive: Seq<u64>,
    rows: Seq<BuildingRow>,
    fresh: Seq<u64>,
    dt: u32,
    n: nat,
) -> (Seq<BuildingRow>, Seq<JobRow>)
    decreases n,
{
    if n == 0 {
        (rows, Seq::empty())
    } else {
        let (now, posts) = posted_upto(map, trees, alive, rows, fresh, dt, (n - 1) as nat);
        let id = fresh[fresh.len() - 1 - posts.len()];
        let (row, post) = worked(map, trees, alive, rows[n - 1], dt, id);
        (
            now.update(n - 1, row),
            match post {
                Some(job) => posts.push(job),
                None => posts,
            },
        )
    }
}

/// Finished buildings post jobs for the beavers from time to time. `alive` are
/// the jobs on the board; numbers for new ones are taken from `fresh`.
pub fn post_production_jobs(
    map: &TileMap,
    trees: &Vec<TreeRow>,
    alive: &Vec<u64>,
    rows: &mut Vec<BuildingRow>,
    fresh: &mut Vec<u64>,
    dt: u32,
) -> (posts: Vec<JobRow>)
    requires
        map.wf(),
        crate::sim::buildings::buildings_stand(old(rows)@, map@),
        old(fresh)@.len() >= old(rows)@.len(),
    ensures
        (final(rows)@, posts@) == posted_upto(
            map@,
            trees@,
            alive@,
            old(rows)@,
            old(fresh)@,
            dt,
            old(rows)@.len(),
        ),
        final(fresh)@ == old(fresh)@.take(old(fresh)@.len() - posts@.len()),
        posts@.len() <= old(rows)@.len(),
        final(rows)@.len() == old(rows)@.len(),
        crate::sim::buildings::buildings_stand(final(rows)@, map@),
        crate::sim::beavers::jobs_stand(posts@, map@),
{
    let ghost before = rows@;
    let ghost pool = fresh@;
    let mut posts: Vec<JobRow> = Vec::new();
    let mut i: usize = 0;
    assert(fresh@ =~= pool.take(pool.len() as int));
    while i < rows.len()
        invariant
            map.wf(),
            crate::sim::buildings::buildings_stand(before, map@),
            pool.len() >= before.len(),
            i <= before.len(),
            rows@.len() == before.len(),
            posts@.len() <= i,
            (rows@, posts@) == posted_upto(map@, trees@, alive@, before, pool, dt, i as nat),
            forall|j: int| i <= j < before.len() ==> #[trigger] rows@[j] == before[j],
            fresh@ == pool.take(pool.len() - posts@.len()),
            crate::sim::buildings::buildings_stand(rows@, map@),
            crate::sim::beavers::jobs_stand(posts@, map@),
        decreases before.len() - i,
    {
        let mut row: BuildingRow = rows[i];
        let ghost given = row;
        let ghost id = pool[pool.len() - 1 - posts@.len()];
        let ghost posts_before = posts@;
        let ghost rows_before = rows@;
        assert(given == before[i as int]);
        assert(map@.holds(before[i as int].building.tile));
        let waits = match row.cycle.job {
            Some(j) => among(alive, j),
            None => false,
        };
        if row.construction.is_none() && !waits {
            row.cycle.job = None;
            if row.cycle.cooldown > dt as u64 {
                row.cycle.cooldown = row.cycle.cooldown - dt as u64;
            } else {
                match job_for(map, trees, &row) {
                    Some(job) => {
                        proof {
                            assert(wanted_job(map@, trees@, row) == wanted_job(
                                map@,
                                trees@,
                                given,
                            ));
                        }
                        let ghost fresh_before = fresh@;
                        match fresh.pop() {
                            Some(next) => {
                                assert(next == id);
                                assert(fresh@ =~= pool.take(
                                    pool.len() - posts_before.len() - 1,
                                ));
                                row.cycle = WorkCycle { cooldown: 2_000_000, job: Some(next) };
                                posts.push(JobRow { id: next, job });
                            },
                            None => {
                                assert(fresh_before.len() > 0);
                            },
                        }
                    },
                    None => {
                        row.cycle.cooldown = 1_500_000;
                    },
                }
            }
        }
        rows.set(i, row);
        proof {
            let (want, post) = worked(map@, trees@, alive@, given, dt, id);
            assert(row == want);
            assert(rows@ =~= rows_before.update(i as int, want));
        }
        i += 1;
    }
    posts
}

/// Food that a birth costs, in halves of a unit.
pub const BIRTH_FOOD: i64 = 6;

/// Water that a birth costs, in halves of a unit.
pub const BIRTH_WATER: i64 = 6;

/// The pause of a nest, in microseconds.
pub const NEST_PAUSE: u64 = 25_000_000;

/// Can a beaver be raised? There has to be a home for it, and food and water.
pub open spec fn can_raise(population: Population, stock: Stockpile) -> bool {
    population.count < population.cap && stock.food >= BIRTH_FOOD && stock.water >= BIRTH_WATER
}

/// Is this a lodge whose nest is due after `dt`?
pub open spec fn nest_due(row: BuildingRow, dt: u32) -> bool {
    row.construction is None && row.building.kind == BuildingKind::Lodge && row.cycle.cooldown
        <= dt
}

/// A lodge after `dt`.
pub open spec fn nested(row: BuildingRow, dt: u32) -> BuildingRow {
    if row.construction is Some || row.building.kind != BuildingKind::Lodge {
        row
    } else if nest_due(row, dt) {
        BuildingRow { cycle: WorkCycle { cooldown: NEST_PAUSE, ..row.cycle }, ..row }
    } else {
        BuildingRow {
            cycle: WorkCycle { cooldown: (row.cycle.cooldown - dt) as u64, ..row.cycle },
            ..row
        }
    }
}

/// Posting jobs does not put a nest off: where lodges are seen to first, and the
/// pause of a nest is an even number of moments, posting only counts the pause of
/// a lodge down, so that it is always the lodge that finds its nest due.
pub proof fn posting_does_not_put_nests_off(
    map: MapView,
    trees: Seq<TreeRow>,
    alive: Seq<u64>,
    row: BuildingRow,
    dt: u32,
    id: u64,
    k: int,
    m: int,
)
    requires
        row.construction is None,
        row.building.kind == BuildingKind::Lodge,
        row.cycle.job is None,
        dt > 0,
        NEST_PAUSE == 2 * m * dt,
        row.cycle.cooldown == 0 || (0 <= k && row.cycle.cooldown == (2 * k + 1) * dt),
    ensures
        ({
            let seen = nested(row, dt);
            let (after, post) = worked(map, trees, alive, seen, dt, id);
            &&& post is None
            &&& after.cycle == (WorkCycle {
                cooldown: (seen.cycle.cooldown - dt) as u64,
                job: None,
            })
            &&& after.cycle.cooldown == if nest_due(row, dt) {
                (2 * (m - 1) + 1) * dt
            } else {
                (2 * (k - 1) + 1) * dt
            }
            &&& nest_due(row, dt) <==> row.cycle.cooldown == 0 || k == 0
        }),
{
    let d = dt as int;
    assert(m >= 1) by (nonlinear_arith)
        requires
            2 * m * d == 25_000_000,
            d > 0,
    ;
    assert(2 * m * d >= 2 * d && (2 * (m - 1) + 1) * d == 2 * m * d - d) by (nonlinear_arith)
        requires
            m >= 1,
            d > 0,
    ;
    assert((2 * (k - 1) + 1) * d == (2 * k + 1) * d - 2 * d) by (nonlinear_arith);
    if k == 0 {
        assert((2 * k + 1) * d == d) by (nonlinear_arith)
            requires
                k == 0,
        ;
    } else if k > 0 {
        assert((2 * k + 1) * d >= 3 * d) by (nonlinear_arith)
            requires
                k >= 1,
                d > 0,
        ;
    }
}

/// The stores, and the places where beavers are born, once the first `n`
/// buildings have been seen to. Every birth is paid for at once.
pub open spec fn born_upto(
    map: MapView,
    population: Population,
    stock: Stockpile,
    rows: Seq<BuildingRow>,
    dt: u32,
    n: nat,
) -> (Stockpile, Seq<Pos>)
    decreases n,
{
    if n == 0 {
        (stock, Seq::empty())
    } else {
        let (left, born) = born_upto(map, population, stock, rows, dt, (n - 1) as nat);
        let row = rows[n - 1];
        if nest_due(row, dt) && can_raise(population, left) {
            (
                Stockpile {
                    food: (left.food - BIRTH_FOOD) as i64,
                    water: (left.water - BIRTH_WATER) as i64,
                    ..left
                },
                born.push(map.center(row.building.tile)),
            )
        } else {
            (left, born)
        }
    }
}

/// Lodges raise beavers while there is housing, food and water. The answer is
/// where they are born.
pub fn lodge_spawning(
    map: &TileMap,
    population: &Population,
    stockpile: &mut Stockpile,
    rows: &mut Vec<BuildingRow>,
    dt: u32,
) -> (born: Vec<Pos>)
    requires
        map.wf(),
        crate::sim::buildings::buildings_stand(old(rows)@, map@),
    ensures
        final(rows)@ == old(rows)@.map_values(|r: BuildingRow| nested(r, dt)),
        (*final(stockpile), born@) == born_upto(
            map@,
            *population,
            *old(stockpile),
            old(rows)@,
            dt,
            old(rows)@.len(),
        ),
        crate::sim::buildings::buildings_stand(final(rows)@, map@),
        forall|i: int| 0 <= i < born@.len() ==> (#[trigger] born@[i]).walkable(),
{
    let ghost before = rows@;
    let ghost stock = *stockpile;
    let mut born: Vec<Pos> = Vec::new();
    let mut i: usize = 0;
    while i < rows.len()
        invariant
            map.wf(),
            crate::sim::buildings::buildings_stand(before, map@),
            i <= before.len(),
            rows@.len() == before.len(),
            forall|j: int| 0 <= j < i ==> #[trigger] rows@[j] == nested(before[j], dt),
            forall|j: int| i <= j < before.len() ==> #[trigger] rows@[j] == before[j],
            (*stockpile, born@) == born_upto(map@, *population, stock, before, dt, i as nat),
            forall|j: int| 0 <= j < born@.len() ==> (#[trigger] born@[j]).walkable(),
        decreases before.len() - i,
    {
        let mut row: BuildingRow = rows[i];
        assert(map@.holds(before[i as int].building.tile));
        if row.construction.is_none() && row.building.kind == BuildingKind::Lodge {
            if row.cycle.cooldown > dt as u64 {
                row.cycle.cooldown = row.cycle.cooldown - dt as u64;
            } else {
                row.cycle.cooldown = NEST_PAUSE;
                if population.count < population.cap && stockpile.food >= BIRTH_FOOD
                    && stockpile.water >= BIRTH_WATER {
                    stockpile.food = take_from(stockpile.food, BIRTH_FOOD);
                    stockpile.water = take_from(stockpile.water, BIRTH_WATER);
                    born.push(map.tile_center(row.building.tile.x, row.building.tile.y));
                }
            }
            rows.set(i, row);
        }
        i += 1;
    }
    proof {
        assert(rows@ =~= before.map_values(|r: BuildingRow| nested(r, dt)));
        assert forall|j: int| 0 <= j < rows@.len() implies map@.holds(
            (#[trigger] rows@[j]).building.tile,
        ) by {
            assert(map@.holds(before[j].building.tile));
        }
    }
    born
}

/// Every birth is paid for: what is missing in the stores afterwards is the
/// cost of one birth times the births, and no store was overdrawn.
pub proof fn births_are_paid_for(
    map: MapView,
    population: Population,
    stock: Stockpile,
    rows: Seq<BuildingRow>,
    dt: u32,
    n: nat,
)
    requires
        n <= rows.len(),
    ensures
        ({
            let (left, born) = born_upto(map, population, stock, rows, dt, n);
            &&& left.food == stock.food - BIRTH_FOOD * born.len()
            &&& left.water == stock.water - BIRTH_WATER * born.len()
            &&& left.logs == stock.logs
            &&& born.len() > 0 ==> population.count < population.cap && left.food >= 0
                && left.water >= 0
        }),
    decreases n,
{
    if n > 0 {
        births_are_paid_for(map, population, stock, rows, dt, (n - 1) as nat);
    }
}

/// How many of these are finished lodges?
pub open spec fn lodges(rows: Seq<BuildingRow>) -> nat
    decreases rows.len(),
{
    if rows.len() == 0 {
        0
    } else {
        lodges(rows.drop_last()) + if rows.last().construction is None
            && rows.last().building.kind == BuildingKind::Lodge {
            1nat
        } else {
            0nat
        }
    }
}

/// Count beavers and homes: three have one without a lodge, five in each
/// lodge. The answer is whether anything is another than before.
pub fn update_population(
    population: &mut Population,
    beavers: u32,
    rows: &Vec<BuildingRow>,
) -> (changed: bool)
    requires
        rows@.len() <= 0x1000_0000,
    ensures
        final(population).count == beavers,
        final(population).cap == 3 + 5 * lodges(rows@),
        changed == (*final(population) != *old(population)),
{
    let mut count: u32 = 0;
    let mut i: usize = 0;
    while i < rows.len()
        invariant
            i <= rows@.len(),
            rows@.len() <= 0x1000_0000,
            count == lodges(rows@.take(i as int)),
            count <= i,
        decreases rows@.len() - i,
    {
        proof {
            assert(rows@.take(i + 1).drop_last() =~= rows@.take(i as int));
            assert(rows@.take(i + 1).last() == rows@[i as int]);
        }
        if rows[i].construction.is_none() && rows[i].building.kind == BuildingKind::Lodge {
            count += 1;
        }
        i += 1;
    }
    assert(rows@.take(i as int) =~= rows@);
    let cap: u32 = 3 + 5 * count;
    let changed = population.count != beavers || population.cap != cap;
    if changed {
        population.count = beavers;
        population.cap = cap;
    }
    changed
}

} // verus!
