//! Water: a cellular automaton over the tile grid. Each step water runs from
//! tiles whose surface stands high to neighbours whose surface stands lower. A
//! dam raises the height that water has to pass. In a drought the source stops
//! and more water evaporates.
use vstd::prelude::*;

use crate::sim::map::{MapView, TileMap, MICRO, WET};

verus! {

/// Inflow at a source, a second.
pub const SOURCE_RATE: u64 = 3_000_000;

/// A source fills up to this depth.
pub const MAX_SOURCE_DEPTH: u64 = 1_600_000;

/// Loss at a drain, a second.
pub const DRAIN_RATE: u64 = 1_600_000;

/// Evaporation in the wet season, a second.
pub const EVAPORATION_WET: u32 = 2_000;

/// Evaporation in a drought, a second: over a whole drought it stays well
/// below the depth of a pool that a dam can hold.
pub const EVAPORATION_DROUGHT: u32 = 20_000;

/// A dam holds water back up to this height above the ground.
pub const DAM_HEIGHT: u64 = 1_200_000;

/// The step of the simulation, in microseconds: sixteen steps a second.
pub const STEP: u32 = 62_500;

/// Depths that the arithmetic of one step can bear.
pub const MAX_DEPTH: u64 = 0x1000_0000_0000_0000;

/// The grid that water flows over.
pub ghost struct Basin {
    pub ground: Seq<i32>,
    pub dam: Seq<bool>,
    pub water: Seq<u64>,
    pub width: u32,
}

pub open spec fn higher(a: int, b: int) -> int {
    if a >= b {
        a
    } else {
        b
    }
}

pub open spec fn lower(a: int, b: int) -> int {
    if a <= b {
        a
    } else {
        b
    }
}

impl Basin {
    /// The height of the water's surface.
    pub open spec fn surface(self, i: int) -> int {
        self.ground[i] * MICRO + self.water[i]
    }

    /// The height that water between two tiles has to pass.
    pub open spec fn wall(self, a: int, b: int) -> int {
        higher(self.ground[a] as int, self.ground[b] as int) * MICRO + if self.dam[a]
            || self.dam[b] {
            DAM_HEIGHT as int
        } else {
            0
        }
    }

    /// How much runs from tile `a` to its neighbour `b` in `dt`: by how far the
    /// surface of `a` stands above both the wall and the other surface, but no
    /// more than a quarter of the water there is.
    pub open spec fn spill(self, a: int, b: int, dt: u32) -> int {
        let top = higher(self.surface(b), self.wall(a, b));
        if self.surface(a) <= top {
            0
        } else {
            lower((self.surface(a) - top) * 2 * dt / MICRO as int, self.water[a] as int / 4)
        }
    }

    /// What tile `i` gains from its neighbour `j`.
    pub open spec fn gain(self, i: int, j: int, dt: u32) -> int {
        self.spill(j, i, dt) - self.spill(i, j, dt)
    }

    pub open spec fn from_east(self, i: int, dt: u32) -> int {
        if i % (self.width as int) + 1 < self.width {
            self.gain(i, i + 1, dt)
        } else {
            0
        }
    }

    pub open spec fn from_west(self, i: int, dt: u32) -> int {
        if i % (self.width as int) > 0 {
            self.gain(i, i - 1, dt)
        } else {
            0
        }
    }

    pub open spec fn from_south(self, i: int, dt: u32) -> int {
        if i + self.width < self.water.len() {
            self.gain(i, i + self.width, dt)
        } else {
            0
        }
    }

    pub open spec fn from_north(self, i: int, dt: u32) -> int {
        if i >= self.width {
            self.gain(i, i - self.width, dt)
        } else {
            0
        }
    }

    /// What tile `i` gains from all its neighbours.
    pub open spec fn net(self, i: int, dt: u32) -> int {
        self.from_east(i, dt) + self.from_west(i, dt) + self.from_south(i, dt) + self.from_north(
            i,
            dt,
        )
    }

    /// The depths after water has run, evaporated and drained.
    pub open spec fn settled(
        self,
        drain: Seq<bool>,
        dt: u32,
        evaporation: u32,
    ) -> Seq<u64> {
        Seq::new(
            self.water.len(),
            |i: int|
                {
                    let left = higher(
                        0,
                        self.water[i] + self.net(i, dt) - evaporation * dt / MICRO as int,
                    );
                    if drain[i] {
                        higher(0, left - DRAIN_RATE * dt / MICRO as int) as u64
                    } else {
                        left as u64
                    }
                },
        )
    }
}

/// The depths once the sources have run, if they do.
pub open spec fn fed(water: Seq<u64>, source: Option<Seq<bool>>, dt: u32) -> Seq<u64> {
    match source {
        Some(s) => Seq::new(
            water.len(),
            |i: int|
                if s[i] {
                    lower(
                        water[i] + SOURCE_RATE * dt / MICRO as int,
                        MAX_SOURCE_DEPTH as int,
                    ) as u64
                } else {
                    water[i]
                },
        ),
        None => water,
    }
}

/// The depths after one step.
pub open spec fn stepped(
    ground: Seq<i32>,
    dam: Seq<bool>,
    drain: Seq<bool>,
    source: Option<Seq<bool>>,
    water: Seq<u64>,
    width: u32,
    dt: u32,
    evaporation: u32,
) -> Seq<u64> {
    Basin { ground, dam, water: fed(water, source, dt), width }.settled(drain, dt, evaporation)
}

fn surface_of(ground: &Vec<i32>, water: &Vec<u64>, i: usize) -> (r: i128)
    requires
        i < ground@.len(),
        i < water@.len(),
    ensures
        r == ground@[i as int] * MICRO + water@[i as int],
{
    ground[i] as i128 * 1_000_000 + water[i] as i128
}

fn spill_of(
    ground: &Vec<i32>,
    dam: &Vec<bool>,
    water: &Vec<u64>,
    a: usize,
    b: usize,
    dt: u32,
) -> (r: i64)
    requires
        a < water@.len(),
        b < water@.len(),
        ground@.len() == water@.len(),
        dam@.len() == water@.len(),
        water@[a as int] <= MAX_DEPTH,
    ensures
        forall|width: u32|
            r == (#[trigger] (Basin { ground: ground@, dam: dam@, water: water@, width }).spill(
                a as int,
                b as int,
                dt,
            )),
        0 <= r <= MAX_DEPTH / 4,
{
    let sa: i128 = surface_of(ground, water, a);
    let sb: i128 = surface_of(ground, water, b);
    let high: i32 = if ground[a] >= ground[b] {
        ground[a]
    } else {
        ground[b]
    };
    let wall: i128 = high as i128 * 1_000_000 + if dam[a] || dam[b] {
        1_200_000
    } else {
        0
    };
    let top: i128 = if sb >= wall {
        sb
    } else {
        wall
    };
    if sa <= top {
        return 0;
    }
    let head: i128 = sa - top;
    proof {
        assert(0 <= head * 2 * dt <= 0x10_0000_0000_0000_0000 * 2 * 0xffff_ffff)
            by (nonlinear_arith)
            requires
                0 <= head <= 0x10_0000_0000_0000_0000,
                0 <= dt <= 0xffff_ffff,
        ;
    }
    let run: i128 = head * 2 * dt as i128 / 1_000_000;
    let most: i128 = water[a] as i128 / 4;
    if run <= most {
        run as i64
    } else {
        most as i64
    }
}

/// The depth of one tile after the flow.
fn settle_tile(
    ground: &Vec<i32>,
    dam: &Vec<bool>,
    drain: &Vec<bool>,
    water: &Vec<u64>,
    width: u32,
    x: u32,
    i: usize,
    dt: u32,
    evaporation: u32,
) -> (r: u64)
    requires
        i < water@.len(),
        ground@.len() == water@.len(),
        dam@.len() == water@.len(),
        drain@.len() == water@.len(),
        x == i as int % (width as int),
        x <= i,
        width > 0,
        i - x + width <= water@.len(),
        forall|k: int| 0 <= k < water@.len() ==> #[trigger] water@[k] <= MAX_DEPTH,
    ensures
        r == (Basin { ground: ground@, dam: dam@, water: water@, width }).settled(
            drain@,
            dt,
            evaporation,
        )[i as int],
{
    let ghost basin = Basin { ground: ground@, dam: dam@, water: water@, width };
    let n: usize = water.len();
    let mut net: i64 = 0;
    if x + 1 < width {
        assert(i + 1 < n);
        net = net + spill_of(ground, dam, water, i + 1, i, dt) - spill_of(
            ground,
            dam,
            water,
            i,
            i + 1,
            dt,
        );
    }
    assert(net == basin.from_east(i as int, dt));
    if x > 0 {
        net = net + spill_of(ground, dam, water, i - 1, i, dt) - spill_of(
            ground,
            dam,
            water,
            i,
            i - 1,
            dt,
        );
    }
    assert(net == basin.from_east(i as int, dt) + basin.from_west(i as int, dt));
    if (width as usize) < n - i {
        net = net + spill_of(ground, dam, water, i + width as usize, i, dt) - spill_of(
            ground,
            dam,
            water,
            i,
            i + width as usize,
            dt,
        );
    }
    assert(net == basin.from_east(i as int, dt) + basin.from_west(i as int, dt)
        + basin.from_south(i as int, dt));
    if i >= width as usize {
        net = net + spill_of(ground, dam, water, i - width as usize, i, dt) - spill_of(
            ground,
            dam,
            water,
            i,
            i - width as usize,
            dt,
        );
    }
    assert(net == basin.net(i as int, dt));
    proof {
        assert(0 <= evaporation * dt <= 0xffff_ffff * 0xffff_ffff) by (nonlinear_arith)
            requires
                0 <= evaporation <= 0xffff_ffff,
                0 <= dt <= 0xffff_ffff,
        ;
    }
    let lost: i64 = (evaporation as u64 * dt as u64 / 1_000_000) as i64;
    let mut left: i64 = water[i] as i64 + net - lost;
    if left < 0 {
        left = 0;
    }
    if drain[i] {
        left = left - (DRAIN_RATE * dt as u64 / 1_000_000) as i64;
        if left < 0 {
            left = 0;
        }
    }
    left as u64
}

/// One step over a grid of water.
pub fn step_water(
    ground: &Vec<i32>,
    dam: &Vec<bool>,
    drain: &Vec<bool>,
    source: Option<&Vec<bool>>,
    water: &mut Vec<u64>,
    width: u32,
    height: u32,
    dt: u32,
    evaporation: u32,
)
    requires
        old(water)@.len() == width * height,
        ground@.len() == width * height,
        dam@.len() == width * height,
        drain@.len() == width * height,
        source matches Some(s) ==> s@.len() == width * height,
        forall|k: int| 0 <= k < old(water)@.len() ==> #[trigger] old(water)@[k] <= MAX_DEPTH,
    ensures
        final(water)@ == stepped(
            ground@,
            dam@,
            drain@,
            match source {
                Some(s) => Some(s@),
                None => None,
            },
            old(water)@,
            width,
            dt,
            evaporation,
        ),
{
    let ghost before = water@;
    let n: usize = water.len();
    if let Some(s) = source {
        let mut i: usize = 0;
        while i < n
            invariant
                i <= n,
                n == water@.len(),
                n == before.len(),
                s@.len() == n,
                forall|k: int| 0 <= k < n ==> #[trigger] before[k] <= MAX_DEPTH,
                forall|k: int| 0 <= k < i ==> #[trigger] water@[k] == fed(before, Some(s@), dt)[k],
                forall|k: int| i <= k < n ==> #[trigger] water@[k] == before[k],
            decreases n - i,
        {
            if s[i] {
                assert(water@[i as int] <= MAX_DEPTH);
                let full: u64 = water[i] + SOURCE_RATE * dt as u64 / 1_000_000;
                water.set(
                    i,
                    if full <= MAX_SOURCE_DEPTH {
                        full
                    } else {
                        MAX_SOURCE_DEPTH
                    },
                );
            }
            i += 1;
        }
        assert(water@ =~= fed(before, Some(s@), dt));
    }
    let ghost given = water@;
    let ghost basin = Basin { ground: ground@, dam: dam@, water: given, width };
    assert forall|k: int| 0 <= k < given.len() implies #[trigger] given[k] <= MAX_DEPTH by {
        assert(before[k] <= MAX_DEPTH);
    }
    let mut next: Vec<u64> = Vec::new();
    let mut x: u32 = 0;
    let mut y: u32 = 0;
    let mut i: usize = 0;
    while i < n
        invariant
            i <= n,
            n == width * height,
            water@ == given,
            given.len() == n,
            ground@.len() == n,
            dam@.len() == n,
            drain@.len() == n,
            basin == (Basin { ground: ground@, dam: dam@, water: given, width }),
            forall|k: int| 0 <= k < given.len() ==> #[trigger] given[k] <= MAX_DEPTH,
            i == y * width + x,
            i < n ==> x < width && y < height,
            next@ =~= basin.settled(drain@, dt, evaporation).take(i as int),
        decreases n - i,
    {
        proof {
            crate::sim::map::tiles_have_places(width, height, x as int, y as int);
            assert(y * width + width <= width * height) by (nonlinear_arith)
                requires
                    y + 1 <= height,
            ;
        }
        next.push(settle_tile(ground, dam, drain, water, width, x, i, dt, evaporation));
        i += 1;
        x += 1;
        if x == width {
            x = 0;
            y += 1;
            assert(i == y * width) by (nonlinear_arith)
                requires
                    i == (y - 1) * width + width,
            ;
        }
        proof {
            if i < n {
                assert(y < height) by (nonlinear_arith)
                    requires
                        i == y * width + x,
                        i < width * height,
                        0 <= x,
                ;
            }
        }
    }
    proof {
        assert(next@ =~= basin.settled(drain@, dt, evaporation));
    }
    *water = next;
}

/// The sum of `f` over the first `n` places.
pub open spec fn sum(f: spec_fn(int) -> int, n: nat) -> int
    decreases n,
{
    if n == 0 {
        0
    } else {
        sum(f, (n - 1) as nat) + f(n - 1)
    }
}

/// All water there is.
pub open spec fn total(water: Seq<u64>) -> int {
    sum(|i: int| water[i] as int, water.len())
}

proof fn sum_monotone(f: spec_fn(int) -> int, g: spec_fn(int) -> int, n: nat)
    requires
        forall|i: int| 0 <= i < n ==> #[trigger] f(i) <= g(i),
    ensures
        sum(f, n) <= sum(g, n),
    decreases n,
{
    if n > 0 {
        sum_monotone(f, g, (n - 1) as nat);
        assert(f(n - 1) <= g(n - 1));
    }
}

proof fn sum_of_sums(
    f: spec_fn(int) -> int,
    g: spec_fn(int) -> int,
    h: spec_fn(int) -> int,
    n: nat,
)
    requires
        forall|i: int| 0 <= i < n ==> #[trigger] f(i) == g(i) + h(i),
    ensures
        sum(f, n) == sum(g, n) + sum(h, n),
    decreases n,
{
    if n > 0 {
        sum_of_sums(f, g, h, (n - 1) as nat);
        assert(f(n - 1) == g(n - 1) + h(n - 1));
    }
}

proof fn sum_is_at_least_each(f: spec_fn(int) -> int, n: nat, i: int)
    requires
        0 <= i < n,
        forall|k: int| 0 <= k < n ==> 0 <= #[trigger] f(k),
    ensures
        f(i) <= sum(f, n),
        0 <= sum(f, n),
    decreases n,
{
    reveal_with_fuel(sum, 2);
    assert(0 <= f(n - 1));
    if i < n - 1 {
        sum_is_at_least_each(f, (n - 1) as nat, i);
    } else if n > 1 {
        assert(0 <= f(n - 2));
        sum_is_at_least_each(f, (n - 1) as nat, n - 2);
    }
}

/// No tile holds more than there is.
proof fn each_within_total(water: Seq<u64>, i: int)
    requires
        0 <= i < water.len(),
    ensures
        water[i] <= total(water),
{
    let f = |i: int| water[i] as int;
    assert(forall|k: int| 0 <= k < water.len() ==> 0 <= #[trigger] f(k));
    sum_is_at_least_each(f, water.len(), i);
    assert(f(i) == water[i]);
}

proof fn total_is_not_negative(water: Seq<u64>)
    ensures
        0 <= total(water),
{
    let f = |i: int| water[i] as int;
    if water.len() > 0 {
        assert(forall|k: int| 0 <= k < water.len() ==> 0 <= #[trigger] f(k));
        sum_is_at_least_each(f, water.len(), 0);
    }
}

/// Stepping back one place steps back one column, or to the end of the row
/// before.
proof fn column_before(c: int, w: int)
    requires
        c >= 1,
        w >= 1,
    ensures
        c % w > 0 ==> (c - 1) % w == c % w - 1,
        c % w == 0 ==> (c - 1) % w == w - 1,
{
    vstd::arithmetic::div_mod::lemma_fundamental_div_mod(c, w);
    let q = c / w;
    let r = c % w;
    assert(q * w == w * q) by (nonlinear_arith);
    if r > 0 {
        vstd::arithmetic::div_mod::lemma_fundamental_div_mod_converse(c - 1, w, q, r - 1);
    } else {
        assert((q - 1) * w == q * w - w) by (nonlinear_arith);
        vstd::arithmetic::div_mod::lemma_fundamental_div_mod_converse(c - 1, w, q - 1, w - 1);
    }
}

impl Basin {
    /// Every list has an entry for each of the `height` rows' tiles, and depths
    /// are within what the arithmetic of a step can bear.
    pub open spec fn wf(self, height: u32) -> bool {
        &&& self.water.len() == self.width * height
        &&& self.ground.len() == self.water.len()
        &&& self.dam.len() == self.water.len()
        &&& forall|k: int| 0 <= k < self.water.len() ==> #[trigger] self.water[k] <= MAX_DEPTH
    }

    pub(crate) proof fn spill_is_bounded(self, a: int, b: int, dt: u32)
        requires
            0 <= a < self.water.len(),
        ensures
            0 <= self.spill(a, b, dt) <= self.water[a] / 4,
    {
        let top = higher(self.surface(b), self.wall(a, b));
        if self.surface(a) > top {
            let head = self.surface(a) - top;
            assert(0 <= head * 2 * dt) by (nonlinear_arith)
                requires
                    head >= 0,
                    0 <= dt,
            ;
        }
    }

    /// No tile loses more than it has, and none gains beyond measure.
    pub(crate) proof fn net_is_bounded(self, height: u32, i: int, dt: u32)
        requires
            self.wf(height),
            0 <= i < self.water.len(),
        ensures
            -(self.water[i] as int) <= self.net(i, dt) <= MAX_DEPTH,
    {
        let w = self.width as int;
        crate::sim::map::places_have_tiles(self.width, height, i);
        let x = i % w;
        let y = i / w;
        if x + 1 < w {
            crate::sim::map::tiles_have_places(self.width, height, x + 1, y);
            self.spill_is_bounded(i, i + 1, dt);
            self.spill_is_bounded(i + 1, i, dt);
            assert(self.water[i + 1] <= MAX_DEPTH);
        }
        if x > 0 {
            crate::sim::map::tiles_have_places(self.width, height, x - 1, y);
            self.spill_is_bounded(i, i - 1, dt);
            self.spill_is_bounded(i - 1, i, dt);
            assert(self.water[i - 1] <= MAX_DEPTH);
        }
        if i + w < self.water.len() {
            self.spill_is_bounded(i, i + w, dt);
            self.spill_is_bounded(i + w, i, dt);
            assert(self.water[i + w] <= MAX_DEPTH);
        }
        if i >= w {
            self.spill_is_bounded(i, i - w, dt);
            self.spill_is_bounded(i - w, i, dt);
            assert(self.water[i - w] <= MAX_DEPTH);
        }
    }

    /// Along the rows, gains and losses cancel up to the one across the last
    /// border.
    proof fn rows_cancel(self, dt: u32, c: nat)
        requires
            self.width >= 1,
        ensures
            sum(|i: int| self.from_east(i, dt) + self.from_west(i, dt), c) == if c == 0 {
                0
            } else {
                self.from_east(c - 1, dt)
            },
        decreases c,
    {
        if c > 0 {
            self.rows_cancel(dt, (c - 1) as nat);
            if c > 1 {
                column_before(c - 1, self.width as int);
            } else {
                assert(0int % (self.width as int) == 0) by (nonlinear_arith)
                    requires
                        self.width >= 1,
                ;
            }
        }
    }

    /// Down the columns, gains and losses cancel up to those across the border
    /// of the last row.
    proof fn columns_cancel(self, dt: u32, c: nat)
        requires
            self.width >= 1,
            c <= self.water.len(),
        ensures
            sum(|i: int| self.from_south(i, dt) + self.from_north(i, dt), c) == sum(
                |i: int| self.from_south(i, dt),
                c,
            ) - sum(
                |i: int| self.from_south(i, dt),
                if c >= self.width {
                    (c - self.width) as nat
                } else {
                    0
                },
            ),
        decreases c,
    {
        if c > 0 {
            self.columns_cancel(dt, (c - 1) as nat);
        }
    }

    proof fn last_row_has_no_south(self, dt: u32, c: nat)
        requires
            self.width >= 1,
            self.water.len() >= self.width,
            self.water.len() - self.width <= c <= self.water.len(),
        ensures
            sum(|i: int| self.from_south(i, dt), c) == sum(
                |i: int| self.from_south(i, dt),
                (self.water.len() - self.width) as nat,
            ),
        decreases c,
    {
        if c > self.water.len() - self.width {
            self.last_row_has_no_south(dt, (c - 1) as nat);
        }
    }

    /// What some tiles gain others lose.
    proof fn gains_cancel(self, height: u32, dt: u32)
        requires
            self.wf(height),
        ensures
            sum(|i: int| self.net(i, dt), self.water.len()) == 0,
    {
        let n = self.water.len();
        if n > 0 {
            let w = self.width as int;
            crate::sim::map::places_have_tiles(self.width, height, n - 1);
            assert(n >= w) by (nonlinear_arith)
                requires
                    n == w * height,
                    height >= 1,
                    w >= 1,
            ;
            self.rows_cancel(dt, n);
            self.columns_cancel(dt, n);
            self.last_row_has_no_south(dt, n);
            assert((n - 1) % w == w - 1) by {
                assert((height - 1) * w == n - w) by (nonlinear_arith)
                    requires
                        n == w * height,
                ;
                vstd::arithmetic::div_mod::lemma_fundamental_div_mod_converse(
                    n - 1,
                    w,
                    height - 1,
                    w - 1,
                );
            }
            sum_of_sums(
                |i: int| self.net(i, dt),
                |i: int| self.from_east(i, dt) + self.from_west(i, dt),
                |i: int| self.from_south(i, dt) + self.from_north(i, dt),
                n,
            );
        }
    }
}

/// Water is never made by flowing: with sinks there is no more afterwards than
/// before.
pub proof fn flowing_makes_no_water(
    basin: Basin,
    height: u32,
    drain: Seq<bool>,
    dt: u32,
    evaporation: u32,
)
    requires
        basin.wf(height),
        drain.len() == basin.water.len(),
    ensures
        total(basin.settled(drain, dt, evaporation)) <= total(basin.water),
{
    let n = basin.water.len();
    let after = basin.settled(drain, dt, evaporation);
    basin.gains_cancel(height, dt);
    let moved = |i: int| basin.water[i] + basin.net(i, dt);
    assert(0 <= evaporation * dt) by (nonlinear_arith)
        requires
            0 <= evaporation,
            0 <= dt,
    ;
    let got = |i: int| after[i] as int;
    assert forall|i: int| 0 <= i < n implies #[trigger] got(i) <= moved(i) by {
        basin.net_is_bounded(height, i, dt);
        assert(basin.water[i] <= MAX_DEPTH);
    }
    sum_monotone(got, moved, n);
    sum_of_sums(moved, |i: int| basin.water[i] as int, |i: int| basin.net(i, dt), n);
    assert(total(after) == sum(got, n));
}

/// Without sources, drains and evaporation a step neither makes nor loses
/// water.
pub proof fn flowing_conserves_water(basin: Basin, height: u32, drain: Seq<bool>, dt: u32)
    requires
        basin.wf(height),
        drain.len() == basin.water.len(),
        forall|i: int| 0 <= i < drain.len() ==> !#[trigger] drain[i],
    ensures
        total(basin.settled(drain, dt, 0)) == total(basin.water),
{
    let n = basin.water.len();
    let after = basin.settled(drain, dt, 0);
    basin.gains_cancel(height, dt);
    let got = |i: int| after[i] as int;
    assert forall|i: int| 0 <= i < n implies #[trigger] got(i) == (|i: int|
        basin.water[i] as int)(i) + (|i: int| basin.net(i, dt))(i) by {
        basin.net_is_bounded(height, i, dt);
        assert(basin.water[i] <= MAX_DEPTH);
        assert(!drain[i]);
        assert(0 * dt == 0);
    }
    sum_of_sums(got, |i: int| basin.water[i] as int, |i: int| basin.net(i, dt), n);
    assert(total(after) == sum(got, n));
}

/// With a step of at most an eighth of a second no surface rises above the
/// highest one.
pub proof fn no_surface_rises(
    basin: Basin,
    height: u32,
    drain: Seq<bool>,
    dt: u32,
    evaporation: u32,
    top: int,
    i: int,
)
    requires
        basin.wf(height),
        drain.len() == basin.water.len(),
        dt <= 125_000,
        forall|k: int| 0 <= k < basin.water.len() ==> #[trigger] basin.surface(k) <= top,
        0 <= i < basin.water.len(),
    ensures
        basin.ground[i] * MICRO + basin.settled(drain, dt, evaporation)[i] <= top,
{
    let w = basin.width as int;
    crate::sim::map::places_have_tiles(basin.width, height, i);
    let x = i % w;
    let y = i / w;
    let room = top - basin.surface(i);
    assert(basin.surface(i) <= top);
    basin.net_is_bounded(height, i, dt);
    assert(basin.water[i] <= MAX_DEPTH);
    if x + 1 < w {
        crate::sim::map::tiles_have_places(basin.width, height, x + 1, y);
        gain_within_room(basin, i, i + 1, dt, top);
    }
    if x > 0 {
        crate::sim::map::tiles_have_places(basin.width, height, x - 1, y);
        gain_within_room(basin, i, i - 1, dt, top);
    }
    if i + w < basin.water.len() {
        gain_within_room(basin, i, i + w, dt, top);
    }
    if i >= w {
        gain_within_room(basin, i, i - w, dt, top);
    }
    assert(4 * basin.from_east(i, dt) <= room);
    assert(4 * basin.from_west(i, dt) <= room);
    assert(4 * basin.from_south(i, dt) <= room);
    assert(4 * basin.from_north(i, dt) <= room);
    assert(0 <= evaporation * dt) by (nonlinear_arith)
        requires
            0 <= evaporation,
            0 <= dt,
    ;
}

proof fn gain_within_room(basin: Basin, i: int, j: int, dt: u32, top: int)
    requires
        0 <= i < basin.water.len(),
        0 <= j < basin.water.len(),
        dt <= 125_000,
        basin.surface(i) <= top,
        basin.surface(j) <= top,
    ensures
        4 * basin.gain(i, j, dt) <= top - basin.surface(i),
{
    basin.spill_is_bounded(i, j, dt);
    let t = higher(basin.surface(i), basin.wall(j, i));
    if basin.surface(j) > t {
        let head = basin.surface(j) - t;
        assert(head * 2 * dt <= head * 250_000) by (nonlinear_arith)
            requires
                head >= 0,
                dt <= 125_000,
        ;
        assert(head * 250_000 / 1_000_000 <= head / 4);
        assert(head * 2 * dt / 1_000_000 <= head * 250_000 / 1_000_000);
        assert(4 * (head / 4) <= head);
    }
}

/// The depths after `n` steps of drought.
pub open spec fn after_drought(
    ground: Seq<i32>,
    dam: Seq<bool>,
    drain: Seq<bool>,
    water: Seq<u64>,
    width: u32,
    n: nat,
) -> Seq<u64>
    decreases n,
{
    if n == 0 {
        water
    } else {
        stepped(
            ground,
            dam,
            drain,
            None,
            after_drought(ground, dam, drain, water, width, (n - 1) as nat),
            width,
            STEP,
            EVAPORATION_DROUGHT,
        )
    }
}

/// A drought leaves no more water than there was.
pub proof fn droughts_make_no_water(
    ground: Seq<i32>,
    dam: Seq<bool>,
    drain: Seq<bool>,
    water: Seq<u64>,
    width: u32,
    height: u32,
    n: nat,
)
    requires
        water.len() == width * height,
        ground.len() == water.len(),
        dam.len() == water.len(),
        drain.len() == water.len(),
        total(water) <= MAX_DEPTH,
    ensures
        after_drought(ground, dam, drain, water, width, n).len() == water.len(),
        0 <= total(after_drought(ground, dam, drain, water, width, n)) <= total(water),
    decreases n,
{
    total_is_not_negative(after_drought(ground, dam, drain, water, width, n));
    if n > 0 {
        droughts_make_no_water(ground, dam, drain, water, width, height, (n - 1) as nat);
        let before = after_drought(ground, dam, drain, water, width, (n - 1) as nat);
        let basin = Basin { ground, dam, water: before, width };
        assert forall|k: int| 0 <= k < before.len() implies #[trigger] before[k] <= MAX_DEPTH by {
            each_within_total(before, k);
        }
        flowing_makes_no_water(basin, height, drain, STEP, EVAPORATION_DROUGHT);
    }
}

fn total_of(water: &Vec<u64>) -> (r: u64)
    requires
        total(water@) <= MAX_DEPTH,
    ensures
        r == total(water@),
{
    let ghost f = |i: int| water@[i] as int;
    let mut r: u64 = 0;
    let mut i: usize = 0;
    while i < water.len()
        invariant
            i <= water@.len(),
            f == (|i: int| water@[i] as int),
            r == sum(f, i as nat),
            r <= MAX_DEPTH,
            sum(f, water@.len()) <= MAX_DEPTH,
        decreases water@.len() - i,
    {
        proof {
            assert(sum(f, (i + 1) as nat) == sum(f, i as nat) + f(i as int));
            sum_grows(f, (i + 1) as nat, water@.len());
        }
        r += water[i];
        i += 1;
    }
    r
}

proof fn sum_grows(f: spec_fn(int) -> int, a: nat, b: nat)
    requires
        a <= b,
        forall|k: int| 0 <= k < b ==> 0 <= #[trigger] f(k),
    ensures
        sum(f, a) <= sum(f, b),
    decreases b,
{
    if a < b {
        sum_grows(f, a, (b - 1) as nat);
        assert(0 <= f(b - 1));
    }
}

/// The share of the surface water that a drought of so many microseconds leaves,
/// in millionths: the automaton is run forward without inflow. Where there is
/// less than one level of water in all, nothing worth counting is left.
pub fn forecast_drought_retention(
    ground: &Vec<i32>,
    dam: &Vec<bool>,
    drain: &Vec<bool>,
    water: Vec<u64>,
    width: u32,
    height: u32,
    drought: u64,
) -> (r: u64)
    requires
        water@.len() == width * height,
        ground@.len() == water@.len(),
        dam@.len() == water@.len(),
        drain@.len() == water@.len(),
        total(water@) <= MAX_DEPTH,
    ensures
        r == if total(water@) < MICRO {
            0
        } else {
            total(
                after_drought(
                    ground@,
                    dam@,
                    drain@,
                    water@,
                    width,
                    (drought / STEP as u64) as nat,
                ),
            ) * MICRO / total(water@)
        },
        r <= MICRO,
        drought < STEP && total(water@) >= MICRO ==> r == MICRO,
        total(water@) >= MICRO ==> ({
            let left = total(
                after_drought(
                    ground@,
                    dam@,
                    drain@,
                    water@,
                    width,
                    (drought / STEP as u64) as nat,
                ),
            );
            r * total(water@) <= left * 1_000_000 < (r + 1) * total(water@)
        }),
{
    let before: u64 = total_of(&water);
    if before < MICRO {
        return 0;
    }
    let steps: u64 = drought / STEP as u64;
    let ghost start = water@;
    let mut water = water;
    let mut k: u64 = 0;
    while k < steps
        invariant
            k <= steps,
            start.len() == width * height,
            ground@.len() == start.len(),
            dam@.len() == start.len(),
            drain@.len() == start.len(),
            total(start) <= MAX_DEPTH,
            water@ == after_drought(ground@, dam@, drain@, start, width, k as nat),
        decreases steps - k,
    {
        proof {
            droughts_make_no_water(ground@, dam@, drain@, start, width, height, k as nat);
            assert forall|i: int| 0 <= i < water@.len() implies #[trigger] water@[i]
                <= MAX_DEPTH by {
                each_within_total(water@, i);
            }
        }
        step_water(ground, dam, drain, None, &mut water, width, height, STEP, EVAPORATION_DROUGHT);
        k += 1;
    }
    proof {
        droughts_make_no_water(ground@, dam@, drain@, start, width, height, steps as nat);
    }
    let after: u64 = total_of(&water);
    proof {
        let a = after as int;
        let b = before as int;
        assert(a * 1_000_000 / b <= 1_000_000) by (nonlinear_arith)
            requires
                0 <= a <= b,
                b > 0,
        ;
        assert(0 <= a * 1_000_000 / b) by (nonlinear_arith)
            requires
                0 <= a,
                b > 0,
        ;
        assert((a * 1_000_000 / b) * b <= a * 1_000_000 < (a * 1_000_000 / b + 1) * b)
            by (nonlinear_arith)
            requires
                0 <= a,
                b > 0,
        ;
        if steps == 0 {
            assert(water@ == start);
            assert(a * 1_000_000 / b == 1_000_000) by (nonlinear_arith)
                requires
                    a == b,
                    b > 0,
            ;
        }
    }
    (after as u128 * 1_000_000 / before as u128) as u64
}

impl MapView {
    /// The map once its water has run for `dt`, in a drought or not.
    pub open spec fn flowed(self, drought: bool, dt: u32) -> MapView {
        MapView {
            water: if drought {
                stepped(
                    self.ground,
                    self.dam,
                    self.drain,
                    None,
                    self.water,
                    self.width,
                    dt,
                    EVAPORATION_DROUGHT,
                )
            } else {
                stepped(
                    self.ground,
                    self.dam,
                    self.drain,
                    Some(self.source),
                    self.water,
                    self.width,
                    dt,
                    EVAPORATION_WET,
                )
            },
            ..self
        }
    }
}

/// Let the water of the map run for `dt`: the river flows in except in a
/// drought, when more evaporates. In a step of more than an eighth of a second a
/// surface may rise above all others, and then the map above its ceiling.
pub fn flow_water(map: &mut TileMap, drought: bool, dt: u32)
    requires
        old(map).wf(),
    ensures
        dt <= 125_000 ==> final(map).wf(),
        final(map)@ == old(map)@.flowed(drought, dt),
        final(map)@ == (MapView {
            water: stepped(
                old(map)@.ground,
                old(map)@.dam,
                old(map)@.drain,
                if drought {
                    None
                } else {
                    Some(old(map)@.source)
                },
                old(map)@.water,
                old(map)@.width,
                dt,
                if drought {
                    EVAPORATION_DROUGHT
                } else {
                    EVAPORATION_WET
                },
            ),
            ..old(map)@
        }),
{
    let ghost before = map@;
    let ghost source = if drought {
        None
    } else {
        Some(before.source)
    };
    let evaporation: u32 = if drought {
        EVAPORATION_DROUGHT
    } else {
        EVAPORATION_WET
    };
    let ghost after = stepped(
        before.ground,
        before.dam,
        before.drain,
        source,
        before.water,
        before.width,
        dt,
        evaporation,
    );
    proof {
        assert forall|k: int| 0 <= k < before.water.len() implies #[trigger] before.water[k]
            <= MAX_DEPTH by {
            assert(before.ground[k] >= -1000);
            assert(before.ground[k] * MICRO + before.water[k] <= crate::sim::map::CEILING);
        }
        let given = fed(before.water, source, dt);
        let basin = Basin {
            ground: before.ground,
            dam: before.dam,
            water: given,
            width: before.width,
        };
        assert forall|k: int| 0 <= k < given.len() implies #[trigger] given[k] <= MAX_DEPTH by {
            assert(before.water[k] <= MAX_DEPTH);
        }
        assert forall|k: int| 0 <= k < given.len() implies #[trigger] basin.surface(k)
            <= crate::sim::map::CEILING by {
            assert(-1000 <= before.ground[k] <= 1000);
            assert(before.ground[k] * MICRO + before.water[k] <= crate::sim::map::CEILING);
        }
        assert forall|i: int| dt <= 125_000 && 0 <= i < before.size() implies before.ground[i]
            * MICRO + (#[trigger] after[i]) <= crate::sim::map::CEILING by {
            no_surface_rises(
                basin,
                before.height,
                before.drain,
                dt,
                evaporation,
                crate::sim::map::CEILING as int,
                i,
            );
        }
    }
    let width: u32 = map.width;
    let height: u32 = map.height;
    let mut water: Vec<u64> = Vec::new();
    core::mem::swap(&mut water, &mut map.water);
    if drought {
        step_water(&map.ground, &map.dam, &map.drain, None, &mut water, width, height, dt, evaporation);
    } else {
        step_water(
            &map.ground,
            &map.dam,
            &map.drain,
            Some(&map.source),
            &mut water,
            width,
            height,
            dt,
            evaporation,
        );
    }
    core::mem::swap(&mut water, &mut map.water);
    proof {
        assert(map@ =~= (MapView { water: after, ..before }));
    }
}

/// How many steps apart two tiles are.
pub open spec fn steps_between(width: u32, i: int, j: int) -> int {
    let w = width as int;
    let dx = i % w - j % w;
    let dy = i / w - j / w;
    higher(dx, -dx) + higher(dy, -dy)
}

impl MapView {
    /// Is there surface water within `k` steps of tile `i`?
    pub open spec fn wet_within(self, i: int, k: int) -> bool {
        exists|j: int|
            0 <= j < self.size() && #[trigger] self.water[j] > WET && steps_between(
                self.width,
                i,
                j,
            ) <= k
    }

    /// Water is within reach of a tile if it is within one step less of it or
    /// of a neighbour.
    proof fn reach_goes_by_neighbors(self, i: int, k: int)
        requires
            self.wf(),
            0 <= i < self.size(),
            k >= 0,
        ensures
            ({
                let w = self.width as int;
                self.wet_within(i, k + 1) <==> {
                    ||| self.wet_within(i, k)
                    ||| i % w + 1 < w && self.wet_within(i + 1, k)
                    ||| i % w > 0 && self.wet_within(i - 1, k)
                    ||| i + w < self.size() && self.wet_within(i + w, k)
                    ||| i >= w && self.wet_within(i - w, k)
                }
            }),
    {
        let w = self.width as int;
        let h = self.height as int;
        crate::sim::map::places_have_tiles(self.width, self.height, i);
        let x = i % w;
        let y = i / w;
        let e = x + 1 < w;
        let s = y + 1 < h;
        if e {
            crate::sim::map::tiles_have_places(self.width, self.height, x + 1, y);
        }
        if x > 0 {
            crate::sim::map::tiles_have_places(self.width, self.height, x - 1, y);
        }
        assert((y + 1) * w == y * w + w) by (nonlinear_arith);
        assert((y - 1) * w == y * w - w) by (nonlinear_arith);
        if s {
            crate::sim::map::tiles_have_places(self.width, self.height, x, y + 1);
        } else {
            assert(y * w + w >= w * h) by (nonlinear_arith)
                requires
                    y + 1 >= h,
                    w >= 0,
            ;
        }
        if y > 0 {
            crate::sim::map::tiles_have_places(self.width, self.height, x, y - 1);
            assert(y * w >= w) by (nonlinear_arith)
                requires
                    y >= 1,
                    w >= 0,
            ;
        } else {
            assert(y * w == 0) by (nonlinear_arith)
                requires
                    y == 0,
            ;
        }
        if self.wet_within(i, k + 1) && !self.wet_within(i, k) {
            let j = choose|j: int|
                0 <= j < self.size() && #[trigger] self.water[j] > WET && steps_between(
                    self.width,
                    i,
                    j,
                ) <= k + 1;
            crate::sim::map::places_have_tiles(self.width, self.height, j);
            assert(self.water[j] > WET);
            if j % w > x {
                assert(steps_between(self.width, i + 1, j) <= k);
            } else if j % w < x {
                assert(steps_between(self.width, i - 1, j) <= k);
            } else if j / w > y {
                assert(steps_between(self.width, i + w, j) <= k);
            } else if j / w < y {
                assert(steps_between(self.width, i - w, j) <= k);
            } else {
                assert(steps_between(self.width, i, j) <= k);
            }
        }
        assert forall|n: int| 0 <= n < self.size() && #[trigger] self.wet_within(n, k)
            && steps_between(self.width, i, n) <= 1 implies self.wet_within(i, k + 1) by {
            let j = choose|j: int|
                0 <= j < self.size() && #[trigger] self.water[j] > WET && steps_between(
                    self.width,
                    n,
                    j,
                ) <= k;
            assert(self.water[j] > WET);
            assert(steps_between(self.width, i, j) <= k + 1);
        }
    }
}

/// One round of spreading: which tiles hold `true`, or have a neighbour that
/// does?
fn spread(cur: &Vec<bool>, map: &TileMap, k: Ghost<int>) -> (r: Vec<bool>)
    requires
        map.wf(),
        k@ >= 0,
        cur@ == Seq::new(map@.size() as nat, |i: int| map@.wet_within(i, k@)),
    ensures
        r@ == Seq::new(map@.size() as nat, |i: int| map@.wet_within(i, k@ + 1)),
{
    let n: usize = map.water.len();
    let width: usize = map.width as usize;
    proof {
        if n > 0 {
            crate::sim::map::places_have_tiles(map.width, map.height, 0);
        }
    }
    let mut r: Vec<bool> = Vec::new();
    let mut x: u32 = 0;
    let mut y: u32 = 0;
    let mut i: usize = 0;
    while i < n
        invariant
            map.wf(),
            n == map@.size(),
            width == map.width,
            cur@ == Seq::new(map@.size() as nat, |i: int| map@.wet_within(i, k@)),
            k@ >= 0,
            i <= n,
            i == y * map.width + x,
            i < n ==> x < map.width && y < map.height,
            r@ =~= Seq::new(i as nat, |i: int| map@.wet_within(i, k@ + 1)),
        decreases n - i,
    {
        proof {
            crate::sim::map::tiles_have_places(map.width, map.height, x as int, y as int);
            map@.reach_goes_by_neighbors(i as int, k@);
            if x + 1 < map.width {
                crate::sim::map::tiles_have_places(map.width, map.height, x + 1, y as int);
            }
        }
        let near = cur[i] || (x + 1 < map.width && cur[i + 1]) || (x > 0 && cur[i - 1]) || (width
            < n - i && cur[i + width]) || (i >= width && cur[i - width]);
        r.push(near);
        i += 1;
        x += 1;
        if x == map.width {
            x = 0;
            y += 1;
            assert(i == y * map.width) by (nonlinear_arith)
                requires
                    i == (y - 1) * map.width + map.width,
            ;
        }
        proof {
            if i < n {
                assert(y < map.height) by (nonlinear_arith)
                    requires
                        i == y * map.width + x,
                        i < map.width * map.height,
                        0 <= x,
                ;
            }
        }
    }
    r
}

/// Mark the tiles within irrigation range of surface water.
pub fn update_irrigation(map: &mut TileMap)
    requires
        old(map).wf(),
    ensures
        final(map).wf(),
        final(map)@ == (MapView {
            irrigated: Seq::new(
                old(map)@.size() as nat,
                |i: int| old(map)@.wet_within(i, crate::sim::map::IRRIGATION_RANGE as int),
            ),
            ..old(map)@
        }),
{
    let ghost before = map@;
    let mut cur: Vec<bool> = Vec::new();
    let mut i: usize = 0;
    while i < map.water.len()
        invariant
            map.wf(),
            map@ == before,
            i <= before.size(),
            before.water.len() == before.size(),
            cur@ =~= Seq::new(i as nat, |i: int| before.wet_within(i, 0)),
        decreases before.size() - i,
    {
        proof {
            wet_within_nothing(before, i as int);
        }
        cur.push(map.water[i] > WET);
        i += 1;
    }
    let mut k: u32 = 0;
    while k < crate::sim::map::IRRIGATION_RANGE
        invariant
            map.wf(),
            map@ == before,
            k <= crate::sim::map::IRRIGATION_RANGE,
            cur@ == Seq::new(before.size() as nat, |i: int| before.wet_within(i, k as int)),
        decreases crate::sim::map::IRRIGATION_RANGE - k,
    {
        cur = spread(&cur, map, Ghost(k as int));
        k += 1;
    }
    map.irrigated = cur;
    proof {
        assert(map@ =~= (MapView {
            irrigated: Seq::new(
                before.size() as nat,
                |i: int| before.wet_within(i, crate::sim::map::IRRIGATION_RANGE as int),
            ),
            ..before
        }));
    }
}

/// Water within no step of a tile is water on the tile.
proof fn wet_within_nothing(map: MapView, i: int)
    requires
        map.wf(),
        0 <= i < map.size(),
    ensures
        map.wet_within(i, 0) <==> map.water[i] > WET,
{
    if map.water[i] > WET {
        assert(steps_between(map.width, i, i) <= 0);
    }
    if map.wet_within(i, 0) {
        let j = choose|j: int|
            0 <= j < map.size() && #[trigger] map.water[j] > WET && steps_between(
                map.width,
                i,
                j,
            ) <= 0;
        crate::sim::map::places_have_tiles(map.width, map.height, i);
        crate::sim::map::places_have_tiles(map.width, map.height, j);
        assert(i == j);
    }
}

} // verus!
