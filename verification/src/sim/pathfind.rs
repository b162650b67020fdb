//! Routes over the tile grid: A* over the four neighbours of a tile, on a
//! snapshot of walking costs, so that a search can run on its own.
use vstd::prelude::*;

use crate::sim::map::TilePos;

verus! {

/// Cost of stepping onto a stone path, in hundredths: so much less than grass
/// that routes bend towards paths.
pub const PATH_COST: u32 = 45;

/// Cost of stepping onto grass, in hundredths.
pub const GRASS_COST: u32 = 100;

/// The cost of a tile that cannot be entered.
pub const BLOCKED: u32 = 0xffff_ffff;

/// What it costs to step onto each tile.
pub struct WalkGrid {
    pub width: u32,
    pub height: u32,
    pub cost: Vec<u32>,
}

/// A grid and the tile to be reached, which can always be entered: it is a
/// work site, though a building may stand on it.
pub ghost struct Field {
    pub width: u32,
    pub height: u32,
    pub cost: Seq<u32>,
    pub goal: int,
}

impl WalkGrid {
    pub open spec fn wf(&self) -> bool {
        &&& self.width * self.height <= u32::MAX
        &&& self.cost@.len() == self.width * self.height
    }

    pub open spec fn holds(&self, t: TilePos) -> bool {
        t.x < self.width && t.y < self.height
    }

    pub open spec fn at(&self, t: TilePos) -> int {
        crate::sim::map::tile_index(self.width, t.x as int, t.y as int)
    }

    pub open spec fn field(&self, goal: TilePos) -> Field {
        Field { width: self.width, height: self.height, cost: self.cost@, goal: self.at(goal) }
    }
}

impl Field {
    pub open spec fn size(self) -> int {
        self.width * self.height
    }

    pub open spec fn wf(self) -> bool {
        &&& self.size() <= u32::MAX
        &&& self.cost.len() == self.size()
        &&& 0 <= self.goal < self.size()
    }

    /// The cost of stepping onto a tile.
    pub open spec fn enter(self, j: int) -> int {
        if j == self.goal {
            GRASS_COST as int
        } else {
            self.cost[j] as int
        }
    }

    /// Can the tile be entered?
    pub open spec fn open_to(self, j: int) -> bool {
        j == self.goal || self.cost[j] != BLOCKED
    }

    /// Is `b` one of the four tiles beside `a`?
    pub open spec fn beside(self, a: int, b: int) -> bool {
        &&& 0 <= a < self.size()
        &&& 0 <= b < self.size()
        &&& {
            ||| b == a + 1 && a % (self.width as int) + 1 < self.width
            ||| b == a - 1 && a % (self.width as int) > 0
            ||| b == a + self.width
            ||| b == a - self.width
        }
    }

    /// A walk: each tile lies beside the one before and can be entered.
    pub open spec fn walk(self, p: Seq<int>) -> bool {
        &&& p.len() >= 1
        &&& 0 <= p[0] < self.size()
        &&& forall|k: int|
            1 <= k < p.len() ==> self.beside(p[k - 1], #[trigger] p[k]) && self.open_to(p[k])
    }

    /// The cost of a walk, the first tile free.
    pub open spec fn walk_cost(self, p: Seq<int>) -> int
        decreases p.len(),
    {
        if p.len() <= 1 {
            0
        } else {
            self.walk_cost(p.drop_last()) + self.enter(p.last())
        }
    }

    /// A walk from `start` to the goal.
    pub open spec fn route(self, start: int, p: Seq<int>) -> bool {
        self.walk(p) && p[0] == start && p.last() == self.goal
    }

    /// A lower bound for what is still to be walked, if no step is cheaper than
    /// one along a path.
    pub open spec fn estimate(self, i: int) -> int {
        crate::sim::water::steps_between(self.width, i, self.goal) * PATH_COST
    }

    /// No tile is cheaper than a path.
    pub open spec fn paths_are_cheapest(self) -> bool {
        forall|j: int| 0 <= j < self.size() ==> #[trigger] self.cost[j] >= PATH_COST
    }

    /// The tiles of a walk are on the grid.
    proof fn walk_stays_inside(self, p: Seq<int>, k: int)
        requires
            self.walk(p),
            0 <= k < p.len(),
        ensures
            0 <= p[k] < self.size(),
    {
        if k > 0 {
            assert(self.beside(p[k - 1], p[k]));
        }
    }

    /// A prefix of a walk is a walk, and costs no more.
    proof fn prefix_of_walk(self, p: Seq<int>, n: int)
        requires
            self.walk(p),
            1 <= n <= p.len(),
        ensures
            self.walk(p.take(n)),
            0 <= self.walk_cost(p.take(n)) <= self.walk_cost(p),
        decreases p.len() - n,
    {
        assert forall|k: int| 1 <= k < n implies self.beside(
            p.take(n)[k - 1],
            #[trigger] p.take(n)[k],
        ) && self.open_to(p.take(n)[k]) by {
            assert(self.beside(p[k - 1], p[k]));
        }
        self.cost_is_not_negative(p.take(n));
        if n < p.len() {
            self.prefix_of_walk(p, n + 1);
            assert(p.take(n + 1).drop_last() =~= p.take(n));
            assert(p.take(n + 1).last() == p[n]);
            self.walk_stays_inside(p, n);
        } else {
            assert(p.take(n) =~= p);
        }
    }

    proof fn cost_is_not_negative(self, p: Seq<int>)
        ensures
            0 <= self.walk_cost(p),
        decreases p.len(),
    {
        if p.len() > 1 {
            self.cost_is_not_negative(p.drop_last());
        }
    }

    /// One more tile at the end of a walk.
    proof fn extend_walk(self, p: Seq<int>, v: int)
        requires
            self.walk(p),
            self.beside(p.last(), v),
            self.open_to(v),
        ensures
            self.walk(p.push(v)),
            self.walk_cost(p.push(v)) == self.walk_cost(p) + self.enter(v),
    {
        let q = p.push(v);
        assert forall|k: int| 1 <= k < q.len() implies self.beside(q[k - 1], #[trigger] q[k])
            && self.open_to(q[k]) by {
            if k < p.len() {
                assert(self.beside(p[k - 1], p[k]));
            }
        }
        assert(q.drop_last() =~= p);
    }

    /// One more tile in front of a walk.
    proof fn prepend_walk(self, u: int, p: Seq<int>)
        requires
            self.walk(p),
            self.beside(u, p[0]),
            self.open_to(p[0]),
        ensures
            self.walk(seq![u] + p),
            self.walk_cost(seq![u] + p) == self.enter(p[0]) + self.walk_cost(p),
            (seq![u] + p).last() == p.last(),
        decreases p.len(),
    {
        let q = seq![u] + p;
        assert forall|k: int| 1 <= k < q.len() implies self.beside(q[k - 1], #[trigger] q[k])
            && self.open_to(q[k]) by {
            if k > 1 {
                assert(q[k] == p[k - 1] && q[k - 1] == p[k - 2]);
                assert(self.beside(p[k - 2], p[k - 1]));
            }
        }
        if p.len() == 1 {
            assert(q.drop_last() =~= seq![u]);
            reveal_with_fuel(Field::walk_cost, 2);
        } else {
            let front = p.take(p.len() - 1);
            assert(p.drop_last() =~= front);
            self.prefix_of_walk(p, p.len() - 1);
            self.prepend_walk(u, front);
            assert(q.drop_last() =~= seq![u] + front);
            assert(q.last() == p.last());
        }
    }

    /// A step changes the distance to the goal by one at most.
    proof fn step_changes_distance(self, a: int, b: int)
        requires
            self.wf(),
            self.beside(a, b),
        ensures
            self.estimate(a) <= self.estimate(b) + PATH_COST,
            0 <= self.estimate(a),
    {
        let w = self.width;
        let h = self.height;
        crate::sim::map::places_have_tiles(w, h, a);
        crate::sim::map::places_have_tiles(w, h, b);
        let x = a % (w as int);
        let y = a / (w as int);
        if b == a + 1 && x + 1 < w {
            crate::sim::map::tiles_have_places(w, h, x + 1, y);
        } else if b == a - 1 && x > 0 {
            crate::sim::map::tiles_have_places(w, h, x - 1, y);
        } else if b == a + w {
            assert((y + 1) * w == y * w + w) by (nonlinear_arith);
            vstd::arithmetic::div_mod::lemma_fundamental_div_mod_converse(b, w as int, y + 1, x);
        } else {
            assert((y - 1) * w == y * w - w) by (nonlinear_arith);
            vstd::arithmetic::div_mod::lemma_fundamental_div_mod_converse(b, w as int, y - 1, x);
        }
    }

    /// The estimate never exceeds what a walk to the goal still costs.
    proof fn estimate_is_a_lower_bound(self, p: Seq<int>, k: int)
        requires
            self.wf(),
            self.paths_are_cheapest(),
            self.walk(p),
            p.last() == self.goal,
            0 <= k < p.len(),
        ensures
            self.walk_cost(p.take(k + 1)) + self.estimate(p[k]) <= self.walk_cost(p),
        decreases p.len() - k,
    {
        if k == p.len() - 1 {
            assert(p.take(k + 1) =~= p);
        } else {
            self.estimate_is_a_lower_bound(p, k + 1);
            assert(self.beside(p[k], p[k + 1]));
            self.step_changes_distance(p[k], p[k + 1]);
            assert(p.take(k + 2).drop_last() =~= p.take(k + 1));
            assert(p.take(k + 2).last() == p[k + 1]);
            assert(self.enter(p[k + 1]) >= PATH_COST) by {
                assert(0 <= p[k + 1] < self.size());
                if p[k + 1] != self.goal {
                    assert(self.cost[p[k + 1]] >= PATH_COST);
                }
            }
        }
    }

    /// A walk that visits no tile twice costs less than the most expensive
    /// step for every tile of the grid.
    proof fn simple_walks_are_cheap(self, p: Seq<int>)
        requires
            self.wf(),
            self.walk(p),
            p.no_duplicates(),
        ensures
            p.len() <= self.size(),
            self.walk_cost(p) <= (p.len() - 1) * (BLOCKED - 1),
            self.walk_cost(p) <= (self.size() - 1) * (BLOCKED - 1),
    {
        let n = self.size();
        p.unique_seq_to_set();
        vstd::set_lib::lemma_int_range(0, n);
        assert(p.to_set().subset_of(vstd::set_lib::set_int_range(0, n))) by {
            assert forall|x: int| p.to_set().contains(x) implies vstd::set_lib::set_int_range(
                0,
                n,
            ).contains(x) by {
                let k = choose|k: int| 0 <= k < p.len() && p[k] == x;
                self.walk_stays_inside(p, k);
            }
        }
        vstd::set_lib::lemma_len_subset(p.to_set(), vstd::set_lib::set_int_range(0, n));
        self.walk_cost_by_length(p);
        let len = p.len() as int;
        assert((len - 1) * (BLOCKED - 1) <= (n - 1) * (BLOCKED - 1)) by (nonlinear_arith)
            requires
                len <= n,
        ;
    }

    proof fn walk_cost_by_length(self, p: Seq<int>)
        requires
            self.walk(p),
        ensures
            self.walk_cost(p) <= (p.len() - 1) * (BLOCKED - 1),
        decreases p.len(),
    {
        if p.len() > 1 {
            assert(p.drop_last() =~= p.take(p.len() - 1));
            self.prefix_of_walk(p, p.len() - 1);
            self.walk_cost_by_length(p.drop_last());
            let last = p.len() - 1;
            assert(self.open_to(p[last]));
            assert(self.enter(p.last()) <= BLOCKED - 1);
            assert((p.len() - 2) * (BLOCKED - 1) + (BLOCKED - 1) == (p.len() - 1) * (BLOCKED - 1))
                by (nonlinear_arith);
        }
    }
}

/// The cost of a tile that no walk has reached.
const NEVER: u64 = 0xffff_ffff_ffff_ffff;

/// A search under way, with for each tile reached a walk that reached it and
/// when that was.
ghost struct Search {
    best: Seq<u64>,
    from: Seq<usize>,
    open: Seq<(u128, usize)>,
    walks: Seq<Seq<int>>,
    stamp: Seq<int>,
    clock: int,
}

impl Search {
    spec fn known(self, x: int) -> bool {
        self.best[x] != NEVER
    }

    /// Is the tile on the open list, at its present cost?
    spec fn listed(self, f: Field, x: int) -> bool {
        exists|e: int|
            0 <= e < self.open.len() && (#[trigger] self.open[e]).1 == x && self.open[e].0
                == self.best[x] + f.estimate(x)
    }

    /// Does no neighbour of the tile come cheaper through it?
    spec fn closed(self, f: Field, x: int) -> bool {
        forall|y: int| #[trigger]
            f.beside(x, y) && f.open_to(y) ==> self.best[y] <= self.best[x] + f.enter(y)
    }

    /// The walk that reached a tile.
    spec fn walked(self, f: Field, start: int, x: int) -> bool {
        let p = self.walks[x];
        &&& f.walk(p)
        &&& p[0] == start
        &&& p.last() == x
        &&& p.no_duplicates()
        &&& f.walk_cost(p) == self.best[x]
    }

    /// No tile on that walk has since become dearer.
    spec fn prefixes(self, f: Field, x: int) -> bool {
        let p = self.walks[x];
        forall|k: int|
            0 <= k < p.len() ==> self.best[#[trigger] p[k]] <= f.walk_cost(p.take(k + 1))
    }

    /// The tile that a tile was reached from.
    spec fn linked(self, f: Field, x: int) -> bool {
        let u = self.from[x] as int;
        &&& f.beside(u, x)
        &&& f.open_to(x)
        &&& self.known(u)
        &&& self.best[u] + f.enter(x) <= self.best[x]
        &&& self.best[u] < self.best[x] || self.stamp[u] < self.stamp[x]
    }

    spec fn shape(self, f: Field, start: int) -> bool {
        &&& f.wf()
        &&& self.best.len() == f.size()
        &&& self.from.len() == f.size()
        &&& self.walks.len() == f.size()
        &&& self.stamp.len() == f.size()
        &&& 0 <= start < f.size()
        &&& self.best[start] == 0
    }

    /// What holds of a search at every moment; `skip` is the tile whose
    /// neighbours are being looked at.
    spec fn inv(self, f: Field, start: int, skip: int) -> bool {
        &&& self.shape(f, start)
        &&& forall|x: int|
            0 <= x < f.size() && self.known(x) ==> #[trigger] self.walked(f, start, x)
        &&& forall|x: int| 0 <= x < f.size() && self.known(x) ==> #[trigger] self.prefixes(f, x)
        &&& forall|x: int|
            0 <= x < f.size() && x != start && self.known(x) ==> #[trigger] self.linked(f, x)
        &&& forall|x: int|
            0 <= x < f.size() ==> 0 <= #[trigger] self.stamp[x] < self.clock
        &&& forall|e: int|
            0 <= e < self.open.len() ==> {
                let x = (#[trigger] self.open[e]).1 as int;
                &&& x < f.size()
                &&& self.known(x)
                &&& self.open[e].0 >= self.best[x] + f.estimate(x)
            }
        &&& self.frontier(f, skip)
    }

    /// Every tile reached is listed, or has been passed on to its neighbours.
    spec fn frontier(self, f: Field, skip: int) -> bool {
        forall|x: int|
            0 <= x < f.size() && x != skip && #[trigger] self.known(x) ==> self.listed(f, x) || (x
                != f.goal && self.closed(f, x))
    }

    /// Costs stay below the number that stands for no cost, by a step or more.
    spec fn bounded(self, f: Field) -> bool {
        forall|x: int|
            0 <= x < f.size() && #[trigger] self.known(x) ==> self.best[x] + BLOCKED < NEVER
    }

    proof fn inv_is_bounded(self, f: Field, start: int, skip: int)
        requires
            self.inv(f, start, skip),
        ensures
            self.bounded(f),
    {
        assert forall|x: int| 0 <= x < f.size() && #[trigger] self.known(x) implies self.best[x]
            + BLOCKED < NEVER by {
            self.costs_are_bounded(f, start, skip, x);
        }
    }

    /// Costs stay far below the number that stands for no cost.
    proof fn costs_are_bounded(self, f: Field, start: int, skip: int, x: int)
        requires
            self.inv(f, start, skip),
            0 <= x < f.size(),
            self.known(x),
        ensures
            self.best[x] <= (f.size() - 1) * (BLOCKED - 1),
            self.best[x] <= 0xffff_fffe * 0xffff_fffe,
    {
        assert(self.walked(f, start, x));
        f.simple_walks_are_cheap(self.walks[x]);
        let n = f.size();
        assert((n - 1) * (BLOCKED - 1) <= 0xffff_fffe * 0xffff_fffe) by (nonlinear_arith)
            requires
                1 <= n <= 0xffff_ffff,
                BLOCKED == 0xffff_ffff,
        ;
    }

    /// The search once tile `v` has been reached more cheaply through `u`.
    spec fn relaxed(self, f: Field, u: int, v: int) -> Search {
        let cost = (self.best[u] + f.enter(v)) as u64;
        Search {
            best: self.best.update(v, cost),
            from: self.from.update(v, u as usize),
            open: self.open.push(((cost + f.estimate(v)) as u128, v as usize)),
            walks: self.walks.update(v, self.walks[u].push(v)),
            stamp: self.stamp.update(v, self.clock),
            clock: self.clock + 1,
        }
    }

    proof fn relaxing_keeps_inv(self, f: Field, start: int, u: int, v: int)
        requires
            self.inv(f, start, u),
            0 <= u < f.size(),
            self.known(u),
            f.beside(u, v),
            f.open_to(v),
            self.best[u] + f.enter(v) < self.best[v],
            f.size() <= usize::MAX,
        ensures
            self.relaxed(f, u, v).inv(f, start, u),
            u != v,
    {
        let next = self.relaxed(f, u, v);
        self.costs_are_bounded(f, start, u, u);
        let cost = self.best[u] + f.enter(v);
        assert(0 <= f.enter(v) < BLOCKED);
        assert(cost < NEVER);
        assert(next.best[v] == cost);
        crate::sim::map::places_have_tiles(f.width, f.height, u);
        assert(u != v);
        assert(v != start);
        f.step_changes_distance(u, v);
        estimate_fits(f, v);
        let p = self.walks[u];
        let q = next.walks[v];
        assert(self.walked(f, start, u));
        assert(self.prefixes(f, u));
        f.extend_walk(p, v);
        assert(!p.contains(v)) by {
            if p.contains(v) {
                let k = choose|k: int| 0 <= k < p.len() && p[k] == v;
                assert(self.best[p[k]] <= f.walk_cost(p.take(k + 1)));
                f.prefix_of_walk(p, k + 1);
            }
        }
        assert(q.no_duplicates());
        assert forall|x: int| 0 <= x < f.size() && #[trigger] next.known(x) implies next.walked(
            f,
            start,
            x,
        ) by {
            if x != v {
                assert(self.known(x));
                assert(self.walked(f, start, x));
            }
        }
        assert forall|x: int| 0 <= x < f.size() && #[trigger] next.known(x) implies next.prefixes(
            f,
            x,
        ) by {
            if x != v {
                assert(self.known(x));
                assert(self.prefixes(f, x));
                assert(self.walked(f, start, x));
                let w = self.walks[x];
                assert forall|k: int| 0 <= k < w.len() implies next.best[#[trigger] w[k]]
                    <= f.walk_cost(w.take(k + 1)) by {
                    assert(self.best[w[k]] <= f.walk_cost(w.take(k + 1)));
                    f.walk_stays_inside(w, k);
                }
            } else {
                assert forall|k: int| 0 <= k < q.len() implies next.best[#[trigger] q[k]]
                    <= f.walk_cost(q.take(k + 1)) by {
                    if k < p.len() {
                        assert(q.take(k + 1) =~= p.take(k + 1));
                        assert(self.best[p[k]] <= f.walk_cost(p.take(k + 1)));
                        assert(q[k] == p[k]);
                        f.walk_stays_inside(p, k);
                    } else {
                        assert(q.take(k + 1) =~= q);
                    }
                }
            }
        }
        assert forall|x: int|
            0 <= x < f.size() && x != start && #[trigger] next.known(x) implies next.linked(
            f,
            x,
        ) by {
            if x != v {
                assert(self.known(x));
                assert(self.linked(f, x));
                if self.from[x] as int == v {
                    assert(0 <= f.enter(x));
                }
            } else {
                assert(self.stamp[u] < self.clock);
            }
        }
        assert forall|x: int| 0 <= x < f.size() implies 0 <= #[trigger] next.stamp[x]
            < next.clock by {
            assert(0 <= self.stamp[x] < self.clock);
            assert(0 <= self.stamp[v] < self.clock);
        }
        assert forall|e: int| 0 <= e < next.open.len() implies {
            let x = (#[trigger] next.open[e]).1 as int;
            &&& x < f.size()
            &&& next.known(x)
            &&& next.open[e].0 >= next.best[x] + f.estimate(x)
        } by {
            if e < self.open.len() {
                assert(next.open[e] == self.open[e]);
                let x = self.open[e].1 as int;
                assert(self.known(x));
            }
        }
        assert forall|x: int|
            0 <= x < f.size() && x != u && #[trigger] next.known(x) implies next.listed(f, x) || (x
            != f.goal && next.closed(f, x)) by {
            if x == v {
                assert(next.open[self.open.len() as int].1 == v);
                assert(next.listed(f, x));
            } else {
                assert(self.known(x));
                if self.listed(f, x) {
                    let e = choose|e: int|
                        0 <= e < self.open.len() && (#[trigger] self.open[e]).1 == x
                            && self.open[e].0 == self.best[x] + f.estimate(x);
                    assert(next.open[e] == self.open[e]);
                    assert(next.listed(f, x));
                } else {
                    assert(self.closed(f, x));
                    assert forall|y: int| #[trigger] f.beside(x, y) && f.open_to(y) implies
                        next.best[y] <= next.best[x] + f.enter(y) by {
                        assert(self.best[y] <= self.best[x] + f.enter(y));
                    }
                    assert(next.closed(f, x));
                }
            }
        }
    }

    /// The search once an entry has been taken off the open list.
    spec fn popped(self, i: int) -> Search {
        Search { open: self.open.update(i, self.open.last()).drop_last(), ..self }
    }

    proof fn popping_keeps_inv(self, f: Field, start: int, i: int)
        requires
            self.inv(f, start, -1),
            0 <= i < self.open.len(),
        ensures
            self.popped(i).inv(f, start, self.open[i].1 as int),
    {
        let next = self.popped(i);
        let t = self.open[i].1 as int;
        let last = self.open.len() - 1;
        assert forall|x: int| 0 <= x < f.size() && #[trigger] next.known(x) implies next.walked(
            f,
            start,
            x,
        ) && next.prefixes(f, x) && (x != start ==> next.linked(f, x)) by {
            assert(self.known(x));
            assert(self.walked(f, start, x));
            assert(self.prefixes(f, x));
            if x != start {
                assert(self.linked(f, x));
            }
        }
        assert forall|e: int| 0 <= e < next.open.len() implies {
            let x = (#[trigger] next.open[e]).1 as int;
            &&& x < f.size()
            &&& next.known(x)
            &&& next.open[e].0 >= next.best[x] + f.estimate(x)
        } by {
            let k = if e == i {
                last
            } else {
                e
            };
            assert(next.open[e] == self.open[k]);
            assert(self.known(self.open[k].1 as int));
        }
        assert forall|x: int| 0 <= x < f.size() implies 0 <= #[trigger] next.stamp[x]
            < next.clock by {
            assert(0 <= self.stamp[x] < self.clock);
        }
        assert forall|x: int|
            0 <= x < f.size() && x != t && #[trigger] next.known(x) implies next.listed(f, x) || (x
            != f.goal && next.closed(f, x)) by {
            assert(self.known(x));
            if self.listed(f, x) {
                let e = choose|e: int|
                    0 <= e < self.open.len() && (#[trigger] self.open[e]).1 == x && self.open[e].0
                        == self.best[x] + f.estimate(x);
                assert(e != i);
                let k = if e == last {
                    i
                } else {
                    e
                };
                assert(next.open[k] == self.open[e]);
                assert(next.listed(f, x));
            } else {
                assert(self.closed(f, x));
                assert(next.closed(f, x));
            }
        }
    }

    /// Once all neighbours of a tile have been looked at, the tile is closed.
    proof fn closing_keeps_inv(self, f: Field, start: int, u: int)
        requires
            self.inv(f, start, u),
            u != f.goal,
            self.closed(f, u),
        ensures
            self.inv(f, start, -1),
    {
        assert forall|x: int|
            0 <= x < f.size() && x != -1 && #[trigger] self.known(x) implies self.listed(f, x) || (x
            != f.goal && self.closed(f, x)) by {}
    }

    /// Past a closed tile of a walk, the next tile is reached at no more than
    /// the walk costs up to there.
    proof fn next_is_reached(self, f: Field, start: int, q: Seq<int>, k: int)
        requires
            self.shape(f, start),
            self.bounded(f),
            f.walk(q),
            0 <= k < q.len() - 1,
            self.known(q[k]),
            self.best[q[k]] <= f.walk_cost(q.take(k + 1)),
            self.closed(f, q[k]),
        ensures
            self.known(q[k + 1]),
            self.best[q[k + 1]] <= f.walk_cost(q.take(k + 2)),
    {
        f.walk_stays_inside(q, k);
        assert(f.beside(q[k], q[k + 1]) && f.open_to(q[k + 1]));
        assert(q.take(k + 2).drop_last() =~= q.take(k + 1));
        assert(q.take(k + 2).last() == q[k + 1]);
    }

    /// When the goal comes off the open list first, no route is cheaper.
    proof fn goal_is_optimal(self, f: Field, start: int, score: int, q: Seq<int>, k: int)
        requires
            self.shape(f, start),
            self.frontier(f, f.goal),
            self.bounded(f),
            f.paths_are_cheapest(),
            forall|e: int| 0 <= e < self.open.len() ==> score <= (#[trigger] self.open[e]).0,
            self.best[f.goal] <= score,
            self.known(f.goal),
            f.route(start, q),
            0 <= k < q.len(),
            self.known(q[k]),
            self.best[q[k]] <= f.walk_cost(q.take(k + 1)),
        ensures
            self.best[f.goal] <= f.walk_cost(q),
        decreases q.len() - k,
    {
        let x = q[k];
        f.walk_stays_inside(q, k);
        f.prefix_of_walk(q, k + 1);
        if x != f.goal {
            f.estimate_is_a_lower_bound(q, k);
            assert(self.known(x));
            if self.listed(f, x) {
                let e = choose|e: int|
                    0 <= e < self.open.len() && (#[trigger] self.open[e]).1 == x && self.open[e].0
                        == self.best[x] + f.estimate(x);
                assert(score <= self.open[e].0);
            } else {
                assert(self.closed(f, x));
                assert(k < q.len() - 1);
                self.next_is_reached(f, start, q, k);
                self.goal_is_optimal(f, start, score, q, k + 1);
            }
        }
    }

    /// When nothing is open, no tile of a route has been reached.
    proof fn nothing_open_means_no_route(self, f: Field, start: int, q: Seq<int>, k: int)
        requires
            self.shape(f, start),
            self.frontier(f, -1),
            self.bounded(f),
            self.open.len() == 0,
            0 <= k < q.len(),
        ensures
            f.route(start, q) ==> !self.known(q[k]),
        decreases q.len() - k,
    {
        if f.route(start, q) && self.known(q[k]) {
            let x = q[k];
            f.walk_stays_inside(q, k);
            assert(self.known(x));
            assert(!self.listed(f, x));
            assert(self.closed(f, x));
            assert(k < q.len() - 1);
            assert(f.beside(q[k], q[k + 1]) && f.open_to(q[k + 1]));
            self.nothing_open_means_no_route(f, start, q, k + 1);
        }
    }
}

/// An estimate can be told in a machine number.
proof fn estimate_fits(f: Field, i: int)
    requires
        f.wf(),
        0 <= i < f.size(),
    ensures
        0 <= f.estimate(i) <= 0x2_0000_0000 * 45,
{
    crate::sim::map::places_have_tiles(f.width, f.height, i);
    crate::sim::map::places_have_tiles(f.width, f.height, f.goal);
}

/// The sum of all costs, which falls whenever a tile is reached more cheaply.
spec fn weight(s: Seq<u64>) -> nat
    decreases s.len(),
{
    if s.len() == 0 {
        0
    } else {
        weight(s.drop_last()) + s.last() as nat
    }
}

proof fn weight_falls(s: Seq<u64>, i: int, v: u64)
    requires
        0 <= i < s.len(),
        v < s[i],
    ensures
        weight(s.update(i, v)) < weight(s),
    decreases s.len(),
{
    if i == s.len() - 1 {
        assert(s.update(i, v).drop_last() =~= s.drop_last());
    } else {
        weight_falls(s.drop_last(), i, v);
        assert(s.update(i, v).drop_last() =~= s.drop_last().update(i, v));
    }
}

struct Run {
    best: Vec<u64>,
    from: Vec<usize>,
    open: Vec<(u128, usize)>,
    walks: Ghost<Seq<Seq<int>>>,
    stamp: Ghost<Seq<int>>,
    clock: Ghost<int>,
}

impl View for Run {
    type V = Search;

    closed spec fn view(&self) -> Search {
        Search {
            best: self.best@,
            from: self.from@,
            open: self.open@,
            walks: self.walks@,
            stamp: self.stamp@,
            clock: self.clock@,
        }
    }
}

fn gap(a: u32, b: u32) -> (r: u64)
    ensures
        r == crate::sim::water::higher(a - b, b - a),
{
    if a >= b {
        (a - b) as u64
    } else {
        (b - a) as u64
    }
}

fn estimate_of(grid: &WalkGrid, goal: TilePos, i: usize) -> (r: u64)
    requires
        grid.wf(),
        grid.holds(goal),
        i < grid.width * grid.height,
    ensures
        r == grid.field(goal).estimate(i as int),
        r <= 0x2_0000_0000 * 45,
{
    proof {
        let f = grid.field(goal);
        crate::sim::map::tiles_have_places(grid.width, grid.height, goal.x as int, goal.y as int);
        crate::sim::map::places_have_tiles(grid.width, grid.height, i as int);
        estimate_fits(f, i as int);
    }
    let n: u32 = i as u32;
    let x: u32 = n % grid.width;
    let y: u32 = n / grid.width;
    (gap(x, goal.x) + gap(y, goal.y)) * 45
}

/// Look at `v` from `u`: is it reached more cheaply through `u`?
fn relax(grid: &WalkGrid, goal: TilePos, run: &mut Run, u: usize, v: usize, start: Ghost<int>)
    requires
        grid.wf(),
        grid.holds(goal),
        old(run)@.inv(grid.field(goal), start@, u as int),
        u < grid.field(goal).size(),
        old(run)@.known(u as int),
        grid.field(goal).beside(u as int, v as int),
    ensures
        final(run)@.inv(grid.field(goal), start@, u as int),
        final(run)@.best[u as int] == old(run)@.best[u as int],
        grid.field(goal).open_to(v as int) ==> final(run)@.best[v as int] <= old(
            run,
        )@.best[u as int] + grid.field(goal).enter(v as int),
        forall|y: int|
            0 <= y < grid.field(goal).size() ==> #[trigger] final(run)@.best[y] <= old(run)@.best[y],
        *final(run) == *old(run) || weight(final(run)@.best) < weight(old(run)@.best),
{
    let ghost f = grid.field(goal);
    let ghost before = run@;
    let goal_at: usize = (goal.y as u64 * grid.width as u64 + goal.x as u64) as usize;
    let step: u32 = if v == goal_at {
        GRASS_COST
    } else {
        grid.cost[v]
    };
    if step == BLOCKED {
        return;
    }
    proof {
        before.costs_are_bounded(f, start@, u as int, u as int);
    }
    let tentative: u64 = run.best[u] + step as u64;
    if tentative < run.best[v] {
        let score: u128 = tentative as u128 + estimate_of(grid, goal, v) as u128;
        proof {
            before.relaxing_keeps_inv(f, start@, u as int, v as int);
            weight_falls(before.best, v as int, tentative);
        }
        run.best.set(v, tentative);
        run.from.set(v, u);
        run.open.push((score, v));
        proof {
            run.walks@ = run.walks@.update(v as int, run.walks@[u as int].push(v as int));
            run.stamp@ = run.stamp@.update(v as int, run.clock@);
            run.clock@ = run.clock@ + 1;
            assert(run@ == before.relaxed(f, u as int, v as int));
        }
    }
}

/// The place of the entry with the lowest score.
fn lowest(open: &Vec<(u128, usize)>) -> (r: usize)
    requires
        open@.len() > 0,
    ensures
        r < open@.len(),
        forall|e: int| 0 <= e < open@.len() ==> open@[r as int].0 <= (#[trigger] open@[e]).0,
{
    let mut r: usize = 0;
    let mut i: usize = 1;
    while i < open.len()
        invariant
            1 <= i <= open@.len(),
            r < open@.len(),
            forall|e: int| 0 <= e < i ==> open@[r as int].0 <= (#[trigger] open@[e]).0,
        decreases open@.len() - i,
    {
        if open[i].0 < open[r].0 {
            r = i;
        }
        i += 1;
    }
    r
}

/// The places of the tiles of a path.
pub open spec fn places(width: u32, path: Seq<TilePos>) -> Seq<int> {
    path.map_values(
        |t: TilePos| crate::sim::map::tile_index(width, t.x as int, t.y as int),
    )
}

/// Go back from the goal to the start, tile by tile, each to the one it was
/// reached from.
fn trace_back(
    grid: &WalkGrid,
    goal: TilePos,
    run: &Run,
    start_at: usize,
    goal_at: usize,
    start: Ghost<int>,
) -> (r: Vec<TilePos>)
    requires
        grid.wf(),
        grid.holds(goal),
        goal_at == grid.at(goal),
        start_at == start@,
        start_at != goal_at,
        run@.inv(grid.field(goal), start@, grid.field(goal).goal),
        run@.known(goal_at as int),
    ensures
        grid.field(goal).route(start@, seq![start@] + places(grid.width, r@)),
        grid.field(goal).walk_cost(seq![start@] + places(grid.width, r@))
            <= run@.best[goal_at as int],
        forall|k: int| 0 <= k < r@.len() ==> grid.holds(#[trigger] r@[k]),
{
    let ghost f = grid.field(goal);
    let mut back: Vec<usize> = Vec::new();
    back.push(goal_at);
    let mut at: usize = goal_at;
    let ghost mut q: Seq<int> = seq![goal_at as int];
    proof {
        assert(f.walk(q));
        assert(f.walk_cost(q) == 0);
    }
    loop
        invariant_except_break
            at != start_at,
            q.len() == back@.len(),
            forall|k: int|
                0 <= k < q.len() ==> #[trigger] q[k] == back@[q.len() - 1 - k] && 0 <= q[k]
                    < f.size(),
        invariant
            f == grid.field(goal),
            f.wf(),
            grid.wf(),
            start_at == start@,
            run@.inv(f, start@, f.goal),
            at < f.size(),
            run@.known(at as int),
            f.walk(q),
            q[0] == at,
            q.last() == f.goal,
            f.walk_cost(q) + run@.best[at as int] <= run@.best[f.goal],
        ensures
            at == start_at,
            q.len() == back@.len() + 1,
            forall|k: int|
                1 <= k < q.len() ==> #[trigger] q[k] == back@[q.len() - 1 - k] && 0 <= q[k]
                    < f.size(),
        decreases run@.best[at as int], run@.stamp[at as int],
    {
        proof {
            assert(run@.linked(f, at as int));
            assert(0 <= run@.stamp[run@.from[at as int] as int] < run@.clock);
        }
        let up: usize = run.from[at];
        let ghost shorter = q;
        let ghost had = back@;
        proof {
            f.prepend_walk(up as int, q);
            q = seq![up as int] + q;
            assert forall|k: int| 1 <= k < q.len() implies #[trigger] q[k] == had[q.len() - 1 - k]
                && 0 <= q[k] < f.size() by {
                assert(q[k] == shorter[k - 1]);
            }
        }
        at = up;
        if at == start_at {
            break;
        }
        back.push(at);
        proof {
            assert forall|k: int| 0 <= k < q.len() implies #[trigger] q[k] == back@[q.len() - 1
                - k] && 0 <= q[k] < f.size() by {
                if k > 0 {
                    assert(q[k] == had[q.len() - 1 - k]);
                }
            }
        }
    }
    let mut r: Vec<TilePos> = Vec::new();
    let mut i: usize = back.len();
    let ghost rest = q.skip(1);
    while i > 0
        invariant
            f == grid.field(goal),
            f.wf(),
            grid.wf(),
            i <= back@.len(),
            rest.len() == back@.len(),
            forall|k: int|
                0 <= k < rest.len() ==> #[trigger] rest[k] == back@[rest.len() - 1 - k] && 0
                    <= rest[k] < f.size(),
            r@.len() == back@.len() - i,
            forall|k: int|
                0 <= k < r@.len() ==> grid.holds(#[trigger] r@[k]) && grid.at(r@[k]) == rest[k],
        decreases i,
    {
        i -= 1;
        proof {
            let k = rest.len() - 1 - i;
            assert(rest[k] == back@[i as int]);
            crate::sim::map::places_have_tiles(grid.width, grid.height, rest[k]);
        }
        let n: u32 = back[i] as u32;
        r.push(TilePos { x: n % grid.width, y: n / grid.width });
    }
    proof {
        assert(seq![start@] + places(grid.width, r@) =~= q) by {
            assert forall|k: int| 0 <= k < q.len() implies (seq![start@] + places(
                grid.width,
                r@,
            ))[k] == q[k] by {
                if k > 0 {
                    assert(rest[k - 1] == q[k]);
                    assert(grid.at(r@[k - 1]) == rest[k - 1]);
                }
            }
        }
    }
    r
}

/// Find a route from `start` to `goal`: the tiles to be walked, without the
/// first and with the last. There is none only where no route exists. It is a
/// cheapest one if no tile is cheaper than a path.
pub fn find_path(grid: &WalkGrid, start: TilePos, goal: TilePos) -> (r: Option<Vec<TilePos>>)
    requires
        grid.wf(),
        grid.holds(start),
        grid.holds(goal),
    ensures
        r is Some <==> exists|q: Seq<int>| #[trigger]
            grid.field(goal).route(grid.at(start), q),
        r matches Some(path) ==> {
            let p = seq![grid.at(start)] + places(grid.width, path@);
            &&& grid.field(goal).route(grid.at(start), p)
            &&& grid.field(goal).paths_are_cheapest() ==> forall|q: Seq<int>| #[trigger]
                grid.field(goal).route(grid.at(start), q) ==> grid.field(goal).walk_cost(p)
                    <= grid.field(goal).walk_cost(q)
            &&& forall|k: int| 0 <= k < path@.len() ==> grid.holds(#[trigger] path@[k])
        },
        start == goal ==> (r matches Some(path) && path@.len() == 0),
{
    let ghost f = grid.field(goal);
    let ghost s = grid.at(start);
    proof {
        crate::sim::map::tiles_have_places(grid.width, grid.height, start.x as int, start.y as int);
        crate::sim::map::tiles_have_places(grid.width, grid.height, goal.x as int, goal.y as int);
    }
    if start.x == goal.x && start.y == goal.y {
        let path: Vec<TilePos> = Vec::new();
        proof {
            let p = seq![s] + places(grid.width, path@);
            assert(p =~= seq![s]);
            assert(f.route(s, p));
            assert forall|q: Seq<int>| #[trigger] f.route(s, q) implies f.walk_cost(p)
                <= f.walk_cost(q) by {
                f.cost_is_not_negative(q);
            }
        }
        return Some(path);
    }
    let n: usize = grid.cost.len();
    let start_at: usize = (start.y as u64 * grid.width as u64 + start.x as u64) as usize;
    let goal_at: usize = (goal.y as u64 * grid.width as u64 + goal.x as u64) as usize;
    let mut best: Vec<u64> = vec![NEVER; n];
    best.set(start_at, 0);
    let from: Vec<usize> = vec![0usize; n];
    let mut open: Vec<(u128, usize)> = Vec::new();
    open.push((estimate_of(grid, goal, start_at) as u128, start_at));
    let mut run = Run {
        best,
        from,
        open,
        walks: Ghost(Seq::new(n as nat, |i: int| seq![s])),
        stamp: Ghost(Seq::new(n as nat, |i: int| 0)),
        clock: Ghost(1),
    };
    proof {
        search_starts(f, s, run@);
        assert(start_at != goal_at);
    }
    while run.open.len() > 0
        invariant
            f == grid.field(goal),
            f.wf(),
            grid.wf(),
            grid.holds(goal),
            s == grid.at(start),
            start_at == s,
            goal_at == f.goal,
            start_at != goal_at,
            n == f.size(),
            run@.inv(f, s, -1),
        decreases weight(run@.best), run@.open.len(),
    {
        let ghost before = run@;
        let i: usize = lowest(&run.open);
        let entry: (u128, usize) = run.open.swap_remove(i);
        let t: usize = entry.1;
        proof {
            before.popping_keeps_inv(f, s, i as int);
            assert(run@ == before.popped(i as int));
            assert(before.known(before.open[i as int].1 as int));
            assert(run@.known(t as int));
        }
        if t == goal_at {
            let path = trace_back(grid, goal, &run, start_at, goal_at, Ghost(s));
            proof {
                let p = seq![s] + places(grid.width, path@);
                let score = entry.0 as int;
                estimate_fits(f, f.goal);
                assert forall|e: int| 0 <= e < run@.open.len() implies score <= (
                #[trigger] run@.open[e]).0 by {
                    let k = if e == i {
                        before.open.len() - 1
                    } else {
                        e
                    };
                    assert(run@.open[e] == before.open[k]);
                }
                run@.inv_is_bounded(f, s, f.goal);
                if f.paths_are_cheapest() {
                    assert forall|q: Seq<int>| #[trigger] f.route(s, q) implies f.walk_cost(p)
                        <= f.walk_cost(q) by {
                        assert(q.take(1) =~= seq![s]);
                        run@.goal_is_optimal(f, s, score, q, 0);
                    }
                }
            }
            return Some(path);
        }
        let ghost popped = run@;
        expand(grid, goal, &mut run, t, Ghost(s));
        proof {
            run@.closing_keeps_inv(f, s, t as int);
        }
    }
    proof {
        run@.inv_is_bounded(f, s, -1);
        assert forall|q: Seq<int>| !#[trigger] f.route(s, q) by {
            if f.route(s, q) {
                run@.nothing_open_means_no_route(f, s, q, 0);
                assert(run@.known(s));
            }
        }
    }
    None
}

/// A search begins with the start alone.
proof fn search_starts(f: Field, s: int, run: Search)
    requires
        f.wf(),
        0 <= s < f.size(),
        run.best.len() == f.size(),
        run.from.len() == f.size(),
        run.walks == Seq::new(f.size() as nat, |i: int| seq![s]),
        run.stamp == Seq::new(f.size() as nat, |i: int| 0int),
        run.clock == 1,
        forall|i: int|
            0 <= i < f.size() ==> #[trigger] run.best[i] == if i == s {
                0
            } else {
                NEVER
            },
        run.open.len() == 1,
        run.open[0].1 == s,
        run.open[0].0 == f.estimate(s),
    ensures
        run.inv(f, s, -1),
{
    assert(run.best[s] == 0);
    assert forall|x: int| 0 <= x < f.size() && #[trigger] run.known(x) implies run.walked(f, s, x)
        && run.prefixes(f, x) && x == s by {
        assert(run.best[x] != NEVER);
        assert(x == s);
        let p = run.walks[x];
        assert(p == seq![s]);
        assert forall|k: int| 0 <= k < p.len() implies run.best[#[trigger] p[k]] <= f.walk_cost(
            p.take(k + 1),
        ) by {
            assert(p.take(1) =~= p);
        }
    }
    assert(run.listed(f, s)) by {
        assert(run.open[0].1 == s);
    }
}

/// Look at the four neighbours of a tile.
fn expand(grid: &WalkGrid, goal: TilePos, run: &mut Run, u: usize, start: Ghost<int>)
    requires
        grid.wf(),
        grid.holds(goal),
        old(run)@.inv(grid.field(goal), start@, u as int),
        u < grid.field(goal).size(),
        old(run)@.known(u as int),
    ensures
        final(run)@.inv(grid.field(goal), start@, u as int),
        final(run)@.closed(grid.field(goal), u as int),
        *final(run) == *old(run) || weight(final(run)@.best) < weight(old(run)@.best),
{
    let ghost f = grid.field(goal);
    let ghost before = *run;
    let n: usize = grid.cost.len();
    let w: usize = grid.width as usize;
    let x: usize = u % w;
    proof {
        crate::sim::map::places_have_tiles(grid.width, grid.height, u as int);
        if x + 1 < w {
            crate::sim::map::tiles_have_places(
                grid.width,
                grid.height,
                x + 1,
                u as int / (w as int),
            );
        }
    }
    if x + 1 < w {
        relax(grid, goal, run, u, u + 1, start);
    }
    let ghost one = *run;
    if x > 0 {
        relax(grid, goal, run, u, u - 1, start);
    }
    let ghost two = *run;
    if w < n - u {
        relax(grid, goal, run, u, u + w, start);
    }
    let ghost three = *run;
    if u >= w {
        relax(grid, goal, run, u, u - w, start);
    }
    proof {
        let last = run@;
        assert forall|y: int| #[trigger] f.beside(u as int, y) && f.open_to(y) implies last.best[y]
            <= last.best[u as int] + f.enter(y) by {
            if y == u + 1 && x + 1 < w {
                assert(one@.best[y] <= before@.best[u as int] + f.enter(y));
            }
            assert(two@.best[y] <= one@.best[y]);
            assert(three@.best[y] <= two@.best[y]);
            assert(last.best[y] <= three@.best[y]);
        }
    }
}

} // verus!
