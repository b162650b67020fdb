//! The tile grid: terrain, water and what stands on each tile.
use vstd::prelude::*;

verus! {

/// One level of terrain, or of water, or one tile, in the units used here.
pub const MICRO: u64 = 1_000_000;

/// Height of one terrain level, in millionths of a tile.
pub const LEVEL: i64 = 500_000;

/// Tiles within this distance of surface water are irrigated.
pub const IRRIGATION_RANGE: u32 = 5;

/// Water deeper than this is surface water.
pub const WET: u64 = 50_000;

/// No surface of water stands higher than this.
pub const CEILING: u64 = 0x4_0000_0000_0000;

/// A tile.
#[derive(Clone, Copy, PartialEq, Eq, Structural, Debug)]
pub struct TilePos {
    pub x: u32,
    pub y: u32,
}

/// A position in the world, in millionths of a tile; `y` is up.
#[derive(Clone, Copy, PartialEq, Eq, Structural, Debug)]
pub struct Pos {
    pub x: i64,
    pub y: i64,
    pub z: i64,
}

/// The map, which everything else follows.
pub struct TileMap {
    pub width: u32,
    pub height: u32,
    /// Terrain height in levels; the river bed is 0.
    pub ground: Vec<i32>,
    /// Depth of water in millionths of a level.
    pub water: Vec<u64>,
    /// Where the river enters.
    pub source: Vec<bool>,
    /// Where the river leaves.
    pub drain: Vec<bool>,
    /// Dams hold water back up to a height.
    pub dam: Vec<bool>,
    /// Within irrigation range of surface water.
    pub irrigated: Vec<bool>,
    /// The building on the tile.
    pub building: Vec<Option<u64>>,
    /// The tree on the tile.
    pub tree: Vec<Option<u64>>,
}

#[verifier::ext_equal]
pub ghost struct MapView {
    pub width: u32,
    pub height: u32,
    pub ground: Seq<i32>,
    pub water: Seq<u64>,
    pub source: Seq<bool>,
    pub drain: Seq<bool>,
    pub dam: Seq<bool>,
    pub irrigated: Seq<bool>,
    pub building: Seq<Option<u64>>,
    pub tree: Seq<Option<u64>>,
}

impl View for TileMap {
    type V = MapView;

    open spec fn view(&self) -> MapView {
        MapView {
            width: self.width,
            height: self.height,
            ground: self.ground@,
            water: self.water@,
            source: self.source@,
            drain: self.drain@,
            dam: self.dam@,
            irrigated: self.irrigated@,
            building: self.building@,
            tree: self.tree@,
        }
    }
}

/// The place of tile (x, y) in a list of `w` tiles a row.
pub open spec fn tile_index(w: u32, x: int, y: int) -> int {
    y * w + x
}

impl MapView {
    /// The number of tiles.
    pub open spec fn size(self) -> int {
        self.width * self.height
    }

    /// There is an entry for every tile in each list, tiles can be counted in
    /// 32 bits, coordinates can be negated, and neither the ground nor the
    /// water on it reaches beyond all measure.
    pub open spec fn wf(self) -> bool {
        &&& self.size() <= u32::MAX
        &&& self.width <= 0x3fff_ffff
        &&& self.height <= 0x3fff_ffff
        &&& self.ground.len() == self.size()
        &&& self.water.len() == self.size()
        &&& self.source.len() == self.size()
        &&& self.drain.len() == self.size()
        &&& self.dam.len() == self.size()
        &&& self.irrigated.len() == self.size()
        &&& self.building.len() == self.size()
        &&& self.tree.len() == self.size()
        &&& forall|i: int|
            0 <= i < self.size() ==> -1000 <= #[trigger] self.ground[i] <= 1000
        &&& forall|i: int|
            0 <= i < self.size() ==> self.ground[i] * MICRO + (#[trigger] self.water[i]) <= CEILING
    }

    pub open spec fn at(self, t: TilePos) -> int {
        tile_index(self.width, t.x as int, t.y as int)
    }

    pub open spec fn inside(self, x: int, y: int) -> bool {
        0 <= x < self.width && 0 <= y < self.height
    }

    pub open spec fn holds(self, t: TilePos) -> bool {
        self.inside(t.x as int, t.y as int)
    }

    pub open spec fn wet(self, t: TilePos) -> bool {
        self.water[self.at(t)] > WET
    }

    pub open spec fn river_bed(self, t: TilePos) -> bool {
        self.ground[self.at(t)] == 0
    }

    /// Land without water, building or tree.
    pub open spec fn free_land(self, t: TilePos) -> bool {
        let i = self.at(t);
        &&& self.ground[i] >= 1
        &&& self.water[i] <= WET
        &&& self.building[i] is None
        &&& self.tree[i] is None
    }

    /// The tiles beside a tile: east, west, south and north, as far as they
    /// are on the map.
    pub open spec fn beside(self, t: TilePos) -> Seq<TilePos> {
        let e = if t.x + 1 < self.width {
            seq![TilePos { x: (t.x + 1) as u32, y: t.y }]
        } else {
            Seq::empty()
        };
        let w = if t.x > 0 {
            seq![TilePos { x: (t.x - 1) as u32, y: t.y }]
        } else {
            Seq::empty()
        };
        let s = if t.y + 1 < self.height {
            seq![TilePos { x: t.x, y: (t.y + 1) as u32 }]
        } else {
            Seq::empty()
        };
        let n = if t.y > 0 {
            seq![TilePos { x: t.x, y: (t.y - 1) as u32 }]
        } else {
            Seq::empty()
        };
        e + w + s + n
    }

    pub open spec fn near_water(self, t: TilePos) -> bool {
        exists|i: int|
            0 <= i < self.beside(t).len() && self.wet(#[trigger] self.beside(t)[i])
    }

    /// The middle of a tile's ground surface.
    pub open spec fn center(self, t: TilePos) -> Pos {
        Pos {
            x: (t.x * MICRO - self.width * 500_000 + 500_000) as i64,
            y: (self.ground[self.at(t)] * LEVEL) as i64,
            z: (t.y * MICRO - self.height * 500_000 + 500_000) as i64,
        }
    }

    /// The column or row that a coordinate falls into.
    pub open spec fn cell(p: i64, extent: u32) -> int {
        (p + extent * 500_000) / MICRO as int
    }
}

/// A tile on the map has a place in its lists, and different tiles have
/// different places.
pub proof fn tiles_have_places(w: u32, h: u32, x: int, y: int)
    requires
        0 <= x < w,
        0 <= y < h,
    ensures
        0 <= tile_index(w, x, y) < w * h,
        tile_index(w, x, y) % w as int == x,
        tile_index(w, x, y) / w as int == y,
{
    assert(y * w + x < w * h) by (nonlinear_arith)
        requires
            0 <= x < w,
            0 <= y < h,
    ;
    assert(0 <= y * w) by (nonlinear_arith)
        requires
            0 <= y,
    ;
    vstd::arithmetic::div_mod::lemma_fundamental_div_mod_converse(y * w + x, w as int, y, x);
}

/// Every place in the lists is that of a tile.
pub proof fn places_have_tiles(w: u32, h: u32, i: int)
    requires
        0 <= i < w * h,
    ensures
        w > 0,
        0 <= i % (w as int) < w,
        0 <= i / (w as int) < h,
        tile_index(w, i % w as int, i / w as int) == i,
{
    assert(w > 0) by (nonlinear_arith)
        requires
            0 <= i < w * h,
    ;
    vstd::arithmetic::div_mod::lemma_fundamental_div_mod(i, w as int);
    let q = i / w as int;
    let r = i % w as int;
    assert(0 <= r < w);
    assert(i == q * w + r) by (nonlinear_arith)
        requires
            i == w as int * q + r,
    ;
    assert(0 <= q < h) by (nonlinear_arith)
        requires
            0 <= i < w * h,
            i == q * w + r,
            0 <= r < w,
            w > 0,
    ;
}

impl TileMap {
    pub open spec fn wf(&self) -> bool {
        self@.wf()
    }

    pub fn idx(&self, x: u32, y: u32) -> (r: usize)
        requires
            self.wf(),
            x < self.width,
            y < self.height,
        ensures
            r == tile_index(self.width, x as int, y as int),
            r < self@.size(),
    {
        proof {
            tiles_have_places(self.width, self.height, x as int, y as int);
            assert(y * self.width <= self.width * self.height) by (nonlinear_arith)
                requires
                    y < self.height,
            ;
        }
        (y * self.width + x) as usize
    }

    pub fn in_bounds(&self, x: i32, y: i32) -> (r: bool)
        ensures
            r == self@.inside(x as int, y as int),
    {
        x >= 0 && y >= 0 && (x as u32) < self.width && (y as u32) < self.height
    }

    /// The middle of a tile's ground surface.
    pub fn tile_center(&self, x: u32, y: u32) -> (r: Pos)
        requires
            self.wf(),
            x < self.width,
            y < self.height,
        ensures
            r == self@.center(TilePos { x, y }),
            r.x == x * MICRO - self.width * 500_000 + 500_000,
            r.z == y * MICRO - self.height * 500_000 + 500_000,
            r.y == self@.ground[tile_index(self.width, x as int, y as int)] * LEVEL,
    {
        let g: i64 = self.ground[self.idx(x, y)] as i64;
        Pos {
            x: x as i64 * 1_000_000 - self.width as i64 * 500_000 + 500_000,
            y: g * LEVEL,
            z: y as i64 * 1_000_000 - self.height as i64 * 500_000 + 500_000,
        }
    }

    /// The tile at a position, if it is on the map.
    pub fn tile_at(&self, pos: Pos) -> (r: Option<TilePos>)
        ensures
            ({
                let x = MapView::cell(pos.x, self.width);
                let y = MapView::cell(pos.z, self.height);
                if self@.inside(x, y) {
                    r == Some(TilePos { x: x as u32, y: y as u32 })
                } else {
                    r is None
                }
            }),
    {
        let px: i128 = pos.x as i128 + self.width as i128 * 500_000;
        let pz: i128 = pos.z as i128 + self.height as i128 * 500_000;
        if px < 0 || pz < 0 {
            return None;
        }
        let x: i128 = px / 1_000_000;
        let y: i128 = pz / 1_000_000;
        if x < self.width as i128 && y < self.height as i128 {
            Some(TilePos { x: x as u32, y: y as u32 })
        } else {
            None
        }
    }

    pub fn has_water(&self, x: u32, y: u32) -> (r: bool)
        requires
            self.wf(),
            x < self.width,
            y < self.height,
        ensures
            r == self@.wet(TilePos { x, y }),
    {
        self.water[self.idx(x, y)] > WET
    }

    pub fn is_river_bed(&self, x: u32, y: u32) -> (r: bool)
        requires
            self.wf(),
            x < self.width,
            y < self.height,
        ensures
            r == self@.river_bed(TilePos { x, y }),
    {
        self.ground[self.idx(x, y)] == 0
    }

    /// Land that is free of water, buildings and trees.
    pub fn is_free_land(&self, x: u32, y: u32) -> (r: bool)
        requires
            self.wf(),
            x < self.width,
            y < self.height,
        ensures
            r == self@.free_land(TilePos { x, y }),
    {
        let i: usize = self.idx(x, y);
        self.ground[i] >= 1 && self.water[i] <= WET && self.building[i].is_none()
            && self.tree[i].is_none()
    }

    /// The tiles beside a tile.
    pub fn neighbors4(&self, x: u32, y: u32) -> (r: Vec<TilePos>)
        requires
            self.wf(),
            x < self.width,
            y < self.height,
        ensures
            r@ == self@.beside(TilePos { x, y }),
            forall|i: int| 0 <= i < r@.len() ==> self@.holds(#[trigger] r@[i]),
    {
        let mut r: Vec<TilePos> = Vec::new();
        if x + 1 < self.width {
            r.push(TilePos { x: x + 1, y });
        }
        if x > 0 {
            r.push(TilePos { x: x - 1, y });
        }
        if y + 1 < self.height {
            r.push(TilePos { x, y: y + 1 });
        }
        if y > 0 {
            r.push(TilePos { x, y: y - 1 });
        }
        proof {
            assert(r@ =~= self@.beside(TilePos { x, y }));
        }
        r
    }

    /// The first tile beside this one that has surface water.
    pub fn wet_neighbor(&self, x: u32, y: u32) -> (r: Option<TilePos>)
        requires
            self.wf(),
            x < self.width,
            y < self.height,
        ensures
            match r {
                Some(t) => exists|i: int|
                    0 <= i < self@.beside(TilePos { x, y }).len() && t == #[trigger] self@.beside(
                        TilePos { x, y },
                    )[i] && self@.wet(t) && forall|j: int|
                        0 <= j < i ==> !self@.wet(#[trigger] self@.beside(TilePos { x, y })[j]),
                None => !self@.near_water(TilePos { x, y }),
            },
            r matches Some(t) ==> self@.holds(t) && self@.wet(t) && self@.near_water(
                TilePos { x, y },
            ),
    {
        let ns = self.neighbors4(x, y);
        let mut i: usize = 0;
        while i < ns.len()
            invariant
                self.wf(),
                i <= ns@.len(),
                ns@ == self@.beside(TilePos { x, y }),
                forall|j: int| 0 <= j < ns@.len() ==> self@.holds(#[trigger] ns@[j]),
                forall|j: int| 0 <= j < i ==> !self@.wet(#[trigger] ns@[j]),
            decreases ns@.len() - i,
        {
            let t = ns[i];
            assert(self@.holds(ns@[i as int]));
            if self.has_water(t.x, t.y) {
                assert(self@.wet(self@.beside(TilePos { x, y })[i as int]));
                return Some(t);
            }
            i += 1;
        }
        None
    }

    pub fn adjacent_to_water(&self, x: u32, y: u32) -> (r: bool)
        requires
            self.wf(),
            x < self.width,
            y < self.height,
        ensures
            r == self@.near_water(TilePos { x, y }),
    {
        self.wet_neighbor(x, y).is_some()
    }
}

/// The row that is `dy` rows off the river's middle, held on the map.
pub open spec fn river_row(height: u32, middle: i32, dy: int) -> int {
    if middle + dy < 0 {
        0
    } else if middle + dy > height - 1 {
        height - 1
    } else {
        middle + dy
    }
}

/// Rows that hold water at first: the river is two tiles wide.
pub open spec fn in_channel(height: u32, middle: i32, y: int) -> bool {
    y == river_row(height, middle, -1) || y == river_row(height, middle, 0)
}

/// Rows that are dug out: the channel and one bank.
pub open spec fn carved(height: u32, middle: i32, y: int) -> bool {
    in_channel(height, middle, y) || y == river_row(height, middle, 1)
}

/// Hills are between one and four levels high.
pub open spec fn hill(level: i32) -> i32 {
    if level < 1 {
        1
    } else if level > 4 {
        4
    } else {
        level
    }
}

fn river_row_of(height: u32, middle: i32, dy: i32) -> (r: i64)
    requires
        -1 <= dy <= 1,
    ensures
        r == river_row(height, middle, dy as int),
{
    let y: i64 = middle as i64 + dy as i64;
    if y < 0 {
        0
    } else if y > height as i64 - 1 {
        height as i64 - 1
    } else {
        y
    }
}

impl MapView {
    /// The map of these hills with a river through these rows, as it is before
    /// anything has happened on it.
    pub open spec fn landscape(
        width: u32,
        height: u32,
        levels: Seq<i32>,
        middles: Seq<i32>,
    ) -> MapView {
        let n = (width * height) as nat;
        let x = |i: int| i % (width as int);
        let y = |i: int| i / (width as int);
        let channel = |i: int| in_channel(height, middles[x(i)], y(i));
        MapView {
            width,
            height,
            ground: Seq::new(
                n,
                |i: int|
                    if carved(height, middles[x(i)], y(i)) {
                        0i32
                    } else {
                        hill(levels[i])
                    },
            ),
            water: Seq::new(
                n,
                |i: int|
                    if channel(i) {
                        MICRO
                    } else {
                        0u64
                    },
            ),
            source: Seq::new(n, |i: int| channel(i) && x(i) == 0),
            drain: Seq::new(n, |i: int| channel(i) && x(i) == width - 1),
            dam: Seq::new(n, |i: int| false),
            irrigated: Seq::new(n, |i: int| false),
            building: Seq::new(n, |i: int| None),
            tree: Seq::new(n, |i: int| None),
        }
    }
}

impl TileMap {
    /// A map of hills, their levels given row by row, with a river from west to
    /// east whose middle row is given for each column. The river enters and
    /// leaves at the edges.
    pub fn generate_seeded(
        width: u32,
        height: u32,
        levels: &Vec<i32>,
        middles: &Vec<i32>,
    ) -> (r: TileMap)
        requires
            width * height <= u32::MAX,
            width <= 0x3fff_ffff,
            height <= 0x3fff_ffff,
            levels@.len() == width * height,
            middles@.len() == width,
        ensures
            r.wf(),
            r@ == MapView::landscape(width, height, levels@, middles@),
    {
        let mut map = TileMap {
            width,
            height,
            ground: Vec::new(),
            water: Vec::new(),
            source: Vec::new(),
            drain: Vec::new(),
            dam: Vec::new(),
            irrigated: Vec::new(),
            building: Vec::new(),
            tree: Vec::new(),
        };
        let ghost want = MapView::landscape(width, height, levels@, middles@);
        let n: usize = levels.len();
        let mut x: u32 = 0;
        let mut y: u32 = 0;
        let mut i: usize = 0;
        while i < n
            invariant
                n == width * height,
                levels@.len() == n,
                middles@.len() == width,
                want == MapView::landscape(width, height, levels@, middles@),
                0 <= i <= n,
                i == y * width + x,
                i < n ==> x < width,
                i < n ==> y < height,
                i == n ==> x == 0,
                map.width == width,
                map.height == height,
                map.ground@ =~= want.ground.take(i as int),
                map.water@ =~= want.water.take(i as int),
                map.source@ =~= want.source.take(i as int),
                map.drain@ =~= want.drain.take(i as int),
                map.dam@ =~= want.dam.take(i as int),
                map.irrigated@ =~= want.irrigated.take(i as int),
                map.building@ =~= want.building.take(i as int),
                map.tree@ =~= want.tree.take(i as int),
            decreases n - i,
        {
            proof {
                tiles_have_places(width, height, x as int, y as int);
            }
            let middle: i32 = middles[x as usize];
            let row: i64 = y as i64;
            let channel = row == river_row_of(height, middle, -1) || row == river_row_of(
                height,
                middle,
                0,
            );
            let dug = channel || row == river_row_of(height, middle, 1);
            let level: i32 = levels[i];
            let ground: i32 = if dug {
                0
            } else if level < 1 {
                1
            } else if level > 4 {
                4
            } else {
                level
            };
            map.ground.push(ground);
            map.water.push(if channel { MICRO } else { 0 });
            map.source.push(channel && x == 0);
            map.drain.push(channel && x == width - 1);
            map.dam.push(false);
            map.irrigated.push(false);
            map.building.push(None);
            map.tree.push(None);
            i += 1;
            x += 1;
            if x == width {
                x = 0;
                y += 1;
                assert(i == y * width) by (nonlinear_arith)
                    requires
                        i == (y - 1) * width + width,
                ;
            }
            proof {
                if i < n {
                    assert(y < height) by (nonlinear_arith)
                        requires
                            i == y * width + x,
                            i < width * height,
                            0 <= x,
                    ;
                } else {
                    assert(x == 0) by {
                        if x != 0 {
                            assert(x < width && y < height);
                            assert(y * width + x < width * height) by (nonlinear_arith)
                                requires
                                    x < width,
                                    y < height,
                            ;
                        }
                    }
                }
            }
        }
        proof {
            assert(map@ =~= want);
        }
        map
    }
}

/// The middle of a tile lies on that tile: asking for the tile at the middle
/// gives the tile back.
pub proof fn the_middle_lies_on_its_tile(map: MapView, t: TilePos)
    requires
        map.wf(),
        map.holds(t),
    ensures
        MapView::cell(map.center(t).x, map.width) == t.x,
        MapView::cell(map.center(t).z, map.height) == t.y,
{
    assert(t.x * MICRO - map.width * 500_000 + 500_000 + map.width * 500_000 == t.x * 1_000_000
        + 500_000);
    assert((t.x * 1_000_000 + 500_000) / 1_000_000 == t.x);
    assert((t.y * 1_000_000 + 500_000) / 1_000_000 == t.y);
}

} // verus!
