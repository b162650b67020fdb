//! What things are made of on the screen: unit shapes, stretched and placed. All
//! measures are in millionths of a tile.
use vstd::prelude::*;

use crate::look::{ground_shade, tree_look, Shade};
use crate::sim::buildings::{BuildingKind, UnderConstruction};
use crate::sim::map::{MapView, Pos, TileMap, TilePos, LEVEL};
use crate::sim::trees::{Tree, MATURE};

verus! {

#[derive(Clone, Copy, PartialEq, Eq, Structural, Debug)]
pub enum Shape {
    Cube,
    Cylinder,
    Sphere,
    Capsule,
}

/// What a part is painted with. There are three greens for leaves.
#[derive(Clone, Copy, PartialEq, Eq, Structural, Debug)]
pub enum Hue {
    Wood,
    WoodDark,
    Plank,
    Stone,
    FlagRed,
    Leaf(u32),
    Soil,
    CarrotTop,
    TankBlue,
    RiverBed,
    Fur,
    FurStarving,
    FurDark,
    Scaffold,
}

/// How a part is turned: not at all, a quarter turn over so that its height runs
/// along the ground, or an eighth turn on edge as a ridged roof.
#[derive(Clone, Copy, PartialEq, Eq, Structural, Debug)]
pub enum Turn {
    Upright,
    Lying,
    Ridge,
}

/// A shape with its middle at a place, stretched to a size.
#[derive(Clone, Copy, PartialEq, Eq, Structural, Debug)]
pub struct Part {
    pub shape: Shape,
    pub hue: Hue,
    pub x: i64,
    pub y: i64,
    pub z: i64,
    pub wide: i64,
    pub high: i64,
    pub deep: i64,
    pub turn: Turn,
}

/// A place and a size, in thousandths of a tile.
pub open spec fn placed(
    shape: Shape,
    hue: Hue,
    at: (int, int, int),
    size: (int, int, int),
    turn: Turn,
) -> Part {
    Part {
        shape,
        hue,
        x: (at.0 * 1000) as i64,
        y: (at.1 * 1000) as i64,
        z: (at.2 * 1000) as i64,
        wide: (size.0 * 1000) as i64,
        high: (size.1 * 1000) as i64,
        deep: (size.2 * 1000) as i64,
        turn,
    }
}

fn put(shape: Shape, hue: Hue, at: (i16, i16, i16), size: (i16, i16, i16), turn: Turn) -> (r: Part)
    ensures
        r == placed(
            shape,
            hue,
            (at.0 as int, at.1 as int, at.2 as int),
            (size.0 as int, size.1 as int, size.2 as int),
            turn,
        ),
{
    Part {
        shape,
        hue,
        x: at.0 as i64 * 1000,
        y: at.1 as i64 * 1000,
        z: at.2 as i64 * 1000,
        wide: size.0 as i64 * 1000,
        high: size.1 as i64 * 1000,
        deep: size.2 as i64 * 1000,
        turn,
    }
}

/// The room that a building takes.
pub open spec fn room(kind: BuildingKind) -> (i64, i64, i64) {
    match kind {
        BuildingKind::Lodge => (900_000, 800_000, 900_000),
        BuildingKind::WaterPump => (500_000, 1_000_000, 500_000),
        BuildingKind::CarrotFarm => (950_000, 180_000, 950_000),
        BuildingKind::Lumberjack => (400_000, 1_000_000, 400_000),
        BuildingKind::Forester => (600_000, 700_000, 600_000),
        BuildingKind::Dam => (1_000_000, 700_000, 800_000),
        BuildingKind::Path => (980_000, 80_000, 980_000),
    }
}

/// The room that a building takes: its width, height and depth.
pub fn building_size(kind: BuildingKind) -> (r: (i64, i64, i64))
    ensures
        r == room(kind),
{
    match kind {
        BuildingKind::Lodge => (900_000, 800_000, 900_000),
        BuildingKind::WaterPump => (500_000, 1_000_000, 500_000),
        BuildingKind::CarrotFarm => (950_000, 180_000, 950_000),
        BuildingKind::Lumberjack => (400_000, 1_000_000, 400_000),
        BuildingKind::Forester => (600_000, 700_000, 600_000),
        BuildingKind::Dam => (1_000_000, 700_000, 800_000),
        BuildingKind::Path => (980_000, 80_000, 980_000),
    }
}

/// The carrots of a farm, in three columns of two, no three heights alike.
pub open spec fn carrot(n: int) -> Part {
    placed(
        Shape::Sphere,
        Hue::CarrotTop,
        (280 * (n / 2 - 1), 130 + 20 * (n % 3), 440 * (n % 2) - 220),
        (160, 130, 160),
        Turn::Upright,
    )
}

/// The parts of a finished building.
pub open spec fn finished(kind: BuildingKind) -> Seq<Part> {
    let up = Turn::Upright;
    match kind {
        BuildingKind::Lodge => seq![
            placed(Shape::Cube, Hue::Wood, (0, 210, 0), (850, 420, 850), up),
            placed(Shape::Cube, Hue::WoodDark, (0, 460, 0), (580, 580, 950), Turn::Ridge),
            placed(Shape::Cube, Hue::FurDark, (0, 130, 440), (200, 260, 40), up),
        ],
        BuildingKind::WaterPump => seq![
            placed(Shape::Cylinder, Hue::TankBlue, (0, 520, 0), (420, 500, 420), up),
            placed(Shape::Cube, Hue::Wood, (-200, 160, 0), (80, 320, 80), up),
            placed(Shape::Cube, Hue::Wood, (200, 160, 0), (80, 320, 80), up),
            placed(Shape::Cube, Hue::WoodDark, (0, 840, 0), (550, 60, 100), up),
        ],
        BuildingKind::CarrotFarm => seq![
            placed(Shape::Cube, Hue::Soil, (0, 50, 0), (920, 100, 920), up),
        ] + Seq::new(6, |n: int| carrot(n)),
        BuildingKind::Lumberjack => seq![
            placed(Shape::Cylinder, Hue::WoodDark, (0, 500, 0), (80, 1000, 80), up),
            placed(Shape::Cube, Hue::FlagRed, (170, 860, 0), (300, 180, 20), up),
            placed(Shape::Cylinder, Hue::Wood, (-140, 70, 0), (140, 500, 140), Turn::Lying),
            placed(Shape::Cylinder, Hue::Wood, (140, 70, 100), (140, 450, 140), Turn::Lying),
        ],
        BuildingKind::Forester => seq![
            placed(Shape::Cylinder, Hue::WoodDark, (0, 200, 0), (100, 400, 100), up),
            placed(Shape::Sphere, Hue::Leaf(1), (0, 500, 0), (460, 420, 460), up),
            placed(Shape::Cube, Hue::Wood, (300, 90, 300), (280, 180, 280), up),
            placed(Shape::Sphere, Hue::Leaf(0), (260, 220, 260), (100, 100, 100), up),
            placed(Shape::Sphere, Hue::Leaf(2), (340, 220, 340), (100, 100, 100), up),
        ],
        BuildingKind::Dam => seq![
            placed(Shape::Cube, Hue::WoodDark, (0, 260, 0), (1000, 520, 700), up),
            placed(Shape::Cube, Hue::Plank, (-300, 300, 0), (140, 620, 740), up),
            placed(Shape::Cube, Hue::Plank, (0, 300, 0), (140, 620, 740), up),
            placed(Shape::Cube, Hue::Plank, (300, 300, 0), (140, 620, 740), up),
            placed(Shape::Cube, Hue::Stone, (0, 600, 0), (1000, 70, 340), up),
        ],
        BuildingKind::Path => seq![
            placed(Shape::Cube, Hue::Stone, (0, 35, 0), (980, 70, 980), up),
            placed(Shape::Cube, Hue::RiverBed, (220, 72, 180), (200, 12, 260), up),
            placed(Shape::Cube, Hue::RiverBed, (-250, 72, -200), (240, 12, 200), up),
        ],
    }
}

/// The finished look of a building, around the middle of its tile.
pub fn building_parts(kind: BuildingKind) -> (r: Vec<Part>)
    ensures
        r@ == finished(kind),
{
    let up = Turn::Upright;
    let r: Vec<Part> = match kind {
        BuildingKind::Lodge => vec![
            put(Shape::Cube, Hue::Wood, (0, 210, 0), (850, 420, 850), up),
            put(Shape::Cube, Hue::WoodDark, (0, 460, 0), (580, 580, 950), Turn::Ridge),
            put(Shape::Cube, Hue::FurDark, (0, 130, 440), (200, 260, 40), up),
        ],
        BuildingKind::WaterPump => vec![
            put(Shape::Cylinder, Hue::TankBlue, (0, 520, 0), (420, 500, 420), up),
            put(Shape::Cube, Hue::Wood, (-200, 160, 0), (80, 320, 80), up),
            put(Shape::Cube, Hue::Wood, (200, 160, 0), (80, 320, 80), up),
            put(Shape::Cube, Hue::WoodDark, (0, 840, 0), (550, 60, 100), up),
        ],
        BuildingKind::CarrotFarm => farm_parts(),
        BuildingKind::Lumberjack => vec![
            put(Shape::Cylinder, Hue::WoodDark, (0, 500, 0), (80, 1000, 80), up),
            put(Shape::Cube, Hue::FlagRed, (170, 860, 0), (300, 180, 20), up),
            put(Shape::Cylinder, Hue::Wood, (-140, 70, 0), (140, 500, 140), Turn::Lying),
            put(Shape::Cylinder, Hue::Wood, (140, 70, 100), (140, 450, 140), Turn::Lying),
        ],
        BuildingKind::Forester => vec![
            put(Shape::Cylinder, Hue::WoodDark, (0, 200, 0), (100, 400, 100), up),
            put(Shape::Sphere, Hue::Leaf(1), (0, 500, 0), (460, 420, 460), up),
            put(Shape::Cube, Hue::Wood, (300, 90, 300), (280, 180, 280), up),
            put(Shape::Sphere, Hue::Leaf(0), (260, 220, 260), (100, 100, 100), up),
            put(Shape::Sphere, Hue::Leaf(2), (340, 220, 340), (100, 100, 100), up),
        ],
        BuildingKind::Dam => vec![
            put(Shape::Cube, Hue::WoodDark, (0, 260, 0), (1000, 520, 700), up),
            put(Shape::Cube, Hue::Plank, (-300, 300, 0), (140, 620, 740), up),
            put(Shape::Cube, Hue::Plank, (0, 300, 0), (140, 620, 740), up),
            put(Shape::Cube, Hue::Plank, (300, 300, 0), (140, 620, 740), up),
            put(Shape::Cube, Hue::Stone, (0, 600, 0), (1000, 70, 340), up),
        ],
        BuildingKind::Path => vec![
            put(Shape::Cube, Hue::Stone, (0, 35, 0), (980, 70, 980), up),
            put(Shape::Cube, Hue::RiverBed, (220, 72, 180), (200, 12, 260), up),
            put(Shape::Cube, Hue::RiverBed, (-250, 72, -200), (240, 12, 200), up),
        ],
    };
    assert(r@ =~= finished(kind));
    r
}

fn farm_parts() -> (r: Vec<Part>)
    ensures
        r@ == finished(BuildingKind::CarrotFarm),
{
    let mut r: Vec<Part> = Vec::new();
    r.push(put(Shape::Cube, Hue::Soil, (0, 50, 0), (920, 100, 920), Turn::Upright));
    let mut n: i16 = 0;
    while n < 6
        invariant
            0 <= n <= 6,
            r@.len() == n + 1,
            forall|k: int|
                0 <= k < n + 1 ==> #[trigger] r@[k] == finished(BuildingKind::CarrotFarm)[k],
        decreases 6 - n,
    {
        r.push(
            put(
                Shape::Sphere,
                Hue::CarrotTop,
                (280 * (n / 2 - 1), 130 + 20 * (n % 3), 440 * (n % 2) - 220),
                (160, 130, 160),
                Turn::Upright,
            ),
        );
        n += 1;
    }
    assert(r@ =~= finished(BuildingKind::CarrotFarm));
    r
}

/// No part of a building reaches over the edge of its tile. (The length of what
/// lies runs from front to back. A ridge is square and stands in the middle, as
/// wide as its diagonal.)
pub proof fn parts_keep_to_their_tile(kind: BuildingKind, i: int)
    requires
        0 <= i < finished(kind).len(),
    ensures
        ({
            let part = finished(kind)[i];
            let reach = if part.turn == Turn::Lying {
                part.high
            } else {
                part.deep
            };
            &&& -1_000_000 <= 2 * part.x - part.wide
            &&& 2 * part.x + part.wide <= 1_000_000
            &&& part.turn == Turn::Ridge ==> part.x == 0 && part.wide == part.high && 2 * (part.wide
                * part.wide) <= 1_000_000 * 1_000_000
            &&& -1_000_000 <= 2 * part.z - reach
            &&& 2 * part.z + reach <= 1_000_000
        }),
{
    if kind == BuildingKind::CarrotFarm && i > 0 {
        assert(finished(kind)[i] == carrot(i - 1));
    }
    if kind == BuildingKind::Lodge && i == 1 {
        let wide = finished(kind)[i].wide as int;
        assert(2 * (wide * wide) <= 1_000_000 * 1_000_000) by (nonlinear_arith)
            requires
                wide == 580_000,
        ;
    }
}

/// How high the scaffold of a building of this height stands: as far as the work
/// is, in full where none is left, and never quite flat.
pub open spec fn scaffold_height(height: i64, site: Option<UnderConstruction>) -> int {
    let risen = match site {
        Some(site) if site.done < site.required => height * site.done / site.required as int,
        _ => height as int,
    };
    if risen < 50_000 {
        50_000
    } else {
        risen
    }
}

/// The scaffold of a building.
pub fn scaffold(kind: BuildingKind, site: Option<UnderConstruction>) -> (r: Part)
    ensures
        r == ({
            let (wide, high, deep) = room(kind);
            let h = scaffold_height(high, site);
            Part {
                shape: Shape::Cube,
                hue: Hue::Scaffold,
                x: 0,
                y: (h / 2) as i64,
                z: 0,
                wide: (wide as int * 4 / 5) as i64,
                high: h as i64,
                deep: (deep as int * 4 / 5) as i64,
                turn: Turn::Upright,
            }
        }),
{
    let (wide, high, deep) = building_size(kind);
    let risen: i64 = match site {
        Some(site) => if site.done < site.required {
            let part: i128 = high as i128 * site.done as i128;
            proof {
                let h = high as int;
                let d = site.done as int;
                let q = site.required as int;
                assert(0 <= h * d <= h * q) by (nonlinear_arith)
                    requires
                        0 <= h,
                        0 <= d <= q,
                ;
                assert(h * d <= 1_000_000 * 0xffff_ffff_ffff_ffff) by (nonlinear_arith)
                    requires
                        0 <= h <= 1_000_000,
                        0 <= d <= 0xffff_ffff_ffff_ffff,
                ;
                assert(0 <= (h * d) / q <= h) by (nonlinear_arith)
                    requires
                        0 <= h * d <= h * q,
                        0 < q,
                ;
            }
            (part / site.required as i128) as i64
        } else {
            high
        },
        None => high,
    };
    let height: i64 = if risen < 50_000 {
        50_000
    } else {
        risen
    };
    Part {
        shape: Shape::Cube,
        hue: Hue::Scaffold,
        x: 0,
        y: height / 2,
        z: 0,
        wide: wide * 4 / 5,
        high: height,
        deep: deep * 4 / 5,
        turn: Turn::Upright,
    }
}

/// A scaffold grows with the work and never beyond the building.
pub proof fn scaffolds_grow(height: i64, a: UnderConstruction, b: UnderConstruction)
    requires
        50_000 <= height,
        a.done <= b.done,
        a.required == b.required,
    ensures
        50_000 <= scaffold_height(height, Some(a)) <= scaffold_height(height, Some(b))
            <= scaffold_height(height, None) == height,
{
    let h = height as int;
    let q = a.required as int;
    let da = a.done as int;
    let db = b.done as int;
    if da < q {
        assert(0 <= (h * da) / q <= h) by (nonlinear_arith)
            requires
                0 <= h,
                0 <= da < q,
        ;
    }
    if db < q {
        assert((h * da) / q <= (h * db) / q <= h) by (nonlinear_arith)
            requires
                0 <= h,
                0 <= da <= db < q,
        ;
    }
}

/// The log that lies beside a site.
pub fn site_log() -> (r: Part)
    ensures
        r == placed(
            Shape::Cylinder,
            Hue::Wood,
            (380, 60, 300),
            (120, 450, 120),
            Turn::Lying,
        ),
{
    put(Shape::Cylinder, Hue::Wood, (380, 60, 300), (120, 450, 120), Turn::Lying)
}

/// A trunk, and two spheres of leaves in one of three greens.
pub fn tree_parts(tile: TilePos) -> (r: Vec<Part>)
    ensures
        ({
            let leaf = Hue::Leaf(((tile.x * 7 + tile.y * 13) % 3) as u32);
            let up = Turn::Upright;
            r@ == seq![
                placed(Shape::Cylinder, Hue::WoodDark, (0, 250, 0), (160, 500, 160), up),
                placed(Shape::Sphere, leaf, (0, 580, 0), (620, 560, 620), up),
                placed(Shape::Sphere, leaf, (100, 820, 40), (380, 380, 380), up),
            ]
        }),
{
    let leaf = Hue::Leaf(tree_look(tile).leaf);
    let up = Turn::Upright;
    vec![
        put(Shape::Cylinder, Hue::WoodDark, (0, 250, 0), (160, 500, 160), up),
        put(Shape::Sphere, leaf, (0, 580, 0), (620, 560, 620), up),
        put(Shape::Sphere, leaf, (100, 820, 40), (380, 380, 380), up),
    ]
}

/// The size of a tree, in millionths: a quarter of that of a grown one at first,
/// and not the same for all.
pub fn tree_scale(tree: &Tree) -> (r: u64)
    requires
        tree.growth <= MATURE,
    ensures
        r == (250_000 + 750_000 * tree.growth / MATURE as int) * (88 + crate::look::tile_hash(
            tree.tile,
        ) % 25) / 100,
{
    let look = tree_look(tree.tile);
    let grown: u64 = 250_000 + 750_000 * tree.growth / MATURE;
    proof {
        let g = grown as int;
        let s = look.size as int;
        assert(0 <= g * s <= 1_000_000 * 112) by (nonlinear_arith)
            requires
                0 <= g <= 1_000_000,
                0 <= s <= 112,
        ;
    }
    grown * look.size as u64 / 100
}

/// A body, a head and a flat tail.
pub fn beaver_parts(starving: bool) -> (r: Vec<Part>)
    ensures
        ({
            let fur = if starving {
                Hue::FurStarving
            } else {
                Hue::Fur
            };
            r@ == seq![
                placed(Shape::Capsule, fur, (0, 150, 0), (260, 300, 240), Turn::Lying),
                placed(Shape::Sphere, fur, (0, 220, 200), (180, 180, 180), Turn::Upright),
                placed(Shape::Cube, Hue::FurDark, (0, 70, -260), (140, 40, 200), Turn::Upright),
            ]
        }),
{
    let fur = if starving {
        Hue::FurStarving
    } else {
        Hue::Fur
    };
    vec![
        put(Shape::Capsule, fur, (0, 150, 0), (260, 300, 240), Turn::Lying),
        put(Shape::Sphere, fur, (0, 220, 200), (180, 180, 180), Turn::Upright),
        put(Shape::Cube, Hue::FurDark, (0, 70, -260), (140, 40, 200), Turn::Upright),
    ]
}

/// The block of ground of a tile.
#[derive(Clone, Copy, PartialEq, Eq, Structural, Debug)]
pub struct Block {
    pub tile: TilePos,
    pub shade: Shade,
    /// Where its middle is.
    pub x: i64,
    pub z: i64,
    /// The level of the ground.
    pub ground: i32,
    /// The height of the block, which never is flat.
    pub height: i64,
    /// Does it bear grass, whose shade follows irrigation?
    pub grassy: bool,
}

impl MapView {
    /// The block of the `i`th tile.
    pub open spec fn block(self, i: int) -> Block {
        let t = TilePos {
            x: (i % (self.width as int)) as u32,
            y: (i / (self.width as int)) as u32,
        };
        let top = self.ground[i] * LEVEL;
        Block {
            tile: t,
            shade: if self.ground[i] == 0 {
                Shade::RiverBed
            } else if crate::look::darker(t) {
                Shade::GrassAlt
            } else {
                Shade::Grass
            },
            x: self.center(t).x,
            z: self.center(t).z,
            ground: self.ground[i],
            height: if top < 120_000 {
                120_000
            } else {
                top as i64
            },
            grassy: self.ground[i] > 0,
        }
    }
}

/// The ground of a map, row by row.
pub fn terrain(map: &TileMap) -> (r: Vec<Block>)
    requires
        map.wf(),
    ensures
        r@ == Seq::new(map@.size() as nat, |i: int| map@.block(i)),
{
    let mut r: Vec<Block> = Vec::new();
    let n: usize = map.ground.len();
    let mut i: usize = 0;
    while i < n
        invariant
            map.wf(),
            n == map@.size(),
            i <= n,
            r@ =~= Seq::new(i as nat, |k: int| map@.block(k)),
        decreases n - i,
    {
        proof {
            crate::sim::map::places_have_tiles(map.width, map.height, i as int);
        }
        let tile = TilePos {
            x: (i as u64 % map.width as u64) as u32,
            y: (i as u64 / map.width as u64) as u32,
        };
        let center = map.tile_center(tile.x, tile.y);
        let ground: i32 = map.ground[i];
        let top: i64 = ground as i64 * LEVEL;
        r.push(
            Block {
                tile,
                shade: ground_shade(ground, tile),
                x: center.x,
                z: center.z,
                ground,
                height: if top < 120_000 {
                    120_000
                } else {
                    top
                },
                grassy: ground > 0,
            },
        );
        i += 1;
    }
    r
}

/// The block of water of this depth over ground of this level: where its middle
/// is, and how high it is, which is never nothing.
pub fn water_box(ground: i32, depth: u64) -> (r: (i64, i64))
    ensures
        r.0 == ground * LEVEL + depth as int / 2 / 2,
        r.1 == if depth as int / 2 < 1_000 {
            1_000
        } else {
            depth as int / 2
        },
{
    let height: i64 = (depth / 2) as i64;
    (
        ground as i64 * LEVEL + height / 2,
        if height < 1_000 {
            1_000
        } else {
            height
        },
    )
}

/// Where the preview of a building hovers: with its foot on the tile.
pub fn preview_middle(map: &TileMap, kind: BuildingKind, tile: TilePos) -> (r: Pos)
    requires
        map.wf(),
        map@.holds(tile),
    ensures
        r == (Pos {
            y: (map@.center(tile).y + room(kind).1 as int / 2) as i64,
            ..map@.center(tile)
        }),
{
    let base = map.tile_center(tile.x, tile.y);
    Pos { y: base.y + building_size(kind).1 / 2, ..base }
}

} // verus!
