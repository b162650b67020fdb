//! How things look, as far as that is a matter of numbers: which tiles have to
//! be drawn anew, which shade they have, and how one tree differs from another.
use vstd::prelude::*;

use crate::sim::map::{MapView, TileMap, TilePos};

verus! {

/// A change of depth up to this, in millionths of a level, is not shown.
pub const FINE: u64 = 10_000;

/// Water up to this depth, in millionths of a level, is not shown.
pub const FILM: u64 = 20_000;

/// What is shown of the tiles: the depth of the water, and whether they are
/// irrigated. Showing is what costs, so that tiles are written only when they
/// change in a way that matters.
pub struct TileStates {
    pub depth: Vec<u64>,
    pub irrigated: Vec<bool>,
}

/// Does the depth shown have to follow the depth there is? It does when they
/// are clearly apart, and when the tile has run dry.
pub open spec fn depth_moved(shown: u64, depth: u64) -> bool {
    ||| shown - depth > FINE
    ||| depth - shown > FINE
    ||| shown != 0 && depth == 0
}

/// The places up to `n` where the depth has to follow.
pub open spec fn moved_upto(shown: Seq<u64>, depth: Seq<u64>, n: nat) -> Seq<usize>
    decreases n,
{
    if n == 0 {
        seq![]
    } else {
        let before = moved_upto(shown, depth, (n - 1) as nat);
        if depth_moved(shown[n - 1], depth[n - 1]) {
            before.push((n - 1) as usize)
        } else {
            before
        }
    }
}

/// The places up to `n` where irrigation has changed.
pub open spec fn flipped_upto(shown: Seq<bool>, now: Seq<bool>, n: nat) -> Seq<usize>
    decreases n,
{
    if n == 0 {
        seq![]
    } else {
        let before = flipped_upto(shown, now, (n - 1) as nat);
        if shown[n - 1] != now[n - 1] {
            before.push((n - 1) as usize)
        } else {
            before
        }
    }
}

/// The depths shown once they have followed.
pub open spec fn followed(shown: Seq<u64>, depth: Seq<u64>) -> Seq<u64> {
    Seq::new(
        shown.len(),
        |i: int|
            if depth_moved(shown[i], depth[i]) {
                depth[i]
            } else {
                shown[i]
            },
    )
}

impl TileStates {
    pub open spec fn fits(&self, map: MapView) -> bool {
        self.depth@.len() == map.size() && self.irrigated@.len() == map.size()
    }

    /// What is shown at first: dry land, without water.
    pub fn new(tiles: usize) -> (r: TileStates)
        ensures
            r.depth@ == Seq::new(tiles as nat, |i: int| 0u64),
            r.irrigated@ == Seq::new(tiles as nat, |i: int| false),
    {
        let depth = vec![0u64; tiles];
        let irrigated = vec![false; tiles];
        assert(depth@ =~= Seq::new(tiles as nat, |i: int| 0u64));
        assert(irrigated@ =~= Seq::new(tiles as nat, |i: int| false));
        TileStates { depth, irrigated }
    }

    /// Let what is shown follow the map. Gives back the tiles whose water, and
    /// those whose ground, is to be drawn anew.
    pub fn mirror_tile_state(&mut self, map: &TileMap) -> (r: (Vec<usize>, Vec<usize>))
        requires
            map.wf(),
            old(self).fits(map@),
        ensures
            final(self).fits(map@),
            final(self).depth@ == followed(old(self).depth@, map@.water),
            final(self).irrigated@ == map@.irrigated,
            r.0@ == moved_upto(old(self).depth@, map@.water, map@.size() as nat),
            r.1@ == flipped_upto(old(self).irrigated@, map@.irrigated, map@.size() as nat),
    {
        let ghost shown = self.depth@;
        let ghost green = self.irrigated@;
        let mut moved: Vec<usize> = Vec::new();
        let mut flipped: Vec<usize> = Vec::new();
        let n: usize = map.water.len();
        let mut i: usize = 0;
        while i < n
            invariant
                map.wf(),
                n == map@.size(),
                shown.len() == n,
                green.len() == n,
                i <= n,
                self.depth@.len() == n,
                self.irrigated@.len() == n,
                forall|k: int|
                    0 <= k < i ==> #[trigger] self.depth@[k] == followed(shown, map@.water)[k],
                forall|k: int| i <= k < n ==> #[trigger] self.depth@[k] == shown[k],
                forall|k: int| 0 <= k < i ==> #[trigger] self.irrigated@[k] == map@.irrigated[k],
                forall|k: int| i <= k < n ==> #[trigger] self.irrigated@[k] == green[k],
                moved@ == moved_upto(shown, map@.water, i as nat),
                flipped@ == flipped_upto(green, map@.irrigated, i as nat),
            decreases n - i,
        {
            let old_depth: u64 = self.depth[i];
            let depth: u64 = map.water[i];
            let apart: u64 = if old_depth > depth {
                old_depth - depth
            } else {
                depth - old_depth
            };
            if apart > FINE || (old_depth != 0 && depth == 0) {
                self.depth.set(i, depth);
                moved.push(i);
            }
            if self.irrigated[i] != map.irrigated[i] {
                self.irrigated.set(i, map.irrigated[i]);
                flipped.push(i);
            }
            i += 1;
        }
        assert(self.depth@ =~= followed(shown, map@.water));
        assert(self.irrigated@ =~= map@.irrigated);
        (moved, flipped)
    }
}

/// What is shown is true, but for differences too fine to see; and a dry tile
/// is shown dry.
pub proof fn mirrors_are_true(shown: Seq<u64>, depth: Seq<u64>, i: int)
    requires
        shown.len() == depth.len(),
        0 <= i < depth.len(),
    ensures
        ({
            let now = followed(shown, depth)[i];
            &&& now - depth[i] <= FINE
            &&& depth[i] - now <= FINE
            &&& depth[i] == 0 ==> now == 0
        }),
{
}

/// While the map stands still nothing is drawn anew.
pub proof fn still_maps_are_not_redrawn(shown: Seq<u64>, depth: Seq<u64>, green: Seq<bool>, n: nat)
    requires
        shown.len() == depth.len(),
        n <= depth.len(),
        n <= green.len(),
    ensures
        moved_upto(followed(shown, depth), depth, n).len() == 0,
        flipped_upto(green, green, n).len() == 0,
    decreases n,
{
    if n > 0 {
        still_maps_are_not_redrawn(shown, depth, green, (n - 1) as nat);
    }
}

/// Is water of this depth shown at all?
pub fn water_shows(depth: u64) -> (r: bool)
    ensures
        r == (depth > FILM),
{
    depth > FILM
}

/// The shade of a tile.
#[derive(Clone, Copy, PartialEq, Eq, Structural, Debug)]
pub enum Shade {
    Grass,
    GrassAlt,
    Dry,
    DryAlt,
    RiverBed,
}

/// Is it one of the darker tiles of the chequered pattern?
pub open spec fn darker(t: TilePos) -> bool {
    (t.x + t.y) % 2 == 1
}

fn is_darker(t: TilePos) -> (r: bool)
    ensures
        r == darker(t),
{
    (t.x as u64 + t.y as u64) % 2 == 1
}

/// The shade of grass: green where it is irrigated, and in two tones, which
/// stay as they are when it dries out.
pub fn grass_shade(irrigated: bool, t: TilePos) -> (r: Shade)
    ensures
        r == match (irrigated, darker(t)) {
            (true, false) => Shade::Grass,
            (true, true) => Shade::GrassAlt,
            (false, false) => Shade::Dry,
            (false, true) => Shade::DryAlt,
        },
{
    let alt = is_darker(t);
    if irrigated {
        if alt {
            Shade::GrassAlt
        } else {
            Shade::Grass
        }
    } else if alt {
        Shade::DryAlt
    } else {
        Shade::Dry
    }
}

/// The shade of ground that is new: the river bed is bare, all else is green.
pub fn ground_shade(ground: i32, t: TilePos) -> (r: Shade)
    ensures
        r == if ground == 0 {
            Shade::RiverBed
        } else if darker(t) {
            Shade::GrassAlt
        } else {
            Shade::Grass
        },
{
    if ground == 0 {
        Shade::RiverBed
    } else if is_darker(t) {
        Shade::GrassAlt
    } else {
        Shade::Grass
    }
}

/// What makes a tree look unlike the next: its turn in hundredths of a radian,
/// its size in hundredths, and which of three greens its leaves have.
#[derive(Clone, Copy, PartialEq, Eq, Structural, Debug)]
pub struct TreeLook {
    pub turn: u32,
    pub size: u32,
    pub leaf: u32,
}

/// A number made of a tile, the same at every time.
pub open spec fn tile_hash(t: TilePos) -> int {
    (t.x * 31 + t.y * 17) % 0x1_0000_0000
}

/// The look of the tree on a tile.
pub fn tree_look(t: TilePos) -> (r: TreeLook)
    ensures
        r.turn == tile_hash(t) % 628,
        r.size == 88 + tile_hash(t) % 25,
        r.leaf == (t.x * 7 + t.y * 13) % 3,
{
    let hash: u64 = (t.x as u64 * 31 + t.y as u64 * 17) % 0x1_0000_0000;
    TreeLook {
        turn: (hash % 628) as u32,
        size: 88 + (hash % 25) as u32,
        leaf: ((t.x as u64 * 7 + t.y as u64 * 13) % 3) as u32,
    }
}

} // verus!
