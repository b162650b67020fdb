//! The camera of the introduction: what it looks at, and for how long.
use vstd::prelude::*;

use crate::sim::buildings::{BuildingKind, BuildingRow};
use crate::sim::map::{MapView, TileMap, TilePos};
use crate::sim::sites::first_kind;

verus! {

/// How long a shot lasts, in microseconds.
pub const SHOT_TIME: u64 = 9_000_000;

/// How far the camera is in its shot, and how many there have been.
#[derive(Clone, Copy, PartialEq, Eq, Structural, Debug)]
pub struct Cinematic {
    pub t: u64,
    pub duration: u64,
    pub shot: u64,
}

impl Cinematic {
    /// A camera that is about to take its first shot.
    pub fn new() -> (r: Cinematic)
        ensures
            r == (Cinematic { t: 0, duration: 10_000, shot: 0 }),
    {
        Cinematic { t: 0, duration: 10_000, shot: 0 }
    }

    /// The camera after `dt` microseconds: in its shot still, or in the next one.
    pub open spec fn turned(self, dt: u32) -> Cinematic {
        if self.t + dt < self.duration {
            Cinematic { t: (self.t + dt) as u64, ..self }
        } else {
            Cinematic { t: 0, duration: SHOT_TIME, shot: (self.shot + 1) as u64 }
        }
    }

    /// Let `dt` microseconds pass. The answer is whether a new shot begins.
    pub fn advance(&mut self, dt: u32) -> (cut: bool)
        requires
            old(self).t + dt <= u64::MAX,
            old(self).shot < u64::MAX,
        ensures
            *final(self) == old(self).turned(dt),
            cut == (old(self).t + dt >= old(self).duration),
            *final(self) == if cut {
                Cinematic { t: 0, duration: SHOT_TIME, shot: (old(self).shot + 1) as u64 }
            } else {
                Cinematic { t: (old(self).t + dt) as u64, ..*old(self) }
            },
    {
        self.t = self.t + dt as u64;
        if self.t >= self.duration {
            self.t = 0;
            self.duration = SHOT_TIME;
            self.shot = self.shot + 1;
            true
        } else {
            false
        }
    }

    /// Is the shot a wide one?
    pub fn is_wide(&self) -> (r: bool)
        ensures
            r == (self.shot % 4 == 3),
    {
        self.shot % 4 == 3
    }
}

impl MapView {
    /// The first tile where the river enters, among the first `n`.
    pub open spec fn inlet(self, n: nat) -> Option<TilePos>
        decreases n,
    {
        if n == 0 {
            None
        } else {
            match self.inlet((n - 1) as nat) {
                Some(t) => Some(t),
                None => if self.source[n - 1] {
                    Some(self.tile_of(n - 1))
                } else {
                    None
                },
            }
        }
    }

    /// What a shot looks at, in turn: the newest building, a dam, where the
    /// river enters, and the colony as a whole. Where there is no such thing it
    /// is the middle of the map.
    pub open spec fn interest(
        self,
        shot: u64,
        last_built: Option<TilePos>,
        rows: Seq<BuildingRow>,
    ) -> TilePos {
        let found = if shot % 4 == 0 {
            last_built
        } else if shot % 4 == 1 {
            crate::sim::sites::first_of(rows, BuildingKind::Dam)
        } else if shot % 4 == 2 {
            self.inlet(self.size() as nat)
        } else {
            None
        };
        match found {
            Some(t) => t,
            None => self.middle(),
        }
    }
}

proof fn inlet_stays(map: MapView, n: nat, m: nat)
    requires
        map.inlet(n) is Some,
        n <= m,
    ensures
        map.inlet(m) == map.inlet(n),
    decreases m,
{
    if n < m {
        inlet_stays(map, n, (m - 1) as nat);
    }
}

fn find_inlet(map: &TileMap) -> (r: Option<TilePos>)
    requires
        map.wf(),
    ensures
        r == map@.inlet(map@.size() as nat),
{
    let n: usize = map.source.len();
    let mut i: usize = 0;
    while i < n
        invariant
            map.wf(),
            n == map@.size(),
            i <= n,
            map@.inlet(i as nat) is None,
        decreases n - i,
    {
        if map.source[i] {
            proof {
                crate::sim::map::places_have_tiles(map.width, map.height, i as int);
                inlet_stays(map@, i as nat + 1, n as nat);
            }
            return Some(TilePos { x: i as u32 % map.width, y: i as u32 / map.width });
        }
        i += 1;
    }
    None
}

/// What a shot looks at.
pub fn point_of_interest(
    map: &TileMap,
    shot: u64,
    last_built: Option<TilePos>,
    rows: &Vec<BuildingRow>,
) -> (r: TilePos)
    requires
        map.wf(),
    ensures
        r == map@.interest(shot, last_built, rows@),
{
    let found = if shot % 4 == 0 {
        last_built
    } else if shot % 4 == 1 {
        first_kind(rows, BuildingKind::Dam)
    } else if shot % 4 == 2 {
        find_inlet(map)
    } else {
        None
    };
    match found {
        Some(t) => t,
        None => TilePos { x: map.width / 2, y: map.height / 2 },
    }
}

} // verus!
