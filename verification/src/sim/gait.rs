//! How far and where to a walking beaver gets, told by lengths and directions.
use vstd::prelude::*;

use crate::sim::beavers::{BeaverRow, BeaverState, ComputedPath, JobRow};
use crate::sim::buildings::{BuildingKind, BuildingRow};
use crate::sim::map::{MapView, Pos, TilePos};

verus! {

/// The part of a way that is taken falls short of the exact part by less than
/// one, on either side of nothing.
proof fn parts_are_close(d: int, len: int, whole: int)
    requires
        0 <= len <= whole,
        0 < whole,
    ensures
        ({
            let p = crate::sim::walking::part_of(d, len, whole);
            &&& d >= 0 ==> 0 <= p && p * whole <= d * len < (p + 1) * whole
            &&& d < 0 ==> p <= 0 && (-p) * whole <= (-d) * len < (-p + 1) * whole
        }),
{
    let a = if d >= 0 {
        d
    } else {
        -d
    };
    let q = a * len / whole;
    assert(0 <= q && q * whole <= a * len < (q + 1) * whole) by (nonlinear_arith)
        requires
            q == a * len / whole,
            0 <= a,
            0 <= len,
            0 < whole,
    ;
}

/// A step of `len` along a way of length `way`, its two sides rounded towards
/// nothing, is longer than `len` by less than one.
proof fn parts_are_not_long(a: int, b: int, x: int, z: int, len: int, way: int)
    requires
        0 <= a,
        0 <= b,
        0 <= x,
        0 <= z,
        0 <= len <= way,
        0 < way,
        x * x + z * z < (way + 1) * (way + 1),
        a * way <= x * len,
        b * way <= z * len,
    ensures
        a * a + b * b <= (len + 1) * (len + 1),
{
    let aw = a * way;
    let bw = b * way;
    let xl = x * len;
    let zl = z * len;
    assert(0 <= aw && 0 <= bw) by (nonlinear_arith)
        requires
            0 <= a,
            0 <= b,
            0 < way,
            aw == a * way,
            bw == b * way,
    ;
    assert(aw * aw <= xl * xl) by (nonlinear_arith)
        requires
            0 <= aw <= xl,
    ;
    assert(bw * bw <= zl * zl) by (nonlinear_arith)
        requires
            0 <= bw <= zl,
    ;
    let ss = a * a + b * b;
    let ww = way * way;
    assert(aw * aw + bw * bw == ss * ww) by (nonlinear_arith)
        requires
            aw == a * way,
            bw == b * way,
            ss == a * a + b * b,
            ww == way * way,
    ;
    let dd = x * x + z * z;
    assert(xl * xl + zl * zl == dd * (len * len)) by (nonlinear_arith)
        requires
            xl == x * len,
            zl == z * len,
            dd == x * x + z * z,
    ;
    let up = (way + 1) * (way + 1);
    assert(dd * (len * len) <= up * (len * len)) by (nonlinear_arith)
        requires
            dd < up,
            0 <= len,
    ;
    let p = (way + 1) * len;
    let q = way * (len + 1);
    assert(0 <= p <= q) by (nonlinear_arith)
        requires
            p == (way + 1) * len,
            q == way * (len + 1),
            0 <= len <= way,
    ;
    assert(up * (len * len) == p * p) by (nonlinear_arith)
        requires
            p == (way + 1) * len,
            up == (way + 1) * (way + 1),
    ;
    assert(p * p <= q * q) by (nonlinear_arith)
        requires
            0 <= p <= q,
    ;
    let ll = (len + 1) * (len + 1);
    assert(q * q == ll * ww) by (nonlinear_arith)
        requires
            q == way * (len + 1),
            ll == (len + 1) * (len + 1),
            ww == way * way,
    ;
    assert(ss <= ll) by (nonlinear_arith)
        requires
            ss * ww <= ll * ww,
            ww == way * way,
            0 < way,
    ;
}

/// And it is shorter than `len` by less than two.
proof fn parts_are_not_short(a: int, b: int, x: int, z: int, len: int, way: int)
    requires
        0 <= a,
        0 <= b,
        0 <= x,
        0 <= z,
        2 <= len <= way,
        x * x + z * z >= way * way,
        x * len < (a + 1) * way,
        z * len < (b + 1) * way,
    ensures
        a * a + b * b >= (len - 2) * (len - 2),
{
    let aw = (a + 1) * way;
    let bw = (b + 1) * way;
    let xl = x * len;
    let zl = z * len;
    assert(0 <= xl && 0 <= zl) by (nonlinear_arith)
        requires
            0 <= x,
            0 <= z,
            0 <= len,
            xl == x * len,
            zl == z * len,
    ;
    assert(xl * xl <= aw * aw) by (nonlinear_arith)
        requires
            0 <= xl <= aw,
    ;
    assert(zl * zl <= bw * bw) by (nonlinear_arith)
        requires
            0 <= zl <= bw,
    ;
    let dd = x * x + z * z;
    let ww = way * way;
    let ll = len * len;
    let ss = (a + 1) * (a + 1) + (b + 1) * (b + 1);
    assert(xl * xl + zl * zl == dd * ll) by (nonlinear_arith)
        requires
            xl == x * len,
            zl == z * len,
            dd == x * x + z * z,
            ll == len * len,
    ;
    assert(aw * aw + bw * bw == ss * ww) by (nonlinear_arith)
        requires
            aw == (a + 1) * way,
            bw == (b + 1) * way,
            ss == (a + 1) * (a + 1) + (b + 1) * (b + 1),
            ww == way * way,
    ;
    assert(ww * ll <= dd * ll) by (nonlinear_arith)
        requires
            ww <= dd,
            ll == len * len,
    ;
    assert(ll <= ss) by (nonlinear_arith)
        requires
            ww * ll <= ss * ww,
            ww == way * way,
            0 < way,
    ;
    let q = len - 2;
    if a * a + b * b < q * q {
        assert(2 * (a + b) <= 3 * q) by (nonlinear_arith)
            requires
                a * a + b * b < q * q,
                0 <= a,
                0 <= b,
                0 <= q,
        {
            assert((a - b) * (a - b) >= 0);
            assert((a + b) * (a + b) <= 2 * (a * a + b * b));
            assert(4 * ((a + b) * (a + b)) <= 9 * (q * q));
            assert((2 * (a + b)) * (2 * (a + b)) <= (3 * q) * (3 * q));
        }
        assert(ss == a * a + b * b + 2 * (a + b) + 2) by (nonlinear_arith)
            requires
                ss == (a + 1) * (a + 1) + (b + 1) * (b + 1),
        ;
        assert(ll == q * q + 4 * q + 4) by (nonlinear_arith)
            requires
                ll == len * len,
                q == len - 2,
        ;
    }
}

/// A step has the length that the pace gives, in whatever direction it leads:
/// the distance between the old and the new position is the reach, up to two
/// millionths for rounding. Where the waypoint or the target is nearer than
/// that, it is the distance to the nearer of them. `len` is the whole number
/// that this length is rounded down to.
pub proof fn steps_have_the_length_of_the_pace(
    pos: Pos,
    waypoint: Pos,
    target: Pos,
    reach: int,
    height: int,
    len: int,
)
    requires
        pos.walkable(),
        waypoint.walkable(),
        target.walkable(),
        2 <= len <= reach,
        ({
            let way = (waypoint.x - pos.x) * (waypoint.x - pos.x) + (waypoint.z - pos.z) * (
            waypoint.z - pos.z);
            let left = (target.x - pos.x) * (target.x - pos.x) + (target.z - pos.z) * (target.z
                - pos.z);
            &&& len * len <= way && len * len <= left
            &&& len == reach || (len + 1) * (len + 1) > way || (len + 1) * (len + 1) > left
        }),
    ensures
        ({
            let next = crate::sim::walking::stepped_to(pos, waypoint, target, reach, height);
            let gone = (next.x - pos.x) * (next.x - pos.x) + (next.z - pos.z) * (next.z - pos.z);
            (len - 2) * (len - 2) <= gone <= (len + 2) * (len + 2)
        }),
{
    let dx = waypoint.x - pos.x;
    let dz = waypoint.z - pos.z;
    let tx = target.x - pos.x;
    let tz = target.z - pos.z;
    assert(dx * dx >= 0) by (nonlinear_arith);
    assert(dz * dz >= 0) by (nonlinear_arith);
    assert(tx * tx >= 0) by (nonlinear_arith);
    assert(tz * tz >= 0) by (nonlinear_arith);
    let d = crate::sim::walking::flat(waypoint, pos);
    let t = crate::sim::walking::flat(target, pos);
    crate::sim::walking::root_exists(d);
    crate::sim::walking::root_exists(t);
    let way = crate::sim::walking::root(d);
    let left = crate::sim::walking::root(t);
    roots_bound(d, way, len);
    roots_bound(t, left, len);
    let x = if dx >= 0 {
        dx
    } else {
        -dx
    };
    let z = if dz >= 0 {
        dz
    } else {
        -dz
    };
    assert(x * x == dx * dx) by (nonlinear_arith)
        requires
            x == dx || x == -dx,
    ;
    assert(z * z == dz * dz) by (nonlinear_arith)
        requires
            z == dz || z == -dz,
    ;
    let px = crate::sim::walking::part_of(dx, len, way);
    let pz = crate::sim::walking::part_of(dz, len, way);
    parts_are_close(dx, len, way);
    parts_are_close(dz, len, way);
    crate::sim::walking::parts_are_parts(dx, len, way);
    crate::sim::walking::parts_are_parts(dz, len, way);
    let a = if px >= 0 {
        px
    } else {
        -px
    };
    let b = if pz >= 0 {
        pz
    } else {
        -pz
    };
    assert(a * a == px * px) by (nonlinear_arith)
        requires
            a == px || a == -px,
    ;
    assert(b * b == pz * pz) by (nonlinear_arith)
        requires
            b == pz || b == -pz,
    ;
    parts_are_not_long(a, b, x, z, len, way);
    parts_are_not_short(a, b, x, z, len, way);
    assert((len + 1) * (len + 1) <= (len + 2) * (len + 2)) by (nonlinear_arith)
        requires
            0 <= len,
    ;
    let next = crate::sim::walking::stepped_to(pos, waypoint, target, reach, height);
    assert(next.x - pos.x == px);
    assert(next.z - pos.z == pz);
}

proof fn roots_bound(n: int, r: int, len: int)
    requires
        crate::sim::walking::is_root(n, r),
        0 <= len,
        len * len <= n,
    ensures
        len <= r,
        (len + 1) * (len + 1) > n ==> r == len,
{
    assert(len <= r) by (nonlinear_arith)
        requires
            len * len <= n,
            n < (r + 1) * (r + 1),
            0 <= len,
            0 <= r,
    ;
    if (len + 1) * (len + 1) > n && r > len {
        assert((len + 1) * (len + 1) <= r * r) by (nonlinear_arith)
            requires
                r >= len + 1,
                0 <= len,
        ;
    }
}

/// A waypoint within reach, and no farther than the target, is reached.
pub proof fn near_waypoints_are_reached(
    pos: Pos,
    waypoint: Pos,
    target: Pos,
    reach: int,
    height: int,
)
    requires
        pos.walkable(),
        waypoint.walkable(),
        target.walkable(),
        0 <= reach,
        ({
            let way = (waypoint.x - pos.x) * (waypoint.x - pos.x) + (waypoint.z - pos.z) * (
            waypoint.z - pos.z);
            let left = (target.x - pos.x) * (target.x - pos.x) + (target.z - pos.z) * (target.z
                - pos.z);
            way <= reach * reach && way <= left
        }),
    ensures
        ({
            let next = crate::sim::walking::stepped_to(pos, waypoint, target, reach, height);
            next.x == waypoint.x && next.z == waypoint.z
        }),
{
    let dx = waypoint.x - pos.x;
    let dz = waypoint.z - pos.z;
    let tx = target.x - pos.x;
    let tz = target.z - pos.z;
    assert(dx * dx >= 0) by (nonlinear_arith);
    assert(dz * dz >= 0) by (nonlinear_arith);
    assert(tx * tx >= 0) by (nonlinear_arith);
    assert(tz * tz >= 0) by (nonlinear_arith);
    let d = crate::sim::walking::flat(waypoint, pos);
    let t = crate::sim::walking::flat(target, pos);
    crate::sim::walking::root_exists(d);
    crate::sim::walking::root_exists(t);
    let way = crate::sim::walking::root(d);
    let left = crate::sim::walking::root(t);
    assert(way <= left) by (nonlinear_arith)
        requires
            way * way <= d,
            d <= t,
            t < (left + 1) * (left + 1),
            0 <= way,
            0 <= left,
    ;
    assert(way <= reach) by (nonlinear_arith)
        requires
            way * way <= d,
            d <= reach * reach,
            0 <= way,
            0 <= reach,
    ;
    if way == 0 {
        assert(d == 0) by (nonlinear_arith)
            requires
                d < (way + 1) * (way + 1),
                way == 0,
                d >= 0,
        ;
        assert(dx == 0 && dz == 0) by (nonlinear_arith)
            requires
                dx * dx + dz * dz == 0,
        ;
    } else {
        assert(dx >= 0 ==> dx * way / way == dx) by (nonlinear_arith)
            requires
                way > 0,
        ;
        assert(dx < 0 ==> (-dx) * way / way == -dx) by (nonlinear_arith)
            requires
                way > 0,
        ;
        assert(dz >= 0 ==> dz * way / way == dz) by (nonlinear_arith)
            requires
                way > 0,
        ;
        assert(dz < 0 ==> (-dz) * way / way == -dz) by (nonlinear_arith)
            requires
                way > 0,
        ;
    }
}

/// A step leads straight to the waypoint: it strays to the side by less than
/// rounding its two parts accounts for. (The area between step and way is their
/// length times how far the one strays from the other.)
pub proof fn steps_lead_straight(
    pos: Pos,
    waypoint: Pos,
    target: Pos,
    reach: int,
    height: int,
)
    requires
        pos.walkable(),
        waypoint.walkable(),
        target.walkable(),
        0 <= reach,
    ensures
        ({
            let next = crate::sim::walking::stepped_to(pos, waypoint, target, reach, height);
            let x = if waypoint.x >= pos.x {
                waypoint.x - pos.x
            } else {
                pos.x - waypoint.x
            };
            let z = if waypoint.z >= pos.z {
                waypoint.z - pos.z
            } else {
                pos.z - waypoint.z
            };
            -(x + z) <= (next.x - pos.x) * (waypoint.z - pos.z) - (next.z - pos.z) * (waypoint.x
                - pos.x) <= x + z
        }),
{
    let dx = waypoint.x - pos.x;
    let dz = waypoint.z - pos.z;
    let tx = target.x - pos.x;
    let tz = target.z - pos.z;
    assert(dx * dx >= 0) by (nonlinear_arith);
    assert(dz * dz >= 0) by (nonlinear_arith);
    assert(tx * tx >= 0) by (nonlinear_arith);
    assert(tz * tz >= 0) by (nonlinear_arith);
    let d = crate::sim::walking::flat(waypoint, pos);
    let t = crate::sim::walking::flat(target, pos);
    crate::sim::walking::root_exists(d);
    crate::sim::walking::root_exists(t);
    let way = crate::sim::walking::root(d);
    let left = crate::sim::walking::root(t);
    let next = crate::sim::walking::stepped_to(pos, waypoint, target, reach, height);
    if way > 0 {
        let most = if way <= left {
            way
        } else {
            left
        };
        let len = if reach <= most {
            reach
        } else {
            most
        };
        parts_are_close(dx, len, way);
        parts_are_close(dz, len, way);
        crate::sim::walking::parts_are_parts(dx, len, way);
        crate::sim::walking::parts_are_parts(dz, len, way);
        let px = next.x - pos.x;
        let pz = next.z - pos.z;
        let x = if dx >= 0 {
            dx
        } else {
            -dx
        };
        let z = if dz >= 0 {
            dz
        } else {
            -dz
        };
        let a = if dx >= 0 {
            px
        } else {
            -px
        };
        let b = if dz >= 0 {
            pz
        } else {
            -pz
        };
        parts_keep_their_slope(a, b, x, z, len, way);
        assert(px * dz - pz * dx == a * z - b * x || px * dz - pz * dx == -(a * z - b * x))
            by (nonlinear_arith)
            requires
                (x == dx && a == px) || (x == -dx && a == -px),
                (z == dz && b == pz) || (z == -dz && b == -pz),
        ;
    } else {
        assert(0 * dz == 0 && 0 * dx == 0);
    }
}

proof fn parts_keep_their_slope(a: int, b: int, x: int, z: int, len: int, way: int)
    requires
        0 <= x,
        0 <= z,
        0 < way,
        a * way <= x * len < (a + 1) * way,
        b * way <= z * len < (b + 1) * way,
    ensures
        -(x + z) <= a * z - b * x <= x + z,
{
    let u = x * len - a * way;
    let v = z * len - b * way;
    assert(0 <= u < way && 0 <= v < way) by (nonlinear_arith)
        requires
            u == x * len - a * way,
            v == z * len - b * way,
            a * way <= x * len < (a + 1) * way,
            b * way <= z * len < (b + 1) * way,
    ;
    let c = a * z - b * x;
    assert(c * way == v * x - u * z) by (nonlinear_arith)
        requires
            u == x * len - a * way,
            v == z * len - b * way,
            c == a * z - b * x,
    ;
    assert(0 <= v * x <= way * x) by (nonlinear_arith)
        requires
            0 <= v < way,
            0 <= x,
    ;
    assert(0 <= u * z <= way * z) by (nonlinear_arith)
        requires
            0 <= u < way,
            0 <= z,
    ;
    assert(-z <= c <= x) by (nonlinear_arith)
        requires
            -(way * z) <= c * way <= way * x,
            0 < way,
    ;
}

/// A position on the other side of the origin, east for west.
pub open spec fn mirrored(p: Pos) -> Pos {
    Pos { x: (-p.x) as i64, ..p }
}

/// A position with its two directions over ground exchanged.
pub open spec fn turned(p: Pos) -> Pos {
    Pos { x: p.z, y: p.y, z: p.x }
}

/// No direction is preferred: mirroring position, waypoint and target mirrors
/// the step, and turning them turns it.
pub proof fn steps_prefer_no_direction(
    pos: Pos,
    waypoint: Pos,
    target: Pos,
    reach: int,
    height: int,
)
    requires
        pos.walkable(),
        waypoint.walkable(),
        target.walkable(),
        0 <= reach,
    ensures
        ({
            let next = crate::sim::walking::stepped_to(pos, waypoint, target, reach, height);
            &&& crate::sim::walking::stepped_to(
                mirrored(pos),
                mirrored(waypoint),
                mirrored(target),
                reach,
                height,
            ) == mirrored(next)
            &&& crate::sim::walking::stepped_to(
                turned(pos),
                turned(waypoint),
                turned(target),
                reach,
                height,
            ) == turned(next)
        }),
{
    let dx = waypoint.x - pos.x;
    let tx = target.x - pos.x;
    assert((-dx) * (-dx) == dx * dx) by (nonlinear_arith);
    assert((-tx) * (-tx) == tx * tx) by (nonlinear_arith);
    crate::sim::walking::steps_do_not_overshoot(pos, waypoint, target, reach, height);
    let m = mirrored(pos);
    let mw = mirrored(waypoint);
    let mt = mirrored(target);
    assert(mw.x - m.x == -dx);
    assert(mt.x - m.x == -tx);
    assert(crate::sim::walking::flat(mw, m) == crate::sim::walking::flat(waypoint, pos));
    assert(crate::sim::walking::flat(mt, m) == crate::sim::walking::flat(target, pos));
    let u = turned(pos);
    assert(crate::sim::walking::flat(turned(waypoint), u) == crate::sim::walking::flat(
        waypoint,
        pos,
    ));
    assert(crate::sim::walking::flat(turned(target), u) == crate::sim::walking::flat(target, pos));
    let way = crate::sim::walking::root(crate::sim::walking::flat(waypoint, pos));
    let next = crate::sim::walking::stepped_to(pos, waypoint, target, reach, height);
    let dz = waypoint.z - pos.z;
    let tz = target.z - pos.z;
    assert(dx * dx >= 0) by (nonlinear_arith);
    assert(dz * dz >= 0) by (nonlinear_arith);
    assert(tx * tx >= 0) by (nonlinear_arith);
    assert(tz * tz >= 0) by (nonlinear_arith);
    crate::sim::walking::root_exists(crate::sim::walking::flat(waypoint, pos));
    crate::sim::walking::root_exists(crate::sim::walking::flat(target, pos));
    if way > 0 {
        let left = crate::sim::walking::root(crate::sim::walking::flat(target, pos));
        let most = if way <= left {
            way
        } else {
            left
        };
        let len = if reach <= most {
            reach
        } else {
            most
        };
        crate::sim::walking::parts_are_parts(dx, len, way);
        crate::sim::walking::parts_are_parts(dz, len, way);
        assert(crate::sim::walking::part_of(-dx, len, way) == -crate::sim::walking::part_of(
            dx,
            len,
            way,
        )) by {
            if dx == 0 {
                assert(0 * len / way == 0) by (nonlinear_arith)
                    requires
                        way > 0,
                ;
            }
        }
    }
}

/// A beaver walks two tiles and six tenths a second, and eight tenths faster
/// on a finished path.
pub proof fn paths_quicken_the_pace(dt: u32)
    ensures
        crate::sim::walking::stride(false, dt) * 10 <= 26 * dt < crate::sim::walking::stride(
            false,
            dt,
        ) * 10 + 10,
        crate::sim::walking::stride(true, dt) * 50 <= 234 * dt < crate::sim::walking::stride(
            true,
            dt,
        ) * 50 + 50,
{
}

/// A position is on a path exactly where the tile under it has a building that
/// is a finished path.
pub proof fn being_on_a_path(map: MapView, rows: Seq<BuildingRow>, pos: Pos)
    ensures
        map.on_path(rows, pos) <==> exists|i: int|
            0 <= i < rows.len() && map.tile_under(pos) is Some && map.building[(map.tile_under(
                pos,
            )->0).y * map.width + (map.tile_under(pos)->0).x] == Some((#[trigger] rows[i]).id)
                && rows[i].construction is None && rows[i].building.kind == BuildingKind::Path,
{
}

/// A walker stands on the surface: on the water where there is any, half a unit
/// a level. Off the map its height stays.
pub proof fn walkers_keep_to_the_surface(map: MapView, pos: Pos)
    requires
        map.wf(),
    ensures
        match map.tile_under(pos) {
            Some(t) => {
                let i = t.y * map.width + t.x;
                2 * map.surface_under(pos) <= map.ground[i] * 1_000_000 + map.water[i] < 2
                    * map.surface_under(pos) + 2
            },
            None => map.surface_under(pos) == pos.y,
        },
{
}

/// Of a route the leading tiles that a beaver has come within a fifth of a tile
/// of are left behind, and no others.
pub proof fn reached_tiles_are_left_behind(map: MapView, pos: Pos, tiles: Seq<TilePos>, k: int)
    requires
        0 <= k <= tiles.len(),
        forall|m: int|
            0 <= m < k ==> {
                let c = map.center(#[trigger] tiles[m]);
                (c.x - pos.x) * (c.x - pos.x) + (c.z - pos.z) * (c.z - pos.z) < 40_000_000_000
            },
        k < tiles.len() ==> {
            let c = map.center(tiles[k]);
            (c.x - pos.x) * (c.x - pos.x) + (c.z - pos.z) * (c.z - pos.z) >= 40_000_000_000
        },
    ensures
        map.ahead(pos, tiles) == tiles.skip(k),
    decreases k,
{
    assert(200_000int * 200_000 == 40_000_000_000);
    if k > 0 {
        let rest = tiles.skip(1);
        assert(map.center(tiles[0]) == map.center(tiles[0]));
        assert forall|m: int| 0 <= m < k - 1 implies ({
            let c = map.center(#[trigger] rest[m]);
            (c.x - pos.x) * (c.x - pos.x) + (c.z - pos.z) * (c.z - pos.z) < 40_000_000_000
        }) by {
            assert(rest[m] == tiles[m + 1]);
        }
        reached_tiles_are_left_behind(map, pos, rest, k - 1);
        assert(rest.skip(k - 1) =~= tiles.skip(k));
    } else {
        assert(tiles.skip(0) =~= tiles);
    }
}

/// The job of an entity is the first of that entity, and one is found if there
/// is any.
pub proof fn jobs_are_found_by_entity(jobs: Seq<JobRow>, id: u64)
    ensures
        match crate::sim::walking::job_row(jobs, id) {
            Some(i) => 0 <= i < jobs.len() && jobs[i].id == id && forall|j: int|
                0 <= j < i ==> (#[trigger] jobs[j]).id != id,
            None => forall|j: int| 0 <= j < jobs.len() ==> (#[trigger] jobs[j]).id != id,
        },
    decreases jobs.len(),
{
    if jobs.len() > 0 {
        jobs_are_found_by_entity(jobs.drop_last(), id);
        let rest = jobs.drop_last();
        match crate::sim::walking::job_row(rest, id) {
            Some(i) => {
                assert(jobs[i] == rest[i]);
                assert forall|j: int| 0 <= j < i implies (#[trigger] jobs[j]).id != id by {
                    assert(rest[j] == jobs[j]);
                }
            },
            None => {
                assert forall|j: int| 0 <= j < jobs.len() - 1 implies (#[trigger] jobs[j]).id
                    != id by {
                    assert(rest[j] == jobs[j]);
                }
            },
        }
    }
}

/// A beaver on its way is idle again once its job is gone, and at work once it
/// is within a quarter of a tile of it, standing still. Else it steps on at its
/// pace, towards the first tile ahead on a route for this very job, or straight
/// to the job where there is none. Nothing else of it changes; nor does a
/// beaver that is not on its way.
pub proof fn a_moment_of_walking(
    map: MapView,
    jobs: Seq<JobRow>,
    rows: Seq<BuildingRow>,
    row: BeaverRow,
    route: Option<ComputedPath>,
    dt: u32,
)
    ensures
        ({
            let after = crate::sim::walking::walked(map, jobs, rows, row, route, dt);
            let found = match row.beaver.state {
                BeaverState::Goto(id) => crate::sim::walking::job_row(jobs, id),
                _ => None,
            };
            &&& after.id == row.id
            &&& after.beaver.hunger == row.beaver.hunger
            &&& after.beaver.thirst == row.beaver.thirst
            &&& after.beaver.starving == row.beaver.starving
            &&& match row.beaver.state {
                BeaverState::Goto(id) => match found {
                    None => after.beaver.state is Idle && after.pos == row.pos,
                    Some(j) => {
                        let goal = map.center(jobs[j].job.tile);
                        let off = (goal.x - row.pos.x) * (goal.x - row.pos.x) + (goal.z
                            - row.pos.z) * (goal.z - row.pos.z);
                        let ahead = if route is Some && (route->0).job == id && (route->0).tiles
                            is Some {
                            map.ahead(row.pos, ((route->0).tiles->0)@)
                        } else {
                            Seq::empty()
                        };
                        if off < 62_500_000_000 {
                            after.beaver.state == BeaverState::Work(id) && after.pos == row.pos
                        } else {
                            &&& after.beaver.state == row.beaver.state
                            &&& after.pos == crate::sim::walking::stepped_to(
                                row.pos,
                                if ahead.len() > 0 {
                                    map.center(ahead[0])
                                } else {
                                    goal
                                },
                                goal,
                                crate::sim::walking::stride(map.on_path(rows, row.pos), dt),
                                map.surface_under(row.pos),
                            )
                        }
                    },
                },
                _ => after == row,
            }
        }),
{
    assert(250_000int * 250_000 == 62_500_000_000);
}

/// A route for the job that a beaver walks to loses the tiles that have been
/// reached, while the job is there and not arrived at; any other route stays as
/// it is.
pub proof fn routes_are_used_up(
    map: MapView,
    jobs: Seq<JobRow>,
    row: BeaverRow,
    before: Option<ComputedPath>,
    after: Option<ComputedPath>,
)
    requires
        crate::sim::walking::route_follows(map, jobs, row, before, after),
    ensures
        ({
            let used = before is Some && row.beaver.state == BeaverState::Goto((before->0).job);
            let found = crate::sim::walking::job_row(jobs, (before->0).job);
            let goal = map.center(jobs[found->0].job.tile);
            let off = (goal.x - row.pos.x) * (goal.x - row.pos.x) + (goal.z - row.pos.z) * (goal.z
                - row.pos.z);
            &&& !used ==> after == before
            &&& used ==> after is Some && (after->0).job == (before->0).job
            &&& used && (before->0).tiles is None ==> (after->0).tiles is None
            &&& used && (before->0).tiles is Some ==> (after->0).tiles is Some
                && ((after->0).tiles->0)@ == if found is Some && off >= 62_500_000_000 {
                map.ahead(row.pos, ((before->0).tiles->0)@)
            } else {
                ((before->0).tiles->0)@
            }
        }),
{
    assert(250_000int * 250_000 == 62_500_000_000);
}

} // verus!
