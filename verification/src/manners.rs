//! What the player sees and does, told by what is read, clicked and pressed.
use vstd::prelude::*;

use crate::cinema::Cinematic;
use crate::hud::{Outlook, Warning};
use crate::interact::{Hand, PointerButton, Target, Tool};
use crate::menu::{Desk, Escaped};
use crate::session::{DemoWatch, Session};
use crate::sim::buildings::{Building, BuildingKind, BuildingRow, UnderConstruction};
use crate::sim::map::{MapView, TilePos};
use crate::sim::season::{Clock, Population, Season};
use crate::sim::stock::Stockpile;

verus! {

/// The number that a row of figures stands for.
pub open spec fn value_of(figures: Seq<char>) -> int
    decreases figures.len(),
{
    if figures.len() == 0 {
        0
    } else {
        value_of(figures.drop_last()) * 10 + (figures.last() as int - 48)
    }
}

/// A number that is written out reads as that number: its figures are those of
/// ten, the first is no nought unless the number is one, and together they stand
/// for it.
pub proof fn numbers_read_as_written(n: nat)
    ensures
        ({
            let s = crate::text::decimal(n);
            &&& s.len() >= 1
            &&& value_of(s) == n
            &&& forall|i: int| 0 <= i < s.len() ==> 48 <= (#[trigger] s[i]) as int <= 57
            &&& n > 0 ==> s[0] as int > 48
        }),
    decreases n,
{
    crate::text::reveal_figures();
    let s = crate::text::decimal(n);
    reveal_with_fuel(value_of, 2);
    if n < 10 {
        assert(s[0] as int == 48 + n);
        assert(s.len() == 1);
        assert(s.drop_last() =~= Seq::<char>::empty());
    } else {
        numbers_read_as_written(n / 10);
        let d = n % 10;
        let head = crate::text::decimal(n / 10);
        assert(crate::text::figure(d)[0] as int == 48 + d);
        assert(crate::text::figure(d).len() == 1);
        assert(s.drop_last() =~= head);
        assert(s.last() == crate::text::figure(d)[0]);
        assert(value_of(s) == value_of(head) * 10 + d);
    }
}

/// A whole number is written with its size, behind a dash if it is below nought.
pub proof fn signs_are_written(n: int)
    ensures
        n >= 0 ==> crate::text::signed(n) == crate::text::decimal(n as nat),
        n < 0 ==> crate::text::signed(n) == seq!['-'] + crate::text::decimal((-n) as nat),
{
    reveal_strlit("-");
    if n < 0 {
        assert("-"@ =~= seq!['-']);
    }
}

/// Stores are shown in whole units: on the screen rounded down, in the chronicle
/// towards nought.
pub proof fn stores_are_shown_in_units(halves: i64)
    ensures
        2 * crate::hud::units(halves) <= halves < 2 * crate::hud::units(halves) + 2,
        halves >= 0 ==> crate::chronicle::whole(halves) == crate::hud::units(halves),
        halves < 0 ==> halves <= 2 * crate::chronicle::whole(halves) < halves + 2,
        halves < 0 ==> crate::chronicle::whole(halves) <= 0,
{
}

/// Seconds are rounded up, so that the last one is told until it is over.
pub proof fn seconds_are_rounded_up(micros: u64)
    requires
        micros <= 4_000_000_000_000_000,
    ensures
        crate::hud::seconds(micros) * 1_000_000 >= micros,
        (crate::hud::seconds(micros) - 1) * 1_000_000 < micros,
{
}

/// A percentage is the nearest one; on the screen a half goes up, in the
/// chronicle to the even number.
pub proof fn percentages_are_nearest(millionths: u32)
    ensures
        -5_000 <= millionths - crate::hud::percent(millionths) * 10_000 < 5_000,
        -5_000 <= millionths - crate::chronicle::rounded_percent(millionths) * 10_000 <= 5_000,
        millionths as int % 10_000 == 5_000 ==> crate::chronicle::rounded_percent(millionths) % 2
            == 0,
{
}

/// A forecast is good while more than half of the water would last, fair while
/// more than a fifth would, and else poor; without one nothing is known.
pub proof fn how_grave_a_forecast_is(retention: Option<u32>)
    ensures
        ({
            let look = crate::hud::outlook(retention);
            &&& look == Outlook::Unknown <==> retention is None
            &&& look == Outlook::Good <==> retention is Some && retention->0 > 500_000
            &&& look == Outlook::Fair <==> retention is Some && 200_000 < retention->0 <= 500_000
            &&& look == Outlook::Poor <==> retention is Some && retention->0 <= 200_000
        }),
{
}

/// The player is warned of a drought, of a store without a unit for those who
/// live, of more beavers than homes allow, and of want; each as long as there is
/// reason, and of nothing else.
pub proof fn what_is_warned_of(season: Season, stock: Stockpile, pop: Population, starving: u32)
    ensures
        ({
            let all = crate::hud::due_warnings(season, stock, pop, starving);
            &&& all.contains(Warning::Drought) <==> season.drought
            &&& all.contains(Warning::NoFood) <==> stock.food < 2 && pop.count > 0
            &&& all.contains(Warning::NoWater) <==> stock.water < 2 && pop.count > 0
            &&& all.contains(Warning::HousingFull) <==> pop.count >= pop.cap
            &&& all.contains(Warning::Starving) <==> starving > 0
        }),
{
    let a = crate::hud::if_so(season.drought, Warning::Drought);
    let b = crate::hud::if_so(stock.food < 2 && pop.count > 0, Warning::NoFood);
    let c = crate::hud::if_so(stock.water < 2 && pop.count > 0, Warning::NoWater);
    let d = crate::hud::if_so(pop.count >= pop.cap, Warning::HousingFull);
    let e = crate::hud::if_so(starving > 0, Warning::Starving);
    let all = crate::hud::due_warnings(season, stock, pop, starving);
    assert(all =~= a + b + c + d + e);
    if season.drought {
        assert(all[0] == Warning::Drought);
    }
    if stock.food < 2 && pop.count > 0 {
        assert(all[a.len() as int] == Warning::NoFood);
    }
    if stock.water < 2 && pop.count > 0 {
        assert(all[(a + b).len() as int] == Warning::NoWater);
    }
    if pop.count >= pop.cap {
        assert(all[(a + b + c).len() as int] == Warning::HousingFull);
    }
    if starving > 0 {
        assert(all[(a + b + c + d).len() as int] == Warning::Starving);
    }
}

/// How far a building is shows in whole percent of its work, rounded down, and
/// never as a hundred.
pub proof fn progress_is_told_in_percent(site: UnderConstruction)
    requires
        site.required > 0,
    ensures
        ({
            let p = crate::hud::progress(site);
            &&& 0 <= p <= 99
            &&& p * site.required <= site.done * 100
            &&& p < 99 ==> site.done * 100 < (p + 1) * site.required
        }),
{
    let q = site.required as int;
    let d = site.done * 100;
    assert(0 <= d / q && (d / q) * q <= d < (d / q + 1) * q) by (nonlinear_arith)
        requires
            d >= 0,
            q > 0,
    ;
    assert(d / q > 99 ==> 99 * q <= d) by (nonlinear_arith)
        requires
            (d / q) * q <= d,
            q > 0,
    ;
}

/// A scaffold stands as high as the share of the work that is done, of the
/// height of the building, but not lower than a twentieth of a unit.
pub proof fn scaffolds_stand_for_the_work(height: i64, site: UnderConstruction)
    requires
        0 <= height,
        site.done < site.required,
    ensures
        ({
            let h = crate::model::scaffold_height(height, Some(site));
            &&& h >= 50_000
            &&& h > 50_000 ==> h * site.required <= height * site.done < (h + 1) * site.required
            &&& height * site.done < (h + 1) * site.required
        }),
{
    let q = site.required as int;
    let d = height * site.done;
    assert(0 <= d) by (nonlinear_arith)
        requires
            d == height * site.done,
            0 <= height,
            0 <= site.done,
    ;
    let r = d / q;
    assert(r * q <= d < (r + 1) * q) by (nonlinear_arith)
        requires
            r == d / q,
            q > 0,
            d >= 0,
    ;
    let h = crate::model::scaffold_height(height, Some(site));
    assert((r + 1) * q <= (h + 1) * q) by (nonlinear_arith)
        requires
            r <= h,
            q > 0,
    ;
}

/// Of the droughts that have come all count as endured while one is on, and else
/// one fewer.
pub proof fn droughts_are_counted(season: Season)
    ensures
        season.drought ==> crate::hud::droughts_endured(season) == season.cycle,
        !season.drought && season.cycle > 0 ==> crate::hud::droughts_endured(season) + 1
            == season.cycle,
        season.cycle == 0 ==> crate::hud::droughts_endured(season) == 0,
{
}

/// Lines stand one below the other: one more goes behind a line break.
pub proof fn lines_stand_below_each_other(lines: Seq<Seq<char>>, line: Seq<char>)
    ensures
        crate::chronicle::joined(seq![line]) == line,
        crate::chronicle::joined(Seq::empty()) == Seq::<char>::empty(),
        lines.len() > 0 ==> crate::chronicle::joined(lines.push(line))
            == crate::chronicle::joined(lines) + seq!['\n'] + line,
{
    reveal_strlit("\n");
    assert("\n"@ =~= seq!['\n']);
    assert(lines.push(line).drop_last() =~= lines);
}

/// A tile's water is drawn anew exactly if its depth is more than a hundredth of
/// a level from what is shown, or has gone to nothing; its ground exactly if its
/// irrigation has changed.
pub proof fn which_tiles_are_drawn_anew(
    shown: Seq<u64>,
    depth: Seq<u64>,
    green: Seq<bool>,
    now: Seq<bool>,
    n: nat,
    i: int,
)
    requires
        0 <= i < n <= usize::MAX,
    ensures
        crate::look::moved_upto(shown, depth, n).contains(i as usize) <==> {
            ||| shown[i] - depth[i] > 10_000
            ||| depth[i] - shown[i] > 10_000
            ||| depth[i] == 0 && shown[i] > 0
        },
        crate::look::flipped_upto(green, now, n).contains(i as usize) <==> green[i] != now[i],
    decreases n,
{
    drawn_places_are_within(shown, depth, green, now, n);
    let moved = crate::look::moved_upto(shown, depth, n);
    let flipped = crate::look::flipped_upto(green, now, n);
    let m = (n - 1) as nat;
    drawn_places_are_within(shown, depth, green, now, m);
    let moved_before = crate::look::moved_upto(shown, depth, m);
    let flipped_before = crate::look::flipped_upto(green, now, m);
    if i < m {
        which_tiles_are_drawn_anew(shown, depth, green, now, m, i);
        if moved_before.contains(i as usize) {
            let k = choose|k: int| 0 <= k < moved_before.len() && moved_before[k] == i as usize;
            assert(moved[k] == i as usize);
        }
        if flipped_before.contains(i as usize) {
            let k = choose|k: int|
                0 <= k < flipped_before.len() && flipped_before[k] == i as usize;
            assert(flipped[k] == i as usize);
        }
        if moved.contains(i as usize) {
            let k = choose|k: int| 0 <= k < moved.len() && moved[k] == i as usize;
            assert(moved_before[k] == i as usize);
        }
        if flipped.contains(i as usize) {
            let k = choose|k: int| 0 <= k < flipped.len() && flipped[k] == i as usize;
            assert(flipped_before[k] == i as usize);
        }
    } else {
        if crate::look::depth_moved(shown[i], depth[i]) {
            assert(moved[moved_before.len() as int] == i as usize);
        } else if moved.contains(i as usize) {
            let k = choose|k: int| 0 <= k < moved.len() && moved[k] == i as usize;
            assert(moved_before[k] < m);
        }
        if green[i] != now[i] {
            assert(flipped[flipped_before.len() as int] == i as usize);
        } else if flipped.contains(i as usize) {
            let k = choose|k: int| 0 <= k < flipped.len() && flipped[k] == i as usize;
            assert(flipped_before[k] < m);
        }
    }
}

proof fn drawn_places_are_within(
    shown: Seq<u64>,
    depth: Seq<u64>,
    green: Seq<bool>,
    now: Seq<bool>,
    n: nat,
)
    requires
        n <= usize::MAX,
    ensures
        forall|k: int|
            0 <= k < crate::look::moved_upto(shown, depth, n).len()
                ==> #[trigger] crate::look::moved_upto(shown, depth, n)[k] < n,
        forall|k: int|
            0 <= k < crate::look::flipped_upto(green, now, n).len()
                ==> #[trigger] crate::look::flipped_upto(green, now, n)[k] < n,
    decreases n,
{
    if n > 0 {
        let m = (n - 1) as nat;
        drawn_places_are_within(shown, depth, green, now, m);
        let moved = crate::look::moved_upto(shown, depth, n);
        let moved_before = crate::look::moved_upto(shown, depth, m);
        let flipped = crate::look::flipped_upto(green, now, n);
        let flipped_before = crate::look::flipped_upto(green, now, m);
        assert forall|k: int| 0 <= k < moved.len() implies #[trigger] moved[k] < n by {
            if k < moved_before.len() {
                assert(moved[k] == moved_before[k]);
            }
        }
        assert forall|k: int| 0 <= k < flipped.len() implies #[trigger] flipped[k] < n by {
            if k < flipped_before.len() {
                assert(flipped[k] == flipped_before[k]);
            }
        }
    }
}

/// The ground is chequered: tiles that share a side differ in tone, and the
/// first is a light one.
pub proof fn the_ground_is_chequered(t: TilePos)
    requires
        t.x < u32::MAX,
        t.y < u32::MAX,
    ensures
        crate::look::darker(TilePos { x: (t.x + 1) as u32, y: t.y }) != crate::look::darker(t),
        crate::look::darker(TilePos { x: t.x, y: (t.y + 1) as u32 }) != crate::look::darker(t),
        t.x == 0 && t.y == 0 ==> !crate::look::darker(t),
{
}

/// Where the game is not played, clicks do nothing; nor do those with the middle
/// button or on nothing. The secondary button puts the tool and the selection
/// away.
pub proof fn what_idle_clicks_do(
    hand: Hand,
    playing: bool,
    button: PointerButton,
    target: Target,
    id: u64,
    now: u64,
    job: u64,
)
    ensures
        ({
            let after = hand.clicked(playing, button, target, id, now);
            let out = hand.outcome(playing, button, target, id, job);
            &&& !playing || button == PointerButton::Middle ==> after == hand
            &&& playing && button == PointerButton::Secondary ==> {
                &&& after.tool == Tool::Select && after.selected is None
                &&& after.map == hand.map && after.stock == hand.stock
                &&& after.notice == hand.notice
            }
            &&& playing && button == PointerButton::Primary && target == Target::Elsewhere
                ==> after == hand
            &&& !playing || button != PointerButton::Primary || target == Target::Elsewhere
                ==> !out.consumed && out.placed is None && out.demolished is None
        }),
{
}

/// A click on a building selects it; with the tool for it, it is taken down
/// instead: its tile is freed, half of its price comes back, and it is selected
/// no longer.
pub proof fn what_clicks_on_buildings_do(
    hand: Hand,
    e: u64,
    b: Building,
    id: u64,
    now: u64,
    job: u64,
)
    requires
        hand.map.wf(),
        hand.map.holds(b.tile),
        hand.stock.logs <= i64::MAX - 100,
    ensures
        ({
            let click = Target::Building(e, b);
            let after = hand.clicked(true, PointerButton::Primary, click, id, now);
            let out = hand.outcome(true, PointerButton::Primary, click, id, job);
            &&& after.tool == hand.tool && after.notice == hand.notice
            &&& out.consumed && out.placed is None
            &&& if hand.tool == Tool::Demolish {
                &&& after.map.building[b.tile.y * hand.map.width + b.tile.x] is None
                &&& 2 * (after.stock.logs - hand.stock.logs) == b.kind.cost()
                &&& after.stock.food == hand.stock.food && after.stock.water == hand.stock.water
                &&& after.selected != Some(e)
                &&& hand.selected != Some(e) ==> after.selected == hand.selected
                &&& out.demolished == Some(e)
            } else {
                &&& after.selected == Some(e)
                &&& after.map == hand.map && after.stock == hand.stock
                &&& out.demolished is None
            }
        }),
{
    crate::sim::map::tiles_have_places(
        hand.map.width,
        hand.map.height,
        b.tile.x as int,
        b.tile.y as int,
    );
    crate::sim::rules::buildings_take_their_tile(
        hand.map,
        b.kind,
        b.tile,
        id,
        b.tile.y * hand.map.width + b.tile.x,
    );
}

/// A click on a tile with a building in hand places it, for its full price, if
/// there are logs and it may stand there; else the player is told why, for a
/// little over two seconds. Without one in hand the selection goes.
pub proof fn what_clicks_on_tiles_do(hand: Hand, t: TilePos, id: u64, now: u64, job: u64)
    requires
        hand.map.wf(),
        hand.map.holds(t),
        hand.stock.logs >= 0,
        now <= u64::MAX - 2_200_000,
    ensures
        ({
            let click = Target::Tile(t);
            let after = hand.clicked(true, PointerButton::Primary, click, id, now);
            let out = hand.outcome(true, PointerButton::Primary, click, id, job);
            &&& out.consumed && out.demolished is None && after.tool == hand.tool
            &&& match hand.tool {
                Tool::Build(kind) => {
                    let may = hand.stock.logs >= kind.cost() && hand.map.refusal(kind, t) is None;
                    &&& after.selected == hand.selected
                    &&& may ==> {
                        &&& after.map.building[t.y * hand.map.width + t.x] == Some(id)
                        &&& after.stock.logs + kind.cost() == hand.stock.logs
                        &&& after.notice == hand.notice
                        &&& out.placed is Some
                        &&& (out.placed->0).0.building.kind == kind
                        &&& (out.placed->0).0.building.tile == t
                        &&& (out.placed->0).0.id == id && (out.placed->0).1.id == job
                    }
                    &&& !may ==> {
                        &&& after.map == hand.map && after.stock == hand.stock
                        &&& out.placed is None
                        &&& after.notice.expires == now + 2_200_000
                        &&& after.notice.message == Some(
                            "Can't build here: "@ + if hand.stock.logs < kind.cost() {
                                "not enough logs"@
                            } else {
                                hand.map.refusal(kind, t)->0
                            },
                        )
                    }
                },
                _ => {
                    &&& after.selected is None
                    &&& after.map == hand.map && after.stock == hand.stock
                    &&& after.notice == hand.notice && out.placed is None
                },
            }
        }),
{
    crate::sim::map::tiles_have_places(hand.map.width, hand.map.height, t.x as int, t.y as int);
}

/// Escape closes an open menu, puts away what is in hand or selected, or opens
/// the menu, in this order; and touches nothing else.
pub proof fn what_escape_does(d: Desk)
    ensures
        ({
            let after = d.escaped();
            match d.escape() {
                Escaped::Closed => {
                    &&& d.menu.open && !after.menu.open
                    &&& after.clock.paused == (d.clock.paused && d.menu.was_paused)
                    &&& after.tool == d.tool && after.selected == d.selected
                },
                Escaped::Cancelled => {
                    &&& !d.menu.open && (d.tool != Tool::Select || d.selected is Some)
                    &&& after.tool == Tool::Select && after.selected is None
                    &&& after.menu == d.menu && after.clock == d.clock
                },
                Escaped::Opened => {
                    &&& !d.menu.open && d.tool == Tool::Select && d.selected is None
                    &&& after.menu.open && after.menu.was_paused == d.clock.paused
                    &&& after.clock.paused
                    &&& after.tool == d.tool && after.selected == d.selected
                },
            }
        }),
        d.escaped().clock.speed == d.clock.speed,
{
}

/// A shot lasts until its time is up; the next one lasts nine seconds.
pub proof fn shots_last_nine_seconds(camera: Cinematic, dt: u32)
    requires
        camera.t + dt <= u64::MAX,
        camera.shot < u64::MAX,
    ensures
        ({
            let after = camera.turned(dt);
            if camera.t + dt >= camera.duration {
                after.shot == camera.shot + 1 && after.t == 0 && after.duration == 9_000_000
            } else {
                &&& after.shot == camera.shot && after.t == camera.t + dt
                &&& after.duration == camera.duration
            }
        }),
{
}

/// The river enters at the first of its sources.
pub proof fn the_first_source_is_the_inlet(map: MapView, n: nat)
    ensures
        match map.inlet(n) {
            Some(t) => exists|i: int|
                0 <= i < n && #[trigger] map.source[i] && t == map.tile_of(i) && forall|j: int|
                    0 <= j < i ==> !#[trigger] map.source[j],
            None => forall|j: int| 0 <= j < n ==> !#[trigger] map.source[j],
        },
    decreases n,
{
    if n > 0 {
        the_first_source_is_the_inlet(map, (n - 1) as nat);
    }
}

/// Shots look in turn at what was built last, at the first dam, at where the
/// river enters, and at the middle of the map, which also stands in for what is
/// missing.
pub proof fn what_shots_look_at(
    map: MapView,
    shot: u64,
    last_built: Option<TilePos>,
    rows: Seq<BuildingRow>,
)
    ensures
        ({
            let seen = map.interest(shot, last_built, rows);
            let dam = crate::sim::sites::first_of(rows, BuildingKind::Dam);
            let inlet = map.inlet(map.size() as nat);
            let turn = shot as int % 4;
            &&& turn == 0 && last_built is Some ==> seen == last_built->0
            &&& turn == 1 && dam is Some ==> seen == dam->0
            &&& turn == 2 && inlet is Some ==> seen == inlet->0
            &&& turn == 3 || (turn == 0 && last_built is None) || (turn == 1 && dam is None) || (
            turn == 2 && inlet is None) ==> 2 * seen.x <= map.width <= 2 * seen.x + 1 && 2 * seen.y
                <= map.height <= 2 * seen.y + 1
        }),
{
}

/// The place nearest to a tile where a building may stand is taken; none is
/// only where it may stand nowhere.
pub proof fn the_nearest_place_is_taken(
    map: MapView,
    kind: BuildingKind,
    by: TilePos,
    n: nat,
    i: int,
)
    requires
        0 <= i < n,
        map.refusal(kind, map.tile_of(i)) is None,
    ensures
        ({
            let best = map.nearest_place(kind, by, n);
            let t = best->0;
            let u = map.tile_of(i);
            &&& best is Some
            &&& map.refusal(kind, t) is None
            &&& (t.x - by.x) * (t.x - by.x) + (t.y - by.y) * (t.y - by.y) <= (u.x - by.x) * (u.x
                - by.x) + (u.y - by.y) * (u.y - by.y)
        }),
    decreases n,
{
    let m = (n - 1) as nat;
    if i < m {
        the_nearest_place_is_taken(map, kind, by, m, i);
    } else if map.nearest_place(kind, by, m) is Some {
        nearest_places_are_good(map, kind, by, m);
    }
}

proof fn nearest_places_are_good(map: MapView, kind: BuildingKind, by: TilePos, n: nat)
    requires
        map.nearest_place(kind, by, n) is Some,
    ensures
        map.refusal(kind, map.nearest_place(kind, by, n)->0) is None,
    decreases n,
{
    if n > 0 && map.nearest_place(kind, by, (n - 1) as nat) is Some {
        nearest_places_are_good(map, kind, by, (n - 1) as nat);
    }
}

/// At a showcase a building of each kind is placed in turn, as near to the middle
/// of the map as it may stand, and paid for; the lodge is selected.
pub proof fn how_the_showcase_is_built(show: crate::session::Show, kind: BuildingKind, n: nat)
    requires
        show.stock.logs >= 0,
        show.fresh.len() >= 2,
    ensures
        show.add_upto(0) == show,
        show.add_upto((n + 1) as nat) == show.add_upto(n).add_one(
            crate::session::showcase()[n as int],
        ),
        ({
            let after = show.add_one(kind);
            let spot = show.map.nearest_place(
                kind,
                show.map.middle(),
                show.map.size() as nat,
            );
            let id = show.fresh[show.fresh.len() - 1];
            &&& spot is None ==> after == show
            &&& spot is Some ==> {
                &&& after.placed.len() == show.placed.len() + 1
                &&& after.placed.last().0.building.kind == kind
                &&& after.placed.last().0.building.tile == spot->0
                &&& after.placed.last().0.id == id
                &&& after.stock.logs == show.stock.logs - kind.cost()
                &&& after.fresh.len() == show.fresh.len() - 2
                &&& kind == BuildingKind::Lodge ==> after.selected == Some(id)
                &&& kind != BuildingKind::Lodge ==> after.selected == show.selected
            }
        }),
{
}

/// A colony begins with thirty logs and twelve units of food and of water, on
/// the first day of a wet season of a minute and a half, with nobody counted and
/// nothing in hand.
pub proof fn how_colonies_begin(clock: Clock)
    ensures
        ({
            let first = Session::first(clock);
            &&& first.stock.logs == 2 * 30
            &&& first.stock.food == 2 * 12 && first.stock.water == 2 * 12
            &&& !first.season.drought && first.season.remaining == 90_000_000
            &&& first.season.day == 1 && first.season.cycle == 0 && first.season.day_timer == 0
            &&& first.population.count == 0 && first.starving == 0
            &&& !first.stats.started && first.stats.peak == 0
            &&& first.tool == Tool::Select && first.selected is None && first.hover is None
            &&& first.clock == clock
        }),
{
}

/// The demonstration lingers on a fallen colony for six seconds; one that lives
/// is watched anew from the start.
pub proof fn the_demonstration_lingers(w: DemoWatch, population: u32, dt: u32)
    requires
        w.fallen_for < 6_000_000,
    ensures
        ({
            let after = w.watched(population, dt);
            &&& population > 0 ==> after.alive && after.fallen_for == 0
            &&& population == 0 && !w.alive ==> after == w
            &&& population == 0 && w.alive && w.fallen_for + dt < 6_000_000 ==> after.alive
                && after.fallen_for == w.fallen_for + dt
            &&& population == 0 && w.alive && w.fallen_for + dt >= 6_000_000 ==> !after.alive
        }),
{
}

/// A block of the ground stands in the middle of its tile, as high as its ground
/// at half a unit a level, and twelve hundredths of a unit where that is none;
/// all ground above the river bed is grassy.
pub proof fn blocks_stand_for_the_ground(map: MapView, x: int, y: int)
    requires
        map.wf(),
        0 <= x < map.width,
        0 <= y < map.height,
    ensures
        ({
            let i = y * map.width + x;
            let b = map.block(i);
            &&& b.tile.x == x && b.tile.y == y
            &&& b.x == x * 1_000_000 + 500_000 - map.width * 500_000
            &&& b.z == y * 1_000_000 + 500_000 - map.height * 500_000
            &&& b.ground == map.ground[i]
            &&& map.ground[i] >= 1 ==> b.height == map.ground[i] * 500_000
            &&& map.ground[i] <= 0 ==> b.height == 120_000
            &&& b.grassy <==> map.ground[i] >= 1
            &&& b.shade == crate::look::Shade::RiverBed <==> map.ground[i] == 0
        }),
{
    crate::sim::map::tiles_have_places(map.width, map.height, x, y);
    let i = y * map.width + x;
    assert(-1000 <= map.ground[i] <= 1000);
    crate::sim::terrain::middles_of_tiles(map, TilePos { x: x as u32, y: y as u32 });
}

} // verus!
