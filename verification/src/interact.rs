//! The player's hand: the tool in it, what it points at, and what a click does.
use bevy::ecs::world::World;
use vstd::prelude::*;
use vstd::string::StringExecFns;

use crate::ecs::{empty_set, parent, set_contains, set_insert, ticks_of};
use crate::sim::beavers::JobRow;
use crate::sim::buildings::{
    def, demolish, place_building, placement_error, Building, BuildingKind, BuildingRow,
};
use crate::sim::map::{MapView, TileMap, TilePos};
use crate::sim::stock::Stockpile;

verus! {

/// The tool in hand.
#[derive(Clone, Copy, PartialEq, Eq, Structural, Debug)]
pub enum Tool {
    Select,
    Build(BuildingKind),
    Demolish,
}

/// How long it is said why a building was refused, in microseconds.
pub const REFUSAL_TIME: u64 = 2_200_000;

/// How long it is said that a beaver has starved, in microseconds.
pub const STARVED_TIME: u64 = 2_500_000;

/// A short message on the screen, and when it goes.
pub struct Notice {
    pub message: Option<String>,
    /// In microseconds of real time.
    pub expires: u64,
}

pub ghost struct NoticeView {
    pub message: Option<Seq<char>>,
    pub expires: u64,
}

impl View for Notice {
    type V = NoticeView;

    open spec fn view(&self) -> NoticeView {
        NoticeView {
            message: match self.message {
                Some(s) => Some(s@),
                None => None,
            },
            expires: self.expires,
        }
    }
}

impl Notice {
    /// Nothing is said.
    pub fn new() -> (r: Notice)
        ensures
            r@ == (NoticeView { message: None, expires: 0 }),
    {
        Notice { message: None, expires: 0 }
    }

    /// Say that a beaver has starved.
    pub fn say_starved(&mut self, now: u64)
        requires
            now + STARVED_TIME <= u64::MAX,
        ensures
            final(self)@ == (NoticeView {
                message: Some("A beaver has starved"@),
                expires: (now + STARVED_TIME) as u64,
            }),
    {
        self.message = Some("A beaver has starved".to_owned());
        self.expires = now + STARVED_TIME;
    }
}

/// Take a notice off once its time is over. The answer is whether it went.
pub fn expire_notice(now: u64, notice: &mut Notice) -> (went: bool)
    ensures
        went == (old(notice)@.message is Some && now > old(notice)@.expires),
        went ==> final(notice)@ == (NoticeView { message: None, ..old(notice)@ }),
        !went ==> final(notice)@ == old(notice)@,
{
    if notice.message.is_some() && now > notice.expires {
        notice.message = None;
        true
    } else {
        false
    }
}

/// The pointer moved over something, which may be a tile. The answer is whether
/// another tile is hovered over now; outside of play nothing is.
pub fn track_hover(playing: bool, tile: Option<TilePos>, hover: &mut Option<TilePos>) -> (changed:
    bool)
    ensures
        changed == (playing && tile is Some && *old(hover) != tile),
        *final(hover) == if changed {
            tile
        } else {
            *old(hover)
        },
{
    if !playing {
        return false;
    }
    match tile {
        Some(t) => {
            let same = match *hover {
                Some(h) => h == t,
                None => false,
            };
            if same {
                false
            } else {
                *hover = Some(t);
                true
            }
        },
        None => false,
    }
}

/// The building that an entity is a part of: the entity itself, or the nearest
/// one above it. Buildings are drawn as many parts, and a click lands on one.
/// `building` is the component that buildings carry. A walk that comes back to an
/// entity it has been at has met them all.
pub fn building_root(world: &World, entity: u64, building: usize) -> (r: Option<u64>)
    ensures
        match r {
            Some(a) => exists|n: nat| #[trigger]
                crate::dep::provides(*world, entity, building, n) && crate::dep::ancestor_at(
                    *world,
                    entity,
                    n,
                ) == Some(a) && forall|k: nat|
                    k < n ==> !#[trigger] crate::dep::provides(*world, entity, building, k),
            None => forall|n: nat| !#[trigger] crate::dep::provides(*world, entity, building, n),
        },
{
    proof {
        reveal_with_fuel(crate::dep::ancestor_at, 2);
        assert(crate::dep::ancestor_at(*world, entity, 0) == Some(entity));
    }
    if ticks_of(world, entity, building).is_some() {
        assert(crate::dep::provides(*world, entity, building, 0));
        return Some(entity);
    }
    let mut cur: u64 = match parent(world, entity) {
        Some(p) => p,
        None => {
            proof {
                crate::dep::no_ancestor_above(*world, entity, 1);
            }
            return None;
        },
    };
    let mut been = empty_set();
    let ghost mut found: Set<u64> = Set::empty();
    let ghost mut depth: nat = 1;
    loop
        invariant
            crate::ecs::members(been) == found,
            depth >= 1,
            crate::dep::ancestor_at(*world, entity, depth) == Some(cur),
            crate::ecs::entity_bits(cur),
            forall|k: nat|
                k < depth ==> !#[trigger] crate::dep::provides(*world, entity, building, k),
            forall|x: u64| #[trigger]
                found.contains(x) ==> exists|k: nat|
                    k < depth && #[trigger] crate::dep::ancestor_at(*world, entity, k) == Some(x),
        decreases crate::hierarchy::unseen(found),
    {
        if ticks_of(world, cur, building).is_some() {
            assert(crate::dep::provides(*world, entity, building, depth));
            return Some(cur);
        }
        assert(!crate::dep::provides(*world, entity, building, depth));
        if set_contains(&been, cur) {
            proof {
                let m = choose|k: nat|
                    k < depth && #[trigger] crate::dep::ancestor_at(*world, entity, k) == Some(
                        cur,
                    );
                assert forall|d: nat| !#[trigger]
                    crate::dep::provides(*world, entity, building, d) by {
                    let k = crate::hierarchy::cycle_holds_all_ancestors(
                        *world,
                        entity,
                        m,
                        depth,
                        d,
                    );
                    assert(!crate::dep::provides(*world, entity, building, k));
                }
            }
            return None;
        }
        let ghost found_before = found;
        set_insert(&mut been, cur);
        proof {
            found = found.insert(cur);
            crate::hierarchy::seeing_more_leaves_less(found_before, cur);
            assert(crate::dep::ancestor_at(*world, entity, depth) == Some(cur));
        }
        match parent(world, cur) {
            Some(p) => {
                proof {
                    depth = depth + 1;
                }
                cur = p;
            },
            None => {
                proof {
                    crate::dep::no_ancestor_above(*world, entity, depth + 1);
                    assert forall|n: nat| !#[trigger]
                        crate::dep::provides(*world, entity, building, n) by {
                        if n > depth {
                            assert(crate::dep::ancestor_at(*world, entity, n) is None);
                        }
                    }
                }
                return None;
            },
        }
    }
}

/// A button of the pointer.
#[derive(Clone, Copy, PartialEq, Eq, Structural, Debug)]
pub enum PointerButton {
    Primary,
    Secondary,
    Middle,
}

/// What was clicked on: a building or a part of one, a tile of the ground, or
/// something else, such as a button.
#[derive(Clone, Copy, PartialEq, Eq, Structural, Debug)]
pub enum Target {
    Building(u64, Building),
    Tile(TilePos),
    Elsewhere,
}

impl Target {
    pub open spec fn on(self, map: MapView) -> bool {
        match self {
            Target::Building(_, b) => map.holds(b.tile),
            Target::Tile(t) => map.holds(t),
            Target::Elsewhere => true,
        }
    }
}

/// What comes of a click: whether it ends here, so that nothing further up the
/// hierarchy sees it, the building that was placed with its job, and the
/// building that was taken down.
#[derive(Clone, Copy, Debug)]
pub struct Outcome {
    pub consumed: bool,
    pub placed: Option<(BuildingRow, JobRow)>,
    pub demolished: Option<u64>,
}

/// What a click changes.
pub ghost struct Hand {
    pub map: MapView,
    pub stock: Stockpile,
    pub tool: Tool,
    pub selected: Option<u64>,
    pub notice: NoticeView,
}

/// Why a building cannot be placed, if it cannot: logs come first.
pub open spec fn rejection(
    map: MapView,
    stock: Stockpile,
    kind: BuildingKind,
    tile: TilePos,
) -> Option<Seq<char>> {
    if stock.logs < kind.cost() {
        Some("not enough logs"@)
    } else {
        map.refusal(kind, tile)
    }
}

impl Hand {
    /// A building was clicked on with the primary button: it is taken down with
    /// that tool, and selected with any other.
    pub open spec fn on_building(self, id: u64, b: Building) -> Hand {
        if self.tool == Tool::Demolish {
            Hand {
                map: self.map.without_building(b.kind, b.tile),
                stock: Stockpile {
                    logs: crate::sim::stock::plus(self.stock.logs, b.kind.cost() as int / 2),
                    ..self.stock
                },
                selected: if self.selected == Some(id) {
                    None
                } else {
                    self.selected
                },
                ..self
            }
        } else {
            Hand { selected: Some(id), ..self }
        }
    }

    /// A tile was clicked on with the primary button: a building is placed
    /// there, or it is said why not; with any other tool nothing is selected
    /// any more.
    pub open spec fn on_tile(self, tile: TilePos, id: u64, now: u64) -> Hand {
        match self.tool {
            Tool::Build(kind) => match rejection(self.map, self.stock, kind, tile) {
                None => Hand {
                    map: self.map.with_building(kind, tile, id),
                    stock: Stockpile {
                        logs: crate::sim::stock::plus(self.stock.logs, -kind.cost()),
                        ..self.stock
                    },
                    ..self
                },
                Some(reason) => Hand {
                    notice: NoticeView {
                        message: Some("Can't build here: "@ + reason),
                        expires: (now + REFUSAL_TIME) as u64,
                    },
                    ..self
                },
            },
            _ => Hand { selected: None, ..self },
        }
    }

    /// What a click makes of this.
    pub open spec fn clicked(
        self,
        playing: bool,
        button: PointerButton,
        target: Target,
        id: u64,
        now: u64,
    ) -> Hand {
        if !playing {
            self
        } else if button == PointerButton::Secondary {
            Hand { tool: Tool::Select, selected: None, ..self }
        } else if button != PointerButton::Primary {
            self
        } else {
            match target {
                Target::Building(e, b) => self.on_building(e, b),
                Target::Tile(t) => self.on_tile(t, id, now),
                Target::Elsewhere => self,
            }
        }
    }

    /// What comes of it.
    pub open spec fn outcome(
        self,
        playing: bool,
        button: PointerButton,
        target: Target,
        id: u64,
        job: u64,
    ) -> Outcome {
        let acts = playing && button == PointerButton::Primary;
        Outcome {
            consumed: acts && target != Target::Elsewhere,
            placed: match (target, self.tool) {
                (Target::Tile(t), Tool::Build(kind)) => if acts && rejection(
                    self.map,
                    self.stock,
                    kind,
                    t,
                ) is None {
                    Some(
                        (
                            crate::sim::buildings::placed_row(kind, t, id),
                            crate::sim::buildings::build_job(kind, t, id, job),
                        ),
                    )
                } else {
                    None
                },
                _ => None,
            },
            demolished: match target {
                Target::Building(e, _) => if acts && self.tool == Tool::Demolish {
                    Some(e)
                } else {
                    None
                },
                _ => None,
            },
        }
    }
}

pub open spec fn hand(
    map: MapView,
    stock: Stockpile,
    tool: Tool,
    selected: Option<u64>,
    notice: NoticeView,
) -> Hand {
    Hand { map, stock, tool, selected, notice }
}

/// A click during play. The secondary button puts the tool away; the primary
/// button uses it. `id` and `job` are the entities for a new building and for
/// the job of building it.
pub fn handle_click(
    playing: bool,
    button: PointerButton,
    target: Target,
    map: &mut TileMap,
    stockpile: &mut Stockpile,
    tool: &mut Tool,
    selected: &mut Option<u64>,
    notice: &mut Notice,
    now: u64,
    id: u64,
    job: u64,
) -> (r: Outcome)
    requires
        old(map).wf(),
        target.on(old(map)@),
        now + REFUSAL_TIME <= u64::MAX,
    ensures
        final(map).wf(),
        hand(final(map)@, *final(stockpile), *final(tool), *final(selected), final(notice)@)
            == hand(
            old(map)@,
            *old(stockpile),
            *old(tool),
            *old(selected),
            old(notice)@,
        ).clicked(playing, button, target, id, now),
        r == hand(
            old(map)@,
            *old(stockpile),
            *old(tool),
            *old(selected),
            old(notice)@,
        ).outcome(playing, button, target, id, job),
{
    let mut r = Outcome { consumed: false, placed: None, demolished: None };
    if !playing {
        return r;
    }
    if button == PointerButton::Secondary {
        *tool = Tool::Select;
        *selected = None;
        return r;
    }
    if button != PointerButton::Primary {
        return r;
    }
    match target {
        Target::Building(root, building) => {
            r.consumed = true;
            if *tool == Tool::Demolish {
                demolish(map, stockpile, &building);
                let gone = match *selected {
                    Some(e) => e == root,
                    None => false,
                };
                if gone {
                    *selected = None;
                }
                r.demolished = Some(root);
            } else {
                *selected = Some(root);
            }
        },
        Target::Tile(tile) => {
            r.consumed = true;
            match *tool {
                Tool::Build(kind) => {
                    let d = def(kind);
                    let refusal = if stockpile.logs < d.cost_logs {
                        Some("not enough logs")
                    } else {
                        placement_error(map, kind, tile)
                    };
                    match refusal {
                        None => {
                            r.placed = Some(place_building(map, stockpile, kind, tile, id, job));
                        },
                        Some(reason) => {
                            let mut message = "Can't build here: ".to_owned();
                            message.append(reason);
                            notice.message = Some(message);
                            notice.expires = now + REFUSAL_TIME;
                        },
                    }
                },
                _ => {
                    *selected = None;
                },
            }
        },
        Target::Elsewhere => {},
    }
    r
}

/// A click that is refused changes nothing but what is said to the player.
pub proof fn refusals_cost_nothing(
    before: Hand,
    tile: TilePos,
    kind: BuildingKind,
    id: u64,
    job: u64,
    now: u64,
)
    requires
        before.tool == Tool::Build(kind),
        rejection(before.map, before.stock, kind, tile) is Some,
    ensures
        ({
            let after = before.clicked(true, PointerButton::Primary, Target::Tile(tile), id, now);
            &&& after == (Hand { notice: after.notice, ..before })
            &&& after.notice.message is Some
            &&& before.outcome(
                true,
                PointerButton::Primary,
                Target::Tile(tile),
                id,
                job,
            ).placed is None
        }),
{
}

/// No click spends logs that the colony does not have.
pub proof fn clicks_never_overspend(
    before: Hand,
    playing: bool,
    button: PointerButton,
    target: Target,
    id: u64,
    now: u64,
)
    requires
        before.stock.logs >= 0,
    ensures
        before.clicked(playing, button, target, id, now).stock.logs >= 0,
{
}

/// A click on a building is seen once: it does not travel on to what is above,
/// so that nothing is taken down, and paid back, twice.
pub proof fn building_clicks_are_seen_once(
    before: Hand,
    e: u64,
    b: Building,
    id: u64,
    job: u64,
)
    ensures
        before.outcome(true, PointerButton::Primary, Target::Building(e, b), id, job).consumed,
        before.outcome(
            true,
            PointerButton::Primary,
            Target::Building(e, b),
            id,
            job,
        ).demolished is Some <==> before.tool == Tool::Demolish,
{
}

/// The preview of a building, shown where the pointer is while a build tool is
/// in hand: what, where, and whether it could be placed.
pub fn placement_preview(
    tool: Tool,
    hover: Option<TilePos>,
    map: &TileMap,
    stockpile: &Stockpile,
) -> (r: Option<(BuildingKind, TilePos, bool)>)
    requires
        map.wf(),
        hover matches Some(t) ==> map@.holds(t),
    ensures
        r == match (tool, hover) {
            (Tool::Build(kind), Some(t)) => Some(
                (kind, t, rejection(map@, *stockpile, kind, t) is None),
            ),
            _ => None,
        },
{
    match tool {
        Tool::Build(kind) => match hover {
            Some(t) => {
                let d = def(kind);
                let ok = placement_error(map, kind, t).is_none() && stockpile.logs >= d.cost_logs;
                Some((kind, t, ok))
            },
            None => None,
        },
        _ => None,
    }
}

/// What the preview promises holds: where it shows that a building can be
/// placed, a click places it, and elsewhere it does not.
pub proof fn the_preview_tells_the_truth(
    before: Hand,
    kind: BuildingKind,
    tile: TilePos,
    id: u64,
    job: u64,
)
    requires
        before.tool == Tool::Build(kind),
    ensures
        before.outcome(
            true,
            PointerButton::Primary,
            Target::Tile(tile),
            id,
            job,
        ).placed is Some <==> rejection(before.map, before.stock, kind, tile) is None,
{
}

} // verus!
