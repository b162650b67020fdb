//! Reactive dependencies: descriptions of what to watch, answered with Bevy's
//! change ticks. A `Dep` holds no state of its own. What one reactor instance
//! remembers of it stands in a `DepState`, and sweeps over a whole world are
//! shared through `SharedScans`.
//!
//! Component and resource types are named by their ids. What only typed code
//! can read (a projected value, the members of a relation, a query's change
//! ticks, a message buffer) is asked for with an `Ask` and handed in as a
//! `Reading`.
use bevy::ecs::entity::EntityHashSet;
use bevy::ecs::world::World;
use vstd::prelude::*;

use crate::ecs::{edge_ticks, is_live, parent, resource_ticks_of, set_contains, ticks_of};
use crate::scan::SharedScans;
use crate::table::Key;
use crate::tick::{clamp_tick, is_newer_than, Ticks};

verus! {

/// Which entity a dependency points at: the one its reactor sits on, that
/// entity's parent, or a fixed one. The first two are resolved when the
/// dependency is checked.
#[derive(Clone, Copy)]
pub enum Target {
    This,
    Parent,
    Fixed(u64),
}

impl Target {
    /// The entity meant, for a reactor on `this`.
    pub open spec fn resolved(self, this: u64, world: World) -> Option<u64> {
        match self {
            Target::This => Some(this),
            Target::Parent => crate::ecs::lookup(crate::ecs::parent_edges(world), this),
            Target::Fixed(e) => Some(e),
        }
    }

    /// The ticks of the component `c` on the entity meant.
    pub open spec fn ticks(self, this: u64, c: usize, world: World) -> Option<Ticks> {
        match self.resolved(this, world) {
            Some(e) => crate::ecs::lookup(crate::ecs::component_ticks(world), (e, c)),
            None => None,
        }
    }

    /// A parent target also depends on the parent edge itself: moving an
    /// entity changes which parent is watched though no parent was written.
    pub open spec fn moved(self, this: u64, world: World, since: u32, this_run: u32) -> bool {
        self is Parent && match crate::ecs::lookup(crate::ecs::parent_edge_ticks(world), this) {
            Some(t) => crate::tick::changed_since(t, since, this_run),
            None => false,
        }
    }

    /// Could the entity meant be one of `written`? A parent cannot be resolved
    /// without the world and always could.
    pub open spec fn may_be_in(self, written: Set<u64>, this: u64) -> bool {
        match self {
            Target::This => written.contains(this),
            Target::Parent => true,
            Target::Fixed(e) => written.contains(e),
        }
    }

    pub fn resolve(self, this: u64, world: &World) -> (r: Option<u64>)
        ensures
            r == self.resolved(this, *world),
    {
        match self {
            Target::This => Some(this),
            Target::Parent => parent(world, this),
            Target::Fixed(e) => Some(e),
        }
    }

    fn component_ticks(self, this: u64, c: usize, world: &World) -> (r: Option<Ticks>)
        ensures
            r == self.ticks(this, c, *world),
    {
        match self.resolve(this, world) {
            Some(e) => ticks_of(world, e, c),
            None => None,
        }
    }

    pub fn reparented(self, this: u64, world: &World, since: u32, this_run: u32) -> (r: bool)
        ensures
            r == self.moved(this, *world, since, this_run),
    {
        match self {
            Target::Parent => match edge_ticks(world, this) {
                Some(t) => is_newer_than(t.1, since, this_run),
                None => false,
            },
            _ => false,
        }
    }

    pub fn maybe_in(self, written: &EntityHashSet, this: u64) -> (r: bool)
        ensures
            r == self.may_be_in(crate::ecs::members(*written), this),
    {
        match self {
            Target::This => set_contains(written, this),
            Target::Parent => true,
            Target::Fixed(e) => set_contains(written, e),
        }
    }
}

/// What a value dependency remembers. Projected values are handed over as
/// numbers; two values are equal when these are.
pub enum Cache {
    Empty,
    Value(Vec<u64>),
    Provider(Option<u64>),
    Provided(u64, Vec<u64>),
}

pub ghost enum CacheView {
    Empty,
    Value(Seq<u64>),
    Provider(Option<u64>),
    Provided(u64, Seq<u64>),
}

impl View for Cache {
    type V = CacheView;

    open spec fn view(&self) -> CacheView {
        match self {
            Cache::Empty => CacheView::Empty,
            Cache::Value(v) => CacheView::Value(v@),
            Cache::Provider(p) => CacheView::Provider(*p),
            Cache::Provided(e, v) => CacheView::Provided(*e, v@),
        }
    }
}

/// What one reactor instance remembers of one dependency.
pub struct DepState {
    pub existed: Option<bool>,
    pub count: Option<usize>,
    pub cache: Cache,
    pub seen: u32,
}

pub ghost struct StateView {
    pub existed: Option<bool>,
    pub count: Option<usize>,
    pub cache: CacheView,
    pub seen: u32,
}

impl View for DepState {
    type V = StateView;

    open spec fn view(&self) -> StateView {
        StateView {
            existed: self.existed,
            count: self.count,
            cache: self.cache@,
            seen: self.seen,
        }
    }
}

impl StateView {
    /// A dependency that has not been checked yet.
    pub open spec fn fresh() -> StateView {
        StateView { existed: None, count: None, cache: CacheView::Empty, seen: 0 }
    }
}

impl DepState {
    pub fn new() -> (r: DepState)
        ensures
            r@ == StateView::fresh(),
    {
        DepState { existed: None, count: None, cache: Cache::Empty, seen: 0 }
    }
}

/// What a check needs from typed code.
#[derive(Clone, Copy, PartialEq, Eq, Structural)]
pub enum Ask {
    /// Nothing.
    Nothing,
    /// The projection of the watched resource.
    ResourceValue,
    /// The projection of the watched component on this entity.
    ValueOn(u64),
    /// The members of the watched relation of this entity, in order.
    MembersOf(u64),
    /// The change tick of every component of the watched type.
    Sweep,
    /// How many messages of the watched type came since the last reading.
    Unread,
    /// The assets named by the events that came since the last reading.
    Events,
}

/// The answer to an `Ask`.
pub enum Reading {
    Nothing,
    Value(Vec<u64>),
    Members(Vec<u64>),
    Changed(Vec<u32>),
    Unread(usize),
    Events(Vec<Key>),
}

pub ghost enum ReadingView {
    Nothing,
    Value(Seq<u64>),
    Members(Seq<u64>),
    Changed(Seq<u32>),
    Unread(usize),
    Events(Seq<Key>),
}

impl View for Reading {
    type V = ReadingView;

    open spec fn view(&self) -> ReadingView {
        match self {
            Reading::Nothing => ReadingView::Nothing,
            Reading::Value(v) => ReadingView::Value(v@),
            Reading::Members(m) => ReadingView::Members(m@),
            Reading::Changed(c) => ReadingView::Changed(c@),
            Reading::Unread(n) => ReadingView::Unread(*n),
            Reading::Events(e) => ReadingView::Events(e@),
        }
    }
}

/// Is this the kind of reading that was asked for?
pub open spec fn answers(ask: Ask, reading: ReadingView) -> bool {
    match ask {
        Ask::Nothing => true,
        Ask::ResourceValue => reading is Value,
        Ask::ValueOn(_) => reading is Value,
        Ask::MembersOf(_) => reading is Members,
        Ask::Sweep => reading is Changed,
        Ask::Unread => reading is Unread,
        Ask::Events => reading is Events,
    }
}

impl Reading {
    /// The projected value, or nothing where none was asked for.
    pub open spec fn value(r: ReadingView) -> Seq<u64> {
        match r {
            ReadingView::Value(v) => v,
            _ => Seq::empty(),
        }
    }

    pub open spec fn members(r: ReadingView) -> Seq<u64> {
        match r {
            ReadingView::Members(m) => m,
            _ => Seq::empty(),
        }
    }

    pub open spec fn changed(r: ReadingView) -> Seq<u32> {
        match r {
            ReadingView::Changed(c) => c,
            _ => Seq::empty(),
        }
    }

    pub open spec fn unread(r: ReadingView) -> usize {
        match r {
            ReadingView::Unread(n) => n,
            _ => 0,
        }
    }

    pub open spec fn events(r: ReadingView) -> Seq<Key> {
        match r {
            ReadingView::Events(e) => e,
            _ => Seq::empty(),
        }
    }
}

/// One declared dependency of a reactor.
#[derive(Clone, Copy)]
pub enum Dep {
    Resource(usize),
    ResourceValue(usize),
    ResourcePresence(usize),
    Component(Target, usize),
    ComponentValue(Target, usize),
    Presence(Target, usize),
    Components(Key),
    Related { target: Target, set: usize, member: usize },
    Ancestor(usize),
    AncestorValue(usize),
    Message(Key),
    Asset { kind: Key, id: Key },
}

/// How many steps up the hierarchy an ancestor is looked for. A hierarchy has
/// no cycles; one that does shall not be walked for ever.
pub const MAX_ANCESTOR_DEPTH: usize = 256;

/// The entity `depth` parent edges above `e`.
pub open spec fn ancestor_at(world: World, e: u64, depth: nat) -> Option<u64>
    decreases depth,
{
    if depth == 0 {
        Some(e)
    } else {
        match ancestor_at(world, e, (depth - 1) as nat) {
            Some(a) => crate::ecs::lookup(crate::ecs::parent_edges(world), a),
            None => None,
        }
    }
}

/// Does the ancestor of `e` at this depth carry the component `c`?
pub open spec fn provides(world: World, e: u64, c: usize, depth: nat) -> bool {
    match ancestor_at(world, e, depth) {
        Some(a) => crate::ecs::component_ticks(world).dom().contains((a, c)),
        None => false,
    }
}

/// `a` is the nearest strict ancestor of `e` that carries `c`, found within
/// the depth that is walked.
pub open spec fn is_nearest(world: World, e: u64, c: usize, a: u64) -> bool {
    exists|d: nat|
        1 <= d <= MAX_ANCESTOR_DEPTH && #[trigger] provides(world, e, c, d)
            && ancestor_at(world, e, d) == Some(a) && forall|k: nat|
            1 <= k < d ==> !#[trigger] provides(world, e, c, k)
}

/// The nearest strict ancestor of `e` that carries `c`, if the walk meets one.
pub open spec fn nearest(world: World, e: u64, c: usize) -> Option<u64> {
    if exists|a: u64| #[trigger] is_nearest(world, e, c, a) {
        Some(choose|a: u64| #[trigger] is_nearest(world, e, c, a))
    } else {
        None
    }
}

/// No two ancestors are nearest.
pub(crate) proof fn nearest_is_unique(world: World, e: u64, c: usize, a: u64, b: u64)
    requires
        is_nearest(world, e, c, a),
        is_nearest(world, e, c, b),
    ensures
        a == b,
{
    let da = choose|d: nat|
        1 <= d <= MAX_ANCESTOR_DEPTH && #[trigger] provides(world, e, c, d)
            && ancestor_at(world, e, d) == Some(a) && forall|k: nat|
            1 <= k < d ==> !#[trigger] provides(world, e, c, k);
    let db = choose|d: nat|
        1 <= d <= MAX_ANCESTOR_DEPTH && #[trigger] provides(world, e, c, d)
            && ancestor_at(world, e, d) == Some(b) && forall|k: nat|
            1 <= k < d ==> !#[trigger] provides(world, e, c, k);
    assert(provides(world, e, c, da) && provides(world, e, c, db));
    assert(da == db);
}

/// Walk up from `e` to the nearest strict ancestor that carries `c`. Both the
/// dependency on an ancestor and the reading of its value go by this walk.
pub fn nearest_ancestor_entity(world: &World, e: u64, c: usize) -> (r: Option<u64>)
    ensures
        r == nearest(*world, e, c),
{
    let mut cur: u64 = match parent(world, e) {
        Some(p) => p,
        None => {
            proof {
                reveal_with_fuel(ancestor_at, 2);
                assert forall|a: u64| !#[trigger] is_nearest(*world, e, c, a) by {
                    if is_nearest(*world, e, c, a) {
                        no_ancestor_above(*world, e, 1);
                    }
                }
            }
            return None;
        },
    };
    proof {
        reveal_with_fuel(ancestor_at, 2);
    }
    let mut depth: usize = 1;
    while depth <= MAX_ANCESTOR_DEPTH
        invariant
            1 <= depth <= MAX_ANCESTOR_DEPTH + 1,
            ancestor_at(*world, e, depth as nat) == Some(cur),
            forall|k: nat| 1 <= k < depth ==> !#[trigger] provides(*world, e, c, k),
        decreases MAX_ANCESTOR_DEPTH + 1 - depth,
    {
        if ticks_of(world, cur, c).is_some() {
            proof {
                assert(provides(*world, e, c, depth as nat));
                assert(is_nearest(*world, e, c, cur));
                let other = choose|a: u64| #[trigger] is_nearest(*world, e, c, a);
                nearest_is_unique(*world, e, c, cur, other);
            }
            return Some(cur);
        }
        assert(!provides(*world, e, c, depth as nat));
        match parent(world, cur) {
            Some(p) => {
                cur = p;
            },
            None => {
                proof {
                    assert forall|a: u64| !#[trigger] is_nearest(*world, e, c, a) by {
                        if is_nearest(*world, e, c, a) {
                            no_ancestor_above(*world, e, (depth + 1) as nat);
                        }
                    }
                }
                return None;
            },
        }
        depth += 1;
    }
    None
}

/// Above a missing ancestor there is none.
pub(crate) proof fn no_ancestor_above(world: World, e: u64, d: nat)
    requires
        ancestor_at(world, e, d) is None,
    ensures
        forall|k: nat| k >= d ==> #[trigger] ancestor_at(world, e, k) is None,
{
    assert forall|k: nat| k >= d implies #[trigger] ancestor_at(world, e, k) is None by {
        no_ancestor_at(world, e, d, k);
    }
}

proof fn no_ancestor_at(world: World, e: u64, d: nat, k: nat)
    requires
        ancestor_at(world, e, d) is None,
        k >= d,
    ensures
        ancestor_at(world, e, k) is None,
    decreases k,
{
    if k > d {
        no_ancestor_at(world, e, d, (k - 1) as nat);
    }
}

/// Are the two lists equal?
fn same_value(a: &Vec<u64>, b: &Vec<u64>) -> (r: bool)
    ensures
        r == (a@ == b@),
{
    if a.len() != b.len() {
        return false;
    }
    let mut i: usize = 0;
    while i < a.len()
        invariant
            a@.len() == b@.len(),
            i <= a@.len(),
            forall|j: int| 0 <= j < i ==> a@[j] == b@[j],
        decreases a@.len() - i,
    {
        if a[i] != b[i] {
            return false;
        }
        i += 1;
    }
    proof {
        assert(a@ =~= b@);
    }
    true
}

/// How many of these entities carry the component `c`.
pub open spec fn carriers(world: World, members: Seq<u64>, c: usize) -> nat
    decreases members.len(),
{
    if members.len() == 0 {
        0
    } else {
        carriers(world, members.drop_last(), c) + if crate::ecs::component_ticks(
            world,
        ).dom().contains((members.last(), c)) {
            1nat
        } else {
            0nat
        }
    }
}

/// Was the component `c` of one of these entities written after `last_run`?
pub open spec fn any_changed(
    world: World,
    members: Seq<u64>,
    c: usize,
    last_run: u32,
    this_run: u32,
) -> bool {
    exists|i: int|
        0 <= i < members.len() && ticks_changed(
            crate::ecs::lookup(crate::ecs::component_ticks(world), (#[trigger] members[i], c)),
            last_run,
            this_run,
        )
}

/// Is there such a component, and was it written after `since`?
pub open spec fn ticks_changed(t: Option<Ticks>, since: u32, this_run: u32) -> bool {
    match t {
        Some(t) => crate::tick::changed_since(t, since, this_run),
        None => false,
    }
}

/// Is there such a component, and was it added after `since`?
pub open spec fn ticks_added(t: Option<Ticks>, since: u32, this_run: u32) -> bool {
    match t {
        Some(t) => crate::tick::added_since(t, since, this_run),
        None => false,
    }
}

fn changed(t: Option<Ticks>, since: u32, this_run: u32) -> (r: bool)
    ensures
        r == ticks_changed(t, since, this_run),
{
    match t {
        Some(t) => is_newer_than(t.1, since, this_run),
        None => false,
    }
}

fn added(t: Option<Ticks>, since: u32, this_run: u32) -> (r: bool)
    ensures
        r == ticks_added(t, since, this_run),
{
    match t {
        Some(t) => is_newer_than(t.0, since, this_run),
        None => false,
    }
}

/// Remember whether the watched thing exists; was that news?
fn note_existence(state: &mut DepState, exists: bool) -> (news: bool)
    ensures
        news == (old(state).existed != Some(exists)),
        final(state)@ == (StateView { existed: Some(exists), ..old(state)@ }),
{
    let news = match state.existed {
        Some(before) => before != exists,
        None => true,
    };
    state.existed = Some(exists);
    news
}

/// Forget the projected value; was there one?
fn forget(state: &mut DepState) -> (had: bool)
    ensures
        had == !(old(state)@.cache is Empty),
        final(state)@ == (StateView { cache: CacheView::Empty, ..old(state)@ }),
{
    let had = match state.cache {
        Cache::Empty => false,
        _ => true,
    };
    state.cache = Cache::Empty;
    had
}

impl StateView {
    /// The state with `seen` kept within the age that ticks can tell.
    pub open spec fn current(self, this_run: u32) -> StateView {
        StateView { seen: crate::tick::clamped(self.seen, this_run), ..self }
    }

    /// What a projection that gives `value` does: it wakes the reactor where
    /// the value is another than the one remembered.
    pub open spec fn projected(self, value: Seq<u64>, this_run: u32) -> (bool, StateView) {
        (
            self.cache != CacheView::Value(value),
            StateView { cache: CacheView::Value(value), seen: this_run, ..self },
        )
    }

    /// What a missing source does: it wakes the reactor once.
    pub open spec fn vanished(self) -> (bool, StateView) {
        (!(self.cache is Empty), StateView { cache: CacheView::Empty, ..self })
    }

    /// Is the remembered value one that this entity provided?
    pub open spec fn provided_by(self, provider: u64) -> bool {
        match self.cache {
            CacheView::Provided(e, _) => e == provider,
            _ => false,
        }
    }
}

/// Take in a projected value; is it news?
fn note_value(state: &mut DepState, value: Vec<u64>, this_run: u32) -> (news: bool)
    ensures
        (news, final(state)@) == old(state)@.projected(value@, this_run),
{
    state.seen = this_run;
    let same = match &state.cache {
        Cache::Value(before) => same_value(before, &value),
        _ => false,
    };
    if !same {
        state.cache = Cache::Value(value);
    }
    !same
}

impl Dep {
    /// Is the projection of the watched thing due, its ticks being these? It
    /// is not while a value is remembered and nothing was written since.
    pub open spec fn gate_open(
        st: StateView,
        t: Option<Ticks>,
        moved: bool,
        this_run: u32,
    ) -> bool {
        t is Some && (st.cache is Empty || moved || ticks_changed(t, st.seen, this_run))
    }

    /// What a check needs from typed code.
    pub open spec fn asked(
        self,
        world: World,
        scans: crate::scan::ScansView,
        this: u64,
        state: StateView,
        this_run: u32,
    ) -> Ask {
        let st = state.current(this_run);
        match self {
            Dep::ResourceValue(r) => if Dep::gate_open(
                st,
                crate::ecs::lookup(crate::ecs::resource_ticks(world), r),
                false,
                this_run,
            ) {
                Ask::ResourceValue
            } else {
                Ask::Nothing
            },
            Dep::ComponentValue(target, c) => if Dep::gate_open(
                st,
                target.ticks(this, c, world),
                target.moved(this, world, st.seen, this_run),
                this_run,
            ) {
                Ask::ValueOn(target.resolved(this, world)->0)
            } else {
                Ask::Nothing
            },
            Dep::AncestorValue(c) => match nearest(world, this, c) {
                Some(p) => if st.provided_by(p) && !ticks_changed(
                    crate::ecs::lookup(crate::ecs::component_ticks(world), (p, c)),
                    st.seen,
                    this_run,
                ) {
                    Ask::Nothing
                } else {
                    Ask::ValueOn(p)
                },
                None => Ask::Nothing,
            },
            Dep::Related { target, .. } => match target.resolved(this, world) {
                Some(e) => if crate::ecs::live_entities(world).contains(e) {
                    Ask::MembersOf(e)
                } else {
                    Ask::Nothing
                },
                None => Ask::Nothing,
            },
            Dep::Components(k) => if scans.component(k, this_run).scanned_at != Some(this_run) {
                Ask::Sweep
            } else {
                Ask::Nothing
            },
            Dep::Message(k) => if scans.message(k, this_run).scanned_at != Some(this_run) {
                Ask::Unread
            } else {
                Ask::Nothing
            },
            Dep::Asset { kind, .. } => if scans.asset(kind, this_run).scanned_at != Some(this_run) {
                Ask::Events
            } else {
                Ask::Nothing
            },
            _ => Ask::Nothing,
        }
    }

    /// The shared scans after a check.
    pub open spec fn scans_after(
        self,
        scans: crate::scan::ScansView,
        reading: ReadingView,
        this_run: u32,
    ) -> crate::scan::ScansView {
        match self {
            Dep::Components(k) => scans.after_sweep(k, Reading::changed(reading), this_run),
            Dep::Message(k) => scans.after_messages(k, Reading::unread(reading), this_run),
            Dep::Asset { kind, .. } => scans.after_events(kind, Reading::events(reading), this_run),
            _ => scans,
        }
    }

    /// Whether a check finds the dependency dirty, and what the reactor
    /// remembers of it afterwards.
    pub open spec fn outcome(
        self,
        world: World,
        scans: crate::scan::ScansView,
        this: u64,
        state: StateView,
        last_run: u32,
        this_run: u32,
        reading: ReadingView,
    ) -> (bool, StateView) {
        let ask = self.asked(world, scans, this, state, this_run);
        let after = self.scans_after(scans, reading, this_run);
        match self {
            Dep::Resource(r) => {
                let t = crate::ecs::lookup(crate::ecs::resource_ticks(world), r);
                (
                    state.existed != Some(t is Some) || ticks_changed(t, last_run, this_run),
                    StateView { existed: Some(t is Some), ..state },
                )
            },
            Dep::ResourcePresence(r) => {
                let t = crate::ecs::lookup(crate::ecs::resource_ticks(world), r);
                (
                    state.existed != Some(t is Some),
                    StateView { existed: Some(t is Some), ..state },
                )
            },
            Dep::Component(target, c) => {
                let t = target.ticks(this, c, world);
                (
                    state.existed != Some(t is Some) || target.moved(
                        this,
                        world,
                        last_run,
                        this_run,
                    ) || ticks_changed(t, last_run, this_run),
                    StateView { existed: Some(t is Some), ..state },
                )
            },
            Dep::Presence(target, c) => {
                let t = target.ticks(this, c, world);
                (
                    state.existed != Some(t is Some) || target.moved(
                        this,
                        world,
                        last_run,
                        this_run,
                    ) || ticks_added(t, last_run, this_run),
                    StateView { existed: Some(t is Some), ..state },
                )
            },
            Dep::ResourceValue(r) => {
                let st = state.current(this_run);
                if crate::ecs::lookup(crate::ecs::resource_ticks(world), r) is None {
                    st.vanished()
                } else if ask == Ask::Nothing {
                    (false, st)
                } else {
                    st.projected(Reading::value(reading), this_run)
                }
            },
            Dep::ComponentValue(target, c) => {
                let st = state.current(this_run);
                if target.ticks(this, c, world) is None {
                    st.vanished()
                } else if ask == Ask::Nothing {
                    (false, st)
                } else {
                    st.projected(Reading::value(reading), this_run)
                }
            },
            Dep::Components(k) => (
                crate::tick::newer(after.component(k, this_run).dirty_stamp, last_run, this_run),
                state,
            ),
            Dep::Message(k) => (
                crate::tick::newer(after.message(k, this_run).dirty_stamp, last_run, this_run),
                state,
            ),
            Dep::Asset { kind, id } => (
                crate::tick::newer(after.asset(kind, this_run).stamp_of(id), last_run, this_run),
                state,
            ),
            Dep::Related { target, set, member } => match target.resolved(this, world) {
                None => (false, state),
                Some(e) => {
                    let members = if ask == Ask::Nothing {
                        Seq::empty()
                    } else {
                        Reading::members(reading)
                    };
                    let count = carriers(world, members, member) as usize;
                    let t = crate::ecs::lookup(crate::ecs::component_ticks(world), (e, set));
                    (
                        state.existed != Some(t is Some) || ticks_changed(t, last_run, this_run)
                            || any_changed(world, members, member, last_run, this_run)
                            || state.count != Some(count),
                        StateView { existed: Some(t is Some), count: Some(count), ..state },
                    )
                },
            },
            Dep::Ancestor(c) => {
                let p = nearest(world, this, c);
                (
                    state.cache != CacheView::Provider(p) || match p {
                        Some(e) => ticks_changed(
                            crate::ecs::lookup(crate::ecs::component_ticks(world), (e, c)),
                            last_run,
                            this_run,
                        ),
                        None => false,
                    },
                    StateView { cache: CacheView::Provider(p), ..state },
                )
            },
            Dep::AncestorValue(c) => {
                let st = state.current(this_run);
                match nearest(world, this, c) {
                    None => st.vanished(),
                    Some(p) => if ask == Ask::Nothing {
                        (false, st)
                    } else {
                        let value = Reading::value(reading);
                        (
                            match st.cache {
                                CacheView::Provided(_, v) => v != value,
                                _ => true,
                            },
                            StateView {
                                cache: CacheView::Provided(p, value),
                                seen: this_run,
                                ..st
                            },
                        )
                    },
                }
            },
        }
    }

    /// Tell what a check at `this_run` needs from typed code.
    pub fn asks(
        &self,
        world: &World,
        scans: &SharedScans,
        this: u64,
        state: &DepState,
        this_run: u32,
    ) -> (r: Ask)
        requires
            scans.wf(),
        ensures
            r == self.asked(*world, scans@, this, state@, this_run),
    {
        let mut seen: u32 = state.seen;
        clamp_tick(&mut seen, this_run);
        let empty = match state.cache {
            Cache::Empty => true,
            _ => false,
        };
        match *self {
            Dep::ResourceValue(r) => {
                let t = resource_ticks_of(world, r);
                if t.is_some() && (empty || changed(t, seen, this_run)) {
                    Ask::ResourceValue
                } else {
                    Ask::Nothing
                }
            },
            Dep::ComponentValue(target, c) => {
                let t = target.component_ticks(this, c, world);
                match target.resolve(this, world) {
                    Some(e) => if t.is_some() && (empty || target.reparented(
                        this,
                        world,
                        seen,
                        this_run,
                    ) || changed(t, seen, this_run)) {
                        Ask::ValueOn(e)
                    } else {
                        Ask::Nothing
                    },
                    None => Ask::Nothing,
                }
            },
            Dep::AncestorValue(c) => match nearest_ancestor_entity(world, this, c) {
                Some(p) => {
                    let same = match &state.cache {
                        Cache::Provided(e, _) => *e == p,
                        _ => false,
                    };
                    if same && !changed(ticks_of(world, p, c), seen, this_run) {
                        Ask::Nothing
                    } else {
                        Ask::ValueOn(p)
                    }
                },
                None => Ask::Nothing,
            },
            Dep::Related { target, set: _, member: _ } => match target.resolve(this, world) {
                Some(e) => if is_live(world, e) {
                    Ask::MembersOf(e)
                } else {
                    Ask::Nothing
                },
                None => Ask::Nothing,
            },
            Dep::Components(k) => if scans.wants_sweep(k, this_run) {
                Ask::Sweep
            } else {
                Ask::Nothing
            },
            Dep::Message(k) => if scans.wants_messages(k, this_run) {
                Ask::Unread
            } else {
                Ask::Nothing
            },
            Dep::Asset { kind, id: _ } => if scans.wants_events(kind, this_run) {
                Ask::Events
            } else {
                Ask::Nothing
            },
            _ => Ask::Nothing,
        }
    }

    /// Is the dependency dirty, for a reactor on `this` that last ran at
    /// `last_run`? Brings the shared scans and what the reactor remembers up
    /// to date. `reading` is the answer to `asks`.
    pub fn check(
        &self,
        world: &World,
        scans: &mut SharedScans,
        this: u64,
        state: &mut DepState,
        last_run: u32,
        this_run: u32,
        reading: Reading,
    ) -> (dirty: bool)
        requires
            old(scans).wf(),
            answers(self.asked(*world, old(scans)@, this, old(state)@, this_run), reading@),
        ensures
            final(scans).wf(),
            final(scans)@ == self.scans_after(old(scans)@, reading@, this_run),
            (dirty, final(state)@) == self.outcome(
                *world,
                old(scans)@,
                this,
                old(state)@,
                last_run,
                this_run,
                reading@,
            ),
    {
        let ask = self.asks(world, scans, this, state, this_run);
        match *self {
            Dep::Resource(r) => {
                let t = resource_ticks_of(world, r);
                let news = note_existence(state, t.is_some());
                news || changed(t, last_run, this_run)
            },
            Dep::ResourcePresence(r) => {
                let t = resource_ticks_of(world, r);
                note_existence(state, t.is_some())
            },
            Dep::Component(target, c) => {
                let t = target.component_ticks(this, c, world);
                let news = note_existence(state, t.is_some());
                news || target.reparented(this, world, last_run, this_run) || changed(
                    t,
                    last_run,
                    this_run,
                )
            },
            Dep::Presence(target, c) => {
                let t = target.component_ticks(this, c, world);
                let news = note_existence(state, t.is_some());
                news || target.reparented(this, world, last_run, this_run) || added(
                    t,
                    last_run,
                    this_run,
                )
            },
            Dep::ResourceValue(r) => {
                clamp_tick(&mut state.seen, this_run);
                if resource_ticks_of(world, r).is_none() {
                    return forget(state);
                }
                match (ask, reading) {
                    (Ask::ResourceValue, Reading::Value(v)) => note_value(state, v, this_run),
                    _ => false,
                }
            },
            Dep::ComponentValue(target, c) => {
                clamp_tick(&mut state.seen, this_run);
                if target.component_ticks(this, c, world).is_none() {
                    return forget(state);
                }
                match (ask, reading) {
                    (Ask::ValueOn(_), Reading::Value(v)) => note_value(state, v, this_run),
                    _ => false,
                }
            },
            Dep::Components(k) => {
                let stamp: u32 = match reading {
                    Reading::Changed(c) => scans.stamp(k, &c, this_run),
                    _ => scans.stamp(k, &Vec::new(), this_run),
                };
                is_newer_than(stamp, last_run, this_run)
            },
            Dep::Message(k) => {
                let unread: usize = match reading {
                    Reading::Unread(n) => n,
                    _ => 0,
                };
                let stamp: u32 = scans.message_stamp(k, unread, this_run);
                is_newer_than(stamp, last_run, this_run)
            },
            Dep::Asset { kind, id } => {
                let stamp: u32 = match reading {
                    Reading::Events(e) => scans.asset_stamp(kind, id, &e, this_run),
                    _ => scans.asset_stamp(kind, id, &Vec::new(), this_run),
                };
                is_newer_than(stamp, last_run, this_run)
            },
            Dep::Related { target, set, member } => {
                let e: u64 = match target.resolve(this, world) {
                    Some(e) => e,
                    None => return false,
                };
                let members: Vec<u64> = match (ask, reading) {
                    (Ask::MembersOf(_), Reading::Members(m)) => m,
                    _ => Vec::new(),
                };
                check_related(world, e, set, member, &members, state, last_run, this_run)
            },
            Dep::Ancestor(c) => {
                let provider = nearest_ancestor_entity(world, this, c);
                let same = match &state.cache {
                    Cache::Provider(before) => match (*before, provider) {
                        (Some(a), Some(b)) => a == b,
                        (None, None) => true,
                        _ => false,
                    },
                    _ => false,
                };
                state.cache = Cache::Provider(provider);
                !same || match provider {
                    Some(e) => changed(ticks_of(world, e, c), last_run, this_run),
                    None => false,
                }
            },
            Dep::AncestorValue(c) => {
                clamp_tick(&mut state.seen, this_run);
                let provider: u64 = match nearest_ancestor_entity(world, this, c) {
                    Some(p) => p,
                    None => return forget(state),
                };
                match (ask, reading) {
                    (Ask::ValueOn(_), Reading::Value(v)) => {
                        state.seen = this_run;
                        let same = match &state.cache {
                            Cache::Provided(_, before) => same_value(before, &v),
                            _ => false,
                        };
                        state.cache = Cache::Provided(provider, v);
                        !same
                    },
                    _ => false,
                }
            },
        }
    }

    /// Could this dependency have been made dirty by a pass that wrote exactly
    /// the entities in `written`?
    pub open spec fn may_be_affected(self, written: Set<u64>, this: u64) -> bool {
        match self {
            Dep::Component(target, _) => target.may_be_in(written, this),
            Dep::ComponentValue(target, _) => target.may_be_in(written, this),
            Dep::Presence(target, _) => target.may_be_in(written, this),
            _ => true,
        }
    }

    pub fn maybe_affected(&self, written: &EntityHashSet, this: u64) -> (r: bool)
        ensures
            r == self.may_be_affected(crate::ecs::members(*written), this),
    {
        match *self {
            Dep::Component(target, _) => target.maybe_in(written, this),
            Dep::ComponentValue(target, _) => target.maybe_in(written, this),
            Dep::Presence(target, _) => target.maybe_in(written, this),
            _ => true,
        }
    }

    /// The component type that this dependency watches on chosen entities.
    pub open spec fn watches(self) -> Option<usize> {
        match self {
            Dep::Component(_, c) => Some(c),
            Dep::ComponentValue(_, c) => Some(c),
            Dep::Presence(_, c) => Some(c),
            Dep::Related { member, .. } => Some(member),
            Dep::Ancestor(c) => Some(c),
            Dep::AncestorValue(c) => Some(c),
            _ => None,
        }
    }

    pub fn watched_type(&self) -> (r: Option<usize>)
        ensures
            r == self.watches(),
    {
        match *self {
            Dep::Component(_, c) => Some(c),
            Dep::ComponentValue(_, c) => Some(c),
            Dep::Presence(_, c) => Some(c),
            Dep::Related { target: _, set: _, member } => Some(member),
            Dep::Ancestor(c) => Some(c),
            Dep::AncestorValue(c) => Some(c),
            _ => None,
        }
    }
}

/// The check of a relation: did the set come or go, was it written, was the
/// watched component of a member written, or do more or fewer members carry it?
fn check_related(
    world: &World,
    e: u64,
    set: usize,
    member: usize,
    members: &Vec<u64>,
    state: &mut DepState,
    last_run: u32,
    this_run: u32,
) -> (dirty: bool)
    ensures
        ({
            let t = crate::ecs::lookup(crate::ecs::component_ticks(*world), (e, set));
            let count = carriers(*world, members@, member) as usize;
            &&& final(state)@ == (StateView {
                existed: Some(t is Some),
                count: Some(count),
                ..old(state)@
            })
            &&& dirty == (old(state)@.existed != Some(t is Some) || ticks_changed(
                t,
                last_run,
                this_run,
            ) || any_changed(*world, members@, member, last_run, this_run) || old(state)@.count
                != Some(count))
        }),
{
    let own = ticks_of(world, e, set);
    let mut dirty = changed(own, last_run, this_run);
    let ghost set_changed = dirty;
    let mut count: usize = 0;
    let mut i: usize = 0;
    while i < members.len()
        invariant
            i <= members@.len(),
            count <= i,
            count == carriers(*world, members@.take(i as int), member),
            dirty == (set_changed || any_changed(
                *world,
                members@.take(i as int),
                member,
                last_run,
                this_run,
            )),
        decreases members@.len() - i,
    {
        let t = ticks_of(world, members[i], member);
        let wrote = changed(t, last_run, this_run);
        proof {
            let prior = members@.take(i as int);
            let next = members@.take(i + 1);
            assert(next.drop_last() =~= prior);
            assert(next.last() == members@[i as int]);
            if wrote {
                assert(next[i as int] == members@[i as int]);
                assert(any_changed(*world, next, member, last_run, this_run));
            }
            if any_changed(*world, prior, member, last_run, this_run) {
                let j = choose|j: int|
                    0 <= j < prior.len() && ticks_changed(
                        crate::ecs::lookup(
                            crate::ecs::component_ticks(*world),
                            (#[trigger] prior[j], member),
                        ),
                        last_run,
                        this_run,
                    );
                assert(next[j] == prior[j]);
            }
            if any_changed(*world, next, member, last_run, this_run) {
                let j = choose|j: int|
                    0 <= j < next.len() && ticks_changed(
                        crate::ecs::lookup(
                            crate::ecs::component_ticks(*world),
                            (#[trigger] next[j], member),
                        ),
                        last_run,
                        this_run,
                    );
                if j < i {
                    assert(prior[j] == next[j]);
                }
            }
        }
        if t.is_some() {
            count += 1;
        }
        if wrote {
            dirty = true;
        }
        i += 1;
    }
    proof {
        assert(members@.take(i as int) =~= members@);
    }
    let news = match state.count {
        Some(before) => before != count,
        None => true,
    };
    let moved = match state.existed {
        Some(before) => before != own.is_some(),
        None => true,
    };
    state.count = Some(count);
    state.existed = Some(own.is_some());
    dirty || news || moved
}

impl Dep {
    /// React to changes of a resource, its insertion and its removal.
    pub fn resource(resource: usize) -> (d: Dep)
        ensures
            d == Dep::Resource(resource),
    {
        Dep::Resource(resource)
    }

    /// React only when a projection of a resource changes value.
    pub fn resource_value(resource: usize) -> (d: Dep)
        ensures
            d == Dep::ResourceValue(resource),
    {
        Dep::ResourceValue(resource)
    }

    /// React only when a projection of a component of the reactor's own entity
    /// changes value.
    pub fn this_value(component: usize) -> (d: Dep)
        ensures
            d == Dep::ComponentValue(Target::This, component),
    {
        Dep::ComponentValue(Target::This, component)
    }

    /// React only when a projection of a component of one entity changes value.
    pub fn entity_value(entity: u64, component: usize) -> (d: Dep)
        ensures
            d == Dep::ComponentValue(Target::Fixed(entity), component),
    {
        Dep::ComponentValue(Target::Fixed(entity), component)
    }

    /// React only when a projection of a component of the parent changes value.
    pub fn parent_value(component: usize) -> (d: Dep)
        ensures
            d == Dep::ComponentValue(Target::Parent, component),
    {
        Dep::ComponentValue(Target::Parent, component)
    }

    /// React to changes of a component of the reactor's own entity, its insertion
    /// and its removal.
    pub fn this(component: usize) -> (d: Dep)
        ensures
            d == Dep::Component(Target::This, component),
    {
        Dep::Component(Target::This, component)
    }

    /// React to changes of a component of one entity, its insertion and its
    /// removal, the entity's own disappearance included.
    pub fn entity(entity: u64, component: usize) -> (d: Dep)
        ensures
            d == Dep::Component(Target::Fixed(entity), component),
    {
        Dep::Component(Target::Fixed(entity), component)
    }

    /// React to changes of a component of the parent of the reactor's entity.
    pub fn parent(component: usize) -> (d: Dep)
        ensures
            d == Dep::Component(Target::Parent, component),
    {
        Dep::Component(Target::Parent, component)
    }

    /// React to a component of the nearest strict ancestor that carries it.
    pub fn ancestor(component: usize) -> (d: Dep)
        ensures
            d == Dep::Ancestor(component),
    {
        Dep::Ancestor(component)
    }

    /// React only when a projection of the nearest ancestor's component changes
    /// value.
    pub fn ancestor_value(component: usize) -> (d: Dep)
        ensures
            d == Dep::AncestorValue(component),
    {
        Dep::AncestorValue(component)
    }

    /// React only when a component is inserted on or removed from an entity.
    pub fn presence(entity: u64, component: usize) -> (d: Dep)
        ensures
            d == Dep::Presence(Target::Fixed(entity), component),
    {
        Dep::Presence(Target::Fixed(entity), component)
    }

    /// `presence`, on the reactor's own entity.
    pub fn presence_this(component: usize) -> (d: Dep)
        ensures
            d == Dep::Presence(Target::This, component),
    {
        Dep::Presence(Target::This, component)
    }

    /// React only when a resource is inserted or removed.
    pub fn resource_presence(resource: usize) -> (d: Dep)
        ensures
            d == Dep::ResourcePresence(resource),
    {
        Dep::ResourcePresence(resource)
    }

    /// React when messages of a type were written since the last check.
    pub fn message(kind: Key) -> (d: Dep)
        ensures
            d == Dep::Message(kind),
    {
        Dep::Message(kind)
    }

    /// React to events about one asset.
    pub fn asset(kind: Key, id: Key) -> (d: Dep)
        ensures
            d == (Dep::Asset { kind, id }),
    {
        Dep::Asset { kind, id }
    }

    /// React when any entity's component changes, or entities with it come or go.
    /// The second number of the key is zero where no filter is set.
    pub fn components(component: u64) -> (d: Dep)
        ensures
            d == Dep::Components((component, 0)),
    {
        Dep::Components((component, 0))
    }

    /// `components`, restricted by a query filter.
    pub fn components_filtered(component: u64, filter: u64) -> (d: Dep)
        ensures
            d == Dep::Components((component, filter)),
    {
        Dep::Components((component, filter))
    }

    /// React when an entity's relation set gains, loses or reorders members.
    pub fn related(entity: u64, set: usize) -> (d: Dep)
        ensures
            d == Dep::Component(Target::Fixed(entity), set),
    {
        Dep::Component(Target::Fixed(entity), set)
    }

    /// `related`, on the reactor's own entity.
    pub fn related_this(set: usize) -> (d: Dep)
        ensures
            d == Dep::Component(Target::This, set),
    {
        Dep::Component(Target::This, set)
    }

    /// React when a component changes on any entity related to this one, or when
    /// the relation set itself changes.
    pub fn related_components(entity: u64, set: usize, member: usize) -> (d: Dep)
        ensures
            d == (Dep::Related { target: Target::Fixed(entity), set, member }),
    {
        Dep::Related { target: Target::Fixed(entity), set, member }
    }

    /// `related_components`, on the reactor's own entity.
    pub fn related_components_this(set: usize, member: usize) -> (d: Dep)
        ensures
            d == (Dep::Related { target: Target::This, set, member }),
    {
        Dep::Related { target: Target::This, set, member }
    }
}

/// The deps whose answer rests on the world alone, not on a shared scan.
pub open spec fn looks_at_world(dep: Dep) -> bool {
    !(dep is Components || dep is Message || dep is Asset)
}

/// Nothing in the world was written between `then` and `now`, and no stamp is
/// so old that ageing could make it read as new.
pub open spec fn calm(world: World, then: u32, now: u32) -> bool {
    let quiet = |t: u32| !crate::tick::newer(t, then, now) && crate::tick::age(t, then)
        <= crate::tick::MAX_CHANGE_AGE;
    &&& crate::tick::age(then, now) + crate::tick::MAX_CHANGE_AGE < 0x1_0000_0000
    &&& forall|k: (u64, usize)| crate::ecs::component_ticks(world).dom().contains(k) ==> {
        let t = #[trigger] crate::ecs::component_ticks(world)[k];
        quiet(t.0) && quiet(t.1)
    }
    &&& forall|k: usize| crate::ecs::resource_ticks(world).dom().contains(k) ==> {
        let t = #[trigger] crate::ecs::resource_ticks(world)[k];
        quiet(t.0) && quiet(t.1)
    }
    &&& forall|k: u64| crate::ecs::parent_edge_ticks(world).dom().contains(k) ==> {
        let t = #[trigger] crate::ecs::parent_edge_ticks(world)[k];
        quiet(t.0) && quiet(t.1)
    }
}

/// A dependency that was checked at `then` is found clean at `now`, whatever
/// it found at `then`, as long as nothing was written in between and a
/// relation has the same members.
pub proof fn a_checked_dependency_is_quiet(
    dep: Dep,
    world: World,
    scans: crate::scan::ScansView,
    this: u64,
    state: StateView,
    last_run: u32,
    then: u32,
    reading: ReadingView,
    now: u32,
    again: ReadingView,
)
    requires
        looks_at_world(dep),
        calm(world, then, now),
        answers(dep.asked(world, scans, this, state, then), reading),
        dep is Related ==> again == reading,
    ensures
        ({
            let (_, after) = dep.outcome(world, scans, this, state, last_run, then, reading);
            !dep.outcome(world, scans, this, after, then, now, again).0
        }),
{
    match dep {
        Dep::ResourceValue(r) => {
            resource_values_are_quiet(
                r,
                world,
                scans,
                this,
                state,
                last_run,
                then,
                reading,
                now,
                again,
            );
        },
        Dep::ComponentValue(target, c) => {
            component_values_are_quiet(
                target,
                c,
                world,
                scans,
                this,
                state,
                last_run,
                then,
                reading,
                now,
                again,
            );
        },
        Dep::AncestorValue(c) => {
            ancestor_values_are_quiet(
                c,
                world,
                scans,
                this,
                state,
                last_run,
                then,
                reading,
                now,
                again,
            );
        },
        _ => {},
    }
}

proof fn resource_values_are_quiet(
    r: usize,
    world: World,
    scans: crate::scan::ScansView,
    this: u64,
    state: StateView,
    last_run: u32,
    then: u32,
    reading: ReadingView,
    now: u32,
    again: ReadingView,
)
    requires
        calm(world, then, now),
        answers(Dep::ResourceValue(r).asked(world, scans, this, state, then), reading),
    ensures
        ({
            let dep = Dep::ResourceValue(r);
            let (_, after) = dep.outcome(world, scans, this, state, last_run, then, reading);
            !dep.outcome(world, scans, this, after, then, now, again).0
        }),
{
    let dep = Dep::ResourceValue(r);
    let (_, after) = dep.outcome(world, scans, this, state, last_run, then, reading);
    crate::tick::clamped_tick_is_young(state.seen, then);
    let t = crate::ecs::lookup(crate::ecs::resource_ticks(world), r);
    if t is Some {
        assert(t->0 == crate::ecs::resource_ticks(world)[r]);
        quiet_since_seen((t->0).1, after.seen, then, now);
    }
}

proof fn component_values_are_quiet(
    target: Target,
    c: usize,
    world: World,
    scans: crate::scan::ScansView,
    this: u64,
    state: StateView,
    last_run: u32,
    then: u32,
    reading: ReadingView,
    now: u32,
    again: ReadingView,
)
    requires
        calm(world, then, now),
        answers(Dep::ComponentValue(target, c).asked(world, scans, this, state, then), reading),
    ensures
        ({
            let dep = Dep::ComponentValue(target, c);
            let (_, after) = dep.outcome(world, scans, this, state, last_run, then, reading);
            !dep.outcome(world, scans, this, after, then, now, again).0
        }),
{
    let dep = Dep::ComponentValue(target, c);
    let (_, after) = dep.outcome(world, scans, this, state, last_run, then, reading);
    crate::tick::clamped_tick_is_young(state.seen, then);
    let t = target.ticks(this, c, world);
    if t is Some {
        let e = target.resolved(this, world)->0;
        assert(t->0 == crate::ecs::component_ticks(world)[(e, c)]);
        quiet_since_seen((t->0).1, after.seen, then, now);
    }
    let edge = crate::ecs::lookup(crate::ecs::parent_edge_ticks(world), this);
    if edge is Some {
        assert(edge->0 == crate::ecs::parent_edge_ticks(world)[this]);
        quiet_since_seen((edge->0).1, after.seen, then, now);
    }
}

proof fn ancestor_values_are_quiet(
    c: usize,
    world: World,
    scans: crate::scan::ScansView,
    this: u64,
    state: StateView,
    last_run: u32,
    then: u32,
    reading: ReadingView,
    now: u32,
    again: ReadingView,
)
    requires
        calm(world, then, now),
        answers(Dep::AncestorValue(c).asked(world, scans, this, state, then), reading),
    ensures
        ({
            let dep = Dep::AncestorValue(c);
            let (_, after) = dep.outcome(world, scans, this, state, last_run, then, reading);
            !dep.outcome(world, scans, this, after, then, now, again).0
        }),
{
    let dep = Dep::AncestorValue(c);
    let (_, after) = dep.outcome(world, scans, this, state, last_run, then, reading);
    crate::tick::clamped_tick_is_young(state.seen, then);
    if let Some(p) = nearest(world, this, c) {
        let t = crate::ecs::lookup(crate::ecs::component_ticks(world), (p, c));
        if t is Some {
            assert(t->0 == crate::ecs::component_ticks(world)[(p, c)]);
            quiet_since_seen((t->0).1, after.seen, then, now);
        }
    }
}

/// A stamp that was old to `seen` at `then` is old to it, clamped, at `now`.
proof fn quiet_since_seen(t: u32, seen: u32, then: u32, now: u32)
    requires
        crate::tick::age(then, now) + crate::tick::MAX_CHANGE_AGE < 0x1_0000_0000,
        crate::tick::age(t, then) <= crate::tick::MAX_CHANGE_AGE,
        crate::tick::age(seen, then) <= crate::tick::MAX_CHANGE_AGE,
        !crate::tick::newer(t, then, now),
    ensures
        !crate::tick::newer(t, seen, then) ==> !crate::tick::newer(
            t,
            crate::tick::clamped(seen, now),
            now,
        ),
{
    crate::tick::clamping_changes_no_answer(t, seen, now);
    if !crate::tick::newer(t, seen, then) {
        crate::tick::old_ticks_stay_old(t, seen, then, now);
    }
}

/// A new watcher wakes once: at its first check every dependency on the world
/// is dirty, except a projection or relation whose source is missing.
pub proof fn a_new_watcher_wakes(
    dep: Dep,
    world: World,
    scans: crate::scan::ScansView,
    this: u64,
    last_run: u32,
    this_run: u32,
    reading: ReadingView,
)
    requires
        looks_at_world(dep),
    ensures
        ({
            let missing = match dep {
                Dep::ResourceValue(r) => crate::ecs::lookup(crate::ecs::resource_ticks(world), r)
                    is None,
                Dep::ComponentValue(target, c) => target.ticks(this, c, world) is None,
                Dep::AncestorValue(c) => nearest(world, this, c) is None,
                Dep::Related { target, .. } => target.resolved(this, world) is None,
                _ => false,
            };
            dep.outcome(world, scans, this, StateView::fresh(), last_run, this_run, reading).0
                == !missing
        }),
{
}

/// A new watcher of a scanned type wakes too: before anything watched the
/// type, its scan reads as dirty.
pub proof fn a_new_scan_wakes(
    dep: Dep,
    world: World,
    scans: crate::scan::ScansView,
    this: u64,
    state: StateView,
    last_run: u32,
    this_run: u32,
    reading: ReadingView,
)
    requires
        last_run != this_run,
        match dep {
            Dep::Components(k) => !scans.components.dom().contains(k),
            Dep::Message(k) => !scans.messages.dom().contains(k),
            Dep::Asset { kind, .. } => !scans.assets.dom().contains(kind),
            _ => false,
        },
    ensures
        dep.outcome(world, scans, this, state, last_run, this_run, reading).0,
{
    crate::tick::a_stamp_of_now_is_new(last_run, this_run);
}

/// Presence ignores mutation: two worlds that differ in when the watched
/// component was last written, but not in when it was added, give one answer.
pub proof fn presence_ignores_mutation(
    target: Target,
    c: usize,
    before: World,
    after: World,
    scans: crate::scan::ScansView,
    this: u64,
    state: StateView,
    last_run: u32,
    this_run: u32,
    reading: ReadingView,
)
    requires
        crate::ecs::parent_edges(after) == crate::ecs::parent_edges(before),
        crate::ecs::parent_edge_ticks(after) == crate::ecs::parent_edge_ticks(before),
        match (target.ticks(this, c, before), target.ticks(this, c, after)) {
            (Some(t), Some(u)) => t.0 == u.0,
            (None, None) => true,
            _ => false,
        },
    ensures
        Dep::Presence(target, c).outcome(after, scans, this, state, last_run, this_run, reading)
            == Dep::Presence(target, c).outcome(
            before,
            scans,
            this,
            state,
            last_run,
            this_run,
            reading,
        ),
{
}

/// Removal wakes once: a component that was there and is gone makes the
/// dependency dirty, and the next check finds it clean.
pub proof fn removal_wakes_once(
    target: Target,
    c: usize,
    world: World,
    scans: crate::scan::ScansView,
    this: u64,
    state: StateView,
    last_run: u32,
    this_run: u32,
    now: u32,
    reading: ReadingView,
)
    requires
        target.ticks(this, c, world) is None,
        state.existed == Some(true),
        !target.moved(this, world, this_run, now),
    ensures
        ({
            let dep = Dep::Component(target, c);
            let (dirty, after) = dep.outcome(
                world,
                scans,
                this,
                state,
                last_run,
                this_run,
                reading,
            );
            dirty && !dep.outcome(world, scans, this, after, this_run, now, reading).0
        }),
{
}

/// A relation that changes wakes its watchers: when its set comes, goes or is
/// written, whether or not any member carries the watched component.
pub proof fn a_changed_relation_wakes(
    target: Target,
    set: usize,
    member: usize,
    world: World,
    scans: crate::scan::ScansView,
    this: u64,
    state: StateView,
    last_run: u32,
    this_run: u32,
    reading: ReadingView,
    e: u64,
)
    requires
        target.resolved(this, world) == Some(e),
        ({
            let t = crate::ecs::lookup(crate::ecs::component_ticks(world), (e, set));
            state.existed == Some(t is None) || ticks_changed(t, last_run, this_run)
        }),
    ensures
        (Dep::Related { target, set, member }).outcome(
            world,
            scans,
            this,
            state,
            last_run,
            this_run,
            reading,
        ).0,
{
}

/// A value dependency wakes exactly when the projected value is another than
/// the one remembered, or when its source has vanished.
pub proof fn projections_wake_on_their_value(
    target: Target,
    c: usize,
    world: World,
    scans: crate::scan::ScansView,
    this: u64,
    state: StateView,
    value: Seq<u64>,
    now: Seq<u64>,
    last_run: u32,
    this_run: u32,
)
    requires
        state.cache == CacheView::Value(value),
    ensures
        ({
            let dep = Dep::ComponentValue(target, c);
            let reading = ReadingView::Value(now);
            let woke = dep.outcome(world, scans, this, state, last_run, this_run, reading).0;
            let asked = dep.asked(world, scans, this, state, this_run) is ValueOn;
            if target.ticks(this, c, world) is None {
                woke
            } else {
                woke <==> asked && now != value
            }
        }),
{
    let dep = Dep::ComponentValue(target, c);
    let st = state.current(this_run);
    let o = dep.outcome(world, scans, this, state, last_run, this_run, ReadingView::Value(now));
    if dep.asked(world, scans, this, state, this_run) is ValueOn {
        assert(o == st.projected(now, this_run));
    }
}

/// The projection is not even asked for while its source is quiet: a value is
/// remembered, the parent edge has not moved, and nothing was written since
/// the last projection.
pub proof fn projections_are_gated_by_ticks(
    target: Target,
    c: usize,
    world: World,
    scans: crate::scan::ScansView,
    this: u64,
    state: StateView,
    this_run: u32,
)
    requires
        !(state.cache is Empty),
        !target.moved(this, world, state.seen, this_run),
        !ticks_changed(target.ticks(this, c, world), state.seen, this_run),
    ensures
        Dep::ComponentValue(target, c).asked(world, scans, this, state, this_run) == Ask::Nothing,
{
    let t = target.ticks(this, c, world);
    if t is Some {
        crate::tick::clamping_changes_no_answer((t->0).1, state.seen, this_run);
    }
    let edge = crate::ecs::lookup(crate::ecs::parent_edge_ticks(world), this);
    if edge is Some {
        crate::tick::clamping_changes_no_answer((edge->0).1, state.seen, this_run);
    }
}

/// Moving an entity under another parent wakes its dependencies on the
/// parent's components, though neither parent was written; so does losing the
/// parent.
pub proof fn moving_wakes_parent_watchers(
    c: usize,
    world: World,
    scans: crate::scan::ScansView,
    this: u64,
    state: StateView,
    last_run: u32,
    this_run: u32,
    reading: ReadingView,
)
    ensures
        ticks_changed(
            crate::ecs::lookup(crate::ecs::parent_edge_ticks(world), this),
            last_run,
            this_run,
        ) || (state.existed == Some(true) && !crate::ecs::parent_edges(world).dom().contains(this))
            ==> Dep::Component(Target::Parent, c).outcome(
            world,
            scans,
            this,
            state,
            last_run,
            this_run,
            reading,
        ).0,
{
}

/// The pass filter is sound: where a pass wrote components of the entities in
/// `written` only, a dependency that the filter calls unaffected asks for the
/// same and finds the same as before the pass.
pub proof fn unaffected_dependencies_answer_alike(
    dep: Dep,
    before: World,
    after: World,
    written: Set<u64>,
    scans: crate::scan::ScansView,
    this: u64,
    state: StateView,
    last_run: u32,
    this_run: u32,
    reading: ReadingView,
)
    requires
        !dep.may_be_affected(written, this),
        forall|e: u64, c: usize|
            !written.contains(e) ==> crate::ecs::lookup(
                #[trigger] crate::ecs::component_ticks(after),
                (e, c),
            ) == crate::ecs::lookup(crate::ecs::component_ticks(before), (e, c)),
    ensures
        dep.asked(after, scans, this, state, this_run) == dep.asked(
            before,
            scans,
            this,
            state,
            this_run,
        ),
        dep.outcome(after, scans, this, state, last_run, this_run, reading) == dep.outcome(
            before,
            scans,
            this,
            state,
            last_run,
            this_run,
            reading,
        ),
{
}

/// The sources that dependencies share: is it the same scan that both go by?
pub open spec fn share_a_scan(a: Dep, b: Dep) -> bool {
    match (a, b) {
        (Dep::Components(j), Dep::Components(k)) => j == k,
        (Dep::Message(j), Dep::Message(k)) => j == k,
        (Dep::Asset { kind: j, .. }, Dep::Asset { kind: k, .. }) => j == k,
        _ => false,
    }
}

/// One sweep serves all: once a scan has been brought up to date at a tick, no
/// other dependency on it asks for another, on whatever entity it is.
pub proof fn one_sweep_serves_all(
    first: Dep,
    second: Dep,
    world: World,
    scans: crate::scan::ScansView,
    reading: ReadingView,
    this: u64,
    state: StateView,
    this_run: u32,
)
    requires
        share_a_scan(first, second),
    ensures
        second.asked(world, first.scans_after(scans, reading, this_run), this, state, this_run)
            == Ask::Nothing,
{
}

/// A run does not wake itself: what was written no later than the run is not
/// news to it, as long as the watched component is neither new nor gone.
pub proof fn a_run_does_not_wake_itself(
    target: Target,
    c: usize,
    world: World,
    scans: crate::scan::ScansView,
    this: u64,
    state: StateView,
    ran: u32,
    now: u32,
    reading: ReadingView,
)
    requires
        state.existed == Some(target.ticks(this, c, world) is Some),
        target.ticks(this, c, world) matches Some(t) ==> crate::tick::age(t.1, ran)
            + crate::tick::age(ran, now) < 0x1_0000_0000,
        crate::ecs::lookup(crate::ecs::parent_edge_ticks(world), this) matches Some(t)
            ==> crate::tick::age(t.1, ran) + crate::tick::age(ran, now) < 0x1_0000_0000,
    ensures
        !Dep::Component(target, c).outcome(world, scans, this, state, ran, now, reading).0,
{
    if let Some(t) = target.ticks(this, c, world) {
        crate::tick::old_ticks_stay_old(t.1, ran, ran, now);
    }
    if let Some(t) = crate::ecs::lookup(crate::ecs::parent_edge_ticks(world), this) {
        crate::tick::old_ticks_stay_old(t.1, ran, ran, now);
    }
}

/// The nearest ancestor generalises the parent: where the parent carries the
/// component, the parent is the provider.
pub proof fn a_providing_parent_is_nearest(world: World, e: u64, c: usize)
    requires
        crate::ecs::parent_edges(world).dom().contains(e),
        crate::ecs::component_ticks(world).dom().contains((crate::ecs::parent_edges(world)[e], c)),
    ensures
        nearest(world, e, c) == Some(crate::ecs::parent_edges(world)[e]),
{
    reveal_with_fuel(ancestor_at, 2);
    let p = crate::ecs::parent_edges(world)[e];
    assert(provides(world, e, c, 1));
    assert(is_nearest(world, e, c, p));
    let other = choose|a: u64| #[trigger] is_nearest(world, e, c, a);
    nearest_is_unique(world, e, c, p, other);
}

/// A dependency on an ancestor wakes when another entity becomes the nearest
/// provider, and when the provider appears or vanishes, with no tick advancing.
pub proof fn another_provider_wakes(
    c: usize,
    world: World,
    scans: crate::scan::ScansView,
    this: u64,
    state: StateView,
    provider: Option<u64>,
    last_run: u32,
    this_run: u32,
    reading: ReadingView,
)
    requires
        state.cache == CacheView::Provider(provider),
        nearest(world, this, c) != provider,
    ensures
        Dep::Ancestor(c).outcome(world, scans, this, state, last_run, this_run, reading).0,
{
}

} // verus!
