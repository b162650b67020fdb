//! What wakes a reactor, told for each kind of dependency by the change ticks
//! of the world and by nothing else: what has to be news, and that nothing but
//! news wakes.
use bevy::ecs::world::World;
use vstd::prelude::*;

use crate::dep::{Dep, Target};
use crate::table::Key;

verus! {

/// A change of the watched component on any member of a relation, the first,
/// the last or one in between, wakes the watchers of the relation.
pub proof fn a_changed_member_wakes(
    target: Target,
    set: usize,
    member: usize,
    world: World,
    scans: crate::scan::ScansView,
    this: u64,
    state: crate::dep::StateView,
    last_run: u32,
    this_run: u32,
    e: u64,
    members: Seq<u64>,
    i: int,
)
    requires
        match target {
            Target::This => e == this,
            Target::Parent => crate::ecs::parent_edges(world).dom().contains(this)
                && crate::ecs::parent_edges(world)[this] == e,
            Target::Fixed(f) => e == f,
        },
        crate::ecs::live_entities(world).contains(e),
        0 <= i < members.len(),
        crate::ecs::component_ticks(world).dom().contains((members[i], member)),
        crate::tick::newer(
            crate::ecs::component_ticks(world)[(members[i], member)].1,
            last_run,
            this_run,
        ),
    ensures
        (Dep::Related { target, set, member }).outcome(
            world,
            scans,
            this,
            state,
            last_run,
            this_run,
            crate::dep::ReadingView::Members(members),
        ).0,
{
    assert(crate::dep::ticks_changed(
        crate::ecs::lookup(crate::ecs::component_ticks(world), (members[i], member)),
        last_run,
        this_run,
    ));
}

/// The members that carry a component are counted one by one.
proof fn carriers_are_counted(world: World, members: Seq<u64>, c: usize)
    ensures
        crate::dep::carriers(world, members, c) == members.filter(
            |m: u64| crate::ecs::component_ticks(world).dom().contains((m, c)),
        ).len(),
    decreases members.len(),
{
    reveal(Seq::filter);
    if members.len() > 0 {
        carriers_are_counted(world, members.drop_last(), c);
    }
}

/// The watchers of a relation wake for nothing but news: while the set is
/// there as before and unwritten, no member's component was written, and as
/// many members carry it as were counted, they are left alone. Whatever they
/// find, they remember how many members carry the component now.
pub proof fn relations_wake_on_news_only(
    target: Target,
    set: usize,
    member: usize,
    world: World,
    scans: crate::scan::ScansView,
    this: u64,
    state: crate::dep::StateView,
    last_run: u32,
    this_run: u32,
    e: u64,
    members: Seq<u64>,
)
    requires
        match target {
            Target::This => e == this,
            Target::Parent => crate::ecs::parent_edges(world).dom().contains(this)
                && crate::ecs::parent_edges(world)[this] == e,
            Target::Fixed(f) => e == f,
        },
        crate::ecs::live_entities(world).contains(e),
        members.len() <= usize::MAX,
    ensures
        ({
            let ticks = crate::ecs::component_ticks(world);
            let there = ticks.dom().contains((e, set));
            let carrying = members.filter(|m: u64| ticks.dom().contains((m, member))).len();
            let (woke, after) = (Dep::Related { target, set, member }).outcome(
                world,
                scans,
                this,
                state,
                last_run,
                this_run,
                crate::dep::ReadingView::Members(members),
            );
            &&& after.existed == Some(there)
            &&& after.count is Some && after.count->0 == carrying
            &&& (state.count is None || state.count->0 != carrying ==> woke)
            &&& woke && state.existed == Some(there) && state.count is Some && state.count->0
                == carrying ==> (there && crate::tick::newer(
                ticks[(e, set)].1,
                last_run,
                this_run,
            )) || exists|i: int|
                0 <= i < members.len() && ticks.dom().contains((#[trigger] members[i], member))
                    && crate::tick::newer(ticks[(members[i], member)].1, last_run, this_run)
        }),
{
    let ticks = crate::ecs::component_ticks(world);
    carriers_are_counted(world, members, member);
    members.lemma_filter_len(|m: u64| ticks.dom().contains((m, member)));
    if crate::dep::any_changed(world, members, member, last_run, this_run) {
        let i = choose|i: int|
            0 <= i < members.len() && crate::dep::ticks_changed(
                crate::ecs::lookup(
                    crate::ecs::component_ticks(world),
                    (#[trigger] members[i], member),
                ),
                last_run,
                this_run,
            );
        assert(ticks.dom().contains((members[i], member)));
    }
}

/// A watched resource wakes its watchers when it comes, goes or is written,
/// and on no other account; the watchers of its presence take no notice of
/// writes.
pub proof fn resources_wake_on_news_only(
    r: usize,
    world: World,
    scans: crate::scan::ScansView,
    this: u64,
    state: crate::dep::StateView,
    last_run: u32,
    this_run: u32,
    reading: crate::dep::ReadingView,
)
    ensures
        ({
            let ticks = crate::ecs::resource_ticks(world);
            let there = ticks.dom().contains(r);
            let (woke, after) = Dep::Resource(r).outcome(
                world,
                scans,
                this,
                state,
                last_run,
                this_run,
                reading,
            );
            let (roused, later) = Dep::ResourcePresence(r).outcome(
                world,
                scans,
                this,
                state,
                last_run,
                this_run,
                reading,
            );
            &&& after.existed == Some(there) && later.existed == Some(there)
            &&& there && crate::tick::newer(ticks[r].1, last_run, this_run) ==> woke
            &&& state.existed != Some(there) ==> woke && roused
            &&& state.existed == Some(there) ==> !roused
            &&& woke && state.existed == Some(there) ==> there && crate::tick::newer(
                ticks[r].1,
                last_run,
                this_run,
            )
        }),
{
}

/// A watched component wakes its watchers when it comes, goes or is written on
/// the entity that the target points at, and for a parent when the edge to it
/// was written; on no other account. The watchers of its presence wake when it
/// was added anew in place of when it was written.
pub proof fn components_wake_on_news_only(
    target: Target,
    c: usize,
    world: World,
    scans: crate::scan::ScansView,
    this: u64,
    state: crate::dep::StateView,
    last_run: u32,
    this_run: u32,
    reading: crate::dep::ReadingView,
    e: u64,
)
    requires
        match target {
            Target::This => e == this,
            Target::Parent => crate::ecs::parent_edges(world).dom().contains(this)
                && crate::ecs::parent_edges(world)[this] == e,
            Target::Fixed(f) => e == f,
        },
    ensures
        ({
            let ticks = crate::ecs::component_ticks(world);
            let edges = crate::ecs::parent_edge_ticks(world);
            let there = ticks.dom().contains((e, c));
            let moved = target is Parent && edges.dom().contains(this) && crate::tick::newer(
                edges[this].1,
                last_run,
                this_run,
            );
            let (woke, after) = Dep::Component(target, c).outcome(
                world,
                scans,
                this,
                state,
                last_run,
                this_run,
                reading,
            );
            let (roused, later) = Dep::Presence(target, c).outcome(
                world,
                scans,
                this,
                state,
                last_run,
                this_run,
                reading,
            );
            &&& after.existed == Some(there) && later.existed == Some(there)
            &&& state.existed != Some(there) || moved ==> woke && roused
            &&& there && crate::tick::newer(ticks[(e, c)].1, last_run, this_run) ==> woke
            &&& there && crate::tick::newer(ticks[(e, c)].0, last_run, this_run) ==> roused
            &&& woke && state.existed == Some(there) && !moved ==> there && crate::tick::newer(
                ticks[(e, c)].1,
                last_run,
                this_run,
            )
            &&& roused && state.existed == Some(there) && !moved ==> there && crate::tick::newer(
                ticks[(e, c)].0,
                last_run,
                this_run,
            )
        }),
{
}

/// An entity without a parent watches nothing through it: the watchers wake
/// once when the parent is lost, or when the edge to it was written, and the
/// watchers of a relation not at all.
pub proof fn orphans_watch_nothing(
    c: usize,
    set: usize,
    world: World,
    scans: crate::scan::ScansView,
    this: u64,
    state: crate::dep::StateView,
    last_run: u32,
    this_run: u32,
    reading: crate::dep::ReadingView,
)
    requires
        !crate::ecs::parent_edges(world).dom().contains(this),
        !crate::ecs::parent_edge_ticks(world).dom().contains(this),
    ensures
        ({
            let (woke, after) = Dep::Component(Target::Parent, c).outcome(
                world,
                scans,
                this,
                state,
                last_run,
                this_run,
                reading,
            );
            let (roused, later) = Dep::Presence(Target::Parent, c).outcome(
                world,
                scans,
                this,
                state,
                last_run,
                this_run,
                reading,
            );
            let related = Dep::Related { target: Target::Parent, set, member: c };
            &&& woke == (state.existed != Some(false)) && after.existed == Some(false)
            &&& roused == (state.existed != Some(false)) && later.existed == Some(false)
            &&& related.outcome(world, scans, this, state, last_run, this_run, reading) == (
                false,
                state,
            )
        }),
{
}

/// The provider of a component is a strict ancestor that carries it, reached
/// by parent edges within the walk, and no ancestor on the way does; where
/// there is such an ancestor, it is found.
pub proof fn providers_are_nearest_ancestors(world: World, e: u64, c: usize, chain: Seq<u64>)
    requires
        1 <= chain.len() <= 257,
        chain[0] == e,
        forall|k: int|
            0 <= k < chain.len() - 1 ==> crate::ecs::parent_edges(world).dom().contains(
                #[trigger] chain[k],
            ) && crate::ecs::parent_edges(world)[chain[k]] == chain[k + 1],
    ensures
        chain.len() > 1 && crate::ecs::component_ticks(world).dom().contains((chain.last(), c)) && (
        forall|k: int|
            1 <= k < chain.len() - 1 ==> !crate::ecs::component_ticks(world).dom().contains(
                (#[trigger] chain[k], c),
            )) ==> crate::dep::nearest(world, e, c) == Some(chain.last()),
        (chain.len() == 257 || !crate::ecs::parent_edges(world).dom().contains(chain.last())) && (
        forall|k: int|
            1 <= k < chain.len() ==> !crate::ecs::component_ticks(world).dom().contains(
                (#[trigger] chain[k], c),
            )) ==> crate::dep::nearest(world, e, c) is None,
{
    let n = (chain.len() - 1) as nat;
    assert forall|k: nat| k <= n implies crate::dep::ancestor_at(world, e, k) == Some(
        #[trigger] chain[k as int],
    ) by {
        chains_are_ancestries(world, e, chain, k);
    }
    let ticks = crate::ecs::component_ticks(world);
    if chain.len() > 1 && ticks.dom().contains((chain.last(), c)) && (forall|k: int|
        1 <= k < chain.len() - 1 ==> !ticks.dom().contains((#[trigger] chain[k], c))) {
        assert(crate::dep::ancestor_at(world, e, n) == Some(chain[n as int]));
        assert(crate::dep::provides(world, e, c, n));
        assert forall|k: nat| 1 <= k < n implies !#[trigger] crate::dep::provides(
            world,
            e,
            c,
            k,
        ) by {
            assert(crate::dep::ancestor_at(world, e, k) == Some(chain[k as int]));
        }
        assert(crate::dep::is_nearest(world, e, c, chain.last()));
        let other = choose|a: u64| #[trigger] crate::dep::is_nearest(world, e, c, a);
        crate::dep::nearest_is_unique(world, e, c, chain.last(), other);
    }
    if (chain.len() == 257 || !crate::ecs::parent_edges(world).dom().contains(chain.last())) && (
    forall|k: int|
        1 <= k < chain.len() ==> !ticks.dom().contains((#[trigger] chain[k], c))) {
        assert forall|a: u64| !#[trigger] crate::dep::is_nearest(world, e, c, a) by {
            if crate::dep::is_nearest(world, e, c, a) {
                let d = choose|d: nat|
                    1 <= d <= crate::dep::MAX_ANCESTOR_DEPTH && #[trigger] crate::dep::provides(
                        world,
                        e,
                        c,
                        d,
                    ) && crate::dep::ancestor_at(world, e, d) == Some(a) && forall|k: nat|
                        1 <= k < d ==> !#[trigger] crate::dep::provides(world, e, c, k);
                if d <= n {
                    assert(crate::dep::ancestor_at(world, e, d) == Some(chain[d as int]));
                } else {
                    assert(crate::dep::ancestor_at(world, e, n) == Some(chain[n as int]));
                    assert(crate::dep::ancestor_at(world, e, (n + 1) as nat) is None);
                    crate::dep::no_ancestor_above(world, e, (n + 1) as nat);
                }
            }
        }
    }
}

proof fn chains_are_ancestries(world: World, e: u64, chain: Seq<u64>, k: nat)
    requires
        k < chain.len(),
        chain[0] == e,
        forall|k: int|
            0 <= k < chain.len() - 1 ==> crate::ecs::parent_edges(world).dom().contains(
                #[trigger] chain[k],
            ) && crate::ecs::parent_edges(world)[chain[k]] == chain[k + 1],
    ensures
        crate::dep::ancestor_at(world, e, k) == Some(chain[k as int]),
    decreases k,
{
    if k > 0 {
        chains_are_ancestries(world, e, chain, (k - 1) as nat);
        assert(crate::ecs::parent_edges(world).dom().contains(chain[k - 1]));
    }
}

/// A dependency on an ancestor wakes when the provider is another than the one
/// remembered, or was written; on no other account.
pub proof fn ancestors_wake_on_news_only(
    c: usize,
    world: World,
    scans: crate::scan::ScansView,
    this: u64,
    state: crate::dep::StateView,
    last_run: u32,
    this_run: u32,
    reading: crate::dep::ReadingView,
)
    ensures
        ({
            let ticks = crate::ecs::component_ticks(world);
            let provider = crate::dep::nearest(world, this, c);
            let written = provider is Some && ticks.dom().contains((provider->0, c))
                && crate::tick::newer(ticks[(provider->0, c)].1, last_run, this_run);
            let (woke, after) = Dep::Ancestor(c).outcome(
                world,
                scans,
                this,
                state,
                last_run,
                this_run,
                reading,
            );
            &&& after.cache == crate::dep::CacheView::Provider(provider)
            &&& woke <==> written || state.cache != crate::dep::CacheView::Provider(provider)
        }),
{
}

/// A projected value is read again when its source was written after the last
/// reading, and when there is none to go by; a reading wakes exactly where it
/// differs from the value remembered, and takes its place. A source that is
/// gone wakes once and is forgotten. Else nothing is read and nothing wakes.
pub proof fn resource_values_wake_on_change_only(
    r: usize,
    world: World,
    scans: crate::scan::ScansView,
    this: u64,
    state: crate::dep::StateView,
    last_run: u32,
    this_run: u32,
    value: Seq<u64>,
)
    ensures
        ({
            let ticks = crate::ecs::resource_ticks(world);
            let dep = Dep::ResourceValue(r);
            let asked = dep.asked(world, scans, this, state, this_run);
            let (woke, after) = dep.outcome(
                world,
                scans,
                this,
                state,
                last_run,
                this_run,
                crate::dep::ReadingView::Value(value),
            );
            if !ticks.dom().contains(r) {
                &&& asked is Nothing
                &&& woke == !(state.cache is Empty)
                &&& after.cache is Empty
            } else if state.cache is Empty || crate::tick::newer(
                ticks[r].1,
                state.seen,
                this_run,
            ) {
                &&& asked is ResourceValue
                &&& woke == (state.cache != crate::dep::CacheView::Value(value))
                &&& after.cache == crate::dep::CacheView::Value(value)
                &&& after.seen == this_run
            } else {
                &&& asked is Nothing
                &&& !woke
                &&& after.cache == state.cache
            }
        }),
{
    if crate::ecs::resource_ticks(world).dom().contains(r) {
        crate::tick::clamping_changes_no_answer(
            crate::ecs::resource_ticks(world)[r].1,
            state.seen,
            this_run,
        );
    }
}

/// The like for a value projected from a component: it is also read again when
/// the edge to the parent that it is read on was written.
pub proof fn component_values_wake_on_change_only(
    target: Target,
    c: usize,
    world: World,
    scans: crate::scan::ScansView,
    this: u64,
    state: crate::dep::StateView,
    last_run: u32,
    this_run: u32,
    value: Seq<u64>,
    e: u64,
)
    requires
        match target {
            Target::This => e == this,
            Target::Parent => crate::ecs::parent_edges(world).dom().contains(this)
                && crate::ecs::parent_edges(world)[this] == e,
            Target::Fixed(f) => e == f,
        },
    ensures
        ({
            let ticks = crate::ecs::component_ticks(world);
            let edges = crate::ecs::parent_edge_ticks(world);
            let moved = target is Parent && edges.dom().contains(this) && crate::tick::newer(
                edges[this].1,
                state.seen,
                this_run,
            );
            let dep = Dep::ComponentValue(target, c);
            let asked = dep.asked(world, scans, this, state, this_run);
            let (woke, after) = dep.outcome(
                world,
                scans,
                this,
                state,
                last_run,
                this_run,
                crate::dep::ReadingView::Value(value),
            );
            if !ticks.dom().contains((e, c)) {
                &&& asked is Nothing
                &&& woke == !(state.cache is Empty)
                &&& after.cache is Empty
            } else if state.cache is Empty || moved || crate::tick::newer(
                ticks[(e, c)].1,
                state.seen,
                this_run,
            ) {
                &&& asked == crate::dep::Ask::ValueOn(e)
                &&& woke == (state.cache != crate::dep::CacheView::Value(value))
                &&& after.cache == crate::dep::CacheView::Value(value)
                &&& after.seen == this_run
            } else {
                &&& asked is Nothing
                &&& !woke
                &&& after.cache == state.cache
            }
        }),
{
    if crate::ecs::component_ticks(world).dom().contains((e, c)) {
        crate::tick::clamping_changes_no_answer(
            crate::ecs::component_ticks(world)[(e, c)].1,
            state.seen,
            this_run,
        );
    }
    if crate::ecs::parent_edge_ticks(world).dom().contains(this) {
        crate::tick::clamping_changes_no_answer(
            crate::ecs::parent_edge_ticks(world)[this].1,
            state.seen,
            this_run,
        );
    }
}

/// The like for a value that the nearest ancestor provides: it is read again
/// when another provides it, or when the provider was written. Another
/// provider of the same value wakes nobody.
pub proof fn provided_values_wake_on_change_only(
    c: usize,
    world: World,
    scans: crate::scan::ScansView,
    this: u64,
    state: crate::dep::StateView,
    last_run: u32,
    this_run: u32,
    value: Seq<u64>,
)
    ensures
        ({
            let ticks = crate::ecs::component_ticks(world);
            let dep = Dep::AncestorValue(c);
            let asked = dep.asked(world, scans, this, state, this_run);
            let (woke, after) = dep.outcome(
                world,
                scans,
                this,
                state,
                last_run,
                this_run,
                crate::dep::ReadingView::Value(value),
            );
            match crate::dep::nearest(world, this, c) {
                None => {
                    &&& asked is Nothing
                    &&& woke == !(state.cache is Empty)
                    &&& after.cache is Empty
                },
                Some(p) => {
                    let written = ticks.dom().contains((p, c)) && crate::tick::newer(
                        ticks[(p, c)].1,
                        state.seen,
                        this_run,
                    );
                    match state.cache {
                        crate::dep::CacheView::Provided(q, known) => if q == p && !written {
                            &&& asked is Nothing
                            &&& !woke
                            &&& after.cache == state.cache
                        } else {
                            &&& asked == crate::dep::Ask::ValueOn(p)
                            &&& woke == (known != value)
                            &&& after.cache == crate::dep::CacheView::Provided(p, value)
                            &&& after.seen == this_run
                        },
                        _ => {
                            &&& asked == crate::dep::Ask::ValueOn(p)
                            &&& woke
                            &&& after.cache == crate::dep::CacheView::Provided(p, value)
                            &&& after.seen == this_run
                        },
                    }
                },
            }
        }),
{
    if let Some(p) = crate::dep::nearest(world, this, c) {
        if crate::ecs::component_ticks(world).dom().contains((p, c)) {
            crate::tick::clamping_changes_no_answer(
                crate::ecs::component_ticks(world)[(p, c)].1,
                state.seen,
                this_run,
            );
        }
    }
}

/// Typed code is asked for what only it can read, and no more: the members of a
/// relation while its entity lives, and each sweep or reading of a shared scan
/// once a tick. What is there to be read from the world is not asked for.
pub proof fn what_is_asked_for(
    dep: Dep,
    world: World,
    scans: crate::scan::ScansView,
    this: u64,
    state: crate::dep::StateView,
    this_run: u32,
)
    ensures
        ({
            let ask = dep.asked(world, scans, this, state, this_run);
            match dep {
                Dep::Related { target, .. } => {
                    let e = match target {
                        Target::This => Some(this),
                        Target::Parent => crate::ecs::lookup(
                            crate::ecs::parent_edges(world),
                            this,
                        ),
                        Target::Fixed(f) => Some(f),
                    };
                    if e is Some && crate::ecs::live_entities(world).contains(e->0) {
                        ask == crate::dep::Ask::MembersOf(e->0)
                    } else {
                        ask is Nothing
                    }
                },
                Dep::Components(k) => {
                    let swept = scans.components.dom().contains(k)
                        && scans.components[k].scanned_at == Some(this_run);
                    if swept {
                        ask is Nothing
                    } else {
                        ask is Sweep
                    }
                },
                Dep::Message(k) => {
                    let read = scans.messages.dom().contains(k)
                        && scans.messages[k].scanned_at == Some(this_run);
                    if read {
                        ask is Nothing
                    } else {
                        ask is Unread
                    }
                },
                Dep::Asset { kind, .. } => {
                    let read = scans.assets.dom().contains(kind)
                        && scans.assets[kind].scanned_at == Some(this_run);
                    if read {
                        ask is Nothing
                    } else {
                        ask is Events
                    }
                },
                Dep::ResourceValue(_) | Dep::ComponentValue(..) | Dep::AncestorValue(_) => true,
                _ => ask is Nothing,
            }
        }),
{
}

/// A sweep of one type, a reading of one buffer or of the events of one kind of
/// asset changes no other scan.
pub proof fn scans_are_kept_apart(
    dep: Dep,
    scans: crate::scan::ScansView,
    reading: crate::dep::ReadingView,
    this_run: u32,
    k: Key,
)
    ensures
        ({
            let after = dep.scans_after(scans, reading, this_run);
            &&& dep != Dep::Components(k) ==> crate::ecs::lookup(after.components, k)
                == crate::ecs::lookup(scans.components, k)
            &&& dep != Dep::Message(k) ==> crate::ecs::lookup(after.messages, k)
                == crate::ecs::lookup(scans.messages, k)
            &&& (dep matches Dep::Asset { kind, .. } ==> kind != k) ==> crate::ecs::lookup(
                after.assets,
                k,
            ) == crate::ecs::lookup(scans.assets, k)
        }),
{
}

/// The watchers of a relation of an entity that is gone see no members: nothing
/// is counted, and they wake only for what was there before.
pub proof fn the_dead_have_no_relations(
    e: u64,
    set: usize,
    member: usize,
    world: World,
    scans: crate::scan::ScansView,
    this: u64,
    state: crate::dep::StateView,
    last_run: u32,
    this_run: u32,
    reading: crate::dep::ReadingView,
)
    requires
        !crate::ecs::live_entities(world).contains(e),
        !crate::ecs::component_ticks(world).dom().contains((e, set)),
    ensures
        ({
            let (woke, after) = (Dep::Related { target: Target::Fixed(e), set, member }).outcome(
                world,
                scans,
                this,
                state,
                last_run,
                this_run,
                reading,
            );
            &&& after.count == Some(0usize) && after.existed == Some(false)
            &&& woke <==> state.count != Some(0usize) || state.existed != Some(false)
        }),
{
}

/// One written component among all that a sweep meets wakes the watchers of
/// its type, and so does one more or one fewer than the sweep before met.
pub proof fn one_written_component_wakes(
    k: Key,
    world: World,
    scans: crate::scan::ScansView,
    this: u64,
    state: crate::dep::StateView,
    last_run: u32,
    this_run: u32,
    changed: Seq<u32>,
    i: int,
)
    requires
        last_run != this_run,
        scans.components.dom().contains(k),
        scans.components[k].scanned_at != Some(this_run),
        0 <= i < changed.len() && crate::tick::newer(
            changed[i],
            scans.components[k].last_scan,
            this_run,
        ) || changed.len() != scans.components[k].last_count,
    ensures
        Dep::Components(k).outcome(
            world,
            scans,
            this,
            state,
            last_run,
            this_run,
            crate::dep::ReadingView::Changed(changed),
        ).0,
{
    crate::tick::a_stamp_of_now_is_new(last_run, this_run);
    let scan = scans.components[k];
    if 0 <= i < changed.len() {
        crate::tick::clamping_changes_no_answer(changed[i], scan.last_scan, this_run);
    }
}

/// A sweep that meets as many components as the one before, none of them
/// written since, wakes only those that had not heard of the news before it;
/// the next sweep starts from this one.
pub proof fn a_quiet_sweep_wakes_nobody(
    k: Key,
    world: World,
    scans: crate::scan::ScansView,
    this: u64,
    state: crate::dep::StateView,
    last_run: u32,
    this_run: u32,
    changed: Seq<u32>,
)
    requires
        scans.components.dom().contains(k),
        scans.components[k].scanned_at != Some(this_run),
        changed.len() == scans.components[k].last_count,
        forall|i: int|
            0 <= i < changed.len() ==> !crate::tick::newer(
                #[trigger] changed[i],
                scans.components[k].last_scan,
                this_run,
            ),
    ensures
        ({
            let dep = Dep::Components(k);
            let reading = crate::dep::ReadingView::Changed(changed);
            let after = dep.scans_after(scans, reading, this_run).components[k];
            &&& dep.outcome(world, scans, this, state, last_run, this_run, reading).0
                == crate::tick::newer(scans.components[k].dirty_stamp, last_run, this_run)
            &&& after.last_scan == this_run
            &&& after.last_count == changed.len()
        }),
{
    let scan = scans.components[k];
    assert forall|i: int| 0 <= i < changed.len() implies !crate::tick::newer(
        #[trigger] changed[i],
        crate::tick::clamped(scan.last_scan, this_run),
        this_run,
    ) by {
        crate::tick::clamping_changes_no_answer(changed[i], scan.last_scan, this_run);
    }
    crate::tick::clamping_changes_no_answer(scan.dirty_stamp, last_run, this_run);
}

/// A message that came wakes the watchers of its type; a reading that finds
/// none wakes only those that had not heard of the last one.
pub proof fn messages_wake_their_watchers(
    k: Key,
    world: World,
    scans: crate::scan::ScansView,
    this: u64,
    state: crate::dep::StateView,
    last_run: u32,
    this_run: u32,
    unread: usize,
)
    requires
        last_run != this_run,
        scans.messages.dom().contains(k),
        scans.messages[k].scanned_at != Some(this_run),
    ensures
        Dep::Message(k).outcome(
            world,
            scans,
            this,
            state,
            last_run,
            this_run,
            crate::dep::ReadingView::Unread(unread),
        ).0 == (unread > 0 || crate::tick::newer(
            scans.messages[k].dirty_stamp,
            last_run,
            this_run,
        )),
{
    crate::tick::a_stamp_of_now_is_new(last_run, this_run);
    crate::tick::clamping_changes_no_answer(scans.messages[k].dirty_stamp, last_run, this_run);
}

/// An event wakes the watchers of the asset that it names, wherever it stands
/// among the events read, and no watcher of another asset.
pub proof fn events_wake_their_asset(
    kind: Key,
    id: Key,
    world: World,
    scans: crate::scan::ScansView,
    this: u64,
    state: crate::dep::StateView,
    last_run: u32,
    this_run: u32,
    events: Seq<Key>,
)
    requires
        last_run != this_run,
        scans.assets.dom().contains(kind),
        scans.assets[kind].scanned_at != Some(this_run),
        scans.assets[kind].touched.dom().contains(id) ==> crate::tick::age(
            scans.assets[kind].touched[id],
            this_run,
        ) <= crate::tick::age(scans.assets[kind].created, this_run),
    ensures
        ({
            let named = exists|i: int| 0 <= i < events.len() && #[trigger] events[i] == id;
            let before = if scans.assets[kind].touched.dom().contains(id) {
                scans.assets[kind].touched[id]
            } else {
                scans.assets[kind].created
            };
            (Dep::Asset { kind, id }).outcome(
                world,
                scans,
                this,
                state,
                last_run,
                this_run,
                crate::dep::ReadingView::Events(events),
            ).0 == (named || crate::tick::newer(before, last_run, this_run))
        }),
{
    crate::tick::a_stamp_of_now_is_new(last_run, this_run);
    crate::scan::events_touch_their_asset_only(
        scans.assets[kind],
        events,
        id,
        last_run,
        this_run,
    );
    if exists|i: int| 0 <= i < events.len() && #[trigger] events[i] == id {
        let i = choose|i: int| 0 <= i < events.len() && #[trigger] events[i] == id;
        assert(events.contains(id));
    }
}

} // verus!
