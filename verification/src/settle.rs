//! How a frame of reactors settles, told by entities, ticks and turns.
use bevy::ecs::world::World;
use vstd::prelude::*;

use crate::dep::{Dep, Target};
use crate::reactor::{InstanceView, ListView};
use crate::runner::{Check, FrameView, StepView, Verdict};

verus! {

/// The descendants of an entity are its children and theirs, all the way down,
/// and nothing else: they hold the children of the entity and of each other, and
/// every set that does so holds them.
pub proof fn descendants_are_all_below(world: World, root: u64, all: Set<u64>, y: u64, x: u64)
    requires
        crate::ecs::children_of(world, y).contains(x),
        forall|p: u64, c: u64|
            (p == root || all.contains(p)) && #[trigger] crate::ecs::children_of(
                world,
                p,
            ).contains(c) ==> all.contains(c),
    ensures
        y == root || crate::hierarchy::descendants(world, root).contains(y)
            ==> crate::hierarchy::descendants(world, root).contains(x),
        crate::hierarchy::descendants(world, root).subset_of(all),
{
    if y == root || crate::hierarchy::descendants(world, root).contains(y) {
        crate::hierarchy::child_of_known_is_descendant(world, root, y, x);
    }
    assert forall|d: u64| #[trigger]
        crate::hierarchy::descendants(world, root).contains(d) implies all.contains(d) by {
        let n = choose|n: nat| n >= 1 && #[trigger] crate::hierarchy::below(world, root, d, n);
        crate::hierarchy::closed_set_holds_descendants(world, root, all, d, n);
    }
}

/// An entity is under what was written if it was written itself, or if its
/// parent is under it; an entity without a parent only if it was itself.
pub proof fn written_subtrees_reach_down(world: World, e: u64, written: Set<u64>)
    ensures
        crate::hierarchy::under_written(world, e, written) <==> written.contains(e) || (
        crate::ecs::parent_edges(world).dom().contains(e) && crate::hierarchy::under_written(
            world,
            crate::ecs::parent_edges(world)[e],
            written,
        )),
{
    assert(crate::dep::ancestor_at(world, e, 0) == Some(e));
    let edges = crate::ecs::parent_edges(world);
    if crate::hierarchy::under_written(world, e, written) && !written.contains(e) {
        let d = choose|d: nat|
            match #[trigger] crate::dep::ancestor_at(world, e, d) {
                Some(a) => written.contains(a),
                None => false,
            };
        ancestors_go_by_the_parent(world, e, (d - 1) as nat);
        assert(crate::dep::ancestor_at(world, edges[e], (d - 1) as nat) is Some);
    }
    if edges.dom().contains(e) && crate::hierarchy::under_written(world, edges[e], written) {
        let d = choose|d: nat|
            match #[trigger] crate::dep::ancestor_at(world, edges[e], d) {
                Some(a) => written.contains(a),
                None => false,
            };
        ancestors_go_by_the_parent(world, e, d);
        assert(crate::dep::ancestor_at(world, e, d + 1) is Some);
    }
}

/// The ancestors of an entity, but for itself, are those of its parent.
proof fn ancestors_go_by_the_parent(world: World, e: u64, d: nat)
    ensures
        crate::dep::ancestor_at(world, e, d + 1) == if crate::ecs::parent_edges(
            world,
        ).dom().contains(e) {
            crate::dep::ancestor_at(world, crate::ecs::parent_edges(world)[e], d)
        } else {
            None
        },
    decreases d,
{
    reveal_with_fuel(crate::dep::ancestor_at, 2);
    if d > 0 {
        ancestors_go_by_the_parent(world, e, (d - 1) as nat);
    }
}

/// Of what a pass wrote, a dependency on a component of the entity itself, or of
/// a fixed one, takes notice only if that entity was written; every other
/// dependency has to be looked at again.
pub proof fn what_may_be_affected(dep: Dep, written: Set<u64>, this: u64)
    ensures
        dep.may_be_affected(written, this) <==> match dep {
            Dep::Component(Target::This, _)
            | Dep::ComponentValue(Target::This, _)
            | Dep::Presence(Target::This, _) => written.contains(this),
            Dep::Component(Target::Fixed(e), _)
            | Dep::ComponentValue(Target::Fixed(e), _)
            | Dep::Presence(Target::Fixed(e), _) => written.contains(e),
            _ => true,
        },
{
}

/// A reactor is left out of a later pass exactly if it has run before and none
/// of its dependencies may be affected; one that may be is enough to check it.
pub proof fn one_affected_dependency_is_enough(
    frame: FrameView,
    instance: InstanceView,
    list: ListView,
    e: u64,
    i: int,
)
    ensures
        0 <= i < instance.deps.len() && instance.deps[i].may_be_affected(frame.written_prev, e)
            ==> frame.due(instance, e),
        0 <= i < list.deps.len() && list.deps[i].may_be_affected(frame.written_prev, e)
            ==> frame.list_due(list, e),
        frame.pass > 0 && instance.last_run != 0 && (forall|k: int|
            0 <= k < instance.deps.len() ==> !(#[trigger] instance.deps[k]).may_be_affected(
                frame.written_prev,
                e,
            )) ==> !frame.due(instance, e),
        frame.pass > 0 && list.last_run != 0 && (forall|k: int|
            0 <= k < list.deps.len() ==> !(#[trigger] list.deps[k]).may_be_affected(
                frame.written_prev,
                e,
            )) ==> !frame.list_due(list, e),
{
}

/// An entity is taken up in a pass if any of its fragments is due, and in the
/// first pass in any case; it is left out only where none is.
pub proof fn one_due_fragment_is_enough(
    frame: FrameView,
    instances: Seq<InstanceView>,
    e: u64,
    i: int,
)
    ensures
        frame.pass == 0 ==> frame.any_due(instances, e),
        0 <= i < instances.len() && frame.due(instances[i], e) ==> frame.any_due(instances, e),
        frame.pass > 0 && (forall|k: int|
            0 <= k < instances.len() ==> !frame.due(#[trigger] instances[k], e))
            ==> !frame.any_due(instances, e),
{
}

/// Bringing ticks up to date changes no answer: fragments keep what they are and
/// remember, and what is newer than their last run stays so.
pub proof fn updated_fragments_answer_alike(
    instances: Seq<InstanceView>,
    this_run: u32,
    i: int,
    t: u32,
)
    requires
        0 <= i < instances.len(),
    ensures
        ({
            let after = crate::runner::clamped_instances(instances, this_run);
            &&& after.len() == instances.len()
            &&& after[i].identity == instances[i].identity && after[i].mode == instances[i].mode
            &&& after[i].deps == instances[i].deps && after[i].state == instances[i].state
            &&& crate::tick::newer(t, after[i].last_run, this_run) == crate::tick::newer(
                t,
                instances[i].last_run,
                this_run,
            )
        }),
{
    crate::tick::clamping_changes_no_answer(t, instances[i].last_run, this_run);
}

/// One dirty dependency wakes a reactor, whichever it is, and without one it
/// sleeps. Each is checked on its own, by its own memory and reading.
pub proof fn one_dirty_dependency_is_enough(check: Check, i: int)
    requires
        0 <= i < check.deps.len(),
        crate::dep::looks_at_world(check.deps[i]),
    ensures
        ({
            let alone = check.deps[i].outcome(
                check.world,
                check.scans,
                check.this,
                check.states[i],
                check.last_run,
                check.this_run,
                check.readings[i],
            );
            &&& alone.0 ==> check.any_dirty()
            &&& check.states_after().len() == check.deps.len()
            &&& check.states_after()[i] == alone.1
        }),
        check.any_dirty() ==> exists|k: int|
            0 <= k < check.deps.len() && (#[trigger] check.outcome(k)).0,
{
    let alone = check.deps[i].outcome(
        check.world,
        check.scans,
        check.this,
        check.states[i],
        check.last_run,
        check.this_run,
        check.readings[i],
    );
    assert(check.outcome(i) == alone);
}

/// The dependency that is told to have woken a reactor is dirty, and none before
/// it is; so it is told of one only, and of one whenever any is.
pub proof fn the_first_dirty_dependency_is_told(check: Check, i: int, j: int)
    ensures
        check.first_dirty(i) ==> check.any_dirty() && check.outcome(i).0,
        check.first_dirty(i) && 0 <= j < i ==> !check.outcome(j).0,
        check.first_dirty(i) && check.first_dirty(j) ==> i == j,
{
    if check.first_dirty(i) && check.first_dirty(j) && i != j {
        assert(check.outcome(i).0 && check.outcome(j).0);
    }
}

/// A check of several dependencies brings the shared scans up to date one after
/// another.
pub proof fn scans_are_shared_in_turn(check: Check, i: int)
    requires
        0 <= i < check.deps.len(),
    ensures
        crate::runner::scans_at(check.deps, check.scans, check.readings, check.this_run, 0)
            == check.scans,
        crate::runner::scans_at(
            check.deps,
            check.scans,
            check.readings,
            check.this_run,
            (i + 1) as nat,
        ) == check.deps[i].scans_after(
            crate::runner::scans_at(
                check.deps,
                check.scans,
                check.readings,
                check.this_run,
                i as nat,
            ),
            check.readings[i],
            check.this_run,
        ),
{
}

/// The next fragment to be checked is due, and all that were passed over are
/// not; none is left only where no more are due.
pub proof fn the_next_due_is_next(frame: FrameView, i: nat, k: int)
    requires
        i <= frame.job.instances.len(),
    ensures
        ({
            let at = frame.next_due(i);
            &&& i <= at <= frame.job.instances.len()
            &&& at < frame.job.instances.len() ==> frame.due(
                frame.job.instances[at as int],
                frame.job.entity,
            )
            &&& i <= k < at ==> !frame.due(frame.job.instances[k], frame.job.entity)
        }),
    decreases frame.job.instances.len() - i,
{
    if i < frame.job.instances.len() && !frame.due(
        frame.job.instances[i as int],
        frame.job.entity,
    ) {
        the_next_due_is_next(frame, i + 1, k);
    }
}

/// Entities are taken up in their order: the dead are passed over, and the first
/// that lives is worked on; while one is, it is given back when no more of its
/// fragments are due. A frame is done when nothing is left.
pub proof fn entities_take_turns(frame: FrameView, world: World)
    ensures
        ({
            let (step, after) = frame.advanced(world);
            if frame.busy {
                let at = frame.next_due(frame.at);
                if at < frame.job.instances.len() {
                    &&& step is Check
                    &&& after.at == at && after.busy
                    &&& after.job == frame.job && after.queue == frame.queue
                } else {
                    &&& step == StepView::Reattach(frame.job)
                    &&& !after.busy && after.queue == frame.queue
                }
            } else if frame.queue.len() == 0 {
                step is Done && after == frame
            } else if crate::ecs::live_entities(world).contains(frame.queue[0].entity) {
                &&& !(step is Done)
                &&& after.queue == frame.queue.skip(1)
                &&& step is Check ==> after.job == frame.queue[0]
                &&& step is Reattach ==> step == StepView::Reattach(frame.queue[0])
            } else {
                (step, after) == (FrameView { queue: frame.queue.skip(1), ..frame }).advanced(
                    world,
                )
            }
        }),
{
    reveal_with_fuel(FrameView::advanced, 3);
}

/// Lists take turns in the same way.
pub proof fn lists_take_turns(frame: FrameView, world: World)
    ensures
        ({
            let after = frame.next_list(world);
            if frame.lists.len() == 0 {
                after.list is None && after.lists == frame.lists
            } else if crate::ecs::live_entities(world).contains(frame.lists[0].0) {
                after.list == Some(frame.lists[0]) && after.lists == frame.lists.skip(1)
            } else {
                after == (FrameView { lists: frame.lists.skip(1), ..frame }).next_list(world)
            }
        }),
{
}

/// A pass in which nothing ran settles the frame. After any other the next pass
/// goes by what this one wrote, until there have been six.
pub proof fn passes_go_by_what_was_written(frame: FrameView)
    requires
        frame.pass < 6,
    ensures
        ({
            let (verdict, after) = frame.ended();
            &&& verdict == Verdict::Settled <==> !frame.ran_any
            &&& verdict == Verdict::Exhausted <==> frame.ran_any && frame.pass == 5
            &&& verdict == Verdict::Again ==> {
                &&& after.pass == frame.pass + 1
                &&& after.written_prev == frame.written
                &&& after.this_run == frame.this_run
                &&& after.queue == frame.queue && after.lists == frame.lists
            }
            &&& verdict != Verdict::Again ==> after == frame
        }),
{
}

/// The families of some children are these children and all their descendants.
pub proof fn families_are_whole(world: World, children: Seq<u64>, x: u64)
    ensures
        crate::runner::families(world, children).contains(x) <==> exists|i: int|
            0 <= i < children.len() && (#[trigger] children[i] == x
                || crate::hierarchy::descendants(world, children[i]).contains(x)),
    decreases children.len(),
{
    if children.len() > 0 {
        let rest = children.drop_last();
        families_are_whole(world, rest, x);
        if crate::runner::families(world, rest).contains(x) {
            let i = choose|i: int|
                0 <= i < rest.len() && (#[trigger] rest[i] == x || crate::hierarchy::descendants(
                    world,
                    rest[i],
                ).contains(x));
            assert(children[i] == rest[i]);
        }
        assert forall|i: int|
            0 <= i < children.len() && (#[trigger] children[i] == x
                || crate::hierarchy::descendants(world, children[i]).contains(x)) implies
            crate::runner::families(world, children).contains(x) by {
            if i < rest.len() {
                assert(rest[i] == children[i]);
            }
        }
        if crate::runner::families(world, children).contains(x) && !crate::runner::families(
            world,
            rest,
        ).contains(x) {
            assert(children[children.len() - 1] == children.last());
        }
    }
}

/// The child of a key is the first that was spawned for it.
pub proof fn children_go_by_their_key(spawned: Seq<(u64, u64)>, key: u64)
    ensures
        match crate::runner::child_for(spawned, key) {
            Some(e) => exists|i: int|
                0 <= i < spawned.len() && #[trigger] spawned[i] == (key, e) && forall|j: int|
                    0 <= j < i ==> (#[trigger] spawned[j]).0 != key,
            None => forall|j: int| 0 <= j < spawned.len() ==> (#[trigger] spawned[j]).0 != key,
        },
    decreases spawned.len(),
{
    if spawned.len() > 0 {
        let rest = spawned.drop_last();
        children_go_by_their_key(rest, key);
        match crate::runner::child_for(rest, key) {
            Some(e) => {
                let i = choose|i: int|
                    0 <= i < rest.len() && #[trigger] rest[i] == (key, e) && forall|j: int|
                        0 <= j < i ==> (#[trigger] rest[j]).0 != key;
                assert(spawned[i] == (key, e));
                assert forall|j: int| 0 <= j < i implies (#[trigger] spawned[j]).0 != key by {
                    assert(rest[j] == spawned[j]);
                }
            },
            None => {
                assert forall|j: int| 0 <= j < spawned.len() - 1 implies (
                #[trigger] spawned[j]).0 != key by {
                    assert(rest[j] == spawned[j]);
                }
                if spawned.last().0 == key {
                    assert(spawned[spawned.len() - 1] == (key, spawned.last().1));
                }
            },
        }
    }
}

/// A key has a place where it is wanted first, and none where it is wanted
/// again. In its place stands the child spawned for it, if that one lives.
pub proof fn places_are_given_once(
    desired: Seq<u64>,
    spawned: Seq<(u64, u64)>,
    world: World,
    i: int,
)
    requires
        0 <= i < desired.len() <= usize::MAX,
    ensures
        ({
            let again = exists|j: int| 0 <= j < i && #[trigger] desired[j] == desired[i];
            let child = crate::runner::child_for(spawned, desired[i]);
            let lives = child is Some && crate::ecs::live_entities(world).contains(child->0);
            match crate::runner::slot_at(desired, spawned, world, i) {
                Some(slot) => {
                    &&& !again
                    &&& slot.key == desired[i] && slot.at == i
                    &&& lives ==> slot.child == child
                    &&& !lives ==> slot.child is None
                },
                None => again,
            }
        }),
{
    let before = desired.take(i);
    if before.contains(desired[i]) {
        let j = choose|j: int| 0 <= j < before.len() && before[j] == desired[i];
        assert(desired[j] == desired[i]);
    }
    assert forall|j: int| 0 <= j < i && #[trigger] desired[j] == desired[i] implies
        before.contains(desired[i]) by {
        assert(before[j] == desired[i]);
    }
}

/// No spec has two instances after a merge, if it had none before; what comes
/// behind is the first of the added ones with its spec.
pub proof fn merging_adds_each_spec_once(
    instances: Seq<InstanceView>,
    added: Seq<InstanceView>,
    i: int,
)
    requires
        instances.len() <= i < crate::reactor::merged(instances, added).len(),
    ensures
        ({
            let all = crate::reactor::merged(instances, added);
            &&& exists|k: int|
                0 <= k < added.len() && #[trigger] added[k] == all[i] && forall|m: int|
                    0 <= m < k ==> (#[trigger] added[m]).identity != all[i].identity
            &&& forall|j: int| 0 <= j < i ==> (#[trigger] all[j]).identity != all[i].identity
        }),
    decreases added.len(),
{
    if added.len() > 0 {
        let rest = added.drop_last();
        let prior = crate::reactor::merged(instances, rest);
        let all = crate::reactor::merged(instances, added);
        if i < prior.len() {
            merging_adds_each_spec_once(instances, rest, i);
            let k = choose|k: int|
                0 <= k < rest.len() && #[trigger] rest[k] == prior[i] && forall|m: int|
                    0 <= m < k ==> (#[trigger] rest[m]).identity != prior[i].identity;
            assert(added[k] == all[i]);
            assert forall|m: int| 0 <= m < k implies (#[trigger] added[m]).identity
                != all[i].identity by {
                assert(rest[m] == added[m]);
            }
            assert forall|j: int| 0 <= j < i implies (#[trigger] all[j]).identity
                != all[i].identity by {
                assert(prior[j] == all[j]);
            }
        } else {
            assert(all[i] == added.last());
            assert(added[added.len() - 1] == all[i]);
            assert forall|m: int| 0 <= m < added.len() - 1 implies (#[trigger] added[m]).identity
                != all[i].identity by {
                crate::reactor::merging_takes_everything_in(instances, rest, m);
                assert(rest[m] == added[m]);
            }
            assert forall|j: int| 0 <= j < i implies (#[trigger] all[j]).identity
                != all[i].identity by {
                assert(prior[j] == all[j]);
            }
        }
    } else {
        assert(false);
    }
}

/// A write escapes a render exactly if it went to a watched component, after the
/// pass began, of an entity that neither was written nor lies below one.
pub proof fn which_writes_escape(
    world: World,
    pass_start: u32,
    now: u32,
    written: Set<u64>,
    watched: Seq<usize>,
    e: u64,
    c: usize,
)
    ensures
        crate::runner::escapes(world, pass_start, now, written, watched, e, c) <==> {
            let ticks = crate::ecs::component_ticks(world);
            &&& ticks.dom().contains((e, c))
            &&& crate::tick::newer(ticks[(e, c)].1, pass_start, now)
            &&& exists|i: int| 0 <= i < watched.len() && #[trigger] watched[i] == c
            &&& !crate::hierarchy::under_written(world, e, written)
        },
{
    if watched.contains(c) {
        let i = choose|i: int| 0 <= i < watched.len() && watched[i] == c;
        assert(watched[i] == c);
    }
}

/// The component type that a dependency watches on chosen entities.
pub proof fn what_is_watched(dep: Dep, c: usize)
    ensures
        dep.watches() == Some(c) <==> match dep {
            Dep::Component(_, d) | Dep::ComponentValue(_, d) | Dep::Presence(_, d) => c == d,
            Dep::Related { member, .. } => c == member,
            Dep::Ancestor(d) | Dep::AncestorValue(d) => c == d,
            _ => false,
        },
{
}

} // verus!
