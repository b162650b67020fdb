//! Walks over the hierarchy of parents and children.
use bevy::ecs::entity::EntityHashSet;
use bevy::ecs::world::World;
use vstd::prelude::*;

use crate::ecs::{children, empty_set, parent, set_contains, set_insert};

verus! {

/// `x` is `n` generations below `root`.
pub open spec fn below(world: World, root: u64, x: u64, n: nat) -> bool
    decreases n,
{
    if n == 0 {
        x == root
    } else {
        exists|y: u64|
            below(world, root, y, (n - 1) as nat) && #[trigger] crate::ecs::children_of(
                world,
                y,
            ).contains(x)
    }
}

/// The entities below `root`: its children, their children, and so on.
pub open spec fn descendants(world: World, root: u64) -> Set<u64> {
    Set::new(|x: u64| exists|n: nat| n >= 1 && #[trigger] below(world, root, x, n))
}

/// What is not in a set of numbers yet.
pub(crate) open spec fn unseen(seen: Set<u64>) -> nat {
    Set::<u64>::full().difference(seen).len()
}

pub(crate) proof fn seeing_more_leaves_less(seen: Set<u64>, x: u64)
    requires
        !seen.contains(x),
    ensures
        unseen(seen.insert(x)) < unseen(seen),
{
    broadcast use vstd::set_lib::full_set_properties;
    let rest = Set::<u64>::full().difference(seen);
    assert(rest.subset_of(Set::<u64>::full()));
    vstd::set_lib::lemma_set_subset_finite(Set::<u64>::full(), rest);
    assert(Set::<u64>::full().difference(seen.insert(x)) =~= rest.remove(x));
}

proof fn seeing_more_leaves_no_more(seen: Set<u64>, more: Set<u64>)
    requires
        seen.subset_of(more),
    ensures
        unseen(more) <= unseen(seen),
        more != seen ==> unseen(more) < unseen(seen),
{
    broadcast use vstd::set_lib::full_set_properties;
    let rest = Set::<u64>::full().difference(seen);
    let left = Set::<u64>::full().difference(more);
    assert(rest.subset_of(Set::<u64>::full()));
    vstd::set_lib::lemma_set_subset_finite(Set::<u64>::full(), rest);
    assert(left.subset_of(rest));
    vstd::set_lib::lemma_len_subset(left, rest);
    if more != seen {
        assert(exists|x: u64| more.contains(x) && !seen.contains(x)) by {
            if forall|x: u64| more.contains(x) ==> seen.contains(x) {
                assert(more =~= seen);
            }
        }
        let x = choose|x: u64| more.contains(x) && !seen.contains(x);
        assert(left.subset_of(rest.remove(x)));
        vstd::set_lib::lemma_len_subset(left, rest.remove(x));
    }
}

/// A set that holds the children of `root` and of each of its own members
/// holds every descendant.
pub(crate) proof fn closed_set_holds_descendants(world: World, root: u64, seen: Set<u64>, x: u64, n: nat)
    requires
        n >= 1,
        below(world, root, x, n),
        forall|y: u64, c: u64|
            (y == root || seen.contains(y)) && #[trigger] crate::ecs::children_of(
                world,
                y,
            ).contains(c) ==> seen.contains(c),
    ensures
        seen.contains(x),
    decreases n,
{
    let y = choose|y: u64|
        below(world, root, y, (n - 1) as nat) && #[trigger] crate::ecs::children_of(
            world,
            y,
        ).contains(x);
    if n > 1 {
        closed_set_holds_descendants(world, root, seen, y, (n - 1) as nat);
    }
    assert(crate::ecs::children_of(world, y).contains(x));
}

/// Record all descendants of `root`, before they are despawned, so that later
/// passes look again at what watched them.
pub fn collect_descendants(world: &World, root: u64, out: &mut EntityHashSet)
    ensures
        crate::ecs::members(*final(out)) == crate::ecs::members(*old(out)).union(
            descendants(*world, root),
        ),
{
    let ghost before = crate::ecs::members(*out);
    let mut seen = empty_set();
    let ghost mut found: Set<u64> = Set::empty();
    let mut open: Vec<u64> = Vec::new();
    open.push(root);
    proof {
        assert(open@[0] == root);
        assert(crate::ecs::members(*out) =~= before.union(found));
    }
    while open.len() > 0
        invariant
            crate::ecs::members(seen) == found,
            crate::ecs::members(*out) == before.union(found),
            forall|x: u64| #[trigger]
                found.contains(x) ==> descendants(*world, root).contains(x),
            forall|i: int|
                0 <= i < open@.len() ==> (#[trigger] open@[i] == root || found.contains(open@[i])),
            forall|y: u64, c: u64|
                (y == root || found.contains(y)) && !open@.contains(y)
                    && #[trigger] crate::ecs::children_of(*world, y).contains(c)
                    ==> found.contains(c),
        decreases unseen(found), open@.len(),
    {
        let ghost waiting = open@;
        let ghost found_before = found;
        let e: u64 = match open.pop() {
            Some(e) => e,
            None => return ,
        };
        let ghost popped = open@;
        let kids: Vec<u64> = children(world, e);
        proof {
            assert(waiting[waiting.len() - 1] == e);
            assert forall|y: u64| waiting.contains(y) && y != e implies popped.contains(y) by {
                let i = choose|i: int| 0 <= i < waiting.len() && waiting[i] == y;
                assert(popped[i] == y);
            }
        }
        let mut i: usize = 0;
        while i < kids.len()
            invariant
                i <= kids@.len(),
                kids@ == crate::ecs::children_of(*world, e),
                forall|j: int| 0 <= j < kids@.len() ==> crate::ecs::entity_bits(#[trigger] kids@[j]),
                e == root || found_before.contains(e),
                crate::ecs::members(seen) == found,
                crate::ecs::members(*out) == before.union(found),
                found_before.subset_of(found),
                forall|x: u64| #[trigger]
                    found.contains(x) ==> descendants(*world, root).contains(x),
                forall|j: int|
                    0 <= j < open@.len() ==> (#[trigger] open@[j] == root || found.contains(
                        open@[j],
                    )),
                found == found_before ==> open@ == popped,
                forall|x: u64| popped.contains(x) ==> #[trigger] open@.contains(x),
                forall|x: u64|
                    found.contains(x) && !found_before.contains(x) ==> #[trigger] open@.contains(x),
                forall|j: int| 0 <= j < i ==> found.contains(#[trigger] kids@[j]),
            decreases kids@.len() - i,
        {
            let kid: u64 = kids[i];
            let ghost found_now = found;
            let ghost open_now = open@;
            set_insert(out, kid);
            let known = set_contains(&seen, kid);
            if !known {
                set_insert(&mut seen, kid);
                open.push(kid);
            }
            proof {
                found = found.insert(kid);
                assert(crate::ecs::members(*out) =~= before.union(found));
                if known {
                    assert(found =~= found_now);
                } else {
                    assert(open@[open_now.len() as int] == kid);
                    assert forall|x: u64| open_now.contains(x) implies #[trigger] open@.contains(
                        x,
                    ) by {
                        let j = choose|j: int| 0 <= j < open_now.len() && open_now[j] == x;
                        assert(open@[j] == x);
                    }
                    assert(found != found_before) by {
                        assert(found.contains(kid) && !found_now.contains(kid));
                    }
                }
                assert(descendants(*world, root).contains(kid)) by {
                    assert(kids@.contains(kid));
                    child_of_known_is_descendant(*world, root, e, kid);
                }
            }
            i += 1;
        }
        proof {
            seeing_more_leaves_no_more(found_before, found);
            assert forall|y: u64, c: u64|
                (y == root || found.contains(y)) && !open@.contains(y)
                    && #[trigger] crate::ecs::children_of(*world, y).contains(c)
                implies found.contains(c) by {
                if y == e {
                    let j = choose|j: int| 0 <= j < kids@.len() && kids@[j] == c;
                    assert(found.contains(kids@[j]));
                } else if !found_before.contains(y) && y != root {
                    assert(open@.contains(y));
                } else {
                    assert(!waiting.contains(y)) by {
                        if waiting.contains(y) {
                            assert(popped.contains(y));
                            assert(open@.contains(y));
                        }
                    }
                    assert(found_before.contains(c));
                }
            }
        }
    }
    proof {
        assert forall|x: u64| descendants(*world, root).contains(x) implies found.contains(x) by {
            let n = choose|n: nat| n >= 1 && #[trigger] below(*world, root, x, n);
            closed_set_holds_descendants(*world, root, found, x, n);
        }
        assert(found =~= descendants(*world, root));
    }
}

/// The children of a descendant are descendants.
pub(crate) proof fn child_of_known_is_descendant(world: World, root: u64, y: u64, x: u64)
    requires
        y == root || descendants(world, root).contains(y),
        crate::ecs::children_of(world, y).contains(x),
    ensures
        descendants(world, root).contains(x),
{
    if y == root {
        assert(below(world, root, root, 0));
        assert(below(world, root, x, 1)) by {
            reveal_with_fuel(below, 2);
        }
    } else {
        let n = choose|n: nat| n >= 1 && #[trigger] below(world, root, y, n);
        assert(below(world, root, x, n + 1));
    }
}

/// Is the entity, or one that it descends from, in the set?
pub open spec fn under_written(world: World, e: u64, written: Set<u64>) -> bool {
    exists|d: nat|
        match #[trigger] crate::dep::ancestor_at(world, e, d) {
            Some(a) => written.contains(a),
            None => false,
        }
}

/// Ancestors that repeat once repeat for ever.
proof fn ancestors_repeat(world: World, e: u64, m: nat, n: nat, j: nat)
    requires
        crate::dep::ancestor_at(world, e, m) == crate::dep::ancestor_at(world, e, n),
    ensures
        crate::dep::ancestor_at(world, e, m + j) == crate::dep::ancestor_at(world, e, n + j),
    decreases j,
{
    if j > 0 {
        ancestors_repeat(world, e, m, n, (j - 1) as nat);
    }
}

/// In a cycle every ancestor is among those met before the walk came back.
pub(crate) proof fn cycle_holds_all_ancestors(world: World, e: u64, m: nat, n: nat, d: nat) -> (k: nat)
    requires
        m < n,
        crate::dep::ancestor_at(world, e, m) == crate::dep::ancestor_at(world, e, n),
    ensures
        k < n,
        crate::dep::ancestor_at(world, e, k) == crate::dep::ancestor_at(world, e, d),
    decreases d,
{
    if d < n {
        d
    } else {
        ancestors_repeat(world, e, m, n, (d - n) as nat);
        cycle_holds_all_ancestors(world, e, m, n, (d - (n - m)) as nat)
    }
}

/// Walk up from `e`: does the walk meet an entity of `written`? Children that
/// a render spawned are its own to write. A walk that comes back to an entity
/// it has been at has met them all.
pub fn in_written_subtree(world: &World, e: u64, written: &EntityHashSet) -> (r: bool)
    ensures
        r == under_written(*world, e, crate::ecs::members(*written)),
{
    let ghost target = crate::ecs::members(*written);
    proof {
        reveal_with_fuel(crate::dep::ancestor_at, 2);
        assert(crate::dep::ancestor_at(*world, e, 0) == Some(e));
    }
    if set_contains(written, e) {
        return true;
    }
    let mut cur: u64 = match parent(world, e) {
        Some(p) => p,
        None => {
            proof {
                crate::dep::no_ancestor_above(*world, e, 1);
            }
            return false;
        },
    };
    let mut been = empty_set();
    let ghost mut found: Set<u64> = Set::empty();
    let ghost mut depth: nat = 1;
    loop
        invariant
            crate::ecs::members(been) == found,
            target == crate::ecs::members(*written),
            depth >= 1,
            crate::dep::ancestor_at(*world, e, depth) == Some(cur),
            crate::ecs::entity_bits(cur),
            forall|k: nat|
                k < depth ==> match #[trigger] crate::dep::ancestor_at(*world, e, k) {
                    Some(a) => !target.contains(a),
                    None => false,
                },
            forall|x: u64| #[trigger]
                found.contains(x) ==> exists|k: nat|
                    k < depth && #[trigger] crate::dep::ancestor_at(*world, e, k) == Some(x),
        decreases unseen(found),
    {
        if set_contains(written, cur) {
            return true;
        }
        if set_contains(&been, cur) {
            proof {
                let m = choose|k: nat|
                    k < depth && #[trigger] crate::dep::ancestor_at(*world, e, k) == Some(cur);
                assert forall|d: nat| match #[trigger] crate::dep::ancestor_at(*world, e, d) {
                    Some(a) => !target.contains(a),
                    None => true,
                } by {
                    let k = cycle_holds_all_ancestors(*world, e, m, depth, d);
                    assert(crate::dep::ancestor_at(*world, e, k) is Some);
                }
            }
            return false;
        }
        let ghost found_before = found;
        set_insert(&mut been, cur);
        proof {
            found = found.insert(cur);
            seeing_more_leaves_less(found_before, cur);
            assert(crate::dep::ancestor_at(*world, e, depth) == Some(cur));
        }
        match parent(world, cur) {
            Some(p) => {
                proof {
                    depth = depth + 1;
                }
                cur = p;
            },
            None => {
                proof {
                    crate::dep::no_ancestor_above(*world, e, depth + 1);
                }
                return false;
            },
        }
    }
}

} // verus!
