//! Who is left and what has been done after a moment, told by counting.
use vstd::prelude::*;

use crate::sim::beavers::BeaverRow;
use crate::sim::buildings::BuildingRow;
use crate::sim::colony::ColonyView;
use crate::sim::trees::TreeRow;
use crate::sim::work::WorkEvent;

verus! {

/// Those who have not starved for more than forty-five seconds live on, in
/// their order, and what is listed beside them stays beside them.
pub proof fn the_living_stay_in_order<A>(rows: Seq<BeaverRow>, list: Seq<A>)
    ensures
        crate::sim::colony::with_the_living(rows, list) == Seq::new(
            rows.len(),
            |k: int| k,
        ).filter(|k: int| rows[k].beaver.starving <= 45_000_000).map_values(|k: int| list[k]),
    decreases rows.len(),
{
    reveal(Seq::filter);
    let all = Seq::new(rows.len(), |k: int| k);
    let lives = |k: int| rows[k].beaver.starving <= 45_000_000;
    let kept = all.filter(lives).map_values(|k: int| list[k]);
    if rows.len() > 0 {
        let rest = rows.drop_last();
        the_living_stay_in_order(rest, list);
        let n = (rows.len() - 1) as nat;
        let prior = Seq::new(n, |k: int| k);
        let lives_too = |k: int| rest[k].beaver.starving <= 45_000_000;
        assert(all.drop_last() =~= prior);
        same_filter(prior, lives, lives_too);
        let before = prior.filter(lives_too).map_values(|k: int| list[k]);
        assert(all.filter(lives) == if lives(n as int) {
            prior.filter(lives).push(n as int)
        } else {
            prior.filter(lives)
        });
        if lives(n as int) {
            assert(kept =~= before.push(list[n as int]));
        } else {
            assert(kept =~= before);
        }
    } else {
        assert(kept =~= Seq::<A>::empty());
    }
}

proof fn same_filter(s: Seq<int>, f: spec_fn(int) -> bool, g: spec_fn(int) -> bool)
    requires
        forall|i: int| 0 <= i < s.len() ==> f(#[trigger] s[i]) == g(s[i]),
    ensures
        s.filter(f) == s.filter(g),
    decreases s.len(),
{
    reveal(Seq::filter);
    if s.len() > 0 {
        assert forall|i: int| 0 <= i < s.drop_last().len() implies f(
            #[trigger] s.drop_last()[i],
        ) == g(s.drop_last()[i]) by {
            assert(s.drop_last()[i] == s[i]);
        }
        same_filter(s.drop_last(), f, g);
        assert(s[s.len() - 1] == s.last());
    }
}

/// Work on a building adds up; once it is built it is no site any more, and
/// news of other buildings and other things leaves it as it is.
pub proof fn work_adds_up(row: BuildingRow, events: Seq<WorkEvent>, event: WorkEvent)
    ensures
        ({
            let before = crate::sim::colony::built(row, events);
            let after = crate::sim::colony::built(row, events.push(event));
            &&& events.len() == 0 ==> before == row
            &&& after.id == before.id && after.building == before.building
            &&& after.cycle == before.cycle
            &&& match event {
                WorkEvent::Progress(id, dt) => if id == row.id && before.construction is Some {
                    &&& after.construction is Some
                    &&& (after.construction->0).required == (before.construction->0).required
                    &&& (before.construction->0).done + dt <= u64::MAX ==> (
                    after.construction->0).done == (before.construction->0).done + dt
                } else {
                    after == before
                },
                WorkEvent::Built(id) => if id == row.id {
                    after.construction is None
                } else {
                    after == before
                },
                _ => after == before,
            }
        }),
{
    assert(events.push(event).drop_last() =~= events);
}

/// The trees planted are those that the events tell of, in their order.
pub proof fn plantings_are_told(events: Seq<WorkEvent>)
    ensures
        crate::sim::colony::plantings(events) == events.filter(
            |e: WorkEvent| e is Planted,
        ).map_values(|e: WorkEvent| e->Planted_0),
    decreases events.len(),
{
    reveal(Seq::filter);
    let told = events.filter(|e: WorkEvent| e is Planted);
    if events.len() > 0 {
        plantings_are_told(events.drop_last());
        let prior = events.drop_last().filter(|e: WorkEvent| e is Planted);
        if events.last() is Planted {
            assert(told.map_values(|e: WorkEvent| e->Planted_0) =~= prior.map_values(
                |e: WorkEvent| e->Planted_0,
            ).push(events.last()->Planted_0));
        }
    } else {
        assert(told.map_values(|e: WorkEvent| e->Planted_0) =~= Seq::<TreeRow>::empty());
    }
}

/// A beaver is found by its number: the first with it, if there is any.
pub proof fn beavers_are_found_by_number(rows: Seq<BeaverRow>, id: u64)
    ensures
        match crate::sim::colony::beaver_row(rows, id) {
            Some(i) => 0 <= i < rows.len() && rows[i].id == id && forall|j: int|
                0 <= j < i ==> (#[trigger] rows[j]).id != id,
            None => forall|j: int| 0 <= j < rows.len() ==> (#[trigger] rows[j]).id != id,
        },
    decreases rows.len(),
{
    if rows.len() > 0 {
        let rest = rows.drop_last();
        beavers_are_found_by_number(rest, id);
        match crate::sim::colony::beaver_row(rest, id) {
            Some(i) => {
                assert(rows[i] == rest[i]);
                assert forall|j: int| 0 <= j < i implies (#[trigger] rows[j]).id != id by {
                    assert(rest[j] == rows[j]);
                }
            },
            None => {
                assert forall|j: int| 0 <= j < rows.len() - 1 implies (#[trigger] rows[j]).id
                    != id by {
                    assert(rest[j] == rows[j]);
                }
            },
        }
    }
}

/// What jobs can be about is every building and every tree, and nothing else;
/// what lives and stands is those and every beaver.
pub proof fn everyone_is_listed(colony: ColonyView, e: u64)
    ensures
        ({
            let building = exists|i: int|
                0 <= i < colony.buildings.len() && (#[trigger] colony.buildings[i]).id == e;
            let tree = exists|i: int|
                0 <= i < colony.trees.len() && (#[trigger] colony.trees[i]).id == e;
            let beaver = exists|i: int|
                0 <= i < colony.beavers.len() && (#[trigger] colony.beavers[i]).id == e;
            &&& colony.targets().contains(e) <==> building || tree
            &&& colony.residents().contains(e) <==> building || tree || beaver
            &&& colony.residents().len() == colony.buildings.len() + colony.trees.len()
                + colony.beavers.len()
        }),
{
    let b = colony.buildings.len() as int;
    let t = colony.trees.len() as int;
    let targets = colony.targets();
    let all = colony.residents();
    if targets.contains(e) {
        let i = choose|i: int| 0 <= i < targets.len() && targets[i] == e;
        if i < b {
            assert(colony.buildings[i].id == e);
        } else {
            assert(colony.trees[i - b].id == e);
        }
    }
    if all.contains(e) {
        let i = choose|i: int| 0 <= i < all.len() && all[i] == e;
        if i < t {
            assert(colony.trees[i].id == e);
        } else if i < t + b {
            assert(colony.buildings[i - t].id == e);
        } else {
            assert(colony.beavers[i - t - b].id == e);
        }
    }
    assert forall|i: int| 0 <= i < b && (#[trigger] colony.buildings[i]).id == e implies
        targets.contains(e) && all.contains(e) by {
        assert(targets[i] == e);
        assert(all[t + i] == e);
    }
    assert forall|i: int| 0 <= i < t && (#[trigger] colony.trees[i]).id == e implies
        targets.contains(e) && all.contains(e) by {
        assert(targets[b + i] == e);
        assert(all[i] == e);
    }
    assert forall|i: int|
        0 <= i < colony.beavers.len() && (#[trigger] colony.beavers[i]).id == e implies
        all.contains(e) by {
        assert(all[t + b + i] == e);
    }
}

/// After the work of a moment the trees that were felled are gone and those that
/// were planted stand behind the others; the jobs that were done are off the
/// board; and nothing else is lost.
pub proof fn what_work_leaves(
    colony: ColonyView,
    end: crate::sim::work::Site,
    tree: TreeRow,
    job: crate::sim::beavers::JobRow,
)
    ensures
        ({
            let after = colony.after_work(end);
            let felled = exists|i: int|
                0 <= i < end.events.len() && #[trigger] end.events[i] == WorkEvent::Felled(tree.id);
            let planted = exists|i: int|
                0 <= i < end.events.len() && #[trigger] end.events[i] == WorkEvent::Planted(tree);
            let done = exists|i: int|
                0 <= i < end.events.len() && #[trigger] end.events[i] == WorkEvent::Done(job.id);
            &&& after.trees.contains(tree) <==> (colony.trees.contains(tree) && !felled) || planted
            &&& after.jobs.contains(job) <==> end.jobs.contains(job) && !done
            &&& after.buildings.len() == colony.buildings.len()
            &&& after.beavers == end.beavers && after.routes == colony.routes
        }),
{
    broadcast use vstd::seq_lib::group_seq_properties;

    let after = colony.after_work(end);
    let events = end.events;
    let kept = colony.trees.filter(|r: TreeRow| !events.contains(WorkEvent::Felled(r.id)));
    let fresh = crate::sim::colony::plantings(events);
    plantings_are_told(events);
    let told = events.filter(|e: WorkEvent| e is Planted);
    members_of_filter(colony.trees, |r: TreeRow| !events.contains(WorkEvent::Felled(r.id)), tree);
    members_of_filter(
        end.jobs,
        |r: crate::sim::beavers::JobRow| !events.contains(WorkEvent::Done(r.id)),
        job,
    );
    members_of_filter(events, |e: WorkEvent| e is Planted, WorkEvent::Planted(tree));
    assert(fresh.contains(tree) <==> told.contains(WorkEvent::Planted(tree))) by {
        if fresh.contains(tree) {
            let k = choose|k: int| 0 <= k < fresh.len() && fresh[k] == tree;
            members_of_filter(events, |e: WorkEvent| e is Planted, told[k]);
            assert(told.contains(told[k]));
            assert(told[k] == WorkEvent::Planted(tree));
        }
        if told.contains(WorkEvent::Planted(tree)) {
            let k = choose|k: int| 0 <= k < told.len() && told[k] == WorkEvent::Planted(tree);
            assert(fresh[k] == tree);
        }
    }
    assert(after.trees.contains(tree) <==> kept.contains(tree) || fresh.contains(tree)) by {
        if after.trees.contains(tree) {
            let k = choose|k: int| 0 <= k < after.trees.len() && after.trees[k] == tree;
            if k < kept.len() {
                assert(kept[k] == tree);
            } else {
                assert(fresh[k - kept.len()] == tree);
            }
        }
        if kept.contains(tree) {
            let k = choose|k: int| 0 <= k < kept.len() && kept[k] == tree;
            assert(after.trees[k] == tree);
        }
        if fresh.contains(tree) {
            let k = choose|k: int| 0 <= k < fresh.len() && fresh[k] == tree;
            assert(after.trees[kept.len() + k] == tree);
        }
    }
}

proof fn members_of_filter<A>(s: Seq<A>, p: spec_fn(A) -> bool, a: A)
    ensures
        s.filter(p).contains(a) <==> s.contains(a) && p(a),
    decreases s.len(),
{
    reveal(Seq::filter);
    if s.len() > 0 {
        let rest = s.drop_last();
        members_of_filter(rest, p, a);
        let f = s.filter(p);
        let g = rest.filter(p);
        if s.contains(a) {
            let k = choose|k: int| 0 <= k < s.len() && s[k] == a;
            if k < rest.len() {
                assert(rest[k] == a);
            }
        }
        if rest.contains(a) {
            let k = choose|k: int| 0 <= k < rest.len() && rest[k] == a;
            assert(s[k] == a);
        }
        if g.contains(a) {
            let k = choose|k: int| 0 <= k < g.len() && g[k] == a;
            assert(f[k] == a);
        }
        if f.contains(a) {
            let k = choose|k: int| 0 <= k < f.len() && f[k] == a;
            if k < g.len() {
                assert(g[k] == a);
            } else {
                assert(s[s.len() - 1] == a);
            }
        }
        if a == s.last() && p(a) {
            assert(f[g.len() as int] == a);
        }
    }
}

/// Jobs that can no longer be done are off the board before anyone chooses, and
/// everybody chooses once.
pub proof fn the_board_is_cleared_first(
    colony: ColonyView,
    map: crate::sim::map::MapView,
    job: crate::sim::beavers::JobRow,
    board: crate::sim::claims::Board,
)
    requires
        board.beavers == colony.beavers,
        board.requests.len() == 0,
        board.jobs == colony.jobs.filter(
            |r: crate::sim::beavers::JobRow|
                crate::sim::beavers::job_valid(map, colony.targets(), r.job),
        ),
    ensures
        colony.sent_out(map) == board.chosen_upto(map, colony.beavers.len()),
        board.jobs.contains(job) <==> colony.jobs.contains(job) && crate::sim::beavers::job_valid(
            map,
            colony.targets(),
            job.job,
        ),
{
    assert(board.requests =~= Seq::empty());
    members_of_filter(
        colony.jobs,
        |r: crate::sim::beavers::JobRow|
            crate::sim::beavers::job_valid(map, colony.targets(), r.job),
        job,
    );
}

/// A beaver that goes on with what it did keeps its route; one with something
/// new to do has none until it is found.
pub proof fn routes_last_as_long_as_their_errand(
    colony: ColonyView,
    beavers: Seq<BeaverRow>,
    i: int,
)
    requires
        0 <= i < colony.routes.len(),
    ensures
        colony.routes_kept(beavers).len() == colony.routes.len(),
        colony.routes_kept(beavers)[i] == if beavers[i].beaver.state
            == colony.beavers[i].beaver.state {
            colony.routes[i]
        } else {
            None
        },
{
}

} // verus!
