//! The reactor runner: brings every reactor in line with the world, pass after
//! pass, until a pass finds nothing dirty.
//!
//! A run may only write its own entity and the descendants that it spawns or
//! despawns. So the first pass of a frame checks every reactor, and later
//! passes leave out those whose dependencies point at nothing that the pass
//! before wrote.
//!
//! A `Frame` makes the decisions. Its driver detaches reactors from the world
//! and offers them, reads what is asked for, runs scenes where it is told to,
//! and reports back.
use std::collections::VecDeque;

use bevy::ecs::entity::EntityHashSet;
use bevy::ecs::world::World;
use vstd::prelude::*;

use crate::dep::{Ask, Dep, DepState, Reading, ReadingView, StateView};
use crate::ecs::{empty_set, is_live, set_insert};
use crate::hierarchy::collect_descendants;
use crate::reactor::{InstanceView, ListView, Mode, Reactor, ReactorInstance, ReactorList};
use crate::scan::{ScansView, SharedScans};
use crate::tick::clamp_tick;

verus! {

/// Passes allowed in one frame before two reactors are taken to be waking each
/// other.
pub const MAX_PASSES: usize = 6;

/// Can a reactor on `e` be left out of a later pass? It can if it has run and
/// nothing that the last pass wrote could have made a dependency dirty.
pub open spec fn skips(deps: Seq<Dep>, last_run: u32, written_prev: Set<u64>, e: u64) -> bool {
    last_run != 0 && forall|i: int|
        0 <= i < deps.len() ==> !(#[trigger] deps[i]).may_be_affected(written_prev, e)
}

pub fn skips_pass(
    deps: &Vec<Dep>,
    last_run: u32,
    written_prev: &EntityHashSet,
    e: u64,
) -> (r: bool)
    ensures
        r == skips(deps@, last_run, crate::ecs::members(*written_prev), e),
{
    if last_run == 0 {
        return false;
    }
    let mut i: usize = 0;
    while i < deps.len()
        invariant
            i <= deps@.len(),
            forall|j: int|
                0 <= j < i ==> !(#[trigger] deps@[j]).may_be_affected(
                    crate::ecs::members(*written_prev),
                    e,
                ),
        decreases deps@.len() - i,
    {
        if deps[i].maybe_affected(written_prev, e) {
            return false;
        }
        i += 1;
    }
    true
}

/// The shared scans once the first `n` dependencies have been checked.
pub open spec fn scans_at(
    deps: Seq<Dep>,
    scans: ScansView,
    readings: Seq<ReadingView>,
    this_run: u32,
    n: nat,
) -> ScansView
    decreases n,
{
    if n == 0 {
        scans
    } else {
        deps[n - 1].scans_after(
            scans_at(deps, scans, readings, this_run, (n - 1) as nat),
            readings[n - 1],
            this_run,
        )
    }
}

/// Everything that the checks of one reactor go by.
pub ghost struct Check {
    pub deps: Seq<Dep>,
    pub world: World,
    pub scans: ScansView,
    pub this: u64,
    pub states: Seq<StateView>,
    pub last_run: u32,
    pub this_run: u32,
    pub readings: Seq<ReadingView>,
}

impl Check {
    /// What the `i`th check finds and leaves behind.
    pub open spec fn outcome(self, i: int) -> (bool, StateView) {
        self.deps[i].outcome(
            self.world,
            scans_at(self.deps, self.scans, self.readings, self.this_run, i as nat),
            self.this,
            self.states[i],
            self.last_run,
            self.this_run,
            self.readings[i],
        )
    }

    pub open spec fn asked(self, i: int) -> Ask {
        self.deps[i].asked(self.world, self.scans, self.this, self.states[i], self.this_run)
    }

    /// There is a memory for each dependency, and a reading that answers what
    /// each asked for.
    pub open spec fn wf(self) -> bool {
        &&& self.states.len() == self.deps.len()
        &&& self.readings.len() == self.deps.len()
        &&& forall|i: int|
            0 <= i < self.deps.len() ==> crate::dep::answers(
                #[trigger] self.asked(i),
                self.readings[i],
            )
    }

    /// Is the `i`th dependency the first dirty one?
    pub open spec fn first_dirty(self, i: int) -> bool {
        0 <= i < self.deps.len() && self.outcome(i).0 && forall|j: int|
            0 <= j < i ==> !(#[trigger] self.outcome(j)).0
    }

    /// Is any dependency dirty?
    pub open spec fn any_dirty(self) -> bool {
        exists|i: int| 0 <= i < self.deps.len() && (#[trigger] self.outcome(i)).0
    }

    pub open spec fn states_after(self) -> Seq<StateView> {
        Seq::new(self.deps.len(), |i: int| self.outcome(i).1)
    }

    pub open spec fn scans_after(self) -> ScansView {
        scans_at(self.deps, self.scans, self.readings, self.this_run, self.deps.len())
    }
}

pub open spec fn reading_views(r: Seq<Reading>) -> Seq<ReadingView> {
    r.map_values(|x: Reading| x@)
}

/// What was swept at this tick before a check is swept after it.
proof fn swept_stays_swept(dep: Dep, scans: ScansView, reading: ReadingView, this_run: u32)
    ensures
        ({
            let after = dep.scans_after(scans, reading, this_run);
            &&& forall|k: crate::table::Key|
                scans.component(k, this_run).scanned_at == Some(this_run) ==> (
                #[trigger] after.component(k, this_run)).scanned_at == Some(this_run)
            &&& forall|k: crate::table::Key|
                scans.message(k, this_run).scanned_at == Some(this_run) ==> (
                #[trigger] after.message(k, this_run)).scanned_at == Some(this_run)
            &&& forall|k: crate::table::Key|
                scans.asset(k, this_run).scanned_at == Some(this_run) ==> (#[trigger] after.asset(
                    k,
                    this_run,
                )).scanned_at == Some(this_run)
        }),
{
}

proof fn swept_stays_swept_upto(
    deps: Seq<Dep>,
    scans: ScansView,
    readings: Seq<ReadingView>,
    this_run: u32,
    n: nat,
)
    ensures
        ({
            let after = scans_at(deps, scans, readings, this_run, n);
            &&& forall|k: crate::table::Key|
                scans.component(k, this_run).scanned_at == Some(this_run) ==> (
                #[trigger] after.component(k, this_run)).scanned_at == Some(this_run)
            &&& forall|k: crate::table::Key|
                scans.message(k, this_run).scanned_at == Some(this_run) ==> (
                #[trigger] after.message(k, this_run)).scanned_at == Some(this_run)
            &&& forall|k: crate::table::Key|
                scans.asset(k, this_run).scanned_at == Some(this_run) ==> (#[trigger] after.asset(
                    k,
                    this_run,
                )).scanned_at == Some(this_run)
        }),
    decreases n,
{
    if n > 0 {
        let before = scans_at(deps, scans, readings, this_run, (n - 1) as nat);
        swept_stays_swept_upto(deps, scans, readings, this_run, (n - 1) as nat);
        swept_stays_swept(deps[n - 1], before, readings[n - 1], this_run);
    }
}

/// What each check of a reactor needs from typed code.
pub fn collect_asks(
    world: &World,
    scans: &SharedScans,
    deps: &Vec<Dep>,
    state: &Vec<DepState>,
    this: u64,
    this_run: u32,
) -> (r: Vec<Ask>)
    requires
        scans.wf(),
        state@.len() == deps@.len(),
    ensures
        r@ == Seq::new(
            deps@.len(),
            |i: int| deps@[i].asked(*world, scans@, this, state@[i]@, this_run),
        ),
{
    let mut r: Vec<Ask> = Vec::new();
    let mut i: usize = 0;
    while i < deps.len()
        invariant
            i <= deps@.len(),
            scans.wf(),
            state@.len() == deps@.len(),
            r@ =~= Seq::new(
                i as nat,
                |j: int| deps@[j].asked(*world, scans@, this, state@[j]@, this_run),
            ),
        decreases deps@.len() - i,
    {
        r.push(deps[i].asks(world, scans, this, &state[i], this_run));
        i += 1;
    }
    r
}

/// Check all dependencies, so that what is remembered of each stays current,
/// and tell the first dirty one.
pub fn first_dirty_dep(
    world: &World,
    scans: &mut SharedScans,
    deps: &Vec<Dep>,
    state: &mut Vec<DepState>,
    this: u64,
    last_run: u32,
    this_run: u32,
    readings: Vec<Reading>,
) -> (woke: Option<usize>)
    requires
        old(scans).wf(),
        ({
            let check = Check {
                deps: deps@,
                world: *world,
                scans: old(scans)@,
                this,
                states: crate::reactor::states(old(state)@),
                last_run,
                this_run,
                readings: reading_views(readings@),
            };
            check.wf()
        }),
    ensures
        final(scans).wf(),
        ({
            let check = Check {
                deps: deps@,
                world: *world,
                scans: old(scans)@,
                this,
                states: crate::reactor::states(old(state)@),
                last_run,
                this_run,
                readings: reading_views(readings@),
            };
            &&& final(scans)@ == check.scans_after()
            &&& crate::reactor::states(final(state)@) == check.states_after()
            &&& match woke {
                Some(i) => check.first_dirty(i as int),
                None => !check.any_dirty(),
            }
        }),
{
    let ghost check = Check {
        deps: deps@,
        world: *world,
        scans: scans@,
        this,
        states: crate::reactor::states(state@),
        last_run,
        this_run,
        readings: reading_views(readings@),
    };
    let mut rest = readings;
    let mut woke: Option<usize> = None;
    let mut i: usize = 0;
    while i < deps.len()
        invariant
            i <= deps@.len(),
            check.wf(),
            check.deps == deps@,
            check.world == *world,
            check.this == this,
            check.last_run == last_run,
            check.this_run == this_run,
            scans.wf(),
            scans@ == scans_at(deps@, check.scans, check.readings, this_run, i as nat),
            state@.len() == deps@.len(),
            rest@.len() == deps@.len() - i,
            forall|j: int| 0 <= j < rest@.len() ==> (#[trigger] rest@[j])@ == check.readings[i + j],
            forall|j: int| 0 <= j < i ==> (#[trigger] state@[j])@ == check.outcome(j).1,
            forall|j: int| i <= j < state@.len() ==> (#[trigger] state@[j])@ == check.states[j],
            match woke {
                Some(w) => w < i && check.first_dirty(w as int),
                None => forall|j: int| 0 <= j < i ==> !(#[trigger] check.outcome(j)).0,
            },
        decreases deps@.len() - i,
    {
        let reading = rest.remove(0);
        proof {
            assert(state@[i as int]@ == check.states[i as int]);
            swept_stays_swept_upto(deps@, check.scans, check.readings, this_run, i as nat);
            assert(crate::dep::answers(check.asked(i as int), check.readings[i as int]));
            assert(crate::dep::answers(
                deps@[i as int].asked(*world, scans@, this, state@[i as int]@, this_run),
                reading@,
            ));
        }
        let ghost state_before = state@;
        let dirty = deps[i].check(world, scans, this, &mut state[i], last_run, this_run, reading);
        proof {
            assert(state@.len() == state_before.len());
            assert((dirty, state@[i as int]@) == check.outcome(i as int));
        }
        if dirty && woke.is_none() {
            woke = Some(i);
        }
        i += 1;
    }
    proof {
        assert(crate::reactor::states(state@) =~= check.states_after());
    }
    woke
}

/// The detached fragments of one entity.
pub struct Job {
    pub entity: u64,
    pub instances: Vec<ReactorInstance>,
}

#[verifier::ext_equal]
pub ghost struct JobView {
    pub entity: u64,
    pub instances: Seq<InstanceView>,
}

impl View for Job {
    type V = JobView;

    open spec fn view(&self) -> JobView {
        JobView {
            entity: self.entity,
            instances: crate::reactor::instance_views(self.instances@),
        }
    }
}

impl JobView {
    pub open spec fn wf(self) -> bool {
        &&& crate::ecs::entity_bits(self.entity)
        &&& forall|i: int| 0 <= i < self.instances.len() ==> (#[trigger] self.instances[i]).wf()
    }
}

/// A detached list and its entity.
pub struct ListJob {
    pub entity: u64,
    pub list: ReactorList,
}

/// What the driver is to do about the reactors.
pub enum Step {
    /// Read what `Frame::asks` names for the current fragment, and let
    /// `Frame::decide` judge.
    Check,
    /// Put the fragments back on their entity, those merged in that a run has
    /// brought along.
    Reattach(Job),
    /// The pass is through with the reactors.
    Done,
}

pub ghost enum StepView {
    Check,
    Reattach(JobView),
    Done,
}

impl View for Step {
    type V = StepView;

    open spec fn view(&self) -> StepView {
        match self {
            Step::Check => StepView::Check,
            Step::Reattach(job) => StepView::Reattach(job@),
            Step::Done => StepView::Done,
        }
    }
}

/// What a check leads to.
#[derive(Clone, Copy, PartialEq, Eq, Structural, Debug)]
pub enum Decision {
    /// Nothing is dirty.
    Quiet,
    /// Run the scene of the spec with this number on this entity; in mode
    /// `Rebuild`, despawn its children first. `woke` tells which dependency is the
    /// first dirty one.
    Run { entity: u64, identity: u64, mode: Mode, woke: usize },
}

/// How a pass ends.
#[derive(Clone, Copy, PartialEq, Eq, Structural, Debug)]
pub enum Verdict {
    /// Nothing ran: the frame is settled.
    Settled,
    /// Something ran: another pass is due.
    Again,
    /// Something ran in the last pass that is allowed.
    Exhausted,
}

/// One frame of the runner.
pub struct Frame {
    pass: usize,
    this_run: u32,
    written_prev: EntityHashSet,
    written: EntityHashSet,
    ran_any: bool,
    queue: VecDeque<Job>,
    busy: bool,
    job: Job,
    at: usize,
    lists: VecDeque<ListJob>,
    list: Option<ListJob>,
}

#[verifier::ext_equal]
pub ghost struct FrameView {
    pub pass: nat,
    pub this_run: u32,
    pub written_prev: Set<u64>,
    pub written: Set<u64>,
    pub ran_any: bool,
    pub queue: Seq<JobView>,
    pub busy: bool,
    pub job: JobView,
    pub at: nat,
    pub lists: Seq<(u64, ListView)>,
    pub list: Option<(u64, ListView)>,
}

pub open spec fn job_views(s: Seq<Job>) -> Seq<JobView> {
    s.map_values(|j: Job| j@)
}

pub open spec fn list_views(s: Seq<ListJob>) -> Seq<(u64, ListView)> {
    s.map_values(|j: ListJob| (j.entity, j.list@))
}

impl View for Frame {
    type V = FrameView;

    closed spec fn view(&self) -> FrameView {
        FrameView {
            pass: self.pass as nat,
            this_run: self.this_run,
            written_prev: crate::ecs::members(self.written_prev),
            written: crate::ecs::members(self.written),
            ran_any: self.ran_any,
            queue: job_views(self.queue@),
            busy: self.busy,
            job: self.job@,
            at: self.at as nat,
            lists: list_views(self.lists@),
            list: match self.list {
                Some(l) => Some((l.entity, l.list@)),
                None => None,
            },
        }
    }
}

/// The fragments, their ticks kept within the age that ticks can tell.
pub open spec fn clamped_instances(s: Seq<InstanceView>, this_run: u32) -> Seq<InstanceView> {
    s.map_values(
        |i: InstanceView|
            InstanceView { last_run: crate::tick::clamped(i.last_run, this_run), ..i },
    )
}

impl FrameView {
    pub open spec fn wf(self) -> bool {
        &&& self.pass < MAX_PASSES
        &&& forall|i: int| 0 <= i < self.queue.len() ==> (#[trigger] self.queue[i]).wf()
        &&& self.busy ==> self.job.wf() && self.at <= self.job.instances.len()
        &&& forall|i: int|
            0 <= i < self.lists.len() ==> crate::ecs::entity_bits((#[trigger] self.lists[i]).0)
                && self.lists[i].1.wf()
        &&& self.list matches Some(l) ==> crate::ecs::entity_bits(l.0) && l.1.wf()
    }

    /// A frame before its first pass.
    pub open spec fn fresh() -> FrameView {
        FrameView {
            pass: 0,
            this_run: 0,
            written_prev: Set::empty(),
            written: Set::empty(),
            ran_any: false,
            queue: Seq::empty(),
            busy: false,
            job: JobView { entity: 0, instances: Seq::empty() },
            at: 0,
            lists: Seq::empty(),
            list: None,
        }
    }

    /// The end of a pass: whether the frame is settled, another pass follows or
    /// there have been enough of them, and the frame after it. What this pass
    /// wrote is what the next one goes by.
    pub open spec fn ended(self) -> (Verdict, FrameView) {
        if !self.ran_any {
            (Verdict::Settled, self)
        } else if self.pass + 1 < MAX_PASSES {
            (
                Verdict::Again,
                FrameView {
                    pass: self.pass + 1,
                    written_prev: self.written,
                    written: self.written_prev,
                    ..self
                },
            )
        } else {
            (Verdict::Exhausted, self)
        }
    }

    /// Is this fragment of `e` checked in the current pass?
    pub open spec fn due(self, instance: InstanceView, e: u64) -> bool {
        self.pass == 0 || !skips(instance.deps, instance.last_run, self.written_prev, e)
    }

    /// Is any of these fragments checked in the current pass?
    pub open spec fn any_due(self, instances: Seq<InstanceView>, e: u64) -> bool {
        self.pass == 0 || exists|i: int|
            0 <= i < instances.len() && self.due(#[trigger] instances[i], e)
    }

    /// The first fragment of the current job at or after `i` that is due.
    pub open spec fn next_due(self, i: nat) -> nat
        decreases self.job.instances.len() - i,
    {
        if i >= self.job.instances.len() {
            self.job.instances.len()
        } else if self.due(self.job.instances[i as int], self.job.entity) {
            i
        } else {
            self.next_due(i + 1)
        }
    }

    /// Where the work on the reactors goes next: to the next fragment of the
    /// current job that is due; then the job is given back; then comes the
    /// next job whose entity still lives.
    pub open spec fn advanced(self, world: World) -> (StepView, FrameView)
        decreases self.queue.len(),
    {
        if self.busy {
            let at = self.next_due(self.at);
            if at < self.job.instances.len() {
                (StepView::Check, FrameView { at, ..self })
            } else {
                (
                    StepView::Reattach(self.job),
                    FrameView {
                        busy: false,
                        job: JobView { entity: 0, instances: Seq::empty() },
                        at: 0,
                        ..self
                    },
                )
            }
        } else if self.queue.len() == 0 {
            (StepView::Done, self)
        } else {
            let next = FrameView { queue: self.queue.skip(1), ..self };
            if crate::ecs::live_entities(world).contains(self.queue[0].entity) {
                FrameView { busy: true, job: self.queue[0], at: 0, ..next }.advanced(world)
            } else {
                next.advanced(world)
            }
        }
    }

    /// The current fragment.
    pub open spec fn current(self) -> InstanceView {
        self.job.instances[self.at as int]
    }

    /// A fragment is up for a check.
    pub open spec fn checking(self) -> bool {
        self.busy && self.at < self.job.instances.len()
    }

    /// The check of the current fragment.
    pub open spec fn check(
        self,
        world: World,
        scans: ScansView,
        readings: Seq<ReadingView>,
    ) -> Check {
        Check {
            deps: self.current().deps,
            world,
            scans,
            this: self.job.entity,
            states: self.current().state,
            last_run: self.current().last_run,
            this_run: self.this_run,
            readings,
        }
    }

    /// The check of the current list.
    pub open spec fn list_check(
        self,
        world: World,
        scans: ScansView,
        readings: Seq<ReadingView>,
    ) -> Check {
        let (e, list) = self.list->0;
        Check {
            deps: list.deps,
            world,
            scans,
            this: e,
            states: list.state,
            last_run: list.last_run,
            this_run: self.this_run,
            readings,
        }
    }

    /// The frame with another version of the current fragment.
    pub open spec fn with_current(self, instance: InstanceView) -> FrameView {
        FrameView {
            job: JobView {
                instances: self.job.instances.update(self.at as int, instance),
                ..self.job
            },
            ..self
        }
    }
}

impl Frame {
    pub open spec fn wf(&self) -> bool {
        self@.wf()
    }

    pub fn new() -> (r: Frame)
        ensures
            r.wf(),
            r@ == FrameView::fresh(),
    {
        let r = Frame {
            pass: 0,
            this_run: 0,
            written_prev: empty_set(),
            written: empty_set(),
            ran_any: false,
            queue: VecDeque::new(),
            busy: false,
            job: Job { entity: 0, instances: Vec::new() },
            at: 0,
            lists: VecDeque::new(),
            list: None,
        };
        proof {
            assert(r@ =~= FrameView::fresh());
        }
        r
    }

    /// Start a pass at this tick.
    pub fn begin_pass(&mut self, this_run: u32)
        requires
            old(self).wf(),
        ensures
            final(self).wf(),
            final(self)@ == (FrameView {
                this_run,
                written: Set::empty(),
                ran_any: false,
                ..old(self)@
            }),
    {
        self.this_run = this_run;
        self.written = empty_set();
        self.ran_any = false;
    }

    /// Offer the fragments of one entity. They come back, their ticks brought
    /// up to date, where the pass leaves all of them out.
    pub fn offer(&mut self, entity: u64, instances: Vec<ReactorInstance>) -> (r: Option<
        Vec<ReactorInstance>,
    >)
        requires
            old(self).wf(),
            crate::ecs::entity_bits(entity),
            forall|i: int| 0 <= i < instances@.len() ==> (#[trigger] instances@[i])@.wf(),
        ensures
            final(self).wf(),
            ({
                let given = clamped_instances(
                    crate::reactor::instance_views(instances@),
                    old(self)@.this_run,
                );
                if old(self)@.any_due(given, entity) {
                    &&& r is None
                    &&& final(self)@ == (FrameView {
                        queue: old(self)@.queue.push(JobView { entity, instances: given }),
                        ..old(self)@
                    })
                } else {
                    &&& r matches Some(back) && crate::reactor::instance_views(back@) == given
                    &&& final(self)@ == old(self)@
                }
            }),
    {
        let mut instances = instances;
        let ghost given = crate::reactor::instance_views(instances@);
        let ghost want = clamped_instances(given, self.this_run);
        let ghost before = self@;
        let mut due = self.pass == 0;
        let mut i: usize = 0;
        while i < instances.len()
            invariant
                i <= instances@.len(),
                instances@.len() == given.len(),
                want == clamped_instances(given, self.this_run),
                before == self@,
                self.wf(),
                forall|j: int| 0 <= j < given.len() ==> (#[trigger] given[j]).wf(),
                forall|j: int| 0 <= j < i ==> (#[trigger] instances@[j])@ == want[j],
                forall|j: int| i <= j < instances@.len() ==> (#[trigger] instances@[j])@ == given[j],
                due == (before.pass == 0 || exists|j: int|
                    0 <= j < i && before.due(#[trigger] want[j], entity)),
            decreases instances@.len() - i,
        {
            let ghost prior = instances@;
            clamp_tick(&mut instances[i].last_run, self.this_run);
            proof {
                assert(prior[i as int]@ == given[i as int]);
                assert(instances@[i as int]@ == want[i as int]);
                assert forall|j: int| 0 <= j < instances@.len() && j != i implies #[trigger] instances@[j]
                    == prior[j] by {}
            }
            let skip = skips_pass(
                &instances[i].spec.deps,
                instances[i].last_run,
                &self.written_prev,
                entity,
            );
            if !skip {
                due = true;
            }
            i += 1;
        }
        proof {
            assert(crate::reactor::instance_views(instances@) =~= want);
        }
        if due {
            proof {
                assert forall|j: int| 0 <= j < want.len() implies (#[trigger] want[j]).wf() by {
                    assert(given[j].wf());
                }
            }
            let ghost queue_before = self.queue@;
            self.queue.push_back(Job { entity, instances });
            proof {
                assert(job_views(self.queue@) =~= job_views(queue_before).push(
                    JobView { entity, instances: want },
                ));
            }
            None
        } else {
            Some(instances)
        }
    }

    /// Go on to the next fragment that is due.
    pub fn advance(&mut self, world: &World) -> (step: Step)
        requires
            old(self).wf(),
        ensures
            final(self).wf(),
            (step@, final(self)@) == old(self)@.advanced(*world),
            step is Check ==> final(self)@.checking(),
    {
        let ghost target = self@.advanced(*world);
        while !self.busy
            invariant
                self.wf(),
                self@.advanced(*world) == target,
                target == old(self)@.advanced(*world),
            decreases self.queue@.len(), (if self.busy { 0nat } else { 1nat }),
        {
            let ghost queue_before = self.queue@;
            let ghost before = self@;
            match self.queue.pop_front() {
                None => {
                    proof {
                        assert(self@ =~= before);
                        assert(self@.queue.len() == 0);
                    }
                    return Step::Done;
                },
                Some(job) => {
                    proof {
                        assert(job_views(self.queue@) =~= before.queue.skip(1));
                        assert(before.queue[0] == job@);
                        assert(before.queue[0].wf());
                        assert forall|i: int| 0 <= i < self@.queue.len() implies (
                        #[trigger] self@.queue[i]).wf() by {
                            assert(self@.queue[i] == before.queue[i + 1]);
                        }
                    }
                    if is_live(world, job.entity) {
                        self.busy = true;
                        self.at = 0;
                        self.job = job;
                        proof {
                            assert(self@ =~= (FrameView {
                                queue: before.queue.skip(1),
                                busy: true,
                                job: job@,
                                at: 0,
                                ..before
                            }));
                        }
                    } else {
                        proof {
                            assert(self@ =~= (FrameView {
                                queue: before.queue.skip(1),
                                ..before
                            }));
                        }
                    }
                },
            }
        }
        let ghost start = self@;
        while self.at < self.job.instances.len()
            invariant
                self.wf(),
                self.busy,
                start.busy,
                self@ == (FrameView { at: self@.at, ..start }),
                start.at <= self@.at,
                start.next_due(start.at) == start.next_due(self@.at),
                start.advanced(*world) == target,
                target == old(self)@.advanced(*world),
                start.wf(),
            decreases self.job.instances@.len() - self.at,
        {
            let ghost before = self@;
            let skip = self.pass > 0 && skips_pass(
                &self.job.instances[self.at].spec.deps,
                self.job.instances[self.at].last_run,
                &self.written_prev,
                self.job.entity,
            );
            proof {
                assert(self@.job.instances[self.at as int] == self.job.instances@[self.at as int]@);
            }
            if !skip {
                proof {
                    assert(start.next_due(start.at) == self@.at);
                }
                return Step::Check;
            }
            self.at = self.at + 1;
            proof {
                assert(self@ =~= (FrameView { at: self@.at, ..start }));
                assert(self@.at <= self@.job.instances.len());
            }
        }
        let mut job = Job { entity: 0, instances: Vec::new() };
        proof {
            assert(start.next_due(self@.at) == start.job.instances.len());
        }
        core::mem::swap(&mut job, &mut self.job);
        self.busy = false;
        self.at = 0;
        proof {
            assert(self@.job =~= (JobView { entity: 0, instances: Seq::empty() }));
            assert(self@ =~= target.1);
        }
        Step::Reattach(job)
    }

    /// The entity of the current fragment, and the number of its spec.
    pub fn current_fragment(&self) -> (r: (u64, u64))
        requires
            self.wf(),
            self@.checking(),
        ensures
            r == (self@.job.entity, self@.current().identity),
    {
        let instance = &self.job.instances[self.at];
        assert(self@.current() == instance@);
        (self.job.entity, instance.spec.identity)
    }

    /// What the check of the current fragment needs from typed code.
    pub fn asks(&self, world: &World, scans: &SharedScans) -> (r: Vec<Ask>)
        requires
            self.wf(),
            self@.checking(),
            scans.wf(),
        ensures
            r@ == Seq::new(
                self@.current().deps.len(),
                |i: int|
                    self@.current().deps[i].asked(
                        *world,
                        scans@,
                        self@.job.entity,
                        self@.current().state[i],
                        self@.this_run,
                    ),
            ),
    {
        let instance = &self.job.instances[self.at];
        proof {
            assert(self@.current() == instance@);
            assert(self@.current().wf());
        }
        let r = collect_asks(
            world,
            scans,
            &instance.spec.deps,
            &instance.state,
            self.job.entity,
            self.this_run,
        );
        proof {
            assert(r@ =~= Seq::new(
                self@.current().deps.len(),
                |i: int|
                    self@.current().deps[i].asked(
                        *world,
                        scans@,
                        self@.job.entity,
                        self@.current().state[i],
                        self@.this_run,
                    ),
            ));
        }
        r
    }

    /// Judge the current fragment by what was read for it. If it is quiet the
    /// frame moves on; else the run is recorded among what the pass writes,
    /// with all descendants where the children are to be replaced.
    pub fn decide(
        &mut self,
        world: &World,
        scans: &mut SharedScans,
        readings: Vec<Reading>,
    ) -> (r: Decision)
        requires
            old(self).wf(),
            old(self)@.checking(),
            old(scans).wf(),
            old(self)@.check(*world, old(scans)@, reading_views(readings@)).wf(),
        ensures
            final(self).wf(),
            final(scans).wf(),
            ({
                let before = old(self)@;
                let check = before.check(*world, old(scans)@, reading_views(readings@));
                let checked = before.with_current(
                    InstanceView { state: check.states_after(), ..before.current() },
                );
                &&& final(scans)@ == check.scans_after()
                &&& if check.any_dirty() {
                    &&& r is Run
                    &&& r == (Decision::Run {
                        entity: before.job.entity,
                        identity: before.current().identity,
                        mode: before.current().mode,
                        woke: r->woke,
                    })
                    &&& check.first_dirty(r->woke as int)
                    &&& final(self)@ == (FrameView {
                        ran_any: true,
                        written: if before.current().mode == Mode::Rebuild {
                            before.written.insert(before.job.entity).union(
                                crate::hierarchy::descendants(*world, before.job.entity),
                            )
                        } else {
                            before.written.insert(before.job.entity)
                        },
                        ..checked
                    })
                } else {
                    &&& r == Decision::Quiet
                    &&& final(self)@ == (FrameView { at: before.at + 1, ..checked })
                }
            }),
    {
        let ghost before = self@;
        let ghost instances_before = self.job.instances@;
        let ghost check = before.check(*world, scans@, reading_views(readings@));
        let at: usize = self.at;
        let entity: u64 = self.job.entity;
        let this_run: u32 = self.this_run;
        let mut job = Job { entity: 0, instances: Vec::new() };
        core::mem::swap(&mut job, &mut self.job);
        proof {
            assert(before.current() == job.instances@[at as int]@);
            assert(before.current().wf());
        }
        let count: usize = job.instances.len();
        assert(at < count);
        let identity: u64 = job.instances[at].spec.identity;
        let mode = job.instances[at].spec.mode;
        let instance = &mut job.instances[at];
        let woke = first_dirty_dep(
            world,
            scans,
            &instance.spec.deps,
            &mut instance.state,
            entity,
            instance.last_run,
            this_run,
            readings,
        );
        core::mem::swap(&mut job, &mut self.job);
        let ghost checked = before.with_current(
            InstanceView { state: check.states_after(), ..before.current() },
        );
        proof {
            assert(self.job.instances@[at as int]@ =~= (InstanceView {
                state: check.states_after(),
                ..before.current()
            }));
            assert(crate::reactor::instance_views(self.job.instances@)
                =~= before.job.instances.update(
                at as int,
                InstanceView { state: check.states_after(), ..before.current() },
            ));
            assert(self@ =~= checked);
            assert(checked.wf());
        }
        let woke: usize = match woke {
            Some(woke) => woke,
            None => {
                self.at = at + 1;
                proof {
                    assert(self@ =~= (FrameView { at: before.at + 1, ..checked }));
                }
                return Decision::Quiet;
            },
        };
        self.ran_any = true;
        set_insert(&mut self.written, entity);
        if mode == Mode::Rebuild {
            collect_descendants(world, entity, &mut self.written);
        }
        Decision::Run { entity, identity, mode, woke }
    }

    /// The current fragment has run; the tick is that of the world after the
    /// run, so that what the run wrote does not wake it again.
    pub fn rendered(&mut self, tick: u32)
        requires
            old(self).wf(),
            old(self)@.checking(),
        ensures
            final(self).wf(),
            final(self)@ == (FrameView {
                at: old(self)@.at + 1,
                ..old(self)@.with_current(
                    InstanceView { last_run: tick, ..old(self)@.current() },
                )
            }),
    {
        let ghost before = self@;
        let at: usize = self.at;
        let mut job = Job { entity: 0, instances: Vec::new() };
        core::mem::swap(&mut job, &mut self.job);
        proof {
            assert(before.current() == job.instances@[at as int]@);
            assert(before.current().wf());
        }
        let count: usize = job.instances.len();
        assert(at < count);
        let instance = &mut job.instances[at];
        instance.last_run = tick;
        core::mem::swap(&mut job, &mut self.job);
        self.at = at + 1;
        proof {
            let want = before.with_current(InstanceView { last_run: tick, ..before.current() });
            assert(crate::reactor::instance_views(self.job.instances@) =~= want.job.instances);
            assert(self@ =~= (FrameView { at: before.at + 1, ..want }));
        }
    }
}

/// The child that a list spawned for a key: the first such entry.
pub open spec fn child_for(spawned: Seq<(u64, u64)>, key: u64) -> Option<u64>
    decreases spawned.len(),
{
    if spawned.len() == 0 {
        None
    } else {
        match child_for(spawned.drop_last(), key) {
            Some(e) => Some(e),
            None => if spawned.last().0 == key {
                Some(spawned.last().1)
            } else {
                None
            },
        }
    }
}

/// The children whose key is no longer wanted, in order.
pub open spec fn vanished(spawned: Seq<(u64, u64)>, desired: Seq<u64>) -> Seq<u64>
    decreases spawned.len(),
{
    if spawned.len() == 0 {
        Seq::empty()
    } else if desired.contains(spawned.last().0) {
        vanished(spawned.drop_last(), desired)
    } else {
        vanished(spawned.drop_last(), desired).push(spawned.last().1)
    }
}

/// One place in a list: the key, where among the wanted items it stands first,
/// and the child that stays there; with no child, one is to be spawned.
#[derive(Clone, Copy, PartialEq, Eq, Structural, Debug)]
pub struct Slot {
    pub key: u64,
    pub at: usize,
    pub child: Option<u64>,
}

/// The child that stays for a key: the one spawned for it, while it lives.
pub open spec fn staying(spawned: Seq<(u64, u64)>, key: u64, world: World) -> Option<u64> {
    match child_for(spawned, key) {
        Some(e) => if crate::ecs::live_entities(world).contains(e) {
            Some(e)
        } else {
            None
        },
        None => None,
    }
}

/// The place of the `i`th wanted key: none where it is a duplicate of an earlier
/// one, which is passed over. Whether its child lives is seen when its turn comes,
/// for what is spawned for one key may despawn the child of another.
pub open spec fn slot_at(
    desired: Seq<u64>,
    spawned: Seq<(u64, u64)>,
    world: World,
    i: int,
) -> Option<Slot> {
    if desired.take(i).contains(desired[i]) {
        None
    } else {
        Some(
            Slot { key: desired[i], at: i as usize, child: staying(spawned, desired[i], world) },
        )
    }
}

/// The places of the first `n` wanted keys, in the order in which the keys first
/// come; `worlds` tells the world at each turn.
pub open spec fn slots(
    desired: Seq<u64>,
    spawned: Seq<(u64, u64)>,
    worlds: Seq<World>,
    n: nat,
) -> Seq<Slot>
    decreases n,
{
    if n == 0 {
        Seq::empty()
    } else {
        let prior = slots(desired, spawned, worlds, (n - 1) as nat);
        match slot_at(desired, spawned, worlds[n - 1], n - 1) {
            Some(slot) => prior.push(slot),
            None => prior,
        }
    }
}

/// The entities that despawning these children takes along.
pub open spec fn families(world: World, children: Seq<u64>) -> Set<u64>
    decreases children.len(),
{
    if children.len() == 0 {
        Set::empty()
    } else {
        families(world, children.drop_last()).insert(children.last()).union(
            crate::hierarchy::descendants(world, children.last()),
        )
    }
}

fn contains_key(keys: &Vec<u64>, upto: usize, key: u64) -> (r: bool)
    requires
        upto <= keys@.len(),
    ensures
        r == keys@.take(upto as int).contains(key),
{
    let mut i: usize = 0;
    while i < upto
        invariant
            i <= upto <= keys@.len(),
            forall|j: int| 0 <= j < i ==> keys@[j] != key,
        decreases upto - i,
    {
        if keys[i] == key {
            assert(keys@.take(upto as int)[i as int] == key);
            return true;
        }
        i += 1;
    }
    false
}

fn find_child(spawned: &Vec<(u64, u64)>, key: u64) -> (r: Option<u64>)
    ensures
        r == child_for(spawned@, key),
{
    let mut i: usize = 0;
    while i < spawned.len()
        invariant
            i <= spawned@.len(),
            child_for(spawned@.take(i as int), key) is None,
        decreases spawned@.len() - i,
    {
        proof {
            assert(spawned@.take(i + 1).drop_last() =~= spawned@.take(i as int));
        }
        if spawned[i].0 == key {
            proof {
                child_for_prefix(spawned@, key, i + 1);
            }
            return Some(spawned[i].1);
        }
        i += 1;
    }
    proof {
        assert(spawned@.take(i as int) =~= spawned@);
    }
    None
}

/// What a prefix finds the whole finds.
proof fn child_for_prefix(spawned: Seq<(u64, u64)>, key: u64, n: int)
    requires
        0 <= n <= spawned.len(),
        child_for(spawned.take(n), key) is Some,
    ensures
        child_for(spawned, key) == child_for(spawned.take(n), key),
    decreases spawned.len() - n,
{
    if n < spawned.len() {
        assert(spawned.take(n + 1).drop_last() =~= spawned.take(n));
        child_for_prefix(spawned, key, n + 1);
    } else {
        assert(spawned.take(n) =~= spawned);
    }
}

impl FrameView {
    /// The next list whose entity still lives, and the rest.
    pub open spec fn next_list(self, world: World) -> FrameView
        decreases self.lists.len(),
    {
        if self.lists.len() == 0 {
            FrameView { list: None, ..self }
        } else {
            let rest = FrameView { lists: self.lists.skip(1), ..self };
            if crate::ecs::live_entities(world).contains(self.lists[0].0) {
                FrameView { list: Some(self.lists[0]), ..rest }
            } else {
                rest.next_list(world)
            }
        }
    }

    /// Is this list of `e` checked in the current pass?
    pub open spec fn list_due(self, list: ListView, e: u64) -> bool {
        self.pass == 0 || !skips(list.deps, list.last_run, self.written_prev, e)
    }

    /// The frame with another version of the current list.
    pub open spec fn with_list(self, list: ListView) -> FrameView {
        FrameView { list: Some(((self.list->0).0, list)), ..self }
    }
}

impl Frame {
    /// Offer one list. It comes back where the pass leaves it out.
    pub fn offer_list(&mut self, entity: u64, list: ReactorList) -> (r: Option<ReactorList>)
        requires
            old(self).wf(),
            crate::ecs::entity_bits(entity),
            list@.wf(),
        ensures
            final(self).wf(),
            ({
                let given = ListView {
                    last_run: crate::tick::clamped(list@.last_run, old(self)@.this_run),
                    ..list@
                };
                if old(self)@.list_due(given, entity) {
                    &&& r is None
                    &&& final(self)@ == (FrameView {
                        lists: old(self)@.lists.push((entity, given)),
                        ..old(self)@
                    })
                } else {
                    &&& r matches Some(back) && back@ == given && back@.wf()
                    &&& final(self)@ == old(self)@
                }
            }),
    {
        let mut list = list;
        let ghost given = ListView {
            last_run: crate::tick::clamped(list@.last_run, self@.this_run),
            ..list@
        };
        let ghost before = self@;
        clamp_tick(&mut list.last_run, self.this_run);
        assert(list@ =~= given);
        if self.pass > 0 && skips_pass(
            &list.spec.deps,
            list.last_run,
            &self.written_prev,
            entity,
        ) {
            return Some(list);
        }
        let ghost lists_before = self.lists@;
        self.lists.push_back(ListJob { entity, list });
        proof {
            assert(list_views(self.lists@) =~= list_views(lists_before).push((entity, given)));
            assert(self@ =~= (FrameView { lists: before.lists.push((entity, given)), ..before }));
        }
        None
    }

    /// Go on to the next list whose entity still lives; is there one?
    pub fn advance_list(&mut self, world: &World) -> (more: bool)
        requires
            old(self).wf(),
        ensures
            final(self).wf(),
            final(self)@ == old(self)@.next_list(*world),
            more == (final(self)@.list is Some),
    {
        let ghost target = self@.next_list(*world);
        loop
            invariant
                self.wf(),
                self@.next_list(*world) == target,
                target == old(self)@.next_list(*world),
            decreases self.lists@.len(),
        {
            let ghost before = self@;
            match self.lists.pop_front() {
                None => {
                    self.list = None;
                    proof {
                        assert(self@ =~= (FrameView { list: None, ..before }));
                    }
                    return false;
                },
                Some(job) => {
                    proof {
                        assert(list_views(self.lists@) =~= before.lists.skip(1));
                        assert(before.lists[0] == (job.entity, job.list@));
                        assert forall|i: int| 0 <= i < self@.lists.len() implies
                            crate::ecs::entity_bits((#[trigger] self@.lists[i]).0)
                            && self@.lists[i].1.wf() by {
                            assert(self@.lists[i] == before.lists[i + 1]);
                        }
                    }
                    if is_live(world, job.entity) {
                        self.list = Some(job);
                        proof {
                            assert(self@ =~= (FrameView {
                                lists: before.lists.skip(1),
                                list: Some(before.lists[0]),
                                ..before
                            }));
                        }
                        return true;
                    }
                    proof {
                        assert(self@ =~= (FrameView { lists: before.lists.skip(1), ..before }));
                    }
                },
            }
        }
    }

    /// Has anything run in this pass?
    pub fn ran(&self) -> (r: bool)
        ensures
            r == self@.ran_any,
    {
        self.ran_any
    }

    /// The entity of the current list, and the number of its spec.
    pub fn current_list(&self) -> (r: Option<(u64, u64)>)
        requires
            self.wf(),
        ensures
            r == match self@.list {
                Some((e, list)) => Some((e, list.identity)),
                None => None,
            },
    {
        match &self.list {
            Some(job) => Some((job.entity, job.list.spec.identity)),
            None => None,
        }
    }

    /// What the check of the current list needs from typed code.
    pub fn list_asks(&self, world: &World, scans: &SharedScans) -> (r: Vec<Ask>)
        requires
            self.wf(),
            self@.list is Some,
            scans.wf(),
        ensures
            ({
                let (e, list) = self@.list->0;
                r@ == Seq::new(
                    list.deps.len(),
                    |i: int|
                        list.deps[i].asked(*world, scans@, e, list.state[i], self@.this_run),
                )
            }),
    {
        match &self.list {
            Some(job) => {
                let r = collect_asks(
                    world,
                    scans,
                    &job.list.spec.deps,
                    &job.list.state,
                    job.entity,
                    self.this_run,
                );
                proof {
                    let (e, list) = self@.list->0;
                    assert(r@ =~= Seq::new(
                        list.deps.len(),
                        |i: int|
                            list.deps[i].asked(*world, scans@, e, list.state[i], self@.this_run),
                    ));
                }
                r
            },
            None => Vec::new(),
        }
    }

    /// Judge the current list by what was read for it. Where it is dirty, the
    /// answer is its entity, the number of its items function and the first dirty
    /// dependency.
    pub fn decide_list(
        &mut self,
        world: &World,
        scans: &mut SharedScans,
        readings: Vec<Reading>,
    ) -> (r: Option<(u64, u64, usize)>)
        requires
            old(self).wf(),
            old(self)@.list is Some,
            old(scans).wf(),
            old(self)@.list_check(*world, old(scans)@, reading_views(readings@)).wf(),
        ensures
            final(self).wf(),
            final(scans).wf(),
            final(self)@.list is Some,
            ({
                let before = old(self)@;
                let (e, list) = before.list->0;
                let check = before.list_check(*world, old(scans)@, reading_views(readings@));
                let checked = before.with_list(ListView { state: check.states_after(), ..list });
                &&& final(scans)@ == check.scans_after()
                &&& if check.any_dirty() {
                    &&& r is Some
                    &&& (r->0).0 == e
                    &&& (r->0).1 == list.identity
                    &&& check.first_dirty((r->0).2 as int)
                    &&& final(self)@ == (FrameView {
                        ran_any: true,
                        written: before.written.insert(e),
                        ..checked
                    })
                } else {
                    &&& r is None
                    &&& final(self)@ == checked
                }
            }),
    {
        let ghost before = self@;
        let ghost check = before.list_check(*world, scans@, reading_views(readings@));
        let this_run: u32 = self.this_run;
        let mut job = match self.list.take() {
            Some(job) => job,
            None => return None,
        };
        let entity: u64 = job.entity;
        let identity: u64 = job.list.spec.identity;
        let woke = first_dirty_dep(
            world,
            scans,
            &job.list.spec.deps,
            &mut job.list.state,
            entity,
            job.list.last_run,
            this_run,
            readings,
        );
        proof {
            assert(job.list@ =~= (ListView {
                state: check.states_after(),
                ..(before.list->0).1
            }));
        }
        self.list = Some(job);
        proof {
            assert(self@ =~= before.with_list(
                ListView { state: check.states_after(), ..(before.list->0).1 },
            ));
        }
        let woke: usize = match woke {
            Some(woke) => woke,
            None => return None,
        };
        self.ran_any = true;
        set_insert(&mut self.written, entity);
        Some((entity, identity, woke))
    }

    /// The children of the current list that are to be despawned, these being
    /// the keys of the wanted items. They and all below them are recorded.
    pub fn list_vanished(&mut self, world: &World, desired: &Vec<u64>) -> (r: Vec<u64>)
        requires
            old(self).wf(),
            old(self)@.list is Some,
        ensures
            final(self).wf(),
            r@ == vanished((old(self)@.list->0).1.spawned, desired@),
            final(self)@ == (FrameView {
                written: old(self)@.written.union(families(*world, r@)),
                ..old(self)@
            }),
    {
        let ghost before = self@;
        let ghost spawned = (before.list->0).1.spawned;
        let mut job = match self.list.take() {
            Some(job) => job,
            None => return Vec::new(),
        };
        let mut r: Vec<u64> = Vec::new();
        let mut i: usize = 0;
        proof {
            assert(spawned.take(0) =~= Seq::<(u64, u64)>::empty());
            assert(before.written.union(Set::<u64>::empty()) =~= before.written);
        }
        while i < job.list.spawned.len()
            invariant
                i <= spawned.len(),
                job.list.spawned@ == spawned,
                forall|j: int|
                    0 <= j < spawned.len() ==> crate::ecs::entity_bits((#[trigger] spawned[j]).1),
                r@ == vanished(spawned.take(i as int), desired@),
                self@ == (FrameView {
                    list: None,
                    written: before.written.union(families(*world, r@)),
                    ..before
                }),
            decreases spawned.len() - i,
        {
            let key: u64 = job.list.spawned[i].0;
            let child: u64 = job.list.spawned[i].1;
            proof {
                assert(spawned[i as int] == (key, child));
                assert(spawned.take(i + 1).drop_last() =~= spawned.take(i as int));
                assert(desired@.take(desired@.len() as int) =~= desired@);
            }
            if !contains_key(desired, desired.len(), key) {
                let ghost r_before = r@;
                let ghost now = self@;
                set_insert(&mut self.written, child);
                collect_descendants(world, child, &mut self.written);
                r.push(child);
                proof {
                    assert(r@.drop_last() =~= r_before);
                    assert(before.written.union(families(*world, r@)) =~= before.written.union(
                        families(*world, r_before),
                    ).insert(child).union(crate::hierarchy::descendants(*world, child)));
                    assert(self@ =~= (FrameView {
                        list: None,
                        written: before.written.union(families(*world, r@)),
                        ..before
                    }));
                }
            }
            i += 1;
        }
        proof {
            assert(spawned.take(i as int) =~= spawned);
        }
        self.list = Some(job);
        proof {
            assert(self@ =~= (FrameView {
                written: before.written.union(families(*world, r@)),
                ..before
            }));
        }
        r
    }

    /// The place of the `i`th wanted key in the current list, when its turn comes:
    /// the vanished children are gone, and all places before it are filled. There is
    /// none for a later duplicate.
    pub fn list_slot(&self, world: &World, desired: &Vec<u64>, i: usize) -> (r: Option<Slot>)
        requires
            self.wf(),
            self@.list is Some,
            i < desired@.len(),
        ensures
            r == slot_at(desired@, (self@.list->0).1.spawned, *world, i as int),
    {
        let key: u64 = desired[i];
        if contains_key(desired, i, key) {
            return None;
        }
        let child = match &self.list {
            None => None,
            Some(job) => match find_child(&job.list.spawned, key) {
                Some(e) => if is_live(world, e) {
                    Some(e)
                } else {
                    None
                },
                None => None,
            },
        };
        Some(Slot { key, at: i, child })
    }

    /// The current list stands: these are its children, one for each place. No key
    /// has two places.
    pub fn list_placed(&mut self, places: &Vec<Slot>, children: &Vec<u64>, tick: u32)
        requires
            old(self).wf(),
            old(self)@.list is Some,
            children@.len() == places@.len(),
            forall|i: int, j: int|
                0 <= i < j < places@.len() ==> (#[trigger] places@[i]).key != (
                #[trigger] places@[j]).key,
            forall|i: int|
                0 <= i < children@.len() ==> crate::ecs::entity_bits(#[trigger] children@[i]),
        ensures
            final(self).wf(),
            final(self)@ == old(self)@.with_list(
                ListView {
                    spawned: Seq::new(places@.len(), |i: int| (places@[i].key, children@[i])),
                    last_run: tick,
                    ..(old(self)@.list->0).1
                },
            ),
    {
        let ghost before = self@;
        let ghost want = Seq::new(places@.len(), |i: int| (places@[i].key, children@[i]));
        let mut next: Vec<(u64, u64)> = Vec::new();
        let mut i: usize = 0;
        while i < places.len()
            invariant
                i <= places@.len(),
                children@.len() == places@.len(),
                next@ =~= Seq::new(i as nat, |j: int| (places@[j].key, children@[j])),
            decreases places@.len() - i,
        {
            next.push((places[i].key, children[i]));
            i += 1;
        }
        if let Some(mut job) = self.list.take() {
            job.list.spawned = next;
            job.list.last_run = tick;
            proof {
                assert(job.list@ =~= (ListView {
                    spawned: want,
                    last_run: tick,
                    ..(before.list->0).1
                }));
                assert forall|j: int| 0 <= j < want.len() implies crate::ecs::entity_bits(
                    (#[trigger] want[j]).1,
                ) by {
                    assert(crate::ecs::entity_bits(children@[j]));
                }
                assert forall|a: int, b: int| 0 <= a < b < want.len() implies (
                #[trigger] want[a]).0 != (#[trigger] want[b]).0 by {
                    assert(places@[a].key != places@[b].key);
                }
            }
            self.list = Some(job);
            proof {
                assert(self@ =~= before.with_list(
                    ListView { spawned: want, last_run: tick, ..(before.list->0).1 },
                ));
            }
        }
    }

    /// Give the current list back, to be put on its entity again.
    pub fn take_list(&mut self) -> (r: Option<ListJob>)
        requires
            old(self).wf(),
        ensures
            final(self).wf(),
            match r {
                Some(job) => old(self)@.list == Some((job.entity, job.list@)) && job.list@.wf(),
                None => old(self)@.list is None,
            },
            final(self)@ == (FrameView { list: None, ..old(self)@ }),
    {
        let ghost before = self@;
        let r = self.list.take();
        proof {
            assert(self@ =~= (FrameView { list: None, ..before }));
        }
        r
    }

    /// End the pass. What it wrote is what the next one goes by.
    pub fn end_pass(&mut self) -> (r: Verdict)
        requires
            old(self).wf(),
        ensures
            final(self).wf(),
            (r, final(self)@) == old(self)@.ended(),
            ({
                let before = old(self)@;
                if !before.ran_any {
                    r == Verdict::Settled && final(self)@ == before
                } else if before.pass == MAX_PASSES - 1 {
                    r == Verdict::Exhausted && final(self)@ == before
                } else {
                    r == Verdict::Again && final(self)@ == (FrameView {
                        pass: before.pass + 1,
                        written_prev: before.written,
                        written: before.written_prev,
                        ..before
                    })
                }
            }),
    {
        let ghost before = self@;
        if !self.ran_any {
            return Verdict::Settled;
        }
        if self.pass == MAX_PASSES - 1 {
            return Verdict::Exhausted;
        }
        core::mem::swap(&mut self.written_prev, &mut self.written);
        self.pass = self.pass + 1;
        proof {
            assert(self@ =~= (FrameView {
                pass: before.pass + 1,
                written_prev: before.written,
                written: before.written_prev,
                ..before
            }));
        }
        Verdict::Again
    }

    /// The entities that the current pass has written so far.
    pub fn written(&self) -> (r: &EntityHashSet)
        ensures
            crate::ecs::members(*r) == self@.written,
    {
        &self.written
    }
}

/// Add the component types that these dependencies watch on chosen entities.
/// Only writes to such types can mislead the pass filter.
pub fn watched_types(deps: &Vec<Dep>, watched: &mut Vec<usize>)
    ensures
        forall|c: usize| #[trigger]
            final(watched)@.contains(c) <==> (old(watched)@.contains(c) || exists|i: int|
                0 <= i < deps@.len() && (#[trigger] deps@[i]).watches() == Some(c)),
        old(watched)@.no_duplicates() ==> final(watched)@.no_duplicates(),
{
    let ghost before = watched@;
    let mut i: usize = 0;
    while i < deps.len()
        invariant
            i <= deps@.len(),
            forall|c: usize| #[trigger]
                watched@.contains(c) <==> (before.contains(c) || exists|j: int|
                    0 <= j < i && (#[trigger] deps@[j]).watches() == Some(c)),
            before.no_duplicates() ==> watched@.no_duplicates(),
        decreases deps@.len() - i,
    {
        let ghost now = watched@;
        if let Some(c) = deps[i].watched_type() {
            if !contains_type(watched, c) {
                watched.push(c);
                proof {
                    assert forall|x: usize| #[trigger] watched@.contains(x) <==> (now.contains(x)
                        || x == c) by {
                        if now.contains(x) {
                            let j = choose|j: int| 0 <= j < now.len() && now[j] == x;
                            assert(watched@[j] == x);
                        }
                        if x == c {
                            assert(watched@[now.len() as int] == c);
                        }
                    }
                }
            }
            assert(deps@[i as int].watches() == Some(c));
        }
        i += 1;
    }
}

fn contains_type(types: &Vec<usize>, c: usize) -> (r: bool)
    ensures
        r == types@.contains(c),
{
    let mut i: usize = 0;
    while i < types.len()
        invariant
            i <= types@.len(),
            forall|j: int| 0 <= j < i ==> types@[j] != c,
        decreases types@.len() - i,
    {
        if types[i] == c {
            return true;
        }
        i += 1;
    }
    false
}

/// Frames between two in which writes are looked at.
pub const SAMPLE_EVERY: u32 = 16;

/// Count a frame; are its writes looked at? That is costly, and a reactor that
/// writes where it should not does so in every run, so that a sample finds it.
pub fn samples_writes(frame: &mut u32) -> (r: bool)
    ensures
        *final(frame) == if *old(frame) == u32::MAX {
            0
        } else {
            *old(frame) + 1
        },
        r == (*final(frame) % SAMPLE_EVERY == 0),
{
    *frame = frame.wrapping_add(1);
    *frame % SAMPLE_EVERY == 0
}

/// Did the pass that began at `pass_start` write a watched component of `e`,
/// which is neither among what it may write nor below it?
pub open spec fn escapes(
    world: World,
    pass_start: u32,
    now: u32,
    written: Set<u64>,
    watched: Seq<usize>,
    e: u64,
    c: usize,
) -> bool {
    &&& !crate::hierarchy::under_written(world, e, written)
    &&& watched.contains(c)
    &&& crate::dep::ticks_changed(
        crate::ecs::lookup(crate::ecs::component_ticks(world), (e, c)),
        pass_start,
        now,
    )
}

/// Which of the components of `e` did a pass write though it should not have?
/// Where there are any, a later pass may leave out a reactor that should wake.
pub fn verify_writes_confined(
    world: &World,
    pass_start: u32,
    now: u32,
    written: &EntityHashSet,
    watched: &Vec<usize>,
    e: u64,
    components: &Vec<usize>,
) -> (r: Vec<usize>)
    ensures
        r@ == components@.filter(
            |c: usize|
                escapes(
                    *world,
                    pass_start,
                    now,
                    crate::ecs::members(*written),
                    watched@,
                    e,
                    c,
                ),
        ),
{
    let ghost pred = |c: usize|
        escapes(*world, pass_start, now, crate::ecs::members(*written), watched@, e, c);
    let mut r: Vec<usize> = Vec::new();
    let confined = crate::hierarchy::in_written_subtree(world, e, written);
    let mut i: usize = 0;
    proof {
        reveal(Seq::filter);
        assert(components@.take(0) =~= Seq::<usize>::empty());
    }
    while i < components.len()
        invariant
            i <= components@.len(),
            confined == crate::hierarchy::under_written(
                *world,
                e,
                crate::ecs::members(*written),
            ),
            pred == (|c: usize|
                escapes(*world, pass_start, now, crate::ecs::members(*written), watched@, e, c)),
            r@ == components@.take(i as int).filter(pred),
        decreases components@.len() - i,
    {
        let c: usize = components[i];
        let wrote = match crate::ecs::ticks_of(world, e, c) {
            Some(t) => crate::tick::is_newer_than(t.1, pass_start, now),
            None => false,
        };
        proof {
            reveal(Seq::filter);
            assert(components@.take(i + 1).drop_last() =~= components@.take(i as int));
            assert(components@.take(i + 1).last() == c);
        }
        if !confined && wrote && contains_type(watched, c) {
            r.push(c);
        }
        i += 1;
    }
    proof {
        assert(components@.take(i as int) =~= components@);
    }
    r
}

/// The first pass of a frame checks every fragment and every list, whatever
/// the frame before missed: a missed wake is repaired a frame later.
pub proof fn the_first_pass_checks_everything(
    frame: FrameView,
    instance: InstanceView,
    list: ListView,
    e: u64,
)
    requires
        frame.pass == 0,
    ensures
        frame.due(instance, e),
        frame.list_due(list, e),
{
}

/// What has never run is checked in every pass, so that fragments spawned by a
/// run settle within the frame.
pub proof fn what_never_ran_is_checked(
    frame: FrameView,
    instance: InstanceView,
    list: ListView,
    e: u64,
)
    ensures
        instance.last_run == 0 ==> frame.due(instance, e),
        list.last_run == 0 ==> frame.list_due(list, e),
{
}

/// Leaving a reactor out of a pass is sound: where the pass before wrote only
/// the entities in `written`, every check of the reactor would find what it
/// would have found before that pass, and remember the same.
pub proof fn leaving_out_is_sound(check: Check, after: World, written: Set<u64>)
    requires
        skips(check.deps, check.last_run, written, check.this),
        forall|e: u64, c: usize|
            !written.contains(e) ==> crate::ecs::lookup(
                #[trigger] crate::ecs::component_ticks(after),
                (e, c),
            ) == crate::ecs::lookup(crate::ecs::component_ticks(check.world), (e, c)),
    ensures
        (Check { world: after, ..check }).any_dirty() == check.any_dirty(),
        (Check { world: after, ..check }).states_after() == check.states_after(),
{
    let later = Check { world: after, ..check };
    assert forall|i: int| 0 <= i < check.deps.len() implies #[trigger] later.outcome(i)
        == check.outcome(i) by {
        crate::dep::unaffected_dependencies_answer_alike(
            check.deps[i],
            check.world,
            after,
            written,
            scans_at(check.deps, check.scans, check.readings, check.this_run, i as nat),
            check.this,
            check.states[i],
            check.last_run,
            check.this_run,
            check.readings[i],
        );
    }
    if check.any_dirty() {
        let i = choose|i: int| 0 <= i < check.deps.len() && (#[trigger] check.outcome(i)).0;
        assert(later.outcome(i).0);
    }
    if later.any_dirty() {
        let i = choose|i: int| 0 <= i < check.deps.len() && (#[trigger] later.outcome(i)).0;
        assert(check.outcome(i).0);
    }
    assert(later.states_after() =~= check.states_after());
}

/// Every wanted key has a place and only wanted keys do; a place is where its
/// key first comes.
pub proof fn every_wanted_key_has_its_place(
    desired: Seq<u64>,
    spawned: Seq<(u64, u64)>,
    worlds: Seq<World>,
)
    requires
        desired.len() <= usize::MAX,
    ensures
        ({
            let places = slots(desired, spawned, worlds, desired.len());
            &&& forall|i: int|
                0 <= i < places.len() ==> {
                    let p = #[trigger] places[i];
                    &&& p.at < desired.len()
                    &&& desired[p.at as int] == p.key
                    &&& !desired.take(p.at as int).contains(p.key)
                    &&& p.child == staying(spawned, p.key, worlds[p.at as int])
                }
            &&& forall|k: u64| #[trigger]
                desired.contains(k) ==> exists|i: int|
                    0 <= i < places.len() && (#[trigger] places[i]).key == k
            &&& forall|i: int, j: int|
                0 <= i < j < places.len() ==> (#[trigger] places[i]).at < (#[trigger] places[j]).at
        }),
{
    places_of_the_first(desired, spawned, worlds, desired.len());
    assert(desired.take(desired.len() as int) =~= desired);
}

proof fn places_of_the_first(
    desired: Seq<u64>,
    spawned: Seq<(u64, u64)>,
    worlds: Seq<World>,
    n: nat,
)
    requires
        n <= desired.len() <= usize::MAX,
    ensures
        ({
            let places = slots(desired, spawned, worlds, n);
            &&& forall|i: int|
                0 <= i < places.len() ==> {
                    let p = #[trigger] places[i];
                    &&& p.at < n
                    &&& desired[p.at as int] == p.key
                    &&& !desired.take(p.at as int).contains(p.key)
                    &&& p.child == staying(spawned, p.key, worlds[p.at as int])
                }
            &&& forall|k: u64| #[trigger]
                desired.take(n as int).contains(k) ==> exists|i: int|
                    0 <= i < places.len() && (#[trigger] places[i]).key == k
            &&& forall|i: int, j: int|
                0 <= i < j < places.len() ==> (#[trigger] places[i]).at < (#[trigger] places[j]).at
        }),
    decreases n,
{
    if n > 0 {
        places_of_the_first(desired, spawned, worlds, (n - 1) as nat);
        let prior = desired.take(n - 1);
        let here = desired.take(n as int);
        let before = slots(desired, spawned, worlds, (n - 1) as nat);
        let places = slots(desired, spawned, worlds, n);
        assert forall|k: u64| #[trigger] here.contains(k) implies exists|i: int|
            0 <= i < places.len() && (#[trigger] places[i]).key == k by {
            if prior.contains(k) {
                let i = choose|i: int| 0 <= i < before.len() && (#[trigger] before[i]).key == k;
                assert(places[i].key == k);
            } else {
                let j = choose|j: int| 0 <= j < here.len() && here[j] == k;
                if j < prior.len() {
                    assert(prior[j] == k);
                }
                assert(places[before.len() as int].key == k);
            }
        }
    }
}

/// No key has two places, however often it is wanted.
pub proof fn no_key_has_two_places(
    desired: Seq<u64>,
    spawned: Seq<(u64, u64)>,
    worlds: Seq<World>,
    i: int,
    j: int,
)
    requires
        desired.len() <= usize::MAX,
        0 <= i < j < slots(desired, spawned, worlds, desired.len()).len(),
    ensures
        ({
            let places = slots(desired, spawned, worlds, desired.len());
            places[i].key != places[j].key
        }),
{
    every_wanted_key_has_its_place(desired, spawned, worlds);
    let places = slots(desired, spawned, worlds, desired.len());
    let a = places[i];
    let b = places[j];
    if a.key == b.key {
        assert(desired.take(b.at as int)[a.at as int] == b.key);
    }
}

/// The child of a key is the one spawned for it, where keys are distinct.
proof fn child_of_its_key(spawned: Seq<(u64, u64)>, i: int)
    requires
        0 <= i < spawned.len(),
        crate::reactor::one_child_a_key(spawned),
    ensures
        child_for(spawned, spawned[i].0) == Some(spawned[i].1),
    decreases spawned.len(),
{
    let prior = spawned.drop_last();
    if i < prior.len() {
        assert forall|a: int, b: int| 0 <= a < b < prior.len() implies (#[trigger] prior[a]).0 != (
        #[trigger] prior[b]).0 by {
            assert(spawned[a].0 != spawned[b].0);
        }
        child_of_its_key(prior, i);
    } else {
        no_child_without_entry(prior, spawned[i].0);
    }
}

proof fn no_child_without_entry(spawned: Seq<(u64, u64)>, key: u64)
    requires
        forall|a: int| 0 <= a < spawned.len() ==> (#[trigger] spawned[a]).0 != key,
    ensures
        child_for(spawned, key) is None,
    decreases spawned.len(),
{
    if spawned.len() > 0 {
        assert forall|a: int| 0 <= a < spawned.drop_last().len() implies (
        #[trigger] spawned.drop_last()[a]).0 != key by {
            assert(spawned[a].0 != key);
        }
        no_child_without_entry(spawned.drop_last(), key);
        assert(spawned[spawned.len() - 1].0 != key);
    }
}

/// Keys that stay keep their child: the entity spawned for a key that is still
/// wanted, and lives when its turn comes, stands in the place of that key.
pub proof fn survivors_keep_their_child(
    desired: Seq<u64>,
    spawned: Seq<(u64, u64)>,
    worlds: Seq<World>,
    s: int,
    i: int,
)
    requires
        desired.len() <= usize::MAX,
        crate::reactor::one_child_a_key(spawned),
        0 <= s < spawned.len(),
        0 <= i < slots(desired, spawned, worlds, desired.len()).len(),
        ({
            let place = slots(desired, spawned, worlds, desired.len())[i];
            &&& place.key == spawned[s].0
            &&& crate::ecs::live_entities(worlds[place.at as int]).contains(spawned[s].1)
        }),
    ensures
        slots(desired, spawned, worlds, desired.len())[i].child == Some(spawned[s].1),
{
    every_wanted_key_has_its_place(desired, spawned, worlds);
    child_of_its_key(spawned, s);
}

/// No dead child is given a place: one that dies before the turn of its key is
/// spawned anew.
pub proof fn no_dead_child_is_placed(
    desired: Seq<u64>,
    spawned: Seq<(u64, u64)>,
    worlds: Seq<World>,
    i: int,
)
    requires
        desired.len() <= usize::MAX,
        0 <= i < slots(desired, spawned, worlds, desired.len()).len(),
    ensures
        ({
            let place = slots(desired, spawned, worlds, desired.len())[i];
            place.child matches Some(e) ==> crate::ecs::live_entities(
                worlds[place.at as int],
            ).contains(e)
        }),
{
    every_wanted_key_has_its_place(desired, spawned, worlds);
}

/// The vanished children are exactly those whose key is no longer wanted.
pub proof fn vanished_are_the_unwanted(spawned: Seq<(u64, u64)>, desired: Seq<u64>, child: u64)
    ensures
        vanished(spawned, desired).contains(child) <==> exists|i: int|
            0 <= i < spawned.len() && (#[trigger] spawned[i]).1 == child && !desired.contains(
                spawned[i].0,
            ),
    decreases spawned.len(),
{
    if spawned.len() > 0 {
        let prior = spawned.drop_last();
        let rest = vanished(prior, desired);
        let all = vanished(spawned, desired);
        vanished_are_the_unwanted(prior, desired, child);
        if all.contains(child) {
            let k = choose|k: int| 0 <= k < all.len() && all[k] == child;
            if k < rest.len() {
                assert(rest[k] == child);
                let i = choose|i: int|
                    0 <= i < prior.len() && (#[trigger] prior[i]).1 == child && !desired.contains(
                        prior[i].0,
                    );
                assert(spawned[i].1 == child);
            } else {
                assert(spawned[spawned.len() - 1].1 == child);
            }
        }
        if exists|i: int|
            0 <= i < spawned.len() && (#[trigger] spawned[i]).1 == child && !desired.contains(
                spawned[i].0,
            ) {
            let i = choose|i: int|
                0 <= i < spawned.len() && (#[trigger] spawned[i]).1 == child && !desired.contains(
                    spawned[i].0,
                );
            if i < prior.len() {
                assert(prior[i].1 == child);
                let k = choose|k: int| 0 <= k < rest.len() && rest[k] == child;
                assert(all[k] == child);
            } else {
                assert(all[rest.len() as int] == child);
            }
        }
    } else {
        assert(!vanished(spawned, desired).contains(child));
    }
}

} // verus!
