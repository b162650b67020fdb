//! Reactors: what runs when its dependencies change. A reactor is a component;
//! one entity may carry several fragments, each with its own dependencies and
//! memory. Scene functions are named by number: two specs with one number are
//! clones of one spec.
use vstd::prelude::*;

use crate::dep::{Dep, DepState, StateView};

verus! {

/// Does a run merge its scene into the entity, or replace the children?
#[derive(Clone, Copy, PartialEq, Eq, Structural, Debug)]
pub enum Mode {
    Patch,
    Rebuild,
}

/// The part of a reactor that its instances share.
#[derive(Clone)]
pub struct ReactorSpec {
    pub identity: u64,
    pub deps: Vec<Dep>,
    pub mode: Mode,
}

impl ReactorSpec {
    /// A fragment that is merged into its entity in place.
    pub fn patch(identity: u64, deps: Vec<Dep>) -> (r: ReactorSpec)
        ensures
            r == (ReactorSpec { identity, deps, mode: Mode::Patch }),
    {
        ReactorSpec { identity, deps, mode: Mode::Patch }
    }

    /// A fragment whose run replaces the entity's children.
    pub fn rebuild(identity: u64, deps: Vec<Dep>) -> (r: ReactorSpec)
        ensures
            r == (ReactorSpec { identity, deps, mode: Mode::Rebuild }),
    {
        ReactorSpec { identity, deps, mode: Mode::Rebuild }
    }
}

/// One fragment on one entity: its spec, when it last ran, and what it
/// remembers of each dependency.
pub struct ReactorInstance {
    pub spec: ReactorSpec,
    pub last_run: u32,
    pub state: Vec<DepState>,
}

#[verifier::ext_equal]
pub ghost struct InstanceView {
    pub identity: u64,
    pub deps: Seq<Dep>,
    pub mode: Mode,
    pub last_run: u32,
    pub state: Seq<StateView>,
}

pub open spec fn states(s: Seq<DepState>) -> Seq<StateView> {
    s.map_values(|d: DepState| d@)
}

impl View for ReactorInstance {
    type V = InstanceView;

    open spec fn view(&self) -> InstanceView {
        InstanceView {
            identity: self.spec.identity,
            deps: self.spec.deps@,
            mode: self.spec.mode,
            last_run: self.last_run,
            state: states(self.state@),
        }
    }
}

impl InstanceView {
    /// There is a memory for each dependency.
    pub open spec fn wf(self) -> bool {
        self.state.len() == self.deps.len()
    }

    /// An instance that has never run.
    pub open spec fn fresh(identity: u64, deps: Seq<Dep>, mode: Mode) -> InstanceView {
        InstanceView { identity, deps, mode, last_run: 0, state: fresh_states(deps.len()) }
    }
}

pub open spec fn fresh_states(n: nat) -> Seq<StateView> {
    Seq::new(n, |i: int| StateView::fresh())
}

/// One fresh memory for each of `n` dependencies.
fn new_states(n: usize) -> (r: Vec<DepState>)
    ensures
        states(r@) == fresh_states(n as nat),
{
    let mut r: Vec<DepState> = Vec::new();
    let mut i: usize = 0;
    while i < n
        invariant
            i <= n,
            states(r@) =~= fresh_states(i as nat),
        decreases n - i,
    {
        let ghost prior = states(r@);
        r.push(DepState::new());
        proof {
            assert(states(r@) =~= prior.push(StateView::fresh()));
        }
        i += 1;
    }
    r
}

impl ReactorInstance {
    pub fn new(spec: ReactorSpec) -> (r: ReactorInstance)
        ensures
            r@ == InstanceView::fresh(spec.identity, spec.deps@, spec.mode),
            r@.wf(),
    {
        let state = new_states(spec.deps.len());
        ReactorInstance { spec, last_run: 0, state }
    }
}

pub open spec fn instance_views(s: Seq<ReactorInstance>) -> Seq<InstanceView> {
    s.map_values(|i: ReactorInstance| i@)
}

/// The fragments of one entity.
pub struct Reactor {
    pub instances: Vec<ReactorInstance>,
}

impl View for Reactor {
    type V = Seq<InstanceView>;

    open spec fn view(&self) -> Seq<InstanceView> {
        instance_views(self.instances@)
    }
}

/// Is one of these an instance of the spec with this number?
pub open spec fn has_identity(instances: Seq<InstanceView>, identity: u64) -> bool {
    exists|i: int| 0 <= i < instances.len() && (#[trigger] instances[i]).identity == identity
}

/// `instances` with those of `added` behind them whose spec is not there yet,
/// the earlier ones of `added` included.
pub open spec fn merged(
    instances: Seq<InstanceView>,
    added: Seq<InstanceView>,
) -> Seq<InstanceView>
    decreases added.len(),
{
    if added.len() == 0 {
        instances
    } else {
        let prior = merged(instances, added.drop_last());
        if has_identity(prior, added.last().identity) {
            prior
        } else {
            prior.push(added.last())
        }
    }
}

impl Reactor {
    pub open spec fn wf(&self) -> bool {
        forall|i: int| 0 <= i < self@.len() ==> (#[trigger] self@[i]).wf()
    }

    /// One fresh instance of a spec, which may be shared.
    pub fn from_spec(spec: ReactorSpec) -> (r: Reactor)
        ensures
            r@ == seq![InstanceView::fresh(spec.identity, spec.deps@, spec.mode)],
            r.wf(),
    {
        let mut instances: Vec<ReactorInstance> = Vec::new();
        instances.push(ReactorInstance::new(spec));
        let r = Reactor { instances };
        proof {
            assert(r@ =~= seq![InstanceView::fresh(spec.identity, spec.deps@, spec.mode)]);
        }
        r
    }

    pub fn patch(identity: u64, deps: Vec<Dep>) -> (r: Reactor)
        ensures
            r@ == seq![InstanceView::fresh(identity, deps@, Mode::Patch)],
            r.wf(),
    {
        Reactor::from_spec(ReactorSpec::patch(identity, deps))
    }

    pub fn rebuild(identity: u64, deps: Vec<Dep>) -> (r: Reactor)
        ensures
            r@ == seq![InstanceView::fresh(identity, deps@, Mode::Rebuild)],
            r.wf(),
    {
        Reactor::from_spec(ReactorSpec::rebuild(identity, deps))
    }

    /// The same fragments, and one more: each wakes by its own dependencies.
    pub fn and(self, spec: ReactorSpec) -> (r: Reactor)
        ensures
            r@ == merged(
                self@,
                seq![InstanceView::fresh(spec.identity, spec.deps@, spec.mode)],
            ),
            self.wf() ==> r.wf(),
    {
        let mut r = self;
        let other = Reactor::from_spec(spec);
        proof {
            assert(instance_views(other.instances@) =~= other@);
        }
        r.merge(other.instances);
        r
    }

    /// Take in fragments that a scene brought along. One whose spec is here
    /// already changes nothing; the others go behind.
    pub fn merge(&mut self, added: Vec<ReactorInstance>)
        ensures
            final(self)@ == merged(old(self)@, instance_views(added@)),
            old(self).wf() && (forall|i: int|
                0 <= i < added@.len() ==> (#[trigger] added@[i])@.wf()) ==> final(self).wf(),
    {
        merge_instances(&mut self.instances, added);
    }
}

fn holds_identity(instances: &Vec<ReactorInstance>, identity: u64) -> (r: bool)
    ensures
        r == has_identity(instance_views(instances@), identity),
{
    let mut i: usize = 0;
    while i < instances.len()
        invariant
            i <= instances@.len(),
            forall|j: int|
                0 <= j < i ==> (#[trigger] instance_views(instances@)[j]).identity != identity,
        decreases instances@.len() - i,
    {
        if instances[i].spec.identity == identity {
            proof {
                assert(instance_views(instances@)[i as int].identity == identity);
            }
            return true;
        }
        i += 1;
    }
    false
}

pub(crate) fn merge_instances(instances: &mut Vec<ReactorInstance>, added: Vec<ReactorInstance>)
    ensures
        instance_views(final(instances)@) == merged(
            instance_views(old(instances)@),
            instance_views(added@),
        ),
        (forall|i: int|
            0 <= i < old(instances)@.len() ==> (#[trigger] instance_views(
                old(instances)@,
            )[i]).wf()) && (forall|i: int|
            0 <= i < added@.len() ==> (#[trigger] added@[i])@.wf()) ==> (forall|i: int|
            0 <= i < final(instances)@.len() ==> (#[trigger] instance_views(
                final(instances)@,
            )[i]).wf()),
{
    let ghost all = instance_views(added@);
    let ghost before = instance_views(instances@);
    let ghost good = (forall|i: int|
        0 <= i < before.len() ==> (#[trigger] before[i]).wf()) && (forall|i: int|
        0 <= i < added@.len() ==> (#[trigger] added@[i])@.wf());
    let ghost mut done: int = 0;
    let mut rest = added;
    proof {
        assert(all.take(0) =~= Seq::<InstanceView>::empty());
    }
    while rest.len() > 0
        invariant
            0 <= done <= all.len(),
            rest@.len() == all.len() - done,
            forall|j: int| 0 <= j < rest@.len() ==> (#[trigger] rest@[j])@ == all[done + j],
            instance_views(instances@) == merged(before, all.take(done)),
            good ==> forall|i: int|
                0 <= i < instances@.len() ==> (#[trigger] instance_views(instances@)[i]).wf(),
            good ==> forall|i: int| 0 <= i < all.len() ==> (#[trigger] all[i]).wf(),
        decreases rest@.len(),
    {
        let ghost prior = instance_views(instances@);
        let next = rest.remove(0);
        proof {
            assert(next@ == all[done]);
            assert(all.take(done + 1).drop_last() =~= all.take(done));
            assert(all.take(done + 1).last() == all[done]);
        }
        if !holds_identity(instances, next.spec.identity) {
            instances.push(next);
            proof {
                assert(instance_views(instances@) =~= prior.push(next@));
            }
        }
        proof {
            done = done + 1;
        }
    }
    proof {
        assert(all.take(done) =~= all);
    }
}

/// The spec of a keyed list: what it watches, and the number of the function
/// that gives its items.
#[derive(Clone)]
pub struct ReactorListSpec {
    pub identity: u64,
    pub deps: Vec<Dep>,
}

/// A reactive, keyed list of child scenes. It keeps membership and order only:
/// children whose key is gone leave, new keys come, and the children of keys
/// that stay are left alone. It owns all children of its entity.
pub struct ReactorList {
    pub spec: ReactorListSpec,
    pub last_run: u32,
    pub state: Vec<DepState>,
    pub spawned: Vec<(u64, u64)>,
}

#[verifier::ext_equal]
pub ghost struct ListView {
    pub identity: u64,
    pub deps: Seq<Dep>,
    pub last_run: u32,
    pub state: Seq<StateView>,
    pub spawned: Seq<(u64, u64)>,
}

impl View for ReactorList {
    type V = ListView;

    open spec fn view(&self) -> ListView {
        ListView {
            identity: self.spec.identity,
            deps: self.spec.deps@,
            last_run: self.last_run,
            state: states(self.state@),
            spawned: self.spawned@,
        }
    }
}

/// No key has two children.
pub open spec fn one_child_a_key(spawned: Seq<(u64, u64)>) -> bool {
    forall|a: int, b: int|
        0 <= a < b < spawned.len() ==> (#[trigger] spawned[a]).0 != (#[trigger] spawned[b]).0
}

impl ListView {
    /// There is a memory for each dependency, every child is an entity, and no key
    /// has two of them.
    pub open spec fn wf(self) -> bool {
        &&& self.state.len() == self.deps.len()
        &&& one_child_a_key(self.spawned)
        &&& forall|i: int|
            0 <= i < self.spawned.len() ==> crate::ecs::entity_bits((#[trigger] self.spawned[i]).1)
    }
}

impl ReactorList {
    pub fn from_spec(spec: ReactorListSpec) -> (r: ReactorList)
        ensures
            r@ == (ListView {
                identity: spec.identity,
                deps: spec.deps@,
                last_run: 0,
                state: fresh_states(spec.deps@.len()),
                spawned: Seq::empty(),
            }),
            r@.wf(),
    {
        let state = new_states(spec.deps.len());
        ReactorList { spec, last_run: 0, state, spawned: Vec::new() }
    }

    pub fn new(identity: u64, deps: Vec<Dep>) -> (r: ReactorList)
        ensures
            r@ == (ListView {
                identity,
                deps: deps@,
                last_run: 0,
                state: fresh_states(deps@.len()),
                spawned: Seq::empty(),
            }),
            r@.wf(),
    {
        ReactorList::from_spec(ReactorListSpec { identity, deps })
    }
}

/// Merging loses nothing and reorders nothing: what was there stands in front.
pub proof fn merging_keeps_what_was_there(
    instances: Seq<InstanceView>,
    added: Seq<InstanceView>,
)
    ensures
        merged(instances, added).len() >= instances.len(),
        merged(instances, added).take(instances.len() as int) == instances,
    decreases added.len(),
{
    if added.len() > 0 {
        merging_keeps_what_was_there(instances, added.drop_last());
        let prior = merged(instances, added.drop_last());
        assert(merged(instances, added).take(instances.len() as int) =~= prior.take(
            instances.len() as int,
        ));
    } else {
        assert(instances.take(instances.len() as int) =~= instances);
    }
}

/// After merging, every added spec has an instance.
pub proof fn merging_takes_everything_in(
    instances: Seq<InstanceView>,
    added: Seq<InstanceView>,
    i: int,
)
    requires
        0 <= i < added.len(),
    ensures
        has_identity(merged(instances, added), added[i].identity),
    decreases added.len(),
{
    let prior = merged(instances, added.drop_last());
    let all = merged(instances, added);
    if i == added.len() - 1 {
        if !has_identity(prior, added.last().identity) {
            assert(all[prior.len() as int].identity == added[i].identity);
        }
    } else {
        merging_takes_everything_in(instances, added.drop_last(), i);
        let j = choose|j: int|
            0 <= j < prior.len() && (#[trigger] prior[j]).identity == added[i].identity;
        assert(all[j].identity == added[i].identity);
    }
}

/// Merging the same fragments again changes nothing.
pub proof fn merging_is_idempotent(instances: Seq<InstanceView>, added: Seq<InstanceView>)
    ensures
        merged(merged(instances, added), added) == merged(instances, added),
{
    let all = merged(instances, added);
    assert forall|i: int| 0 <= i < added.len() implies has_identity(
        all,
        #[trigger] added[i].identity,
    ) by {
        merging_takes_everything_in(instances, added, i);
    }
    nothing_new_to_merge(all, added);
}

proof fn nothing_new_to_merge(all: Seq<InstanceView>, added: Seq<InstanceView>)
    requires
        forall|i: int| 0 <= i < added.len() ==> has_identity(all, #[trigger] added[i].identity),
    ensures
        merged(all, added) == all,
    decreases added.len(),
{
    if added.len() > 0 {
        assert forall|i: int| 0 <= i < added.drop_last().len() implies has_identity(
            all,
            #[trigger] added.drop_last()[i].identity,
        ) by {
            assert(added.drop_last()[i] == added[i]);
        }
        nothing_new_to_merge(all, added.drop_last());
        assert(has_identity(all, added[added.len() - 1].identity));
    }
}

} // verus!
