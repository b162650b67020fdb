//! The reactive layer on a real world, without a window: reactors are held by
//! a component, and scenes are plain functions on the world.
use std::collections::HashMap;
use std::future::Future;
use std::pin::Pin;
use std::sync::atomic::{AtomicUsize, Ordering};
use std::sync::Arc;
use std::task::{Context, Poll, Waker};

use beaver_builds::async_value::{AsyncSlot, AsyncView};
use beaver_builds::dep::{nearest_ancestor_entity, Ask, Dep, Reading};
use beaver_builds::reactor::{Mode, Reactor, ReactorInstance, ReactorList, ReactorSpec};
use beaver_builds::runner::{
    samples_writes, verify_writes_confined, watched_types, Decision, Frame, ListJob, Step, Verdict,
};
use beaver_builds::scan::SharedScans;
use bevy::ecs::change_detection::{DetectChanges, DetectChangesMut, Ref};
use bevy::ecs::component::{
    Component, ComponentId, Mutable, RequiredComponentsRegistrator, StorageType,
};
use bevy::ecs::entity::Entity;
use bevy::ecs::hierarchy::{ChildOf, Children};
use bevy::ecs::query::With;
use bevy::ecs::resource::{IsResource, Resource};
use bevy::ecs::world::World;

#[derive(Clone, Default, PartialEq, Debug)]
struct Value(u32);

impl Component for Value {
    const STORAGE_TYPE: StorageType = StorageType::Table;
    type Mutability = Mutable;
}

#[derive(Clone, Default, PartialEq, Debug)]
struct Label(u32);

impl Component for Label {
    const STORAGE_TYPE: StorageType = StorageType::Table;
    type Mutability = Mutable;
}

#[derive(Default)]
struct Score(u32);

impl Component for Score {
    const STORAGE_TYPE: StorageType = StorageType::SparseSet;
    type Mutability = Mutable;
    fn register_required_components(
        id: ComponentId,
        required_components: &mut RequiredComponentsRegistrator,
    ) {
        required_components.register_required::<IsResource>(move || IsResource::new(id));
    }
}

impl Resource for Score {}

struct Flag;

impl Component for Flag {
    const STORAGE_TYPE: StorageType = StorageType::SparseSet;
    type Mutability = Mutable;
    fn register_required_components(
        id: ComponentId,
        required_components: &mut RequiredComponentsRegistrator,
    ) {
        required_components.register_required::<IsResource>(move || IsResource::new(id));
    }
}

impl Resource for Flag {}

/// Holds the reactor of an entity.
struct Held(Reactor);

impl Component for Held {
    const STORAGE_TYPE: StorageType = StorageType::Table;
    type Mutability = Mutable;
}

/// Holds the list of an entity.
struct HeldList(Option<ReactorList>);

impl Component for HeldList {
    const STORAGE_TYPE: StorageType = StorageType::Table;
    type Mutability = Mutable;
}

type Task = Pin<Box<dyn Future<Output = u32> + Send + Sync>>;

/// A computation on an entity, and its result.
struct Computed {
    slot: AsyncSlot<u32>,
    task: Option<Task>,
}

impl Component for Computed {
    const STORAGE_TYPE: StorageType = StorageType::Table;
    type Mutability = Mutable;
}

type Scene = Arc<dyn Fn(&mut World, Entity)>;
type Reader = Arc<dyn Fn(&mut World, &Ask) -> Reading>;
type Items = Arc<dyn Fn(&World) -> Vec<(u64, Scene)>>;

struct App {
    world: World,
    scans: SharedScans,
    scenes: HashMap<u64, Scene>,
    items: HashMap<u64, Items>,
    readers: HashMap<(u64, usize), Reader>,
    next: u64,
    exhausted: bool,
    /// Which dependency woke which entity.
    wakes: Vec<(Entity, usize)>,
}

fn app() -> App {
    let mut world = World::new();
    world.insert_resource(Score(0));
    App {
        world,
        scans: SharedScans::new(),
        scenes: HashMap::new(),
        items: HashMap::new(),
        readers: HashMap::new(),
        next: 1,
        exhausted: false,
        wakes: Vec::new(),
    }
}

impl App {
    fn id<C: Component>(&mut self) -> usize {
        self.world.register_component::<C>().index()
    }

    fn score(&mut self) -> usize {
        self.world.register_component::<Score>().index()
    }

    fn set_score(&mut self, n: u32) {
        self.world.resource_mut::<Score>().0 = n;
    }

    fn set_value(&mut self, e: Entity, n: u32) {
        self.world.entity_mut(e).get_mut::<Value>().unwrap().0 = n;
    }

    fn label(&self, e: Entity) -> Option<u32> {
        self.world.get::<Label>(e).map(|l| l.0)
    }

    fn children(&self, e: Entity) -> Vec<Entity> {
        self.world.get::<Children>(e).map(|c| c.to_vec()).unwrap_or_default()
    }

    fn spec(
        &mut self,
        mode: Mode,
        deps: Vec<Dep>,
        scene: impl Fn(&mut World, Entity) + 'static,
    ) -> ReactorSpec {
        let identity = self.next;
        self.next += 1;
        self.scenes.insert(identity, Arc::new(scene));
        match mode {
            Mode::Patch => ReactorSpec::patch(identity, deps),
            Mode::Rebuild => ReactorSpec::rebuild(identity, deps),
        }
    }

    fn patch(&mut self, deps: Vec<Dep>, scene: impl Fn(&mut World, Entity) + 'static) -> Reactor {
        Reactor::from_spec(self.spec(Mode::Patch, deps, scene))
    }

    fn read(
        &mut self,
        spec: &ReactorSpec,
        dep: usize,
        reader: impl Fn(&mut World, &Ask) -> Reading + 'static,
    ) {
        self.readers.insert((spec.identity, dep), Arc::new(reader));
    }

    fn list(
        &mut self,
        deps: Vec<Dep>,
        items: impl Fn(&World) -> Vec<(u64, Scene)> + 'static,
    ) -> ReactorList {
        let identity = self.next;
        self.next += 1;
        self.items.insert(identity, Arc::new(items));
        ReactorList::new(identity, deps)
    }

    fn answer(&mut self, identity: u64, asks: &[Ask]) -> Vec<Reading> {
        let mut readings = Vec::new();
        for (i, ask) in asks.iter().enumerate() {
            if matches!(ask, Ask::Nothing) {
                readings.push(Reading::Nothing);
            } else {
                let reader = self.readers[&(identity, i)].clone();
                readings.push(reader(&mut self.world, ask));
            }
        }
        readings
    }

    fn reattach(&mut self, e: Entity, mut instances: Vec<ReactorInstance>) {
        if let Some(mut held) = self.world.get_mut::<Held>(e) {
            let held = held.bypass_change_detection();
            let added = std::mem::take(&mut held.0.instances);
            let mut kept = Reactor { instances: std::mem::take(&mut instances) };
            kept.merge(added);
            held.0 = kept;
        }
    }

    fn drive_tasks(&mut self) {
        let mut query = self.world.query_filtered::<Entity, With<Computed>>();
        let entities: Vec<Entity> = query.iter(&self.world).collect();
        for e in entities {
            let mut computed = self.world.get_mut::<Computed>(e).unwrap();
            if !computed.slot.in_flight {
                continue;
            }
            let mut context = Context::from_waker(Waker::noop());
            let polled = computed.task.as_mut().unwrap().as_mut().poll(&mut context);
            let result = match polled {
                Poll::Ready(value) => Some(value),
                Poll::Pending => None,
            };
            if computed.slot.polled(result) {
                computed.task = None;
            }
        }
    }

    fn update(&mut self) {
        self.world.increment_change_tick();
        self.drive_tasks();
        self.world.increment_change_tick();
        self.run_reactors();
        self.world.increment_change_tick();
    }

    fn run_reactors(&mut self) {
        let mut frame = Frame::new();
        loop {
            let this_run = self.world.change_tick().get();
            frame.begin_pass(this_run);
            self.run_fragments(&mut frame);
            self.run_lists(&mut frame);
            match frame.end_pass() {
                Verdict::Settled => return,
                Verdict::Again => {}
                Verdict::Exhausted => {
                    self.exhausted = true;
                    return;
                }
            }
        }
    }

    fn run_fragments(&mut self, frame: &mut Frame) {
        let mut query = self.world.query_filtered::<Entity, With<Held>>();
        let entities: Vec<Entity> = query.iter(&self.world).collect();
        for e in entities {
            let mut held = self.world.get_mut::<Held>(e).unwrap();
            let instances = std::mem::take(&mut held.bypass_change_detection().0.instances);
            if let Some(back) = frame.offer(e.to_bits(), instances) {
                let mut held = self.world.get_mut::<Held>(e).unwrap();
                held.bypass_change_detection().0.instances = back;
            }
        }
        loop {
            match frame.advance(&self.world) {
                Step::Done => return,
                Step::Reattach(job) => self.reattach(Entity::from_bits(job.entity), job.instances),
                Step::Check => {
                    let (_, identity) = frame.current_fragment();
                    let asks = frame.asks(&self.world, &self.scans);
                    let readings = self.answer(identity, &asks);
                    let decision = frame.decide(&self.world, &mut self.scans, readings);
                    if let Decision::Run { entity, identity, mode, woke } = decision {
                        let e = Entity::from_bits(entity);
                        self.wakes.push((e, woke));
                        if mode == Mode::Rebuild {
                            self.world.entity_mut(e).despawn_related::<Children>();
                        }
                        let scene = self.scenes[&identity].clone();
                        scene(&mut self.world, e);
                        frame.rendered(self.world.change_tick().get());
                    }
                }
            }
        }
    }

    fn run_lists(&mut self, frame: &mut Frame) {
        let mut query = self.world.query_filtered::<Entity, With<HeldList>>();
        let entities: Vec<Entity> = query.iter(&self.world).collect();
        for e in entities {
            let mut held = self.world.get_mut::<HeldList>(e).unwrap();
            let Some(list) = held.bypass_change_detection().0.take() else { continue };
            if let Some(back) = frame.offer_list(e.to_bits(), list) {
                let mut held = self.world.get_mut::<HeldList>(e).unwrap();
                held.bypass_change_detection().0 = Some(back);
            }
        }
        while frame.advance_list(&self.world) {
            let (_, identity) = frame.current_list().unwrap();
            let asks = frame.list_asks(&self.world, &self.scans);
            let readings = self.answer(identity, &asks);
            let woke = frame.decide_list(&self.world, &mut self.scans, readings);
            if let Some((entity, identity, first)) = woke {
                let e = Entity::from_bits(entity);
                self.wakes.push((e, first));
                let items = self.items[&identity].clone()(&self.world);
                let desired: Vec<u64> = items.iter().map(|(k, _)| *k).collect();
                for child in frame.list_vanished(&self.world, &desired) {
                    if let Ok(child) = self.world.get_entity_mut(Entity::from_bits(child)) {
                        child.despawn();
                    }
                }
                let mut slots = Vec::new();
                let mut placed = Vec::new();
                for i in 0..desired.len() {
                    let Some(slot) = frame.list_slot(&self.world, &desired, i) else { continue };
                    slots.push(slot);
                    let child = match slot.child {
                        Some(child) => child,
                        None => {
                            let child = self.world.spawn(ChildOf(e)).id();
                            (items[slot.at].1)(&mut self.world, child);
                            child.to_bits()
                        }
                    };
                    placed.push(child);
                }
                let ordered: Vec<Entity> = placed.iter().map(|c| Entity::from_bits(*c)).collect();
                self.world.entity_mut(e).replace_children(&ordered);
                frame.list_placed(&slots, &placed, self.world.change_tick().get());
            }
            if let Some(ListJob { entity, list }) = frame.take_list() {
                if let Some(mut held) = self.world.get_mut::<HeldList>(Entity::from_bits(entity)) {
                    held.bypass_change_detection().0 = Some(list);
                }
            }
        }
    }
}

fn counter() -> (Arc<AtomicUsize>, impl Fn() -> usize) {
    let counter = Arc::new(AtomicUsize::new(0));
    let reader = {
        let counter = counter.clone();
        move || counter.load(Ordering::SeqCst)
    };
    (counter, reader)
}

fn show_score(world: &mut World, e: Entity) {
    let score = world.resource::<Score>().0;
    world.entity_mut(e).insert(Label(score));
}

#[test]
fn patch_reactor_runs_once_then_only_on_change() {
    let mut app = app();
    let (runs, run_count) = counter();
    let deps = vec![Dep::resource(app.score())];
    let reactor = app.patch(deps, move |world, e| {
        runs.fetch_add(1, Ordering::SeqCst);
        show_score(world, e);
    });
    let entity = app.world.spawn(Held(reactor)).id();

    app.update();
    assert_eq!(run_count(), 1, "first run happens without any change");
    assert_eq!(app.label(entity), Some(0));

    app.update();
    app.update();
    assert_eq!(run_count(), 1, "no spurious wakes while the dep is quiet");

    app.set_score(7);
    app.update();
    assert_eq!(run_count(), 2, "one wake per change");
    assert_eq!(app.label(entity), Some(7));
}

#[test]
fn patch_merges_in_place_preserving_unrelated_components() {
    let mut app = app();
    let deps = vec![Dep::resource(app.score())];
    let reactor = app.patch(deps, show_score);
    let entity = app.world.spawn((Held(reactor), Value(42))).id();
    app.update();
    app.set_score(1);
    app.update();
    assert_eq!(
        app.world.get::<Value>(entity),
        Some(&Value(42)),
        "re-applying the patch must not disturb unrelated components"
    );
    assert_eq!(app.label(entity), Some(1));
}

#[test]
fn this_dep_tracks_own_component_including_insert_remove() {
    let mut app = app();
    let (runs, run_count) = counter();
    let deps = vec![Dep::this(app.id::<Value>())];
    let reactor = app.patch(deps, move |world, e| {
        runs.fetch_add(1, Ordering::SeqCst);
        let v = world.get::<Value>(e).map(|v| v.0).unwrap_or(999);
        world.entity_mut(e).insert(Label(v));
    });
    let entity = app.world.spawn(Held(reactor)).id();
    app.update();
    assert_eq!(run_count(), 1);

    app.world.entity_mut(entity).insert(Value(3));
    app.update();
    assert_eq!(run_count(), 2, "insert wakes");
    assert_eq!(app.label(entity), Some(3));

    app.set_value(entity, 4);
    app.update();
    assert_eq!(run_count(), 3, "mutation wakes");

    app.world.entity_mut(entity).remove::<Value>();
    app.update();
    assert_eq!(run_count(), 4, "removal wakes");
    assert_eq!(app.label(entity), Some(999));
}

#[test]
fn presence_dep_ignores_mutations() {
    let mut app = app();
    let (runs, run_count) = counter();
    let deps = vec![Dep::presence_this(app.id::<Value>())];
    let reactor = app.patch(deps, move |world, e| {
        runs.fetch_add(1, Ordering::SeqCst);
        world.entity_mut(e).insert(Label(0));
    });
    let entity = app.world.spawn((Held(reactor), Value(0))).id();
    app.update();
    assert_eq!(run_count(), 1);

    app.set_value(entity, 5);
    app.update();
    assert_eq!(run_count(), 1, "mutations must not wake a presence dep");

    app.world.entity_mut(entity).remove::<Value>();
    app.update();
    assert_eq!(run_count(), 2, "removal wakes");

    app.world.entity_mut(entity).insert(Value(1));
    app.update();
    assert_eq!(run_count(), 3, "re-insert wakes");
}

fn value_ticks(world: &mut World, _: &Ask) -> Reading {
    let mut query = world.query::<Ref<Value>>();
    Reading::Changed(query.iter(world).map(|v| v.last_changed().get()).collect())
}

#[test]
fn components_dep_wakes_on_any_entity_and_population_changes() {
    let mut app = app();
    let (runs, run_count) = counter();
    let deps = vec![Dep::components(app.id::<Value>() as u64)];
    let spec = app.spec(Mode::Patch, deps, move |world, e| {
        runs.fetch_add(1, Ordering::SeqCst);
        world.entity_mut(e).insert(Label(0));
    });
    app.read(&spec, 0, value_ticks);
    app.world.spawn(Held(Reactor::from_spec(spec)));
    app.update();
    assert_eq!(run_count(), 1);

    let other = app.world.spawn(Value(1)).id();
    app.update();
    assert_eq!(run_count(), 2, "new entity with the component wakes");

    app.set_value(other, 2);
    app.update();
    assert_eq!(run_count(), 3, "mutation on any entity wakes");

    app.update();
    assert_eq!(run_count(), 3, "quiet world, quiet reactor");

    app.world.entity_mut(other).despawn();
    app.update();
    assert_eq!(run_count(), 4, "despawn wakes (population change)");
}

#[test]
fn rebuild_replaces_children() {
    let mut app = app();
    let deps = vec![Dep::resource(app.score())];
    let spec = app.spec(Mode::Rebuild, deps, |world, e| {
        let n = world.resource::<Score>().0;
        for i in 0..n {
            world.spawn((Value(i), ChildOf(e)));
        }
    });
    let entity = app.world.spawn(Held(Reactor::from_spec(spec))).id();
    app.set_score(3);
    app.update();
    let first = app.children(entity);
    assert_eq!(first.len(), 3);

    app.set_score(1);
    app.update();
    let second = app.children(entity);
    assert_eq!(second.len(), 1);
    for old in first {
        assert!(
            app.world.get_entity(old).is_err(),
            "rebuild must despawn the previous subtree"
        );
    }
}

fn value_item(key: u64, n: u32) -> (u64, Scene) {
    (key, Arc::new(move |world: &mut World, e: Entity| {
        world.entity_mut(e).insert(Value(n));
    }))
}

#[test]
fn list_reconciles_membership_and_leaves_survivors_untouched() {
    let mut app = app();
    let deps = vec![Dep::resource(app.score())];
    let list = app.list(deps, |world| {
        let score = world.resource::<Score>().0;
        let mut items = Vec::new();
        for key in 0..32u32 {
            if score & (1 << key) != 0 {
                items.push(value_item(key as u64, key));
            }
        }
        items
    });
    let entity = app.world.spawn(HeldList(Some(list))).id();
    app.set_score(0b01);
    app.update();
    let children = app.children(entity);
    assert_eq!(children.len(), 1);
    let survivor = children[0];

    app.set_score(0b11);
    app.update();
    let children = app.children(entity);
    assert_eq!(children.len(), 2);
    assert_eq!(
        children[0], survivor,
        "surviving key must keep its entity (membership-only reconciliation)"
    );

    app.set_score(0b10);
    app.update();
    let children = app.children(entity);
    assert_eq!(children.len(), 1);
    assert!(
        app.world.get_entity(survivor).is_err(),
        "vanished key must despawn its child"
    );
}

#[test]
fn reactor_chains_settle_within_one_frame() {
    let mut app = app();
    let deps = vec![Dep::resource(app.score())];
    let reactor = app.patch(deps, |world, e| {
        let score = world.resource::<Score>().0;
        world.entity_mut(e).insert(Value(score));
    });
    let a = app.world.spawn(Held(reactor)).id();
    let deps = vec![Dep::entity(a.to_bits(), app.id::<Value>())];
    let reactor = app.patch(deps, move |world, e| {
        let v = world.get::<Value>(a).map(|v| v.0).unwrap_or(0);
        world.entity_mut(e).insert(Label(v));
    });
    let b = app.world.spawn(Held(reactor)).id();
    app.update();
    app.set_score(9);
    app.update();
    assert_eq!(app.label(b), Some(9), "the chain A -> B must settle in a single frame");
}

#[test]
fn inline_reactive_composes_in_bsn_and_forks_per_spawn() {
    let mut app = app();
    let deps = vec![Dep::resource(app.score())];
    let spec = app.spec(Mode::Patch, deps, show_score);
    let fragment = |app: &mut App| {
        let root = app.world.spawn(Value(1)).id();
        app.world.spawn((Held(Reactor::from_spec(spec.clone())), ChildOf(root)));
        root
    };
    let one = fragment(&mut app);
    let two = fragment(&mut app);
    app.set_score(5);
    app.update();
    for root in [one, two] {
        let children = app.children(root);
        assert_eq!(children.len(), 1);
        assert_eq!(
            app.label(children[0]),
            Some(5),
            "each spawn forks its own reactor instance"
        );
    }
}

#[test]
fn shared_spec_forks_independent_instances() {
    let mut app = app();
    let deps = vec![Dep::this(app.id::<Value>())];
    let spec = app.spec(Mode::Patch, deps, |world, e| {
        let v = world.get::<Value>(e).map(|v| v.0).unwrap_or(0);
        world.entity_mut(e).insert(Label(v));
    });
    let a = app.world.spawn((Value(1), Held(Reactor::from_spec(spec.clone())))).id();
    let b = app.world.spawn((Value(2), Held(Reactor::from_spec(spec)))).id();
    app.update();
    assert_eq!(app.label(a), Some(1));
    assert_eq!(app.label(b), Some(2));

    app.set_value(a, 10);
    app.update();
    assert_eq!(app.label(a), Some(10));
    assert_eq!(app.label(b), Some(2));
}

#[test]
fn despawning_a_reactor_entity_is_clean_teardown() {
    let mut app = app();
    let deps = vec![Dep::resource(app.score())];
    let reactor = app.patch(deps, |world, e| {
        world.entity_mut(e).insert(Label(0));
    });
    let entity = app.world.spawn(Held(reactor)).id();
    app.update();
    app.world.entity_mut(entity).despawn();
    app.set_score(1);
    app.update();
    app.update();
}

#[test]
fn self_dirtying_reactor_terminates_each_frame() {
    let mut app = app();
    let deps = vec![Dep::this(app.id::<Value>())];
    let reactor = app.patch(deps, |world, e| {
        let v = world.get::<Value>(e).map(|v| v.0).unwrap_or(0);
        world.entity_mut(e).insert(Value(v + 1));
    });
    let entity = app.world.spawn((Value(0), Held(reactor))).id();
    app.update();
    app.update();
    assert!(app.world.get::<Value>(entity).unwrap().0 > 0);
}

fn async_host(
    app: &mut App,
    compute: impl Fn(&World) -> Task + 'static,
    show: impl Fn(AsyncView<u32>) -> u32 + 'static,
) -> (Entity, Entity) {
    let deps = vec![Dep::resource(app.score())];
    let launcher = app.patch(deps, move |world, e| {
        let task = compute(world);
        if world.get::<Computed>(e).is_none() {
            world.entity_mut(e).insert(Computed { slot: AsyncSlot::new(), task: None });
        }
        let mut computed = world.get_mut::<Computed>(e).unwrap();
        computed.slot.launch();
        computed.task = Some(task);
    });
    let root = app.world.spawn(Held(launcher)).id();
    let deps = vec![Dep::parent(app.id::<Computed>())];
    let renderer = app.patch(deps, move |world, e| {
        let parent = world.get::<ChildOf>(e).map(|c| c.parent());
        let pending = AsyncSlot::new();
        let slot = parent.and_then(|p| world.get::<Computed>(p)).map(|c| &c.slot);
        let shown = show(slot.unwrap_or(&pending).view());
        world.entity_mut(e).insert(Label(shown));
    });
    let child = app.world.spawn((Held(renderer), ChildOf(root))).id();
    (root, child)
}

fn update_until_label(app: &mut App, entity: Entity, expected: u32) {
    for _ in 0..200 {
        app.update();
        if app.label(entity) == Some(expected) {
            return;
        }
    }
    panic!("label never reached {expected}; last = {:?}", app.label(entity));
}

#[test]
fn async_resource_renders_pending_then_ready() {
    let mut app = app();
    app.set_score(1);
    let (_, child) = async_host(
        &mut app,
        |world| {
            let score = world.resource::<Score>().0;
            Box::pin(async move { score + 100 })
        },
        |view| match view.ready() {
            None => 0,
            Some(&n) => n,
        },
    );
    app.update();
    assert_eq!(app.label(child), Some(0));
    update_until_label(&mut app, child, 101);
}

#[test]
fn async_resource_keeps_stale_value_while_revalidating() {
    let mut app = app();
    app.set_score(1);
    let (_, child) = async_host(
        &mut app,
        |world| {
            let score = world.resource::<Score>().0;
            if score == 1 {
                Box::pin(async move { score })
            } else {
                Box::pin(std::future::pending())
            }
        },
        |view| view.ready().copied().unwrap_or(0) + if view.refreshing { 100 } else { 0 },
    );
    app.update();
    update_until_label(&mut app, child, 1);

    app.set_score(2);
    for _ in 0..10 {
        app.update();
    }
    assert_eq!(
        app.label(child),
        Some(101),
        "old Ready value must persist AND be reported as refreshing"
    );
}

#[test]
fn contract_violation_degrades_to_one_frame_delay() {
    let mut app = app();
    let other = app.world.spawn(Value(0)).id();
    let deps = vec![Dep::entity(other.to_bits(), app.id::<Value>())];
    let reactor = app.patch(deps, move |world, e| {
        let v = world.get::<Value>(other).map(|v| v.0).unwrap_or(0);
        world.entity_mut(e).insert(Label(v));
    });
    let watcher = app.world.spawn(Held(reactor)).id();
    let deps = vec![Dep::resource(app.score())];
    let violator = app.patch(deps, move |world, e| {
        let score = world.resource::<Score>().0;
        world.entity_mut(other).insert(Value(score));
        world.entity_mut(e).insert(Label(0));
    });
    app.world.spawn(Held(violator));

    app.update();
    assert_eq!(app.label(watcher), Some(0));

    app.set_score(9);
    app.update();
    app.update();
    assert_eq!(
        app.label(watcher),
        Some(9),
        "a missed wake must be repaired by the next frame's unconditional pass"
    );
}

fn show_parent_value(world: &mut World, child: Entity) {
    let v = world
        .get::<ChildOf>(child)
        .and_then(|c| world.get::<Value>(c.parent()))
        .map(|v| v.0)
        .unwrap_or(0);
    world.entity_mut(child).insert(Label(v));
}

#[test]
fn parent_dep_wakes_on_reparent() {
    let mut app = app();
    let parent_a = app.world.spawn(Value(1)).id();
    let parent_b = app.world.spawn(Value(2)).id();
    let deps = vec![Dep::parent(app.id::<Value>())];
    let reactor = app.patch(deps, show_parent_value);
    let child = app.world.spawn((ChildOf(parent_a), Held(reactor))).id();
    app.update();
    app.update();
    assert_eq!(app.label(child), Some(1));

    app.world.entity_mut(child).insert(ChildOf(parent_b));
    app.update();
    assert_eq!(
        app.label(child),
        Some(2),
        "re-parenting must wake a Dep::parent watcher"
    );
}

#[test]
fn resource_dep_wakes_on_insert_and_remove() {
    let mut app = app();
    let (runs, run_count) = counter();
    let flag = app.world.register_component::<Flag>().index();
    let reactor = app.patch(vec![Dep::resource(flag)], move |world, e| {
        runs.fetch_add(1, Ordering::SeqCst);
        world.entity_mut(e).insert(Label(0));
    });
    app.world.spawn(Held(reactor));
    app.update();
    assert_eq!(run_count(), 1, "first run with the resource absent");

    app.world.insert_resource(Flag);
    app.update();
    assert_eq!(run_count(), 2, "resource insertion wakes");

    app.update();
    assert_eq!(run_count(), 2);

    app.world.remove_resource::<Flag>();
    app.update();
    assert_eq!(run_count(), 3, "resource removal wakes");
}

#[test]
fn entity_dep_wakes_when_target_despawns() {
    let mut app = app();
    let (runs, run_count) = counter();
    let target = app.world.spawn(Value(1)).id();
    let deps = vec![Dep::entity(target.to_bits(), app.id::<Value>())];
    let reactor = app.patch(deps, move |world, e| {
        runs.fetch_add(1, Ordering::SeqCst);
        world.entity_mut(e).insert(Label(0));
    });
    app.world.spawn(Held(reactor));
    app.update();
    assert_eq!(run_count(), 1);

    app.world.entity_mut(target).despawn();
    app.update();
    assert_eq!(run_count(), 2, "watched entity despawn wakes");
    app.update();
    assert_eq!(run_count(), 2, "and only once");
}

#[test]
fn parent_dep_wakes_when_orphaned() {
    let mut app = app();
    let parent = app.world.spawn(Value(7)).id();
    let deps = vec![Dep::parent(app.id::<Value>())];
    let reactor = app.patch(deps, show_parent_value);
    let child = app.world.spawn((ChildOf(parent), Held(reactor))).id();
    app.update();
    assert_eq!(app.label(child), Some(7));

    app.world.entity_mut(child).remove::<ChildOf>();
    app.update();
    assert_eq!(app.label(child), Some(0), "losing the parent edge must wake the dep");
}

fn children_of(world: &mut World, ask: &Ask) -> Reading {
    let members = match ask {
        Ask::MembersOf(e) => world
            .get::<Children>(Entity::from_bits(*e))
            .map(|c| c.iter().map(|m| m.to_bits()).collect())
            .unwrap_or_default(),
        _ => Vec::new(),
    };
    Reading::Members(members)
}

#[test]
fn related_components_dep_tracks_members_and_membership() {
    let mut app = app();
    let (runs, run_count) = counter();
    let parent = app.world.spawn_empty().id();
    let member_a = app.world.spawn((Value(1), ChildOf(parent))).id();
    let deps = vec![Dep::related_components(
        parent.to_bits(),
        app.id::<Children>(),
        app.id::<Value>(),
    )];
    let spec = app.spec(Mode::Patch, deps, move |world, e| {
        runs.fetch_add(1, Ordering::SeqCst);
        world.entity_mut(e).insert(Label(0));
    });
    app.read(&spec, 0, children_of);
    app.world.spawn(Held(Reactor::from_spec(spec)));
    app.update();
    assert_eq!(run_count(), 1);

    app.set_value(member_a, 2);
    app.update();
    assert_eq!(run_count(), 2, "member mutation wakes");

    let member_b = app.world.spawn((Value(9), ChildOf(parent))).id();
    app.update();
    assert_eq!(run_count(), 3, "new member wakes");

    app.update();
    assert_eq!(run_count(), 3, "quiet graph, quiet reactor");

    app.world.entity_mut(member_b).remove::<Value>();
    app.update();
    assert_eq!(run_count(), 4, "member losing the component wakes");

    app.world.entity_mut(member_a).despawn();
    app.update();
    assert_eq!(run_count(), 5, "member despawn wakes");
}

#[test]
fn components_filtered_ignores_non_matching_entities() {
    let mut app = app();
    let (runs, run_count) = counter();
    let marked = app.world.spawn((Value(1), Label(0))).id();
    let unmarked = app.world.spawn(Value(1)).id();
    let deps = vec![Dep::components_filtered(app.id::<Value>() as u64, 1)];
    let spec = app.spec(Mode::Patch, deps, move |world, e| {
        runs.fetch_add(1, Ordering::SeqCst);
        world.entity_mut(e).insert(Value(0));
    });
    app.read(&spec, 0, |world, _| {
        let mut query = world.query_filtered::<Ref<Value>, With<Label>>();
        Reading::Changed(query.iter(world).map(|v| v.last_changed().get()).collect())
    });
    app.world.spawn(Held(Reactor::from_spec(spec)));
    app.update();
    assert_eq!(run_count(), 1);

    app.set_value(unmarked, 5);
    app.update();
    assert_eq!(run_count(), 1, "changes outside the filter must not wake");

    app.set_value(marked, 5);
    app.update();
    assert_eq!(run_count(), 2, "changes inside the filter wake");
}

fn rebuilding_root(app: &mut App) -> Entity {
    let deps = vec![Dep::resource(app.score())];
    let nested = app.spec(Mode::Patch, deps.clone(), show_score);
    let spec = app.spec(Mode::Rebuild, deps, move |world, e| {
        world.spawn((Held(Reactor::from_spec(nested.clone())), ChildOf(e)));
    });
    app.world.spawn(Held(Reactor::from_spec(spec))).id()
}

#[test]
fn rebuilt_children_with_nested_reactors_settle_same_frame() {
    let mut app = app();
    let root = rebuilding_root(&mut app);
    app.set_score(4);
    app.update();
    let children = app.children(root);
    assert_eq!(app.label(children[0]), Some(4));
}

#[test]
fn list_reorders_surviving_children() {
    let mut app = app();
    let deps = vec![Dep::resource(app.score())];
    let list = app.list(deps, |world| {
        let flipped = world.resource::<Score>().0 != 0;
        let keys: [u64; 2] = if flipped { [2, 1] } else { [1, 2] };
        keys.into_iter().map(|k| value_item(k, k as u32)).collect()
    });
    let entity = app.world.spawn(HeldList(Some(list))).id();
    app.update();
    let before = app.children(entity);
    assert_eq!(before.len(), 2);

    app.set_score(1);
    app.update();
    let after = app.children(entity);
    assert_eq!(
        after,
        vec![before[1], before[0]],
        "same entities, order must follow the key order"
    );
}

#[test]
fn list_duplicate_keys_are_ignored_with_one_child() {
    let mut app = app();
    let deps = vec![Dep::resource(app.score())];
    let list = app.list(deps, |_| vec![value_item(1, 1), value_item(1, 2)]);
    let entity = app.world.spawn(HeldList(Some(list))).id();
    app.update();
    app.set_score(1);
    app.update();
    let children = app.children(entity);
    assert_eq!(children.len(), 1, "duplicate keys collapse to one child");
    assert_eq!(app.world.get::<Value>(children[0]), Some(&Value(1)));
}

#[test]
fn async_recompute_replaces_ready_value() {
    let mut app = app();
    app.set_score(1);
    let (_, child) = async_host(
        &mut app,
        |world| {
            let score = world.resource::<Score>().0;
            Box::pin(async move { score })
        },
        |view| view.ready().copied().unwrap_or(0) + if view.refreshing { 100 } else { 0 },
    );
    app.update();
    update_until_label(&mut app, child, 1);

    app.set_score(3);
    update_until_label(&mut app, child, 3);
}

fn score_tens(world: &mut World, _: &Ask) -> Reading {
    Reading::Value(vec![(world.resource::<Score>().0 / 10) as u64])
}

fn score_parity(world: &mut World, _: &Ask) -> Reading {
    Reading::Value(vec![(world.resource::<Score>().0 % 2) as u64])
}

#[test]
fn resource_value_wakes_only_when_projection_changes() {
    let mut app = app();
    let (runs, run_count) = counter();
    let deps = vec![Dep::resource_value(app.score())];
    let spec = app.spec(Mode::Patch, deps, move |world, e| {
        runs.fetch_add(1, Ordering::SeqCst);
        world.entity_mut(e).insert(Label(0));
    });
    app.read(&spec, 0, score_tens);
    app.world.spawn(Held(Reactor::from_spec(spec)));
    app.update();
    assert_eq!(run_count(), 1);

    app.set_score(7);
    app.update();
    assert_eq!(run_count(), 1, "resource ticked but projection unchanged");

    app.set_score(15);
    app.update();
    assert_eq!(run_count(), 2, "projection change wakes");
}

#[test]
fn resource_value_projection_is_tick_gated() {
    let mut app = app();
    let (projections, projection_count) = counter();
    let deps = vec![Dep::resource_value(app.score())];
    let spec = app.spec(Mode::Patch, deps, |world, e| {
        world.entity_mut(e).insert(Label(0));
    });
    app.read(&spec, 0, move |world, ask| {
        projections.fetch_add(1, Ordering::SeqCst);
        score_tens(world, ask)
    });
    app.world.spawn(Held(Reactor::from_spec(spec)));
    app.update();
    let after_first = projection_count();
    assert!(after_first >= 1);

    app.update();
    app.update();
    assert_eq!(
        projection_count(),
        after_first,
        "quiet resources must cost one tick compare, not a projection"
    );

    app.set_score(3);
    app.update();
    assert_eq!(projection_count(), after_first + 1);
}

#[test]
fn this_value_projects_own_component() {
    let mut app = app();
    let (runs, run_count) = counter();
    let deps = vec![Dep::this_value(app.id::<Value>())];
    let spec = app.spec(Mode::Patch, deps, move |world, e| {
        runs.fetch_add(1, Ordering::SeqCst);
        let bucket = world.get::<Value>(e).map(|v| v.0 / 10).unwrap_or(0);
        world.entity_mut(e).insert(Label(bucket));
    });
    app.read(&spec, 0, |world, ask| match ask {
        Ask::ValueOn(e) => {
            let value = world.get::<Value>(Entity::from_bits(*e)).unwrap();
            Reading::Value(vec![(value.0 / 10) as u64])
        }
        _ => Reading::Nothing,
    });
    let entity = app.world.spawn((Value(0), Held(Reactor::from_spec(spec)))).id();
    app.update();
    assert_eq!(run_count(), 1);

    app.set_value(entity, 9);
    app.update();
    assert_eq!(run_count(), 1, "same bucket, no wake");

    app.set_value(entity, 25);
    app.update();
    assert_eq!(run_count(), 2);
    assert_eq!(app.label(entity), Some(2));
}

#[test]
fn and_composes_independent_fragments_on_one_entity() {
    let mut app = app();
    let (runs_a, count_a) = counter();
    let (runs_b, count_b) = counter();
    let deps = vec![Dep::resource_value(app.score())];
    let a = app.spec(Mode::Patch, deps.clone(), move |world, e| {
        runs_a.fetch_add(1, Ordering::SeqCst);
        let bucket = world.resource::<Score>().0 / 10;
        world.entity_mut(e).insert(Value(bucket));
    });
    app.read(&a, 0, score_tens);
    let b = app.spec(Mode::Patch, deps, move |world, e| {
        runs_b.fetch_add(1, Ordering::SeqCst);
        let parity = world.resource::<Score>().0 % 2;
        world.entity_mut(e).insert(Label(parity));
    });
    app.read(&b, 0, score_parity);
    let entity = app.world.spawn(Held(Reactor::from_spec(a).and(b))).id();
    app.update();
    assert_eq!((count_a(), count_b()), (1, 1));
    assert_eq!(app.world.get::<Value>(entity), Some(&Value(0)));
    assert_eq!(app.label(entity), Some(0));

    app.set_score(1);
    app.update();
    assert_eq!((count_a(), count_b()), (1, 2), "only the parity fragment wakes");
    assert_eq!(app.label(entity), Some(1));

    app.set_score(11);
    app.update();
    assert_eq!((count_a(), count_b()), (2, 2), "only the bucket fragment wakes");
    assert_eq!(app.world.get::<Value>(entity), Some(&Value(1)));
}

#[test]
fn sequential_scene_applications_merge_inline_fragments() {
    let mut app = app();
    let (runs_a, count_a) = counter();
    let (runs_b, count_b) = counter();
    let deps = vec![Dep::resource(app.score())];
    let fragment_a = {
        let deps = deps.clone();
        move |app: &mut App| {
            let runs_a = runs_a.clone();
            app.patch(deps.clone(), move |world, e| {
                runs_a.fetch_add(1, Ordering::SeqCst);
                let score = world.resource::<Score>().0;
                world.entity_mut(e).insert(Value(score));
            })
        }
    };
    let first = fragment_a(&mut app);
    let entity = app.world.spawn(Held(first)).id();
    let fragment_b = app.patch(deps, move |world, e| {
        runs_b.fetch_add(1, Ordering::SeqCst);
        world.entity_mut(e).insert(Label(7));
    });
    app.world.get_mut::<Held>(entity).unwrap().0.merge(fragment_b.instances);
    app.update();
    assert_eq!(app.world.get::<Value>(entity), Some(&Value(0)), "fragment A survives");
    assert_eq!(app.label(entity), Some(7), "fragment B merged in");
    assert_eq!((count_a(), count_b()), (1, 1));

    let again = fragment_a(&mut app);
    app.world.get_mut::<Held>(entity).unwrap().0.merge(again.instances);
    app.set_score(5);
    app.update();
    assert_eq!(app.world.get::<Value>(entity), Some(&Value(5)));
    assert_eq!(count_b(), 2, "B: one instance, one wake per change");
    assert_eq!(
        count_a(),
        1 + 2,
        "A: reconstructed scene appended a second instance (both wake once)"
    );
}

#[test]
fn rebuild_despawning_reactive_children_same_pass_is_safe() {
    let mut app = app();
    let root = rebuilding_root(&mut app);
    app.update();
    app.set_score(5);
    app.update();
    let children = app.children(root);
    assert_eq!(app.label(children[0]), Some(5));
}

/// A clone of a spec is the same fragment: merging it again adds nothing.
#[test]
fn merging_the_same_spec_twice_keeps_one_instance() {
    let mut app = app();
    let deps = vec![Dep::resource(app.score())];
    let spec = app.spec(Mode::Patch, deps, show_score);
    let mut reactor = Reactor::from_spec(spec.clone());
    reactor.merge(Reactor::from_spec(spec.clone()).instances);
    reactor.merge(Reactor::from_spec(spec).instances);
    assert_eq!(reactor.instances.len(), 1);
}

/// The nearest provider counts, and a nearer one takes over.
#[test]
fn ancestor_deps_follow_the_nearest_provider() {
    let mut app = app();
    let value = app.id::<Value>();
    let top = app.world.spawn(Value(1)).id();
    let middle = app.world.spawn(ChildOf(top)).id();
    let (runs, run_count) = counter();
    let reactor = app.patch(vec![Dep::ancestor(value)], move |world, e| {
        runs.fetch_add(1, Ordering::SeqCst);
        let provider = nearest_ancestor_entity(world, e.to_bits(), value);
        let shown = match provider {
            Some(p) => world.get::<Value>(Entity::from_bits(p)).unwrap().0,
            None => 999,
        };
        world.entity_mut(e).insert(Label(shown));
    });
    let leaf = app.world.spawn((ChildOf(middle), Held(reactor))).id();
    app.update();
    assert_eq!(app.label(leaf), Some(1));
    app.update();
    assert_eq!(run_count(), 1, "a quiet provider wakes nobody");

    app.set_value(top, 2);
    app.update();
    assert_eq!(app.label(leaf), Some(2));

    app.world.entity_mut(middle).insert(Value(3));
    app.update();
    assert_eq!(app.label(leaf), Some(3));

    app.world.entity_mut(middle).remove::<Value>();
    app.world.entity_mut(top).remove::<Value>();
    app.update();
    assert_eq!(app.label(leaf), Some(999));
    // An entity does not provide for itself.
    app.world.entity_mut(leaf).insert(Value(8));
    assert_eq!(nearest_ancestor_entity(&app.world, leaf.to_bits(), value), None);
}

/// Messages wake once for what was written, and not for what was read.
#[test]
fn message_deps_wake_once_per_batch() {
    let mut app = app();
    let unread = Arc::new(AtomicUsize::new(0));
    let (runs, run_count) = counter();
    let spec = app.spec(Mode::Patch, vec![Dep::message((77, 0))], move |world, e| {
        runs.fetch_add(1, Ordering::SeqCst);
        world.entity_mut(e).insert(Label(0));
    });
    {
        let unread = unread.clone();
        app.read(&spec, 0, move |_, _| Reading::Unread(unread.swap(0, Ordering::SeqCst)));
    }
    app.world.spawn(Held(Reactor::from_spec(spec)));
    app.update();
    assert_eq!(run_count(), 1);
    app.update();
    assert_eq!(run_count(), 1);
    unread.store(3, Ordering::SeqCst);
    app.update();
    assert_eq!(run_count(), 2);
    app.update();
    assert_eq!(run_count(), 2);
}

/// Events about one asset wake its watchers and no others.
#[test]
fn asset_deps_wake_for_their_asset_only() {
    let mut app = app();
    let events: Arc<std::sync::Mutex<Vec<(u64, u64)>>> = Arc::default();
    let (runs, run_count) = counter();
    let deps = vec![Dep::asset((5, 0), (1, 2))];
    let spec = app.spec(Mode::Patch, deps, move |world, e| {
        runs.fetch_add(1, Ordering::SeqCst);
        world.entity_mut(e).insert(Label(0));
    });
    {
        let events = events.clone();
        app.read(&spec, 0, move |_, _| {
            Reading::Events(std::mem::take(&mut *events.lock().unwrap()))
        });
    }
    app.world.spawn(Held(Reactor::from_spec(spec)));
    app.update();
    assert_eq!(run_count(), 1);
    events.lock().unwrap().push((9, 9));
    app.update();
    assert_eq!(run_count(), 1);
    events.lock().unwrap().push((1, 2));
    app.update();
    assert_eq!(run_count(), 2);
}

/// Resources are watched for their presence alone.
#[test]
fn resource_presence_ignores_mutation() {
    let mut app = app();
    let (runs, run_count) = counter();
    let deps = vec![Dep::resource_presence(app.score())];
    let reactor = app.patch(deps, move |world, e| {
        runs.fetch_add(1, Ordering::SeqCst);
        world.entity_mut(e).insert(Label(0));
    });
    app.world.spawn(Held(reactor));
    app.update();
    app.set_score(5);
    app.update();
    assert_eq!(run_count(), 1);
    app.world.remove_resource::<Score>();
    app.update();
    assert_eq!(run_count(), 2);
}

/// A reactor that another wakes at every pass stops at the cap.
#[test]
fn reactors_that_wake_each_other_stop_at_the_cap() {
    let mut app = app();
    let value = app.id::<Value>();
    let a = app.world.spawn(Value(0)).id();
    let b = app.world.spawn(Value(0)).id();
    for (me, other) in [(a, b), (b, a)] {
        let reactor = app.patch(vec![Dep::entity(other.to_bits(), value)], move |world, e| {
            // Each run is at a tick of its own, so that the other sees it.
            world.increment_change_tick();
            let v = world.get::<Value>(e).map(|v| v.0).unwrap_or(0);
            world.entity_mut(e).insert(Value(v + 1));
        });
        app.world.entity_mut(me).insert(Held(reactor));
    }
    app.update();
    assert!(app.exhausted);
    assert!(app.world.get::<Value>(a).unwrap().0 <= 6);
}

/// Writes outside of the written subtree are found, writes inside are not.
#[test]
fn stray_writes_are_found() {
    let mut app = app();
    let value = app.id::<Value>();
    let root = app.world.spawn(Value(0)).id();
    let child = app.world.spawn((Value(0), ChildOf(root))).id();
    let stray = app.world.spawn((Value(0), Label(0))).id();
    app.world.increment_change_tick();
    let start = app.world.change_tick().get();
    app.world.increment_change_tick();
    app.set_value(child, 1);
    app.set_value(stray, 1);
    let now = app.world.change_tick().get();

    let mut frame = Frame::new();
    frame.begin_pass(now);
    let deps = vec![Dep::this(value)];
    let reactor = app.patch(deps.clone(), |_, _| {});
    assert!(frame.offer(root.to_bits(), reactor.instances).is_none());
    assert!(matches!(frame.advance(&app.world), Step::Check));
    let decision = frame.decide(&app.world, &mut app.scans, vec![Reading::Nothing]);
    assert!(matches!(decision, Decision::Run { .. }));

    let mut watched = Vec::new();
    watched_types(&deps, &mut watched);
    assert_eq!(watched, vec![value]);
    let label = app.id::<Label>();
    let components = vec![label, value];
    let found = |e: Entity| {
        verify_writes_confined(
            &app.world,
            start,
            now,
            frame.written(),
            &watched,
            e.to_bits(),
            &components,
        )
    };
    assert_eq!(found(child), Vec::<usize>::new());
    assert_eq!(found(stray), vec![value]);
}

#[test]
fn one_frame_in_sixteen_is_looked_at() {
    let mut frame = 0;
    let looked: Vec<bool> = (0..33).map(|_| samples_writes(&mut frame)).collect();
    let hits: Vec<usize> = (0..33).filter(|i| looked[*i]).collect();
    assert_eq!(hits, vec![15, 31]);
    assert_eq!(frame, 33);
    frame = u32::MAX;
    assert!(samples_writes(&mut frame));
    assert_eq!(frame, 0);
}

fn tens(world: &mut World, ask: &Ask) -> Reading {
    match ask {
        Ask::ValueOn(e) => {
            let value = world.get::<Value>(Entity::from_bits(*e)).unwrap();
            Reading::Value(vec![(value.0 / 10) as u64])
        }
        _ => Reading::Nothing,
    }
}

/// How often a reactor with this dependency runs: at first, after a change
/// within the projected value of `source`, and after one of it.
fn runs_of(mut app: App, dep: Dep, source: Entity, holder: Entity) -> Vec<usize> {
    let (runs, run_count) = counter();
    let spec = app.spec(Mode::Patch, vec![dep], move |world, e| {
        runs.fetch_add(1, Ordering::SeqCst);
        world.entity_mut(e).insert(Label(0));
    });
    app.read(&spec, 0, tens);
    app.world.entity_mut(holder).insert(Held(Reactor::from_spec(spec)));
    let mut seen = Vec::new();
    for value in [11, 19, 20] {
        app.set_value(source, value);
        app.update();
        seen.push(run_count());
    }
    seen
}

#[test]
fn values_are_projected_wherever_they_stand() {
    let mut app = app();
    let value = app.id::<Value>();
    let top = app.world.spawn(Value(10)).id();
    let middle = app.world.spawn(ChildOf(top)).id();
    let leaf = app.world.spawn(ChildOf(middle)).id();
    assert_eq!(runs_of(app, Dep::ancestor_value(value), top, leaf), vec![1, 1, 2]);
}

#[test]
fn values_of_the_parent_are_projected() {
    let mut app = app();
    let value = app.id::<Value>();
    let top = app.world.spawn(Value(10)).id();
    let leaf = app.world.spawn(ChildOf(top)).id();
    assert_eq!(runs_of(app, Dep::parent_value(value), top, leaf), vec![1, 1, 2]);
}

#[test]
fn values_of_a_chosen_entity_are_projected() {
    let mut app = app();
    let value = app.id::<Value>();
    let chosen = app.world.spawn(Value(10)).id();
    let other = app.world.spawn_empty().id();
    let dep = Dep::entity_value(chosen.to_bits(), value);
    assert_eq!(runs_of(app, dep, chosen, other), vec![1, 1, 2]);
}

#[test]
fn an_entity_watches_its_own_members() {
    let mut app = app();
    let (children, value) = (app.id::<Children>(), app.id::<Value>());
    let (runs, run_count) = counter();
    let (deep_runs, deep_count) = counter();
    let member = app.world.spawn(Value(1)).id();
    let shallow = app.patch(vec![Dep::related_this(children)], move |_, _| {
        runs.fetch_add(1, Ordering::SeqCst);
    });
    let root = app.world.spawn(Held(shallow)).id();
    app.world.entity_mut(member).insert(ChildOf(root));
    let deps = vec![Dep::related_components_this(children, value)];
    let deep = app.spec(Mode::Patch, deps, move |_, _| {
        deep_runs.fetch_add(1, Ordering::SeqCst);
    });
    app.read(&deep, 0, children_of);
    let instances = Reactor::from_spec(deep).instances;
    app.world.get_mut::<Held>(root).unwrap().0.merge(instances);
    app.update();
    assert_eq!((run_count(), deep_count()), (1, 1));
    app.set_value(member, 2);
    app.update();
    assert_eq!((run_count(), deep_count()), (1, 2));
    app.world.spawn((Value(3), ChildOf(root)));
    app.update();
    assert_eq!((run_count(), deep_count()), (2, 3));
}

#[test]
fn a_relation_set_that_vanishes_wakes() {
    let mut app = app();
    let (runs, run_count) = counter();
    let parent = app.world.spawn_empty().id();
    let member = app.world.spawn(ChildOf(parent)).id();
    let (children, value) = (app.id::<Children>(), app.id::<Value>());
    let deps = vec![Dep::related_components(parent.to_bits(), children, value)];
    let spec = app.spec(Mode::Patch, deps, move |_, _| {
        runs.fetch_add(1, Ordering::SeqCst);
    });
    app.read(&spec, 0, children_of);
    app.world.spawn(Held(Reactor::from_spec(spec)));
    app.update();
    app.update();
    assert_eq!(run_count(), 1);

    // The only member, which does not carry the component, leaves.
    app.world.entity_mut(member).remove::<ChildOf>();
    assert!(app.world.get::<Children>(parent).is_none());
    app.update();
    assert_eq!(run_count(), 2, "the relation set itself changed");
    app.update();
    assert_eq!(run_count(), 2, "and only once");

    app.world.entity_mut(member).insert(ChildOf(parent));
    app.update();
    assert_eq!(run_count(), 3);
}

#[test]
fn wakes_tell_their_dependency() {
    let mut app = app();
    let deps = vec![Dep::this(app.id::<Value>()), Dep::resource(app.score())];
    let reactor = app.patch(deps.clone(), |_, _| {});
    let entity = app.world.spawn((Value(0), Held(reactor))).id();
    let list = app.list(deps, |_| Vec::new());
    let host = app.world.spawn((Value(0), HeldList(Some(list)))).id();
    app.update();
    assert_eq!(app.wakes, vec![(entity, 0), (host, 0)]);
    app.wakes.clear();
    app.set_score(1);
    app.update();
    assert_eq!(app.wakes, vec![(entity, 1), (host, 1)]);
    app.wakes.clear();
    app.set_score(2);
    app.set_value(host, 1);
    app.update();
    assert_eq!(app.wakes, vec![(entity, 1), (host, 0)]);
}

#[test]
fn dependencies_are_told_in_words() {
    assert_eq!(Dep::resource(1).describe("Season", ""), "resource Season");
    assert_eq!(
        Dep::resource_value(1).describe("Season", ""),
        "projected value of resource Season"
    );
    assert_eq!(Dep::resource_presence(1).describe("Season", ""), "presence of resource Season");
    assert_eq!(Dep::this(1).describe("Value", ""), "component Value");
    assert_eq!(Dep::this_value(1).describe("Value", ""), "projected value of component Value");
    assert_eq!(Dep::presence_this(1).describe("Value", ""), "presence of Value");
    assert_eq!(Dep::components(1).describe("Value", ""), "components Value");
    assert_eq!(Dep::message((1, 0)).describe("Hit", ""), "messages of Hit");
    assert_eq!(Dep::asset((1, 0), (2, 0)).describe("Mesh", "2v0"), "asset Mesh (2v0)");
    assert_eq!(
        Dep::related_components_this(1, 2).describe("Value", "Children"),
        "Value on entities related via Children"
    );
    assert_eq!(Dep::ancestor(1).describe("Value", ""), "nearest ancestor with Value");
    assert_eq!(
        Dep::ancestor_value(1).describe("Value", ""),
        "projected value of nearest ancestor with Value"
    );
}

#[test]
fn a_child_that_dies_meanwhile_is_spawned_anew() {
    let mut app = app();
    let deps = vec![Dep::resource(app.score())];
    let list = app.list(deps, |world| {
        if world.resource::<Score>().0 == 0 {
            return vec![value_item(1, 1)];
        }
        let killer: Scene = Arc::new(|world: &mut World, e: Entity| {
            let parent = world.get::<ChildOf>(e).unwrap().parent();
            for child in world.get::<Children>(parent).unwrap().to_vec() {
                if child != e {
                    world.despawn(child);
                }
            }
            world.entity_mut(e).insert(Value(2));
        });
        vec![(2, killer), value_item(1, 1)]
    });
    let host = app.world.spawn(HeldList(Some(list))).id();
    app.update();
    let first = app.children(host)[0];
    app.set_score(1);
    app.update();
    let children = app.children(host);
    assert_eq!(children.len(), 2);
    assert!(children[1] != first && app.world.get_entity(first).is_err());
    assert_eq!(app.world.get::<Value>(children[0]), Some(&Value(2)));
    assert_eq!(app.world.get::<Value>(children[1]), Some(&Value(1)));
}
