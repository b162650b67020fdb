//! What the reactive layer reads of Bevy's world, and the set of entities
//! that it keeps: thin calls into `bevy_ecs`, with entities as their bits and
//! component types as their ids.
use bevy::ecs::component::ComponentId;
use bevy::ecs::entity::{Entity, EntityHashSet};
use bevy::ecs::hierarchy::{ChildOf, Children};
use bevy::ecs::world::World;
use vstd::prelude::*;

use crate::tick::Ticks;

verus! {

/// Bevy's `World`, the collection of all entities and their components.
#[verifier::external_type_specification]
#[verifier::external_body]
pub struct ExWorld(World);

/// Bevy's `EntityHashSet`.
#[verifier::external_type_specification]
#[verifier::external_body]
pub struct ExEntityHashSet(EntityHashSet);

/// The numbers that are the bits of some entity: the lower half, which holds
/// the index, is never zero.
pub open spec fn entity_bits(e: u64) -> bool {
    e % 0x1_0000_0000 != 0
}

/// The entities that are alive in a world.
pub uninterp spec fn live_entities(world: World) -> Set<u64>;

/// The parent of each entity that carries a `ChildOf`.
pub uninterp spec fn parent_edges(world: World) -> Map<u64, u64>;

/// The ticks of each `ChildOf` component.
pub uninterp spec fn parent_edge_ticks(world: World) -> Map<u64, (u32, u32)>;

/// The children of each entity that carries a `Children`, in order.
pub uninterp spec fn child_lists(world: World) -> Map<u64, Seq<u64>>;

/// The added and changed ticks of each component, by entity and component id.
pub uninterp spec fn component_ticks(world: World) -> Map<(u64, usize), (u32, u32)>;

/// The added and changed ticks of each resource, by component id.
pub uninterp spec fn resource_ticks(world: World) -> Map<usize, (u32, u32)>;

/// The entities in a set.
pub uninterp spec fn members(set: EntityHashSet) -> Set<u64>;

/// What a map holds under a key, if anything.
pub open spec fn lookup<K, V>(m: Map<K, V>, k: K) -> Option<V> {
    if m.dom().contains(k) {
        Some(m[k])
    } else {
        None
    }
}

/// The children of an entity; none where it has no `Children`.
pub open spec fn children_of(world: World, e: u64) -> Seq<u64> {
    if child_lists(world).dom().contains(e) {
        child_lists(world)[e]
    } else {
        Seq::empty()
    }
}

/// `World::get_entity`, asked whether it finds the entity. Claims that the
/// answer is membership in the world's live entities; bits of no entity are
/// not among them.
#[verifier::external_body]
pub(crate) fn is_live(world: &World, e: u64) -> (r: bool)
    ensures
        r == live_entities(*world).contains(e),
{
    Entity::try_from_bits(e).is_some_and(|e| world.get_entity(e).is_ok())
}

/// `World::get::<ChildOf>`. Claims that it gives the entity's parent edge,
/// and that a parent is an entity.
#[verifier::external_body]
pub(crate) fn parent(world: &World, e: u64) -> (r: Option<u64>)
    ensures
        r == lookup(parent_edges(*world), e),
        r matches Some(p) ==> entity_bits(p),
{
    let e = Entity::try_from_bits(e)?;
    world.get::<ChildOf>(e).map(|c| c.parent().to_bits())
}

/// `EntityRef::get_change_ticks::<ChildOf>`. Claims that it gives the ticks of
/// the entity's parent edge.
#[verifier::external_body]
pub(crate) fn edge_ticks(world: &World, e: u64) -> (r: Option<Ticks>)
    ensures
        r == lookup(parent_edge_ticks(*world), e),
{
    let e = world.get_entity(Entity::try_from_bits(e)?).ok()?;
    e.get_change_ticks::<ChildOf>().map(|t| (t.added.get(), t.changed.get()))
}

/// `World::get::<Children>`. Claims that it gives the entity's children in
/// order, and that each of them is an entity.
#[verifier::external_body]
pub(crate) fn children(world: &World, e: u64) -> (r: Vec<u64>)
    ensures
        child_lists(*world).dom().contains(e) ==> r@ == child_lists(*world)[e],
        !child_lists(*world).dom().contains(e) ==> r@ == Seq::<u64>::empty(),
        forall|i: int| 0 <= i < r@.len() ==> entity_bits(#[trigger] r@[i]),
{
    let children = Entity::try_from_bits(e).and_then(|e| world.get::<Children>(e));
    children.map(|c| c.iter().map(|e| e.to_bits()).collect()).unwrap_or_default()
}

/// `EntityRef::get_change_ticks_by_id`. Claims that it gives the ticks of the
/// component with that id on that entity, and nothing where either is missing.
#[verifier::external_body]
pub(crate) fn ticks_of(world: &World, e: u64, component: usize) -> (r: Option<Ticks>)
    ensures
        r == lookup(component_ticks(*world), (e, component)),
{
    let e = world.get_entity(Entity::try_from_bits(e)?).ok()?;
    let ticks = e.get_change_ticks_by_id(ComponentId::new(component))?;
    Some((ticks.added.get(), ticks.changed.get()))
}

/// `World::get_resource_change_ticks_by_id`. Claims that it gives the ticks of
/// the resource with that id, and nothing where the world has none.
#[verifier::external_body]
pub(crate) fn resource_ticks_of(world: &World, resource: usize) -> (r: Option<Ticks>)
    ensures
        r == lookup(resource_ticks(*world), resource),
{
    let ticks = world.get_resource_change_ticks_by_id(ComponentId::new(resource))?;
    Some((ticks.added.get(), ticks.changed.get()))
}

/// `EntityHashSet::new`. Claims that the set is empty.
#[verifier::external_body]
pub(crate) fn empty_set() -> (r: EntityHashSet)
    ensures
        members(r) == Set::<u64>::empty(),
{
    EntityHashSet::new()
}

/// `HashSet::insert` on an `EntityHashSet`. Claims that the entity joins the
/// set and that nothing else changes. `Entity::from_bits` panics on bits of no
/// entity, which are left out.
#[verifier::external_body]
pub(crate) fn set_insert(set: &mut EntityHashSet, e: u64)
    requires
        entity_bits(e),
    ensures
        members(*final(set)) == members(*old(set)).insert(e),
{
    set.insert(Entity::from_bits(e));
}

/// `HashSet::contains` on an `EntityHashSet`. Claims that the answer is
/// membership; bits of no entity are in no set.
#[verifier::external_body]
pub(crate) fn set_contains(set: &EntityHashSet, e: u64) -> (r: bool)
    ensures
        r == members(*set).contains(e),
{
    Entity::try_from_bits(e).is_some_and(|e| set.contains(&e))
}

} // verus!
