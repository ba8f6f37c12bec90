use canopy::ecs::archetype::ArchetypeSignature;
use canopy::ecs::command::EntityCommandBuffer;
use canopy::ecs::component::{ComponentId, ComponentRegistry};
use canopy::ecs::entity::EntityAllocator;
use canopy::ecs::query::WorldAccess;
use canopy::ecs::storage::ComponentStorage;
use canopy::ecs::system::{SystemScheduler, SystemStage};
use canopy::ecs::world::World;
use canopy::app_core::stage::AppStage;
use std::hash::{Hash, Hasher};

/// A stable per-type key, as the engine's global registry derives one.
fn type_key<T: 'static>() -> u64 {
    let mut h = std::collections::hash_map::DefaultHasher::new();
    std::any::TypeId::of::<T>().hash(&mut h);
    h.finish()
}

struct Pos;
struct Vel;

#[derive(Debug, PartialEq)]
struct Hp(u32);

#[derive(Debug, PartialEq, Clone)]
enum Comp {
    Health(f32),
    Speed(f32),
}

struct Ids {
    health: ComponentId,
    speed: ComponentId,
}

fn ids(registry: &mut ComponentRegistry) -> Ids {
    Ids {
        health: ComponentId::of(registry, type_key::<Hp>()),
        speed: ComponentId::of(registry, type_key::<Vel>()),
    }
}

// ---------------------------------------------------------------------------
// Entity allocation
// ---------------------------------------------------------------------------

#[test]
fn allocate_and_free() {
    let mut alloc = EntityAllocator::new();
    let e1 = alloc.allocate();
    let e2 = alloc.allocate();
    assert!(alloc.is_alive(e1));
    assert!(alloc.is_alive(e2));
    assert!(alloc.free(e1));
    assert!(!alloc.is_alive(e1));
    // Double-free must return false
    assert!(!alloc.free(e1));
    assert_eq!(alloc.len(), 1);
}

#[test]
fn generation_invalidates_old_handle() {
    let mut alloc = EntityAllocator::new();
    let e_old = alloc.allocate();
    alloc.free(e_old);
    let _e_new = alloc.allocate(); // may reuse the slot with new generation
    // The old handle must be dead even if the slot index was reused
    assert!(!alloc.is_alive(e_old));
}

#[test]
fn reused_slot_gets_a_new_handle() {
    let mut alloc = EntityAllocator::new();
    let e_old = alloc.allocate();
    assert!(alloc.free(e_old));
    let e_new = alloc.allocate();
    assert_ne!(e_old, e_new);
    assert!(alloc.is_alive(e_new));
    assert_eq!(alloc.len(), 1);
    assert!(!alloc.is_empty());
}

#[test]
fn handles_pack_generation_and_index() {
    let mut alloc = EntityAllocator::new();
    let e = alloc.allocate();
    let bits = e.to_bits();
    // The generation half of a live handle is odd.
    assert_eq!((bits >> 32) % 2, 1);
}

#[test]
fn new_allocator_is_empty() {
    let alloc = EntityAllocator::new();
    assert_eq!(alloc.len(), 0);
    assert!(alloc.is_empty());
}

// ---------------------------------------------------------------------------
// Component ids
// ---------------------------------------------------------------------------

#[test]
fn ids_are_stable() {
    let mut registry = ComponentRegistry::new();
    let id1 = ComponentId::of(&mut registry, type_key::<Pos>());
    let id2 = ComponentId::of(&mut registry, type_key::<Pos>());
    assert_eq!(id1, id2);
}

#[test]
fn different_types_get_different_ids() {
    let mut registry = ComponentRegistry::new();
    let pos_id = ComponentId::of(&mut registry, type_key::<Pos>());
    let vel_id = ComponentId::of(&mut registry, type_key::<Vel>());
    assert_ne!(pos_id, vel_id);
}

#[test]
fn ids_are_dense_from_zero() {
    let mut registry = ComponentRegistry::new();
    assert_eq!(registry.id_for(7), ComponentId(0));
    assert_eq!(registry.id_for(9), ComponentId(1));
    assert_eq!(registry.id_for(7), ComponentId(0));
    assert_eq!(ComponentId(5).as_index(), 5);
}

// ---------------------------------------------------------------------------
// Sparse-set storage
// ---------------------------------------------------------------------------

#[test]
fn insert_get_remove() {
    let mut alloc = EntityAllocator::new();
    let e1 = alloc.allocate();
    let e2 = alloc.allocate();
    let mut storage = ComponentStorage::<Hp>::new();

    storage.insert(e1, Hp(100));
    storage.insert(e2, Hp(50));

    assert_eq!(storage.get(e1), Some(&Hp(100)));
    assert_eq!(storage.get(e2), Some(&Hp(50)));
    assert_eq!(storage.len(), 2);

    storage.remove(e1);
    assert_eq!(storage.get(e1), None);
    assert_eq!(storage.len(), 1);
    // e2 should still be accessible after swap-remove
    assert_eq!(storage.get(e2), Some(&Hp(50)));
}

#[test]
fn overwrite() {
    let mut alloc = EntityAllocator::new();
    let e = alloc.allocate();
    let mut storage = ComponentStorage::<Hp>::new();
    storage.insert(e, Hp(10));
    storage.insert(e, Hp(999));
    assert_eq!(storage.get(e), Some(&Hp(999)));
    assert_eq!(storage.len(), 1);
}

#[test]
fn swap_remove_moves_last_into_the_hole() {
    let mut alloc = EntityAllocator::new();
    let e1 = alloc.allocate();
    let e2 = alloc.allocate();
    let e3 = alloc.allocate();
    let mut storage = ComponentStorage::<Hp>::new();
    storage.insert(e1, Hp(1));
    storage.insert(e2, Hp(2));
    storage.insert(e3, Hp(3));
    assert_eq!(storage.remove(e1), Some(Hp(1)));
    assert_eq!(storage.entities(), &[e3, e2]);
    assert_eq!(storage.values(), &[Hp(3), Hp(2)]);
    assert_eq!(storage.remove(e1), None);
    assert!(storage.contains(e2));
    assert!(!storage.contains(e1));
}

#[test]
fn get_mut_writes_through() {
    let mut alloc = EntityAllocator::new();
    let e = alloc.allocate();
    let mut storage = ComponentStorage::<Hp>::new();
    assert!(storage.is_empty());
    storage.insert(e, Hp(4));
    if let Some(hp) = storage.get_mut(e) {
        hp.0 = 40;
    }
    assert_eq!(storage.get(e), Some(&Hp(40)));
}

// ---------------------------------------------------------------------------
// World
// ---------------------------------------------------------------------------

#[test]
fn spawn_and_insert() {
    let mut registry = ComponentRegistry::new();
    let ids = ids(&mut registry);
    let mut world = World::<Comp>::new();
    let e = world.spawn();
    world.insert(e, ids.health, Comp::Health(100.0));
    world.insert(e, ids.speed, Comp::Speed(5.0));
    assert_eq!(world.get(e, ids.health), Some(&Comp::Health(100.0)));
    assert_eq!(world.get(e, ids.speed), Some(&Comp::Speed(5.0)));
    assert_eq!(world.entity_count(), 1);
}

#[test]
fn despawn_clears_components() {
    let mut registry = ComponentRegistry::new();
    let ids = ids(&mut registry);
    let mut world = World::<Comp>::new();
    let e = world.spawn();
    world.insert(e, ids.health, Comp::Health(50.0));
    assert!(world.despawn(e));
    assert!(!world.is_alive(e));
    assert_eq!(world.entity_count(), 0);
}

#[test]
fn query_filtered_finds_matching() {
    let mut registry = ComponentRegistry::new();
    let ids = ids(&mut registry);
    let mut world = World::<Comp>::new();
    let e1 = world.spawn();
    world.insert(e1, ids.health, Comp::Health(100.0));
    world.insert(e1, ids.speed, Comp::Speed(3.0));

    let e2 = world.spawn();
    world.insert(e2, ids.health, Comp::Health(50.0));
    // e2 has no Speed

    let matches = world.query_filtered(&[ids.health, ids.speed]);

    assert_eq!(matches.len(), 1);
    assert!(matches.contains(&e1));
    assert!(!matches.contains(&e2));
}

#[test]
fn query_single_iterates_all() {
    let mut registry = ComponentRegistry::new();
    let ids = ids(&mut registry);
    let mut world = World::<Comp>::new();
    for i in 0..10u32 {
        let e = world.spawn();
        world.insert(e, ids.health, Comp::Health(i as f32));
    }
    let count = world.query(ids.health).len();
    assert_eq!(count, 10);
}

#[test]
fn remove_returns_the_value_and_moves_archetype() {
    let mut registry = ComponentRegistry::new();
    let ids = ids(&mut registry);
    let mut world = World::<Comp>::new();
    let e = world.spawn();
    world.insert(e, ids.health, Comp::Health(1.0));
    world.insert(e, ids.speed, Comp::Speed(2.0));
    assert_eq!(world.remove(e, ids.speed), Some(Comp::Speed(2.0)));
    assert!(world.has(e, ids.health));
    assert!(!world.has(e, ids.speed));
    assert_eq!(world.remove(e, ids.speed), None);
    assert_eq!(world.component_count(ids.speed), 0);
    assert_eq!(world.query_filtered(&[ids.health]), vec![e]);
    assert!(world.query_filtered(&[ids.speed]).is_empty());
}

#[test]
fn despawned_entities_leave_every_query() {
    let mut registry = ComponentRegistry::new();
    let ids = ids(&mut registry);
    let mut world = World::<Comp>::new();
    let a = world.spawn();
    let b = world.spawn();
    world.insert(a, ids.health, Comp::Health(1.0));
    world.insert(b, ids.health, Comp::Health(2.0));
    assert!(world.despawn(a));
    assert!(!world.despawn(a));
    assert_eq!(world.get(a, ids.health), None);
    assert_eq!(world.query(ids.health), vec![(b, &Comp::Health(2.0))]);
    assert_eq!(world.query_filtered(&[ids.health]), vec![b]);
}

#[test]
fn get_mut_changes_one_component() {
    let mut registry = ComponentRegistry::new();
    let ids = ids(&mut registry);
    let mut world = World::<Comp>::new();
    let e = world.spawn();
    world.insert(e, ids.health, Comp::Health(1.0));
    if let Some(c) = world.get_mut(e, ids.health) {
        *c = Comp::Health(9.0);
    }
    assert_eq!(world.get(e, ids.health), Some(&Comp::Health(9.0)));
    assert!(world.get_mut(e, ids.speed).is_none());
}

#[test]
fn empty_filter_matches_every_entity() {
    let mut world = World::<Comp>::new();
    let a = world.spawn();
    let b = world.spawn();
    let all = world.query_filtered(&[]);
    assert_eq!(all.len(), 2);
    assert!(all.contains(&a) && all.contains(&b));
}

// ---------------------------------------------------------------------------
// Deferred commands
// ---------------------------------------------------------------------------

#[test]
fn deferred_spawn_and_despawn() {
    let mut world = World::<Comp>::new();
    let mut cmds = EntityCommandBuffer::new();

    let e = cmds.spawn(&mut world).id();
    assert!(world.is_alive(e)); // pre-allocated
    cmds.despawn(e);
    cmds.flush(&mut world);
    assert!(!world.is_alive(e));
}

#[test]
fn deferred_inserts_apply_in_order() {
    let mut registry = ComponentRegistry::new();
    let ids = ids(&mut registry);
    let mut world = World::<Comp>::new();
    let mut cmds = EntityCommandBuffer::new();
    let b = cmds.spawn(&mut world);
    let b = b.with(&mut cmds, ids.health, Comp::Health(1.0));
    let e = b.id();
    cmds.insert(e, ids.speed, Comp::Speed(2.0));
    cmds.insert(e, ids.health, Comp::Health(3.0));
    // Nothing is applied before the flush.
    assert_eq!(world.get(e, ids.health), None);
    cmds.flush(&mut world);
    assert_eq!(world.get(e, ids.health), Some(&Comp::Health(3.0)));
    assert_eq!(world.get(e, ids.speed), Some(&Comp::Speed(2.0)));
}

#[test]
fn deferred_remove_and_commands_on_dead_entities() {
    let mut registry = ComponentRegistry::new();
    let ids = ids(&mut registry);
    let mut world = World::<Comp>::new();
    let e = world.spawn();
    world.insert(e, ids.health, Comp::Health(1.0));
    let mut cmds = EntityCommandBuffer::new();
    cmds.remove(e, ids.health);
    cmds.despawn(e);
    cmds.insert(e, ids.speed, Comp::Speed(1.0));
    cmds.flush(&mut world);
    assert!(!world.is_alive(e));
    assert_eq!(world.component_count(ids.speed), 0);
    assert_eq!(world.entity_count(), 0);
}

// ---------------------------------------------------------------------------
// Archetype signatures, access and scheduling
// ---------------------------------------------------------------------------

#[test]
fn signatures_are_sorted_and_deduplicated() {
    let sig = ArchetypeSignature::new(vec![ComponentId(3), ComponentId(1), ComponentId(3)]);
    assert_eq!(sig.ids(), vec![ComponentId(1), ComponentId(3)]);
    assert!(sig.contains(ComponentId(1)));
    assert!(!sig.contains(ComponentId(2)));
    let with = sig.with(ComponentId(2));
    assert_eq!(with.ids(), vec![ComponentId(1), ComponentId(2), ComponentId(3)]);
    let without = with.without(ComponentId(1));
    assert_eq!(without.ids(), vec![ComponentId(2), ComponentId(3)]);
    assert_eq!(sig.with(ComponentId(1)).ids(), sig.ids());
}

#[test]
fn write_conflicts_with_read_both_ways() {
    let mut a = WorldAccess::new();
    let mut b = WorldAccess::new();
    a.write(ComponentId(1));
    b.read(ComponentId(1));
    assert!(a.conflicts_with(&b));
    assert!(b.conflicts_with(&a));
}

#[test]
fn readers_do_not_conflict() {
    let mut a = WorldAccess::new();
    let mut b = WorldAccess::new();
    a.read(ComponentId(1));
    b.read(ComponentId(1));
    a.write(ComponentId(2));
    b.write(ComponentId(3));
    assert!(!a.conflicts_with(&b));
    let mut c = WorldAccess::new();
    c.write(ComponentId(3));
    assert!(b.conflicts_with(&c));
}

#[test]
fn scheduler_keeps_stage_order_and_insertion_order() {
    let mut s = SystemScheduler::new();
    s.add_system_to_stage(SystemStage::Render, "draw");
    s.add_system_to_stage(SystemStage::Update, "move");
    s.add_system_to_stage(SystemStage::PreUpdate, "input");
    s.add_system_to_stage(SystemStage::Update, "collide");
    assert_eq!(s.len(), 4);
    assert_eq!(s.stage_members(SystemStage::Update), vec![1, 2]);
    assert_eq!(*s.system_mut(0), "input");
    assert_eq!(*s.system_mut(1), "move");
    assert_eq!(*s.system_mut(2), "collide");
    assert_eq!(*s.system_mut(3), "draw");
    assert!(s.stage_members(SystemStage::PostRender).is_empty());
}

#[test]
fn stages_rank_in_frame_order() {
    let all = SystemStage::all();
    for i in 0..all.len() {
        assert_eq!(all[i].rank() as usize, i);
    }
    let app = AppStage::all();
    for i in 0..app.len() {
        let s: SystemStage = app[i].into();
        assert_eq!(s, all[i]);
    }
}

#[test]
fn component_ids_are_dense_and_one_per_key() {
    let mut registry = ComponentRegistry::new();
    let keys = [10u64, 20, 10, 30, 20, 40];
    let ids: Vec<u32> = keys.iter().map(|&k| ComponentId::of(&mut registry, k).0).collect();
    assert_eq!(ids, vec![0, 1, 0, 2, 1, 3]);
    assert_eq!(registry.len(), 4);
}
