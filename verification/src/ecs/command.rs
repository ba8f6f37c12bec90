//! Deferred structural changes: a command buffer that systems fill while
//! they iterate and that is applied to the world afterwards.
use vstd::prelude::*;
use crate::ecs::component::ComponentId;
use crate::ecs::entity::Entity;
use crate::ecs::world::World;
use crate::outside::slot_map::{count_occupied, key_index, key_live, remove_step};
use crate::ecs::entity::handle_bits;

verus! {

/// One deferred structural change.
pub enum Command<V> {
    /// Components for an entity that was allocated when the command was
    /// queued.
    Spawn { entity: Entity, components: Vec<(ComponentId, V)> },
    Despawn(Entity),
    InsertComponent { entity: Entity, component: ComponentId, value: V },
    RemoveComponent { entity: Entity, component: ComponentId },
}

/// Slot versions after the live key `bits` is released.
pub open spec fn released(v: Seq<u32>, bits: u64) -> Seq<u32> {
    let i = key_index(bits);
    v.update(i, if v[i] == u32::MAX { 0u32 } else { (v[i] + 1) as u32 })
}

/// `comps` with the given components of packed handle `k` inserted in order.
pub open spec fn insert_all<V>(
    comps: Map<u32, Map<u64, V>>,
    k: u64,
    items: Seq<(ComponentId, V)>,
) -> Map<u32, Map<u64, V>>
    decreases items.len(),
{
    if items.len() == 0 {
        comps
    } else {
        let prev = insert_all(comps, k, items.drop_last());
        let c = items.last().0.0;
        prev.insert(c, prev[c].insert(k, items.last().1))
    }
}

/// What one command does to the allocator state and the components. A
/// command for an entity that is dead by then does nothing.
pub open spec fn apply_command<V>(
    slots: Seq<u32>,
    comps: Map<u32, Map<u64, V>>,
    cmd: Command<V>,
) -> (Seq<u32>, Map<u32, Map<u64, V>>) {
    match cmd {
        Command::Spawn { entity, components } =>
            if key_live(slots, entity@) {
                (slots, insert_all(comps, entity@, components@))
            } else {
                (slots, comps)
            },
        Command::Despawn(e) =>
            if key_live(slots, e@) {
                (released(slots, e@), Map::new(|c: u32| true, |c: u32| comps[c].remove(e@)))
            } else {
                (slots, comps)
            },
        Command::InsertComponent { entity, component, value } =>
            if key_live(slots, entity@) {
                (slots, comps.insert(component.0, comps[component.0].insert(entity@, value)))
            } else {
                (slots, comps)
            },
        Command::RemoveComponent { entity, component } =>
            if key_live(slots, entity@) {
                (slots, comps.insert(component.0, comps[component.0].remove(entity@)))
            } else {
                (slots, comps)
            },
    }
}

/// The commands applied one after another.
pub open spec fn apply_commands<V>(
    slots: Seq<u32>,
    comps: Map<u32, Map<u64, V>>,
    cmds: Seq<Command<V>>,
) -> (Seq<u32>, Map<u32, Map<u64, V>>)
    decreases cmds.len(),
{
    if cmds.len() == 0 {
        (slots, comps)
    } else {
        let (s, c) = apply_commands(slots, comps, cmds.drop_last());
        apply_command(s, c, cmds.last())
    }
}

/// Upper bound on the archetypes and storages that applying a command can
/// create: one per component it inserts or removes.
pub open spec fn command_cost<V>(cmd: Command<V>) -> nat {
    match cmd {
        Command::Spawn { components, .. } => components@.len(),
        Command::Despawn(_) => 0,
        Command::InsertComponent { .. } => 1,
        Command::RemoveComponent { .. } => 1,
    }
}

pub open spec fn commands_cost<V>(cmds: Seq<Command<V>>) -> nat
    decreases cmds.len(),
{
    if cmds.len() == 0 {
        0
    } else {
        commands_cost(cmds.drop_last()) + command_cost(cmds.last())
    }
}

proof fn lemma_cost_prefix<V>(cmds: Seq<Command<V>>, d: int)
    requires
        0 <= d <= cmds.len(),
    ensures
        commands_cost(cmds.take(d)) <= commands_cost(cmds),
    decreases cmds.len() - d,
{
    if d < cmds.len() {
        lemma_cost_prefix(cmds, d + 1);
        assert(cmds.take(d + 1).drop_last() =~= cmds.take(d));
    } else {
        assert(cmds.take(d) =~= cmds);
    }
}

/// The items of `v` in reverse, so that popping yields them in order.
fn reversed<T>(v: Vec<T>) -> (r: Vec<T>)
    ensures
        r@ == v@.reverse(),
{
    let mut v = v;
    let ghost orig = v@;
    let mut r: Vec<T> = Vec::new();
    while v.len() > 0
        invariant
            v@ == orig.take(v.len() as int),
            r@ == orig.skip(v.len() as int).reverse(),
            v.len() <= orig.len(),
        decreases v.len(),
    {
        let ghost n = v.len();
        let x = v.pop().unwrap();
        r.push(x);
        proof {
            assert(v@ =~= orig.take(v.len() as int));
            assert(r@ =~= orig.skip(v.len() as int).reverse());
        }
    }
    proof {
        assert(orig.skip(0) =~= orig);
    }
    r
}

/// Queued commands, applied in order by `flush`.
pub struct EntityCommandBuffer<V> {
    commands: Vec<Command<V>>,
}

/// Builder returned by `EntityCommandBuffer::spawn`: the queued spawn it
/// adds components to, and the entity it is for.
pub struct EntityBuilder {
    idx: usize,
    entity: Entity,
}

impl<V> View for EntityCommandBuffer<V> {
    type V = Seq<Command<V>>;

    closed spec fn view(&self) -> Seq<Command<V>> {
        self.commands@
    }
}

impl EntityBuilder {
    pub closed spec fn entity_of(&self) -> Entity {
        self.entity
    }

    /// Position of the spawn command in its buffer.
    pub closed spec fn index_of(&self) -> int {
        self.idx as int
    }

    /// Queues component `c` for the entity being spawned.
    pub fn with<V>(self, buffer: &mut EntityCommandBuffer<V>, c: ComponentId, value: V) -> (b: Self)
        requires
            self.index_of() < old(buffer)@.len(),
            old(buffer)@[self.index_of()] is Spawn,
        ensures
            b == self,
            final(buffer)@.len() == old(buffer)@.len(),
            forall|j: int| 0 <= j < old(buffer)@.len() && j != self.index_of() ==>
                #[trigger] final(buffer)@[j] == old(buffer)@[j],
            final(buffer)@[self.index_of()] matches Command::Spawn { entity, components }
                && old(buffer)@[self.index_of()] matches Command::Spawn { entity: e0, components: c0 }
                && entity == e0 && components@ == c0@.push((c, value)),
    {
        match &mut buffer.commands[self.idx] {
            Command::Spawn { components, .. } => {
                components.push((c, value));
            },
            _ => {},
        }
        self
    }

    /// The pre-allocated entity.
    pub fn id(self) -> (e: Entity)
        ensures
            e == self.entity_of(),
    {
        self.entity
    }
}

impl<V> EntityCommandBuffer<V> {
    pub fn new() -> (b: Self)
        ensures
            b@ == Seq::<Command<V>>::empty(),
    {
        EntityCommandBuffer { commands: Vec::new() }
    }

    /// Queues despawning `entity`.
    pub fn despawn(&mut self, entity: Entity)
        ensures
            final(self)@ == old(self)@.push(Command::Despawn(entity)),
    {
        self.commands.push(Command::Despawn(entity));
    }

    /// Queues inserting component `c` onto `entity`.
    pub fn insert(&mut self, entity: Entity, c: ComponentId, value: V)
        ensures
            final(self)@ == old(self)@.push(Command::InsertComponent { entity, component: c, value }),
    {
        self.commands.push(Command::InsertComponent { entity, component: c, value });
    }

    /// Queues removing component `c` from `entity`.
    pub fn remove(&mut self, entity: Entity, c: ComponentId)
        ensures
            final(self)@ == old(self)@.push(Command::RemoveComponent { entity, component: c }),
    {
        self.commands.push(Command::RemoveComponent { entity, component: c });
    }

    /// Allocates an entity now (so later commands can name it) and queues
    /// its components, which the returned builder collects.
    pub fn spawn(&mut self, world: &mut World<V>) -> (b: EntityBuilder)
        requires
            old(world).wf(),
            old(world).slots().len() < u32::MAX,
            old(world).archetype_count() < u32::MAX,
        ensures
            final(world).wf(),
            !old(world).alive(b.entity_of()),
            final(world).alive(b.entity_of()),
            b.index_of() == old(self)@.len(),
            final(self)@.len() == old(self)@.len() + 1,
            forall|j: int| 0 <= j < old(self)@.len() ==> #[trigger] final(self)@[j] == old(self)@[j],
            final(self)@[b.index_of()] matches Command::Spawn { entity, components }
                && entity == b.entity_of() && components@.len() == 0,
            forall|k: u64| #![trigger key_live(final(world).slots(), k)]
                handle_bits(k) && k != b.entity_of()@ ==> key_live(final(world).slots(), k) == key_live(old(world).slots(), k),
            forall|c: u32| #[trigger] final(world).components(c) == old(world).components(c),
            final(world).signature_set(b.entity_of()@) == Set::<u32>::empty(),
            count_occupied(final(world).slots()) == count_occupied(old(world).slots()) + 1,
            final(world).archetype_count() <= old(world).archetype_count() + 1,
            final(world).storage_count() == old(world).storage_count(),
            final(world).slots().len() <= old(world).slots().len() + 1,
    {
        let entity = world.spawn();
        let idx = self.commands.len();
        self.commands.push(Command::Spawn { entity, components: Vec::new() });
        EntityBuilder { idx, entity }
    }
}

impl<V> EntityCommandBuffer<V> {
    /// Applies every queued command to `world`, in order.
    pub fn flush(self, world: &mut World<V>)
        requires
            old(world).wf(),
            old(world).archetype_count() + commands_cost(self@) < u32::MAX,
            old(world).storage_count() + commands_cost(self@) < u32::MAX,
        ensures
            final(world).wf(),
            (final(world).slots(), final(world).components_all())
                == apply_commands(old(world).slots(), old(world).components_all(), self@),
    {
        let ghost cmds = self@;
        let mut stack = reversed(self.commands);
        let ghost mut done: int = 0;
        proof {
            assert(cmds.take(0) =~= Seq::<Command<V>>::empty());
        }
        while stack.len() > 0
            invariant
                world.wf(),
                0 <= done <= cmds.len(),
                stack@ == cmds.skip(done).reverse(),
                (world.slots(), world.components_all())
                    == apply_commands(old(world).slots(), old(world).components_all(), cmds.take(done)),
                world.archetype_count() <= old(world).archetype_count() + commands_cost(cmds.take(done)),
                world.storage_count() <= old(world).storage_count() + commands_cost(cmds.take(done)),
                old(world).archetype_count() + commands_cost(cmds) < u32::MAX,
                old(world).storage_count() + commands_cost(cmds) < u32::MAX,
            decreases stack.len(),
        {
            let cmd = stack.pop().unwrap();
            proof {
                assert(cmd == cmds[done]);
                assert(cmds.take(done + 1).drop_last() =~= cmds.take(done));
                assert(cmds.take(done + 1).last() == cmds[done]);
                lemma_cost_prefix(cmds, done + 1);
            }
            let ghost s0 = world.slots();
            let ghost c0 = world.components_all();
            match cmd {
                Command::Spawn { entity, components } => {
                    if world.is_alive(entity) {
                        Self::apply_spawn(world, entity, components);
                    }
                },
                Command::Despawn(entity) => {
                    proof {
                        if !world.alive(entity) {
                            world.lemma_dead_holds_nothing(entity);
                        }
                    }
                    let was = world.despawn(entity);
                    proof {
                        assert(world.components_all() =~= Map::new(|c: u32| true, |c: u32| c0[c].remove(entity@)));
                        if !was {
                            assert forall|c: u32| #[trigger] c0[c].remove(entity@) == c0[c] by {
                                assert(c0[c].remove(entity@) =~= c0[c]);
                            }
                            assert(world.components_all() =~= c0);
                        }
                    }
                },
                Command::InsertComponent { entity, component, value } => {
                    if world.is_alive(entity) {
                        world.insert(entity, component, value);
                        proof {
                            assert(world.components_all() =~= c0.insert(component.0, c0[component.0].insert(entity@, value)));
                        }
                    }
                },
                Command::RemoveComponent { entity, component } => {
                    if world.is_alive(entity) {
                        let _ = world.remove(entity, component);
                        proof {
                            assert(world.components_all() =~= c0.insert(component.0, c0[component.0].remove(entity@)));
                        }
                    }
                },
            }
            proof {
                assert((world.slots(), world.components_all()) == apply_command(s0, c0, cmd));
                done = done + 1;
                assert(stack@ =~= cmds.skip(done).reverse());
            }
        }
        proof {
            assert(cmds.take(done) =~= cmds);
        }
    }

    /// Inserts the queued components of a spawned (and still live) entity.
    fn apply_spawn(world: &mut World<V>, entity: Entity, components: Vec<(ComponentId, V)>)
        requires
            old(world).wf(),
            old(world).alive(entity),
            old(world).archetype_count() + components@.len() < u32::MAX,
            old(world).storage_count() + components@.len() < u32::MAX,
        ensures
            final(world).wf(),
            final(world).slots() == old(world).slots(),
            final(world).components_all() == insert_all(old(world).components_all(), entity@, components@),
            final(world).archetype_count() <= old(world).archetype_count() + components@.len(),
            final(world).storage_count() <= old(world).storage_count() + components@.len(),
    {
        let ghost items = components@;
        let mut stack = reversed(components);
        let ghost mut done: int = 0;
        proof {
            assert(items.take(0) =~= Seq::<(ComponentId, V)>::empty());
        }
        while stack.len() > 0
            invariant
                world.wf(),
                world.alive(entity),
                world.slots() == old(world).slots(),
                0 <= done <= items.len(),
                stack@ == items.skip(done).reverse(),
                world.components_all() == insert_all(old(world).components_all(), entity@, items.take(done)),
                world.archetype_count() <= old(world).archetype_count() + done,
                world.storage_count() <= old(world).storage_count() + done,
                old(world).archetype_count() + items.len() < u32::MAX,
                old(world).storage_count() + items.len() < u32::MAX,
            decreases stack.len(),
        {
            let (c, v) = stack.pop().unwrap();
            let ghost c0 = world.components_all();
            proof {
                assert(items[done] == (c, v));
                assert(items.take(done + 1).drop_last() =~= items.take(done));
            }
            world.insert(entity, c, v);
            proof {
                assert(world.components_all() =~= c0.insert(c.0, c0[c.0].insert(entity@, v)));
                done = done + 1;
                assert(stack@ =~= items.skip(done).reverse());
            }
        }
        proof {
            assert(items.take(done) =~= items);
        }
    }
}

/// What each command does to a live entity, in the terms of the world's own
/// operations: a removal leaves the entity without the component, an
/// insertion gives it the value, a despawn takes every component away and
/// retires the handle; each touches nothing else. A command for a dead
/// entity changes nothing.
pub proof fn law_command_effects<V>(
    slots: Seq<u32>,
    comps: Map<u32, Map<u64, V>>,
    e: Entity,
    c: ComponentId,
    v: V,
)
    ensures
        ({
            let (s1, c1) = apply_command(slots, comps, Command::RemoveComponent { entity: e, component: c });
            key_live(slots, e@) ==> {
                &&& !c1[c.0].contains_key(e@)
                &&& forall|k: u64| k != e@ ==> c1[c.0].contains_key(k) == comps[c.0].contains_key(k)
                &&& forall|c2: u32| c2 != c.0 ==> #[trigger] c1[c2] == comps[c2]
                &&& s1 == slots
            }
        }),
        ({
            let (s1, c1) = apply_command(slots, comps, Command::InsertComponent { entity: e, component: c, value: v });
            key_live(slots, e@) ==> {
                &&& c1[c.0].contains_key(e@) && c1[c.0][e@] == v
                &&& forall|c2: u32| c2 != c.0 ==> #[trigger] c1[c2] == comps[c2]
                &&& s1 == slots
            }
        }),
        ({
            let (s1, c1) = apply_command(slots, comps, Command::Despawn(e));
            key_live(slots, e@) ==> {
                &&& !key_live(s1, e@)
                &&& forall|c2: u32| !(#[trigger] c1[c2]).contains_key(e@)
                &&& forall|c2: u32, k: u64| k != e@ ==> (#[trigger] c1[c2].contains_key(k) == comps[c2].contains_key(k))
            }
        }),
        !key_live(slots, e@) ==> apply_command(slots, comps, Command::RemoveComponent { entity: e, component: c }) == (slots, comps)
            && apply_command(slots, comps, Command::InsertComponent { entity: e, component: c, value: v }) == (slots, comps)
            && apply_command(slots, comps, Command::Despawn(e)) == (slots, comps),
{
    let i = key_index(e@);
    if key_live(slots, e@) {
        let s1 = released(slots, e@);
        assert(s1[i] != slots[i]);
    }
}

/// A flushed buffer whose last command removes a component from an entity
/// that is still alive by then leaves the entity without that component.
pub proof fn law_flush_ends_with_removal<V>(
    slots: Seq<u32>,
    comps: Map<u32, Map<u64, V>>,
    cmds: Seq<Command<V>>,
    e: Entity,
    c: ComponentId,
)
    requires
        key_live(apply_commands(slots, comps, cmds).0, e@),
    ensures
        !apply_commands(slots, comps, cmds.push(Command::RemoveComponent { entity: e, component: c })).1[c.0].contains_key(e@),
{
    let all = cmds.push(Command::RemoveComponent { entity: e, component: c });
    assert(all.drop_last() =~= cmds);
    let (s0, c0) = apply_commands(slots, comps, cmds);
    law_command_effects(s0, c0, e, c, arbitrary::<V>());
}

} // verus!
