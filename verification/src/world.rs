//! The entity-component world: entity allocation, per-component-type
//! storage, system execution, and the fixed-tick driver that runs the
//! world against the shared state.
//!
//! Component types are identified by a runtime key chosen by the host
//! (one stable `u64` per component type); the storage created for a key
//! is only ever read and written through that key, so a record keeps the
//! type it was stored with.

use vstd::prelude::*;

use crate::data::DrawData;
use crate::data::EventData;
use crate::data::GameRequest;
use crate::state::SharedState;
use crate::state::SharedStateView;

verus! {

/// An opaque, monotonically increasing identifier naming one logical
/// object in a `World`. Entities carry no data and are never reused
/// within one `World`'s lifetime.
#[derive(Clone, Copy, PartialEq, Eq, PartialOrd, Ord, Structural, Debug)]
pub struct Entity(u64);

impl Entity {
    /// The numeric identity of this entity.
    pub closed spec fn id(self) -> u64 {
        self.0
    }

    /// The successor identifier.
    pub fn next(&self) -> (r: Entity)
        requires
            self.id() < u64::MAX,
        ensures
            r.id() == self.id() + 1,
    {
        Entity(self.0 + 1)
    }
}

impl Default for Entity {
    /// The first identifier issued by a fresh allocator.
    fn default() -> (r: Entity)
        ensures
            r.id() == 0,
    {
        Entity(0)
    }
}

/// A component addition requested through the tick handle, applied to
/// the world when the tick ends.
pub struct PendingComponent<C> {
    pub key: u64,
    pub entity: Entity,
    pub component: C,
}

/// A system registration requested through the tick handle, applied to
/// the world when the tick ends.
pub struct PendingSystem<S> {
    pub key: u64,
    pub system: S,
}

/// The per-tick capability object handed to every system invocation.
///
/// A handle lets simulation code emit draw commands, send requests,
/// request shutdown, and spawn entities, components and systems. All of
/// it is buffered: the world applies the buffered mutations when the
/// tick ends, so they become visible to subsequent ticks, and publishes
/// the buffered output. Within the tick the handle only ever grows,
/// which is what `extends` states.
pub struct GameHandle<C, S> {
    next_entity: u64,
    base: Ghost<u64>,
    new_entities: Vec<Entity>,
    pending_components: Vec<PendingComponent<C>>,
    pending_systems: Vec<PendingSystem<S>>,
    draw_data: Vec<DrawData>,
    requests: Vec<GameRequest>,
    stop_requested: bool,
    events: Vec<EventData>,
}

impl<C, S> GameHandle<C, S> {
    /// The identifier the next `add_entity` call will issue.
    pub closed spec fn next_id(&self) -> u64 {
        self.next_entity
    }

    /// The identifier the allocator stood at when the tick began.
    pub closed spec fn base_id(&self) -> u64 {
        self.base@
    }

    /// The entities spawned through this handle, in allocation order.
    pub closed spec fn fresh_entities(&self) -> Seq<Entity> {
        self.new_entities@
    }

    /// The component additions requested through this handle, in order.
    pub closed spec fn pending_component_seq(&self) -> Seq<PendingComponent<C>> {
        self.pending_components@
    }

    /// The system registrations requested through this handle, in order.
    pub closed spec fn pending_system_seq(&self) -> Seq<PendingSystem<S>> {
        self.pending_systems@
    }

    /// The draw commands emitted this tick, in emission order.
    pub closed spec fn draws(&self) -> Seq<DrawData> {
        self.draw_data@
    }

    /// The outbound requests sent this tick, in emission order.
    pub closed spec fn sent_requests(&self) -> Seq<GameRequest> {
        self.requests@
    }

    /// Whether shutdown was requested this tick.
    pub closed spec fn stop_was_requested(&self) -> bool {
        self.stop_requested
    }

    /// The input events drained for this tick, in FIFO order.
    pub closed spec fn tick_events(&self) -> Seq<EventData> {
        self.events@
    }

    /// A handle is well formed when the entities it has spawned carry
    /// exactly the identifiers between the tick's base and the next one
    /// to issue, in strictly increasing order.
    pub closed spec fn inv(&self) -> bool {
        &&& self.base@ <= self.next_entity
        &&& forall|i: int|
            0 <= i < self.new_entities@.len() ==> self.base@ <= (
            #[trigger] self.new_entities@[i]).id() < self.next_entity
        &&& forall|i: int, j: int|
            0 <= i < j < self.new_entities@.len() ==> self.new_entities@[i].id()
                < self.new_entities@[j].id()
    }

    /// How a handle may evolve while systems hold it: every buffer only
    /// grows, the allocator only advances, a shutdown request is never
    /// withdrawn, and the tick's events stay as drained.
    pub open spec fn extends(self, pre: Self) -> bool {
        &&& self.base_id() == pre.base_id()
        &&& pre.next_id() <= self.next_id()
        &&& pre.fresh_entities().is_prefix_of(self.fresh_entities())
        &&& pre.pending_component_seq().is_prefix_of(self.pending_component_seq())
        &&& pre.pending_system_seq().is_prefix_of(self.pending_system_seq())
        &&& pre.draws().is_prefix_of(self.draws())
        &&& pre.sent_requests().is_prefix_of(self.sent_requests())
        &&& (pre.stop_was_requested() ==> self.stop_was_requested())
        &&& self.tick_events() == pre.tick_events()
    }

    /// A fresh handle for one tick, seeded with the world's allocator
    /// position and the events drained for this tick.
    pub(crate) fn begin_tick(next_entity: u64, events: Vec<EventData>) -> (r: GameHandle<C, S>)
        ensures
            r.inv(),
            r.next_id() == next_entity,
            r.base_id() == next_entity,
            r.fresh_entities() == Seq::<Entity>::empty(),
            r.pending_component_seq() == Seq::<PendingComponent<C>>::empty(),
            r.pending_system_seq() == Seq::<PendingSystem<S>>::empty(),
            r.draws() == Seq::<DrawData>::empty(),
            r.sent_requests() == Seq::<GameRequest>::empty(),
            !r.stop_was_requested(),
            r.tick_events() == events@,
    {
        GameHandle {
            next_entity,
            base: Ghost(next_entity),
            new_entities: Vec::new(),
            pending_components: Vec::new(),
            pending_systems: Vec::new(),
            draw_data: Vec::new(),
            requests: Vec::new(),
            stop_requested: false,
            events,
        }
    }

    /// Request shutdown: the world forwards it to the shared state when
    /// the tick ends. Idempotent.
    pub fn stop(&mut self)
        requires
            old(self).inv(),
        ensures
            final(self).inv(),
            final(self).extends(*old(self)),
            final(self).stop_was_requested(),
            final(self).draws() == old(self).draws(),
            final(self).sent_requests() == old(self).sent_requests(),
            final(self).next_id() == old(self).next_id(),
            final(self).fresh_entities() == old(self).fresh_entities(),
            final(self).pending_component_seq() == old(self).pending_component_seq(),
            final(self).pending_system_seq() == old(self).pending_system_seq(),
    {
        self.stop_requested = true;
        proof {
            lemma_seq_prefix_refl(self.fresh_entities());
            lemma_seq_prefix_refl(self.pending_component_seq());
            lemma_seq_prefix_refl(self.pending_system_seq());
            lemma_seq_prefix_refl(self.draws());
            lemma_seq_prefix_refl(self.sent_requests());
        }
    }

    /// Send one outbound request; the world appends it to the shared
    /// state's request queue when the tick ends.
    pub fn send(&mut self, request: GameRequest)
        requires
            old(self).inv(),
        ensures
            final(self).inv(),
            final(self).extends(*old(self)),
            final(self).sent_requests() == old(self).sent_requests().push(request),
            final(self).draws() == old(self).draws(),
            final(self).stop_was_requested() == old(self).stop_was_requested(),
            final(self).next_id() == old(self).next_id(),
            final(self).fresh_entities() == old(self).fresh_entities(),
            final(self).pending_component_seq() == old(self).pending_component_seq(),
            final(self).pending_system_seq() == old(self).pending_system_seq(),
    {
        self.requests.push(request);
        proof {
            lemma_seq_prefix_refl(self.fresh_entities());
            lemma_seq_prefix_refl(self.pending_component_seq());
            lemma_seq_prefix_refl(self.pending_system_seq());
            lemma_seq_prefix_refl(self.draws());
            lemma_seq_prefix_push(old(self).sent_requests(), request);
        }
    }

    /// Emit one draw command into this tick's batch.
    pub fn draw(&mut self, data: DrawData)
        requires
            old(self).inv(),
        ensures
            final(self).inv(),
            final(self).extends(*old(self)),
            final(self).draws() == old(self).draws().push(data),
            final(self).sent_requests() == old(self).sent_requests(),
            final(self).stop_was_requested() == old(self).stop_was_requested(),
            final(self).next_id() == old(self).next_id(),
            final(self).fresh_entities() == old(self).fresh_entities(),
            final(self).pending_component_seq() == old(self).pending_component_seq(),
            final(self).pending_system_seq() == old(self).pending_system_seq(),
    {
        self.draw_data.push(data);
        proof {
            lemma_seq_prefix_refl(self.fresh_entities());
            lemma_seq_prefix_refl(self.pending_component_seq());
            lemma_seq_prefix_refl(self.pending_system_seq());
            lemma_seq_prefix_push(old(self).draws(), data);
            lemma_seq_prefix_refl(self.sent_requests());
        }
    }

    /// Register a system against the storage for `key`; it first runs on
    /// the tick after this one.
    pub fn add_system(&mut self, key: u64, system: S)
        requires
            old(self).inv(),
        ensures
            final(self).inv(),
            final(self).extends(*old(self)),
            final(self).pending_system_seq() == old(self).pending_system_seq().push(
                (PendingSystem { key, system }),
            ),
            final(self).draws() == old(self).draws(),
            final(self).sent_requests() == old(self).sent_requests(),
            final(self).stop_was_requested() == old(self).stop_was_requested(),
            final(self).next_id() == old(self).next_id(),
            final(self).fresh_entities() == old(self).fresh_entities(),
            final(self).pending_component_seq() == old(self).pending_component_seq(),
    {
        self.pending_systems.push(PendingSystem { key, system });
        proof {
            lemma_seq_prefix_refl(self.fresh_entities());
            lemma_seq_prefix_refl(self.pending_component_seq());
            lemma_seq_prefix_push(old(self).pending_system_seq(), final(self).pending_system_seq().last());
            lemma_seq_prefix_refl(self.draws());
            lemma_seq_prefix_refl(self.sent_requests());
        }
    }

    /// Attach a component to an entity in the storage for `key`; the
    /// record is visible from the tick after this one.
    pub fn add_component(&mut self, key: u64, entity: Entity, component: C)
        requires
            old(self).inv(),
        ensures
            final(self).inv(),
            final(self).extends(*old(self)),
            final(self).pending_component_seq() == old(self).pending_component_seq().push(
                (PendingComponent { key, entity, component }),
            ),
            final(self).draws() == old(self).draws(),
            final(self).sent_requests() == old(self).sent_requests(),
            final(self).stop_was_requested() == old(self).stop_was_requested(),
            final(self).next_id() == old(self).next_id(),
            final(self).fresh_entities() == old(self).fresh_entities(),
            final(self).pending_system_seq() == old(self).pending_system_seq(),
    {
        self.pending_components.push(PendingComponent { key, entity, component });
        proof {
            lemma_seq_prefix_refl(self.fresh_entities());
            lemma_seq_prefix_push(
                old(self).pending_component_seq(),
                final(self).pending_component_seq().last(),
            );
            lemma_seq_prefix_refl(self.pending_system_seq());
            lemma_seq_prefix_refl(self.draws());
            lemma_seq_prefix_refl(self.sent_requests());
        }
    }

    /// Spawn a new entity. Identifiers are strictly increasing and never
    /// reused; once the 64-bit space is exhausted the allocator stays
    /// put and hands out the final identifier without registering it.
    pub fn add_entity(&mut self) -> (r: Entity)
        requires
            old(self).inv(),
        ensures
            final(self).inv(),
            final(self).extends(*old(self)),
            old(self).next_id() < u64::MAX ==> (r.id() == old(self).next_id()
                && final(self).next_id() == old(self).next_id() + 1
                && final(self).fresh_entities() == old(self).fresh_entities().push(r)),
            old(self).next_id() == u64::MAX ==> (r.id() == u64::MAX
                && final(self).fresh_entities() == old(self).fresh_entities()
                && final(self).next_id() == old(self).next_id()),
            final(self).draws() == old(self).draws(),
            final(self).sent_requests() == old(self).sent_requests(),
            final(self).stop_was_requested() == old(self).stop_was_requested(),
            final(self).pending_component_seq() == old(self).pending_component_seq(),
            final(self).pending_system_seq() == old(self).pending_system_seq(),
    {
        proof {
            lemma_seq_prefix_refl(self.pending_component_seq());
            lemma_seq_prefix_refl(self.pending_system_seq());
            lemma_seq_prefix_refl(self.draws());
            lemma_seq_prefix_refl(self.sent_requests());
        }
        if self.next_entity < u64::MAX {
            let entity = Entity(self.next_entity);
            self.next_entity = self.next_entity + 1;
            self.new_entities.push(entity);
            proof {
                lemma_seq_prefix_push(old(self).fresh_entities(), entity);
            }
            entity
        } else {
            proof {
                lemma_seq_prefix_refl(self.fresh_entities());
            }
            Entity(u64::MAX)
        }
    }

    /// The input events drained for this tick, for systems to inspect.
    pub fn events(&self) -> (r: &Vec<EventData>)
        ensures
            r@ == self.tick_events(),
    {
        &self.events
    }
}

/// A sequence is a prefix of itself.
proof fn lemma_seq_prefix_refl<T>(s: Seq<T>)
    ensures
        s.is_prefix_of(s),
{
    assert(s =~= s.subrange(0, s.len() as int));
}

/// A sequence is a prefix of itself extended by one element.
proof fn lemma_seq_prefix_push<T>(s: Seq<T>, x: T)
    ensures
        s.is_prefix_of(s.push(x)),
{
    assert(s =~= s.push(x).subrange(0, s.len() as int));
}

/// Prefixes compose: a prefix of a prefix is a prefix of the whole.
proof fn lemma_seq_prefix_trans<T>(a: Seq<T>, b: Seq<T>, c: Seq<T>)
    requires
        a.is_prefix_of(b),
        b.is_prefix_of(c),
    ensures
        a.is_prefix_of(c),
{
    assert(a =~= c.subrange(0, a.len() as int));
}

impl<C, S> GameHandle<C, S> {
    /// `extends` is reflexive: a handle a system leaves untouched has
    /// still evolved legally.
    pub proof fn lemma_extends_refl(self)
        ensures
            self.extends(self),
    {
        lemma_seq_prefix_refl(self.fresh_entities());
        lemma_seq_prefix_refl(self.pending_component_seq());
        lemma_seq_prefix_refl(self.pending_system_seq());
        lemma_seq_prefix_refl(self.draws());
        lemma_seq_prefix_refl(self.sent_requests());
    }

    /// `extends` is transitive: what several systems do in turn is, as a
    /// whole, still a legal evolution of the handle they started from.
    pub proof fn lemma_extends_trans(self, mid: Self, pre: Self)
        requires
            self.extends(mid),
            mid.extends(pre),
        ensures
            self.extends(pre),
    {
        lemma_seq_prefix_trans(pre.fresh_entities(), mid.fresh_entities(), self.fresh_entities());
        lemma_seq_prefix_trans(
            pre.pending_component_seq(),
            mid.pending_component_seq(),
            self.pending_component_seq(),
        );
        lemma_seq_prefix_trans(
            pre.pending_system_seq(),
            mid.pending_system_seq(),
            self.pending_system_seq(),
        );
        lemma_seq_prefix_trans(pre.draws(), mid.draws(), self.draws());
        lemma_seq_prefix_trans(pre.sent_requests(), mid.sent_requests(), self.sent_requests());
    }
}

/// One simulation rule: a function invoked once per tick for every
/// entity holding a component of the storage the system is registered
/// against. Hosts implement this trait for their own system types.
///
/// The contract asks of an implementation only what any use of the
/// handle's methods already guarantees: the handle stays well formed and
/// only grows. What a system does to its component is its own business.
pub trait System<C>: Sized {
    /// The abstract model of one invocation: how the handle and the
    /// component handed to the system relate to the handle and the
    /// component it leaves behind. An implementation states its own —
    /// the default claims nothing — `run` promises to meet it, and the
    /// update machinery chains these steps to connect a storage's
    /// columns across a whole tick.
    open spec fn run_model(
        &self,
        game_pre: GameHandle<C, Self>,
        entity: Entity,
        component_pre: C,
        game_post: GameHandle<C, Self>,
        component_post: C,
    ) -> bool {
        true
    }

    fn run(&self, game: &mut GameHandle<C, Self>, entity: Entity, component: &mut C)
        requires
            old(game).inv(),
        ensures
            final(game).inv(),
            final(game).extends(*old(game)),
            self.run_model(
                *old(game),
                entity,
                *old(component),
                *final(game),
                *final(component),
            ),
    ;
}

/// One system's pass over a storage's records, step by step: `games`
/// holds the handle as it stands before each invocation and once more
/// after the last one, and the invocation at record `i` — records in
/// storage order — receives `entities[i]` and the component value
/// `pre[i]` and leaves `post[i]` behind.
pub open spec fn pass_steps<C, S: System<C>>(
    system: S,
    entities: Seq<Entity>,
    pre: Seq<C>,
    post: Seq<C>,
    games: Seq<GameHandle<C, S>>,
) -> bool {
    &&& post.len() == entities.len()
    &&& games.len() == entities.len() + 1
    &&& forall|i: int|
        #![trigger games[i]]
        0 <= i < entities.len() ==> system.run_model(
            games[i],
            entities[i],
            pre[i],
            games[i + 1],
            post[i],
        )
}

/// One system's pass as a relation between its endpoints: some chain of
/// `run_model` steps, one per record in storage order, connects the
/// column and handle the pass started from to the ones it left.
pub open spec fn run_pass<C, S: System<C>>(
    system: S,
    entities: Seq<Entity>,
    pre: Seq<C>,
    game_pre: GameHandle<C, S>,
    post: Seq<C>,
    game_post: GameHandle<C, S>,
) -> bool {
    exists|games: Seq<GameHandle<C, S>>|
        #[trigger] pass_steps(system, entities, pre, post, games) && games.first() == game_pre
            && games.last() == game_post
}

/// Every registered system run once, in registration order: `columns`
/// holds the component column before each system's pass and after the
/// last one, `games` the handle likewise, and each pass starts exactly
/// where the previous one ended.
pub open spec fn tick_steps<C, S: System<C>>(
    systems: Seq<S>,
    entities: Seq<Entity>,
    columns: Seq<Seq<C>>,
    games: Seq<GameHandle<C, S>>,
) -> bool {
    &&& columns.len() == systems.len() + 1
    &&& games.len() == systems.len() + 1
    &&& forall|k: int|
        #![trigger systems[k]]
        0 <= k < systems.len() ==> run_pass(
            systems[k],
            entities,
            columns[k],
            games[k],
            columns[k + 1],
            games[k + 1],
        )
}

/// A whole tick of one storage as a relation between its endpoints:
/// some chain of system passes, in registration order, connects the
/// column and handle before the tick to the ones after it. With no
/// systems registered this says the column and handle are unchanged.
pub open spec fn run_all<C, S: System<C>>(
    systems: Seq<S>,
    entities: Seq<Entity>,
    pre: Seq<C>,
    game_pre: GameHandle<C, S>,
    post: Seq<C>,
    game_post: GameHandle<C, S>,
) -> bool {
    exists|columns: Seq<Seq<C>>, games: Seq<GameHandle<C, S>>|
        #[trigger] tick_steps(systems, entities, columns, games) && columns.first() == pre
            && columns.last() == post && games.first() == game_pre && games.last() == game_post
}

/// Whether `e` holds a record in the entity column `s`.
pub open spec fn has_entity_in(s: Seq<Entity>, e: Entity) -> bool {
    exists|i: int| 0 <= i < s.len() && s[i] == e
}

/// Whether `e` holds at most one record in the entity column `s`. Kept
/// by every storage that guards its insertions; removal then clears the
/// entity completely.
pub open spec fn at_most_once(s: Seq<Entity>, e: Entity) -> bool {
    forall|i: int, j: int| 0 <= i < s.len() && 0 <= j < s.len() && s[i] == e && s[j] == e ==> i == j
}

/// The entity column after an unordered removal at `j`: the last record
/// is swapped into place `j` and the column shrinks by one. Relative
/// order of the remaining records is not preserved.
pub open spec fn swap_removed<T>(s: Seq<T>, j: int) -> Seq<T> {
    s.update(j, s.last()).drop_last()
}

/// The component recorded for `e`: the component aligned with the first
/// record of `e` in the entity column, if any. This is what a read of
/// the storage and an update cycle's snapshot observe.
pub open spec fn component_for<C>(entities: Seq<Entity>, components: Seq<C>, e: Entity) -> Option<
    C,
>
    decreases entities.len(),
{
    if entities.len() == 0 {
        None
    } else if entities[0] == e {
        Some(components[0])
    } else {
        component_for(
            entities.subrange(1, entities.len() as int),
            components.subrange(1, components.len() as int),
            e,
        )
    }
}

/// The record at the first occurrence of `e` is what `component_for`
/// yields: scanning past a prefix free of `e` does not change the
/// lookup.
proof fn lemma_component_for_at<C>(entities: Seq<Entity>, components: Seq<C>, e: Entity, i: int)
    requires
        entities.len() == components.len(),
        0 <= i < entities.len(),
        entities[i] == e,
        forall|k: int| 0 <= k < i ==> entities[k] != e,
    ensures
        component_for(entities, components, e) == Some(components[i]),
    decreases i,
{
    if i == 0 {
    } else {
        let ents = entities.subrange(1, entities.len() as int);
        let comps = components.subrange(1, components.len() as int);
        lemma_component_for_at(ents, comps, e, i - 1);
    }
}

/// One storage of the world, holding for a single component type the
/// position-aligned entity and component columns together with the
/// systems registered against that type.
pub struct WorldStorage<C, S> {
    systems: Vec<S>,
    entities: Vec<Entity>,
    components: Vec<C>,
}

impl<C, S> WorldStorage<C, S> {
    /// The entity column, in storage order.
    pub closed spec fn entity_seq(&self) -> Seq<Entity> {
        self.entities@
    }

    /// The component column, aligned with the entity column.
    pub closed spec fn component_seq(&self) -> Seq<C> {
        self.components@
    }

    /// The registered systems, in registration order.
    pub closed spec fn system_seq(&self) -> Seq<S> {
        self.systems@
    }

    /// The two columns always have equal length: `entities[i]` and
    /// `components[i]` are one record.
    pub open spec fn inv(&self) -> bool {
        self.entity_seq().len() == self.component_seq().len()
    }

    pub fn new() -> (r: WorldStorage<C, S>)
        ensures
            r.inv(),
            r.entity_seq() == Seq::<Entity>::empty(),
            r.component_seq() == Seq::<C>::empty(),
            r.system_seq() == Seq::<S>::empty(),
    {
        WorldStorage { systems: Vec::new(), entities: Vec::new(), components: Vec::new() }
    }

    /// Register a system; systems run in registration order.
    pub fn add_system(&mut self, system: S)
        requires
            old(self).inv(),
        ensures
            final(self).inv(),
            final(self).system_seq() == old(self).system_seq().push(system),
            final(self).entity_seq() == old(self).entity_seq(),
            final(self).component_seq() == old(self).component_seq(),
    {
        self.systems.push(system);
    }

    /// Drop every registered system.
    pub fn clear_systems(&mut self)
        requires
            old(self).inv(),
        ensures
            final(self).inv(),
            final(self).system_seq() == Seq::<S>::empty(),
            final(self).entity_seq() == old(self).entity_seq(),
            final(self).component_seq() == old(self).component_seq(),
    {
        self.systems.clear();
    }

    /// Append one record. No uniqueness check is made at this layer; the
    /// world and the laws below speak of storages where an entity holds
    /// at most one record.
    pub fn add_component(&mut self, entity: Entity, component: C)
        requires
            old(self).inv(),
        ensures
            final(self).inv(),
            final(self).entity_seq() == old(self).entity_seq().push(entity),
            final(self).component_seq() == old(self).component_seq().push(component),
            final(self).system_seq() == old(self).system_seq(),
    {
        self.entities.push(entity);
        self.components.push(component);
    }

    /// Remove the record of `entity`, if one exists, by swapping the
    /// last record into its place; a no-op when the entity holds no
    /// record here.
    pub fn remove_component(&mut self, entity: Entity)
        requires
            old(self).inv(),
        ensures
            final(self).inv(),
            final(self).system_seq() == old(self).system_seq(),
            !has_entity_in(old(self).entity_seq(), entity) ==> (
                final(self).entity_seq() == old(self).entity_seq()
                && final(self).component_seq() == old(self).component_seq()),
            has_entity_in(old(self).entity_seq(), entity) ==> (exists|j: int|
                0 <= j < old(self).entity_seq().len()
                && old(self).entity_seq()[j] == entity
                && (forall|k: int| 0 <= k < j ==> old(self).entity_seq()[k] != entity)
                && final(self).entity_seq() == swap_removed(old(self).entity_seq(), j)
                && final(self).component_seq() == swap_removed(old(self).component_seq(), j)),
    {
        match position_of(&self.entities, entity) {
            Some(i) => {
                self.entities.swap_remove(i);
                self.components.swap_remove(i);
                proof {
                    let j = i as int;
                    assert(old(self).entity_seq()[j] == entity);
                    assert(final(self).entity_seq() == swap_removed(old(self).entity_seq(), j));
                    assert(final(self).component_seq() == swap_removed(
                        old(self).component_seq(),
                        j,
                    ));
                }
            },
            None => {},
        }
    }

    /// Empty both columns; a full reset of this storage's records.
    pub fn clear_components(&mut self)
        requires
            old(self).inv(),
        ensures
            final(self).inv(),
            final(self).entity_seq() == Seq::<Entity>::empty(),
            final(self).component_seq() == Seq::<C>::empty(),
            final(self).system_seq() == old(self).system_seq(),
    {
        self.entities.clear();
        self.components.clear();
    }

    /// How many records this storage holds.
    pub fn len(&self) -> (r: usize)
        ensures
            r == self.entity_seq().len(),
    {
        self.entities.len()
    }

    /// How many systems are registered against this storage.
    pub fn system_count(&self) -> (r: usize)
        ensures
            r == self.system_seq().len(),
    {
        self.systems.len()
    }

    /// Read the component recorded for `entity`, if any: the record at
    /// the entity's first occurrence in storage order.
    pub fn get(&self, entity: Entity) -> (r: Option<&C>)
        requires
            self.inv(),
        ensures
            match r {
                Some(c) => has_entity_in(self.entity_seq(), entity) && component_for(
                    self.entity_seq(),
                    self.component_seq(),
                    entity,
                ) == Some(*c),
                None => !has_entity_in(self.entity_seq(), entity),
            },
    {
        match position_of(&self.entities, entity) {
            Some(i) => {
                proof {
                    lemma_component_for_at(
                        self.entity_seq(),
                        self.component_seq(),
                        entity,
                        i as int,
                    );
                }
                Some(&self.components[i])
            },
            None => None,
        }
    }
}

impl<C, S: System<C>> WorldStorage<C, S> {
    /// Run every registered system, in registration order, over every
    /// record, in storage order: the invocation at record `i` receives
    /// the tick handle, `entities[i]`, and mutable access to the
    /// component value current at that point. The final component
    /// column is exactly what the chain of invocations wrote, which is
    /// what the `run_all` clause states.
    ///
    /// The records a tick works on are the ones present when the call
    /// starts: mutations a system requests go through the handle and are
    /// applied by the world when the tick ends, so the columns here keep
    /// their entities and their length.
    pub fn update(&mut self, game: &mut GameHandle<C, S>)
        requires
            old(self).inv(),
            old(game).inv(),
        ensures
            final(self).inv(),
            final(self).entity_seq() == old(self).entity_seq(),
            final(self).component_seq().len() == old(self).component_seq().len(),
            final(self).system_seq() == old(self).system_seq(),
            final(game).inv(),
            final(game).extends(*old(game)),
            run_all(
                old(self).system_seq(),
                old(self).entity_seq(),
                old(self).component_seq(),
                *old(game),
                final(self).component_seq(),
                *final(game),
            ),
    {
        let ghost orig_self = *old(self);
        let ghost orig_game = *old(game);
        let ghost mut columns = Seq::<Seq<C>>::empty().push(orig_self.component_seq());
        let ghost mut tick_games = Seq::<GameHandle<C, S>>::empty().push(orig_game);
        proof {
            orig_game.lemma_extends_refl();
        }
        let num_systems = self.systems.len();
        let mut si: usize = 0;
        while si < num_systems
            invariant
                si <= num_systems,
                num_systems == self.system_seq().len(),
                self.inv(),
                self.system_seq() == orig_self.system_seq(),
                self.entity_seq() == orig_self.entity_seq(),
                self.component_seq().len() == orig_self.component_seq().len(),
                game.inv(),
                game.extends(orig_game),
                columns.len() == si + 1,
                tick_games.len() == si + 1,
                columns.first() == orig_self.component_seq(),
                columns.last() == self.component_seq(),
                tick_games.first() == orig_game,
                tick_games.last() == *game,
                forall|k: int|
                    #![trigger orig_self.system_seq()[k]]
                    0 <= k < si ==> run_pass(
                        orig_self.system_seq()[k],
                        orig_self.entity_seq(),
                        columns[k],
                        tick_games[k],
                        columns[k + 1],
                        tick_games[k + 1],
                    ),
            decreases num_systems - si,
        {
            let ghost pass_comps = self.component_seq();
            let ghost pass_game = *game;
            let ghost mut pass_games = Seq::<GameHandle<C, S>>::empty().push(pass_game);
            let num_records = self.entities.len();
            let mut i: usize = 0;
            while i < num_records
                invariant
                    i <= num_records,
                    si < num_systems,
                    num_systems == self.system_seq().len(),
                    num_records == self.entity_seq().len(),
                    self.inv(),
                    self.system_seq() == orig_self.system_seq(),
                    self.entity_seq() == orig_self.entity_seq(),
                    self.component_seq().len() == pass_comps.len(),
                    pass_comps.len() == orig_self.component_seq().len(),
                    forall|j: int|
                        i <= j < num_records ==> self.component_seq()[j] == pass_comps[j],
                    game.inv(),
                    game.extends(orig_game),
                    pass_games.len() == i + 1,
                    pass_games.first() == pass_game,
                    pass_games.last() == *game,
                    forall|j: int|
                        #![trigger pass_games[j]]
                        0 <= j < i ==> orig_self.system_seq()[si as int].run_model(
                            pass_games[j],
                            orig_self.entity_seq()[j],
                            pass_comps[j],
                            pass_games[j + 1],
                            self.component_seq()[j],
                        ),
                decreases num_records - i,
            {
                let entity = self.entities[i];
                let ghost call_game = *game;
                let ghost call_comps = self.component_seq();
                self.systems[si].run(game, entity, &mut self.components[i]);
                proof {
                    game.lemma_extends_trans(call_game, orig_game);
                    pass_games = pass_games.push(*game);
                    let i_ = i as int;
                    let sys = orig_self.system_seq()[si as int];
                    assert(self.component_seq() == call_comps.update(
                        i_,
                        self.component_seq()[i_],
                    ));
                    assert(call_comps[i_] == pass_comps[i_]);
                    assert forall|j: int| 0 <= j < i + 1 implies sys.run_model(
                        #[trigger] pass_games[j],
                        orig_self.entity_seq()[j],
                        pass_comps[j],
                        pass_games[j + 1],
                        self.component_seq()[j],
                    ) by {
                        if j < i_ {
                            assert(self.component_seq()[j] == call_comps[j]);
                        }
                    }
                }
                i = i + 1;
            }
            proof {
                assert(pass_steps(
                    orig_self.system_seq()[si as int],
                    orig_self.entity_seq(),
                    pass_comps,
                    self.component_seq(),
                    pass_games,
                ));
                assert(run_pass(
                    orig_self.system_seq()[si as int],
                    orig_self.entity_seq(),
                    pass_comps,
                    pass_game,
                    self.component_seq(),
                    *game,
                ));
                columns = columns.push(self.component_seq());
                tick_games = tick_games.push(*game);
                assert forall|k: int| 0 <= k < si + 1 implies run_pass(
                    #[trigger] orig_self.system_seq()[k],
                    orig_self.entity_seq(),
                    columns[k],
                    tick_games[k],
                    columns[k + 1],
                    tick_games[k + 1],
                ) by {
                    if k < si {
                        assert(columns[k] == columns.drop_last()[k]);
                    }
                }
            }
            si = si + 1;
        }
        proof {
            assert(tick_steps(
                orig_self.system_seq(),
                orig_self.entity_seq(),
                columns,
                tick_games,
            ));
            assert(run_all(
                orig_self.system_seq(),
                orig_self.entity_seq(),
                orig_self.component_seq(),
                orig_game,
                self.component_seq(),
                *game,
            ));
        }
    }
}

/// The first position holding `entity`, or `None` when no record does.
fn position_of(entities: &Vec<Entity>, entity: Entity) -> (r: Option<usize>)
    ensures
        match r {
            Some(i) => 0 <= i < entities@.len() && entities@[i as int] == entity && (forall|k: int|
                0 <= k < i ==> entities@[k] != entity) && has_entity_in(entities@, entity),
            None => !has_entity_in(entities@, entity),
        },
{
    let n = entities.len();
    let mut i: usize = 0;
    while i < n
        invariant
            i <= n,
            n == entities@.len(),
            forall|k: int| 0 <= k < i ==> entities@[k] != entity,
        decreases n - i,
    {
        if entities[i] == entity {
            return Some(i);
        }
        i = i + 1;
    }
    None
}

/// A component just added for an entity not already present is exactly
/// what a subsequent read of that component type observes for it.
pub proof fn lemma_added_component_observed<C>(
    entities: Seq<Entity>,
    components: Seq<C>,
    e: Entity,
    v: C,
)
    requires
        entities.len() == components.len(),
        !has_entity_in(entities, e),
    ensures
        component_for(entities.push(e), components.push(v), e) == Some(v),
{
    let ents = entities.push(e);
    let comps = components.push(v);
    assert(forall|k: int| 0 <= k < entities.len() ==> ents[k] != e);
    lemma_component_for_at(ents, comps, e, entities.len() as int);
}

/// What an update cycle hands its systems is the stored data itself:
/// whenever a tick ran over a storage, the first registered system's
/// pass went over exactly the column the storage held when the tick
/// began — so at each record it was invoked with that record's entity
/// and that record's stored component value. Together with
/// `lemma_added_component_observed`, a system registered for a type
/// observes exactly the value just added for an entity.
pub proof fn lemma_first_system_observes_stored_column<C, S: System<C>>(
    systems: Seq<S>,
    entities: Seq<Entity>,
    pre: Seq<C>,
    game_pre: GameHandle<C, S>,
    post: Seq<C>,
    game_post: GameHandle<C, S>,
)
    requires
        run_all(systems, entities, pre, game_pre, post, game_post),
        systems.len() > 0,
    ensures
        exists|mid: Seq<C>, game_mid: GameHandle<C, S>|
            #[trigger] run_pass(systems.first(), entities, pre, game_pre, mid, game_mid),
{
    let (columns, games) = choose|columns: Seq<Seq<C>>, games: Seq<GameHandle<C, S>>|
        #[trigger] tick_steps(systems, entities, columns, games) && columns.first() == pre
            && columns.last() == post && games.first() == game_pre && games.last() == game_post;
    assert(run_pass(systems[0], entities, columns[0], games[0], columns[1], games[1]));
    assert(run_pass(systems.first(), entities, pre, game_pre, columns[1], games[1]));
}

/// Unordered removal clears the entity: when `e` held at most one
/// record, no record for `e` remains after the record at `j` — `e`'s
/// record — is swap-removed, however many other entities share the
/// storage.
pub proof fn lemma_removed_entity_not_observed(entities: Seq<Entity>, e: Entity, j: int)
    requires
        at_most_once(entities, e),
        0 <= j < entities.len(),
        entities[j] == e,
    ensures
        !has_entity_in(swap_removed(entities, j), e),
{
    let after = swap_removed(entities, j);
    assert forall|i: int| 0 <= i < after.len() implies after[i] != e by {
        if i == j {
            assert(after[i] == entities[entities.len() - 1]);
        }
    }
}

/// Whether some storage is registered under `key`.
pub open spec fn has_key(keys: Seq<u64>, key: u64) -> bool {
    exists|i: int| 0 <= i < keys.len() && keys[i] == key
}

/// The allocator's invariant: every issued identifier lies below the
/// next one to issue, and no identifier was issued twice.
pub open spec fn allocator_ok(ids: Seq<Entity>, next: u64) -> bool {
    &&& forall|i: int| 0 <= i < ids.len() ==> (#[trigger] ids[i]).id() < next
    &&& forall|i: int, j: int|
        0 <= i < ids.len() && 0 <= j < ids.len() && i != j ==> ids[i].id() != ids[j].id()
}

/// Entity identifiers are strictly increasing and never repeat: while
/// the identifier space is not exhausted, the identifier issued next
/// exceeds every identifier issued before within this allocator's
/// lifetime, and registering it keeps the allocator's invariant.
pub proof fn lemma_entity_allocation_fresh(ids: Seq<Entity>, next: u64, e: Entity)
    requires
        allocator_ok(ids, next),
        next < u64::MAX,
        e.id() == next,
    ensures
        forall|i: int| 0 <= i < ids.len() ==> (#[trigger] ids[i]).id() < e.id(),
        !has_entity_in(ids, e),
        allocator_ok(ids.push(e), (next + 1) as u64),
{
    let grown = ids.push(e);
    assert forall|i: int, j: int|
        0 <= i < grown.len() && 0 <= j < grown.len() && i != j implies grown[i].id()
        != grown[j].id() by {
        if i == ids.len() as int {
            assert(grown[j].id() < next);
        } else if j == ids.len() as int {
            assert(grown[i].id() < next);
        }
    }
}

/// One storage with the key that names its component type.
struct StorageEntry<C, S> {
    key: u64,
    storage: WorldStorage<C, S>,
}

/// The outcome of one tick that the world hands back to its driver: the
/// requests the systems sent and whether one of them requested shutdown.
pub struct TickOutput {
    pub requests: Vec<GameRequest>,
    pub stop_requested: bool,
}

/// The world: the entity allocator, one storage per registered
/// component-type key, and the draw commands collected for the next
/// publish. Owned by the simulation thread alone; nothing here is
/// shared across threads.
pub struct World<C, S> {
    next_entity: u64,
    entities: Vec<Entity>,
    storages: Vec<StorageEntry<C, S>>,
    draw_data: Vec<DrawData>,
}

impl<C, S> World<C, S> {
    /// The identifier the next `add_entity` call will issue.
    pub closed spec fn next_id(&self) -> u64 {
        self.next_entity
    }

    /// Every live entity, in allocation order.
    pub closed spec fn entity_ids(&self) -> Seq<Entity> {
        self.entities@
    }

    /// The registered component-type keys, in registration order.
    pub closed spec fn storage_keys(&self) -> Seq<u64> {
        Seq::new(self.storages@.len(), |i: int| self.storages@[i].key)
    }

    /// The storages, aligned with `storage_keys`.
    pub closed spec fn storage_seq(&self) -> Seq<WorldStorage<C, S>> {
        Seq::new(self.storages@.len(), |i: int| self.storages@[i].storage)
    }

    /// The draw commands collected since the last publish.
    pub closed spec fn pending_draws(&self) -> Seq<DrawData> {
        self.draw_data@
    }

    /// A world is well formed when its allocator has never repeated an
    /// identifier, each component-type key names exactly one storage,
    /// and every storage keeps its columns aligned.
    pub open spec fn inv(&self) -> bool {
        &&& allocator_ok(self.entity_ids(), self.next_id())
        &&& forall|i: int, j: int|
            0 <= i < self.storage_keys().len() && 0 <= j < self.storage_keys().len() && i != j
                ==> self.storage_keys()[i] != self.storage_keys()[j]
        &&& forall|i: int| 0 <= i < self.storage_seq().len() ==> (#[trigger] self.storage_seq()[i]).inv()
    }

    pub fn new() -> (r: World<C, S>)
        ensures
            r.inv(),
            r.next_id() == 0,
            r.entity_ids() == Seq::<Entity>::empty(),
            r.storage_keys() == Seq::<u64>::empty(),
            r.pending_draws() == Seq::<DrawData>::empty(),
    {
        let r = World {
            next_entity: 0,
            entities: Vec::new(),
            storages: Vec::new(),
            draw_data: Vec::new(),
        };
        proof {
            assert(r.storage_keys() =~= Seq::<u64>::empty());
        }
        r
    }

    /// Spawn a new entity: the returned identifier exceeds every
    /// identifier this world has issued before and is never issued
    /// again. Once the 64-bit space is exhausted the allocator stays put
    /// and hands out the final identifier without registering it.
    pub fn add_entity(&mut self) -> (r: Entity)
        requires
            old(self).inv(),
        ensures
            final(self).inv(),
            final(self).storage_keys() == old(self).storage_keys(),
            final(self).storage_seq() == old(self).storage_seq(),
            final(self).pending_draws() == old(self).pending_draws(),
            old(self).next_id() < u64::MAX ==> (r.id() == old(self).next_id()
                && final(self).next_id() == old(self).next_id() + 1
                && final(self).entity_ids() == old(self).entity_ids().push(r)
                && !has_entity_in(old(self).entity_ids(), r)
                && (forall|i: int|
                    0 <= i < old(self).entity_ids().len()
                        ==> (#[trigger] old(self).entity_ids()[i]).id() < r.id())),
            old(self).next_id() == u64::MAX ==> (r.id() == u64::MAX
                && final(self).next_id() == old(self).next_id()
                && final(self).entity_ids() == old(self).entity_ids()),
    {
        if self.next_entity < u64::MAX {
            let entity = Entity(self.next_entity);
            proof {
                lemma_entity_allocation_fresh(self.entities@, self.next_entity, entity);
            }
            self.next_entity = self.next_entity + 1;
            self.entities.push(entity);
            proof {
                assert(self.storage_keys() =~= old(self).storage_keys());
                assert(self.storage_seq() =~= old(self).storage_seq());
            }
            entity
        } else {
            Entity(u64::MAX)
        }
    }

    /// Register a system against the storage for `key`, creating the
    /// storage on first use; systems of one storage run in registration
    /// order.
    pub fn add_system(&mut self, key: u64, system: S)
        requires
            old(self).inv(),
        ensures
            final(self).inv(),
            final(self).next_id() == old(self).next_id(),
            final(self).entity_ids() == old(self).entity_ids(),
            final(self).pending_draws() == old(self).pending_draws(),
            old(self).storage_keys().is_prefix_of(final(self).storage_keys()),
            has_key(old(self).storage_keys(), key) ==> final(self).storage_keys() == old(self).storage_keys(),
            !has_key(old(self).storage_keys(), key) ==> final(self).storage_keys() == old(self).storage_keys().push(key),
            forall|i: int|
                0 <= i < old(self).storage_seq().len() && old(self).storage_keys()[i] != key
                    ==> final(self).storage_seq()[i] == old(self).storage_seq()[i],
            forall|i: int|
                0 <= i < old(self).storage_seq().len() && old(self).storage_keys()[i] == key ==> (
                (#[trigger] final(self).storage_seq()[i]).system_seq() == old(self).storage_seq()[i].system_seq().push(system)
                    && final(self).storage_seq()[i].entity_seq() == old(self).storage_seq()[i].entity_seq() && final(self).storage_seq()[i].component_seq()
                    == old(self).storage_seq()[i].component_seq()),
            !has_key(old(self).storage_keys(), key) ==> (final(self).storage_seq().last().system_seq()
                == Seq::<S>::empty().push(system)
                && final(self).storage_seq().last().entity_seq() == Seq::<Entity>::empty()
                && final(self).storage_seq().last().component_seq() == Seq::<C>::empty()),
    {
        match find_key(&self.storages, key) {
            Some(i) => {
                proof {
                    assert(self.storage_keys()[i as int] == key);
                    assert(self.storage_seq()[i as int] == self.storages@[i as int].storage);
                    assert(self.storage_seq()[i as int].inv());
                }
                let entry = &mut self.storages[i];
                entry.storage.add_system(system);
                proof {
                    assert(forall|j: int|
                        0 <= j < old(self).storages@.len() && j != i ==> self.storages@[j] == old(self).storages@[j]);
                    assert(self.storage_keys() =~= old(self).storage_keys());
                    lemma_seq_prefix_refl(old(self).storage_keys());
                    assert(forall|j: int|
                        0 <= j < old(self).storage_seq().len() && j != i
                            ==> #[trigger] self.storage_seq()[j] == old(self).storage_seq()[j]);
                    assert(self.storage_seq()[i as int].system_seq() == old(self).storage_seq()[i as int].system_seq().push(system));
                }
            },
            None => {
                let mut storage = WorldStorage::new();
                storage.add_system(system);
                self.storages.push(StorageEntry { key, storage });
                proof {
                    assert(self.storage_keys() =~= old(self).storage_keys().push(key));
                    assert(forall|j: int|
                        0 <= j < old(self).storage_seq().len() ==> #[trigger] self.storage_seq()[j]
                            == old(self).storage_seq()[j]);
                    assert(self.storage_seq().last() == storage);
                    lemma_seq_prefix_push(old(self).storage_keys(), key);
                }
            },
        }
    }

    /// Attach a component to an entity in the storage for `key`,
    /// creating the storage on first use. The record is appended; no
    /// uniqueness check is made here.
    pub fn add_component(&mut self, key: u64, entity: Entity, component: C)
        requires
            old(self).inv(),
        ensures
            final(self).inv(),
            final(self).next_id() == old(self).next_id(),
            final(self).entity_ids() == old(self).entity_ids(),
            final(self).pending_draws() == old(self).pending_draws(),
            old(self).storage_keys().is_prefix_of(final(self).storage_keys()),
            has_key(old(self).storage_keys(), key) ==> final(self).storage_keys() == old(self).storage_keys(),
            !has_key(old(self).storage_keys(), key) ==> final(self).storage_keys() == old(self).storage_keys().push(key),
            forall|i: int|
                0 <= i < old(self).storage_seq().len() && old(self).storage_keys()[i] != key
                    ==> final(self).storage_seq()[i] == old(self).storage_seq()[i],
            forall|i: int|
                0 <= i < old(self).storage_seq().len() && old(self).storage_keys()[i] == key ==> (
                (#[trigger] final(self).storage_seq()[i]).entity_seq() == old(self).storage_seq()[i].entity_seq().push(entity)
                    && final(self).storage_seq()[i].component_seq() == old(self).storage_seq()[i].component_seq().push(component)
                    && final(self).storage_seq()[i].system_seq() == old(self).storage_seq()[i].system_seq()),
            !has_key(old(self).storage_keys(), key) ==> (final(self).storage_seq().last().entity_seq()
                == Seq::<Entity>::empty().push(entity)
                && final(self).storage_seq().last().component_seq() == Seq::<C>::empty().push(
                component,
            ) && final(self).storage_seq().last().system_seq() == Seq::<S>::empty()),
    {
        match find_key(&self.storages, key) {
            Some(i) => {
                proof {
                    assert(self.storage_keys()[i as int] == key);
                    assert(self.storage_seq()[i as int] == self.storages@[i as int].storage);
                    assert(self.storage_seq()[i as int].inv());
                }
                let entry = &mut self.storages[i];
                entry.storage.add_component(entity, component);
                proof {
                    assert(forall|j: int|
                        0 <= j < old(self).storages@.len() && j != i ==> self.storages@[j] == old(self).storages@[j]);
                    assert(self.storage_keys() =~= old(self).storage_keys());
                    lemma_seq_prefix_refl(old(self).storage_keys());
                    assert(forall|j: int|
                        0 <= j < old(self).storage_seq().len() && j != i
                            ==> #[trigger] self.storage_seq()[j] == old(self).storage_seq()[j]);
                    assert(self.storage_seq()[i as int].entity_seq() == old(self).storage_seq()[i as int].entity_seq().push(entity));
                }
            },
            None => {
                let mut storage = WorldStorage::new();
                storage.add_component(entity, component);
                self.storages.push(StorageEntry { key, storage });
                proof {
                    assert(self.storage_keys() =~= old(self).storage_keys().push(key));
                    assert(forall|j: int|
                        0 <= j < old(self).storage_seq().len() ==> #[trigger] self.storage_seq()[j]
                            == old(self).storage_seq()[j]);
                    assert(self.storage_seq().last() == storage);
                    lemma_seq_prefix_push(old(self).storage_keys(), key);
                }
            },
        }
    }

    /// Read the component recorded for `entity` under the component-type
    /// key `key`. Writes create storages lazily, but a read of a key
    /// that was never registered is reported as an error, as the caller
    /// may have confused its keys; the error is recoverable and the
    /// simulation may continue.
    pub fn get_component(&self, key: u64, entity: Entity) -> (r: Result<Option<&C>, String>)
        requires
            self.inv(),
        ensures
            r is Ok <==> has_key(self.storage_keys(), key),
            r is Err ==> r->Err_0@ == "component type not registered"@,
            r is Ok ==> (forall|i: int|
                0 <= i < self.storage_seq().len() && self.storage_keys()[i] == key ==> (match (
                r->Ok_0) {
                    Some(c) => has_entity_in((#[trigger] self.storage_seq()[i]).entity_seq(), entity)
                        && component_for(
                        self.storage_seq()[i].entity_seq(),
                        self.storage_seq()[i].component_seq(),
                        entity,
                    ) == Some(*c),
                    None => !has_entity_in(self.storage_seq()[i].entity_seq(), entity),
                })),
    {
        match find_key(&self.storages, key) {
            Some(i) => {
                proof {
                    assert(self.storage_keys()[i as int] == key);
                    assert(self.storage_seq()[i as int] == self.storages@[i as int].storage);
                    assert(self.storage_seq()[i as int].inv());
                    assert(forall|j: int|
                        0 <= j < self.storage_keys().len() && self.storage_keys()[j] == key ==> j
                            == i);
                }
                let entry = &self.storages[i];
                Ok(entry.storage.get(entity))
            },
            None => {
                proof {
                    assert(forall|j: int|
                        0 <= j < self.storage_keys().len() ==> self.storage_keys()[j] != key);
                }
                Err(String::from_str("component type not registered"))
            },
        }
    }

    /// The draw commands collected since the last publish, handing them
    /// over and leaving the buffer empty.
    pub fn take_draw_data(&mut self) -> (r: Vec<DrawData>)
        requires
            old(self).inv(),
        ensures
            final(self).inv(),
            r@ == old(self).pending_draws(),
            final(self).pending_draws() == Seq::<DrawData>::empty(),
            final(self).next_id() == old(self).next_id(),
            final(self).entity_ids() == old(self).entity_ids(),
            final(self).storage_keys() == old(self).storage_keys(),
            final(self).storage_seq() == old(self).storage_seq(),
    {
        let mut taken: Vec<DrawData> = Vec::new();
        core::mem::swap(&mut self.draw_data, &mut taken);
        proof {
            assert(final(self).storage_keys() =~= old(self).storage_keys());
            assert(final(self).storage_seq() =~= old(self).storage_seq());
        }
        taken
    }
}

/// A per-tick handle as `begin_tick` hands it out, before any system
/// has touched it: seeded with the world's allocator position and the
/// tick's drained events, every buffer empty, no shutdown requested.
pub open spec fn handle_begun<C, S>(
    g: GameHandle<C, S>,
    next_id: u64,
    events: Seq<EventData>,
) -> bool {
    &&& g.inv()
    &&& g.next_id() == next_id
    &&& g.base_id() == next_id
    &&& g.fresh_entities() == Seq::<Entity>::empty()
    &&& g.pending_component_seq() == Seq::<PendingComponent<C>>::empty()
    &&& g.pending_system_seq() == Seq::<PendingSystem<S>>::empty()
    &&& g.draws() == Seq::<DrawData>::empty()
    &&& g.sent_requests() == Seq::<GameRequest>::empty()
    &&& !g.stop_was_requested()
    &&& g.tick_events() == events
}

/// One storage updated for one tick: entities and systems kept, the
/// component column rewritten by the chain of this storage's system
/// invocations, the handle passed through them.
pub open spec fn storage_updated<C, S: System<C>>(
    pre: WorldStorage<C, S>,
    game_pre: GameHandle<C, S>,
    post: WorldStorage<C, S>,
    game_post: GameHandle<C, S>,
) -> bool {
    &&& post.entity_seq() == pre.entity_seq()
    &&& post.system_seq() == pre.system_seq()
    &&& game_post.inv()
    &&& game_post.extends(game_pre)
    &&& run_all(
        pre.system_seq(),
        pre.entity_seq(),
        pre.component_seq(),
        game_pre,
        post.component_seq(),
        game_post,
    )
}

/// Every storage updated exactly once, in key-registration order, with
/// one tick handle threaded from each storage's update into the next:
/// `games` holds the handle before each update and after the last one.
pub open spec fn storages_ran<C, S: System<C>>(
    pre: Seq<WorldStorage<C, S>>,
    post: Seq<WorldStorage<C, S>>,
    games: Seq<GameHandle<C, S>>,
) -> bool {
    &&& post.len() == pre.len()
    &&& games.len() == pre.len() + 1
    &&& forall|k: int|
        #![trigger post[k]]
        0 <= k < pre.len() ==> storage_updated(pre[k], games[k], post[k], games[k + 1])
}

/// One buffered component addition applied to the keyed storages: the
/// record is appended to the storage registered under its key, or a
/// fresh storage holding only that record is registered when the key
/// was unknown. Everything else stays.
pub open spec fn component_applied<C, S>(
    keys_pre: Seq<u64>,
    storages_pre: Seq<WorldStorage<C, S>>,
    pending: PendingComponent<C>,
    keys_post: Seq<u64>,
    storages_post: Seq<WorldStorage<C, S>>,
) -> bool {
    if has_key(keys_pre, pending.key) {
        &&& keys_post == keys_pre
        &&& storages_post.len() == storages_pre.len()
        &&& forall|i: int|
            0 <= i < storages_pre.len() && keys_pre[i] != pending.key
                ==> storages_post[i] == storages_pre[i]
        &&& forall|i: int|
            0 <= i < storages_pre.len() && keys_pre[i] == pending.key ==> ((
            #[trigger] storages_post[i]).entity_seq() == storages_pre[i].entity_seq().push(
                pending.entity,
            ) && storages_post[i].component_seq() == storages_pre[i].component_seq().push(
                pending.component,
            ) && storages_post[i].system_seq() == storages_pre[i].system_seq())
    } else {
        &&& keys_post == keys_pre.push(pending.key)
        &&& storages_post.len() == storages_pre.len() + 1
        &&& forall|i: int|
            0 <= i < storages_pre.len() ==> storages_post[i] == storages_pre[i]
        &&& storages_post.last().entity_seq() == Seq::<Entity>::empty().push(pending.entity)
        &&& storages_post.last().component_seq() == Seq::<C>::empty().push(pending.component)
        &&& storages_post.last().system_seq() == Seq::<S>::empty()
    }
}

/// The buffered component additions applied in order: `keys` and
/// `storages` hold the keyed storages before each application and
/// after the last one.
pub open spec fn components_applied<C, S>(
    pending: Seq<PendingComponent<C>>,
    keys: Seq<Seq<u64>>,
    storages: Seq<Seq<WorldStorage<C, S>>>,
) -> bool {
    &&& keys.len() == pending.len() + 1
    &&& storages.len() == pending.len() + 1
    &&& forall|t: int|
        #![trigger pending[t]]
        0 <= t < pending.len() ==> component_applied(
            keys[t],
            storages[t],
            pending[t],
            keys[t + 1],
            storages[t + 1],
        )
}

/// One buffered system registration applied to the keyed storages,
/// with the same lazy creation as a component addition.
pub open spec fn system_applied<C, S>(
    keys_pre: Seq<u64>,
    storages_pre: Seq<WorldStorage<C, S>>,
    pending: PendingSystem<S>,
    keys_post: Seq<u64>,
    storages_post: Seq<WorldStorage<C, S>>,
) -> bool {
    if has_key(keys_pre, pending.key) {
        &&& keys_post == keys_pre
        &&& storages_post.len() == storages_pre.len()
        &&& forall|i: int|
            0 <= i < storages_pre.len() && keys_pre[i] != pending.key
                ==> storages_post[i] == storages_pre[i]
        &&& forall|i: int|
            0 <= i < storages_pre.len() && keys_pre[i] == pending.key ==> ((
            #[trigger] storages_post[i]).system_seq() == storages_pre[i].system_seq().push(
                pending.system,
            ) && storages_post[i].entity_seq() == storages_pre[i].entity_seq()
                && storages_post[i].component_seq() == storages_pre[i].component_seq())
    } else {
        &&& keys_post == keys_pre.push(pending.key)
        &&& storages_post.len() == storages_pre.len() + 1
        &&& forall|i: int|
            0 <= i < storages_pre.len() ==> storages_post[i] == storages_pre[i]
        &&& storages_post.last().system_seq() == Seq::<S>::empty().push(pending.system)
        &&& storages_post.last().entity_seq() == Seq::<Entity>::empty()
        &&& storages_post.last().component_seq() == Seq::<C>::empty()
    }
}

/// The buffered system registrations applied in order.
pub open spec fn systems_applied<C, S>(
    pending: Seq<PendingSystem<S>>,
    keys: Seq<Seq<u64>>,
    storages: Seq<Seq<WorldStorage<C, S>>>,
) -> bool {
    &&& keys.len() == pending.len() + 1
    &&& storages.len() == pending.len() + 1
    &&& forall|t: int|
        #![trigger pending[t]]
        0 <= t < pending.len() ==> system_applied(
            keys[t],
            storages[t],
            pending[t],
            keys[t + 1],
            storages[t + 1],
        )
}

/// How one tick relates a world before and after it, witnessed by the
/// tick's handle chain and the intermediate storage states: a fresh
/// handle is begun over the world's allocator and the drained events;
/// every storage runs its systems with it; the additions buffered in
/// the final handle — fresh entities, components, systems — are then
/// applied, becoming visible to subsequent ticks; the tick's draw
/// commands join the pending batch; and the output is exactly what the
/// systems sent and asked.
pub open spec fn tick_relation<C, S: System<C>>(
    pre: World<C, S>,
    events: Seq<EventData>,
    post: World<C, S>,
    out_requests: Seq<GameRequest>,
    out_stop: bool,
    games: Seq<GameHandle<C, S>>,
    storages_run: Seq<WorldStorage<C, S>>,
    comp_keys: Seq<Seq<u64>>,
    comp_storages: Seq<Seq<WorldStorage<C, S>>>,
    sys_keys: Seq<Seq<u64>>,
    sys_storages: Seq<Seq<WorldStorage<C, S>>>,
) -> bool {
    let begun = games.first();
    let ended = games.last();
    &&& handle_begun(begun, pre.next_id(), events)
    &&& storages_ran(pre.storage_seq(), storages_run, games)
    &&& ended.inv()
    &&& ended.extends(begun)
    &&& components_applied(ended.pending_component_seq(), comp_keys, comp_storages)
    &&& comp_keys.first() == pre.storage_keys()
    &&& comp_storages.first() == storages_run
    &&& systems_applied(ended.pending_system_seq(), sys_keys, sys_storages)
    &&& sys_keys.first() == comp_keys.last()
    &&& sys_storages.first() == comp_storages.last()
    &&& post.storage_keys() == sys_keys.last()
    &&& post.storage_seq() == sys_storages.last()
    &&& post.entity_ids() == pre.entity_ids() + ended.fresh_entities()
    &&& post.next_id() == ended.next_id()
    &&& post.pending_draws() == pre.pending_draws() + ended.draws()
    &&& out_requests == ended.sent_requests()
    &&& out_stop == ended.stop_was_requested()
}

impl<C, S: System<C>> World<C, S> {
    /// Run one full tick: every storage's systems run over that
    /// storage's records, in key-registration order across storages,
    /// and the mutations the systems requested through the handle —
    /// entities, components, systems — are applied afterwards, becoming
    /// visible to subsequent ticks. Draw commands emitted this tick are
    /// collected for the next publish; requests and a shutdown wish are
    /// handed back to the driver. The `tick_relation` clause states the
    /// whole of it.
    pub fn update(&mut self, events: Vec<EventData>) -> (out: TickOutput)
        requires
            old(self).inv(),
        ensures
            final(self).inv(),
            old(self).next_id() <= final(self).next_id(),
            old(self).entity_ids().is_prefix_of(final(self).entity_ids()),
            old(self).storage_keys().is_prefix_of(final(self).storage_keys()),
            old(self).pending_draws().is_prefix_of(final(self).pending_draws()),
            exists|
                games: Seq<GameHandle<C, S>>,
                storages_run: Seq<WorldStorage<C, S>>,
                comp_keys: Seq<Seq<u64>>,
                comp_storages: Seq<Seq<WorldStorage<C, S>>>,
                sys_keys: Seq<Seq<u64>>,
                sys_storages: Seq<Seq<WorldStorage<C, S>>>,
            |
                #[trigger] tick_relation(
                    *old(self),
                    events@,
                    *final(self),
                    out.requests@,
                    out.stop_requested,
                    games,
                    storages_run,
                    comp_keys,
                    comp_storages,
                    sys_keys,
                    sys_storages,
                ),
    {
        let ghost orig = *old(self);
        let ghost events_view = events@;
        let mut game: GameHandle<C, S> = GameHandle::begin_tick(self.next_entity, events);
        let ghost game0 = game;
        let ghost mut tick_games = Seq::<GameHandle<C, S>>::empty().push(game0);
        proof {
            game0.lemma_extends_refl();
            assert(handle_begun(game0, orig.next_id(), events_view));
        }
        let num_storages = self.storages.len();
        let mut idx: usize = 0;
        while idx < num_storages
            invariant
                idx <= num_storages,
                num_storages == self.storages@.len(),
                self.inv(),
                self.next_id() == orig.next_id(),
                self.entity_ids() == orig.entity_ids(),
                self.storage_keys() == orig.storage_keys(),
                self.pending_draws() == orig.pending_draws(),
                game.inv(),
                game.extends(game0),
                game0.base_id() == orig.next_id(),
                game0.next_id() == orig.next_id(),
                tick_games.len() == idx + 1,
                tick_games.first() == game0,
                tick_games.last() == game,
                forall|j: int|
                    idx <= j < num_storages ==> self.storage_seq()[j] == orig.storage_seq()[j],
                forall|k: int|
                    #![trigger tick_games[k]]
                    0 <= k < idx ==> storage_updated(
                        orig.storage_seq()[k],
                        tick_games[k],
                        self.storage_seq()[k],
                        tick_games[k + 1],
                    ),
            decreases num_storages - idx,
        {
            let ghost pre_self = *self;
            let ghost pre_storages = self.storages@;
            let ghost pre_game = game;
            proof {
                assert(self.storage_seq()[idx as int] == self.storages@[idx as int].storage);
                assert(self.storage_seq()[idx as int].inv());
            }
            let mut entry = self.storages.remove(idx);
            entry.storage.update(&mut game);
            self.storages.insert(idx, entry);
            proof {
                game.lemma_extends_trans(pre_game, game0);
                tick_games = tick_games.push(game);
                assert(self.storages@ =~= pre_storages.update(idx as int, self.storages@[idx as int]));
                assert(self.storages@[idx as int].key == pre_storages[idx as int].key);
                assert(self.storage_keys() =~= orig.storage_keys());
                assert forall|j: int| 0 <= j < self.storage_seq().len() implies (
                #[trigger] self.storage_seq()[j]).inv() by {
                    assert(self.storage_seq()[j] == self.storages@[j].storage);
                    if j != idx {
                        assert(self.storages@[j] == pre_storages[j]);
                        assert(pre_self.storage_seq()[j] == pre_storages[j].storage);
                        assert(pre_self.storage_seq()[j].inv());
                    }
                }
                assert(storage_updated(
                    orig.storage_seq()[idx as int],
                    pre_game,
                    self.storage_seq()[idx as int],
                    game,
                ));
                assert forall|k: int| 0 <= k < idx + 1 implies storage_updated(
                    orig.storage_seq()[k],
                    #[trigger] tick_games[k],
                    self.storage_seq()[k],
                    tick_games[k + 1],
                ) by {
                    if k < idx {
                        assert(self.storage_seq()[k] == pre_self.storage_seq()[k]);
                        assert(storage_updated(
                            orig.storage_seq()[k],
                            tick_games.drop_last()[k],
                            pre_self.storage_seq()[k],
                            tick_games.drop_last()[k + 1],
                        ));
                    }
                }
            }
            idx = idx + 1;
        }
        let ghost after_loop = *self;
        let ghost storages_run = after_loop.storage_seq();
        let ghost g_end = game;
        proof {
            assert(storages_ran(orig.storage_seq(), storages_run, tick_games));
        }
        let GameHandle {
            next_entity: merged_next,
            base: _,
            new_entities: mut fresh_entities,
            pending_components: mut pending_components,
            pending_systems: mut pending_systems,
            draw_data: mut tick_draws,
            requests,
            stop_requested,
            events: _,
        } = game;
        let ghost fresh = fresh_entities@;
        let ghost all_pending = pending_components@;
        let ghost all_sys = pending_systems@;
        proof {
            assert(g_end.next_id() == merged_next);
            assert(g_end.fresh_entities() == fresh);
            assert(g_end.pending_component_seq() == all_pending);
            assert(g_end.pending_system_seq() == all_sys);
            assert(g_end.draws() == tick_draws@);
            assert(g_end.sent_requests() == requests@);
            assert(g_end.stop_was_requested() == stop_requested);
        }
        self.next_entity = merged_next;
        self.entities.append(&mut fresh_entities);
        let ghost merged_entities = self.entities@;
        proof {
            assert(self.entity_ids() == orig.entity_ids() + fresh);
            lemma_seq_prefix_concat(orig.entity_ids(), fresh);
            assert forall|i: int, j: int|
                0 <= i < merged_entities.len() && 0 <= j < merged_entities.len() && i != j
                implies merged_entities[i].id() != merged_entities[j].id() by {
                let split = orig.entity_ids().len() as int;
                if i < split && j < split {
                    assert(orig.entity_ids()[i].id() != orig.entity_ids()[j].id());
                } else if i >= split && j >= split {
                    if i < j {
                        assert(fresh[i - split].id() < fresh[j - split].id());
                    } else {
                        assert(fresh[j - split].id() < fresh[i - split].id());
                    }
                } else if i < split {
                    assert(orig.entity_ids()[i].id() < game0.base_id());
                    assert(fresh[j - split].id() >= game0.base_id());
                } else {
                    assert(orig.entity_ids()[j].id() < game0.base_id());
                    assert(fresh[i - split].id() >= game0.base_id());
                }
            }
            assert forall|i: int| 0 <= i < merged_entities.len() implies (
            #[trigger] merged_entities[i]).id() < merged_next by {
                let split = orig.entity_ids().len() as int;
                if i < split {
                    assert(orig.entity_ids()[i].id() < game0.base_id());
                }
            }
            assert(allocator_ok(self.entity_ids(), self.next_id()));
            assert(self.storage_keys() =~= orig.storage_keys());
            assert(self.storage_seq() =~= after_loop.storage_seq());
            lemma_seq_prefix_refl(orig.storage_keys());
        }
        let ghost mut comp_keys = Seq::<Seq<u64>>::empty().push(self.storage_keys());
        let ghost mut comp_storages = Seq::<Seq<WorldStorage<C, S>>>::empty().push(
            self.storage_seq(),
        );
        while pending_components.len() > 0
            invariant
                self.inv(),
                self.next_id() == merged_next,
                self.entity_ids() == merged_entities,
                self.pending_draws() == orig.pending_draws(),
                orig.storage_keys().is_prefix_of(self.storage_keys()),
                comp_keys.len() >= 1,
                comp_keys.len() == all_pending.len() - pending_components@.len() + 1,
                comp_storages.len() == comp_keys.len(),
                comp_keys.first() == orig.storage_keys(),
                comp_storages.first() == storages_run,
                comp_keys.last() == self.storage_keys(),
                comp_storages.last() == self.storage_seq(),
                pending_components@ == all_pending.skip(comp_keys.len() as int - 1),
                forall|t: int|
                    #![trigger all_pending[t]]
                    0 <= t < comp_keys.len() - 1 ==> component_applied(
                        comp_keys[t],
                        comp_storages[t],
                        all_pending[t],
                        comp_keys[t + 1],
                        comp_storages[t + 1],
                    ),
            decreases pending_components@.len(),
        {
            let ghost done = comp_keys.len() as int - 1;
            let ghost pre_keys = self.storage_keys();
            let ghost pre_storages = self.storage_seq();
            let pending = pending_components.remove(0);
            proof {
                assert(pending == all_pending[done]);
                assert(pending_components@ =~= all_pending.skip(done + 1));
            }
            self.add_component(pending.key, pending.entity, pending.component);
            proof {
                if has_key(pre_keys, pending.key) {
                    lemma_seq_prefix_refl(pre_keys);
                } else {
                    lemma_seq_prefix_push(pre_keys, pending.key);
                }
                lemma_seq_prefix_trans(orig.storage_keys(), pre_keys, self.storage_keys());
                assert(component_applied(
                    pre_keys,
                    pre_storages,
                    all_pending[done],
                    self.storage_keys(),
                    self.storage_seq(),
                ));
                comp_keys = comp_keys.push(self.storage_keys());
                comp_storages = comp_storages.push(self.storage_seq());
                assert forall|t: int| 0 <= t < comp_keys.len() - 1 implies component_applied(
                    comp_keys[t],
                    comp_storages[t],
                    #[trigger] all_pending[t],
                    comp_keys[t + 1],
                    comp_storages[t + 1],
                ) by {
                    if t < done {
                        assert(comp_keys[t] == comp_keys.drop_last()[t]);
                        assert(comp_storages[t] == comp_storages.drop_last()[t]);
                        assert(comp_keys[t + 1] == comp_keys.drop_last()[t + 1]);
                        assert(comp_storages[t + 1] == comp_storages.drop_last()[t + 1]);
                    }
                }
            }
        }
        proof {
            assert(components_applied(all_pending, comp_keys, comp_storages));
        }
        let ghost mut sys_keys = Seq::<Seq<u64>>::empty().push(self.storage_keys());
        let ghost mut sys_storages = Seq::<Seq<WorldStorage<C, S>>>::empty().push(
            self.storage_seq(),
        );
        let ghost keys_after_components = self.storage_keys();
        let ghost storages_after_components = self.storage_seq();
        while pending_systems.len() > 0
            invariant
                self.inv(),
                self.next_id() == merged_next,
                self.entity_ids() == merged_entities,
                self.pending_draws() == orig.pending_draws(),
                orig.storage_keys().is_prefix_of(self.storage_keys()),
                sys_keys.len() >= 1,
                sys_keys.len() == all_sys.len() - pending_systems@.len() + 1,
                sys_storages.len() == sys_keys.len(),
                sys_keys.first() == keys_after_components,
                sys_storages.first() == storages_after_components,
                sys_keys.last() == self.storage_keys(),
                sys_storages.last() == self.storage_seq(),
                pending_systems@ == all_sys.skip(sys_keys.len() as int - 1),
                forall|t: int|
                    #![trigger all_sys[t]]
                    0 <= t < sys_keys.len() - 1 ==> system_applied(
                        sys_keys[t],
                        sys_storages[t],
                        all_sys[t],
                        sys_keys[t + 1],
                        sys_storages[t + 1],
                    ),
            decreases pending_systems@.len(),
        {
            let ghost done = sys_keys.len() as int - 1;
            let ghost pre_keys = self.storage_keys();
            let ghost pre_storages = self.storage_seq();
            let pending = pending_systems.remove(0);
            proof {
                assert(pending == all_sys[done]);
                assert(pending_systems@ =~= all_sys.skip(done + 1));
            }
            self.add_system(pending.key, pending.system);
            proof {
                if has_key(pre_keys, pending.key) {
                    lemma_seq_prefix_refl(pre_keys);
                } else {
                    lemma_seq_prefix_push(pre_keys, pending.key);
                }
                lemma_seq_prefix_trans(orig.storage_keys(), pre_keys, self.storage_keys());
                assert(system_applied(
                    pre_keys,
                    pre_storages,
                    all_sys[done],
                    self.storage_keys(),
                    self.storage_seq(),
                ));
                sys_keys = sys_keys.push(self.storage_keys());
                sys_storages = sys_storages.push(self.storage_seq());
                assert forall|t: int| 0 <= t < sys_keys.len() - 1 implies system_applied(
                    sys_keys[t],
                    sys_storages[t],
                    #[trigger] all_sys[t],
                    sys_keys[t + 1],
                    sys_storages[t + 1],
                ) by {
                    if t < done {
                        assert(sys_keys[t] == sys_keys.drop_last()[t]);
                        assert(sys_storages[t] == sys_storages.drop_last()[t]);
                        assert(sys_keys[t + 1] == sys_keys.drop_last()[t + 1]);
                        assert(sys_storages[t + 1] == sys_storages.drop_last()[t + 1]);
                    }
                }
            }
        }
        proof {
            assert(systems_applied(all_sys, sys_keys, sys_storages));
        }
        let ghost before_draws = *self;
        let ghost draws_emitted = tick_draws@;
        self.draw_data.append(&mut tick_draws);
        let out = TickOutput { requests, stop_requested };
        proof {
            assert(self.storage_keys() =~= before_draws.storage_keys());
            assert(self.storage_seq() =~= before_draws.storage_seq());
            assert(self.pending_draws() == orig.pending_draws() + draws_emitted);
            lemma_seq_prefix_concat(orig.pending_draws(), draws_emitted);
            lemma_seq_prefix_concat(orig.entity_ids(), fresh);
            assert(tick_relation(
                orig,
                events_view,
                *self,
                out.requests@,
                out.stop_requested,
                tick_games,
                storages_run,
                comp_keys,
                comp_storages,
                sys_keys,
                sys_storages,
            ));
        }
        out
    }
}

/// The fixed tick period for a given rate, in nanoseconds.
pub open spec fn tick_period_of(ticks_per_second: u16) -> u64 {
    1_000_000_000u64 / (ticks_per_second as u64)
}

/// The tick scheduler and the world it drives: runs one full world
/// update per tick against the shared state, and computes how long the
/// simulation thread should sleep out of each tick period. The sleep
/// itself, and the clock, belong to the host.
pub struct WorldModule<C, S> {
    ticks_per_second: u16,
    world: World<C, S>,
}

impl<C, S> WorldModule<C, S> {
    /// The configured tick rate, in ticks per second.
    pub closed spec fn tick_rate(&self) -> u16 {
        self.ticks_per_second
    }

    /// The world this module drives.
    pub closed spec fn world_view(&self) -> World<C, S> {
        self.world
    }

    /// A module is well formed when its tick rate passed validation and
    /// its world is well formed.
    pub open spec fn wf(&self) -> bool {
        self.tick_rate() > 0 && self.world_view().inv()
    }

    /// Validate the tick rate and build the module around a fresh
    /// world. A rate of zero cannot pace a loop and is rejected before
    /// the scheduler ever starts.
    pub fn new(ticks_per_second: u16) -> (r: Result<WorldModule<C, S>, String>)
        ensures
            r is Ok <==> ticks_per_second > 0,
            r is Ok ==> ((r->Ok_0).wf() && (r->Ok_0).tick_rate() == ticks_per_second && (
            r->Ok_0).world_view().next_id() == 0 && (r->Ok_0).world_view().entity_ids()
                == Seq::<Entity>::empty() && (r->Ok_0).world_view().storage_keys()
                == Seq::<u64>::empty() && (r->Ok_0).world_view().pending_draws()
                == Seq::<DrawData>::empty()),
            r is Err ==> (r->Err_0)@ == "tick rate must be positive"@,
    {
        if ticks_per_second == 0 {
            Err(String::from_str("tick rate must be positive"))
        } else {
            Ok(WorldModule { ticks_per_second, world: World::new() })
        }
    }

    /// Read access to the world, for the host to inspect between ticks.
    pub fn world(&self) -> (r: &World<C, S>)
        ensures
            *r == self.world_view(),
    {
        &self.world
    }

    /// Mutable access to the world, for the host to populate entities,
    /// components and systems before the loop starts.
    pub fn world_mut(&mut self) -> (r: &mut World<C, S>)
        ensures
            *r == old(self).world_view(),
            final(self).world_view() == *final(r),
            final(self).tick_rate() == old(self).tick_rate(),
    {
        &mut self.world
    }

    /// The fixed tick period, in nanoseconds.
    pub fn tick_period_nanos(&self) -> (r: u64)
        requires
            self.wf(),
        ensures
            r == tick_period_of(self.tick_rate()),
    {
        1_000_000_000u64 / (self.ticks_per_second as u64)
    }

    /// How long the simulation thread should sleep after a tick whose
    /// work took `elapsed_nanos`, measured from the start of the tick:
    /// the remainder of the fixed tick period, and zero when the tick
    /// overran it. Overrun is not an error; no catch-up is performed
    /// beyond not sleeping.
    pub fn sleep_nanos(&self, elapsed_nanos: u64) -> (r: u64)
        requires
            self.wf(),
        ensures
            elapsed_nanos < tick_period_of(self.tick_rate()) ==> r == tick_period_of(
                self.tick_rate(),
            ) - elapsed_nanos,
            elapsed_nanos >= tick_period_of(self.tick_rate()) ==> r == 0,
    {
        let period = 1_000_000_000u64 / (self.ticks_per_second as u64);
        if elapsed_nanos < period {
            period - elapsed_nanos
        } else {
            0
        }
    }
}

/// How the scheduler's tick relates the world and the shared state,
/// before and after: one full world tick runs over the drained events
/// (witnessed by `tick_relation`, with `world_mid` the world as that
/// tick leaves it); the tick's requests are appended to the shared
/// queue; a shutdown requested by a system makes the running flag
/// false, and otherwise the flag keeps its value — it is never raised;
/// and the whole of the tick's draw batch, the commands pending before
/// it included, is published wholesale and marked fresh, leaving the
/// world's own buffer empty for the next tick.
pub open spec fn scheduler_tick_relation<C, S: System<C>>(
    world_pre: World<C, S>,
    state_pre: SharedStateView,
    world_post: World<C, S>,
    state_post: SharedStateView,
    games: Seq<GameHandle<C, S>>,
    storages_run: Seq<WorldStorage<C, S>>,
    comp_keys: Seq<Seq<u64>>,
    comp_storages: Seq<Seq<WorldStorage<C, S>>>,
    sys_keys: Seq<Seq<u64>>,
    sys_storages: Seq<Seq<WorldStorage<C, S>>>,
    world_mid: World<C, S>,
) -> bool {
    let ended = games.last();
    &&& tick_relation(
        world_pre,
        state_pre.events,
        world_mid,
        ended.sent_requests(),
        ended.stop_was_requested(),
        games,
        storages_run,
        comp_keys,
        comp_storages,
        sys_keys,
        sys_storages,
    )
    &&& world_post.next_id() == world_mid.next_id()
    &&& world_post.entity_ids() == world_mid.entity_ids()
    &&& world_post.storage_keys() == world_mid.storage_keys()
    &&& world_post.storage_seq() == world_mid.storage_seq()
    &&& world_post.pending_draws() == Seq::<DrawData>::empty()
    &&& state_post.events == Seq::<EventData>::empty()
    &&& state_post.draw_data == world_mid.pending_draws()
    &&& state_post.new_draw_data
    &&& state_post.requests == state_pre.requests + ended.sent_requests()
    &&& state_post.running == (state_pre.running && !ended.stop_was_requested())
}

impl<C, S: System<C>> WorldModule<C, S> {
    /// Run exactly one tick: drain the input events, run one full world
    /// update over them, then publish the tick's outcome into the
    /// shared state — the tick's requests appended, a requested
    /// shutdown forwarded to the running flag, and exactly the tick's
    /// draw commands published as the new current batch. The
    /// `scheduler_tick_relation` clause states the whole of it.
    ///
    /// The shared state's running flag is never raised here: once false
    /// it stays false.
    pub fn update(&mut self, state: &mut SharedState)
        requires
            old(self).wf(),
        ensures
            final(self).wf(),
            final(self).tick_rate() == old(self).tick_rate(),
            final(state)@.events == Seq::<EventData>::empty(),
            final(state)@.new_draw_data,
            old(self).world_view().pending_draws().is_prefix_of(final(state)@.draw_data),
            final(self).world_view().pending_draws() == Seq::<DrawData>::empty(),
            old(state)@.requests.is_prefix_of(final(state)@.requests),
            final(state)@.running ==> old(state)@.running,
            old(self).world_view().next_id() <= final(self).world_view().next_id(),
            old(self).world_view().entity_ids().is_prefix_of(final(self).world_view().entity_ids()),
            old(self).world_view().storage_keys().is_prefix_of(
                final(self).world_view().storage_keys(),
            ),
            exists|
                games: Seq<GameHandle<C, S>>,
                storages_run: Seq<WorldStorage<C, S>>,
                comp_keys: Seq<Seq<u64>>,
                comp_storages: Seq<Seq<WorldStorage<C, S>>>,
                sys_keys: Seq<Seq<u64>>,
                sys_storages: Seq<Seq<WorldStorage<C, S>>>,
                world_mid: World<C, S>,
            |
                #[trigger] scheduler_tick_relation(
                    old(self).world_view(),
                    old(state)@,
                    final(self).world_view(),
                    final(state)@,
                    games,
                    storages_run,
                    comp_keys,
                    comp_storages,
                    sys_keys,
                    sys_storages,
                    world_mid,
                ),
    {
        let events = state.take_events();
        let out = self.world.update(events);
        let ghost world_mid = self.world;
        let ghost tick_requests = out.requests@;
        let ghost tick_stop = out.stop_requested;
        proof {
            lemma_seq_prefix_concat(old(state)@.requests, out.requests@);
        }
        let mut out_requests = out.requests;
        state.push_requests(&mut out_requests);
        if out.stop_requested {
            state.stop();
        }
        let draws = self.world.take_draw_data();
        state.set_draw_data(draws);
        proof {
            let (games, storages_run, comp_keys, comp_storages, sys_keys, sys_storages) = choose|
                games: Seq<GameHandle<C, S>>,
                storages_run: Seq<WorldStorage<C, S>>,
                comp_keys: Seq<Seq<u64>>,
                comp_storages: Seq<Seq<WorldStorage<C, S>>>,
                sys_keys: Seq<Seq<u64>>,
                sys_storages: Seq<Seq<WorldStorage<C, S>>>,
            |
                tick_relation(
                    old(self).world_view(),
                    old(state)@.events,
                    world_mid,
                    tick_requests,
                    tick_stop,
                    games,
                    storages_run,
                    comp_keys,
                    comp_storages,
                    sys_keys,
                    sys_storages,
                );
            assert(scheduler_tick_relation(
                old(self).world_view(),
                old(state)@,
                self.world_view(),
                state@,
                games,
                storages_run,
                comp_keys,
                comp_storages,
                sys_keys,
                sys_storages,
                world_mid,
            ));
        }
    }
}

/// A sequence is a prefix of itself followed by anything.
proof fn lemma_seq_prefix_concat<T>(s: Seq<T>, t: Seq<T>)
    ensures
        s.is_prefix_of(s + t),
{
    assert(s =~= (s + t).subrange(0, s.len() as int));
}

/// The position of the storage registered under `key`, if any.
fn find_key<C, S>(storages: &Vec<StorageEntry<C, S>>, key: u64) -> (r: Option<usize>)
    ensures
        match r {
            Some(i) => 0 <= i < storages@.len() && storages@[i as int].key == key,
            None => forall|i: int| 0 <= i < storages@.len() ==> storages@[i].key != key,
        },
{
    let n = storages.len();
    let mut i: usize = 0;
    while i < n
        invariant
            i <= n,
            n == storages@.len(),
            forall|k: int| 0 <= k < i ==> storages@[k].key != key,
        decreases n - i,
    {
        if storages[i].key == key {
            return Some(i);
        }
        i = i + 1;
    }
    None
}

} // verus!
