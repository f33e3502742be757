use tickworld::data::Color;
use tickworld::data::DrawData;
use tickworld::data::EventData;
use tickworld::data::GameRequest;
use tickworld::data::Rect;
use tickworld::data::WindowRequest;
use tickworld::state::SharedState;
use tickworld::world::Entity;
use tickworld::world::GameHandle;
use tickworld::world::System;
use tickworld::world::World;
use tickworld::world::WorldModule;
use tickworld::world::WorldStorage;

const POSITION: u64 = 1;

#[derive(Clone, Copy, Debug, PartialEq)]
struct Position {
    x: i64,
    y: i64,
}

enum TestSystem {
    IncrementX,
    DoubleX,
    CountEvents,
    Emitter,
}

impl System<Position> for TestSystem {
    fn run(
        &self,
        game: &mut GameHandle<Position, TestSystem>,
        _entity: Entity,
        component: &mut Position,
    ) {
        match self {
            TestSystem::IncrementX => {
                component.x += 1;
            }
            TestSystem::DoubleX => {
                component.x *= 2;
            }
            TestSystem::CountEvents => {
                component.x = game.events().len() as i64;
            }
            TestSystem::Emitter => {
                game.draw(DrawData::Rectangle {
                    rect: Rect { x: 0, y: 0, w: 1, h: 1 },
                    color: Color { r: 1, g: 2, b: 3, a: 4 },
                });
                game.send(GameRequest::WindowRequest(WindowRequest::Resize(640, 480)));
                let spawned = game.add_entity();
                game.add_component(POSITION, spawned, Position { x: 100, y: 100 });
                game.stop();
            }
        }
    }
}

fn read_position(world: &World<Position, TestSystem>, entity: Entity) -> Position {
    match world.get_component(POSITION, entity) {
        Ok(Some(p)) => *p,
        Ok(None) => panic!("no record for entity"),
        Err(e) => panic!("{}", e),
    }
}

#[test]
fn entity_ids_strictly_increasing() {
    let mut world: World<Position, TestSystem> = World::new();
    let e0 = world.add_entity();
    let e1 = world.add_entity();
    let e2 = world.add_entity();
    assert!(e0 < e1);
    assert!(e1 < e2);
    assert_ne!(e0, e1);
    assert_ne!(e1, e2);
    assert_ne!(e0, e2);
}

#[test]
fn entity_successor_is_greater() {
    let e0 = Entity::default();
    let e1 = e0.next();
    let e2 = e1.next();
    assert!(e0 < e1 && e1 < e2);
}

#[test]
fn added_component_is_read_back() {
    let mut world: World<Position, TestSystem> = World::new();
    let e = world.add_entity();
    world.add_component(POSITION, e, Position { x: 5, y: 7 });
    assert_eq!(read_position(&world, e), Position { x: 5, y: 7 });
}

#[test]
fn unregistered_type_read_is_an_error() {
    let mut world: World<Position, TestSystem> = World::new();
    let e = world.add_entity();
    world.add_component(POSITION, e, Position { x: 0, y: 0 });
    match world.get_component(99, e) {
        Err(msg) => assert_eq!(msg, "component type not registered"),
        Ok(_) => panic!("read of an unregistered key must fail"),
    }
}

#[test]
fn remove_of_absent_entity_is_noop() {
    let mut storage: WorldStorage<Position, TestSystem> = WorldStorage::new();
    let e0 = Entity::default();
    let e1 = e0.next();
    let stranger = e1.next();
    storage.add_component(e0, Position { x: 1, y: 1 });
    storage.add_component(e1, Position { x: 2, y: 2 });
    storage.remove_component(stranger);
    assert_eq!(storage.len(), 2);
    assert_eq!(storage.get(e0), Some(&Position { x: 1, y: 1 }));
    assert_eq!(storage.get(e1), Some(&Position { x: 2, y: 2 }));
}

#[test]
fn removed_entity_is_never_observed() {
    let mut storage: WorldStorage<Position, TestSystem> = WorldStorage::new();
    let e0 = Entity::default();
    let e1 = e0.next();
    let e2 = e1.next();
    storage.add_component(e0, Position { x: 1, y: 0 });
    storage.add_component(e1, Position { x: 2, y: 0 });
    storage.add_component(e2, Position { x: 3, y: 0 });
    storage.remove_component(e1);
    assert_eq!(storage.len(), 2);
    assert_eq!(storage.get(e1), None);
    assert_eq!(storage.get(e0), Some(&Position { x: 1, y: 0 }));
    assert_eq!(storage.get(e2), Some(&Position { x: 3, y: 0 }));
}

#[test]
fn clear_components_empties_storage() {
    let mut storage: WorldStorage<Position, TestSystem> = WorldStorage::new();
    let e0 = Entity::default();
    storage.add_component(e0, Position { x: 1, y: 1 });
    storage.clear_components();
    assert_eq!(storage.len(), 0);
    assert_eq!(storage.get(e0), None);
}

#[test]
fn one_tick_increments_every_record_once() {
    let mut world: World<Position, TestSystem> = World::new();
    let e0 = world.add_entity();
    let e1 = world.add_entity();
    world.add_component(POSITION, e0, Position { x: 3, y: 0 });
    world.add_component(POSITION, e1, Position { x: 10, y: 0 });
    world.add_system(POSITION, TestSystem::IncrementX);
    world.update(Vec::new());
    assert_eq!(read_position(&world, e0).x, 4);
    assert_eq!(read_position(&world, e1).x, 11);
}

#[test]
fn systems_run_in_registration_order() {
    let mut world: World<Position, TestSystem> = World::new();
    let e = world.add_entity();
    world.add_component(POSITION, e, Position { x: 3, y: 0 });
    world.add_system(POSITION, TestSystem::IncrementX);
    world.add_system(POSITION, TestSystem::DoubleX);
    world.update(Vec::new());
    // increment first, then double: (3 + 1) * 2, never 3 * 2 + 1
    assert_eq!(read_position(&world, e).x, 8);
}

#[test]
fn clear_systems_forgets_registrations() {
    let mut storage: WorldStorage<Position, TestSystem> = WorldStorage::new();
    storage.add_system(TestSystem::IncrementX);
    storage.add_system(TestSystem::DoubleX);
    assert_eq!(storage.system_count(), 2);
    storage.clear_systems();
    assert_eq!(storage.system_count(), 0);
}

#[test]
fn zero_tick_rate_is_rejected() {
    match WorldModule::<Position, TestSystem>::new(0) {
        Err(msg) => assert_eq!(msg, "tick rate must be positive"),
        Ok(_) => panic!("a zero tick rate must fail validation"),
    }
}

#[test]
fn tick_at_rate_twenty_sleeps_about_fifty_ms() {
    let module = WorldModule::<Position, TestSystem>::new(20).unwrap();
    assert_eq!(module.tick_period_nanos(), 50_000_000);
    // negligible work: the full period remains
    assert_eq!(module.sleep_nanos(0), 50_000_000);
    assert_eq!(module.sleep_nanos(1_000_000), 49_000_000);
}

#[test]
fn tick_overrun_sleeps_zero() {
    let module = WorldModule::<Position, TestSystem>::new(20).unwrap();
    // 80ms of work in a 50ms tick: no sleep, and no catch-up either
    assert_eq!(module.sleep_nanos(80_000_000), 0);
    assert_eq!(module.sleep_nanos(50_000_000), 0);
}

#[test]
fn tick_publishes_draws_requests_and_stop() {
    let mut module = WorldModule::<Position, TestSystem>::new(20).unwrap();
    let mut state = SharedState::new();
    let e;
    {
        let world = module.world_mut();
        e = world.add_entity();
        world.add_component(POSITION, e, Position { x: 0, y: 0 });
        world.add_system(POSITION, TestSystem::Emitter);
    }
    module.update(&mut state);

    let batch = state.lock_draw_data().expect("a fresh batch must be available");
    assert_eq!(
        batch,
        vec![DrawData::Rectangle {
            rect: Rect { x: 0, y: 0, w: 1, h: 1 },
            color: Color { r: 1, g: 2, b: 3, a: 4 },
        }]
    );

    let requests = state.take_requests();
    assert_eq!(
        requests,
        vec![GameRequest::WindowRequest(WindowRequest::Resize(640, 480))]
    );

    // the system's stop() was forwarded when the tick ended
    assert!(!state.running());

    // the entity spawned mid-tick is visible to subsequent ticks
    let spawned = e.next();
    assert_eq!(
        read_position(module.world(), spawned),
        Position { x: 100, y: 100 }
    );
}

#[test]
fn drained_events_reach_the_systems() {
    let mut module = WorldModule::<Position, TestSystem>::new(20).unwrap();
    let mut state = SharedState::new();
    {
        let world = module.world_mut();
        let e = world.add_entity();
        world.add_component(POSITION, e, Position { x: -1, y: 0 });
        world.add_system(POSITION, TestSystem::CountEvents);
        state.push_event(EventData::KeyDown { keycode: 1, scancode: 2, keymod: 0 });
        state.push_event(EventData::KeyDown { keycode: 3, scancode: 4, keymod: 0 });
        state.push_event(EventData::KeyDown { keycode: 5, scancode: 6, keymod: 0 });
    }
    module.update(&mut state);
    let world = module.world();
    match world.get_component(POSITION, Entity::default()) {
        Ok(Some(p)) => assert_eq!(p.x, 3),
        _ => panic!("record must exist"),
    }
    // and the queue was drained atomically: nothing is left
    assert_eq!(state.take_events(), Vec::new());
}
