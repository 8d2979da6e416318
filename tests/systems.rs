use iterativ::ai::{AIComponent, PlayerAI, Swarm, AI};
use iterativ::components::{
    AttackIntent, BlocksMovement, CombatStats, Components, Initiative, MoveIntent, Name,
    Position, QueuedDamage, Ready,
};
use iterativ::engine::{Action, LoopState};
use iterativ::geometry::{Motion, Point};
use iterativ::map::{TileMap, TileType};
use iterativ::systems::{
    AttackSystem, DamageSystem, DeathSystem, InitiativeSystem, MapUpdateSystem, MovementSystem,
};
use iterativ::world::{Entity, World};

fn at(x: i32, y: i32) -> Components {
    Components { position: Some(Position(Point::new(x, y))), ..Components::none() }
}

fn blocker_at(x: i32, y: i32) -> Components {
    Components { blocks_movement: Some(BlocksMovement), ..at(x, y) }
}

fn spawn(world: &mut World, name: &str, c: Components) -> Entity {
    world.create_entity(Some(Name { name: name.to_string() }), c).unwrap()
}

fn mover(world: &mut World, x: i32, y: i32, dx: i32, dy: i32) -> Entity {
    spawn(
        world,
        "mover",
        Components { move_intent: Some(MoveIntent(Motion::new(dx, dy))), ..at(x, y) },
    )
}

#[test]
fn initiative_counts_down_and_resets() {
    let mut ini = Initiative::new(3);
    assert!(!ini.tick());
    assert_eq!(ini.current, 2);
    assert!(!ini.tick());
    assert_eq!(ini.current, 1);
    assert!(ini.tick());
    assert_eq!(ini.current, 3);
    assert_eq!(ini.initial, 3);
    let mut one = Initiative::new(1);
    assert!(one.tick());
    assert_eq!(one.current, 1);
}

#[test]
fn scheduler_marks_ready_when_count_elapses() {
    let mut world = World::new(TileMap::new(10, 10));
    let fast = spawn(&mut world, "fast", Components { initiative: Some(Initiative::new(2)), ..at(1, 1) });
    let slow = spawn(&mut world, "slow", Components { initiative: Some(Initiative::new(5)), ..at(2, 2) });
    InitiativeSystem.run(&mut world);
    assert_eq!(world.components(fast).unwrap().initiative.unwrap().current, 1);
    assert_eq!(world.components(fast).unwrap().ready, None);
    assert_eq!(world.components(slow).unwrap().initiative.unwrap().current, 4);
    InitiativeSystem.run(&mut world);
    assert_eq!(world.components(fast).unwrap().initiative.unwrap().current, 2);
    assert_eq!(world.components(fast).unwrap().ready, Some(Ready));
    assert_eq!(world.components(slow).unwrap().initiative.unwrap().current, 3);
    assert_eq!(world.components(slow).unwrap().ready, None);
}

#[test]
fn scheduler_idle_unless_looping() {
    let mut world = World::new(TileMap::new(10, 10));
    let e = spawn(&mut world, "e", Components { initiative: Some(Initiative::new(1)), ..at(1, 1) });
    world.loop_state = LoopState::WaitingForPlayer;
    InitiativeSystem.run(&mut world);
    assert_eq!(world.components(e).unwrap().initiative.unwrap().current, 1);
    assert_eq!(world.components(e).unwrap().ready, None);
    world.loop_state = LoopState::GameOver;
    InitiativeSystem.run(&mut world);
    assert_eq!(world.components(e).unwrap().ready, None);
}

#[test]
fn swarm_attacks_when_adjacent() {
    let mut world = World::new(TileMap::new(10, 10));
    let target = spawn(&mut world, "target", at(5, 5));
    let me = spawn(&mut world, "me", at(4, 6));
    let swarm = Swarm { target };
    assert_eq!(swarm.decide(&world, me), Some(Action::Attack { target }));
    let on_top = spawn(&mut world, "on top", at(5, 5));
    assert_eq!(swarm.decide(&world, on_top), Some(Action::Attack { target }));
}

#[test]
fn swarm_steps_by_sign_when_far() {
    let mut world = World::new(TileMap::new(10, 10));
    let target = spawn(&mut world, "target", at(5, 5));
    let a = spawn(&mut world, "a", at(0, 0));
    let b = spawn(&mut world, "b", at(9, 5));
    let c = spawn(&mut world, "c", at(3, 9));
    let swarm = Swarm { target };
    assert_eq!(swarm.decide(&world, a), Some(Action::Move { motion: Motion::new(1, 1) }));
    assert_eq!(swarm.decide(&world, b), Some(Action::Move { motion: Motion::new(-1, 0) }));
    assert_eq!(swarm.decide(&world, c), Some(Action::Move { motion: Motion::new(1, -1) }));
}

#[test]
fn swarm_without_target_yields() {
    let mut world = World::new(TileMap::new(10, 10));
    let target = spawn(&mut world, "target", at(5, 5));
    let me = spawn(&mut world, "me", at(0, 0));
    world.delete(target);
    world.maintain();
    assert_eq!(Swarm { target }.decide(&world, me), None);
}

#[test]
fn player_ai_reads_pending_action() {
    let mut world = World::new(TileMap::new(10, 10));
    let me = spawn(&mut world, "me", at(0, 0));
    assert_eq!(AIComponent::Player(PlayerAI).decide(&world, me), None);
    let act = Action::Move { motion: Motion::new(1, 0) };
    world.player_action = Some(iterativ::ai::PlayerAction(act));
    assert_eq!(AIComponent::Player(PlayerAI).decide(&world, me), Some(act));
}

#[test]
fn move_onto_wall_is_dropped() {
    let mut map = TileMap::new(10, 10);
    map.set_tile(Point::new(3, 2), TileType::Wall);
    let mut world = World::new(map);
    let e = mover(&mut world, 2, 2, 1, 0);
    MapUpdateSystem.run(&mut world);
    MovementSystem.run(&mut world);
    assert_eq!(world.position(e), Some(Point::new(2, 2)));
    assert_eq!(world.components(e).unwrap().move_intent, None);
}

#[test]
fn move_onto_blocker_is_dropped() {
    let mut world = World::new(TileMap::new(10, 10));
    spawn(&mut world, "wall of flesh", blocker_at(3, 3));
    let e = mover(&mut world, 2, 2, 1, 1);
    MapUpdateSystem.run(&mut world);
    MovementSystem.run(&mut world);
    assert_eq!(world.position(e), Some(Point::new(2, 2)));
    assert_eq!(world.components(e).unwrap().move_intent, None);
}

#[test]
fn move_off_map_is_dropped() {
    let mut world = World::new(TileMap::new(10, 10));
    let e = mover(&mut world, 0, 0, -1, 0);
    MapUpdateSystem.run(&mut world);
    MovementSystem.run(&mut world);
    assert_eq!(world.position(e), Some(Point::new(0, 0)));
}

#[test]
fn move_onto_free_floor_shifts_by_motion() {
    let mut world = World::new(TileMap::new(10, 10));
    spawn(&mut world, "bystander", at(3, 3));
    let e = mover(&mut world, 2, 2, 1, 1);
    MapUpdateSystem.run(&mut world);
    MovementSystem.run(&mut world);
    assert_eq!(world.position(e), Some(Point::new(3, 3)));
}

#[test]
fn attack_queues_damage_and_logs() {
    let mut world = World::new(TileMap::new(10, 10));
    let victim = spawn(
        &mut world,
        "the victim",
        Components { combat_stats: Some(CombatStats { max_hp: 10, hp: 10, attack: 0 }), ..at(1, 1) },
    );
    let stats = Some(CombatStats { max_hp: 10, hp: 10, attack: 4 });
    let a = spawn(
        &mut world,
        "the brute",
        Components { combat_stats: stats, attack_intent: Some(AttackIntent { target: victim }), ..at(2, 1) },
    );
    spawn(
        &mut world,
        "the other brute",
        Components { combat_stats: stats, attack_intent: Some(AttackIntent { target: victim }), ..at(2, 2) },
    );
    AttackSystem.run(&mut world);
    assert_eq!(world.components(victim).unwrap().queued_damage, Some(QueuedDamage(8)));
    assert_eq!(world.components(a).unwrap().attack_intent, None);
    assert_eq!(
        world.log.events(),
        vec![
            "the other brute hits the victim for 4 damage.".to_string(),
            "the brute hits the victim for 4 damage.".to_string(),
        ]
    );
    DamageSystem.run(&mut world);
    assert_eq!(world.components(victim).unwrap().combat_stats.unwrap().hp, 2);
    assert_eq!(world.components(victim).unwrap().queued_damage, None);
}

#[test]
fn damage_saturates_at_i32_min() {
    let mut world = World::new(TileMap::new(10, 10));
    let e = spawn(
        &mut world,
        "e",
        Components {
            combat_stats: Some(CombatStats { max_hp: 1, hp: i32::MIN + 1, attack: 0 }),
            queued_damage: Some(QueuedDamage(5)),
            ..at(0, 0)
        },
    );
    DamageSystem.run(&mut world);
    assert_eq!(world.components(e).unwrap().combat_stats.unwrap().hp, i32::MIN);
}

#[test]
fn dead_entity_removed_with_one_death_line() {
    let mut world = World::new(TileMap::new(10, 10));
    let dead = spawn(
        &mut world,
        "the goner",
        Components { combat_stats: Some(CombatStats { max_hp: 5, hp: 0, attack: 1 }), ..blocker_at(4, 4) },
    );
    let fine = spawn(
        &mut world,
        "the survivor",
        Components { combat_stats: Some(CombatStats { max_hp: 5, hp: 1, attack: 1 }), ..at(5, 5) },
    );
    DeathSystem.run(&mut world);
    // Deletion waits for the synchronization point.
    assert!(world.is_alive(dead));
    assert_eq!(world.log.events(), vec!["the goner dies.".to_string()]);
    world.maintain();
    assert!(!world.is_alive(dead));
    assert!(world.components(dead).is_none());
    assert!(world.name(dead).is_none());
    assert!(world.is_alive(fine));
    assert_eq!(world.slots[dead.index].generation, dead.generation + 1);
    MapUpdateSystem.run(&mut world);
    assert_eq!(world.map.blockers(Point::new(4, 4)), None);
    assert_eq!(world.loop_state, LoopState::Looping);
}

#[test]
fn unnamed_entities_are_logged_as_bugs() {
    let mut world = World::new(TileMap::new(10, 10));
    let e = world
        .create_entity(
            None,
            Components { combat_stats: Some(CombatStats { max_hp: 1, hp: -3, attack: 0 }), ..at(0, 0) },
        )
        .unwrap();
    DeathSystem.run(&mut world);
    assert_eq!(world.log.events(), vec!["an unnamed bug dies.".to_string()]);
    assert_eq!(world.to_delete, vec![e]);
}

#[test]
fn map_update_records_entities_and_blockers() {
    let mut world = World::new(TileMap::new(10, 10));
    let a = spawn(&mut world, "a", at(1, 1));
    let b = spawn(&mut world, "b", blocker_at(1, 1));
    let c = spawn(&mut world, "c", blocker_at(2, 3));
    MapUpdateSystem.run(&mut world);
    let i = world.map.idx(Point::new(1, 1));
    assert_eq!(world.map.entities[i], vec![a, b]);
    assert_eq!(world.map.blockers(Point::new(1, 1)), Some(b));
    assert_eq!(world.map.blockers(Point::new(2, 3)), Some(c));
    assert!(world.map.is_blocked(Point::new(2, 3)));
    assert!(!world.map.is_blocked(Point::new(0, 0)));
}
