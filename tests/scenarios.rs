use iterativ::ai::{AIComponent, PlayerAI, Swarm};
use iterativ::components::{
    BlocksMovement, CombatStats, Components, Initiative, Name, Position, Visible,
};
use iterativ::engine::{Action, Engine, LoopState};
use iterativ::geometry::{Motion, Point};
use iterativ::map::TileType;
use iterativ::tiles::TileId;
use iterativ::world::Entity;

fn named(s: &str) -> Option<Name> {
    Some(Name { name: s.to_string() })
}

fn player_components(x: i32, y: i32, hp: i32, initiative: i32) -> Components {
    Components {
        position: Some(Position(Point::new(x, y))),
        visible: Some(Visible { tile_id: TileId::Player }),
        initiative: Some(Initiative::new(initiative)),
        blocks_movement: Some(BlocksMovement),
        ai: Some(AIComponent::Player(PlayerAI)),
        combat_stats: Some(CombatStats { max_hp: hp, hp, attack: 3 }),
        ..Components::none()
    }
}

fn grunt_components(x: i32, y: i32, target: Entity) -> Components {
    Components {
        position: Some(Position(Point::new(x, y))),
        visible: Some(Visible { tile_id: TileId::Grunt }),
        initiative: Some(Initiative::new(20)),
        blocks_movement: Some(BlocksMovement),
        ai: Some(AIComponent::Swarm(Swarm { target })),
        combat_stats: Some(CombatStats { max_hp: 5, hp: 5, attack: 1 }),
        ..Components::none()
    }
}

fn hp_of(engine: &Engine, e: Entity) -> i32 {
    engine.world.components(e).unwrap().combat_stats.unwrap().hp
}

fn log_lines(engine: &Engine) -> Vec<String> {
    let mut lines = engine.world.log.events();
    lines.reverse();
    lines
}

/// Ticks until the loop waits for the player, answering every wait with `action`, at
/// most `rounds` times.
fn play(engine: &mut Engine, action: Action, rounds: usize) {
    for _ in 0..rounds {
        engine.tick();
        if engine.loop_state() != LoopState::WaitingForPlayer {
            return;
        }
        engine.set_action(action);
    }
}

#[test]
fn swarmer_closes_in_attacks_and_dies() {
    let mut engine = Engine::new();
    // A wall north of the player lets the player wait by bumping into it.
    engine.world.map.set_tile(Point::new(5, 4), TileType::Wall);
    let player = engine
        .world
        .create_entity(named("you"), player_components(5, 5, 20, 10))
        .unwrap();
    let grunt = engine
        .world
        .create_entity(named("the swarmer"), grunt_components(0, 0, player))
        .unwrap();
    engine.set_player(player);

    let wait = Action::Move { motion: Motion::new(0, -1) };
    // The grunt needs four moves to reach (4, 4), then two attacks.
    let mut rounds = 0;
    while hp_of(&engine, player) > 18 && rounds < 100 {
        play(&mut engine, wait, 1);
        rounds += 1;
    }
    assert_eq!(engine.world.position(grunt), Some(Point::new(4, 4)));
    assert_eq!(engine.world.position(player), Some(Point::new(5, 5)));
    assert_eq!(hp_of(&engine, player), 18);
    assert_eq!(hp_of(&engine, grunt), 5);
    let lines = log_lines(&engine);
    assert_eq!(lines.len(), 2);
    assert_eq!(lines[0], "the swarmer hits you for 1 damage.");
    assert_eq!(lines[1], "the swarmer hits you for 1 damage.");

    // Moving into the grunt attacks it: 3 damage each time.
    // Two hits bring its 5 hp to -1.
    let lunge = Action::Move { motion: Motion::new(-1, -1) };
    let mut rounds = 0;
    while engine.world.is_alive(grunt) && rounds < 100 {
        play(&mut engine, lunge, 1);
        rounds += 1;
    }
    assert!(!engine.world.is_alive(grunt));
    assert!(engine.world.components(grunt).is_none());
    assert_eq!(engine.world.position(player), Some(Point::new(5, 5)));
    let lines = log_lines(&engine);
    let player_hits = lines.iter().filter(|l| *l == "you hits the swarmer for 3 damage.").count();
    assert_eq!(player_hits, 2);
    assert_eq!(lines.iter().filter(|l| *l == "the swarmer dies.").count(), 1);
    assert_eq!(lines.last().unwrap(), "the swarmer dies.");
}

#[test]
fn move_into_blocker_becomes_attack() {
    let mut engine = Engine::new();
    let player = engine
        .world
        .create_entity(named("you"), player_components(5, 5, 20, 1))
        .unwrap();
    let rock = engine
        .world
        .create_entity(
            named("the rock"),
            Components {
                position: Some(Position(Point::new(6, 5))),
                blocks_movement: Some(BlocksMovement),
                combat_stats: Some(CombatStats { max_hp: 50, hp: 50, attack: 0 }),
                ..Components::none()
            },
        )
        .unwrap();
    engine.set_player(player);
    engine.tick();
    assert_eq!(engine.loop_state(), LoopState::WaitingForPlayer);

    engine.set_action(Action::Move { motion: Motion::new(1, 0) });
    assert_eq!(
        engine.world.player_action.map(|a| a.0),
        Some(Action::Attack { target: rock })
    );
    engine.tick();
    assert_eq!(engine.world.position(player), Some(Point::new(5, 5)));
    assert_eq!(hp_of(&engine, rock), 47);
    assert_eq!(log_lines(&engine), vec!["you hits the rock for 3 damage.".to_string()]);
    assert_eq!(engine.loop_state(), LoopState::WaitingForPlayer);
}

#[test]
fn free_player_move_passes_through() {
    let mut engine = Engine::new();
    let player = engine
        .world
        .create_entity(named("you"), player_components(5, 5, 20, 1))
        .unwrap();
    engine.set_player(player);
    engine.tick();
    engine.set_action(Action::Move { motion: Motion::new(1, 1) });
    assert_eq!(
        engine.world.player_action.map(|a| a.0),
        Some(Action::Move { motion: Motion::new(1, 1) })
    );
    engine.tick();
    assert_eq!(engine.world.position(player), Some(Point::new(6, 6)));
    assert!(engine.world.player_action.is_none());
}

#[test]
fn player_death_ends_the_game() {
    let mut engine = Engine::new();
    let player = engine
        .world
        .create_entity(named("you"), player_components(5, 5, 1, 10))
        .unwrap();
    let grunt = engine
        .world
        .create_entity(named("the swarmer"), grunt_components(4, 4, player))
        .unwrap();
    engine.set_player(player);
    engine.world.map.set_tile(Point::new(5, 4), TileType::Wall);
    let wait = Action::Move { motion: Motion::new(0, -1) };
    let mut rounds = 0;
    while engine.loop_state() != LoopState::GameOver && rounds < 100 {
        play(&mut engine, wait, 1);
        rounds += 1;
    }
    assert_eq!(engine.loop_state(), LoopState::GameOver);
    assert!(!engine.world.is_alive(player));
    assert_eq!(log_lines(&engine).last().unwrap(), "you dies.");

    // Nothing changes any more.
    let grunt_before = engine.world.components(grunt).unwrap();
    let log_before = log_lines(&engine);
    engine.set_action(Action::Move { motion: Motion::new(1, 0) });
    assert!(engine.world.player_action.is_none());
    engine.tick();
    engine.tick();
    let grunt_after = engine.world.components(grunt).unwrap();
    assert_eq!(grunt_after.initiative, grunt_before.initiative);
    assert_eq!(grunt_after.position, grunt_before.position);
    assert_eq!(log_lines(&engine), log_before);
    assert_eq!(engine.loop_state(), LoopState::GameOver);
}

#[test]
fn waiting_tick_is_idempotent() {
    let mut engine = Engine::new();
    let player = engine
        .world
        .create_entity(named("you"), player_components(5, 5, 20, 3))
        .unwrap();
    engine.set_player(player);
    engine.tick();
    assert_eq!(engine.loop_state(), LoopState::WaitingForPlayer);
    let before = engine.world.components(player).unwrap();
    engine.tick();
    engine.tick();
    let after = engine.world.components(player).unwrap();
    assert_eq!(after.initiative, before.initiative);
    assert_eq!(after.ready, before.ready);
    assert_eq!(engine.loop_state(), LoopState::WaitingForPlayer);
}

#[test]
fn faster_entity_acts_twice_as_often() {
    let mut engine = Engine::new();
    let player = engine
        .world
        .create_entity(named("you"), player_components(40, 20, 20, 10))
        .unwrap();
    let grunt = engine
        .world
        .create_entity(named("the swarmer"), grunt_components(0, 20, player))
        .unwrap();
    engine.set_player(player);
    engine.world.map.set_tile(Point::new(40, 19), TileType::Wall);
    let wait = Action::Move { motion: Motion::new(0, -1) };
    // Ten ticks cover 100 scheduler passes. The player acts every 10 passes, the grunt
    // every 20; at pass 100 both are ready and the player, first in order, is awaited.
    play(&mut engine, wait, 10);
    assert_eq!(engine.world.position(grunt), Some(Point::new(4, 20)));
}

#[test]
fn waiting_player_holds_back_later_mobs() {
    let mut engine = Engine::new();
    let player = engine
        .world
        .create_entity(named("you"), player_components(9, 9, 20, 1))
        .unwrap();
    let grunt = engine
        .world
        .create_entity(
            named("the swarmer"),
            Components { initiative: Some(Initiative::new(1)), ..grunt_components(0, 0, player) },
        )
        .unwrap();
    engine.set_player(player);
    engine.tick();
    // Both became ready in the same pass; the player comes first and has no action, so
    // the grunt is not asked this time.
    assert_eq!(engine.loop_state(), LoopState::WaitingForPlayer);
    assert!(engine.world.components(grunt).unwrap().ready.is_some());
    assert_eq!(engine.world.position(grunt), Some(Point::new(0, 0)));
    engine.tick();
    assert_eq!(engine.world.position(grunt), Some(Point::new(0, 0)));
}

#[test]
fn perform_swaps_ready_for_intent() {
    let mut engine = Engine::new();
    let player = engine
        .world
        .create_entity(named("you"), player_components(5, 5, 20, 1))
        .unwrap();
    let grunt = engine
        .world
        .create_entity(named("the swarmer"), grunt_components(0, 0, player))
        .unwrap();
    engine.set_player(player);
    engine.tick();
    engine.set_action(Action::Move { motion: Motion::new(1, 0) });
    engine.perform(grunt, Action::Attack { target: player });
    let c = engine.world.components(grunt).unwrap();
    assert_eq!(c.ready, None);
    assert_eq!(c.attack_intent.map(|a| a.target), Some(player));
    // Only the player's own turn consumes the pending action.
    assert!(engine.world.player_action.is_some());
    assert_eq!(engine.loop_state(), LoopState::WaitingForPlayer);
    engine.perform(player, Action::Move { motion: Motion::new(0, 1) });
    assert!(engine.world.player_action.is_none());
    assert_eq!(engine.loop_state(), LoopState::Looping);
    assert_eq!(
        engine.world.components(player).unwrap().move_intent.map(|m| m.0),
        Some(Motion::new(0, 1))
    );
}
