//! Whole-tick scenarios through the game session: the composite-with-killer
//! level and the three-leaves level.

use shatter::classifier::{ContactEvent, EntityArena, EntityInfo, SemanticEvent};
use shatter::level::{
    end_level_action, EndLevelAction, Level, LevelData, LevelState, ParticleData, COMPLETION_DELAY,
};
use shatter::particle::{ColorRgb, Particle, ParticleKind, Vec2I};
use shatter::session::GameSession;
use shatter::timescale::TimeScaleKind;

fn blue() -> ColorRgb {
    ColorRgb { r: 15, g: 149, b: 226 }
}

fn leaf(kind: ParticleKind, radius: u64, vx: i64, vy: i64) -> Particle {
    Particle::leaf(kind, radius, blue(), Vec2I::new(vx, vy))
}

fn entity() -> EntityInfo {
    EntityInfo {
        parent: None,
        has_rigid_body: false,
        is_player: false,
        is_particle: false,
        is_killer: false,
        instance: 0,
    }
}

/// An arena with the player at entity 0 and one particle body per handle.
fn arena_for(handles: &[(usize, bool)]) -> EntityArena {
    let mut arena = EntityArena::new();
    arena.add(EntityInfo { has_rigid_body: true, is_player: true, ..entity() });
    for &(instance, killer) in handles {
        arena.add(EntityInfo {
            has_rigid_body: true,
            is_particle: true,
            is_killer: killer,
            instance,
            ..entity()
        });
    }
    arena
}

/// One composite particle whose two children include a Killer.
fn composite_level() -> LevelData {
    let parent = Particle {
        kind: ParticleKind::Normal,
        radius: 20,
        color: blue(),
        initial_velocity: Vec2I::zero(),
        subparticles: vec![
            leaf(ParticleKind::Normal, 20, 0, 200),
            leaf(ParticleKind::Killer, 40, 0, -200),
        ],
    };
    let mut d = LevelData::empty();
    d.name.push(48); // "0"
    d.particles.push(ParticleData { spawn_position: Vec2I::new(0, 100), particle: parent });
    d
}

#[test]
fn composite_impact_yields_two_live_particles_one_killer() {
    let data = composite_level();
    let mut s = GameSession::start(data, Some(Level::Default(0)), 20, 500_000);
    assert_eq!(s.level.particle_count, 1);
    assert!(s.player_alive && s.player_can_move);

    // the player strikes the composite
    let arena = arena_for(&[(0, false)]);
    let events = vec![ContactEvent::Started { collider1: 0, collider2: 1 }];
    let out = s.step(&arena, &events, 16_000);
    assert_eq!(out.semantic, Some(SemanticEvent::PlayerParticleCollision { particle: 1 }));
    assert_eq!(out.spawned, 2);
    assert_eq!(out.despawned, 1);

    // exactly two live particles remain, one tagged Killer
    assert_eq!(s.level.particle_count, 2);
    assert_eq!(s.world.count_live(), 2);
    assert_eq!(s.world.instances[1].particle.kind, ParticleKind::Normal);
    assert_eq!(s.world.instances[2].particle.kind, ParticleKind::Killer);
    assert!(s.world.instances[1].invincibility.is_immune());
    assert!(s.world.instances[2].invincibility.is_immune());
    // the impact slows time and frees the player's move
    assert_eq!(s.time.automatic, TimeScaleKind::Slowed);
    assert!(s.player_can_move);
}

#[test]
fn no_decomposition_while_the_window_holds() {
    let data = composite_level();
    let mut s = GameSession::start(data, Some(Level::Default(0)), 20, 500_000);
    let arena = arena_for(&[(0, false)]);
    s.step(
        &arena,
        &vec![ContactEvent::Started { collider1: 0, collider2: 1 }],
        16_000,
    );
    assert_eq!(s.level.particle_count, 2);

    // a forced contact on the fresh child within its immune window
    let arena_child = arena_for(&[(1, false)]);
    let out = s.step(
        &arena_child,
        &vec![ContactEvent::Started { collider1: 0, collider2: 1 }],
        16_000,
    );
    assert_eq!(out.semantic, Some(SemanticEvent::PlayerParticleCollision { particle: 1 }));
    assert_eq!(out.spawned, 0);
    assert_eq!(out.despawned, 0);
    assert_eq!(s.level.particle_count, 2);

    // once the window lapses the same contact decomposes the leaf
    let out = s.step(&arena_child, &Vec::new(), 500_000);
    assert_eq!(out.invincibility_completions, 2);
    let out = s.step(
        &arena_child,
        &vec![ContactEvent::Started { collider1: 0, collider2: 1 }],
        16_000,
    );
    assert_eq!(out.despawned, 1);
    assert_eq!(s.level.particle_count, 1);
}

#[test]
fn killer_contact_ends_the_attempt_without_altering_count() {
    let data = composite_level();
    let mut s = GameSession::start(data, Some(Level::Default(0)), 20, 500_000);
    let arena = arena_for(&[(0, false)]);
    s.step(
        &arena,
        &vec![ContactEvent::Started { collider1: 0, collider2: 1 }],
        16_000,
    );
    // let the windows lapse
    s.step(&arena, &Vec::new(), 600_000);
    assert_eq!(s.level.particle_count, 2);
    s.time.set_override(Some(TimeScaleKind::Normal));

    // the player touches the Killer instance (handle 2)
    let arena_killer = arena_for(&[(2, true)]);
    let out = s.step(
        &arena_killer,
        &vec![ContactEvent::Started { collider1: 0, collider2: 1 }],
        16_000,
    );
    assert_eq!(out.semantic, Some(SemanticEvent::KillEvent { player: 0 }));
    assert!(!s.player_alive);
    // the override is cleared and time restored to normal
    assert_eq!(s.time.manual_override, None);
    assert_eq!(s.time.automatic, TimeScaleKind::Normal);
    // the particle count is untouched; the level is not Ended
    assert_eq!(s.level.particle_count, 2);
    assert_eq!(s.level.state, LevelState::Playing);
}

/// Three independent leaves and no composites.
fn three_leaves_level() -> LevelData {
    let mut d = LevelData::empty();
    d.name.push(48);
    for (x, y) in [(-100i64, 0i64), (0, 50), (100, 0)] {
        d.particles.push(ParticleData {
            spawn_position: Vec2I::new(x, y),
            particle: leaf(ParticleKind::Normal, 20, 0, 0),
        });
    }
    d
}

#[test]
fn destroying_all_three_leaves_ends_the_level_once() {
    let data = three_leaves_level();
    let mut s = GameSession::start(data, Some(Level::Default(0)), 20, 500_000);
    assert_eq!(s.level.particle_count, 3);

    let arena = arena_for(&[(0, false), (1, false), (2, false)]);
    // destroy the three leaves across frames, in scattered order
    for (entity, expected_count) in [(3usize, 2usize), (1, 1), (2, 0)] {
        let out = s.step(
            &arena,
            &vec![ContactEvent::Started { collider1: 0, collider2: entity }],
            16_000,
        );
        assert_eq!(out.despawned, 1);
        assert_eq!(s.level.particle_count, expected_count);
        assert_eq!(out.delay_started, expected_count == 0);
    }
    assert_eq!(s.level.state, LevelState::Playing);
    assert!(!s.player_can_move);

    // the fixed delay elapses: exactly one EndLevel
    let out = s.step(&arena, &Vec::new(), COMPLETION_DELAY);
    assert!(out.end_level);
    assert_eq!(s.level.state, LevelState::Ended);
    let out = s.step(&arena, &Vec::new(), COMPLETION_DELAY);
    assert!(!out.end_level);

    // a next numbered level exists: advance to it; otherwise the game ends
    assert_eq!(
        end_level_action(&s.level.identity, 2, false),
        EndLevelAction::NextLevel { id: 1 }
    );
    assert_eq!(end_level_action(&s.level.identity, 1, false), EndLevelAction::GameComplete);
}

#[test]
fn duplicate_split_events_in_one_tick_fail_gracefully() {
    let data = three_leaves_level();
    let mut s = GameSession::start(data, Some(Level::Default(0)), 20, 500_000);
    let arena = arena_for(&[(0, false), (1, false), (2, false)]);
    // two particles touch; the same pair arrives as one event naming both
    let out = s.step(
        &arena,
        &vec![ContactEvent::Started { collider1: 1, collider2: 1 }],
        16_000,
    );
    // the duplicate second reference finds the target already consumed
    assert_eq!(
        out.semantic,
        Some(SemanticEvent::ParticleParticleCollision { particle1: 1, particle2: 1 })
    );
    assert_eq!(out.despawned, 1);
    assert_eq!(s.level.particle_count, 2);
}

#[test]
fn launch_spends_the_move_and_restores_time() {
    let data = three_leaves_level();
    let mut s = GameSession::start(data, None, 20, 500_000);
    s.time.set_automatic(TimeScaleKind::Slowed);
    assert!(s.player_launched());
    assert!(!s.player_can_move);
    assert_eq!(s.time.automatic, TimeScaleKind::Normal);
    // without the move, a second launch is refused
    assert!(!s.player_launched());
}

#[test]
fn session_restart_respawns_the_roots() {
    let data = three_leaves_level();
    let mut s = GameSession::start(data, Some(Level::Default(0)), 20, 500_000);
    let arena = arena_for(&[(0, false), (1, false), (2, false)]);
    s.step(
        &arena,
        &vec![ContactEvent::Started { collider1: 0, collider2: 1 }],
        16_000,
    );
    assert_eq!(s.level.particle_count, 2);

    let s = s.restart();
    assert_eq!(s.level.particle_count, 3);
    assert_eq!(s.world.count_live(), 3);
    assert!(s.player_alive && s.player_can_move);
    assert!(matches!(s.level.identity, Some(Level::Default(0))));
}
