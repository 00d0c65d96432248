//! The level progression state machine: counting, the completion delay, the
//! end-of-level decision and restarts.

use shatter::classifier::EntityArena;
use shatter::level::{
    end_level_action, CompletionDelay, EndLevelAction, Level, LevelData, LevelInstance, LevelState,
    COMPLETION_DELAY,
};
use shatter::session::GameSession;

#[test]
fn count_reaches_zero_starts_delay_exactly_once() {
    let mut li = LevelInstance::spawn_from(LevelData::empty(), Some(Level::Default(0)));
    assert!(!li.apply_particle_delta(3, 0));
    assert_eq!(li.particle_count, 3);
    assert_eq!(li.delay, CompletionDelay::NotStarted);

    // two decrements crossing zero in one tick are summed and trigger once
    let started = li.apply_particle_delta(0, 3);
    assert!(started);
    assert_eq!(li.particle_count, 0);
    assert_eq!(li.delay, CompletionDelay::Running { remaining: COMPLETION_DELAY });

    // a second report in the same tick (or any later one) starts nothing
    let started_again = li.apply_particle_delta(0, 0);
    assert!(!started_again);
    assert_eq!(li.delay, CompletionDelay::Running { remaining: COMPLETION_DELAY });
}

#[test]
fn delay_elapses_to_ended_and_emits_end_level_once() {
    let mut li = LevelInstance::spawn_from(LevelData::empty(), Some(Level::Default(0)));
    li.apply_particle_delta(1, 0);
    li.apply_particle_delta(0, 1);
    assert_eq!(li.state, LevelState::Playing);

    // the delay holds the level in Playing until it elapses
    assert!(!li.tick_completion(COMPLETION_DELAY - 1));
    assert_eq!(li.state, LevelState::Playing);

    assert!(li.tick_completion(1));
    assert_eq!(li.state, LevelState::Ended);
    assert_eq!(li.delay, CompletionDelay::Finished);

    // re-triggering an already ended level has no further effect
    assert!(!li.tick_completion(COMPLETION_DELAY));
    let started = li.apply_particle_delta(0, 0);
    assert!(!started);
    assert_eq!(li.state, LevelState::Ended);
}

#[test]
fn ended_level_ignores_reports() {
    let mut li = LevelInstance::spawn_from(LevelData::empty(), None);
    li.apply_particle_delta(2, 0);
    li.apply_particle_delta(0, 2);
    li.tick_completion(COMPLETION_DELAY);
    assert_eq!(li.state, LevelState::Ended);
    li.apply_particle_delta(0, 0);
    assert_eq!(li.particle_count, 0);
    assert_eq!(li.state, LevelState::Ended);
}

#[test]
fn end_level_advances_to_next_numbered_level() {
    let action = end_level_action(&Some(Level::Default(0)), 2, false);
    assert_eq!(action, EndLevelAction::NextLevel { id: 1 });
}

#[test]
fn end_level_without_next_ends_the_game() {
    let action = end_level_action(&Some(Level::Default(1)), 2, false);
    assert_eq!(action, EndLevelAction::GameComplete);
}

#[test]
fn editor_played_level_returns_to_editor() {
    assert_eq!(end_level_action(&None, 2, true), EndLevelAction::ReturnToEditor);
    assert_eq!(end_level_action(&None, 2, false), EndLevelAction::ReturnToLevelSelect);
}

#[test]
fn restart_rises_fresh_from_the_retained_snapshot() {
    let data = LevelData::example();
    let mut li = LevelInstance::spawn_from(data, Some(Level::Default(1)));
    li.apply_particle_delta(2, 0);
    li.apply_particle_delta(0, 2);
    li.tick_completion(COMPLETION_DELAY);
    assert_eq!(li.state, LevelState::Ended);

    let li = li.restart();
    assert_eq!(li.state, LevelState::Playing);
    assert_eq!(li.delay, CompletionDelay::NotStarted);
    assert_eq!(li.particle_count, 0);
    // the snapshot survived the restart
    assert_eq!(li.data.particles.len(), 2);
    assert!(matches!(li.identity, Some(Level::Default(1))));
}

#[test]
fn an_empty_level_completes_by_itself() {
    let mut d = LevelData::empty();
    d.name.push(b'5');
    let mut s = GameSession::start(d, Some(Level::Default(0)), 20, 500_000);
    assert_eq!(s.level.particle_count, 0);
    assert_eq!(s.level.delay, CompletionDelay::Running { remaining: COMPLETION_DELAY });
    let arena = EntityArena::new();
    let out = s.step(&arena, &Vec::new(), COMPLETION_DELAY);
    assert!(out.end_level);
    assert_eq!(s.level.state, LevelState::Ended);
}
