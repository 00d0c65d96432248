//! The invincibility timer, collision groups and the time-scale controller.

use shatter::invincibility::{collides, CollisionGroup, Invincibility};
use shatter::particle::{ColorRgb, Particle, ParticleKind, Vec2I};
use shatter::timescale::{TimeScaleController, TimeScaleKind};
use shatter::world::{Instance, World};

#[test]
fn immune_until_the_full_duration_has_elapsed() {
    let mut inv = Invincibility::new(1_000);
    assert!(inv.is_immune());
    assert!(!inv.tick(400));
    assert!(inv.is_immune());
    assert!(!inv.tick(599));
    assert!(inv.is_immune());
    // the last microsecond lapses the window: one completion signal
    assert!(inv.tick(1));
    assert!(!inv.is_immune());
    // no retry, no second signal
    assert!(!inv.tick(1_000));
}

#[test]
fn large_tick_lapses_in_one_step() {
    let mut inv = Invincibility::new(500_000);
    assert!(inv.tick(600_000));
    assert!(!inv.is_immune());
}

#[test]
fn collision_partition() {
    // terrain collides with everything
    assert!(collides(CollisionGroup::Terrain, CollisionGroup::Terrain));
    assert!(collides(CollisionGroup::Terrain, CollisionGroup::ActiveParticipant));
    assert!(collides(CollisionGroup::Terrain, CollisionGroup::ImmuneParticle));
    // active participants collide with each other
    assert!(collides(CollisionGroup::ActiveParticipant, CollisionGroup::ActiveParticipant));
    // an immune particle cannot touch the player until the window lapses
    assert!(!collides(CollisionGroup::ImmuneParticle, CollisionGroup::ActiveParticipant));
    assert!(!collides(CollisionGroup::ActiveParticipant, CollisionGroup::ImmuneParticle));
    assert!(!collides(CollisionGroup::ImmuneParticle, CollisionGroup::ImmuneParticle));
}

#[test]
fn world_tick_reassigns_group_on_lapse_and_signals_once() {
    let mut world = World::new();
    let p = Particle::leaf(
        ParticleKind::Normal,
        20,
        ColorRgb { r: 15, g: 149, b: 226 },
        Vec2I::new(0, 200),
    );
    world.spawn(Instance {
        velocity: p.initial_velocity,
        particle: p,
        position: Vec2I::zero(),
        invincibility: Invincibility::new(500_000),
        group: CollisionGroup::ImmuneParticle,
        alive: true,
    });
    assert_eq!(world.tick_invincibility(100_000), 0);
    assert_eq!(world.instances[0].group, CollisionGroup::ImmuneParticle);
    assert_eq!(world.tick_invincibility(400_000), 1);
    assert_eq!(world.instances[0].group, CollisionGroup::ActiveParticipant);
    assert!(!world.instances[0].invincibility.is_immune());
    assert_eq!(world.tick_invincibility(400_000), 0);
    assert_eq!(world.count_live(), 1);
}

#[test]
fn override_precedence() {
    let mut t = TimeScaleController::new();
    assert_eq!(t.observed(), TimeScaleKind::Normal);

    // override set, then the automatic value changes underneath it
    t.set_override(Some(TimeScaleKind::Slowed));
    t.set_automatic(TimeScaleKind::Normal);
    assert_eq!(t.observed(), TimeScaleKind::Slowed);

    // clearing the override reveals the stored automatic value
    t.set_override(None);
    assert_eq!(t.observed(), TimeScaleKind::Normal);

    t.set_automatic(TimeScaleKind::Slowed);
    assert_eq!(t.observed(), TimeScaleKind::Slowed);
}

#[test]
fn time_scale_values() {
    assert_eq!(TimeScaleKind::Normal.value_millis(), 1000);
    assert_eq!(TimeScaleKind::Slowed.value_millis(), 100);
}
