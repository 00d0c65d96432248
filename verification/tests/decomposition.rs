//! Decomposition engine behaviour: splitting composites, removing leaves,
//! graceful misses and the immunity gate.

use shatter::invincibility::{CollisionGroup, Invincibility};
use shatter::particle::{ColorRgb, Particle, ParticleKind, Vec2I};
use shatter::world::{DecomposeOutcome, Instance, World};

fn blue() -> ColorRgb {
    ColorRgb { r: 15, g: 149, b: 226 }
}

fn leaf(vx: i64, vy: i64) -> Particle {
    Particle::leaf(ParticleKind::Normal, 20, blue(), Vec2I::new(vx, vy))
}

fn vulnerable_instance(p: Particle, x: i64, y: i64) -> Instance {
    Instance {
        velocity: p.initial_velocity,
        particle: p,
        position: Vec2I::new(x, y),
        invincibility: Invincibility::Vulnerable,
        group: CollisionGroup::ActiveParticipant,
        alive: true,
    }
}

fn composite(children: Vec<Particle>) -> Particle {
    Particle {
        kind: ParticleKind::Normal,
        radius: 20,
        color: blue(),
        initial_velocity: Vec2I::zero(),
        subparticles: children,
    }
}

#[test]
fn composite_split_spawns_each_child_and_removes_parent() {
    let mut world = World::new();
    let parent = composite(vec![leaf(0, 200), leaf(0, -200), leaf(200, 0)]);
    let h = world.spawn(vulnerable_instance(parent, 0, 0));
    assert_eq!(world.count_live(), 1);

    let out = world.decompose(h, 20, 500_000);
    assert_eq!(out, DecomposeOutcome::Decomposed { spawned: 3 });
    // count changed by n - 1 = +2
    assert_eq!(world.count_live(), 3);
    assert!(!world.instances[h].alive);
    // each child spawned, tagged immune, in the immune collision group
    for k in 0..3 {
        let child = &world.instances[1 + k];
        assert!(child.alive);
        assert!(child.invincibility.is_immune());
        assert_eq!(child.group, CollisionGroup::ImmuneParticle);
    }
}

#[test]
fn leaf_removal_decreases_count_by_one_and_spawns_nothing() {
    let mut world = World::new();
    let h = world.spawn(vulnerable_instance(leaf(0, 0), 50, 50));
    assert_eq!(world.count_live(), 1);

    let out = world.decompose(h, 20, 500_000);
    assert_eq!(out, DecomposeOutcome::Decomposed { spawned: 0 });
    assert_eq!(world.count_live(), 0);
    assert_eq!(world.instances.len(), 1);
}

#[test]
fn child_spawns_at_offset_along_launch_direction() {
    let mut world = World::new();
    let parent = composite(vec![leaf(0, 200)]);
    let h = world.spawn(vulnerable_instance(parent, 0, 0));
    world.decompose(h, 20, 500_000);
    // separation = parent radius + 2 * player radius + child radius = 80,
    // along the normalized velocity (0, 1)
    assert_eq!(world.instances[1].position, Vec2I::new(0, 80));
    assert_eq!(world.instances[1].velocity, Vec2I::new(0, 200));
}

#[test]
fn diagonal_offset_uses_integer_norm() {
    let mut world = World::new();
    let parent = composite(vec![leaf(300, 400)]);
    let h = world.spawn(vulnerable_instance(parent, 10, 20));
    world.decompose(h, 20, 500_000);
    // |v| = 500, separation 80: offset = (300*80/500, 400*80/500) = (48, 64)
    assert_eq!(world.instances[1].position, Vec2I::new(10 + 48, 20 + 64));
}

#[test]
fn stale_handle_fails_gracefully() {
    let mut world = World::new();
    let h = world.spawn(vulnerable_instance(leaf(0, 0), 0, 0));
    assert_eq!(
        world.decompose(h, 20, 500_000),
        DecomposeOutcome::Decomposed { spawned: 0 }
    );
    // a duplicate event naming the same target this tick is dropped
    assert_eq!(world.decompose(h, 20, 500_000), DecomposeOutcome::Missing);
    // an out-of-range handle as well
    assert_eq!(world.decompose(99, 20, 500_000), DecomposeOutcome::Missing);
    assert_eq!(world.count_live(), 0);
}

#[test]
fn immune_target_is_left_untouched() {
    let mut world = World::new();
    let parent = composite(vec![leaf(0, 200), leaf(0, -200)]);
    let mut inst = vulnerable_instance(parent, 0, 0);
    inst.invincibility = Invincibility::new(500_000);
    inst.group = CollisionGroup::ImmuneParticle;
    let h = world.spawn(inst);

    let out = world.decompose(h, 20, 500_000);
    assert_eq!(out, DecomposeOutcome::ImmuneTarget);
    assert_eq!(world.count_live(), 1);
    assert!(world.instances[h].alive);
    assert_eq!(world.instances[h].particle.subparticles.len(), 2);
}

#[test]
fn split_children_keep_their_subtrees() {
    let mut world = World::new();
    let grandchild = leaf(100, 0);
    let child = Particle {
        kind: ParticleKind::Killer,
        radius: 40,
        color: ColorRgb { r: 255, g: 0, b: 0 },
        initial_velocity: Vec2I::new(0, 200),
        subparticles: vec![grandchild],
    };
    let parent = composite(vec![child]);
    let h = world.spawn(vulnerable_instance(parent, 0, 0));
    world.decompose(h, 20, 500_000);

    let spawned = &world.instances[1];
    assert_eq!(spawned.particle.kind, ParticleKind::Killer);
    assert_eq!(spawned.particle.radius, 40);
    assert_eq!(spawned.particle.subparticles.len(), 1);
    assert!(spawned.particle.subparticles[0].tree_eq(&leaf(100, 0)));
}
