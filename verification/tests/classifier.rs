//! Collision classification: the ancestor walk, the rule order and the
//! one-event-per-batch policy.

use shatter::classifier::{ContactEvent, EntityArena, EntityInfo, SemanticEvent};

fn entity() -> EntityInfo {
    EntityInfo {
        parent: None,
        has_rigid_body: false,
        is_player: false,
        is_particle: false,
        is_killer: false,
        instance: 0,
    }
}

/// A small scene: a player and a particle, each with a sensor child that
/// carries the collider but no rigid body.
fn scene() -> EntityArena {
    let mut arena = EntityArena::new();
    // 0: player body
    arena.add(EntityInfo { has_rigid_body: true, is_player: true, ..entity() });
    // 1: player sensor
    arena.add(EntityInfo { parent: Some(0), ..entity() });
    // 2: particle body (instance 0)
    arena.add(EntityInfo { has_rigid_body: true, is_particle: true, ..entity() });
    // 3: particle sensor
    arena.add(EntityInfo { parent: Some(2), ..entity() });
    // 4: a stray root entity with no rigid body anywhere above it
    arena.add(EntityInfo { parent: None, ..entity() });
    arena
}

#[test]
fn ancestor_walk_resolves_sensor_to_body() {
    let arena = scene();
    assert_eq!(arena.find_rigidbody_ancestor(1), Some(0));
    assert_eq!(arena.find_rigidbody_ancestor(3), Some(2));
    assert_eq!(arena.find_rigidbody_ancestor(0), Some(0));
    // out of range: dropped silently
    assert_eq!(arena.find_rigidbody_ancestor(99), None);
}

#[test]
fn player_particle_contact_classifies_through_sensors() {
    let arena = scene();
    let r = arena.classify_contact(1, 3);
    assert_eq!(r, Some(SemanticEvent::PlayerParticleCollision { particle: 2 }));
    // order of the pair does not matter
    let r = arena.classify_contact(3, 1);
    assert_eq!(r, Some(SemanticEvent::PlayerParticleCollision { particle: 2 }));
}

#[test]
fn particle_particle_contact() {
    let mut arena = scene();
    // 5: second particle body
    arena.add(EntityInfo { has_rigid_body: true, is_particle: true, instance: 1, ..entity() });
    let r = arena.classify_contact(3, 5);
    assert_eq!(
        r,
        Some(SemanticEvent::ParticleParticleCollision { particle1: 2, particle2: 5 })
    );
}

#[test]
fn killer_contact_wins_over_particle_rules() {
    let mut arena = scene();
    // 5: a Killer particle body: fatal on player contact, it does not split
    arena.add(EntityInfo {
        has_rigid_body: true,
        is_particle: true,
        is_killer: true,
        instance: 1,
        ..entity()
    });
    let r = arena.classify_contact(1, 5);
    assert_eq!(r, Some(SemanticEvent::KillEvent { player: 0 }));
}

#[test]
fn unresolved_handle_drops_the_contact() {
    let arena = scene();
    assert_eq!(arena.classify_contact(4, 3), None);
}

#[test]
fn first_matching_contact_wins_and_scanning_stops() {
    let mut arena = scene();
    arena.add(EntityInfo { has_rigid_body: true, is_particle: true, instance: 1, ..entity() });
    let events = vec![
        // a stopped contact is skipped
        ContactEvent::Stopped { collider1: 1, collider2: 3 },
        // an unresolved contact is dropped, scanning continues
        ContactEvent::Started { collider1: 4, collider2: 3 },
        // the first classifiable contact wins
        ContactEvent::Started { collider1: 3, collider2: 5 },
        // a later contact this frame is deferred to the next tick
        ContactEvent::Started { collider1: 1, collider2: 3 },
    ];
    let r = arena.classify_batch(&events);
    assert_eq!(
        r,
        Some(SemanticEvent::ParticleParticleCollision { particle1: 2, particle2: 5 })
    );
}

#[test]
fn empty_batch_classifies_nothing() {
    let arena = scene();
    assert_eq!(arena.classify_batch(&Vec::new()), None);
}
