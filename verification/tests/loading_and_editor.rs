//! Level ordering and lookup, and the editor's state machine.

use shatter::editor::{preview_items, EditorMode, EditorState, PlacedObject, PreviewIndex};
use shatter::level::LevelData;
use shatter::level_loading::{
    bytes_eq, default_level_order, find_custom_level, parse_numeric_name,
};
use shatter::particle::Vec2I;

fn named(name: &str) -> LevelData {
    let mut d = LevelData::empty();
    d.name.extend_from_slice(name.as_bytes());
    d
}

#[test]
fn numeric_names_parse_exactly() {
    assert_eq!(parse_numeric_name(&b"0".to_vec()), Some(0));
    assert_eq!(parse_numeric_name(&b"7".to_vec()), Some(7));
    assert_eq!(parse_numeric_name(&b"40".to_vec()), Some(40));
    assert_eq!(parse_numeric_name(&b"18446744073709551615".to_vec()), Some(u64::MAX));
    // anything but a canonical numeral is a loading error
    assert_eq!(parse_numeric_name(&b"".to_vec()), None);
    assert_eq!(parse_numeric_name(&b"01".to_vec()), None);
    assert_eq!(parse_numeric_name(&b"1a".to_vec()), None);
    assert_eq!(parse_numeric_name(&b"-1".to_vec()), None);
    assert_eq!(parse_numeric_name(&b"Example".to_vec()), None);
    assert_eq!(parse_numeric_name(&b"18446744073709551616".to_vec()), None);
}

#[test]
fn default_levels_are_ordered_by_numeric_name() {
    let levels = vec![named("2"), named("0"), named("10"), named("1")];
    let order = default_level_order(&levels).expect("all names numeric");
    assert_eq!(order, vec![1, 3, 0, 2]);
}

#[test]
fn a_non_numeric_default_name_aborts_loading() {
    let levels = vec![named("0"), named("one")];
    assert!(default_level_order(&levels).is_none());
}

#[test]
fn custom_levels_are_found_by_embedded_name() {
    let levels = vec![named("alpha"), named("beta"), named("alpha")];
    assert_eq!(find_custom_level(&levels, &b"beta".to_vec()), Some(1));
    // the first of two with the same name wins
    assert_eq!(find_custom_level(&levels, &b"alpha".to_vec()), Some(0));
    assert_eq!(find_custom_level(&levels, &b"gamma".to_vec()), None);
    assert!(bytes_eq(&b"abc".to_vec(), &b"abc".to_vec()));
    assert!(!bytes_eq(&b"abc".to_vec(), &b"abd".to_vec()));
}

#[test]
fn placing_appends_defaults_at_the_click() {
    let mut e = EditorState::new();
    assert!(e.place_object(Vec2I::new(10, 20)));
    assert_eq!(e.level.particles.len(), 1);
    assert_eq!(e.level.particles[0].spawn_position, Vec2I::new(10, 20));
    assert_eq!(e.level.particles[0].particle.radius, 20);
    assert!(e.level.particles[0].particle.subparticles.is_empty());

    e.placement = PlacedObject::Obstacle;
    assert!(e.place_object(Vec2I::new(-5, 0)));
    assert_eq!(e.level.obstacles.len(), 1);
    assert_eq!(e.level.obstacles[0].position, Vec2I::new(-5, 0));
    assert_eq!(e.level.obstacles[0].width, 50);
    assert_eq!(e.level.obstacles[0].height, 50);
    assert!(!e.level.obstacles[0].is_killer);

    // in select mode a click places nothing
    e.mode = EditorMode::Select;
    assert!(!e.place_object(Vec2I::new(1, 1)));
    assert_eq!(e.level.particles.len(), 1);
    assert_eq!(e.level.obstacles.len(), 1);
}

#[test]
fn deleting_the_selection_removes_it_and_clears_it() {
    let mut e = EditorState::new();
    e.place_object(Vec2I::new(1, 1));
    e.place_object(Vec2I::new(2, 2));
    e.place_object(Vec2I::new(3, 3));
    e.select(PreviewIndex::Particle(1));
    assert!(e.delete_selected());
    assert_eq!(e.level.particles.len(), 2);
    assert_eq!(e.level.particles[0].spawn_position, Vec2I::new(1, 1));
    assert_eq!(e.level.particles[1].spawn_position, Vec2I::new(3, 3));
    assert_eq!(e.selected, None);

    // the player cannot be deleted
    e.select(PreviewIndex::Player);
    assert!(!e.delete_selected());
    assert_eq!(e.level.particles.len(), 2);
}

#[test]
fn clear_returns_to_an_empty_level() {
    let mut e = EditorState::new();
    e.place_object(Vec2I::new(1, 1));
    e.select(PreviewIndex::Particle(0));
    e.clear();
    assert!(e.level.particles.is_empty());
    assert!(e.level.obstacles.is_empty());
    assert_eq!(e.selected, None);
}

#[test]
fn preview_mirrors_the_model() {
    let mut e = EditorState::new();
    e.level.player_spawn = Vec2I::new(9, 9);
    e.place_object(Vec2I::new(1, 1));
    e.place_object(Vec2I::new(2, 2));
    e.placement = PlacedObject::Obstacle;
    e.place_object(Vec2I::new(3, 3));

    let items = preview_items(&e.level);
    assert_eq!(items.len(), 4);
    assert_eq!(items[0].index, PreviewIndex::Player);
    assert_eq!(items[0].position, Vec2I::new(9, 9));
    assert_eq!(items[1].index, PreviewIndex::Particle(0));
    assert_eq!(items[1].position, Vec2I::new(1, 1));
    assert_eq!(items[2].index, PreviewIndex::Particle(1));
    assert_eq!(items[2].position, Vec2I::new(2, 2));
    assert_eq!(items[3].index, PreviewIndex::Obstacle(0));
    assert_eq!(items[3].position, Vec2I::new(3, 3));
}

#[test]
fn play_hands_out_a_structural_copy_and_print_emits_the_file_text() {
    let mut e = EditorState::new();
    e.level.name.push(b'x');
    e.place_object(Vec2I::new(4, 5));
    let played = e.play();
    assert_eq!(played.particles.len(), 1);
    assert!(played.particles[0].particle.tree_eq(&e.level.particles[0].particle));

    let text = e.print();
    let reparsed = shatter::codec::parse_level(&text).expect("printed text parses");
    assert_eq!(reparsed.particles.len(), 1);
    assert_eq!(reparsed.name, e.level.name);

    e.exit();
    assert!(!e.editing);
}

#[test]
fn levels_with_equal_numeric_names_still_sort() {
    let levels = vec![named("3"), named("3"), named("1")];
    let order = default_level_order(&levels).expect("all names numeric");
    assert_eq!(order.len(), 3);
    assert_eq!(order[0], 2);
    // the two levels named alike each appear exactly once
    let mut rest = vec![order[1], order[2]];
    rest.sort();
    assert_eq!(rest, vec![0, 1]);
}
