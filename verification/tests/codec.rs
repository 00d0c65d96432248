//! The level file format: exact text, the round trip and rejection of
//! malformed files.

use shatter::codec::{parse_level, serialize_level};
use shatter::level::{LevelData, ObstacleData, ParticleData};
use shatter::particle::{ColorRgb, Particle, ParticleKind, Vec2I};

fn level_eq(a: &LevelData, b: &LevelData) -> bool {
    a.name == b.name && a.author == b.author && a.player_spawn == b.player_spawn
        && a.obstacles == b.obstacles && a.particles.len() == b.particles.len()
        && a.particles.iter().zip(b.particles.iter()).all(|(x, y)| {
            x.spawn_position == y.spawn_position && x.particle.tree_eq(&y.particle)
        })
}

#[test]
fn empty_level_serializes_to_exact_text() {
    let mut d = LevelData::empty();
    d.name.push(b'0');
    let out = serialize_level(&d);
    assert_eq!(String::from_utf8(out).unwrap(), "(\"0\",None,[],[],(0,0))");
}

#[test]
fn one_particle_level_serializes_to_exact_text() {
    let mut d = LevelData::empty();
    d.name.extend_from_slice(b"lab");
    d.author = Some(b"me".to_vec());
    d.player_spawn = Vec2I::new(-7, 12);
    d.particles.push(ParticleData {
        spawn_position: Vec2I::new(3, -4),
        particle: Particle::leaf(
            ParticleKind::Killer,
            40,
            ColorRgb { r: 255, g: 0, b: 0 },
            Vec2I::new(0, -200),
        ),
    });
    d.obstacles.push(ObstacleData {
        position: Vec2I::new(100, 0),
        rotation: -4500,
        color: ColorRgb { r: 255, g: 255, b: 255 },
        width: 50,
        height: 50,
        is_killer: true,
    });
    let out = serialize_level(&d);
    assert_eq!(
        String::from_utf8(out).unwrap(),
        "(\"lab\",Some(\"me\"),[((3,-4),(Killer,40,(255,0,0),(0,-200),[]))],\
         [((100,0),-4500,(255,255,255),50,50,true)],(-7,12))"
    );
}

#[test]
fn round_trip_reproduces_the_example_level() {
    let d = LevelData::example();
    let bytes = serialize_level(&d);
    let parsed = parse_level(&bytes).expect("a serialized level must parse");
    assert!(level_eq(&d, &parsed));
    // and the reproduction is structural, not textual identity only
    assert_eq!(parsed.particles.len(), 2);
    assert_eq!(parsed.obstacles.len(), 1);
    assert_eq!(parsed.particles[0].particle.subparticles.len(), 2);
    assert_eq!(
        parsed.particles[0].particle.subparticles[1].kind,
        ParticleKind::Killer
    );
    assert_eq!(
        parsed.particles[0].particle.subparticles[0].subparticles.len(),
        2
    );
}

#[test]
fn round_trip_of_a_nested_edited_level() {
    let mut d = LevelData::example();
    d.author = Some(b"the author".to_vec());
    d.player_spawn = Vec2I::new(-123456789, 987654321);
    d.particles[1].particle.subparticles[0].radius = 77;
    let bytes = serialize_level(&d);
    let parsed = parse_level(&bytes).expect("a serialized level must parse");
    assert!(level_eq(&d, &parsed));
    // parsing is exact: the reparsed level re-serializes byte for byte
    let bytes2 = serialize_level(&parsed);
    let bytes = serialize_level(&d);
    assert_eq!(bytes, bytes2);
}

#[test]
fn malformed_files_are_rejected() {
    for text in [
        "",
        "(",
        "(\"0\",None,[],[],(0,0)",        // missing final parenthesis
        "(\"0\",None,[],[],(0,0)) ",      // trailing byte
        "(\"0\",None,[],[],(0, 0))",      // whitespace is not canonical
        "(\"0\",None,[],[],(00,0))",      // leading zero
        "(\"0\",None,[],[],(-0,0))",      // negative zero
        "(\"0\",none,[],[],(0,0))",       // wrong keyword
        "(\"0\",None,[(],[],(0,0))",      // broken list
        "(\"0\",None,[],[],(0,99999999999999999999))", // numeral too large
        "(\"0\",None,[],[],\"x\")",       // wrong field shape
    ] {
        assert!(
            parse_level(&text.as_bytes().to_vec()).is_none(),
            "should reject {text:?}"
        );
    }
}

#[test]
fn parse_accepts_only_the_canonical_text() {
    let text = "(\"9\",None,[],[((0,1),0,(1,2,3),5,6,false)],(2,-3))";
    let parsed = parse_level(&text.as_bytes().to_vec()).expect("canonical text parses");
    assert_eq!(parsed.obstacles[0].width, 5);
    assert_eq!(parsed.obstacles[0].rotation, 0);
    assert!(!parsed.obstacles[0].is_killer);
    // what parsed re-serializes to the same bytes: the format is canonical
    assert_eq!(serialize_level(&parsed), text.as_bytes().to_vec());
}

#[test]
fn validation_rejects_zero_velocity_children_and_quoted_names() {
    let mut d = LevelData::empty();
    d.name.push(b'a');
    // a composite whose child has a zero launch velocity cannot be played
    let parent = Particle {
        kind: ParticleKind::Normal,
        radius: 20,
        color: ColorRgb { r: 15, g: 149, b: 226 },
        initial_velocity: Vec2I::zero(),
        subparticles: vec![Particle::leaf(
            ParticleKind::Normal,
            20,
            ColorRgb { r: 15, g: 149, b: 226 },
            Vec2I::zero(),
        )],
    };
    d.particles.push(ParticleData { spawn_position: Vec2I::zero(), particle: parent });
    assert!(!d.validate());

    let mut d = LevelData::empty();
    d.name.push(b'"');
    assert!(!d.validate());

    let mut d = LevelData::empty();
    d.name.push(b'x');
    assert!(d.validate());
    assert!(LevelData::example().validate());

    // a zero radius cannot be played either
    let mut d = LevelData::empty();
    d.particles.push(ParticleData {
        spawn_position: Vec2I::zero(),
        particle: Particle::leaf(
            ParticleKind::Normal,
            0,
            ColorRgb { r: 0, g: 0, b: 0 },
            Vec2I::zero(),
        ),
    });
    assert!(!d.validate());
}
