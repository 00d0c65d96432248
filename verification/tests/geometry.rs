//! Integer geometry: the floor square root and the launch offset.

use shatter::geometry::{clamp_coord_add, isqrt, launch_offset};
use shatter::particle::Vec2I;

#[test]
fn isqrt_exact_values() {
    assert_eq!(isqrt(0), 0);
    assert_eq!(isqrt(1), 1);
    assert_eq!(isqrt(3), 1);
    assert_eq!(isqrt(4), 2);
    assert_eq!(isqrt(10), 3);
    assert_eq!(isqrt(99), 9);
    assert_eq!(isqrt(100), 10);
    assert_eq!(isqrt(2_000_000_000_000_000_000), 1_414_213_562);
}

#[test]
fn launch_offset_normalizes_to_the_separation() {
    // |v| = 5, scaled to 10: (3,4) -> (6,8)
    assert_eq!(launch_offset(&Vec2I::new(3, 4), 10), Vec2I::new(6, 8));
    // axis-aligned: the full distance along the axis, with sign
    assert_eq!(launch_offset(&Vec2I::new(0, 200), 80), Vec2I::new(0, 80));
    assert_eq!(launch_offset(&Vec2I::new(-200, 0), 80), Vec2I::new(-80, 0));
    // floor division on the magnitudes: |(1,1)| rounds down to 1
    assert_eq!(launch_offset(&Vec2I::new(1, 1), 10), Vec2I::new(10, 10));
    assert_eq!(launch_offset(&Vec2I::new(-3, -4), 10), Vec2I::new(-6, -8));
}

#[test]
fn positions_clamp_into_the_world_box() {
    assert_eq!(clamp_coord_add(5, -12), -7);
    assert_eq!(
        clamp_coord_add(1_000_000_000_000_000, 100),
        1_000_000_000_000_000
    );
    assert_eq!(
        clamp_coord_add(-1_000_000_000_000_000, -100),
        -1_000_000_000_000_000
    );
}
