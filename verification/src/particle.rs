//! The particle tree: a recursive description of a splittable game object.
//!
//! A particle with a non-empty `subparticles` list is a composite that splits
//! into its children on its first non-immune collision; a particle with no
//! subparticles is a terminal leaf that vanishes on collision. A Killer
//! particle ends the run when it touches the player.
//!
//! Positions, velocities and radii are integer world coordinates. A particle
//! authored as a child of a composite must have a nonzero initial velocity:
//! the decomposition engine normalizes that velocity to place the child, and
//! a zero vector has no direction. This is a data-validation invariant of the
//! level model, not a runtime branch.

use vstd::prelude::*;

verus! {

/// Largest magnitude a coordinate of a stored velocity may have.
pub const VELOCITY_LIMIT: i64 = 1_000_000_000;

/// Largest radius a particle or the player may have.
pub const RADIUS_LIMIT: u64 = 1_000_000;

/// A two-dimensional integer vector (position or velocity).
#[derive(Clone, Copy, Debug, PartialEq, Eq, Structural)]
pub struct Vec2I {
    pub x: i64,
    pub y: i64,
}

impl Vec2I {
    pub open spec fn spec_is_zero(self) -> bool {
        self.x == 0 && self.y == 0
    }

    pub fn is_zero(&self) -> (r: bool)
        ensures
            r == self.spec_is_zero(),
    {
        self.x == 0 && self.y == 0
    }

    /// Both coordinates have magnitude at most `limit`.
    pub open spec fn in_range(self, limit: i64) -> bool {
        -limit <= self.x <= limit && -limit <= self.y <= limit
    }

    pub fn new(x: i64, y: i64) -> (r: Vec2I)
        ensures
            r.x == x,
            r.y == y,
    {
        Vec2I { x, y }
    }

    pub fn zero() -> (r: Vec2I)
        ensures
            r.spec_is_zero(),
    {
        Vec2I { x: 0, y: 0 }
    }
}

/// An sRGB colour with 8-bit channels.
#[derive(Clone, Copy, Debug, PartialEq, Eq, Structural)]
pub struct ColorRgb {
    pub r: u8,
    pub g: u8,
    pub b: u8,
}

impl ColorRgb {
    pub fn new(r: u8, g: u8, b: u8) -> (c: ColorRgb)
        ensures
            c.r == r,
            c.g == g,
            c.b == b,
    {
        ColorRgb { r, g, b }
    }
}

/// Whether a particle bounces off the player or ends the run on contact.
#[derive(Clone, Copy, Debug, PartialEq, Eq, Structural)]
pub enum ParticleKind {
    Normal,
    Killer,
}

/// A recursive node describing a splittable game object.
pub struct Particle {
    pub kind: ParticleKind,
    pub radius: u64,
    pub color: ColorRgb,
    pub initial_velocity: Vec2I,
    pub subparticles: Vec<Particle>,
}

/// Well-formedness of a particle tree: the radius is positive and bounded,
/// the velocity is bounded, and every subparticle is well-formed and carries
/// a nonzero initial velocity (it must have a launch direction when its
/// parent splits). The root's own velocity may be zero: root particles are
/// placed by the level, not launched from a split.
pub open spec fn wf_particle(p: Particle) -> bool
    decreases p,
{
    &&& 0 < p.radius <= RADIUS_LIMIT
    &&& p.initial_velocity.in_range(VELOCITY_LIMIT)
    &&& forall|i: int|
        0 <= i < p.subparticles@.len() ==> wf_particle(#[trigger] p.subparticles@[i])
            && !p.subparticles@[i].initial_velocity.spec_is_zero()
}

/// Structural equality of two particle trees: every field equal, child by
/// child.
pub open spec fn same_particle(a: Particle, b: Particle) -> bool
    decreases a,
{
    &&& a.kind == b.kind
    &&& a.radius == b.radius
    &&& a.color == b.color
    &&& a.initial_velocity == b.initial_velocity
    &&& a.subparticles@.len() == b.subparticles@.len()
    &&& forall|i: int|
        0 <= i < a.subparticles@.len() ==> same_particle(
            #[trigger] a.subparticles@[i],
            b.subparticles@[i],
        )
}

/// Structural equality of two particle forests, tree by tree.
pub open spec fn same_particle_seq(a: Seq<Particle>, b: Seq<Particle>) -> bool {
    a.len() == b.len() && forall|i: int|
        0 <= i < a.len() ==> same_particle(#[trigger] a[i], b[i])
}

/// Structural equality is reflexive.
pub proof fn lemma_same_particle_refl(a: Particle)
    ensures
        same_particle(a, a),
    decreases a,
{
    assert forall|i: int| 0 <= i < a.subparticles@.len() implies same_particle(
        #[trigger] a.subparticles@[i],
        a.subparticles@[i],
    ) by {
        lemma_same_particle_refl(a.subparticles@[i]);
    }
}

impl Particle {
    /// Structural comparison of two particle trees.
    pub fn tree_eq(&self, other: &Particle) -> (r: bool)
        ensures
            r == same_particle(*self, *other),
        decreases *self,
    {
        if !(self.kind == other.kind && self.radius == other.radius && self.color == other.color
            && self.initial_velocity.x == other.initial_velocity.x && self.initial_velocity.y
            == other.initial_velocity.y) {
            return false;
        }
        if self.subparticles.len() != other.subparticles.len() {
            return false;
        }
        let mut i: usize = 0;
        while i < self.subparticles.len()
            invariant
                i <= self.subparticles@.len(),
                self.subparticles@.len() == other.subparticles@.len(),
                forall|j: int|
                    0 <= j < i ==> same_particle(
                        #[trigger] self.subparticles@[j],
                        other.subparticles@[j],
                    ),
            decreases self.subparticles@.len() - i,
        {
            if !self.subparticles[i].tree_eq(&other.subparticles[i]) {
                return false;
            }
            i += 1;
        }
        true
    }

    /// A leaf with the given radius, colour and launch velocity.
    pub fn leaf(kind: ParticleKind, radius: u64, color: ColorRgb, initial_velocity: Vec2I) -> (p:
        Particle)
        ensures
            p.kind == kind,
            p.radius == radius,
            p.color == color,
            p.initial_velocity == initial_velocity,
            p.subparticles@.len() == 0,
            0 < radius <= RADIUS_LIMIT && initial_velocity.in_range(VELOCITY_LIMIT)
                ==> wf_particle(p),
    {
        Particle { kind, radius, color, initial_velocity, subparticles: Vec::new() }
    }

    /// Checks well-formedness of the whole tree.
    pub fn check_wf(&self) -> (r: bool)
        ensures
            r == wf_particle(*self),
        decreases *self,
    {
        if !(0 < self.radius && self.radius <= RADIUS_LIMIT) {
            return false;
        }
        if !(-VELOCITY_LIMIT <= self.initial_velocity.x && self.initial_velocity.x
            <= VELOCITY_LIMIT && -VELOCITY_LIMIT <= self.initial_velocity.y
            && self.initial_velocity.y <= VELOCITY_LIMIT) {
            return false;
        }
        let mut i: usize = 0;
        while i < self.subparticles.len()
            invariant
                i <= self.subparticles@.len(),
                0 < self.radius <= RADIUS_LIMIT,
                self.initial_velocity.in_range(VELOCITY_LIMIT),
                forall|j: int|
                    0 <= j < i ==> wf_particle(#[trigger] self.subparticles@[j])
                        && !self.subparticles@[j].initial_velocity.spec_is_zero(),
            decreases self.subparticles@.len() - i,
        {
            let sub = &self.subparticles[i];
            if sub.initial_velocity.is_zero() {
                return false;
            }
            if !sub.check_wf() {
                return false;
            }
            i += 1;
        }
        true
    }
}

/// Structurally equal trees are equally well-formed.
pub proof fn lemma_same_particle_wf(a: Particle, b: Particle)
    requires
        same_particle(a, b),
        wf_particle(a),
    ensures
        wf_particle(b),
    decreases a,
{
    assert forall|i: int| 0 <= i < b.subparticles@.len() implies wf_particle(
        #[trigger] b.subparticles@[i],
    ) && !b.subparticles@[i].initial_velocity.spec_is_zero() by {
        assert(same_particle(a.subparticles@[i], b.subparticles@[i]));
        assert(wf_particle(a.subparticles@[i]));
        lemma_same_particle_wf(a.subparticles@[i], b.subparticles@[i]);
    }
}

impl Clone for Particle {
    /// A deep copy: the clone is structurally equal to the original.
    fn clone(&self) -> (r: Particle)
        ensures
            same_particle(*self, r),
        decreases *self,
    {
        let mut subparticles: Vec<Particle> = Vec::new();
        let mut i: usize = 0;
        while i < self.subparticles.len()
            invariant
                i <= self.subparticles@.len(),
                subparticles@.len() == i,
                forall|j: int|
                    0 <= j < i ==> same_particle(
                        #[trigger] self.subparticles@[j],
                        subparticles@[j],
                    ),
            decreases self.subparticles@.len() - i,
        {
            subparticles.push(self.subparticles[i].clone());
            i += 1;
        }
        Particle {
            kind: self.kind,
            radius: self.radius,
            color: self.color,
            initial_velocity: self.initial_velocity,
            subparticles,
        }
    }
}

impl Default for Particle {
    /// The particle the editor places by default: a normal blue leaf of
    /// radius 20 with no velocity.
    fn default() -> (p: Particle)
        ensures
            p.kind == ParticleKind::Normal,
            p.radius == 20,
            p.color == (ColorRgb { r: 0x0f, g: 0x95, b: 0xe2 }),
            p.initial_velocity.spec_is_zero(),
            p.subparticles@.len() == 0,
            wf_particle(p),
    {
        Particle {
            kind: ParticleKind::Normal,
            radius: 20,
            color: ColorRgb { r: 0x0f, g: 0x95, b: 0xe2 },
            initial_velocity: Vec2I { x: 0, y: 0 },
            subparticles: Vec::new(),
        }
    }
}

} // verus!
