//! The invincibility window and collision-group assignment.
//!
//! An instance born from a split starts Immune for a fixed duration; root
//! instances present at level spawn start Vulnerable. While Immune an
//! instance cannot trigger nor be the target of a decomposition, and its
//! collision group keeps it off the player. When the remaining time reaches
//! zero the instance becomes Vulnerable, its group is reassigned to the one
//! that allows player contact, and a completion signal is emitted once for
//! other systems (visual and audio cues). Once started the timer always
//! completes: there is no way to extend or cancel it.
//!
//! Durations and frame deltas are in microseconds.

use vstd::prelude::*;

verus! {

/// The state of one instance's invincibility window.
#[derive(Clone, Copy, Debug, PartialEq, Eq, Structural)]
pub enum Invincibility {
    /// Inside the window; `remaining` is always positive.
    Immune { remaining: u64 },
    /// The window has lapsed, or the instance never had one.
    Vulnerable,
}

impl Invincibility {
    /// A fresh window. The duration must be positive so that a child spawned
    /// in the same tick that the timers were advanced cannot lapse in the
    /// tick it was born.
    pub fn new(duration: u64) -> (r: Invincibility)
        requires
            duration > 0,
        ensures
            r == (Invincibility::Immune { remaining: duration }),
    {
        Invincibility::Immune { remaining: duration }
    }

    pub open spec fn spec_is_immune(self) -> bool {
        self is Immune
    }

    pub fn is_immune(&self) -> (r: bool)
        ensures
            r == self.spec_is_immune(),
    {
        match *self {
            Invincibility::Immune { .. } => true,
            Invincibility::Vulnerable => false,
        }
    }

    /// The state after `delta` time has elapsed.
    pub open spec fn spec_tick(self, delta: u64) -> Invincibility {
        match self {
            Invincibility::Immune { remaining } => {
                if delta >= remaining {
                    Invincibility::Vulnerable
                } else {
                    Invincibility::Immune { remaining: (remaining - delta) as u64 }
                }
            },
            Invincibility::Vulnerable => Invincibility::Vulnerable,
        }
    }

    /// Advances the window by `delta`. Returns true exactly when the window
    /// lapses on this tick: the transition's one-shot completion signal.
    pub fn tick(&mut self, delta: u64) -> (completed: bool)
        ensures
            *final(self) == old(self).spec_tick(delta),
            completed == (old(self).spec_is_immune() && !final(self).spec_is_immune()),
    {
        match *self {
            Invincibility::Immune { remaining } => {
                if delta >= remaining {
                    *self = Invincibility::Vulnerable;
                    true
                } else {
                    *self = Invincibility::Immune { remaining: remaining - delta };
                    false
                }
            },
            Invincibility::Vulnerable => false,
        }
    }
}

/// The state after a whole sequence of frame deltas, in order.
pub open spec fn spec_tick_all(inv: Invincibility, deltas: Seq<u64>) -> Invincibility
    decreases deltas,
{
    if deltas.len() == 0 {
        inv
    } else {
        spec_tick_all(inv.spec_tick(deltas[0]), deltas.drop_first())
    }
}

/// The total time a sequence of frame deltas spans.
pub open spec fn spec_total(deltas: Seq<u64>) -> int
    decreases deltas,
{
    if deltas.len() == 0 {
        0
    } else {
        deltas[0] + spec_total(deltas.drop_first())
    }
}

/// A span of time is never negative.
pub proof fn lemma_total_nonneg(deltas: Seq<u64>)
    ensures
        spec_total(deltas) >= 0,
    decreases deltas,
{
    if deltas.len() > 0 {
        lemma_total_nonneg(deltas.drop_first());
    }
}

/// Once lapsed, always lapsed: no retry and no way to rearm.
pub proof fn lemma_vulnerable_stays(deltas: Seq<u64>)
    ensures
        spec_tick_all(Invincibility::Vulnerable, deltas) == Invincibility::Vulnerable,
    decreases deltas,
{
    if deltas.len() > 0 {
        lemma_vulnerable_stays(deltas.drop_first());
    }
}

/// A fresh window stays Immune through any sequence of ticks whose total
/// elapsed time is below its duration, and becomes Vulnerable exactly when
/// the duration has elapsed entirely: an instance can never be struck
/// before its configured window has fully passed.
pub proof fn lemma_window_lapses_exactly(duration: u64, deltas: Seq<u64>)
    requires
        duration > 0,
    ensures
        spec_tick_all(Invincibility::Immune { remaining: duration }, deltas) == (if spec_total(
            deltas,
        ) < duration {
            Invincibility::Immune { remaining: (duration - spec_total(deltas)) as u64 }
        } else {
            Invincibility::Vulnerable
        }),
    decreases deltas,
{
    if deltas.len() > 0 {
        let first = deltas[0];
        if first >= duration {
            lemma_vulnerable_stays(deltas.drop_first());
            lemma_total_nonneg(deltas.drop_first());
        } else {
            lemma_window_lapses_exactly((duration - first) as u64, deltas.drop_first());
        }
    }
}

/// The three-way physical collision partition.
///
/// Terrain (obstacles and screen bounds) collides with everything. The
/// active participants (the player and vulnerable particles) collide with
/// terrain and with each other. A particle inside its invincibility window
/// collides with terrain only: it cannot touch the player until the window
/// lapses. Semantic "touched" events come from separate overlap-only sensor
/// colliders and are the collision classifier's business, independent of
/// this physical partition.
#[derive(Clone, Copy, Debug, PartialEq, Eq, Structural)]
pub enum CollisionGroup {
    Terrain,
    ActiveParticipant,
    ImmuneParticle,
}

/// The collision group an instance must carry for its invincibility state.
pub open spec fn group_for(inv: Invincibility) -> CollisionGroup {
    if inv.spec_is_immune() {
        CollisionGroup::ImmuneParticle
    } else {
        CollisionGroup::ActiveParticipant
    }
}

/// Whether two groups interact physically.
pub open spec fn spec_collides(a: CollisionGroup, b: CollisionGroup) -> bool {
    match (a, b) {
        (CollisionGroup::Terrain, _) => true,
        (_, CollisionGroup::Terrain) => true,
        (CollisionGroup::ActiveParticipant, CollisionGroup::ActiveParticipant) => true,
        _ => false,
    }
}

/// Whether two groups interact physically.
pub fn collides(a: CollisionGroup, b: CollisionGroup) -> (r: bool)
    ensures
        r == spec_collides(a, b),
{
    match (a, b) {
        (CollisionGroup::Terrain, _) => true,
        (_, CollisionGroup::Terrain) => true,
        (CollisionGroup::ActiveParticipant, CollisionGroup::ActiveParticipant) => true,
        _ => false,
    }
}

/// The partition's guarantees: terrain collides with everything, the
/// relation is symmetric, and an immune particle never collides with an
/// active participant (in particular, not with the player).
pub proof fn lemma_collision_partition(a: CollisionGroup, b: CollisionGroup)
    ensures
        spec_collides(CollisionGroup::Terrain, a),
        spec_collides(a, b) == spec_collides(b, a),
        !spec_collides(CollisionGroup::ImmuneParticle, CollisionGroup::ActiveParticipant),
{
}

} // verus!
