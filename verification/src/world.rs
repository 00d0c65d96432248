//! Live particle instances and the decomposition engine.
//!
//! A spawned particle instance is a live, positioned copy of a particle node
//! plus instance-only state: its invincibility window, its collision-group
//! assignment and whether it is still in play. Instances are addressed by
//! index into an arena whose slots are never reused within a level: a
//! consumed instance is marked dead rather than removed, so a stale handle
//! from a duplicate event in the same tick fails gracefully instead of
//! striking whatever was spawned later.
//!
//! Decomposing a target instance that is alive and not immune replaces it
//! with its subparticles: each child spawns at the parent's position offset
//! along the child's launch direction, starts with the child's initial
//! velocity, and is tagged immune for a fresh window. A leaf (no children)
//! simply vanishes. A dead handle and an immune target are both no-ops.

use vstd::prelude::*;

use crate::geometry::{clamp_coord_add, launch_offset, spec_clamp_coord, spec_launch_offset};
use crate::invincibility::{group_for, CollisionGroup, Invincibility};
use crate::particle::{wf_particle, Particle, Vec2I, RADIUS_LIMIT, VELOCITY_LIMIT};

verus! {

/// Largest magnitude a position coordinate may have; spawn positions are
/// clamped into this box.
pub const POSITION_LIMIT: i64 = 1_000_000_000_000_000;

/// A live, positioned, physically simulated copy of a particle node.
pub struct Instance {
    pub particle: Particle,
    pub position: Vec2I,
    pub velocity: Vec2I,
    pub invincibility: Invincibility,
    pub group: CollisionGroup,
    /// False once the instance has been consumed by decomposition.
    pub alive: bool,
}

/// Instance-level well-formedness: the particle tree is well-formed, the
/// coordinates are in range, an immune window has time left, and the
/// collision group matches the invincibility state.
pub open spec fn wf_instance(inst: Instance) -> bool {
    &&& wf_particle(inst.particle)
    &&& inst.position.in_range(POSITION_LIMIT)
    &&& inst.velocity.in_range(VELOCITY_LIMIT)
    &&& (inst.invincibility matches Invincibility::Immune { remaining } ==> remaining > 0)
    &&& inst.group == group_for(inst.invincibility)
}

/// The number of instances still in play.
pub open spec fn live_count(s: Seq<Instance>) -> nat
    decreases s,
{
    if s.len() == 0 {
        0
    } else {
        live_count(s.drop_last()) + (if s.last().alive {
            1nat
        } else {
            0nat
        })
    }
}

/// Appending an instance adds one to the live count when it is alive.
pub proof fn lemma_live_count_push(s: Seq<Instance>, x: Instance)
    ensures
        live_count(s.push(x)) == live_count(s) + (if x.alive {
            1nat
        } else {
            0nat
        }),
{
    assert(s.push(x).drop_last() =~= s);
}

/// Replacing one instance changes the live count by the difference of the
/// two liveness flags.
pub proof fn lemma_live_count_update(s: Seq<Instance>, i: int, x: Instance)
    requires
        0 <= i < s.len(),
    ensures
        live_count(s.update(i, x)) + (if s[i].alive {
            1nat
        } else {
            0nat
        }) == live_count(s) + (if x.alive {
            1nat
        } else {
            0nat
        }),
    decreases s,
{
    if i == s.len() - 1 {
        assert(s.update(i, x).drop_last() =~= s.drop_last());
    } else {
        assert(s.update(i, x).drop_last() =~= s.drop_last().update(i, x));
        lemma_live_count_update(s.drop_last(), i, x);
    }
}

/// The live count never exceeds the number of slots.
pub proof fn lemma_live_count_le_len(s: Seq<Instance>)
    ensures
        live_count(s) <= s.len(),
    decreases s,
{
    if s.len() > 0 {
        lemma_live_count_le_len(s.drop_last());
    }
}

/// A live count of zero means no instance is alive.
pub proof fn lemma_live_count_zero(s: Seq<Instance>)
    requires
        live_count(s) == 0,
    ensures
        forall|i: int| 0 <= i < s.len() ==> !(#[trigger] s[i]).alive,
    decreases s,
{
    if s.len() > 0 {
        lemma_live_count_zero(s.drop_last());
        assert forall|i: int| 0 <= i < s.len() implies !(#[trigger] s[i]).alive by {
            if i < s.len() - 1 {
                assert(s.drop_last()[i] == s[i]);
            }
        }
    }
}

/// An instance after `delta` time has elapsed on its invincibility window:
/// the window advances and the collision group follows the new state. On
/// the lapse the group moves to the one that allows player contact; nothing
/// else about the instance changes.
pub open spec fn spec_tick_instance(inst: Instance, delta: u64) -> Instance {
    let inv = inst.invincibility.spec_tick(delta);
    Instance { invincibility: inv, group: group_for(inv), ..inst }
}

/// The whole arena after one tick of the invincibility timers.
pub open spec fn spec_tick_world(s: Seq<Instance>, delta: u64) -> Seq<Instance> {
    Seq::new(s.len(), |i: int| spec_tick_instance(s[i], delta))
}

/// How many windows lapse when `delta` elapses: one completion signal each.
pub open spec fn spec_lapse_count(s: Seq<Instance>, delta: u64) -> nat
    decreases s,
{
    if s.len() == 0 {
        0
    } else {
        spec_lapse_count(s.drop_last(), delta) + (if s.last().invincibility.spec_is_immune()
            && !s.last().invincibility.spec_tick(delta).spec_is_immune() {
            1nat
        } else {
            0nat
        })
    }
}

/// Ticking the timers does not change which instances are alive.
pub proof fn lemma_tick_world_live_count(s: Seq<Instance>, delta: u64)
    ensures
        live_count(spec_tick_world(s, delta)) == live_count(s),
    decreases s,
{
    if s.len() > 0 {
        lemma_tick_world_live_count(s.drop_last(), delta);
        assert(spec_tick_world(s, delta).drop_last() =~= spec_tick_world(s.drop_last(), delta));
        assert(spec_tick_world(s, delta).last() == spec_tick_instance(s.last(), delta));
    }
}

/// The separation between a decomposing parent and a spawned child: the two
/// radii plus a fixed margin of one player diameter, biasing children apart
/// from the player to avoid an immediate re-collision on the same frame.
pub open spec fn spec_separation(parent_radius: u64, child_radius: u64, player_radius: u64) -> u64 {
    (parent_radius + 2 * player_radius + child_radius) as u64
}

/// The instance a decomposition spawns for child `k` of `parent`.
pub open spec fn spawn_of(parent: Instance, k: int, player_radius: u64, duration: u64) -> Instance {
    let child = parent.particle.subparticles@[k];
    let dist = spec_separation(parent.particle.radius, child.radius, player_radius);
    let offset = spec_launch_offset(child.initial_velocity, dist);
    Instance {
        particle: child,
        position: Vec2I {
            x: spec_clamp_coord(parent.position.x + offset.x),
            y: spec_clamp_coord(parent.position.y + offset.y),
        },
        velocity: child.initial_velocity,
        invincibility: Invincibility::Immune { remaining: duration },
        group: CollisionGroup::ImmuneParticle,
        alive: true,
    }
}

/// The parent instance after decomposition: consumed, its children taken,
/// everything else as it was.
pub open spec fn is_consumed_parent(parent: Instance, after: Instance) -> bool {
    &&& !after.alive
    &&& after.particle.kind == parent.particle.kind
    &&& after.particle.radius == parent.particle.radius
    &&& after.particle.color == parent.particle.color
    &&& after.particle.initial_velocity == parent.particle.initial_velocity
    &&& after.particle.subparticles@.len() == 0
    &&& after.position == parent.position
    &&& after.velocity == parent.velocity
    &&& after.invincibility == parent.invincibility
    &&& after.group == parent.group
}

/// What a decomposition did.
#[derive(Clone, Copy, Debug, PartialEq, Eq, Structural)]
pub enum DecomposeOutcome {
    /// The handle named no live instance: a stale reference from a duplicate
    /// event this tick. Dropped silently.
    Missing,
    /// The target is inside its invincibility window: no effect.
    ImmuneTarget,
    /// The target was consumed and its children spawned.
    Decomposed { spawned: usize },
}

/// The arena of live particle instances of one level.
pub struct World {
    pub instances: Vec<Instance>,
}

/// All instances of the world are well-formed.
pub open spec fn wf_world(w: World) -> bool {
    forall|i: int| 0 <= i < w.instances@.len() ==> wf_instance(#[trigger] w.instances@[i])
}

impl World {
    /// An empty arena.
    pub fn new() -> (w: World)
        ensures
            w.instances@.len() == 0,
            wf_world(w),
            live_count(w.instances@) == 0,
    {
        World { instances: Vec::new() }
    }

    /// Spawns one instance directly (a root particle placed by the level).
    pub fn spawn(&mut self, inst: Instance) -> (handle: usize)
        requires
            wf_world(*old(self)),
            wf_instance(inst),
        ensures
            wf_world(*final(self)),
            final(self).instances@ == old(self).instances@.push(inst),
            handle == old(self).instances@.len(),
            live_count(final(self).instances@) == live_count(old(self).instances@) + (
            if inst.alive {
                1nat
            } else {
                0nat
            }),
    {
        proof {
            lemma_live_count_push(self.instances@, inst);
        }
        let handle = self.instances.len();
        self.instances.push(inst);
        handle
    }

    /// Replaces the target instance with its subparticles.
    ///
    /// A handle that names no live instance is dropped silently: the event
    /// queue can carry duplicate references to the same target within one
    /// tick, and the second lookup must fail gracefully rather than panic.
    /// A target inside its invincibility window is left untouched. Otherwise
    /// the target is consumed and each of its `n` children spawns as a fresh
    /// immune instance, so the live count changes by `n - 1`: exactly `n`
    /// new instances for a composite, a plain removal for a leaf.
    pub fn decompose(&mut self, target: usize, player_radius: u64, duration: u64) -> (out:
        DecomposeOutcome)
        requires
            wf_world(*old(self)),
            0 < player_radius <= RADIUS_LIMIT,
            duration > 0,
        ensures
            wf_world(*final(self)),
            match out {
                DecomposeOutcome::Missing => {
                    &&& *final(self) == *old(self)
                    &&& (target >= old(self).instances@.len()
                        || !old(self).instances@[target as int].alive)
                },
                DecomposeOutcome::ImmuneTarget => {
                    &&& *final(self) == *old(self)
                    &&& target < old(self).instances@.len()
                    &&& old(self).instances@[target as int].alive
                    &&& old(self).instances@[target as int].invincibility.spec_is_immune()
                },
                DecomposeOutcome::Decomposed { spawned } => {
                    let parent = old(self).instances@[target as int];
                    &&& target < old(self).instances@.len()
                    &&& parent.alive
                    &&& !parent.invincibility.spec_is_immune()
                    &&& spawned == parent.particle.subparticles@.len()
                    &&& final(self).instances@.len() == old(self).instances@.len() + spawned
                    &&& is_consumed_parent(parent, final(self).instances@[target as int])
                    &&& forall|j: int|
                        0 <= j < old(self).instances@.len() && j != target
                            ==> final(self).instances@[j] == old(self).instances@[j]
                    &&& forall|k: int|
                        0 <= k < spawned ==> final(self).instances@[old(self).instances@.len() + k]
                            == spawn_of(parent, k, player_radius, duration)
                    &&& live_count(final(self).instances@) + 1 == live_count(old(self).instances@)
                        + spawned
                },
            },
    {
        let ghost w0 = self.instances@;
        if target >= self.instances.len() {
            return DecomposeOutcome::Missing;
        }
        if !self.instances[target].alive {
            return DecomposeOutcome::Missing;
        }
        if self.instances[target].invincibility.is_immune() {
            return DecomposeOutcome::ImmuneTarget;
        }
        let ghost parent = self.instances@[target as int];
        let parent_position = self.instances[target].position;
        let parent_radius = self.instances[target].particle.radius;
        let mut subs: Vec<Particle> = Vec::new();
        {
            let inst = &mut self.instances[target];
            inst.alive = false;
            core::mem::swap(&mut subs, &mut inst.particle.subparticles);
        }
        let ghost subs0 = parent.particle.subparticles@;
        proof {
            assert(is_consumed_parent(parent, self.instances@[target as int]));
            lemma_live_count_update(w0, target as int, self.instances@[target as int]);
            assert(wf_instance(self.instances@[target as int]));
            assert(subs@ =~= subs0.subrange(0, subs0.len() as int));
        }
        let spawned = subs.len();
        let mut k: usize = 0;
        while k < spawned
            invariant
                wf_world(*self),
                wf_instance(parent),
                spawned == subs0.len(),
                k <= spawned,
                target < w0.len(),
                parent == w0[target as int],
                parent.alive,
                subs0 == parent.particle.subparticles@,
                subs@ == subs0.subrange(k as int, spawned as int),
                parent_position == parent.position,
                parent_radius == parent.particle.radius,
                0 < player_radius <= RADIUS_LIMIT,
                duration > 0,
                self.instances@.len() == w0.len() + k,
                is_consumed_parent(parent, self.instances@[target as int]),
                forall|j: int| 0 <= j < w0.len() && j != target ==> self.instances@[j] == w0[j],
                forall|j: int|
                    0 <= j < k ==> self.instances@[w0.len() + j] == spawn_of(
                        parent,
                        j,
                        player_radius,
                        duration,
                    ),
                live_count(self.instances@) + 1 == live_count(w0) + k,
            decreases spawned - k,
        {
            let child = subs.remove(0);
            proof {
                assert(subs0.subrange(k as int, spawned as int)[0] == subs0[k as int]);
                assert(child == subs0[k as int]);
                assert(subs@ =~= subs0.subrange(k as int + 1, spawned as int));
                assert(wf_particle(subs0[k as int]));
                assert(!subs0[k as int].initial_velocity.spec_is_zero());
            }
            let dist: u64 = parent_radius + 2 * player_radius + child.radius;
            let offset = launch_offset(&child.initial_velocity, dist);
            let position = Vec2I {
                x: clamp_coord_add(parent_position.x, offset.x),
                y: clamp_coord_add(parent_position.y, offset.y),
            };
            let inst = Instance {
                position,
                velocity: child.initial_velocity,
                particle: child,
                invincibility: Invincibility::Immune { remaining: duration },
                group: CollisionGroup::ImmuneParticle,
                alive: true,
            };
            proof {
                assert(inst == spawn_of(parent, k as int, player_radius, duration));
                lemma_live_count_push(self.instances@, inst);
            }
            self.instances.push(inst);
            k += 1;
        }
        DecomposeOutcome::Decomposed { spawned }
    }

    /// Advances every instance's invincibility window by `delta` and
    /// reassigns collision groups on the transitions. Returns the number of
    /// windows that lapsed this tick: one completion signal each, consumed
    /// by nothing in the gameplay core itself but available to visual and
    /// audio cues.
    pub fn tick_invincibility(&mut self, delta: u64) -> (completions: usize)
        requires
            wf_world(*old(self)),
        ensures
            wf_world(*final(self)),
            final(self).instances@ == spec_tick_world(old(self).instances@, delta),
            completions == spec_lapse_count(old(self).instances@, delta),
            live_count(final(self).instances@) == live_count(old(self).instances@),
    {
        let ghost w0 = self.instances@;
        let mut completions: usize = 0;
        let mut i: usize = 0;
        while i < self.instances.len()
            invariant
                wf_world(*self),
                i <= self.instances@.len(),
                self.instances@.len() == w0.len(),
                completions <= i,
                completions == spec_lapse_count(w0.subrange(0, i as int), delta),
                forall|j: int|
                    0 <= j < i ==> self.instances@[j] == spec_tick_instance(w0[j], delta),
                forall|j: int| i <= j < w0.len() ==> self.instances@[j] == w0[j],
            decreases self.instances@.len() - i,
        {
            proof {
                assert(w0.subrange(0, i + 1).drop_last() =~= w0.subrange(0, i as int));
                assert(w0.subrange(0, i + 1).last() == w0[i as int]);
            }
            let was_immune = self.instances[i].invincibility.is_immune();
            let inst = &mut self.instances[i];
            let completed = inst.invincibility.tick(delta);
            inst.group = if inst.invincibility.is_immune() {
                CollisionGroup::ImmuneParticle
            } else {
                CollisionGroup::ActiveParticipant
            };
            if completed {
                completions += 1;
            }
            i += 1;
        }
        proof {
            assert(w0.subrange(0, w0.len() as int) =~= w0);
            assert(self.instances@ =~= spec_tick_world(w0, delta));
            lemma_tick_world_live_count(w0, delta);
        }
        completions
    }

    /// The number of instances still in play.
    pub fn count_live(&self) -> (n: usize)
        ensures
            n == live_count(self.instances@),
    {
        let mut n: usize = 0;
        let mut i: usize = 0;
        while i < self.instances.len()
            invariant
                i <= self.instances@.len(),
                n == live_count(self.instances@.subrange(0, i as int)),
                n <= i,
            decreases self.instances@.len() - i,
        {
            proof {
                assert(self.instances@.subrange(0, i + 1).drop_last() =~= self.instances@.subrange(
                    0,
                    i as int,
                ));
            }
            if self.instances[i].alive {
                n += 1;
            }
            i += 1;
        }
        proof {
            assert(self.instances@.subrange(0, self.instances@.len() as int) =~= self.instances@);
        }
        n
    }
}

} // verus!
