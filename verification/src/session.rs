//! One level attempt: the per-tick composition of the gameplay core.
//!
//! All phases of a simulation tick run as one ordered sequence with no
//! preemption: the invincibility timers advance first (so a child spawned
//! later in the same tick cannot lapse in the tick it was born), then the
//! frame's raw contacts are classified, then the decomposition the
//! classification calls for runs, then the frame's summed spawn and despawn
//! counts reach the level progression state machine, and finally the
//! completion delay advances. The level's particle count and state are owned
//! by that state machine alone; this module reports to it and never writes
//! them directly.
//!
//! The outside world drives this: the host performs input capture, physics
//! stepping and rendering, hands each tick's contact events and elapsed time
//! in, and carries the returned signals out.

use vstd::prelude::*;

use crate::classifier::{
    lemma_classify_batch_in_range, spec_classify_batch, ContactEvent, EntityArena, SemanticEvent,
};
use crate::invincibility::{CollisionGroup, Invincibility};
use crate::level::{
    spec_apply_delta, spec_delta_starts_delay, spec_tick_delay, wf_level_data, wf_level_instance,
    CompletionDelay, Level, LevelData, LevelInstance,
};
use crate::particle::{lemma_same_particle_wf, same_particle, RADIUS_LIMIT};
use crate::timescale::{TimeScaleController, TimeScaleKind};
use crate::world::{
    lemma_live_count_le_len, lemma_live_count_zero, live_count, spec_lapse_count, spec_tick_world,
    wf_world, DecomposeOutcome, Instance, World,
};

verus! {

/// What one tick reported back to the host.
#[derive(Clone, Copy, Debug, PartialEq, Eq, Structural)]
pub struct TickOutput {
    /// The one semantic event classified from this tick's contacts.
    pub semantic: Option<SemanticEvent>,
    /// Instances spawned by decomposition this tick.
    pub spawned: usize,
    /// Instances consumed this tick.
    pub despawned: usize,
    /// Invincibility windows that lapsed this tick.
    pub invincibility_completions: usize,
    /// Whether the completion delay started this tick.
    pub delay_started: bool,
    /// Whether the level ended this tick (`EndLevel`).
    pub end_level: bool,
}

/// A live, running attempt at one level.
pub struct GameSession {
    pub world: World,
    pub level: LevelInstance,
    pub time: TimeScaleController,
    /// False once a killer contact destroyed the player.
    pub player_alive: bool,
    /// Whether the player may launch; regained on impact, spent on launch.
    pub player_can_move: bool,
    pub player_radius: u64,
    /// Seeded into every split-born instance; always positive.
    pub invincibility_duration: u64,
}

/// Session-wide well-formedness: the world and the level instance are well
/// formed, and the level's particle count mirrors the world's live count
/// exactly (the single-writer bookkeeping discipline).
pub open spec fn wf_session(s: GameSession) -> bool {
    &&& wf_world(s.world)
    &&& wf_level_instance(s.level)
    &&& s.level.particle_count == live_count(s.world.instances@)
    &&& 0 < s.player_radius <= RADIUS_LIMIT
    &&& s.invincibility_duration > 0
}

impl GameSession {
    /// Spawns a fresh attempt from a level description: one vulnerable
    /// instance per root particle, the player alive and free to move, time
    /// at normal speed.
    pub fn start(
        data: LevelData,
        identity: Option<Level>,
        player_radius: u64,
        invincibility_duration: u64,
    ) -> (s: GameSession)
        requires
            wf_level_data(data),
            0 < player_radius <= RADIUS_LIMIT,
            invincibility_duration > 0,
        ensures
            wf_session(s),
            s.level.data == data,
            s.level.identity == identity,
            s.world.instances@.len() == data.particles@.len(),
            s.level.particle_count == data.particles@.len(),
            forall|i: int|
                0 <= i < data.particles@.len() ==> {
                    let inst = #[trigger] s.world.instances@[i];
                    &&& same_particle(data.particles@[i].particle, inst.particle)
                    &&& inst.position == data.particles@[i].spawn_position
                    &&& inst.invincibility is Vulnerable
                    &&& inst.alive
                },
            s.player_alive,
            s.player_can_move,
            s.time.automatic == TimeScaleKind::Normal,
            s.time.manual_override is None,
            data.particles@.len() == 0 ==> s.level.delay is Running,
            data.particles@.len() > 0 ==> s.level.delay is NotStarted,
    {
        let mut world = World::new();
        let n = data.particles.len();
        let mut i: usize = 0;
        while i < n
            invariant
                wf_world(world),
                wf_level_data(data),
                i <= n,
                n == data.particles@.len(),
                world.instances@.len() == i,
                live_count(world.instances@) == i,
                forall|j: int|
                    0 <= j < i ==> {
                        let inst = #[trigger] world.instances@[j];
                        &&& same_particle(data.particles@[j].particle, inst.particle)
                        &&& inst.position == data.particles@[j].spawn_position
                        &&& inst.invincibility is Vulnerable
                        &&& inst.alive
                    },
            decreases n - i,
        {
            let pd = &data.particles[i];
            let particle = pd.particle.clone();
            proof {
                lemma_same_particle_wf(data.particles@[i as int].particle, particle);
            }
            let inst = Instance {
                position: pd.spawn_position,
                velocity: particle.initial_velocity,
                particle,
                invincibility: Invincibility::Vulnerable,
                group: CollisionGroup::ActiveParticipant,
                alive: true,
            };
            world.spawn(inst);
            i += 1;
        }
        let mut level = LevelInstance::spawn_from(data, identity);
        level.apply_particle_delta(n, 0);
        GameSession {
            world,
            level,
            time: TimeScaleController::new(),
            player_alive: true,
            player_can_move: true,
            player_radius,
            invincibility_duration,
        }
    }

    /// Runs one simulation tick: timers, classification, decomposition,
    /// bookkeeping, completion delay, in that order.
    #[verifier::rlimit(80)]
    #[verifier::spinoff_prover]
    pub fn step(&mut self, arena: &EntityArena, events: &Vec<ContactEvent>, delta: u64) -> (out:
        TickOutput)
        requires
            wf_session(*old(self)),
        ensures
            wf_session(*final(self)),
            final(self).player_radius == old(self).player_radius,
            final(self).invincibility_duration == old(self).invincibility_duration,
            final(self).level.data == old(self).level.data,
            final(self).level.identity == old(self).level.identity,
            out.semantic == spec_classify_batch(arena.entities@, events@),
            out.invincibility_completions == spec_lapse_count(old(self).world.instances@, delta),
            // Exact bookkeeping: the summed deltas of the tick reach the
            // state machine once, then the completion delay advances.
            final(self).level == spec_tick_delay(
                spec_apply_delta(old(self).level, out.spawned, out.despawned),
                delta,
            ),
            out.delay_started == spec_delta_starts_delay(
                old(self).level,
                out.spawned,
                out.despawned,
            ),
            out.end_level == (spec_apply_delta(old(self).level, out.spawned, out.despawned).delay
                matches CompletionDelay::Running { remaining } && delta >= remaining),
            live_count(final(self).world.instances@) + out.despawned == live_count(
                old(self).world.instances@,
            ) + out.spawned,
            // A fatal contact destroys the player, clears the override and
            // restores normal speed; the particle population is untouched.
            out.semantic matches Some(SemanticEvent::KillEvent { .. }) ==> {
                &&& !final(self).player_alive
                &&& final(self).time.manual_override is None
                &&& final(self).time.automatic == TimeScaleKind::Normal
                &&& out.spawned == 0 && out.despawned == 0
                &&& final(self).world.instances@ == spec_tick_world(
                    old(self).world.instances@,
                    delta,
                )
            },
            // Nothing classified: nothing decomposed.
            out.semantic is None ==> out.spawned == 0 && out.despawned == 0
                && final(self).world.instances@ == spec_tick_world(
                old(self).world.instances@,
                delta,
            ),
            // A struck particle: while its invincibility window holds, no
            // decomposition occurs and time stays as it was; once the
            // window has lapsed, the target is consumed, its children
            // spawn, the player regains its move and time slows.
            out.semantic matches Some(SemanticEvent::PlayerParticleCollision { particle }) ==> {
                let ticked = spec_tick_world(old(self).world.instances@, delta);
                let h = arena.entities@[particle as int].instance;
                &&& (h < ticked.len() && ticked[h as int].alive && ticked[
                    h as int
                ].invincibility.spec_is_immune()) ==> {
                    &&& out.spawned == 0 && out.despawned == 0
                    &&& final(self).world.instances@ == ticked
                    &&& final(self).time == old(self).time
                    &&& final(self).player_can_move == old(self).player_can_move
                }
                &&& (h < ticked.len() && ticked[h as int].alive && !ticked[
                    h as int
                ].invincibility.spec_is_immune()) ==> {
                    &&& out.despawned == 1
                    &&& out.spawned == ticked[h as int].particle.subparticles@.len()
                    // unless this very strike cleared the level, which
                    // restores normal speed and parks the player
                    &&& !out.delay_started ==> final(self).player_can_move
                        && final(self).time.automatic == TimeScaleKind::Slowed
                }
            },
    {
        let ghost w_start = self.world.instances@;
        // Phase 1: advance the invincibility windows.
        let completions = self.world.tick_invincibility(delta);
        let ghost w_ticked = self.world.instances@;
        // Phase 2: classify this tick's raw contacts.
        let semantic = arena.classify_batch(events);
        proof {
            lemma_classify_batch_in_range(arena.entities@, events@);
            lemma_live_count_le_len(w_ticked);
        }
        // Phase 3: decompose what the classification calls for.
        let mut spawned: usize = 0;
        let mut despawned: usize = 0;
        match semantic {
            Some(SemanticEvent::PlayerParticleCollision { particle }) => {
                let handle = arena.entities[particle].instance;
                let out = self.world.decompose(
                    handle,
                    self.player_radius,
                    self.invincibility_duration,
                );
                match out {
                    DecomposeOutcome::Decomposed { spawned: n } => {
                        spawned = n;
                        despawned = 1;
                        self.player_can_move = true;
                        self.time.set_automatic(TimeScaleKind::Slowed);
                        proof {
                            if !(self.level.delay is NotStarted) {
                                lemma_live_count_zero(w_ticked);
                            }
                        }
                    },
                    _ => {},
                }
            },
            Some(SemanticEvent::ParticleParticleCollision { particle1, particle2 }) => {
                let handle1 = arena.entities[particle1].instance;
                let handle2 = arena.entities[particle2].instance;
                let out1 = self.world.decompose(
                    handle1,
                    self.player_radius,
                    self.invincibility_duration,
                );
                match out1 {
                    DecomposeOutcome::Decomposed { spawned: n } => {
                        spawned = n;
                        despawned = 1;
                        proof {
                            if !(self.level.delay is NotStarted) {
                                lemma_live_count_zero(w_ticked);
                            }
                        }
                    },
                    _ => {},
                }
                let ghost w_mid = self.world.instances@;
                let out2 = self.world.decompose(
                    handle2,
                    self.player_radius,
                    self.invincibility_duration,
                );
                match out2 {
                    DecomposeOutcome::Decomposed { spawned: n } => {
                        let cur_len = self.world.instances.len();
                        proof {
                            lemma_live_count_le_len(w_mid);
                            if !(self.level.delay is NotStarted) {
                                lemma_live_count_zero(w_mid);
                            }
                            assert(cur_len == w_mid.len() + n);
                            assert(spawned + n <= cur_len);
                        }
                        spawned = spawned + n;
                        despawned = despawned + 1;
                    },
                    _ => {},
                }
            },
            Some(SemanticEvent::KillEvent { .. }) => {
                self.player_alive = false;
                self.time.set_override(None);
                self.time.set_automatic(TimeScaleKind::Normal);
            },
            None => {},
        }
        // Phase 4: one summed bookkeeping report for the whole tick.
        let total_len = self.world.instances.len();
        proof {
            assert(total_len == w_ticked.len() + spawned);
            assert(self.level.particle_count + spawned <= total_len);
        }
        let delay_started = self.level.apply_particle_delta(spawned, despawned);
        if delay_started {
            proof {
                if spawned == 0 && despawned == 0 {
                    // the delay starts only on a cleared level, where no
                    // instance is alive to be struck
                    lemma_live_count_zero(w_ticked);
                }
            }
            self.player_can_move = false;
            self.time.set_override(None);
            self.time.set_automatic(TimeScaleKind::Normal);
        }
        // Phase 5: advance the completion delay.
        let end_level = self.level.tick_completion(delta);
        TickOutput {
            semantic,
            spawned,
            despawned,
            invincibility_completions: completions,
            delay_started,
            end_level,
        }
    }

    /// The player launched: the move is spent and time returns to normal.
    /// The impulse itself is the physics engine's business.
    pub fn player_launched(&mut self) -> (launched: bool)
        ensures
            launched == (old(self).player_alive && old(self).player_can_move),
            final(self).world == old(self).world,
            final(self).level == old(self).level,
            final(self).player_alive == old(self).player_alive,
            final(self).player_radius == old(self).player_radius,
            final(self).invincibility_duration == old(self).invincibility_duration,
            launched ==> !final(self).player_can_move && final(self).time.automatic
                == TimeScaleKind::Normal && final(self).time.manual_override == old(
                self,
            ).time.manual_override,
            !launched ==> *final(self) == *old(self),
    {
        if self.player_alive && self.player_can_move {
            self.player_can_move = false;
            self.time.set_automatic(TimeScaleKind::Normal);
            true
        } else {
            false
        }
    }

    /// Restarts the attempt from the level's retained snapshot: the current
    /// instances are torn down and fresh vulnerable roots rise, with the
    /// player restored and time back to normal.
    pub fn restart(self) -> (s: GameSession)
        requires
            wf_session(self),
            wf_level_data(self.level.data),
        ensures
            wf_session(s),
            s.level.data == self.level.data,
            s.level.identity == self.level.identity,
            s.world.instances@.len() == self.level.data.particles@.len(),
            s.level.particle_count == self.level.data.particles@.len(),
            s.player_alive,
            s.player_can_move,
            s.time.automatic == TimeScaleKind::Normal,
            s.time.manual_override is None,
    {
        let level = self.level.restart();
        let LevelInstance { data, identity, .. } = level;
        GameSession::start(data, identity, self.player_radius, self.invincibility_duration)
    }
}

} // verus!
