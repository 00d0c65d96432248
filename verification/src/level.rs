//! The level data model and the level progression state machine.
//!
//! A level is a serializable description: a name, an optional author, a
//! player spawn point, a list of rectangular obstacles and a forest of
//! particle trees with their spawn positions. A level instance is a live,
//! playable spawn of that data: it keeps the snapshot it was spawned from
//! (so a restart needs no re-resolution of the asset), a live particle
//! count, a completion state and the end-of-level delay timer.
//!
//! The particle count is owned by the state machine alone; other systems
//! report spawns and despawns and the deltas of one tick are summed and
//! applied once at end of frame, so several decrements crossing zero in the
//! same tick start the completion delay exactly once.

use vstd::prelude::*;

use crate::particle::{wf_particle, ColorRgb, Particle, ParticleKind, Vec2I};
use crate::world::POSITION_LIMIT;

verus! {

/// How long a cleared level lingers before `EndLevel`, in microseconds.
pub const COMPLETION_DELAY: u64 = 2_000_000;

/// Largest width or height an obstacle may have.
pub const OBSTACLE_SIZE_LIMIT: u64 = 1_000_000;

/// A particle tree and where its root spawns.
pub struct ParticleData {
    pub spawn_position: Vec2I,
    pub particle: Particle,
}

/// An axis-aligned rectangle placed in the level, optionally rotated.
/// Its physical collider is always derived from the same width and height
/// as its visual mesh (see `collider_half_extents`).
#[derive(Clone, Copy, Debug, PartialEq, Eq, Structural)]
pub struct ObstacleData {
    pub position: Vec2I,
    /// Rotation around the obstacle's centre, in thousandths of a degree.
    pub rotation: i64,
    pub color: ColorRgb,
    pub width: u64,
    pub height: u64,
    /// A killer obstacle ends the run when the player touches it.
    pub is_killer: bool,
}

impl ObstacleData {
    pub open spec fn spec_wf(self) -> bool {
        &&& self.position.in_range(POSITION_LIMIT)
        &&& -360_000 <= self.rotation <= 360_000
        &&& 0 < self.width <= OBSTACLE_SIZE_LIMIT
        &&& 0 < self.height <= OBSTACLE_SIZE_LIMIT
    }

    /// The half extents of the obstacle's collider: always half the visual
    /// rectangle's dimensions, so geometry and collider cannot drift apart.
    pub fn collider_half_extents(&self) -> (r: (u64, u64))
        ensures
            r.0 == self.width / 2,
            r.1 == self.height / 2,
    {
        (self.width / 2, self.height / 2)
    }

    /// The obstacle the editor places by default: a white 50 by 50 square.
    pub fn default_at(position: Vec2I) -> (o: ObstacleData)
        ensures
            o == (ObstacleData {
                position,
                rotation: 0i64,
                color: ColorRgb { r: 255, g: 255, b: 255 },
                width: 50u64,
                height: 50u64,
                is_killer: false,
            }),
            position.in_range(POSITION_LIMIT) ==> o.spec_wf(),
    {
        ObstacleData {
            position,
            rotation: 0,
            color: ColorRgb { r: 255, g: 255, b: 255 },
            width: 50,
            height: 50,
            is_killer: false,
        }
    }
}

/// Text stored in a level file: it may hold any byte but the double quote,
/// which delimits strings in the level file format.
pub open spec fn wf_text(s: Seq<u8>) -> bool {
    forall|i: int| 0 <= i < s.len() ==> s[i] != 34u8
}

/// Structural equality of two placed particles.
pub open spec fn same_particle_data(a: ParticleData, b: ParticleData) -> bool {
    a.spawn_position == b.spawn_position && crate::particle::same_particle(a.particle, b.particle)
}

/// Structural equality of two level descriptions: same name, author,
/// obstacle list, particle forest and player spawn point.
pub open spec fn same_level_data(a: LevelData, b: LevelData) -> bool {
    &&& a.name@ == b.name@
    &&& match (a.author, b.author) {
        (None, None) => true,
        (Some(x), Some(y)) => x@ == y@,
        _ => false,
    }
    &&& a.particles@.len() == b.particles@.len()
    &&& forall|i: int|
        0 <= i < a.particles@.len() ==> same_particle_data(#[trigger] a.particles@[i], b.particles@[i])
    &&& a.obstacles@ == b.obstacles@
    &&& a.player_spawn == b.player_spawn
}

/// A serializable description of one level.
pub struct LevelData {
    pub name: Vec<u8>,
    pub author: Option<Vec<u8>>,
    pub particles: Vec<ParticleData>,
    pub obstacles: Vec<ObstacleData>,
    pub player_spawn: Vec2I,
}

/// Well-formedness of the whole level description: valid text fields, every
/// particle tree well-formed and placed in range, every obstacle
/// well-formed, the player spawn in range.
pub open spec fn wf_level_data(d: LevelData) -> bool {
    &&& wf_text(d.name@)
    &&& (d.author matches Some(a) ==> wf_text(a@))
    &&& forall|i: int|
        0 <= i < d.particles@.len() ==> wf_particle((#[trigger] d.particles@[i]).particle)
            && d.particles@[i].spawn_position.in_range(POSITION_LIMIT)
    &&& forall|i: int| 0 <= i < d.obstacles@.len() ==> (#[trigger] d.obstacles@[i]).spec_wf()
    &&& d.player_spawn.in_range(POSITION_LIMIT)
}

impl LevelData {
    /// An empty, unnamed level: what the editor starts from.
    pub fn empty() -> (d: LevelData)
        ensures
            d.name@.len() == 0,
            d.author is None,
            d.particles@.len() == 0,
            d.obstacles@.len() == 0,
            d.player_spawn.spec_is_zero(),
            wf_level_data(d),
    {
        LevelData {
            name: Vec::new(),
            author: None,
            particles: Vec::new(),
            obstacles: Vec::new(),
            player_spawn: Vec2I { x: 0, y: 0 },
        }
    }

    /// Checks well-formedness of the whole description. A level that fails
    /// this check cannot be played correctly and must be rejected at load
    /// time rather than silently defaulted.
    pub fn validate(&self) -> (r: bool)
        ensures
            r == wf_level_data(*self),
    {
        let mut i: usize = 0;
        while i < self.name.len()
            invariant
                i <= self.name@.len(),
                forall|j: int| 0 <= j < i ==> self.name@[j] != 34u8,
            decreases self.name@.len() - i,
        {
            if self.name[i] == 34 {
                return false;
            }
            i += 1;
        }
        match &self.author {
            Some(author) => {
                let mut i: usize = 0;
                while i < author.len()
                    invariant
                        i <= author@.len(),
                        self.author matches Some(a) && a@ == author@,
                        forall|j: int| 0 <= j < i ==> author@[j] != 34u8,
                    decreases author@.len() - i,
                {
                    if author[i] == 34 {
                        return false;
                    }
                    i += 1;
                }
            },
            None => {},
        }
        let mut i: usize = 0;
        while i < self.particles.len()
            invariant
                i <= self.particles@.len(),
                wf_text(self.name@),
                self.author matches Some(a) ==> wf_text(a@),
                forall|j: int|
                    0 <= j < i ==> wf_particle((#[trigger] self.particles@[j]).particle)
                        && self.particles@[j].spawn_position.in_range(POSITION_LIMIT),
            decreases self.particles@.len() - i,
        {
            let pd = &self.particles[i];
            if !(-POSITION_LIMIT <= pd.spawn_position.x && pd.spawn_position.x <= POSITION_LIMIT
                && -POSITION_LIMIT <= pd.spawn_position.y && pd.spawn_position.y
                <= POSITION_LIMIT) {
                return false;
            }
            if !pd.particle.check_wf() {
                return false;
            }
            i += 1;
        }
        let mut i: usize = 0;
        while i < self.obstacles.len()
            invariant
                i <= self.obstacles@.len(),
                wf_text(self.name@),
                self.author matches Some(a) ==> wf_text(a@),
                forall|j: int|
                    0 <= j < self.particles@.len() ==> wf_particle(
                        (#[trigger] self.particles@[j]).particle,
                    ) && self.particles@[j].spawn_position.in_range(POSITION_LIMIT),
                forall|j: int| 0 <= j < i ==> (#[trigger] self.obstacles@[j]).spec_wf(),
            decreases self.obstacles@.len() - i,
        {
            let ob = &self.obstacles[i];
            if !(-POSITION_LIMIT <= ob.position.x && ob.position.x <= POSITION_LIMIT
                && -POSITION_LIMIT <= ob.position.y && ob.position.y <= POSITION_LIMIT) {
                return false;
            }
            if !(-360_000 <= ob.rotation && ob.rotation <= 360_000) {
                return false;
            }
            if !(0 < ob.width && ob.width <= OBSTACLE_SIZE_LIMIT) {
                return false;
            }
            if !(0 < ob.height && ob.height <= OBSTACLE_SIZE_LIMIT) {
                return false;
            }
            i += 1;
        }
        if !(-POSITION_LIMIT <= self.player_spawn.x && self.player_spawn.x <= POSITION_LIMIT
            && -POSITION_LIMIT <= self.player_spawn.y && self.player_spawn.y <= POSITION_LIMIT) {
            return false;
        }
        true
    }
}

impl LevelData {
    /// A small built-in level: one composite whose second child is a Killer,
    /// a composite of two leaves, and one white square obstacle.
    pub fn example() -> (d: LevelData)
        ensures
            wf_level_data(d),
            d.particles@.len() == 2,
            d.obstacles@.len() == 1,
            d.particles@[0].particle.subparticles@.len() == 2,
            d.particles@[0].particle.subparticles@[1].kind == ParticleKind::Killer,
            d.particles@[1].particle.subparticles@.len() == 2,
            d.player_spawn.spec_is_zero(),
            d.author is None,
    {
        let mut name: Vec<u8> = Vec::new();
        name.push(69);
        name.push(120);
        name.push(97);
        name.push(109);
        name.push(112);
        name.push(108);
        name.push(101);
        proof {
            assert(wf_text(name@)) by {
                assert(name@ =~= seq![69u8, 120u8, 97u8, 109u8, 112u8, 108u8, 101u8]);
            }
        }
        let blue = ColorRgb { r: 0x0f, g: 0x95, b: 0xe2 };
        let leaf_a = Particle::leaf(ParticleKind::Normal, 20, blue, Vec2I { x: 200, y: 0 });
        let leaf_b = Particle::leaf(ParticleKind::Normal, 20, blue, Vec2I { x: -200, y: 0 });
        let mut inner: Vec<Particle> = Vec::new();
        inner.push(leaf_a);
        inner.push(leaf_b);
        let sub_a = Particle {
            kind: ParticleKind::Normal,
            radius: 20,
            color: blue,
            initial_velocity: Vec2I { x: 0, y: -200 },
            subparticles: inner,
        };
        proof {
            assert(wf_particle(sub_a));
        }
        let sub_b = Particle::leaf(
            ParticleKind::Killer,
            40,
            ColorRgb { r: 255, g: 0, b: 0 },
            Vec2I { x: 0, y: 200 },
        );
        let mut first_subs: Vec<Particle> = Vec::new();
        first_subs.push(sub_a);
        first_subs.push(sub_b);
        let first = Particle {
            kind: ParticleKind::Normal,
            radius: 20,
            color: blue,
            initial_velocity: Vec2I { x: 0, y: 0 },
            subparticles: first_subs,
        };
        proof {
            assert(wf_particle(first));
        }
        let leaf_c = Particle::leaf(ParticleKind::Normal, 20, blue, Vec2I { x: 0, y: -200 });
        let leaf_d = Particle::leaf(ParticleKind::Normal, 20, blue, Vec2I { x: 0, y: 200 });
        let mut second_subs: Vec<Particle> = Vec::new();
        second_subs.push(leaf_c);
        second_subs.push(leaf_d);
        let second = Particle {
            kind: ParticleKind::Normal,
            radius: 20,
            color: blue,
            initial_velocity: Vec2I { x: 0, y: 0 },
            subparticles: second_subs,
        };
        proof {
            assert(wf_particle(second));
        }
        let mut particles: Vec<ParticleData> = Vec::new();
        particles.push(ParticleData { spawn_position: Vec2I { x: -100, y: 0 }, particle: first });
        particles.push(ParticleData { spawn_position: Vec2I { x: -300, y: 0 }, particle: second });
        let mut obstacles: Vec<ObstacleData> = Vec::new();
        obstacles.push(
            ObstacleData {
                position: Vec2I { x: 100, y: 0 },
                rotation: 0,
                color: ColorRgb { r: 255, g: 255, b: 255 },
                width: 50,
                height: 50,
                is_killer: false,
            },
        );
        LevelData { name, author: None, particles, obstacles, player_spawn: Vec2I { x: 0, y: 0 } }
    }
}

impl Clone for ParticleData {
    /// A deep copy: structurally equal to the original.
    fn clone(&self) -> (r: ParticleData)
        ensures
            same_particle_data(*self, r),
    {
        ParticleData { spawn_position: self.spawn_position, particle: self.particle.clone() }
    }
}

impl Clone for LevelData {
    /// A deep copy: structurally equal to the original.
    fn clone(&self) -> (r: LevelData)
        ensures
            same_level_data(*self, r),
    {
        let mut name: Vec<u8> = Vec::new();
        let mut i: usize = 0;
        while i < self.name.len()
            invariant
                i <= self.name@.len(),
                name@ == self.name@.subrange(0, i as int),
            decreases self.name@.len() - i,
        {
            name.push(self.name[i]);
            proof {
                assert(name@ =~= self.name@.subrange(0, i + 1));
            }
            i += 1;
        }
        proof {
            assert(name@ =~= self.name@);
        }
        let author: Option<Vec<u8>> = match &self.author {
            None => None,
            Some(a) => {
                let mut copy: Vec<u8> = Vec::new();
                let mut i: usize = 0;
                while i < a.len()
                    invariant
                        i <= a@.len(),
                        copy@ == a@.subrange(0, i as int),
                    decreases a@.len() - i,
                {
                    copy.push(a[i]);
                    proof {
                        assert(copy@ =~= a@.subrange(0, i + 1));
                    }
                    i += 1;
                }
                proof {
                    assert(copy@ =~= a@);
                }
                Some(copy)
            },
        };
        let mut particles: Vec<ParticleData> = Vec::new();
        let mut i: usize = 0;
        while i < self.particles.len()
            invariant
                i <= self.particles@.len(),
                particles@.len() == i,
                forall|j: int|
                    0 <= j < i ==> same_particle_data(
                        #[trigger] self.particles@[j],
                        particles@[j],
                    ),
            decreases self.particles@.len() - i,
        {
            particles.push(self.particles[i].clone());
            i += 1;
        }
        let mut obstacles: Vec<ObstacleData> = Vec::new();
        let mut i: usize = 0;
        while i < self.obstacles.len()
            invariant
                i <= self.obstacles@.len(),
                obstacles@ == self.obstacles@.subrange(0, i as int),
            decreases self.obstacles@.len() - i,
        {
            obstacles.push(self.obstacles[i]);
            proof {
                assert(obstacles@ =~= self.obstacles@.subrange(0, i + 1));
            }
            i += 1;
        }
        proof {
            assert(obstacles@ =~= self.obstacles@);
        }
        LevelData { name, author, particles, obstacles, player_spawn: self.player_spawn }
    }
}

/// How a level instance is addressed: a numbered default level, or a custom
/// level addressed by the name embedded in its file.
pub enum Level {
    Default(usize),
    Custom(Vec<u8>),
}

/// The completion state of a level instance.
#[derive(Clone, Copy, Debug, PartialEq, Eq, Structural)]
pub enum LevelState {
    Playing,
    Ended,
}

/// The end-of-level delay: started exactly once, when the particle count
/// reaches zero, and never restarted or cancelled.
#[derive(Clone, Copy, Debug, PartialEq, Eq, Structural)]
pub enum CompletionDelay {
    NotStarted,
    Running { remaining: u64 },
    Finished,
}

/// A live, playable spawn of a level description.
pub struct LevelInstance {
    /// The snapshot this instance was spawned from, kept for restarts.
    pub data: LevelData,
    /// The identity under which the level was launched; `None` for a level
    /// played straight from the editor.
    pub identity: Option<Level>,
    /// Live particle instances in this level. Owned by this state machine:
    /// other systems only report spawns and despawns.
    pub particle_count: usize,
    pub state: LevelState,
    pub delay: CompletionDelay,
}

/// The state machine's invariant: the completion delay runs or has finished
/// only once the level is cleared, and an ended level has finished its
/// delay.
pub open spec fn wf_level_instance(li: LevelInstance) -> bool {
    &&& !(li.delay is NotStarted) ==> li.particle_count == 0
    &&& li.state is Ended ==> li.delay is Finished
}

/// The particle count and delay after one frame's summed spawn and despawn
/// reports.
pub open spec fn spec_apply_delta(li: LevelInstance, spawned: usize, despawned: usize)
    -> LevelInstance {
    if li.state is Ended {
        li
    } else {
        let count = (li.particle_count + spawned - despawned) as usize;
        LevelInstance {
            particle_count: count,
            delay: if count == 0 && li.delay is NotStarted {
                CompletionDelay::Running { remaining: COMPLETION_DELAY }
            } else {
                li.delay
            },
            ..li
        }
    }
}

/// Whether that frame starts the completion delay.
pub open spec fn spec_delta_starts_delay(li: LevelInstance, spawned: usize, despawned: usize)
    -> bool {
    &&& !(li.state is Ended)
    &&& li.particle_count + spawned - despawned == 0
    &&& li.delay is NotStarted
}

/// The instance after `delta` time has elapsed on the completion delay.
pub open spec fn spec_tick_delay(li: LevelInstance, delta: u64) -> LevelInstance {
    match li.delay {
        CompletionDelay::Running { remaining } => {
            if delta >= remaining {
                LevelInstance { delay: CompletionDelay::Finished, state: LevelState::Ended, ..li }
            } else {
                LevelInstance {
                    delay: CompletionDelay::Running { remaining: (remaining - delta) as u64 },
                    ..li
                }
            }
        },
        _ => li,
    }
}

impl LevelInstance {
    /// Spawns a fresh instance from a level description. The particle count
    /// starts at zero: the caller spawns the root particles and reports them
    /// through `apply_particle_delta`.
    pub fn spawn_from(data: LevelData, identity: Option<Level>) -> (li: LevelInstance)
        ensures
            li.data == data,
            li.identity == identity,
            li.particle_count == 0,
            li.state is Playing,
            li.delay is NotStarted,
            wf_level_instance(li),
    {
        LevelInstance {
            data,
            identity,
            particle_count: 0,
            state: LevelState::Playing,
            delay: CompletionDelay::NotStarted,
        }
    }

    /// Applies one frame's summed spawn and despawn counts.
    ///
    /// The count never goes negative: one frame cannot despawn more than
    /// what lived plus what it spawned. A cleared level spawns nothing new
    /// (decomposition needs a live particle), and an ended level ignores
    /// reports entirely. Reaching zero starts the completion delay, and only
    /// its first crossing does: the delay is started at most once per
    /// instance, however many decrements arrive in one tick.
    pub fn apply_particle_delta(&mut self, spawned: usize, despawned: usize) -> (delay_started:
        bool)
        requires
            wf_level_instance(*old(self)),
            despawned <= old(self).particle_count + spawned,
            old(self).particle_count + spawned <= usize::MAX,
            !(old(self).delay is NotStarted) ==> spawned == 0,
        ensures
            wf_level_instance(*final(self)),
            *final(self) == spec_apply_delta(*old(self), spawned, despawned),
            delay_started == spec_delta_starts_delay(*old(self), spawned, despawned),
    {
        if matches!(self.state, LevelState::Ended) {
            return false;
        }
        let count = self.particle_count + spawned - despawned;
        self.particle_count = count;
        if count == 0 && matches!(self.delay, CompletionDelay::NotStarted) {
            self.delay = CompletionDelay::Running { remaining: COMPLETION_DELAY };
            true
        } else {
            false
        }
    }

    /// Advances the completion delay. Returns true exactly when the delay
    /// elapses on this tick: the level transitions to Ended and `EndLevel`
    /// is emitted, once.
    pub fn tick_completion(&mut self, delta: u64) -> (ended: bool)
        requires
            wf_level_instance(*old(self)),
        ensures
            wf_level_instance(*final(self)),
            *final(self) == spec_tick_delay(*old(self), delta),
            ended == (old(self).delay matches CompletionDelay::Running { remaining } && delta
                >= remaining),
    {
        match self.delay {
            CompletionDelay::Running { remaining } => {
                if delta >= remaining {
                    self.delay = CompletionDelay::Finished;
                    self.state = LevelState::Ended;
                    true
                } else {
                    self.delay = CompletionDelay::Running { remaining: remaining - delta };
                    false
                }
            },
            _ => false,
        }
    }

    /// Restarts the level: the instance is torn down and a fresh one rises
    /// from the same retained snapshot, not from a re-resolved asset, so an
    /// edited or editor-played level restarts correctly.
    pub fn restart(self) -> (li: LevelInstance)
        ensures
            li.data == self.data,
            li.identity == self.identity,
            li.particle_count == 0,
            li.state is Playing,
            li.delay is NotStarted,
            wf_level_instance(li),
    {
        LevelInstance {
            particle_count: 0,
            state: LevelState::Playing,
            delay: CompletionDelay::NotStarted,
            ..self
        }
    }
}

/// What consuming `EndLevel` does next.
#[derive(Clone, Copy, Debug, PartialEq, Eq, Structural)]
pub enum EndLevelAction {
    /// Spawn the next numbered default level and destroy this instance.
    NextLevel { id: usize },
    /// No next level exists: the whole session ends at the "game complete"
    /// screen.
    GameComplete,
    /// An editor-played level returns to the editor.
    ReturnToEditor,
    /// A level without identity outside the editor returns to level select.
    ReturnToLevelSelect,
}

/// Decides what follows a finished level. Advancing past a custom level is
/// not supported: custom levels are launched one at a time.
pub fn end_level_action(
    identity: &Option<Level>,
    default_level_count: usize,
    editor_editing: bool,
) -> (action: EndLevelAction)
    requires
        !(identity matches Some(Level::Custom(_))),
        identity matches Some(Level::Default(id)) ==> id < default_level_count,
    ensures
        identity is None && editor_editing ==> action == EndLevelAction::ReturnToEditor,
        identity is None && !editor_editing ==> action == EndLevelAction::ReturnToLevelSelect,
        identity matches Some(Level::Default(id)) ==> action == (if id + 1 < default_level_count {
            EndLevelAction::NextLevel { id: (id + 1) as usize }
        } else {
            EndLevelAction::GameComplete
        }),
{
    match identity {
        None => {
            if editor_editing {
                EndLevelAction::ReturnToEditor
            } else {
                EndLevelAction::ReturnToLevelSelect
            }
        },
        Some(Level::Default(id)) => {
            let next = *id + 1;
            if next < default_level_count {
                EndLevelAction::NextLevel { id: next }
            } else {
                EndLevelAction::GameComplete
            }
        },
        Some(Level::Custom(_)) => {
            // Excluded by the precondition; kept total for the compiler.
            EndLevelAction::ReturnToLevelSelect
        },
    }
}

/// The completion delay moves only forward: once started it never returns
/// to NotStarted under any transition, and only a report that finds it
/// NotStarted (on a zero count, while Playing) starts it. Together these
/// make "reaching zero" the sole trigger, firing exactly once per instance.
pub proof fn lemma_delay_started_once(
    li: LevelInstance,
    spawned: usize,
    despawned: usize,
    delta: u64,
)
    requires
        despawned <= li.particle_count + spawned,
    ensures
        !(li.delay is NotStarted) ==> !(spec_apply_delta(li, spawned, despawned).delay
            is NotStarted),
        !(li.delay is NotStarted) ==> !(spec_tick_delay(li, delta).delay is NotStarted),
        spec_delta_starts_delay(li, spawned, despawned) ==> li.delay is NotStarted
            && li.particle_count + spawned - despawned == 0 && li.state is Playing,
{
}

/// The completion delay is started at most once per level instance: a
/// second zero-crossing report in the same tick (or any later tick) finds
/// the delay already started and changes nothing.
pub proof fn lemma_completion_delay_idempotent(li: LevelInstance, spawned: usize, despawned: usize)
    requires
        wf_level_instance(li),
        despawned <= li.particle_count + spawned,
        spec_delta_starts_delay(li, spawned, despawned),
    ensures
        ({
            let li1 = spec_apply_delta(li, spawned, despawned);
            &&& !spec_delta_starts_delay(li1, 0, 0)
            &&& spec_apply_delta(li1, 0, 0) == li1
        }),
{
}

/// The particle count is never negative (it is a natural number by type),
/// and the completion delay runs or has finished only when the count is
/// exactly zero; reaching zero is the sole trigger that starts it.
pub proof fn lemma_zero_count_starts_delay(li: LevelInstance, spawned: usize, despawned: usize)
    requires
        wf_level_instance(li),
        despawned <= li.particle_count + spawned,
        li.particle_count + spawned <= usize::MAX,
        !(li.delay is NotStarted) ==> spawned == 0,
    ensures
        li.particle_count >= 0,
        spec_delta_starts_delay(li, spawned, despawned) <==> (!(li.state is Ended)
            && li.delay is NotStarted && li.particle_count + spawned - despawned == 0),
        !(spec_apply_delta(li, spawned, despawned).delay is NotStarted) ==> spec_apply_delta(
            li,
            spawned,
            despawned,
        ).particle_count == 0,
{
}

} // verus!
