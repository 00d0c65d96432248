//! The collision classifier.
//!
//! The physics engine reports raw contact events between collider handles.
//! Colliders may sit on child "sensor" sub-entities that exist only to get
//! overlap notifications, so each handle is first resolved to its nearest
//! ancestor entity that owns a rigid body by walking the parent links of an
//! arena-style entity store. A handle whose chain carries no rigid body is
//! dropped silently: that is the defined policy for stray contacts, not an
//! error.
//!
//! A resolved pair is then classified by the components on the two
//! entities, and at most one semantic event is emitted per raw event. A
//! contact between the player and a killer entity is fatal and takes
//! precedence: a Killer particle ends the run on player contact instead of
//! decomposing (the same holds whether it is a leaf or a composite). Then a
//! player-particle contact and a particle-particle contact emit the split
//! events. Per frame batch the first matching contact wins and scanning
//! stops; the remaining simultaneous contacts are deferred to the next tick.

use vstd::prelude::*;

verus! {

/// One entity of the scene as the classifier sees it: its parent link and
/// the components that matter for classification.
#[derive(Clone, Copy, Debug, PartialEq, Eq, Structural)]
pub struct EntityInfo {
    /// The parent entity in the scene hierarchy, if any. Entities are
    /// created parents-first, so a parent's index is below its child's.
    pub parent: Option<usize>,
    pub has_rigid_body: bool,
    pub is_player: bool,
    pub is_particle: bool,
    pub is_killer: bool,
    /// The particle-instance handle this entity stands for, where it is one.
    pub instance: usize,
}

/// The arena-style entity store the classifier walks.
pub struct EntityArena {
    pub entities: Vec<EntityInfo>,
}

/// Parent links only point to earlier slots: parents are created before
/// their children, which also rules out cycles.
pub open spec fn wf_arena(s: Seq<EntityInfo>) -> bool {
    forall|i: int|
        0 <= i < s.len() ==> ((#[trigger] s[i]).parent matches Some(p) ==> p < i)
}

/// The nearest ancestor of `id` (including itself) that owns a rigid body,
/// walking parent links. `None` when the chain ends, leaves the arena, or
/// would not descend (a malformed link).
pub open spec fn spec_rb_ancestor(s: Seq<EntityInfo>, id: int) -> Option<int>
    decreases (if id >= 0 {
        id + 1
    } else {
        0
    }),
{
    if id < 0 || id >= s.len() {
        None
    } else if s[id].has_rigid_body {
        Some(id)
    } else {
        match s[id].parent {
            Some(p) => {
                if p < id {
                    spec_rb_ancestor(s, p as int)
                } else {
                    None
                }
            },
            None => None,
        }
    }
}

/// A semantic gameplay event distilled from one raw contact.
#[derive(Clone, Copy, Debug, PartialEq, Eq, Structural)]
pub enum SemanticEvent {
    /// The player struck a particle instance: it splits.
    PlayerParticleCollision { particle: usize },
    /// Two particle instances touched: both split.
    ParticleParticleCollision { particle1: usize, particle2: usize },
    /// The player touched a killer: the attempt ends.
    KillEvent { player: usize },
}

/// A raw contact notification from the physics engine, naming two collider
/// handles (entity indices).
#[derive(Clone, Copy, Debug, PartialEq, Eq, Structural)]
pub enum ContactEvent {
    Started { collider1: usize, collider2: usize },
    Stopped { collider1: usize, collider2: usize },
}

/// Classification of one resolved entity pair, in precedence order.
pub open spec fn spec_classify_pair(a: EntityInfo, b: EntityInfo, ai: int, bi: int) -> Option<
    SemanticEvent,
> {
    if a.is_killer && b.is_player {
        Some(SemanticEvent::KillEvent { player: bi as usize })
    } else if b.is_killer && a.is_player {
        Some(SemanticEvent::KillEvent { player: ai as usize })
    } else if a.is_player && b.is_particle {
        Some(SemanticEvent::PlayerParticleCollision { particle: bi as usize })
    } else if b.is_player && a.is_particle {
        Some(SemanticEvent::PlayerParticleCollision { particle: ai as usize })
    } else if a.is_particle && b.is_particle {
        Some(
            SemanticEvent::ParticleParticleCollision {
                particle1: ai as usize,
                particle2: bi as usize,
            },
        )
    } else {
        None
    }
}

/// Classification of one raw contact: resolve both handles, then match the
/// rules. An unresolved handle drops the contact.
pub open spec fn spec_classify_contact(s: Seq<EntityInfo>, c1: int, c2: int) -> Option<
    SemanticEvent,
> {
    match (spec_rb_ancestor(s, c1), spec_rb_ancestor(s, c2)) {
        (Some(a), Some(b)) => spec_classify_pair(s[a], s[b], a, b),
        _ => None,
    }
}

/// The one semantic event of a frame batch: contact-begin events are taken
/// in arrival order and the first that classifies wins; the rest of the
/// batch is left for the next tick.
pub open spec fn spec_classify_batch(s: Seq<EntityInfo>, evs: Seq<ContactEvent>) -> Option<
    SemanticEvent,
>
    decreases evs.len(),
{
    if evs.len() == 0 {
        None
    } else {
        match evs[0] {
            ContactEvent::Started { collider1, collider2 } => {
                match spec_classify_contact(s, collider1 as int, collider2 as int) {
                    Some(ev) => Some(ev),
                    None => spec_classify_batch(s, evs.drop_first()),
                }
            },
            ContactEvent::Stopped { .. } => spec_classify_batch(s, evs.drop_first()),
        }
    }
}

/// A resolved ancestor is a valid entity index.
pub proof fn lemma_rb_ancestor_in_range(s: Seq<EntityInfo>, id: int)
    ensures
        spec_rb_ancestor(s, id) matches Some(a) ==> 0 <= a < s.len(),
    decreases (if id >= 0 {
        id + 1
    } else {
        0
    }),
{
    if 0 <= id < s.len() && !s[id].has_rigid_body {
        match s[id].parent {
            Some(p) => {
                if p < id {
                    lemma_rb_ancestor_in_range(s, p as int);
                }
            },
            None => {},
        }
    }
}

/// The entity indices a semantic event carries are valid for an arena of
/// `n` entities.
pub open spec fn event_in_range(ev: SemanticEvent, n: int) -> bool {
    match ev {
        SemanticEvent::PlayerParticleCollision { particle } => particle < n,
        SemanticEvent::ParticleParticleCollision { particle1, particle2 } => particle1 < n
            && particle2 < n,
        SemanticEvent::KillEvent { player } => player < n,
    }
}

/// Whatever a batch classifies to names valid entities.
pub proof fn lemma_classify_batch_in_range(s: Seq<EntityInfo>, evs: Seq<ContactEvent>)
    ensures
        spec_classify_batch(s, evs) matches Some(ev) ==> event_in_range(ev, s.len() as int),
    decreases evs.len(),
{
    if evs.len() > 0 {
        lemma_classify_batch_in_range(s, evs.drop_first());
        match evs[0] {
            ContactEvent::Started { collider1, collider2 } => {
                lemma_rb_ancestor_in_range(s, collider1 as int);
                lemma_rb_ancestor_in_range(s, collider2 as int);
            },
            ContactEvent::Stopped { .. } => {},
        }
    }
}

impl EntityArena {
    /// An empty scene.
    pub fn new() -> (a: EntityArena)
        ensures
            a.entities@.len() == 0,
            wf_arena(a.entities@),
    {
        EntityArena { entities: Vec::new() }
    }

    /// Adds an entity; its parent, if any, must already exist.
    pub fn add(&mut self, info: EntityInfo) -> (id: usize)
        requires
            wf_arena(old(self).entities@),
            info.parent matches Some(p) ==> p < old(self).entities@.len(),
        ensures
            wf_arena(final(self).entities@),
            final(self).entities@ == old(self).entities@.push(info),
            id == old(self).entities@.len(),
    {
        let id = self.entities.len();
        self.entities.push(info);
        id
    }

    /// Walks the parent links from `entity` to the nearest ancestor that
    /// owns a rigid body. Fails silently (returns `None`) when no ancestor
    /// carries one.
    pub fn find_rigidbody_ancestor(&self, entity: usize) -> (r: Option<usize>)
        ensures
            r matches Some(e) ==> spec_rb_ancestor(self.entities@, entity as int) == Some(e as int)
                && e < self.entities@.len(),
            r is None ==> spec_rb_ancestor(self.entities@, entity as int) is None,
    {
        let mut current = entity;
        loop
            invariant
                spec_rb_ancestor(self.entities@, entity as int) == spec_rb_ancestor(
                    self.entities@,
                    current as int,
                ),
            decreases current,
        {
            if current >= self.entities.len() {
                return None;
            }
            if self.entities[current].has_rigid_body {
                return Some(current);
            }
            match self.entities[current].parent {
                Some(p) => {
                    if p < current {
                        current = p;
                    } else {
                        return None;
                    }
                },
                None => {
                    return None;
                },
            }
        }
    }

    /// Classifies one raw contact into at most one semantic event.
    pub fn classify_contact(&self, collider1: usize, collider2: usize) -> (r: Option<SemanticEvent>)
        ensures
            r == spec_classify_contact(self.entities@, collider1 as int, collider2 as int),
    {
        let a = match self.find_rigidbody_ancestor(collider1) {
            Some(a) => a,
            None => {
                return None;
            },
        };
        let b = match self.find_rigidbody_ancestor(collider2) {
            Some(b) => b,
            None => {
                return None;
            },
        };
        let ea = &self.entities[a];
        let eb = &self.entities[b];
        if ea.is_killer && eb.is_player {
            Some(SemanticEvent::KillEvent { player: b })
        } else if eb.is_killer && ea.is_player {
            Some(SemanticEvent::KillEvent { player: a })
        } else if ea.is_player && eb.is_particle {
            Some(SemanticEvent::PlayerParticleCollision { particle: b })
        } else if eb.is_player && ea.is_particle {
            Some(SemanticEvent::PlayerParticleCollision { particle: a })
        } else if ea.is_particle && eb.is_particle {
            Some(SemanticEvent::ParticleParticleCollision { particle1: a, particle2: b })
        } else {
            None
        }
    }

    /// Scans one frame's raw contacts in arrival order and emits the first
    /// classification found; the remaining simultaneous contacts are
    /// deferred to the next frame. Contacts that do not resolve or match no
    /// rule are dropped and scanning continues.
    pub fn classify_batch(&self, events: &Vec<ContactEvent>) -> (r: Option<SemanticEvent>)
        ensures
            r == spec_classify_batch(self.entities@, events@),
    {
        let n = events.len();
        proof {
            assert(events@.subrange(0, n as int) =~= events@);
        }
        let mut i: usize = 0;
        while i < n
            invariant
                i <= n,
                n == events@.len(),
                spec_classify_batch(self.entities@, events@) == spec_classify_batch(
                    self.entities@,
                    events@.subrange(i as int, n as int),
                ),
            decreases n - i,
        {
            proof {
                assert(events@.subrange(i as int, n as int)[0] == events@[i as int]);
                assert(events@.subrange(i as int, n as int).drop_first() =~= events@.subrange(
                    i as int + 1,
                    n as int,
                ));
            }
            match events[i] {
                ContactEvent::Started { collider1, collider2 } => {
                    let classified = self.classify_contact(collider1, collider2);
                    if classified.is_some() {
                        return classified;
                    }
                },
                ContactEvent::Stopped { .. } => {},
            }
            i += 1;
        }
        proof {
            assert(events@.subrange(0, n as int) =~= events@);
        }
        None
    }
}

} // verus!
