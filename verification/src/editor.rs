//! The level editor's state and its preview synchronizer.
//!
//! The editor owns a level description and edits it in place: clicking in
//! place mode appends a default particle or obstacle at the pointer, select
//! mode picks one placed object and writes field edits back into the model,
//! and deleting removes the selected object and clears the selection. The
//! visual preview is a pure function of the model: it is regenerated from
//! scratch whenever the model changes, one item per placed object plus the
//! player, so preview and model cannot drift apart. Playing hands a copy of
//! the model to the gameplay side without an identity; copying to the
//! clipboard emits the level file text.

use vstd::prelude::*;

use crate::codec::{serialize_level, spec_ser_level};
use crate::level::{
    same_level_data, wf_level_data, wf_text, LevelData, ObstacleData, ParticleData,
};
use crate::particle::{Particle, Vec2I};

verus! {

/// Whether the editor is placing new objects or editing a selected one.
#[derive(Clone, Copy, Debug, PartialEq, Eq, Structural)]
pub enum EditorMode {
    Place,
    Select,
}

/// What a click places in place mode.
#[derive(Clone, Copy, Debug, PartialEq, Eq, Structural)]
pub enum PlacedObject {
    Particle,
    Obstacle,
}

/// Which placed object a preview item stands for and selection points at.
#[derive(Clone, Copy, Debug, PartialEq, Eq, Structural)]
pub enum PreviewIndex {
    Player,
    Particle(usize),
    Obstacle(usize),
}

/// One entry of the regenerated level preview.
#[derive(Clone, Copy, Debug, PartialEq, Eq, Structural)]
pub struct PreviewItem {
    pub index: PreviewIndex,
    pub position: Vec2I,
}

/// The editor's whole state.
pub struct EditorState {
    pub level: LevelData,
    pub mode: EditorMode,
    pub placement: PlacedObject,
    pub selected: Option<PreviewIndex>,
    /// True while the editor screen is active; a level played from the
    /// editor returns here when it ends.
    pub editing: bool,
}

/// A selection only ever points at an existing object.
pub open spec fn wf_selection(s: EditorState) -> bool {
    match s.selected {
        None => true,
        Some(PreviewIndex::Player) => true,
        Some(PreviewIndex::Particle(i)) => i < s.level.particles@.len(),
        Some(PreviewIndex::Obstacle(i)) => i < s.level.obstacles@.len(),
    }
}

impl EditorState {
    /// A fresh editor over an empty level.
    pub fn new() -> (s: EditorState)
        ensures
            s.level.particles@.len() == 0,
            s.level.obstacles@.len() == 0,
            s.level.name@.len() == 0,
            s.mode == EditorMode::Place,
            s.placement == PlacedObject::Particle,
            s.selected is None,
            !s.editing,
            wf_level_data(s.level),
            wf_selection(s),
    {
        EditorState {
            level: LevelData::empty(),
            mode: EditorMode::Place,
            placement: PlacedObject::Particle,
            selected: None,
            editing: false,
        }
    }

    /// A click in place mode: appends a default particle or obstacle at the
    /// clicked position. In select mode the click does nothing here.
    pub fn place_object(&mut self, position: Vec2I) -> (placed: bool)
        requires
            wf_selection(*old(self)),
        ensures
            wf_selection(*final(self)),
            placed == (old(self).mode == EditorMode::Place),
            !placed ==> *final(self) == *old(self),
            placed && old(self).placement == PlacedObject::Particle ==> {
                &&& final(self).level.particles@.len() == old(self).level.particles@.len() + 1
                &&& final(self).level.particles@.last().spawn_position == position
                &&& final(self).level.particles@.last().particle.subparticles@.len() == 0
                &&& final(self).level.particles@.subrange(
                    0,
                    old(self).level.particles@.len() as int,
                ) == old(self).level.particles@
                &&& final(self).level.obstacles@ == old(self).level.obstacles@
            },
            placed && old(self).placement == PlacedObject::Obstacle ==> {
                &&& final(self).level.obstacles@ == old(self).level.obstacles@.push(
                    ObstacleData {
                        position,
                        rotation: 0i64,
                        color: crate::particle::ColorRgb { r: 255, g: 255, b: 255 },
                        width: 50u64,
                        height: 50u64,
                        is_killer: false,
                    },
                )
                &&& final(self).level.particles@ == old(self).level.particles@
            },
            placed ==> final(self).level.name@ == old(self).level.name@ && final(self).level.author
                == old(self).level.author && final(self).level.player_spawn == old(
                self,
            ).level.player_spawn,
    {
        if !matches!(self.mode, EditorMode::Place) {
            return false;
        }
        match self.placement {
            PlacedObject::Particle => {
                let pd = ParticleData { spawn_position: position, particle: Particle::default() };
                self.level.particles.push(pd);
                proof {
                    assert(self.level.particles@.subrange(
                        0,
                        old(self).level.particles@.len() as int,
                    ) =~= old(self).level.particles@);
                }
            },
            PlacedObject::Obstacle => {
                self.level.obstacles.push(ObstacleData::default_at(position));
            },
        }
        true
    }

    /// Selects the clicked preview object.
    pub fn select(&mut self, index: PreviewIndex)
        requires
            match index {
                PreviewIndex::Player => true,
                PreviewIndex::Particle(i) => i < old(self).level.particles@.len(),
                PreviewIndex::Obstacle(i) => i < old(self).level.obstacles@.len(),
            },
        ensures
            final(self).selected == Some(index),
            final(self).level == old(self).level,
            final(self).mode == old(self).mode,
            final(self).placement == old(self).placement,
            final(self).editing == old(self).editing,
            wf_selection(*final(self)),
    {
        self.selected = Some(index);
    }

    /// Deletes the selected particle or obstacle from the model and clears
    /// the selection; selecting the player or nothing deletes nothing.
    pub fn delete_selected(&mut self) -> (deleted: bool)
        requires
            wf_selection(*old(self)),
        ensures
            wf_selection(*final(self)),
            final(self).selected is None,
            match old(self).selected {
                Some(PreviewIndex::Particle(i)) => deleted && final(self).level.particles@ == old(
                    self,
                ).level.particles@.remove(i as int) && final(self).level.obstacles@ == old(
                    self,
                ).level.obstacles@,
                Some(PreviewIndex::Obstacle(i)) => deleted && final(self).level.obstacles@ == old(
                    self,
                ).level.obstacles@.remove(i as int) && final(self).level.particles@ == old(
                    self,
                ).level.particles@,
                _ => !deleted && final(self).level.particles@ == old(self).level.particles@
                    && final(self).level.obstacles@ == old(self).level.obstacles@,
            },
            final(self).level.name@ == old(self).level.name@,
            final(self).level.author == old(self).level.author,
            final(self).level.player_spawn == old(self).level.player_spawn,
    {
        let selected = self.selected;
        self.selected = None;
        match selected {
            Some(PreviewIndex::Particle(i)) => {
                self.level.particles.remove(i);
                true
            },
            Some(PreviewIndex::Obstacle(i)) => {
                self.level.obstacles.remove(i);
                true
            },
            _ => false,
        }
    }

    /// Clears the model back to an empty level (the preview follows, being a
    /// function of the model).
    pub fn clear(&mut self)
        ensures
            final(self).level.particles@.len() == 0,
            final(self).level.obstacles@.len() == 0,
            final(self).level.name@.len() == 0,
            final(self).level.author is None,
            final(self).selected is None,
            wf_level_data(final(self).level),
            wf_selection(*final(self)),
            final(self).editing == old(self).editing,
            final(self).mode == old(self).mode,
            final(self).placement == old(self).placement,
    {
        self.level = LevelData::empty();
        self.selected = None;
    }

    /// Leaves the editor for the title screen.
    pub fn exit(&mut self)
        ensures
            !final(self).editing,
            final(self).level == old(self).level,
            final(self).selected == old(self).selected,
    {
        self.editing = false;
    }

    /// The "play" action: a copy of the edited level, to be spawned without
    /// an identity so that its end returns to the editor.
    pub fn play(&self) -> (d: LevelData)
        ensures
            same_level_data(self.level, d),
    {
        self.level.clone()
    }

    /// The "copy to clipboard" action: the edited level as level-file text.
    pub fn print(&self) -> (out: Vec<u8>)
        requires
            wf_text(self.level.name@),
            self.level.author matches Some(t) ==> wf_text(t@),
        ensures
            out@ == spec_ser_level(self.level),
    {
        serialize_level(&self.level)
    }
}

/// Regenerates the visual preview of a level: one item per placed object,
/// in model order, plus the player at its spawn point. Called whenever the
/// model changes, so the preview always mirrors the model exactly.
pub fn preview_items(level: &LevelData) -> (items: Vec<PreviewItem>)
    ensures
        items@.len() == 1 + level.particles@.len() + level.obstacles@.len(),
        items@[0] == (PreviewItem { index: PreviewIndex::Player, position: level.player_spawn }),
        forall|i: int|
            0 <= i < level.particles@.len() ==> items@[1 + i] == (PreviewItem {
                index: PreviewIndex::Particle(i as usize),
                position: (#[trigger] level.particles@[i]).spawn_position,
            }),
        forall|i: int|
            0 <= i < level.obstacles@.len() ==> items@[1 + level.particles@.len() + i]
                == (PreviewItem {
                index: PreviewIndex::Obstacle(i as usize),
                position: (#[trigger] level.obstacles@[i]).position,
            }),
{
    let mut items: Vec<PreviewItem> = Vec::new();
    items.push(PreviewItem { index: PreviewIndex::Player, position: level.player_spawn });
    let np = level.particles.len();
    let mut i: usize = 0;
    while i < np
        invariant
            i <= np,
            np == level.particles@.len(),
            items@.len() == 1 + i,
            items@[0] == (PreviewItem {
                index: PreviewIndex::Player,
                position: level.player_spawn,
            }),
            forall|j: int|
                0 <= j < i ==> items@[1 + j] == (PreviewItem {
                    index: PreviewIndex::Particle(j as usize),
                    position: (#[trigger] level.particles@[j]).spawn_position,
                }),
        decreases np - i,
    {
        items.push(
            PreviewItem {
                index: PreviewIndex::Particle(i),
                position: level.particles[i].spawn_position,
            },
        );
        i += 1;
    }
    let no = level.obstacles.len();
    let mut i: usize = 0;
    while i < no
        invariant
            i <= no,
            no == level.obstacles@.len(),
            np == level.particles@.len(),
            items@.len() == 1 + np + i,
            items@[0] == (PreviewItem {
                index: PreviewIndex::Player,
                position: level.player_spawn,
            }),
            forall|j: int|
                0 <= j < np ==> items@[1 + j] == (PreviewItem {
                    index: PreviewIndex::Particle(j as usize),
                    position: (#[trigger] level.particles@[j]).spawn_position,
                }),
            forall|j: int|
                0 <= j < i ==> items@[1 + np + j] == (PreviewItem {
                    index: PreviewIndex::Obstacle(j as usize),
                    position: (#[trigger] level.obstacles@[j]).position,
                }),
        decreases no - i,
    {
        items.push(
            PreviewItem {
                index: PreviewIndex::Obstacle(i),
                position: level.obstacles[i].position,
            },
        );
        i += 1;
    }
    items
}

} // verus!
