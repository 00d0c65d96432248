//! Time-scale control for the physics step.
//!
//! A scalar multiplier is applied to the physics step's delta time. Gameplay
//! sets an automatic value (slow motion on impact, normal speed otherwise);
//! a manual override, when present, wins over the automatic value
//! unconditionally. Clearing the override reverts to whatever the automatic
//! value currently is: setting the automatic value while an override is
//! active is legal and stores the value without taking visible effect until
//! the override is cleared.

use vstd::prelude::*;

verus! {

/// The two speeds the physics step can run at.
#[derive(Clone, Copy, Debug, PartialEq, Eq, Structural)]
pub enum TimeScaleKind {
    Normal,
    Slowed,
}

impl TimeScaleKind {
    /// The multiplier this kind stands for, in thousandths:
    /// normal speed is 1000, slow motion is 100.
    pub open spec fn spec_value_millis(self) -> u32 {
        match self {
            TimeScaleKind::Normal => 1000u32,
            TimeScaleKind::Slowed => 100u32,
        }
    }

    /// The multiplier applied to the physics step, in thousandths.
    pub fn value_millis(&self) -> (r: u32)
        ensures
            r == self.spec_value_millis(),
    {
        match *self {
            TimeScaleKind::Normal => 1000,
            TimeScaleKind::Slowed => 100,
        }
    }
}

/// Last-writer-wins combination of the automatic time scale and an optional
/// manual override.
#[derive(Clone, Copy, Debug, PartialEq, Eq, Structural)]
pub struct TimeScaleController {
    /// The value set by gameplay events.
    pub automatic: TimeScaleKind,
    /// When present, wins over the automatic value unconditionally.
    pub manual_override: Option<TimeScaleKind>,
}

impl TimeScaleController {
    /// The scale the physics step observes: the override when one is set,
    /// the automatic value otherwise.
    pub open spec fn spec_observed(self) -> TimeScaleKind {
        match self.manual_override {
            Some(kind) => kind,
            None => self.automatic,
        }
    }

    /// Starts at normal speed with no override.
    pub fn new() -> (r: TimeScaleController)
        ensures
            r.automatic == TimeScaleKind::Normal,
            r.manual_override is None,
            r.spec_observed() == TimeScaleKind::Normal,
    {
        TimeScaleController { automatic: TimeScaleKind::Normal, manual_override: None }
    }

    /// The scale the physics step observes.
    pub fn observed(&self) -> (r: TimeScaleKind)
        ensures
            r == self.spec_observed(),
    {
        match self.manual_override {
            Some(kind) => kind,
            None => self.automatic,
        }
    }

    /// Sets the automatic value. While an override is active this stores the
    /// value without changing what is observed.
    pub fn set_automatic(&mut self, kind: TimeScaleKind)
        ensures
            final(self).automatic == kind,
            final(self).manual_override == old(self).manual_override,
            old(self).manual_override is Some ==> final(self).spec_observed()
                == old(self).spec_observed(),
            old(self).manual_override is None ==> final(self).spec_observed() == kind,
    {
        self.automatic = kind;
    }

    /// Sets or clears the manual override. `None` clears it, reverting the
    /// observed scale to the current automatic value.
    pub fn set_override(&mut self, kind: Option<TimeScaleKind>)
        ensures
            final(self).manual_override == kind,
            final(self).automatic == old(self).automatic,
            kind matches Some(k) ==> final(self).spec_observed() == k,
            kind is None ==> final(self).spec_observed() == old(self).automatic,
    {
        self.manual_override = kind;
    }
}

/// Override precedence: after setting override `x` and then automatic `y`,
/// the observed scale is `x`; clearing the override afterwards makes it `y`.
pub proof fn lemma_override_precedence(c0: TimeScaleController, x: TimeScaleKind, y: TimeScaleKind)
    ensures
        ({
            let c1 = TimeScaleController { manual_override: Some(x), ..c0 };
            let c2 = TimeScaleController { automatic: y, ..c1 };
            let c3 = TimeScaleController { manual_override: None, ..c2 };
            c2.spec_observed() == x && c3.spec_observed() == y
        }),
{
}

} // verus!
