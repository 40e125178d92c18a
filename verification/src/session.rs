//! The acquisition loop's decisions.
//!
//! The loop itself — polling the platform at a fixed interval, reading the
//! cursor, printing results — lives outside the library. What is verified
//! here is everything the loop decides: per-button press-edge detection
//! (debouncing), the two optional captured marks, and the calculation-mode
//! toggle. The driver calls [`Session::observe_keys`] once per poll cycle
//! and then performs the actions whose edges fired, in the fixed order:
//! mark source, mark target, solve, clear, toggle mode.

use crate::platform::Cursor;
use vstd::prelude::*;

verus! {

/// Which solver entry point a solve request drives.
#[derive(Clone, Copy, Debug, PartialEq, Eq, Structural)]
pub enum Mode {
    /// Sweep speed, solve for the launch angle.
    Angle,
    /// Sweep angle, solve for the launch speed.
    Velocity,
}

/// The mode the toggle button switches to from `m`.
pub open spec fn toggled(m: Mode) -> Mode {
    match m {
        Mode::Angle => Mode::Velocity,
        Mode::Velocity => Mode::Angle,
    }
}

/// A two-state machine for one logical button: a press fires only on the
/// poll cycle where the key goes from released to held; further polls
/// while it stays held fire nothing until it is released in between.
#[derive(Clone, Copy, Debug)]
pub struct ButtonTracker {
    pub held: bool,
}

impl ButtonTracker {
    pub fn new() -> (b: ButtonTracker)
        ensures
            !b.held,
    {
        ButtonTracker { held: false }
    }

    /// One poll cycle: record the key's current physical state and report
    /// whether a rising edge fired.
    pub fn observe(&mut self, down: bool) -> (fired: bool)
        ensures
            final (self).held == down,
            fired == (down && !old(self).held),
    {
        let fired = down && !self.held;
        self.held = down;
        fired
    }
}

/// The rising edges of one poll cycle: which button actions fired.
#[derive(Clone, Copy, Debug)]
pub struct PollEvents {
    /// Capture the cursor as the source mark.
    pub mark_source: bool,
    /// Capture the cursor as the target mark.
    pub mark_target: bool,
    /// Solve and show results, if both marks are set.
    pub solve: bool,
    /// Forget both marks.
    pub clear: bool,
    /// Switch to the other calculation mode.
    pub toggle_mode: bool,
}

/// The acquisition loop's whole mutable state: the calculation mode, the
/// two optional captured marks, and one edge-detection tracker per logical
/// button.
#[derive(Clone, Copy, Debug)]
pub struct Session {
    pub mode: Mode,
    pub source: Option<Cursor>,
    pub target: Option<Cursor>,
    pub btn_source: ButtonTracker,
    pub btn_target: ButtonTracker,
    pub btn_solve: ButtonTracker,
    pub btn_clear: ButtonTracker,
    pub btn_toggle: ButtonTracker,
}

impl Session {
    /// A fresh session: velocity mode, no marks, no button held.
    pub fn new() -> (s: Session)
        ensures
            s.mode == Mode::Velocity,
            s.source is None,
            s.target is None,
            !s.btn_source.held,
            !s.btn_target.held,
            !s.btn_solve.held,
            !s.btn_clear.held,
            !s.btn_toggle.held,
    {
        Session {
            mode: Mode::Velocity,
            source: None,
            target: None,
            btn_source: ButtonTracker::new(),
            btn_target: ButtonTracker::new(),
            btn_solve: ButtonTracker::new(),
            btn_clear: ButtonTracker::new(),
            btn_toggle: ButtonTracker::new(),
        }
    }

    /// One poll cycle: feed the five keys' current physical states through
    /// their edge detectors. Only the trackers change; marks and mode stay
    /// as they are, and every event fires exactly on its key's rising
    /// edge.
    pub fn observe_keys(&mut self, k1: bool, k2: bool, k3: bool, k4: bool, k5: bool) -> (ev:
        PollEvents)
        ensures
            ev.mark_source == (k1 && !old(self).btn_source.held),
            ev.mark_target == (k2 && !old(self).btn_target.held),
            ev.solve == (k3 && !old(self).btn_solve.held),
            ev.clear == (k4 && !old(self).btn_clear.held),
            ev.toggle_mode == (k5 && !old(self).btn_toggle.held),
            final (self).btn_source.held == k1,
            final (self).btn_target.held == k2,
            final (self).btn_solve.held == k3,
            final (self).btn_clear.held == k4,
            final (self).btn_toggle.held == k5,
            final (self).mode == old(self).mode,
            final (self).source == old(self).source,
            final (self).target == old(self).target,
    {
        let mark_source = self.btn_source.observe(k1);
        let mark_target = self.btn_target.observe(k2);
        let solve = self.btn_solve.observe(k3);
        let clear = self.btn_clear.observe(k4);
        let toggle_mode = self.btn_toggle.observe(k5);
        PollEvents { mark_source, mark_target, solve, clear, toggle_mode }
    }

    /// Capture the source mark; everything else stays.
    pub fn set_source(&mut self, c: Cursor)
        ensures
            final (self).source == Some(c),
            *final (self) == (Session { source: Some(c), ..*old(self) }),
    {
        self.source = Some(c);
    }

    /// Capture the target mark; everything else stays.
    pub fn set_target(&mut self, c: Cursor)
        ensures
            final (self).target == Some(c),
            *final (self) == (Session { target: Some(c), ..*old(self) }),
    {
        self.target = Some(c);
    }

    /// Forget both marks; everything else stays.
    pub fn clear_marks(&mut self)
        ensures
            final (self).source is None,
            final (self).target is None,
            *final (self) == (Session { source: None, target: None, ..*old(self) }),
    {
        self.source = None;
        self.target = None;
    }

    /// Switch to the other calculation mode; everything else stays.
    pub fn toggle_mode(&mut self)
        ensures
            final (self).mode == toggled(old(self).mode),
            *final (self) == (Session { mode: toggled(old(self).mode), ..*old(self) }),
    {
        self.mode = match self.mode {
            Mode::Angle => Mode::Velocity,
            Mode::Velocity => Mode::Angle,
        };
    }

    /// A solve request is acted on only when both marks are set.
    pub fn has_both_marks(&self) -> (r: bool)
        ensures
            r == (self.source is Some && self.target is Some),
    {
        self.source.is_some() && self.target.is_some()
    }

    /// The captured marks, where both are set.
    pub fn get_marks(&self) -> (m: Option<(Cursor, Cursor)>)
        ensures
            m is Some <==> (self.source is Some && self.target is Some),
            m matches Some(p) ==> self.source == Some(p.0) && self.target == Some(p.1),
    {
        match (self.source, self.target) {
            (Some(s), Some(t)) => Some((s, t)),
            _ => None,
        }
    }

    /// The current calculation mode.
    pub fn get_mode(&self) -> (m: Mode)
        ensures
            m == self.mode,
    {
        self.mode
    }
}

} // verus!
