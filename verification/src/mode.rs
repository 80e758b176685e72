//! The six simulation modes and the schedule of a step.

use vstd::prelude::*;

verus! {

/// How ballistic detachment takes part in a step.
#[derive(Clone, Copy, Debug, PartialEq, Eq, Structural)]
pub enum Ballistic {
    /// No ballistic event.
    Off,
    /// An event with a fixed probability, whatever the energy.
    Uniform,
    /// An event whose probability depends on the surface energy change.
    Biased,
}

/// The simulation mode: the first digit tells whether the driving force is
/// fixed (1) or coupled to the gas reservoir (2), the second whether
/// ballistic detachment is off (1), uniform (2) or biased by energy (3).
#[derive(Clone, Copy, Debug, PartialEq, Eq, Structural)]
pub enum Mode {
    M11,
    M12,
    M13,
    M21,
    M22,
    M23,
}

impl Mode {
    /// The ballistic rule of the mode.
    pub open spec fn spec_ballistic(self) -> Ballistic {
        match self {
            Mode::M11 | Mode::M21 => Ballistic::Off,
            Mode::M12 | Mode::M22 => Ballistic::Uniform,
            Mode::M13 | Mode::M23 => Ballistic::Biased,
        }
    }

    /// Whether the driving force follows the gas reservoir.
    pub open spec fn spec_reservoir(self) -> bool {
        self == Mode::M21 || self == Mode::M22 || self == Mode::M23
    }

    /// The two digits of the mode.
    pub open spec fn spec_code(self) -> (u8, u8) {
        match self {
            Mode::M11 => (1, 1),
            Mode::M12 => (1, 2),
            Mode::M13 => (1, 3),
            Mode::M21 => (2, 1),
            Mode::M22 => (2, 2),
            Mode::M23 => (2, 3),
        }
    }

    /// The ballistic rule of the mode.
    pub fn ballistic(self) -> (b: Ballistic)
        ensures
            b == self.spec_ballistic(),
    {
        match self {
            Mode::M11 | Mode::M21 => Ballistic::Off,
            Mode::M12 | Mode::M22 => Ballistic::Uniform,
            Mode::M13 | Mode::M23 => Ballistic::Biased,
        }
    }

    /// Whether the driving force follows the gas reservoir.
    pub fn reservoir(self) -> (r: bool)
        ensures
            r == self.spec_reservoir(),
    {
        match self {
            Mode::M21 | Mode::M22 | Mode::M23 => true,
            _ => false,
        }
    }

    /// The two digits of the mode.
    pub fn code(self) -> (c: (u8, u8))
        ensures
            c == self.spec_code(),
    {
        match self {
            Mode::M11 => (1, 1),
            Mode::M12 => (1, 2),
            Mode::M13 => (1, 3),
            Mode::M21 => (2, 1),
            Mode::M22 => (2, 2),
            Mode::M23 => (2, 3),
        }
    }

    /// The mode with the digits `major.minor`, if there is one.
    pub fn from_code(major: u8, minor: u8) -> (mode: Option<Mode>)
        ensures
            mode matches Some(m) ==> m.spec_code() == (major, minor),
            mode is Some <==> (1 <= major <= 2 && 1 <= minor <= 3),
    {
        if major == 1 {
            if minor == 1 {
                Some(Mode::M11)
            } else if minor == 2 {
                Some(Mode::M12)
            } else if minor == 3 {
                Some(Mode::M13)
            } else {
                None
            }
        } else if major == 2 {
            if minor == 1 {
                Some(Mode::M21)
            } else if minor == 2 {
                Some(Mode::M22)
            } else if minor == 3 {
                Some(Mode::M23)
            } else {
                None
            }
        } else {
            None
        }
    }
}

/// Whether an action with the given interval takes place at `step_id`: the
/// interval is positive, the step has reached `from`, and the step is a
/// multiple of the interval.
pub open spec fn spec_due(step_id: u64, interval: u64, from: u64) -> bool {
    interval > 0 && step_id >= from && step_id % interval == 0
}

/// Whether an action takes place at `step_id`, given in `pre_flag` that its
/// interval is positive.
#[inline(always)]
pub fn should_perform_action(step_id: u64, interval: u64, pre_flag: bool) -> (due: bool)
    requires
        pre_flag ==> interval > 0,
    ensures
        due == (pre_flag && step_id % interval == 0),
{
    pre_flag && ((step_id % interval) == 0)
}

/// The intervals that schedule the sub-events and the output of a run.
#[derive(Clone, Copy, Debug)]
pub struct Schedule {
    pub add_i: u64,
    pub add_from: u64,
    pub rem_i: u64,
    pub rem_from: u64,
    pub write_i: u64,
    pub print_i: u64,
    pub step_lim: u64,
}

/// What is due at one step.
#[derive(Clone, Copy, Debug, PartialEq, Eq, Structural)]
pub struct StepFlags {
    pub is_add: bool,
    pub is_rem: bool,
    pub is_write: bool,
    pub is_print: bool,
}

impl Schedule {
    /// What is due at `step_id`.
    pub open spec fn spec_flags(self, step_id: u64) -> StepFlags {
        StepFlags {
            is_add: spec_due(step_id, self.add_i, self.add_from),
            is_rem: spec_due(step_id, self.rem_i, self.rem_from),
            is_write: spec_due(step_id, self.write_i, 0),
            is_print: spec_due(step_id, self.print_i, 0),
        }
    }

    /// What is due at `step_id`: attachment and detachment from their first
    /// step on at every multiple of their interval, writing and printing at
    /// every multiple of theirs; an interval of zero switches an action off.
    pub fn flags(&self, step_id: u64) -> (flags: StepFlags)
        ensures
            flags == self.spec_flags(step_id),
    {
        let is_add = self.add_i > 0 && step_id >= self.add_from && step_id % self.add_i == 0;
        let is_rem = self.rem_i > 0 && step_id >= self.rem_from && step_id % self.rem_i == 0;
        let is_write = should_perform_action(step_id, self.write_i, self.write_i > 0);
        let is_print = should_perform_action(step_id, self.print_i, self.print_i > 0);
        StepFlags { is_add, is_rem, is_write, is_print }
    }
}

} // verus!
