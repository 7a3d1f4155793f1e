use vstd::prelude::*;
use rand::rngs::StdRng;
use crate::random::draw_in_range;

verus! {

/// A grid coordinate.
#[derive(Clone, Copy, Debug, PartialEq, Eq, Structural)]
pub struct Cell {
    pub x: i32,
    pub y: i32,
}

/// One occupant of the grid: its fixed cell and, once infected, the turn at
/// which it shows symptoms.
#[derive(Clone, Copy, Debug, PartialEq, Eq, Structural)]
pub struct Agent {
    pub position: Cell,
    pub symptom_onset_turn: Option<u32>,
}

/// The half-open range `min..max` of incubation delays, in turns.
#[derive(Clone, Copy, Debug, PartialEq, Eq, Structural)]
pub struct IncubationRange {
    pub min: u32,
    pub max: u32,
}

impl IncubationRange {
    /// A usable range: not empty, and every delay at least one turn.
    pub open spec fn valid(self) -> bool {
        1 <= self.min < self.max
    }

    pub open spec fn contains(self, delay: u32) -> bool {
        self.min <= delay < self.max
    }

    /// The range `min..max`.
    pub fn new(min: u32, max: u32) -> (r: IncubationRange)
        requires
            1 <= min < max,
        ensures
            r.valid(),
            r.min == min,
            r.max == max,
    {
        IncubationRange { min, max }
    }

    /// Draws a delay uniformly from the range.
    pub fn draw(&self, rng: &mut StdRng) -> (r: u32)
        requires
            self.valid(),
        ensures
            self.contains(r),
    {
        let d = draw_in_range(rng, self.min as i64, self.max as i64);
        d as u32
    }
}

/// An agent is symptomatic once the clock has reached its onset turn.
pub open spec fn symptomatic_at(a: Agent, turn: u32) -> bool {
    match a.symptom_onset_turn {
        Some(t) => turn >= t,
        None => false,
    }
}

/// The agent after an exposure at `at_turn` with incubation `delay`: an agent
/// that already has an onset turn keeps it.
pub open spec fn exposed(a: Agent, at_turn: u32, delay: u32) -> Agent {
    match a.symptom_onset_turn {
        Some(_) => a,
        None => Agent { symptom_onset_turn: Some((at_turn + delay) as u32), ..a },
    }
}

impl Agent {
    /// A healthy agent at `position`.
    pub fn healthy(position: Cell) -> (r: Agent)
        ensures
            r.position == position,
            r.symptom_onset_turn is None,
    {
        Agent { position, symptom_onset_turn: None }
    }

    /// Whether the agent is symptomatic at `turn`.
    pub fn is_symptomatic(&self, turn: u32) -> (r: bool)
        ensures
            r == symptomatic_at(*self, turn),
    {
        match self.symptom_onset_turn {
            Some(t) => turn >= t,
            None => false,
        }
    }

    /// Infects a healthy agent so that it shows symptoms `delay` turns after
    /// `at_turn`; an agent that is already infected is left as it is.
    pub fn expose_with_delay(&mut self, at_turn: u32, delay: u32)
        requires
            at_turn + delay <= u32::MAX,
        ensures
            *final(self) == exposed(*old(self), at_turn, delay),
    {
        if self.symptom_onset_turn.is_none() {
            self.symptom_onset_turn = Some(at_turn + delay);
        }
    }

    /// Infects a healthy agent with a delay drawn from `incubation`, so that
    /// its onset lies strictly after `at_turn`; an agent that is already
    /// infected is left as it is.
    pub fn expose(&mut self, at_turn: u32, incubation: IncubationRange, rng: &mut StdRng)
        requires
            incubation.valid(),
            at_turn + incubation.max - 1 <= u32::MAX,
        ensures
            old(self).symptom_onset_turn is Some ==> *final(self) == *old(self),
            old(self).symptom_onset_turn is None ==> {
                &&& final(self).position == old(self).position
                &&& final(self).symptom_onset_turn is Some
                &&& at_turn + incubation.min <= final(self).symptom_onset_turn->0 < at_turn
                    + incubation.max
                &&& final(self).symptom_onset_turn->0 > at_turn
            },
    {
        if self.symptom_onset_turn.is_none() {
            let delay = incubation.draw(rng);
            self.expose_with_delay(at_turn, delay);
        }
    }
}

} // verus!
