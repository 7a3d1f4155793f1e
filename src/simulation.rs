use vstd::prelude::*;
use vstd::arithmetic::div_mod::lemma_fundamental_div_mod_converse;
use vstd::arithmetic::power2::lemma2_to64;
use rand::rngs::StdRng;
use crate::agent::{Agent, Cell, IncubationRange, exposed};
use crate::pressure::{
    compute_pressure,
    exposure_succeeds,
    pressure_at,
    holds_pressure,
    pressure_entries,
    pressure_of,
    should_expose,
};
use crate::random::{draw_bits, draw_in_range};

verus! {

/// The largest grid half-extent: a grid of side `2 * MAX_HALF_EXTENT` still
/// has a cell count that fits in 32 bits.
pub const MAX_HALF_EXTENT: i32 = 16384;

/// The cell of the `i`-th agent of a grid with half-extent `h`: agents are
/// laid out row by row, from `(-h, -h)` to `(h - 1, h - 1)`.
pub open spec fn grid_cell(h: int, i: int) -> Cell {
    Cell { x: (i % (2 * h) - h) as i32, y: (i / (2 * h) - h) as i32 }
}

/// Every agent is healthy but the one at `zero`, which shows symptoms at
/// turn `delay`.
pub open spec fn seeded(agents: Seq<Agent>, zero: Cell, delay: u32) -> bool {
    forall|i: int|
        0 <= i < agents.len() ==> (#[trigger] agents[i]).symptom_onset_turn == (if agents[i].position
            == zero {
            Some(delay)
        } else {
            None::<u32>
        })
}

/// The agent after the exposure step of a turn: a healthy agent under
/// pressure `k` is exposed at `turn` with `delay` when `draw` succeeds.
pub open spec fn exposure_outcome(a: Agent, turn: u32, k: nat, draw: u32, delay: u32) -> Agent {
    if a.symptom_onset_turn is None && exposure_succeeds(draw, k) {
        exposed(a, turn, delay)
    } else {
        a
    }
}

/// The state of a simulation as the contracts see it.
pub struct SimulationView {
    pub agents: Seq<Agent>,
    pub turn: u32,
    pub half_extent: i32,
    pub incubation: IncubationRange,
}

impl SimulationView {
    /// A fully populated square grid, one agent per cell, in row order.
    pub open spec fn well_formed(self) -> bool {
        &&& 1 <= self.half_extent <= MAX_HALF_EXTENT
        &&& self.incubation.valid()
        &&& self.agents.len() == 4 * self.half_extent * self.half_extent
        &&& forall|i: int|
            0 <= i < self.agents.len() ==> (#[trigger] self.agents[i]).position == grid_cell(
                self.half_extent as int,
                i,
            )
    }

    /// Pressure on the cell of agent `i` at turn `turn`.
    pub open spec fn pressure_on(self, i: int, turn: u32) -> nat {
        pressure_of(
            self.agents,
            turn,
            self.agents[i].position.x as int,
            self.agents[i].position.y as int,
        )
    }
}

/// What every outcome of one turn satisfies, whatever the random draws: the
/// clock moves on by one, an infected agent keeps its onset turn, an agent
/// under no pressure stays healthy, and a newly infected agent gets an onset
/// drawn from the incubation range after the new turn.
pub open spec fn is_advance_of(s: SimulationView, t: SimulationView) -> bool {
    &&& t.turn == s.turn + 1
    &&& t.half_extent == s.half_extent
    &&& t.incubation == s.incubation
    &&& t.agents.len() == s.agents.len()
    &&& forall|i: int|
        0 <= i < s.agents.len() ==> {
            &&& (#[trigger] t.agents[i]).position == s.agents[i].position
            &&& s.agents[i].symptom_onset_turn is Some ==> t.agents[i] == s.agents[i]
            &&& s.agents[i].symptom_onset_turn is None && s.pressure_on(i, t.turn) == 0
                ==> t.agents[i] == s.agents[i]
            &&& s.agents[i].symptom_onset_turn is None && t.agents[i].symptom_onset_turn is Some
                ==> t.turn + t.incubation.min <= t.agents[i].symptom_onset_turn->0 < t.turn
                + t.incubation.max
        }
}

/// A population of agents on a square grid, with its clock.
pub struct Simulation {
    agents: Vec<Agent>,
    turn: u32,
    half_extent: i32,
    incubation: IncubationRange,
}

impl View for Simulation {
    type V = SimulationView;

    closed spec fn view(&self) -> SimulationView {
        SimulationView {
            agents: self.agents@,
            turn: self.turn,
            half_extent: self.half_extent,
            incubation: self.incubation,
        }
    }
}

impl Simulation {
    /// Populates the grid from `-half_extent` to `half_extent - 1` on both
    /// axes at turn 0, with every agent healthy but the one at `patient_zero`,
    /// which shows symptoms at turn `delay`.
    pub fn with_patient_zero(
        half_extent: i32,
        incubation: IncubationRange,
        patient_zero: Cell,
        delay: u32,
    ) -> (r: Simulation)
        requires
            1 <= half_extent <= MAX_HALF_EXTENT,
            incubation.valid(),
            incubation.contains(delay),
            -half_extent <= patient_zero.x < half_extent,
            -half_extent <= patient_zero.y < half_extent,
        ensures
            r@.well_formed(),
            r@.turn == 0,
            r@.half_extent == half_extent,
            r@.incubation == incubation,
            seeded(r@.agents, patient_zero, delay),
    {
        let h = half_extent;
        let ghost w: int = 2 * h;
        let mut agents: Vec<Agent> = Vec::new();
        let mut y: i32 = -h;
        assert((y + h) * w == 0) by (nonlinear_arith)
            requires
                y + h == 0,
        ;
        while y < h
            invariant
                1 <= h <= MAX_HALF_EXTENT,
                w == 2 * h,
                -h <= y <= h,
                agents.len() == (y + h) * w,
                forall|j: int|
                    0 <= j < agents.len() ==> {
                        &&& (#[trigger] agents@[j]).position == grid_cell(h as int, j)
                        &&& agents@[j].symptom_onset_turn == (if agents@[j].position
                            == patient_zero {
                            Some(delay)
                        } else {
                            None::<u32>
                        })
                    },
            decreases h - y,
        {
            let mut x: i32 = -h;
            while x < h
                invariant
                    1 <= h <= MAX_HALF_EXTENT,
                    w == 2 * h,
                    -h <= y < h,
                    -h <= x <= h,
                    agents.len() == (y + h) * w + (x + h),
                    forall|j: int|
                        0 <= j < agents.len() ==> {
                            &&& (#[trigger] agents@[j]).position == grid_cell(h as int, j)
                            &&& agents@[j].symptom_onset_turn == (if agents@[j].position
                                == patient_zero {
                                Some(delay)
                            } else {
                                None::<u32>
                            })
                        },
                decreases h - x,
            {
                let cell = Cell { x, y };
                proof {
                    lemma_fundamental_div_mod_converse(
                        agents.len() as int,
                        w,
                        (y + h) as int,
                        (x + h) as int,
                    );
                }
                let onset = if x == patient_zero.x && y == patient_zero.y {
                    Some(delay)
                } else {
                    None
                };
                agents.push(Agent { position: cell, symptom_onset_turn: onset });
                x = x + 1;
            }
            proof {
                assert((y + h) * w + (h + h) == (y + 1 + h) * w) by (nonlinear_arith)
                    requires
                        w == 2 * h,
                ;
            }
            y = y + 1;
        }
        proof {
            assert(agents.len() == 4 * h * h) by (nonlinear_arith)
                requires
                    agents.len() == (h + h) * w,
                    w == 2 * h,
            ;
        }
        Simulation { agents, turn: 0, half_extent: h, incubation }
    }

    /// Populates the grid as `with_patient_zero` does, with patient zero at
    /// a cell drawn uniformly from the grid and a delay drawn from
    /// `incubation`.
    pub fn initialize(half_extent: i32, incubation: IncubationRange, rng: &mut StdRng) -> (r:
        Simulation)
        requires
            1 <= half_extent <= MAX_HALF_EXTENT,
            incubation.valid(),
        ensures
            r@.well_formed(),
            r@.turn == 0,
            r@.half_extent == half_extent,
            r@.incubation == incubation,
            exists|zero: Cell, delay: u32|
                {
                    &&& -half_extent <= zero.x < half_extent
                    &&& -half_extent <= zero.y < half_extent
                    &&& incubation.contains(delay)
                    &&& #[trigger] seeded(r@.agents, zero, delay)
                },
    {
        let x = draw_in_range(rng, -(half_extent as i64), half_extent as i64) as i32;
        let y = draw_in_range(rng, -(half_extent as i64), half_extent as i64) as i32;
        let delay = incubation.draw(rng);
        let zero = Cell { x, y };
        let r = Simulation::with_patient_zero(half_extent, incubation, zero, delay);
        assert(-half_extent <= zero.x < half_extent);
        r
    }

    /// Moves the clock on by one turn and runs the exposure step with the
    /// given random values: `draws[i]` decides whether agent `i` is exposed,
    /// `delays[i]` is its incubation if it is. The pressure map is built
    /// afresh from the state at the new turn before any agent is exposed; it
    /// is never carried from one turn to the next.
    pub fn advance_with(&mut self, draws: &Vec<u32>, delays: &Vec<u32>)
        requires
            old(self)@.well_formed(),
            old(self)@.turn + old(self)@.incubation.max <= u32::MAX,
            draws.len() == old(self)@.agents.len(),
            delays.len() == old(self)@.agents.len(),
            forall|i: int|
                0 <= i < delays.len() ==> old(self)@.incubation.contains(#[trigger] delays@[i]),
        ensures
            final(self)@.well_formed(),
            final(self)@.turn == old(self)@.turn + 1,
            final(self)@.half_extent == old(self)@.half_extent,
            final(self)@.incubation == old(self)@.incubation,
            final(self)@.agents.len() == old(self)@.agents.len(),
            forall|i: int|
                0 <= i < old(self)@.agents.len() ==> #[trigger] final(self)@.agents[i]
                    == exposure_outcome(
                    old(self)@.agents[i],
                    final(self)@.turn,
                    old(self)@.pressure_on(i, final(self)@.turn),
                    draws@[i],
                    delays@[i],
                ),
    {
        self.turn = self.turn + 1;
        let ghost start = self.agents@;
        assert(start.len() <= u32::MAX) by (nonlinear_arith)
            requires
                start.len() == 4 * self.half_extent * self.half_extent,
                1 <= self.half_extent <= MAX_HALF_EXTENT,
        ;
        let pressure = compute_pressure(&self.agents, self.turn);
        let mut i: usize = 0;
        while i < self.agents.len()
            invariant
                self.turn == old(self).turn + 1,
                self.half_extent == old(self).half_extent,
                self.incubation == old(self).incubation,
                start == old(self).agents@,
                old(self)@.well_formed(),
                self.turn + self.incubation.max <= u32::MAX + 1,
                self.agents.len() == start.len(),
                draws.len() == start.len(),
                delays.len() == start.len(),
                forall|j: int|
                    0 <= j < delays.len() ==> self.incubation.contains(#[trigger] delays@[j]),
                holds_pressure(pressure_entries(pressure), start, self.turn),
                i <= start.len(),
                forall|j: int|
                    0 <= j < i ==> #[trigger] self.agents@[j] == exposure_outcome(
                        start[j],
                        self.turn,
                        pressure_of(
                            start,
                            self.turn,
                            start[j].position.x as int,
                            start[j].position.y as int,
                        ),
                        draws@[j],
                        delays@[j],
                    ),
                forall|j: int| i <= j < start.len() ==> #[trigger] self.agents@[j] == start[j],
            decreases start.len() - i,
        {
            let a = self.agents[i];
            if a.symptom_onset_turn.is_none() {
                let k = pressure_at(&pressure, a.position.x, a.position.y);
                if should_expose(draws[i], k) {
                    let mut b = a;
                    b.expose_with_delay(self.turn, delays[i]);
                    self.agents.set(i, b);
                }
            }
            i = i + 1;
        }
    }

    /// Plays one turn, drawing the random values from `rng`.
    pub fn advance(&mut self, rng: &mut StdRng)
        requires
            old(self)@.well_formed(),
            old(self)@.turn + old(self)@.incubation.max <= u32::MAX,
        ensures
            final(self)@.well_formed(),
            is_advance_of(old(self)@, final(self)@),
    {
        let mut draws: Vec<u32> = Vec::new();
        let mut delays: Vec<u32> = Vec::new();
        let mut i: usize = 0;
        while i < self.agents.len()
            invariant
                self.incubation.valid(),
                i <= self.agents.len(),
                draws.len() == i,
                delays.len() == i,
                forall|j: int|
                    0 <= j < delays.len() ==> self.incubation.contains(#[trigger] delays@[j]),
            decreases self.agents.len() - i,
        {
            draws.push(draw_bits(rng));
            delays.push(self.incubation.draw(rng));
            i = i + 1;
        }
        let ghost before = self@;
        self.advance_with(&draws, &delays);
        proof {
            lemma2_to64();
            assert forall|i: int| 0 <= i < before.agents.len() implies {
                &&& (#[trigger] self@.agents[i]).position == before.agents[i].position
                &&& before.agents[i].symptom_onset_turn is Some ==> self@.agents[i]
                    == before.agents[i]
                &&& before.agents[i].symptom_onset_turn is None && before.pressure_on(
                    i,
                    self@.turn,
                ) == 0 ==> self@.agents[i] == before.agents[i]
                &&& before.agents[i].symptom_onset_turn is None
                    && self@.agents[i].symptom_onset_turn is Some ==> self@.turn
                    + self@.incubation.min <= self@.agents[i].symptom_onset_turn->0 < self@.turn
                    + self@.incubation.max
            } by {
                assert(self.incubation.contains(delays@[i]));
            }
        }
    }

    /// The indices, in increasing order, of the agents whose symptoms start
    /// at the current turn: those a display should now mark as symptomatic.
    pub fn newly_symptomatic(&self) -> (r: Vec<usize>)
        ensures
            forall|j: int| 0 <= j < r.len() ==> r@[j] < self@.agents.len(),
            forall|j: int, l: int| 0 <= j < l < r.len() ==> r@[j] < r@[l],
            forall|i: int|
                0 <= i < self@.agents.len() ==> (r@.contains(i as usize) <==> (
                #[trigger] self@.agents[i]).symptom_onset_turn == Some(self@.turn)),
    {
        let mut r: Vec<usize> = Vec::new();
        let mut i: usize = 0;
        while i < self.agents.len()
            invariant
                i <= self.agents.len(),
                forall|j: int| 0 <= j < r.len() ==> r@[j] < i,
                forall|j: int, l: int| 0 <= j < l < r.len() ==> r@[j] < r@[l],
                forall|m: int|
                    0 <= m < i ==> (r@.contains(m as usize) <==> (
                    #[trigger] self.agents@[m]).symptom_onset_turn == Some(self.turn)),
            decreases self.agents.len() - i,
        {
            let ghost prev = r@;
            if self.agents[i].symptom_onset_turn == Some(self.turn) {
                r.push(i);
            }
            proof {
                assert forall|m: int|
                    0 <= m <= i implies (r@.contains(m as usize) <==> (
                    #[trigger] self.agents@[m]).symptom_onset_turn == Some(self.turn)) by {
                    if r@.contains(m as usize) {
                        let j = choose|j: int| 0 <= j < r.len() && r@[j] == m as usize;
                        if j < prev.len() {
                            assert(prev[j] == m as usize);
                            assert(prev.contains(m as usize));
                        }
                    }
                    if m < i && prev.contains(m as usize) {
                        let j = choose|j: int| 0 <= j < prev.len() && prev[j] == m as usize;
                        assert(r@[j] == m as usize);
                    }
                    if m == i && self.agents@[m].symptom_onset_turn == Some(self.turn) {
                        assert(r@[r.len() - 1] == m as usize);
                    }
                }
            }
            i = i + 1;
        }
        r
    }

    /// The current turn.
    pub fn turn(&self) -> (r: u32)
        ensures
            r == self@.turn,
    {
        self.turn
    }

    /// The grid half-extent the simulation was set up with.
    pub fn half_extent(&self) -> (r: i32)
        ensures
            r == self@.half_extent,
    {
        self.half_extent
    }

    /// The incubation range the simulation draws delays from.
    pub fn incubation(&self) -> (r: IncubationRange)
        ensures
            r == self@.incubation,
    {
        self.incubation
    }

    /// The number of agents.
    pub fn agent_count(&self) -> (r: usize)
        ensures
            r == self@.agents.len(),
    {
        self.agents.len()
    }

    /// The `i`-th agent.
    pub fn agent(&self, i: usize) -> (r: Agent)
        requires
            i < self@.agents.len(),
        ensures
            r == self@.agents[i as int],
    {
        self.agents[i]
    }
}

} // verus!
