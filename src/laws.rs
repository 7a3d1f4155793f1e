use vstd::prelude::*;
use vstd::arithmetic::power2::lemma2_to64;
use crate::agent::Agent;
use crate::pressure::pressure_of;
use crate::simulation::{SimulationView, exposure_outcome, is_advance_of};

verus! {

/// A run: each state is an outcome of one turn played from the one before.
pub open spec fn is_run(run: Seq<SimulationView>) -> bool {
    forall|j: int| 0 <= j < run.len() - 1 ==> #[trigger] is_advance_of(run[j], run[j + 1])
}

/// Along a run the clock counts the turns played: after `j` turns it has
/// moved on by exactly `j`.
pub proof fn lemma_clock_counts_turns(run: Seq<SimulationView>, j: int)
    requires
        is_run(run),
        0 <= j < run.len(),
    ensures
        run[j].turn == run[0].turn + j,
    decreases j,
{
    if j > 0 {
        lemma_clock_counts_turns(run, j - 1);
        let k = j - 1;
        assert(is_advance_of(run[k], run[k + 1]));
    }
}

/// Once an agent has an onset turn, every later state of the run holds the
/// same agent, with the same onset turn.
pub proof fn lemma_onset_never_changes(run: Seq<SimulationView>, j1: int, j2: int, i: int)
    requires
        is_run(run),
        0 <= j1 <= j2 < run.len(),
        0 <= i < run[j1].agents.len(),
        run[j1].agents[i].symptom_onset_turn is Some,
    ensures
        i < run[j2].agents.len(),
        run[j2].agents[i] == run[j1].agents[i],
    decreases j2 - j1,
{
    if j2 > j1 {
        lemma_onset_never_changes(run, j1, j2 - 1, i);
        let k = j2 - 1;
        assert(is_advance_of(run[k], run[k + 1]));
    }
}

/// An agent infected during a turn gets an onset strictly after that turn,
/// at a delay that lies in the incubation range.
pub proof fn lemma_exposure_onset_in_future(s: SimulationView, t: SimulationView, i: int)
    requires
        is_advance_of(s, t),
        s.incubation.valid(),
        0 <= i < s.agents.len(),
        s.agents[i].symptom_onset_turn is None,
        t.agents[i].symptom_onset_turn is Some,
    ensures
        t.agents[i].symptom_onset_turn->0 > t.turn,
        s.incubation.contains((t.agents[i].symptom_onset_turn->0 - t.turn) as u32),
{
}

/// Pressure adds up over groups of agents: the pressure of two groups
/// together is the sum of their pressures.
pub proof fn lemma_pressure_additive(a: Seq<Agent>, b: Seq<Agent>, turn: u32, x: int, y: int)
    ensures
        pressure_of(a + b, turn, x, y) == pressure_of(a, turn, x, y) + pressure_of(b, turn, x, y),
    decreases b.len(),
{
    if b.len() == 0 {
        assert(a + b =~= a);
    } else {
        lemma_pressure_additive(a, b.drop_last(), turn, x, y);
        assert((a + b).drop_last() =~= a + b.drop_last());
        assert((a + b).last() == b.last());
    }
}

/// An agent puts no pressure on its own cell.
pub proof fn lemma_no_self_pressure(agents: Seq<Agent>, a: Agent, turn: u32)
    ensures
        pressure_of(agents.push(a), turn, a.position.x as int, a.position.y as int)
            == pressure_of(agents, turn, a.position.x as int, a.position.y as int),
{
    assert(agents.push(a).drop_last() =~= agents);
}

/// An agent under no pressure is never exposed, whatever the draw: a cell
/// that no symptomatic agent borders changes nothing.
pub proof fn lemma_unpressured_agent_stays(a: Agent, turn: u32, draw: u32, delay: u32)
    ensures
        exposure_outcome(a, turn, 0, draw, delay) == a,
{
    lemma2_to64();
}

/// Running the exposure step a second time on the same pressure and draws
/// changes nothing more: each exposure decision is made once per turn.
pub proof fn lemma_exposure_settles(a: Agent, turn: u32, k: nat, draw: u32, delay: u32)
    ensures
        exposure_outcome(exposure_outcome(a, turn, k, draw, delay), turn, k, draw, delay)
            == exposure_outcome(a, turn, k, draw, delay),
{
}

} // verus!
