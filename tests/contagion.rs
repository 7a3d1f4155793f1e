use contagion::agent::{Agent, Cell, IncubationRange};
use contagion::pressure::{compute_pressure, pressure_at, should_expose};
use contagion::simulation::Simulation;
use rand::rngs::StdRng;
use rand::SeedableRng;

fn sick(x: i32, y: i32, onset: u32) -> Agent {
    Agent { position: Cell { x, y }, symptom_onset_turn: Some(onset) }
}

fn well(x: i32, y: i32) -> Agent {
    Agent::healthy(Cell { x, y })
}

fn unit_draw(fraction_per_mille: u64) -> u32 {
    ((fraction_per_mille << 32) / 1000) as u32
}

#[test]
fn pressure_adds_up_over_neighbours() {
    let agents = vec![sick(0, 0, 1), sick(1, 0, 1), well(0, 1)];
    let m = compute_pressure(&agents, 1);
    assert_eq!(pressure_at(&m, 0, 1), 2);
    assert_eq!(pressure_at(&m, 1, 1), 2);
    assert_eq!(pressure_at(&m, -1, 0), 1);
    assert_eq!(pressure_at(&m, 2, 0), 1);
    assert_eq!(pressure_at(&m, 3, 0), 0);
}

#[test]
fn pressure_two_gives_three_quarters() {
    // u = 0.3 exceeds 0.5^2 = 0.25, and so does u = 0.9; u = 0.2 does not.
    assert!(should_expose(unit_draw(300), 2));
    assert!(should_expose(unit_draw(900), 2));
    assert!(!should_expose(unit_draw(200), 2));
    assert!(!should_expose(1 << 30, 2));
    assert!(should_expose((1 << 30) + 1, 2));
}

#[test]
fn exposure_thresholds() {
    assert!(!should_expose(u32::MAX, 0));
    assert!(!should_expose(1 << 31, 1));
    assert!(should_expose((1 << 31) + 1, 1));
    assert!(!should_expose(1, 32));
    assert!(should_expose(2, 32));
    assert!(should_expose(1, 40));
    assert!(!should_expose(0, 40));
    assert!(!should_expose(0, 8));
}

#[test]
fn no_pressure_on_own_cell() {
    let agents = vec![sick(0, 0, 0)];
    let m = compute_pressure(&agents, 0);
    assert_eq!(pressure_at(&m, 0, 0), 0);
    for (x, y) in [(-1, -1), (0, -1), (1, -1), (-1, 0), (1, 0), (-1, 1), (0, 1), (1, 1)] {
        assert_eq!(pressure_at(&m, x, y), 1);
    }
}

#[test]
fn incubating_agents_put_no_pressure() {
    let agents = vec![sick(0, 0, 3), well(1, 1)];
    let m = compute_pressure(&agents, 2);
    assert_eq!(pressure_at(&m, 1, 1), 0);
    let m = compute_pressure(&agents, 3);
    assert_eq!(pressure_at(&m, 1, 1), 1);
}

#[test]
fn neighbours_past_the_coordinate_range_are_skipped() {
    let agents = vec![sick(i32::MAX, i32::MIN, 0)];
    let m = compute_pressure(&agents, 0);
    assert_eq!(pressure_at(&m, i32::MAX - 1, i32::MIN), 1);
    assert_eq!(pressure_at(&m, i32::MAX - 1, i32::MIN + 1), 1);
    assert_eq!(pressure_at(&m, i32::MAX, i32::MIN + 1), 1);
    assert_eq!(pressure_at(&m, i32::MAX, i32::MIN), 0);
}

#[test]
fn empty_population_has_no_pressure() {
    let m = compute_pressure(&Vec::new(), 5);
    assert_eq!(pressure_at(&m, 0, 0), 0);
}

#[test]
fn agent_symptoms_follow_onset() {
    let a = sick(2, 3, 4);
    assert!(!a.is_symptomatic(3));
    assert!(a.is_symptomatic(4));
    assert!(a.is_symptomatic(9));
    assert!(!well(0, 0).is_symptomatic(100));
}

#[test]
fn expose_with_delay_sets_only_once() {
    let mut a = well(1, 2);
    a.expose_with_delay(5, 2);
    assert_eq!(a.symptom_onset_turn, Some(7));
    a.expose_with_delay(6, 3);
    assert_eq!(a.symptom_onset_turn, Some(7));
    assert_eq!(a.position, Cell { x: 1, y: 2 });
}

#[test]
fn expose_draws_a_future_onset() {
    let range = IncubationRange::new(1, 4);
    for seed in 0..50u64 {
        let mut rng = StdRng::seed_from_u64(seed);
        let mut a = well(0, 0);
        a.expose(10, range, &mut rng);
        let t = a.symptom_onset_turn.unwrap();
        assert!((11..14).contains(&t));
        let mut b = sick(0, 0, 3);
        b.expose(10, range, &mut rng);
        assert_eq!(b.symptom_onset_turn, Some(3));
    }
}

#[test]
fn incubation_draws_cover_the_range() {
    let range = IncubationRange::new(1, 4);
    let mut rng = StdRng::seed_from_u64(7);
    let mut seen = [false; 4];
    for _ in 0..200 {
        let d = range.draw(&mut rng);
        assert!((1..4).contains(&d));
        seen[d as usize] = true;
    }
    assert!(seen[1] && seen[2] && seen[3]);
}

#[test]
fn grid_is_laid_out_row_by_row() {
    let sim = Simulation::with_patient_zero(5, IncubationRange::new(1, 4), Cell { x: 2, y: -3 }, 2);
    assert_eq!(sim.agent_count(), 100);
    assert_eq!(sim.turn(), 0);
    assert_eq!(sim.half_extent(), 5);
    assert_eq!(sim.incubation(), IncubationRange::new(1, 4));
    assert_eq!(sim.agent(0).position, Cell { x: -5, y: -5 });
    assert_eq!(sim.agent(1).position, Cell { x: -4, y: -5 });
    assert_eq!(sim.agent(10).position, Cell { x: -5, y: -4 });
    assert_eq!(sim.agent(99).position, Cell { x: 4, y: 4 });
    for i in 0..100 {
        let a = sim.agent(i);
        if a.position == (Cell { x: 2, y: -3 }) {
            assert_eq!(a.symptom_onset_turn, Some(2));
        } else {
            assert_eq!(a.symptom_onset_turn, None);
        }
    }
}

#[test]
fn initialize_seeds_one_patient_zero() {
    for seed in 0..20u64 {
        let mut rng = StdRng::seed_from_u64(seed);
        let sim = Simulation::initialize(5, IncubationRange::new(1, 4), &mut rng);
        assert_eq!(sim.agent_count(), 100);
        let infected: Vec<Agent> =
            (0..100).map(|i| sim.agent(i)).filter(|a| a.symptom_onset_turn.is_some()).collect();
        assert_eq!(infected.len(), 1);
        let t = infected[0].symptom_onset_turn.unwrap();
        assert!((1..4).contains(&t));
    }
}

fn two_by_two() -> Simulation {
    Simulation::with_patient_zero(1, IncubationRange::new(1, 4), Cell { x: 0, y: 0 }, 1)
}

#[test]
fn small_grid_all_neighbours_exposed() {
    let mut sim = two_by_two();
    assert_eq!(sim.agent_count(), 4);
    sim.advance_with(&vec![u32::MAX; 4], &vec![1, 2, 3, 1]);
    assert_eq!(sim.turn(), 1);
    assert_eq!(sim.agent(0).symptom_onset_turn, Some(2));
    assert_eq!(sim.agent(1).symptom_onset_turn, Some(3));
    assert_eq!(sim.agent(2).symptom_onset_turn, Some(4));
    assert_eq!(sim.agent(3).symptom_onset_turn, Some(1));
    assert!(sim.agent(3).is_symptomatic(sim.turn()));
    assert_eq!(sim.newly_symptomatic(), vec![3]);
}

#[test]
fn small_grid_low_draws_expose_nobody() {
    let mut sim = two_by_two();
    sim.advance_with(&vec![1 << 31; 4], &vec![3; 4]);
    assert_eq!(sim.turn(), 1);
    for i in 0..3 {
        assert_eq!(sim.agent(i).symptom_onset_turn, None);
    }
    assert_eq!(sim.agent(3).symptom_onset_turn, Some(1));
}

#[test]
fn small_grid_mixed_draws() {
    let mut sim = two_by_two();
    sim.advance_with(&vec![u32::MAX, 0, (1 << 31) + 1, u32::MAX], &vec![2, 2, 3, 2]);
    assert_eq!(sim.agent(0).symptom_onset_turn, Some(3));
    assert_eq!(sim.agent(1).symptom_onset_turn, None);
    assert_eq!(sim.agent(2).symptom_onset_turn, Some(4));
}

#[test]
fn incubating_patient_zero_spreads_nothing() {
    let mut sim =
        Simulation::with_patient_zero(1, IncubationRange::new(1, 4), Cell { x: 0, y: 0 }, 3);
    sim.advance_with(&vec![u32::MAX; 4], &vec![1; 4]);
    assert_eq!(sim.turn(), 1);
    for i in 0..3 {
        assert_eq!(sim.agent(i).symptom_onset_turn, None);
    }
    assert!(sim.newly_symptomatic().is_empty());
}

#[test]
fn small_grid_random_turn() {
    for seed in 0..40u64 {
        let mut rng = StdRng::seed_from_u64(seed);
        let mut sim = two_by_two();
        sim.advance(&mut rng);
        assert_eq!(sim.turn(), 1);
        assert_eq!(sim.agent(3).symptom_onset_turn, Some(1));
        for i in 0..3 {
            if let Some(t) = sim.agent(i).symptom_onset_turn {
                assert!((2..5).contains(&t));
            }
        }
    }
}

#[test]
fn clock_and_onsets_over_many_turns() {
    let mut rng = StdRng::seed_from_u64(42);
    let mut sim = Simulation::initialize(5, IncubationRange::new(1, 4), &mut rng);
    let mut before: Vec<Option<u32>> = (0..100).map(|i| sim.agent(i).symptom_onset_turn).collect();
    for step in 1..30u32 {
        sim.advance(&mut rng);
        assert_eq!(sim.turn(), step);
        for i in 0..100 {
            let now = sim.agent(i).symptom_onset_turn;
            match before[i] {
                Some(t) => assert_eq!(now, Some(t)),
                None => {
                    if let Some(t) = now {
                        assert!(t > step && t < step + 4);
                    }
                }
            }
            before[i] = now;
        }
    }
    assert!(before.iter().filter(|o| o.is_some()).count() > 1);
}
