use vstd::prelude::*;
use vstd::arithmetic::power2::{pow2, lemma2_to64, lemma_pow2_strictly_increases};
use vstd::bits::lemma_u64_shl_is_mul;
use bevy::platform::collections::HashMap;
use bevy::platform::hash::FixedHasher;
use crate::agent::{Agent, symptomatic_at};

verus! {

#[verifier::external_type_specification]
#[verifier::external_body]
pub struct ExFixedHasher(FixedHasher);

#[verifier::external_type_specification]
#[verifier::external_body]
#[verifier::reject_recursive_types(K)]
#[verifier::reject_recursive_types(V)]
#[verifier::reject_recursive_types(S)]
pub struct ExHashMap<K, V, S>(HashMap<K, V, S>);

/// Infection pressure per cell, keyed by `(x, y)`.
pub type PressureMap = HashMap<(i32, i32), u32>;

/// What a pressure map holds.
pub uninterp spec fn pressure_entries(m: PressureMap) -> Map<(i32, i32), u32>;

/// Relies on bevy's `HashMap::new`: the new map is empty.
#[verifier::external_body]
fn map_new() -> (r: PressureMap)
    ensures
        forall|k: (i32, i32)| !(#[trigger] pressure_entries(r).dom().contains(k)),
{
    HashMap::new()
}

/// Relies on bevy's `HashMap::get`: the value stored under the key, if any.
#[verifier::external_body]
fn map_get(m: &PressureMap, x: i32, y: i32) -> (r: Option<u32>)
    ensures
        r == (if pressure_entries(*m).dom().contains((x, y)) {
            Some(pressure_entries(*m)[(x, y)])
        } else {
            None::<u32>
        }),
{
    m.get(&(x, y)).copied()
}

/// Relies on bevy's `HashMap::insert`: the key now maps to `v`, all other
/// keys are untouched.
#[verifier::external_body]
fn map_insert(m: &mut PressureMap, x: i32, y: i32, v: u32)
    ensures
        pressure_entries(*final(m)) == pressure_entries(*old(m)).insert((x, y), v),
{
    m.insert((x, y), v);
}

/// Position of `(x, y)` in the order in which the eight neighbours of `c` are
/// visited (rows from below, cells from the left), or 9 where `(x, y)` is not
/// one of them. The centre, index 4, is never a neighbour.
spec fn neighbour_index(c: crate::agent::Cell, x: int, y: int) -> int {
    let dx = x - c.x;
    let dy = y - c.y;
    if -1 <= dx <= 1 && -1 <= dy <= 1 && !(dx == 0 && dy == 0) {
        (dy + 1) * 3 + (dx + 1)
    } else {
        9
    }
}

/// `(x, y)` lies in the Moore neighbourhood of `c`, which excludes `c` itself.
pub open spec fn moore_adjacent(c: crate::agent::Cell, x: int, y: int) -> bool {
    let dx = x - c.x;
    let dy = y - c.y;
    -1 <= dx <= 1 && -1 <= dy <= 1 && !(dx == 0 && dy == 0)
}

/// Whether agent `a` puts pressure on `(x, y)` at `turn`.
pub open spec fn contributes(a: Agent, turn: u32, x: int, y: int) -> bool {
    symptomatic_at(a, turn) && moore_adjacent(a.position, x, y)
}

/// Infection pressure on `(x, y)` at `turn`: the number of agents that are
/// symptomatic at `turn` and have `(x, y)` among their eight neighbours.
pub open spec fn pressure_of(agents: Seq<Agent>, turn: u32, x: int, y: int) -> nat
    decreases agents.len(),
{
    if agents.len() == 0 {
        0
    } else {
        pressure_of(agents.drop_last(), turn, x, y) + if contributes(agents.last(), turn, x, y) {
            1nat
        } else {
            0nat
        }
    }
}

/// The value stored under `(x, y)`, with 0 for a missing key.
pub open spec fn entry_or_zero(m: Map<(i32, i32), u32>, x: i32, y: i32) -> nat {
    if m.dom().contains((x, y)) {
        m[(x, y)] as nat
    } else {
        0
    }
}

/// A map that holds exactly the cells of positive pressure, each with its
/// pressure.
pub open spec fn holds_pressure(m: Map<(i32, i32), u32>, agents: Seq<Agent>, turn: u32) -> bool {
    &&& forall|x: i32, y: i32| #[trigger]
        entry_or_zero(m, x, y) == pressure_of(agents, turn, x as int, y as int)
    &&& forall|k: (i32, i32)| #[trigger] m.dom().contains(k) ==> m[k] > 0
}

/// A draw of 32 random bits, read as the fraction `draw / 2^32` of the unit
/// interval, exposes an agent under pressure `k` when it exceeds `0.5^k`.
pub open spec fn exposure_succeeds(draw: u32, k: nat) -> bool {
    draw * pow2(k) > pow2(32)
}

proof fn lemma_pressure_bounded(agents: Seq<Agent>, turn: u32, x: int, y: int)
    ensures
        pressure_of(agents, turn, x, y) <= agents.len(),
    decreases agents.len(),
{
    if agents.len() > 0 {
        lemma_pressure_bounded(agents.drop_last(), turn, x, y);
    }
}

/// Pressure on the prefix `agents[..i]`, plus the neighbours of `agents[i]`
/// that come before position `o` in the visiting order.
spec fn partial_pressure(agents: Seq<Agent>, turn: u32, i: int, o: int, x: int, y: int) -> nat {
    pressure_of(agents.subrange(0, i), turn, x, y) + if 0 <= i < agents.len() && symptomatic_at(
        agents[i],
        turn,
    ) && neighbour_index(agents[i].position, x, y) < o {
        1nat
    } else {
        0nat
    }
}

spec fn partial_holds(
    m: Map<(i32, i32), u32>,
    agents: Seq<Agent>,
    turn: u32,
    i: int,
    o: int,
) -> bool {
    &&& forall|x: i32, y: i32| #[trigger]
        entry_or_zero(m, x, y) == partial_pressure(agents, turn, i, o, x as int, y as int)
    &&& forall|k: (i32, i32)| #[trigger] m.dom().contains(k) ==> m[k] > 0
}

proof fn lemma_prefix_step(agents: Seq<Agent>, turn: u32, i: int, x: int, y: int)
    requires
        0 <= i < agents.len(),
    ensures
        partial_pressure(agents, turn, i, 9, x, y) == pressure_of(
            agents.subrange(0, i + 1),
            turn,
            x,
            y,
        ),
{
    let next = agents.subrange(0, i + 1);
    assert(next.drop_last() =~= agents.subrange(0, i));
    assert(next.last() == agents[i]);
}

/// Builds the pressure map of `agents` at `turn`: every symptomatic agent
/// adds one to each of its eight neighbouring cells.
pub fn compute_pressure(agents: &Vec<Agent>, turn: u32) -> (r: PressureMap)
    requires
        agents.len() <= u32::MAX,
    ensures
        holds_pressure(pressure_entries(r), agents@, turn),
{
    let mut m = map_new();
    let mut i: usize = 0;
    assert(agents@.subrange(0, 0) =~= Seq::<Agent>::empty());
    while i < agents.len()
        invariant
            i <= agents.len() <= u32::MAX,
            partial_holds(pressure_entries(m), agents@, turn, i as int, 0),
        decreases agents.len() - i,
    {
        let a = agents[i];
        if a.is_symptomatic(turn) {
            let mut o: u32 = 0;
            while o < 9
                invariant
                    i < agents.len() <= u32::MAX,
                    a == agents@[i as int],
                    symptomatic_at(a, turn),
                    o <= 9,
                    partial_holds(pressure_entries(m), agents@, turn, i as int, o as int),
                decreases 9 - o,
            {
                if o != 4 {
                    let nx: i64 = a.position.x as i64 + (o % 3) as i64 - 1;
                    let ny: i64 = a.position.y as i64 + (o / 3) as i64 - 1;
                    if i32::MIN as i64 <= nx && nx <= i32::MAX as i64 && i32::MIN as i64 <= ny
                        && ny <= i32::MAX as i64 {
                        let (kx, ky) = (nx as i32, ny as i32);
                        let ghost before = pressure_entries(m);
                        proof {
                            assert(neighbour_index(a.position, kx as int, ky as int) == o);
                            lemma_pressure_bounded(agents@.subrange(0, i as int), turn, kx as int, ky as int);
                            assert(entry_or_zero(before, kx, ky) == partial_pressure(agents@, turn, i as int, o as int, kx as int, ky as int));
                        }
                        let v: u32 = match map_get(&m, kx, ky) {
                            Some(p) => p + 1,
                            None => 1,
                        };
                        map_insert(&mut m, kx, ky, v);
                        proof {
                            let after = pressure_entries(m);
                            assert forall|x: i32, y: i32|
                                #[trigger] entry_or_zero(after, x, y) == partial_pressure(
                                    agents@,
                                    turn,
                                    i as int,
                                    o + 1,
                                    x as int,
                                    y as int,
                                ) by {
                                assert(entry_or_zero(before, x, y) == partial_pressure(agents@, turn, i as int, o as int, x as int, y as int));
                                if x != kx || y != ky {
                                    assert(neighbour_index(a.position, x as int, y as int) != o);
                                }
                            }
                        }
                    } else {
                        proof {
                            let cur = pressure_entries(m);
                            assert forall|x: i32, y: i32|
                                #[trigger] entry_or_zero(cur, x, y) == partial_pressure(
                                    agents@,
                                    turn,
                                    i as int,
                                    o + 1,
                                    x as int,
                                    y as int,
                                ) by {
                                assert(entry_or_zero(cur, x, y) == partial_pressure(agents@, turn, i as int, o as int, x as int, y as int));
                                assert(neighbour_index(a.position, x as int, y as int) != o);
                            }
                        }
                    }
                } else {
                    proof {
                        let cur = pressure_entries(m);
                        assert forall|x: i32, y: i32|
                            #[trigger] entry_or_zero(cur, x, y) == partial_pressure(
                                agents@,
                                turn,
                                i as int,
                                o + 1,
                                x as int,
                                y as int,
                            ) by {
                            assert(entry_or_zero(cur, x, y) == partial_pressure(agents@, turn, i as int, o as int, x as int, y as int));
                        }
                    }
                }
                o = o + 1;
            }
        }
        proof {
            let cur = pressure_entries(m);
            assert forall|x: i32, y: i32|
                #[trigger] entry_or_zero(cur, x, y) == partial_pressure(
                    agents@,
                    turn,
                    i + 1,
                    0,
                    x as int,
                    y as int,
                ) by {
                lemma_prefix_step(agents@, turn, i as int, x as int, y as int);
                if symptomatic_at(a, turn) {
                    assert(entry_or_zero(cur, x, y) == partial_pressure(agents@, turn, i as int, 9, x as int, y as int));
                } else {
                    assert(entry_or_zero(cur, x, y) == partial_pressure(agents@, turn, i as int, 0, x as int, y as int));
                }
            }
        }
        i = i + 1;
    }
    proof {
        let cur = pressure_entries(m);
        assert(agents@.subrange(0, agents.len() as int) =~= agents@);
        assert forall|x: i32, y: i32|
            #[trigger] entry_or_zero(cur, x, y) == pressure_of(agents@, turn, x as int, y as int) by {
            assert(entry_or_zero(cur, x, y) == partial_pressure(agents@, turn, agents.len() as int, 0, x as int, y as int));
        }
    }
    m
}

/// The pressure recorded for `(x, y)`, 0 where the map has no entry.
pub fn pressure_at(m: &PressureMap, x: i32, y: i32) -> (r: u32)
    ensures
        r == entry_or_zero(pressure_entries(*m), x, y),
{
    match map_get(m, x, y) {
        Some(p) => p,
        None => 0,
    }
}

/// Whether `draw` exposes an agent under pressure `k` (see
/// `exposure_succeeds`): the chance is `1 - 0.5^k` for a uniform draw.
pub fn should_expose(draw: u32, k: u32) -> (r: bool)
    ensures
        r == exposure_succeeds(draw, k as nat),
{
    proof {
        lemma2_to64();
    }
    if k <= 32 {
        proof {
            if k < 32 {
                lemma_pow2_strictly_increases(k as nat, 32);
            }
            assert(draw * pow2(k as nat) <= 0xffff_ffff * 0x1_0000_0000) by (nonlinear_arith)
                requires
                    draw <= 0xffff_ffff,
                    pow2(k as nat) <= 0x1_0000_0000,
            ;
            lemma_u64_shl_is_mul(draw as u64, k as u64);
        }
        ((draw as u64) << (k as u64)) > 0x1_0000_0000u64
    } else {
        proof {
            lemma_pow2_strictly_increases(32, k as nat);
            if draw > 0 {
                assert(draw * pow2(k as nat) >= pow2(k as nat)) by (nonlinear_arith)
                    requires
                        draw >= 1,
                ;
            } else {
                assert(draw * pow2(k as nat) == 0) by (nonlinear_arith)
                    requires
                        draw == 0,
                ;
            }
        }
        draw > 0
    }
}

} // verus!
