//! Fuel arithmetic: the fuel needed to lift a mass, and the cumulative
//! fuel needed once the fuel itself must be lifted too.

use vstd::prelude::*;
use vstd::arithmetic::div_mod::lemma_div_decreases;

verus! {

/// The fuel needed for `mass` alone: a third of it, rounded down, less two.
pub open spec fn spec_fuel(mass: int) -> int
    recommends
        mass >= 0,
{
    mass / 3 - 2
}

/// The total fuel needed for `mass` and, recursively, for its own fuel:
/// rounds that need no more fuel contribute nothing.
pub open spec fn spec_cumulative_fuel(mass: int) -> int
    recommends
        mass >= 0,
    decreases mass,
{
    if mass < 0 {
        0
    } else {
        let f = spec_fuel(mass);
        if f <= 0 {
            0
        } else {
            f + spec_cumulative_fuel(f)
        }
    }
}

/// Cumulative fuel never exceeds the mass itself.
proof fn lemma_cumulative_fuel_le(mass: int)
    requires
        mass >= 0,
    ensures
        0 <= spec_cumulative_fuel(mass) <= mass,
    decreases mass,
{
    let f = spec_fuel(mass);
    if f > 0 {
        lemma_div_decreases(mass, 3);
        lemma_cumulative_fuel_le(f);
    }
}

/// The fuel needed for `mass` alone.
pub fn fuel(mass: i64) -> (r: i64)
    requires
        mass >= 0,
    ensures
        r as int == spec_fuel(mass as int),
{
    (mass as u64 / 3) as i64 - 2
}

/// The total fuel needed for `mass`, counting the fuel's own fuel.
pub fn cumulative_fuel(mass: i64) -> (r: i64)
    requires
        mass >= 0,
    ensures
        r as int == spec_cumulative_fuel(mass as int),
{
    let mut tot: i64 = 0;
    let first = fuel(mass);
    let mut f = if first > 0 {
        first
    } else {
        0
    };
    proof {
        lemma_cumulative_fuel_le(mass as int);
        if f > 0 {
            lemma_cumulative_fuel_le(f as int);
        }
    }
    while f > 0
        invariant
            0 <= f <= mass,
            f > 0 ==> tot + f + spec_cumulative_fuel(f as int) == spec_cumulative_fuel(mass as int),
            f <= 0 ==> tot == spec_cumulative_fuel(mass as int),
            0 <= tot <= mass,
            f > 0 ==> tot + f + spec_cumulative_fuel(f as int) <= mass,
        decreases f,
    {
        proof {
            lemma_cumulative_fuel_le(f as int);
            lemma_div_decreases(f as int, 3);
        }
        tot = tot + f;
        let next = fuel(f);
        proof {
            if next > 0 {
                lemma_cumulative_fuel_le(next as int);
            }
        }
        f = if next > 0 {
            next
        } else {
            0
        };
    }
    tot
}

} // verus!
