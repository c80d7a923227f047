//! How each kind of iterator derives its cost estimates from those of its
//! parts. All arithmetic saturates at the bounds of `i64`.
use vstd::prelude::*;
use crate::arith::{clamp_i64, trunc_div, sat_add, sat_sub, sat_mul, sat_div};
use crate::graph::refs::Size;
use crate::graph::iterator::Costs;

verus! {

/// Saturating division, zero for a zero divisor.
pub open spec fn div_spec(a: i64, b: i64) -> i64 {
    if b == 0 {
        0
    } else {
        clamp_i64(trunc_div(a as int, b as int))
    }
}

/// The share of one more sub-iterator in the cost of an intersection:
/// checking it once per result of the primary, scaled by how much larger
/// the primary is.
pub open spec fn and_step_spec(acc: Costs, primary: Costs, s: Costs) -> Costs {
    let ratio = clamp_i64(1 + div_spec(primary.size.value, clamp_i64(s.size.value + 1)));
    Costs {
        contains_cost: clamp_i64(acc.contains_cost + s.contains_cost),
        next_cost: clamp_i64(acc.next_cost + clamp_i64(s.contains_cost * ratio)),
        size: if acc.size.value > s.size.value { s.size } else { acc.size },
    }
}

pub fn and_step(acc: Costs, primary: Costs, s: Costs) -> (r: Costs)
    ensures
        r == and_step_spec(acc, primary, s),
{
    let d = sat_add(s.size.value, 1);
    let q = sat_div(primary.size.value, d);
    let ratio = sat_add(1, q);
    let size = if acc.size.value > s.size.value { s.size } else { acc.size };
    Costs {
        contains_cost: sat_add(acc.contains_cost, s.contains_cost),
        next_cost: sat_add(acc.next_cost, sat_mul(s.contains_cost, ratio)),
        size,
    }
}

/// The costs of an intersection of shapes with costs `c[0..n]`, the first
/// being the primary: the primary's costs, with each other sub-iterator's
/// share added, and the smallest size (the first of equal ones).
pub open spec fn and_costs(c: Seq<Costs>, n: int) -> Costs
    decreases n,
{
    if n <= 1 {
        c[0]
    } else {
        and_step_spec(and_costs(c, n - 1), c[0], c[n - 1])
    }
}

/// The costs of an intersection, from the costs of its sub-iterators.
pub fn and_costs_of(c: &Vec<Costs>) -> (r: Costs)
    requires
        c@.len() > 0,
    ensures
        r == and_costs(c@, c@.len() as int),
{
    let primary = c[0];
    let mut acc = c[0];
    let mut i: usize = 1;
    while i < c.len()
        invariant
            1 <= i <= c@.len(),
            primary == c@[0],
            acc == and_costs(c@, i as int),
        decreases c@.len() - i,
    {
        acc = and_step(acc, primary, c[i]);
        i = i + 1;
    }
    acc
}

/// The share of one more sub-iterator in the cost of a union.
pub open spec fn or_step_spec(acc: Costs, s: Costs, short: bool) -> Costs {
    Costs {
        contains_cost: clamp_i64(acc.contains_cost + s.contains_cost),
        next_cost: clamp_i64(acc.next_cost + s.next_cost),
        size: if short {
            if acc.size.value < s.size.value { s.size } else { acc.size }
        } else {
            Size { value: clamp_i64(acc.size.value + s.size.value), exact: acc.size.exact && s.size.exact }
        },
    }
}

pub fn or_step(acc: Costs, s: Costs, short: bool) -> (r: Costs)
    ensures
        r == or_step_spec(acc, s, short),
{
    let size = if short {
        if acc.size.value < s.size.value { s.size } else { acc.size }
    } else {
        Size { value: sat_add(acc.size.value, s.size.value), exact: acc.size.exact && s.size.exact }
    };
    Costs {
        contains_cost: sat_add(acc.contains_cost, s.contains_cost),
        next_cost: sat_add(acc.next_cost, s.next_cost),
        size,
    }
}

/// The costs of a union of shapes with costs `c[0..n]`: costs add up; the
/// size is the sum (the largest, when short-circuiting).
pub open spec fn or_costs(c: Seq<Costs>, n: int, short: bool) -> Costs
    decreases n,
{
    if n <= 0 {
        Costs { contains_cost: 0, next_cost: 0, size: Size { value: 0, exact: true } }
    } else {
        or_step_spec(or_costs(c, n - 1, short), c[n - 1], short)
    }
}

/// The costs of a union, from the costs of its sub-iterators.
pub fn or_costs_of(c: &Vec<Costs>, short: bool) -> (r: Costs)
    ensures
        r == or_costs(c@, c@.len() as int, short),
{
    let mut acc = Costs { contains_cost: 0, next_cost: 0, size: Size { value: 0, exact: true } };
    let mut i: usize = 0;
    while i < c.len()
        invariant
            i <= c@.len(),
            acc == or_costs(c@, i as int, short),
        decreases c@.len() - i,
    {
        acc = or_step(acc, c[i], short);
        i = i + 1;
    }
    acc
}

/// Skipping lowers an exact size by `skip`, down to zero at least.
pub open spec fn skip_costs_spec(c: Costs, skip: i64) -> Costs {
    if c.size.exact {
        let v = clamp_i64(c.size.value - skip);
        Costs { size: Size { value: if v < 0 { 0 } else { v }, exact: true }, ..c }
    } else {
        c
    }
}

pub fn skip_costs(c: Costs, skip: i64) -> (r: Costs)
    ensures
        r == skip_costs_spec(c, skip),
{
    if c.size.exact {
        let v = sat_sub(c.size.value, skip);
        Costs { size: Size { value: if v < 0 { 0 } else { v }, exact: true }, ..c }
    } else {
        c
    }
}

/// A positive limit caps the size.
pub open spec fn limit_costs_spec(c: Costs, limit: i64) -> Costs {
    if limit > 0 && c.size.value > limit {
        Costs { size: Size { value: limit, exact: c.size.exact }, ..c }
    } else {
        c
    }
}

pub fn limit_costs(c: Costs, limit: i64) -> (r: Costs)
    ensures
        r == limit_costs_spec(c, limit),
{
    if limit > 0 && c.size.value > limit {
        Costs { size: Size { value: limit, exact: c.size.exact }, ..c }
    } else {
        c
    }
}

/// A complement walks the "all" iterator and checks the primary.
pub open spec fn not_costs_spec(primary: Costs, all: Costs) -> Costs {
    Costs {
        next_cost: clamp_i64(all.next_cost + primary.contains_cost),
        contains_cost: primary.contains_cost,
        size: Size { value: clamp_i64(all.size.value - primary.size.value), exact: false },
    }
}

pub fn not_costs(primary: Costs, all: Costs) -> (r: Costs)
    ensures
        r == not_costs_spec(primary, all),
{
    Costs {
        next_cost: sat_add(all.next_cost, primary.contains_cost),
        contains_cost: primary.contains_cost,
        size: Size { value: sat_sub(all.size.value, primary.size.value), exact: false },
    }
}

/// De-duplication is assumed to halve the results and double the work.
pub open spec fn unique_costs_spec(c: Costs) -> Costs {
    Costs {
        next_cost: clamp_i64(c.next_cost * 2),
        contains_cost: c.contains_cost,
        size: Size { value: div_spec(c.size.value, 2), exact: false },
    }
}

pub fn unique_costs(c: Costs) -> (r: Costs)
    ensures
        r == unique_costs_spec(c),
{
    Costs {
        next_cost: sat_mul(c.next_cost, 2),
        contains_cost: c.contains_cost,
        size: Size { value: sat_div(c.size.value, 2), exact: false },
    }
}

/// A count has one result; listing it walks the whole sub-iterator unless
/// its size is exact.
pub open spec fn count_costs_spec(sub: Option<Costs>) -> Costs {
    Costs {
        next_cost: match sub {
            Some(s) => if !s.size.exact { clamp_i64(s.next_cost * s.size.value) } else { 1 },
            None => 1,
        },
        contains_cost: 0,
        size: Size { value: 1, exact: true },
    }
}

pub fn count_costs(sub: Option<Costs>) -> (r: Costs)
    ensures
        r == count_costs_spec(sub),
{
    let next_cost = match sub {
        Some(s) => if !s.size.exact { sat_mul(s.next_cost, s.size.value) } else { 1 },
        None => 1,
    };
    Costs { next_cost, contains_cost: 0, size: Size { value: 1, exact: true } }
}

/// Materializing doubles the cost of each step; a positive expected size
/// replaces the size (as an estimate).
pub open spec fn materialize_costs_spec(sub: Costs, expected_size: i64) -> Costs {
    Costs {
        contains_cost: clamp_i64(2 * sub.next_cost),
        next_cost: clamp_i64(2 * sub.next_cost),
        size: if expected_size > 0 { Size { value: expected_size, exact: false } } else { sub.size },
    }
}

pub fn materialize_costs(sub: Costs, expected_size: i64) -> (r: Costs)
    ensures
        r == materialize_costs_spec(sub, expected_size),
{
    Costs {
        contains_cost: sat_mul(2, sub.next_cost),
        next_cost: sat_mul(2, sub.next_cost),
        size: if expected_size > 0 { Size { value: expected_size, exact: false } } else { sub.size },
    }
}

/// Sorting doubles the cost of listing; the size becomes exact.
pub open spec fn sort_costs_spec(sub: Costs) -> Costs {
    Costs {
        next_cost: clamp_i64(sub.next_cost * 2),
        contains_cost: sub.contains_cost,
        size: Size { value: sub.size.value, exact: true },
    }
}

pub fn sort_costs(sub: Costs) -> (r: Costs)
    ensures
        r == sort_costs_spec(sub),
{
    Costs {
        next_cost: sat_mul(sub.next_cost, 2),
        contains_cost: sub.contains_cost,
        size: Size { value: sub.size.value, exact: true },
    }
}

/// A value filter is assumed to keep about half of the results, plus one.
pub open spec fn filter_costs_spec(sub: Costs) -> Costs {
    Costs { size: Size { value: clamp_i64(div_spec(sub.size.value, 2) + 1), exact: false }, ..sub }
}

pub fn filter_costs(sub: Costs) -> (r: Costs)
    ensures
        r == filter_costs_spec(sub),
{
    Costs { size: Size { value: sat_add(sat_div(sub.size.value, 2), 1), exact: false }, ..sub }
}

/// Following quads to one of their directions: one quad per result, and a
/// fan-out of thirty quads per checked value.
pub open spec fn has_a_costs_spec(sub: Costs) -> Costs {
    Costs {
        next_cost: clamp_i64(1 + sub.next_cost),
        contains_cost: clamp_i64(60 * sub.contains_cost),
        size: Size { value: sub.size.value, exact: false },
    }
}

pub fn has_a_costs(sub: Costs) -> (r: Costs)
    ensures
        r == has_a_costs_spec(sub),
{
    Costs {
        next_cost: sat_add(1, sub.next_cost),
        contains_cost: sat_mul(60, sub.contains_cost),
        size: Size { value: sat_mul(1, sub.size.value), exact: false },
    }
}

/// Following values to the quads that have them in a direction.
pub open spec fn links_to_costs_spec(sub: Costs, size: Size) -> Costs {
    Costs {
        next_cost: clamp_i64(2 + sub.next_cost),
        contains_cost: clamp_i64(1 + sub.contains_cost),
        size,
    }
}

pub fn links_to_costs(sub: Costs, size: Size) -> (r: Costs)
    ensures
        r == links_to_costs_spec(sub, size),
{
    Costs { next_cost: sat_add(2, sub.next_cost), contains_cost: sat_add(1, sub.contains_cost), size }
}

} // verus!
