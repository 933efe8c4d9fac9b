//! A layered Byzantine-tolerant broadcast toolkit: a basic message-passing
//! substrate, Bracha-style reliable broadcast, witness broadcast, aggregated
//! witness broadcast, and barycentric agreement, together with the wire
//! framing that carries their entities between participants.
use vstd::prelude::*;

pub mod aggregated_witness;
pub mod barycentric_agreement;
pub mod basic;
pub mod codec;
pub mod reliable;
pub mod witness;

verus! {

/// `x + 1`, stopping at the largest representable tally.
pub open spec fn spec_sat_inc(x: u32) -> u32 {
    if x == u32::MAX {
        x
    } else {
        (x + 1) as u32
    }
}

/// `x + k`, stopping at the largest representable tally.
pub open spec fn spec_sat_add(x: u32, k: nat) -> u32 {
    if x + k <= u32::MAX {
        (x + k) as u32
    } else {
        u32::MAX
    }
}

/// Adding one more after adding `k` is adding `k + 1`.
pub proof fn lemma_sat_add_step(x: u32, k: nat)
    ensures
        spec_sat_inc(spec_sat_add(x, k)) == spec_sat_add(x, k + 1),
{
}

/// Raise a tally by one, stopping at the largest representable value.
pub fn sat_inc(x: u32) -> (r: u32)
    ensures
        r == spec_sat_inc(x),
{
    if x == u32::MAX {
        x
    } else {
        x + 1
    }
}

/// `n` clamped to what a wide tally can hold.
pub open spec fn spec_sat64(n: nat) -> u64 {
    if n <= u64::MAX {
        n as u64
    } else {
        u64::MAX
    }
}

/// Clamping commutes with adding one.
pub proof fn lemma_sat64_step(n: nat)
    ensures
        spec_sat64(n + 1) == (if spec_sat64(n) == u64::MAX {
            u64::MAX
        } else {
            (spec_sat64(n) + 1) as u64
        }),
{
}

/// Raise a wide tally by one, stopping at the largest representable value.
pub fn sat_inc64(x: u64) -> (r: u64)
    ensures
        r == (if x == u64::MAX {
            u64::MAX
        } else {
            (x + 1) as u64
        }),
{
    if x == u64::MAX {
        x
    } else {
        x + 1
    }
}

/// Number of Byzantine participants tolerated among `n`: `(n - 1) / 3`.
pub open spec fn spec_faulty_threads(n: u32) -> u32
    recommends
        n >= 1,
{
    ((n - 1) / 3) as u32
}

/// Observations required to justify forwarding or delivery: `n - f + 1`.
pub open spec fn spec_validity_threshold(n: u32) -> u32
    recommends
        n >= 1,
{
    (n - spec_faulty_threads(n) + 1) as u32
}

/// Observations sufficient to amplify a signal: `f + 1`.
pub open spec fn spec_agreement_threshold(n: u32) -> u32
    recommends
        n >= 1,
{
    (spec_faulty_threads(n) + 1) as u32
}

/// Maximum number of Byzantine participants tolerated among `n` participants.
pub fn faulty_threads(n: u32) -> (f: u32)
    requires
        n >= 1,
    ensures
        f == spec_faulty_threads(n),
{
    (n - 1) / 3
}

/// Validity threshold for `n` participants.
pub fn validity_threshold(n: u32) -> (v: u32)
    requires
        n >= 1,
    ensures
        v == spec_validity_threshold(n),
{
    let f = faulty_threads(n);
    assert(f <= (n - 1) as u32) by (nonlinear_arith)
        requires
            n >= 1,
            f == ((n - 1) as u32 / 3),
    ;
    n - f + 1
}

/// Agreement threshold for `n` participants.
pub fn agreement_threshold(n: u32) -> (a: u32)
    requires
        n >= 1,
    ensures
        a == spec_agreement_threshold(n),
{
    let f = faulty_threads(n);
    assert(f <= (n - 1) as u32) by (nonlinear_arith)
        requires
            n >= 1,
            f == ((n - 1) as u32 / 3),
    ;
    f + 1
}

} // verus!
