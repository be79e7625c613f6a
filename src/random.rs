//! Seeded pseudo-random integer draws.
use rand::rngs::StdRng;
use rand::{Rng, SeedableRng};
use vstd::prelude::*;

verus! {

#[verifier::external_type_specification]
#[verifier::external_body]
pub struct ExStdRng(StdRng);

/// The state of a standard generator: what decides its next draws.
pub uninterp spec fn rng_state(r: StdRng) -> int;

/// The state of a standard generator freshly seeded with `seed`.
pub uninterp spec fn seeded_state(seed: u64) -> int;

/// The value that a draw from `low..high` yields in state `state`.
pub uninterp spec fn range_draw(state: int, low: i32, high: i32) -> i32;

/// The state that a draw from `low..high` leaves behind, from state `state`.
pub uninterp spec fn range_next(state: int, low: i32, high: i32) -> int;

/// Relies on rand's `StdRng::seed_from_u64`: the generator it returns is
/// determined by the seed.
#[verifier::external_body]
fn seeded_rng(seed: u64) -> (r: StdRng)
    ensures
        rng_state(r) == seeded_state(seed),
{
    StdRng::seed_from_u64(seed)
}

/// Relies on rand's `Rng::gen_range` over `low..high`: it returns a value of
/// that range, and the value and the generator's next state are determined by
/// its state and the range. It panics on an empty range.
#[verifier::external_body]
fn draw_in_range(rng: &mut StdRng, low: i32, high: i32) -> (v: i32)
    requires
        low < high,
    ensures
        low <= v < high,
        v == range_draw(rng_state(*old(rng)), low, high),
        rng_state(*final(rng)) == range_next(rng_state(*old(rng)), low, high),
{
    rng.gen_range(low..high)
}

/// The first `amount` draws from `low..high` of a generator in state `state`.
pub open spec fn draws(state: int, amount: nat, low: i32, high: i32) -> Seq<i32>
    decreases amount,
{
    if amount == 0 {
        Seq::empty()
    } else {
        seq![range_draw(state, low, high)] + draws(
            range_next(state, low, high),
            (amount - 1) as nat,
            low,
            high,
        )
    }
}

/// The values that `generate_random_values(seed, amount, low, high)` returns.
pub open spec fn random_values(seed: u64, amount: nat, low: int, high: int) -> Seq<i32> {
    draws(seeded_state(seed), amount, low as i32, high as i32)
}

/// Draws `amount` integers from `low..high` with a generator seeded by `seed`.
pub fn generate_random_values(seed: u64, amount: usize, low: usize, high: usize) -> (r: Vec<i32>)
    requires
        low < high <= i32::MAX,
    ensures
        r@ == random_values(seed, amount as nat, low as int, high as int),
        r@.len() == amount,
        forall|k: int| 0 <= k < amount ==> low <= #[trigger] r@[k] < high,
{
    let mut values: Vec<i32> = Vec::new();
    let mut rng = seeded_rng(seed);
    let lo = low as i32;
    let hi = high as i32;
    let mut n: usize = 0;
    while n < amount
        invariant
            n <= amount,
            low < high <= i32::MAX,
            lo == low,
            hi == high,
            values@.len() == n,
            forall|k: int| 0 <= k < n ==> low <= #[trigger] values@[k] < high,
            values@ + draws(rng_state(rng), (amount - n) as nat, lo, hi) == draws(
                seeded_state(seed),
                amount as nat,
                lo,
                hi,
            ),
        decreases amount - n,
    {
        let ghost before = rng_state(rng);
        let value = draw_in_range(&mut rng, lo, hi);
        assert(draws(before, (amount - n) as nat, lo, hi) == seq![value] + draws(
            rng_state(rng),
            (amount - n - 1) as nat,
            lo,
            hi,
        ));
        assert(values@.push(value) + draws(rng_state(rng), (amount - n - 1) as nat, lo, hi)
            == values@ + draws(before, (amount - n) as nat, lo, hi));
        values.push(value);
        n = n + 1;
    }
    assert(draws(rng_state(rng), 0, lo, hi) == Seq::<i32>::empty());
    assert(values@ + Seq::<i32>::empty() == values@);
    values
}

} // verus!
