//! The fading of a ray.
use crate::pixel;
use vstd::prelude::*;

verus! {

/// The opacity of a ray after `k` steps: each step keeps `factor` parts of 256, rounded down.
pub open spec fn decayed(seed: int, factor: int, k: nat) -> int
    decreases k,
{
    if k == 0 {
        seed
    } else {
        (decayed(seed, factor, (k - 1) as nat) * factor) / 256
    }
}

/// A decay never grows, and stays at 0 once there.
pub proof fn lemma_decay_step(seed: int, factor: int, k: nat)
    requires
        0 <= seed,
        0 < factor < 256,
    ensures
        0 <= decayed(seed, factor, k) <= seed,
        0 <= decayed(seed, factor, k + 1) <= decayed(seed, factor, k),
    decreases k,
{
    if k > 0 {
        lemma_decay_step(seed, factor, (k - 1) as nat);
    }
    pixel::lemma_scaled(decayed(seed, factor, k), factor, decayed(seed, factor, k));
}

/// After the ray has faded, every later step has faded too.
pub proof fn lemma_decay_zero(seed: int, factor: int, k: nat, j: nat)
    requires
        0 <= seed,
        0 < factor < 256,
        k <= j,
        decayed(seed, factor, k) == 0,
    ensures
        decayed(seed, factor, j) == 0,
    decreases j - k,
{
    if k < j {
        lemma_decay_zero(seed, factor, k, (j - 1) as nat);
        lemma_decay_step(seed, factor, (j - 1) as nat);
    }
}

/// The longest table of opacities.
pub const MAX_STEPS: usize = 1024;

/// The first step from `k` on at which a ray has faded or the table is full.
pub open spec fn reach_from(seed: int, factor: int, k: nat) -> nat
    decreases MAX_STEPS - k,
{
    if k >= MAX_STEPS || decayed(seed, factor, k) == 0 {
        k
    } else {
        reach_from(seed, factor, k + 1)
    }
}

/// How many cells a ray paints: the first one, and then as long as it has not faded.
pub open spec fn reach(seed: int, factor: int) -> nat {
    reach_from(seed, factor, 1)
}

/// Every step before the end of a ray has an opacity above 0.
pub proof fn lemma_reach(seed: int, factor: int, k: nat)
    requires
        k <= MAX_STEPS,
    ensures
        k <= reach_from(seed, factor, k) <= MAX_STEPS,
        forall|j: nat|
            k <= j < reach_from(seed, factor, k) ==> #[trigger] decayed(seed, factor, j) != 0,
        reach_from(seed, factor, k) < MAX_STEPS ==> decayed(
            seed,
            factor,
            reach_from(seed, factor, k),
        ) == 0,
    decreases MAX_STEPS - k,
{
    if k < MAX_STEPS && decayed(seed, factor, k) != 0 {
        lemma_reach(seed, factor, k + 1);
    }
}

/// The opacities of a ray, step by step, until it fades.
pub(crate) fn compute_alphas(seed: u32, factor_256: u32) -> (alphas: Vec<u32>)
    requires
        seed * factor_256 <= u32::MAX,
        0 < factor_256 < 256,
    ensures
        alphas@.len() == reach(seed as int, factor_256 as int),
        1 <= alphas@.len() <= MAX_STEPS,
        forall|k: int|
            0 <= k < alphas@.len() ==> #[trigger] alphas@[k] == decayed(
                seed as int,
                factor_256 as int,
                k as nat,
            ),
{
    let mut alphas: Vec<u32> = Vec::new();
    alphas.push(seed);
    let mut a: u32 = seed;
    proof {
        lemma_reach(seed as int, factor_256 as int, 1);
    }
    while alphas.len() < MAX_STEPS
        invariant_except_break
            reach_from(seed as int, factor_256 as int, alphas@.len()) == reach(
                seed as int,
                factor_256 as int,
            ),
        invariant
            seed * factor_256 <= u32::MAX,
            0 < factor_256 < 256,
            1 <= alphas@.len() <= MAX_STEPS,
            a == decayed(seed as int, factor_256 as int, (alphas@.len() - 1) as nat),
            forall|k: int|
                0 <= k < alphas@.len() ==> #[trigger] alphas@[k] == decayed(
                    seed as int,
                    factor_256 as int,
                    k as nat,
                ),
        ensures
            alphas@.len() == reach(seed as int, factor_256 as int),
        decreases MAX_STEPS - alphas@.len(),
    {
        proof {
            lemma_decay_step(seed as int, factor_256 as int, (alphas@.len() - 1) as nat);
            assert(a * factor_256 <= seed * factor_256) by (nonlinear_arith)
                requires
                    a <= seed,
                    0 < factor_256,
            ;
        }
        let next: u32 = pixel::scale(a, factor_256);
        if next == 0 {
            break;
        }
        a = next;
        alphas.push(a);
    }
    alphas
}

/// How many pixels a ray reaches, 0 for a ray that draws nothing.
pub fn ray_reach_px(seed: u32, factor_256: u32) -> (n: usize)
    requires
        0 < factor_256 < 256 ==> seed * factor_256 <= u32::MAX,
    ensures
        n == (if seed == 0 || factor_256 == 0 || factor_256 >= 256 {
            0
        } else {
            reach(seed as int, factor_256 as int)
        }),
        n <= MAX_STEPS,
{
    if seed == 0 || factor_256 == 0 || factor_256 >= 256 {
        return 0;
    }
    compute_alphas(seed, factor_256).len()
}

/// The reach of a ray is where it fades: every step before it has an opacity, and the next one has
/// none, unless the table is full.
pub proof fn law_ray_fills_its_reach(seed: int, factor: int)
    requires
        0 < seed,
        0 < factor < 256,
    ensures
        1 <= reach(seed, factor) <= MAX_STEPS,
        forall|k: nat| k < reach(seed, factor) ==> #[trigger] decayed(seed, factor, k) > 0,
        reach(seed, factor) < MAX_STEPS ==> decayed(seed, factor, reach(seed, factor)) == 0,
{
    lemma_reach(seed, factor, 1);
    assert forall|k: nat| k < reach(seed, factor) implies #[trigger] decayed(seed, factor, k)
        > 0 by {
        lemma_decay_step(seed, factor, k);
    }
}

/// A ray starts at its seed and keeps the factor's parts in 256 with each step, the rest dropped: it
/// never grows stronger.
pub proof fn law_ray_fades_by_its_factor(seed: int, factor: int, k: nat)
    requires
        0 <= seed,
        0 < factor < 256,
    ensures
        decayed(seed, factor, 0) == seed,
        256 * decayed(seed, factor, k + 1) <= decayed(seed, factor, k) * factor,
        decayed(seed, factor, k) * factor < 256 * decayed(seed, factor, k + 1) + 256,
        0 <= decayed(seed, factor, k + 1) <= decayed(seed, factor, k),
{
    lemma_decay_step(seed, factor, k);
}

} // verus!
