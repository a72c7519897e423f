//! Random choices, drawn from a small generator that is made from a seed. What
//! it draws for a seed differs between platforms, so nothing but the range of
//! what is drawn is claimed.
use rand::rngs::SmallRng;
use rand::{Rng, SeedableRng};
use vstd::prelude::*;

verus! {

/// `rand::rngs::SmallRng`, opaque here.
#[verifier::external_type_specification]
#[verifier::external_body]
pub struct ExSmallRng(SmallRng);

/// Calls `SmallRng::seed_from_u64`. Nothing is claimed of the generator.
#[verifier::external_body]
pub(crate) fn seeded(seed: u64) -> SmallRng {
    SmallRng::seed_from_u64(seed)
}

/// Calls `Rng::random_range` on the range from `a` to `z`, both included, and
/// draws a byte of that range.
#[verifier::external_body]
pub(crate) fn random_letter(rng: &mut SmallRng) -> (r: u8)
    ensures
        97 <= r <= 122,
{
    rng.random_range(b'a'..=b'z')
}

/// Calls `rand::seq::index::sample`, which draws `amount` distinct numbers
/// below `length`, in random order. It panics where there are not that many; and
/// beyond 32 bits it may not draw all there are.
#[verifier::external_body]
pub(crate) fn sample_indices(rng: &mut SmallRng, length: usize, amount: usize) -> (r: Vec<usize>)
    requires
        amount <= length,
        amount < length || length <= u32::MAX,
    ensures
        r@.len() == amount,
        r@.no_duplicates(),
        forall|i: int| 0 <= i < r@.len() ==> #[trigger] r@[i] < length,
{
    rand::seq::index::sample(rng, length, amount).into_vec()
}

} // verus!
