//! Synthetic input: a fixed-length sequence of keys drawn from `[0, group_count)`.

use vstd::prelude::*;
use rand::Rng;
use crate::error::HarnessError;

verus! {

/// `rand::rngs::SmallRng`, the random source that the generator draws from.
/// Its state is opaque here.
#[verifier::external_type_specification]
#[verifier::external_body]
pub struct ExSmallRng(rand::rngs::SmallRng);

/// Bytes taken by one element of a dataset.
pub const ELEMENT_BYTES: usize = 4;

/// Whether every element of `keys` lies in `[0, group_count)`.
pub open spec fn keys_in_range(keys: Seq<i32>, group_count: int) -> bool {
    forall|i: int| 0 <= i < keys.len() ==> 0 <= #[trigger] keys[i] < group_count
}

/// The number of elements that fit in `total_size_bytes`.
pub open spec fn spec_element_count(total_size_bytes: int) -> int {
    total_size_bytes / 4
}

/// The number of 32-bit elements that a buffer of `total_size_bytes` bytes holds.
pub fn element_count(total_size_bytes: usize) -> (n: usize)
    ensures
        n == spec_element_count(total_size_bytes as int),
{
    total_size_bytes / ELEMENT_BYTES
}

/// Draws one key with `Rng::gen_range(0, group_count)` on a `SmallRng`.
///
/// The range sampler returns a value that is at least the lower bound and
/// below the upper bound, and panics when the range is empty, which the
/// precondition excludes. Nothing is claimed about which value comes out.
#[verifier::external_body]
fn draw_key(rng: &mut rand::rngs::SmallRng, group_count: i32) -> (key: i32)
    requires
        group_count >= 1,
    ensures
        0 <= key < group_count,
{
    rng.gen_range(0, group_count)
}

/// Generates a dataset of `total_size_bytes / 4` keys, each drawn from
/// `[0, group_count)` with the given random source.
///
/// Fails with `InvalidConfiguration` exactly when `group_count` is below one.
pub fn generate(total_size_bytes: usize, group_count: i32, rng: &mut rand::rngs::SmallRng) -> (result: Result<
    Vec<i32>,
    HarnessError,
>)
    ensures
        group_count < 1 <==> result == Err::<Vec<i32>, HarnessError>(
            HarnessError::InvalidConfiguration,
        ),
        group_count >= 1 <==> result is Ok,
        result is Ok ==> result->Ok_0@.len() == spec_element_count(total_size_bytes as int)
            && keys_in_range(result->Ok_0@, group_count as int),
{
    if group_count < 1 {
        return Err(HarnessError::InvalidConfiguration);
    }
    let elements: usize = element_count(total_size_bytes);
    let mut keys: Vec<i32> = Vec::with_capacity(elements);
    let mut produced: usize = 0;
    while produced < elements
        invariant
            group_count >= 1,
            produced <= elements,
            keys@.len() == produced,
            keys_in_range(keys@, group_count as int),
        decreases elements - produced,
    {
        let key: i32 = draw_key(rng, group_count);
        keys.push(key);
        produced = produced + 1;
    }
    Ok(keys)
}

} // verus!
