use vstd::prelude::*;

verus! {

/// Relies on rand::random::<u64>, which draws a value from the thread-local
/// generator. Nothing is promised of the value drawn.
#[verifier::external_body]
fn random_u64() -> (r: u64) {
    rand::random::<u64>()
}

/// A vector of `length` ids, each drawn at random from `0..=9`.
pub fn get_random_ids_vector(length: u64) -> (r: Vec<u64>)
    requires
        length <= usize::MAX,
    ensures
        r@.len() == length,
        forall|i: int| 0 <= i < r@.len() ==> 0 <= #[trigger] r@[i] <= 9,
{
    let mut result: Vec<u64> = Vec::new();
    for n in 0..length
        invariant
            result@.len() == n,
            forall|i: int| 0 <= i < result@.len() ==> 0 <= #[trigger] result@[i] <= 9,
    {
        let drawn: u64 = random_u64();
        result.push(drawn % 10);
    }
    result
}

} // verus!
