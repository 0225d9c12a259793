use rand::distributions::Alphanumeric;
use rand::rngs::StdRng;
use rand::seq::SliceRandom;
use rand::Rng;
use rand::SeedableRng;
use vstd::prelude::*;

verus! {

/// The random source that every stochastic operation of this library draws
/// from. It is handed in by the caller, so a seeded generator gives a
/// reproducible run.
#[verifier::external_type_specification]
#[verifier::external_body]
pub struct ExStdRng(rand::rngs::StdRng);

/// The characters of the alphanumeric alphabet: `A-Z`, `a-z` and `0-9`.
pub open spec fn is_alnum(c: char) -> bool {
    ('A' <= c && c <= 'Z') || ('a' <= c && c <= 'z') || ('0' <= c && c <= '9')
}

/// Relies on `SeedableRng::from_entropy` for `StdRng`: a generator seeded
/// from the operating system.
#[verifier::external_body]
pub(crate) fn entropy_rng() -> (r: StdRng) {
    StdRng::from_entropy()
}

/// Relies on `Rng::gen_range(low, high)`: a value in `[low, high)`; it panics
/// when `low >= high`, which `requires` rules out.
#[verifier::external_body]
pub(crate) fn gen_index(rng: &mut StdRng, n: usize) -> (r: usize)
    requires
        n > 0,
    ensures
        r < n,
{
    rng.gen_range(0, n)
}

/// Relies on `Rng::sample` with the `Alphanumeric` distribution, which picks
/// from the 62 characters `A-Z`, `a-z`, `0-9`.
#[verifier::external_body]
pub(crate) fn gen_alnum(rng: &mut StdRng) -> (r: char)
    ensures
        is_alnum(r),
{
    rng.sample(Alphanumeric)
}

/// Relies on `SliceRandom::choose`: `None` on an empty slice, else one of
/// its elements.
#[verifier::external_body]
pub(crate) fn choose_char(rng: &mut StdRng, options: &Vec<char>) -> (r: Option<char>)
    ensures
        r is Some <==> options@.len() > 0,
        r is Some ==> options@.contains(r->0),
{
    options.as_slice().choose(rng).copied()
}

/// Relies on `SliceRandom::choose_weighted` with the second field as the
/// weight: it fails when the slice is empty or all weights are zero, and
/// otherwise returns an element whose weight is not zero (the first field
/// is handed back). The sum of the weights must not overflow.
#[verifier::external_body]
pub(crate) fn choose_weighted_first(rng: &mut StdRng, items: &Vec<(usize, u64)>) -> (r: Option<usize>)
    requires
        weight_total(items@) <= u64::MAX,
    ensures
        r is Some <==> weight_total(items@) > 0,
        r is Some ==> exists|k: int|
            0 <= k < items@.len() && items@[k].0 == r->0 && items@[k].1 > 0,
{
    items.as_slice().choose_weighted(rng, |item| item.1).ok().map(|item| item.0)
}

/// The sum of the second fields.
pub open spec fn weight_total(items: Seq<(usize, u64)>) -> nat
    decreases items.len(),
{
    if items.len() == 0 {
        0
    } else {
        weight_total(items.drop_last()) + items.last().1 as nat
    }
}

} // verus!
