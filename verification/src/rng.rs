//! Injected randomness: production draws from the OS-seeded standard generator,
//! tests inject a fixed sequence so that games replay exactly.

use rand::rngs::StdRng;
use vstd::prelude::*;

verus! {

/// A source of random numbers.
pub trait RngSource {
    /// The draws made so far, in order: the bound asked for and the value
    /// handed out. A source that keeps no record of its draws cannot meet the
    /// contract of `next_below` below, so a verified source overrides this.
    open spec fn draws(&self) -> Seq<(u32, u32)> {
        Seq::empty()
    }

    /// An integer in `[0, bound)`; the draw is recorded.
    fn next_below(&mut self, bound: u32) -> (r: u32)
        requires
            bound > 0,
        ensures
            r < bound,
            final(self).draws() == old(self).draws().push((bound, r)),
    ;
}

/// The draws made after the first `before.len()` of `after`.
pub open spec fn drawn_since(before: Seq<(u32, u32)>, after: Seq<(u32, u32)>) -> Seq<(u32, u32)> {
    after.skip(before.len() as int)
}

/// `after` keeps the draws of `before` and adds to them.
pub open spec fn extends(before: Seq<(u32, u32)>, after: Seq<(u32, u32)>) -> bool {
    &&& before.len() <= after.len()
    &&& after.take(before.len() as int) == before
}

#[verifier::external_type_specification]
#[verifier::external_body]
pub struct ExStdRng(StdRng);

/// The default source, backed by `rand`'s `StdRng`.
pub struct StdRngSource {
    rng: StdRng,
    history: Ghost<Seq<(u32, u32)>>,
}

/// Calls `<StdRng as SeedableRng>::from_rng` on `rand::rngs::OsRng` (rand 0.8):
/// a generator seeded from the operating system, `None` when the operating
/// system gives no randomness (the call's error). Nothing is stated of the seed.
#[verifier::external_body]
fn std_rng_from_os() -> Option<StdRng> {
    <StdRng as rand::SeedableRng>::from_rng(rand::rngs::OsRng).ok()
}

/// Calls `<StdRng as SeedableRng>::seed_from_u64` (rand 0.8): a generator
/// seeded from `seed`; it never fails. The generator is opaque, so nothing is
/// stated of it.
#[verifier::external_body]
fn std_rng_from_seed(seed: u64) -> StdRng {
    <StdRng as rand::SeedableRng>::seed_from_u64(seed)
}

/// Calls `Rng::gen_range(0..bound)` on `rng` (rand 0.8): a number in `[0, bound)`.
/// The range must not be empty, hence `bound > 0`; which number comes is not stated.
#[verifier::external_body]
fn std_rng_below(rng: &mut StdRng, bound: u32) -> (r: u32)
    requires
        bound > 0,
    ensures
        r < bound,
{
    rand::Rng::gen_range(rng, 0..bound)
}

/// Calls `RngCore::try_fill_bytes` on `rand::rngs::OsRng` (rand 0.8) for 16
/// bytes: `None` when the operating system gives no randomness (the call's
/// error). Which bytes come is not stated.
#[verifier::external_body]
pub(crate) fn os_random_bytes() -> Option<[u8; 16]> {
    let mut bytes = [0u8; 16];
    match rand::RngCore::try_fill_bytes(&mut rand::rngs::OsRng, &mut bytes) {
        Ok(()) => Some(bytes),
        Err(_) => None,
    }
}

/// What `uuid::Builder::from_random_bytes(bytes).into_uuid().as_u128()` gives
/// (uuid 1): the bytes as a version-4 UUID, version and variant bits set.
pub uninterp spec fn uuid_v4_of(bytes: Seq<u8>) -> u128;

/// Calls `uuid::Builder::from_random_bytes`, then `into_uuid` and `as_u128`:
/// a function of the bytes alone (see [`uuid_v4_of`]).
#[verifier::external_body]
pub(crate) fn uuid_from_random_bytes(bytes: [u8; 16]) -> (r: u128)
    ensures
        r == uuid_v4_of(bytes@),
{
    uuid::Builder::from_random_bytes(bytes).into_uuid().as_u128()
}

impl StdRngSource {
    /// A generator seeded by the operating system; `None` when the operating
    /// system gives no randomness.
    pub fn from_os_rng() -> (r: Option<Self>)
        ensures
            r matches Some(g) ==> g.draws() == Seq::<(u32, u32)>::empty(),
    {
        match std_rng_from_os() {
            Some(rng) => Some(StdRngSource { rng, history: Ghost(Seq::empty()) }),
            None => None,
        }
    }

    /// A generator seeded from `seed`, with no draws yet.
    pub fn from_seed(seed: u64) -> (r: Self)
        ensures
            r.draws() == Seq::<(u32, u32)>::empty(),
    {
        StdRngSource { rng: std_rng_from_seed(seed), history: Ghost(Seq::empty()) }
    }
}

impl RngSource for StdRngSource {
    closed spec fn draws(&self) -> Seq<(u32, u32)> {
        self.history@
    }

    fn next_below(&mut self, bound: u32) -> (r: u32) {
        let r = std_rng_below(&mut self.rng, bound);
        self.history = Ghost(self.history@.push((bound, r)));
        r
    }
}

} // verus!
