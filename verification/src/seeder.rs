//! Where the seed of a game comes from.
use std::time::{Duration, SystemTime, SystemTimeError, UNIX_EPOCH};
use vstd::prelude::*;

use crate::generator::Generator;

verus! {

/// `std::time::SystemTime`: a reading of the clock, carried from one call to
/// the next and never looked into.
#[verifier::external_type_specification]
#[verifier::external_body]
pub struct ExSystemTime(SystemTime);

/// `std::time::SystemTimeError`: what `duration_since` gives for a clock set
/// before the epoch; never looked into.
#[verifier::external_type_specification]
#[verifier::external_body]
pub struct ExSystemTimeError(SystemTimeError);

/// Calls `SystemTime::now`. Trusted, and nothing is claimed of the result.
#[verifier::external_body]
fn clock_now() -> SystemTime {
    SystemTime::now()
}

/// Calls `SystemTime::duration_since` with `UNIX_EPOCH`. Trusted, and nothing
/// is claimed of the result.
#[verifier::external_body]
fn since_epoch(now: &SystemTime) -> Result<Duration, SystemTimeError> {
    now.duration_since(UNIX_EPOCH)
}

/// Calls `Duration::as_secs`. Trusted, and nothing is claimed of the result.
#[verifier::external_body]
fn whole_seconds(elapsed: &Duration) -> u64 {
    elapsed.as_secs()
}

/// A source of seeds.
pub trait Seeder {
    /// The seed that this source gives on every call, if it is fixed.
    open spec fn fixed(&self) -> Option<u64> {
        None
    }

    fn get_seed(&self) -> (seed: u64)
        ensures
            self.fixed() matches Some(fixed) ==> seed == fixed,
    ;

    /// A generator at the start of the stream of the seed.
    fn get_rng(&self) -> (rng: Generator)
        ensures
            rng.position == 0,
            self.fixed() matches Some(fixed) ==> rng.seed == fixed,
    {
        Generator::from_seed(self.get_seed())
    }
}

/// Seeds with the whole seconds since the Unix epoch.
#[derive(Default)]
pub struct SecondsSeeder;

impl Seeder for SecondsSeeder {
    /// The whole seconds since the Unix epoch; zero for a clock set before
    /// it. The seed is whatever the clock says, so nothing holds of it
    /// beforehand; `seed_of` says how it follows from the reading.
    fn get_seed(&self) -> (seed: u64) {
        let now = clock_now();
        let elapsed = match since_epoch(&now) {
            Ok(elapsed) => Some(whole_seconds(&elapsed)),
            Err(_) => None,
        };
        Self::seed_of(elapsed)
    }
}

impl SecondsSeeder {
    pub const SECONDS_SEEDER: SecondsSeeder = SecondsSeeder;

    /// The seed for a clock that stands `elapsed` whole seconds after the
    /// Unix epoch, or before the epoch where `elapsed` is `None`: the
    /// seconds, or zero.
    pub fn seed_of(elapsed: Option<u64>) -> (seed: u64)
        ensures
            seed == match elapsed {
                Some(seconds) => seconds,
                None => 0,
            },
    {
        match elapsed {
            Some(seconds) => seconds,
            None => 0,
        }
    }
}

/// Always gives the seed it holds.
#[derive(Default)]
pub struct MockSeeder(pub u64);

impl Seeder for MockSeeder {
    open spec fn fixed(&self) -> Option<u64> {
        Some(self.0)
    }

    fn get_seed(&self) -> (seed: u64) {
        self.0
    }
}

} // verus!
