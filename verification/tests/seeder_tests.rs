use snake_rust::generator::Generator;
use snake_rust::seeder::{MockSeeder, SecondsSeeder, Seeder};

#[test]
fn seeder_seconds_seeder_get_secs() {
    SecondsSeeder::SECONDS_SEEDER.get_seed();
}

#[test]
fn seeder_mock_seeder_get_secs() {
    assert_eq!(MockSeeder(0).get_seed(), 0);
}

#[test]
fn get_rng_some() {
    let actual = MockSeeder(0).get_rng();
    let expected = Generator::from_seed(0);
    assert_eq!(actual, expected);
}

#[test]
fn get_rng_none() {
    SecondsSeeder::SECONDS_SEEDER.get_rng();
}

#[test]
fn seed_of_takes_the_seconds_or_zero() {
    assert_eq!(SecondsSeeder::seed_of(Some(1_700_000_000)), 1_700_000_000);
    assert_eq!(SecondsSeeder::seed_of(Some(0)), 0);
    assert_eq!(SecondsSeeder::seed_of(Some(u64::MAX)), u64::MAX);
    assert_eq!(SecondsSeeder::seed_of(None), 0);
}

#[test]
fn seconds_seeder_reads_a_clock_after_the_epoch() {
    // the clock of any machine that runs this stands well after 2020
    assert!(SecondsSeeder::SECONDS_SEEDER.get_seed() > 1_577_836_800);
}
