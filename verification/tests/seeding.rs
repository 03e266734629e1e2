use rust_game_of_life::rules::{allows, decide};
use rust_game_of_life::seeding::{InvalidLifeChance, LifeChance, CERTAIN};
use rust_game_of_life::universe::Universe;
use rust_game_of_life::utils::{Position, SizeInt};
use rust_game_of_life::{GenerationConfig, SimulationConfig};

#[test]
fn life_chance_takes_parts_up_to_certainty() {
    assert_eq!(CERTAIN, 4294967296);
    assert_eq!(LifeChance::new(0).unwrap().parts(), 0);
    assert_eq!(LifeChance::new(12345).unwrap().parts(), 12345);
    assert_eq!(LifeChance::new(CERTAIN).unwrap().parts(), CERTAIN);
    assert_eq!(LifeChance::never().parts(), 0);
    assert_eq!(LifeChance::always().parts(), CERTAIN);
    assert_eq!(LifeChance::default().parts(), 1717986918);
}

#[test]
fn life_chance_above_certainty_is_rejected() {
    assert_eq!(LifeChance::new(CERTAIN + 1).unwrap_err(), InvalidLifeChance { parts: CERTAIN + 1 });
    assert_eq!(LifeChance::new(u64::MAX).unwrap_err(), InvalidLifeChance { parts: u64::MAX });
}

#[test]
fn life_chance_admits_the_draws_below_it() {
    let half = LifeChance::new(CERTAIN / 2).unwrap();
    assert!(half.admits(0));
    assert!(half.admits(2147483647));
    assert!(!half.admits(2147483648));
    assert!(!half.admits(u32::MAX));
    assert!(!LifeChance::never().admits(0));
    assert!(!LifeChance::never().admits(u32::MAX));
    assert!(LifeChance::always().admits(0));
    assert!(LifeChance::always().admits(u32::MAX));
}

#[test]
fn seed_brings_a_cell_to_life_on_a_low_draw() {
    let chance = LifeChance::new(1000).unwrap();
    let mut u = Universe::default();
    u.seed(Position::new(1, 1), 999, chance);
    u.seed(Position::new(2, 2), 1000, chance);
    u.seed(Position::new(3, 3), 0, chance);
    u.seed(Position::new(4, 4), u32::MAX, chance);
    assert!(u.is_alive(Position::new(1, 1)));
    assert!(!u.is_alive(Position::new(2, 2)));
    assert!(u.is_alive(Position::new(3, 3)));
    assert!(!u.is_alive(Position::new(4, 4)));
    u.seed(Position::new(1, 1), u32::MAX, chance);
    assert!(u.is_alive(Position::new(1, 1)));
    assert_eq!(u.live_cells().len(), 2);
}

#[test]
fn generate_with_no_chance_is_empty() {
    let u = Universe::generate(SizeInt::new(32, 32), LifeChance::never());
    assert!(u.live_cells().is_empty());
}

#[test]
fn generate_with_certainty_fills_the_rectangle() {
    let u = Universe::generate(SizeInt::new(4, 6), LifeChance::always());
    assert_eq!(u.live_cells().len(), 24);
    for x in -2..2 {
        for y in -3..3 {
            assert!(u.is_alive(Position::new(x, y)));
        }
    }
    assert!(!u.is_alive(Position::new(2, 0)));
    assert!(!u.is_alive(Position::new(-3, 0)));
    assert!(!u.is_alive(Position::new(0, 3)));
    assert!(!u.is_alive(Position::new(0, -4)));
}

#[test]
fn generate_has_the_origin_in_the_middle_of_an_odd_side() {
    let u = Universe::generate(SizeInt::new(5, 1), LifeChance::always());
    assert_eq!(u.live_cells().len(), 5);
    for x in -2..3 {
        assert!(u.is_alive(Position::new(x, 0)));
    }
    assert!(!u.is_alive(Position::new(3, 0)));
    assert!(!u.is_alive(Position::new(-3, 0)));
    assert!(!u.is_alive(Position::new(0, 1)));
    assert!(!u.is_alive(Position::new(0, -1)));
    let u = Universe::generate(SizeInt::new(5, 3), LifeChance::always());
    assert_eq!(u.live_cells().len(), 15);
    assert!(u.is_alive(Position::new(-2, -1)));
    assert!(u.is_alive(Position::new(2, 1)));
    assert!(u.is_alive(Position::new(1, 0)));
    assert!(!u.is_alive(Position::new(3, 0)));
    assert!(!u.is_alive(Position::new(0, 2)));
    let u = Universe::generate(SizeInt::new(3, 3), LifeChance::always());
    assert_eq!(u.live_cells().len(), 9);
    assert!(u.is_alive(Position::new(1, 1)));
    assert!(u.is_alive(Position::new(-1, -1)));
    let u = Universe::generate(SizeInt::new(1, 1), LifeChance::always());
    assert_eq!(u.live_cells().len(), 1);
    assert!(u.is_alive(Position::new(0, 0)));
}

#[test]
fn generate_fills_as_many_cells_as_the_size_has() {
    for w in 0..7 {
        for h in 0..7 {
            let u = Universe::generate(SizeInt::new(w, h), LifeChance::always());
            assert_eq!(u.live_cells().len(), (w * h) as usize);
        }
    }
}

#[test]
fn generate_of_no_size_is_empty() {
    for size in [SizeInt::new(0, 0), SizeInt::new(-4, 6), SizeInt::new(6, -4), SizeInt::new(0, 8)] {
        let u = Universe::generate(size, LifeChance::always());
        assert!(u.live_cells().is_empty());
    }
}

#[test]
fn generate_keeps_to_the_rectangle() {
    for _ in 0..20 {
        let u = Universe::generate(SizeInt::new(8, 6), LifeChance::default());
        let live = u.live_cells();
        assert!(live.len() <= 48);
        for p in live {
            assert!(-4 <= p.x && p.x < 4);
            assert!(-3 <= p.y && p.y < 3);
        }
    }
}

#[test]
fn generate_draws_anew_for_every_cell() {
    let half = LifeChance::new(CERTAIN / 2).unwrap();
    let u = Universe::generate(SizeInt::new(64, 64), half);
    let n = u.live_cells().len();
    assert!(n > 0);
    assert!(n < 4096);
}

#[test]
fn allows_looks_the_count_up() {
    assert!(allows(&vec![2, 3], 2));
    assert!(allows(&vec![2, 3], 3));
    assert!(!allows(&vec![2, 3], 4));
    assert!(!allows(&vec![2, 3], 0));
    assert!(!allows(&vec![], 0));
    assert!(allows(&vec![8, 8, 0], 0));
}

#[test]
fn decide_applies_the_rule_of_the_state() {
    let allowed = vec![2, 3];
    let birth = vec![3];
    assert!(!decide(true, 1, &allowed, &birth));
    assert!(decide(true, 2, &allowed, &birth));
    assert!(decide(true, 3, &allowed, &birth));
    assert!(!decide(true, 4, &allowed, &birth));
    assert!(!decide(false, 2, &allowed, &birth));
    assert!(decide(false, 3, &allowed, &birth));
    assert!(!decide(false, 4, &allowed, &birth));
}

#[test]
fn default_settings_are_those_of_conway() {
    let config = SimulationConfig::default();
    assert_eq!(config.bound_padding, 5);
    assert_eq!(config.tick_speed_millis, 500);
    assert!(!config.paused);
    assert_eq!(config.allowed_neighbors, vec![2, 3]);
    assert_eq!(config.allowed_neighbors_for_birth, vec![3]);
    assert_eq!(config.generation.initial_size, SizeInt::new(32, 32));
    assert_eq!(config.generation.life_chance.parts(), 1717986918);
    let generation = GenerationConfig::default();
    assert_eq!(generation.initial_size, SizeInt::new(32, 32));
    assert_eq!(generation.life_chance.parts(), CERTAIN * 4 / 10);
}
