use snake_rust::controller::mock_controller::MockController;
use snake_rust::controller::random_controller::RandomController;
use snake_rust::controller::Controller;
use snake_rust::data_transfer_objects as dto;
use snake_rust::direction::Direction;
use snake_rust::generator::Generator;
use snake_rust::seeder::MockSeeder;
use snake_rust::view::{MockView, View};
use std::collections::VecDeque;

#[test]
fn controller_get_direction() {
    let direction = Direction::Up;
    let mut controller = MockController(direction);
    assert_eq!(controller.get_direction(), direction);

    let mut seeder = MockSeeder(0);
    let mut controller = RandomController::new(&mut seeder);
    assert_eq!(controller.get_direction(), Direction::Left);
}

#[test]
fn new() {
    let mut seeder = MockSeeder(0);
    let controller = RandomController::new(&mut seeder);
    assert_eq!(controller.direction, Direction::Left);
}

#[test]
fn default() {
    // Asserting that is doesn't panic
    snake_rust::controller::RandomController::default();
}

#[test]
fn mock_controller_repeats_its_direction() {
    let mut controller = MockController(Direction::Down);
    assert_eq!(controller.get_direction(), Direction::Down);
    assert_eq!(controller.get_direction(), Direction::Down);
    assert_eq!(controller.0, Direction::Down);
}

#[test]
fn random_controller_never_asks_for_a_change_within_its_plane() {
    for seed in 0..50 {
        let mut controller = RandomController::seeded(seed);
        let start = controller.direction;
        let mut sampler = controller.rng;
        for _ in 0..20 {
            let sampled = Direction::sample(&mut sampler);
            let expected = if sampled.get_plane() == start.get_plane() {
                start
            } else {
                sampled
            };
            assert_eq!(controller.get_direction(), expected);
            assert_eq!(controller.direction, start);
            assert_eq!(controller.rng, sampler);
        }
    }
}

#[test]
fn seeded_controller_takes_its_first_direction_from_the_first_draw() {
    let controller = RandomController::seeded(0);
    let mut rng = Generator::from_seed(0);
    assert_eq!(controller.direction, Direction::sample(&mut rng));
    assert_eq!(controller.rng, rng);
}

#[test]
fn swap_cell() {
    let mut view = MockView::default();
    let position = (0, 1);
    let old = dto::Cell::Foods;
    let new = dto::Cell::Empty;
    view.swap_cell(&position, old, new);
    assert_eq!(view.0, [(position, old, new)]);
}

#[test]
fn mock_view_records_in_order() {
    let mut view = MockView::default();
    view.swap_cell(&(0, 0), dto::Cell::Empty, dto::Cell::Foods);
    view.swap_cell(&(1, 2), dto::Cell::Foods, dto::Cell::Empty);
    assert_eq!(
        view.0,
        [
            ((0, 0), dto::Cell::Empty, dto::Cell::Foods),
            ((1, 2), dto::Cell::Foods, dto::Cell::Empty)
        ]
    );
}

#[test]
fn mock_controller_get_direction() {
    let directions = VecDeque::from([Direction::Up, Direction::Down]);
    let mut controller = snake_rust::controller::MockController::new(directions);
    assert_eq!(controller.get_direction(), Direction::Up);
    assert_eq!(controller.directions, VecDeque::from([Direction::Down]));
}

#[test]
fn empty_mock_controller_holds_no_directions() {
    let controller = snake_rust::controller::MockController::empty();
    assert_eq!(controller.directions, VecDeque::new());
}

#[test]
fn random_controller_get_direction() {
    let mut controller = snake_rust::controller::RandomController::new(42);
    let direction = controller.get_direction();
    assert!(matches!(direction, Direction::Down));
}

#[test]
fn random_controller_maps_its_draws_to_directions() {
    let mut controller = snake_rust::controller::RandomController::new(9);
    let mut rng = Generator::from_seed(9);
    for _ in 0..100 {
        let expected = [
            Direction::Up,
            Direction::Left,
            Direction::Right,
            Direction::Down,
        ][rng.gen_small(4) as usize];
        assert_eq!(controller.get_direction(), expected);
        assert_eq!(controller.rng, rng);
    }
}

#[test]
fn a_scripted_game_follows_its_directions() {
    let script = VecDeque::from([Direction::Up, Direction::Left, Direction::Down]);
    let mut controller = snake_rust::controller::MockController::new(script);
    let mut view = MockView::default();
    let mut game = snake_rust::Options::<3, 3>::with_seed(0, 0)
        .build(&mut controller, &mut view)
        .unwrap();
    let mut heads = Vec::new();
    for _ in 0..3 {
        assert_eq!(game.iterate_turn(), dto::Status::Ongoing);
        let head = game.get_last_head();
        heads.push((head.0, head.1));
    }
    assert_eq!(heads, vec![(0, 1), (0, 0), (1, 0)]);
    assert_eq!(controller.directions, VecDeque::new());
}
