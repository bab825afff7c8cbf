use snake_rust::board::Board;
use snake_rust::controller::mock_controller::MockController;
use snake_rust::controller::random_controller::RandomController;
use snake_rust::data_transfer_objects as dto;
use snake_rust::game_state::GameState;
use snake_rust::generator::Generator;
use snake_rust::options::Options;
use snake_rust::state::State;
use snake_rust::value_objects::{Cell, Direction, Path, Position};
use snake_rust::view::MockView;
use std::collections::VecDeque;

const DIRECTIONS: [Direction; 4] = [
    Direction::Right,
    Direction::Up,
    Direction::Left,
    Direction::Down,
];

fn assert_invariant<const R: usize, const C: usize>(state: &State<R, C>) {
    for (i, position) in state.empty.iter().enumerate() {
        assert_eq!(state.board.at(position), Cell::Empty(i));
    }
    for (i, position) in state.foods.iter().enumerate() {
        assert_eq!(state.board.at(position), Cell::Foods(i));
    }
    for position in state.snake.iter() {
        assert!(matches!(state.board.at(position), Cell::Snake(_)));
    }
    assert_eq!(
        state.empty.len() + state.foods.len() + state.snake.len(),
        R * C
    );
    // the body can be read off the cells alone
    assert_eq!(state.board.get_snake(), state.snake);
    assert_eq!(state.board.find_snake_head(), state.snake.front().copied());
    let tail = state.snake.back().unwrap();
    assert!(matches!(
        state.board.at(tail),
        Cell::Snake(Path { entry: None, .. })
    ));
    assert!(state.is_valid());
}

#[test]
fn every_turn_keeps_the_invariant() {
    for seed in 0..20u64 {
        let mut controller = MockController(Direction::Right);
        let mut view = MockView::default();
        let mut game = Options::<4, 5>::with_seed(3, seed)
            .build(&mut controller, &mut view)
            .unwrap();
        assert_invariant(&game.state);
        let mut steering = Generator::from_seed(seed + 1000);
        let mut heading = Direction::Right;
        for _ in 0..300 {
            let wish = DIRECTIONS[steering.gen_range(4)];
            if wish.get_plane() != heading.get_plane() {
                heading = wish;
            }
            let status = game.advance(heading);
            assert_invariant(&game.state);
            if status != dto::Status::Ongoing {
                break;
            }
        }
    }
}

#[test]
fn the_observer_hears_of_every_changed_cell() {
    for seed in 0..10u64 {
        let mut controller = RandomController::seeded(seed);
        let mut view = MockView::default();
        let mut game = Options::<3, 4>::with_seed(2, seed)
            .build(&mut controller, &mut view)
            .unwrap();
        // a mirror of the board, kept up to date by the reports alone
        let mut mirror = [[dto::Cell::Empty; 4]; 3];
        mirror[1][2] = dto::Cell::Snake(Path {
            entry: None,
            exit: None,
        });
        let mut heard = 0;
        for _ in 0..60 {
            for swap in &game.view.0[heard..] {
                let ((i, j), before, after) = *swap;
                assert_eq!(mirror[i][j], before);
                mirror[i][j] = after;
            }
            heard = game.view.0.len();
            for i in 0..3 {
                for j in 0..4 {
                    assert_eq!(game.state.board.at(&Position(i, j)).as_dto(), mirror[i][j]);
                }
            }
            if game.iterate_turn() != dto::Status::Ongoing {
                break;
            }
        }
    }
}

#[test]
fn growth_and_non_growth() {
    let mut controller = MockController(Direction::Up);
    let mut view = MockView::default();
    let mut game = Options::<3, 3>::with_seed(1, 0)
        .build(&mut controller, &mut view)
        .unwrap();
    // the food lies at (0, 0); the snake starts at (1, 1)
    assert_eq!(game.state.foods, vec![Position(0, 0)]);
    assert_eq!(game.state.empty.len(), 7);

    // onto a plain empty cell: the body keeps its length and moves by one
    assert_eq!(game.advance(Direction::Up), dto::Status::Ongoing);
    assert_eq!(game.state.snake, VecDeque::from([Position(0, 1)]));
    assert_eq!(game.state.empty.len(), 7);
    assert_eq!(game.state.foods, vec![Position(0, 0)]);
    assert!(game.state.empty.contains(&Position(1, 1)));
    assert!(!game.state.empty.contains(&Position(0, 1)));

    // onto the food: the body grows by one, the tail stays, and the food
    // that is placed anew takes one empty position
    assert_eq!(game.advance(Direction::Left), dto::Status::Ongoing);
    assert_eq!(
        game.state.snake,
        VecDeque::from([Position(0, 0), Position(0, 1)])
    );
    assert_eq!(game.state.foods.len(), 1);
    assert_eq!(game.state.empty.len(), 6);
    assert_eq!(
        game.state.board.at(&Position(0, 0)),
        Cell::Snake(Path {
            entry: Some(Direction::Right),
            exit: None
        })
    );
    assert_eq!(
        game.state.board.at(&Position(0, 1)),
        Cell::Snake(Path {
            entry: None,
            exit: Some(Direction::Left)
        })
    );
    assert_invariant(&game.state);
}

#[test]
fn a_slide_of_a_long_snake_relinks_both_ends() {
    let board: Board<2, 3> = Board::new([
        [
            Cell::Snake(Path {
                entry: None,
                exit: Some(Direction::Right),
            }),
            Cell::Snake(Path {
                entry: Some(Direction::Left),
                exit: Some(Direction::Right),
            }),
            Cell::Snake(Path {
                entry: Some(Direction::Left),
                exit: None,
            }),
        ],
        [Cell::Empty(0), Cell::Empty(1), Cell::Empty(2)],
    ]);
    let mut controller = MockController(Direction::Down);
    let mut view = MockView::default();
    let mut game = GameState::from_board(board, &mut controller, &mut view, Generator::from_seed(0));
    assert_invariant(&game.state);
    assert_eq!(game.iterate_turn(), dto::Status::Ongoing);
    assert_eq!(
        game.state.snake,
        VecDeque::from([Position(1, 2), Position(0, 2), Position(0, 1)])
    );
    // the tail took the slot that the new head left in the list
    assert_eq!(
        game.state.empty,
        vec![Position(1, 0), Position(1, 1), Position(0, 0)]
    );
    assert_eq!(game.state.board.at(&Position(0, 0)), Cell::Empty(2));
    assert_eq!(
        game.state.board.at(&Position(0, 1)),
        Cell::Snake(Path {
            entry: None,
            exit: Some(Direction::Right)
        })
    );
    assert_eq!(
        game.state.board.at(&Position(0, 2)),
        Cell::Snake(Path {
            entry: Some(Direction::Left),
            exit: Some(Direction::Down)
        })
    );
    assert_eq!(
        game.state.board.at(&Position(1, 2)),
        Cell::Snake(Path {
            entry: Some(Direction::Up),
            exit: None
        })
    );
    assert_invariant(&game.state);
    let segment = |entry, exit| dto::Cell::Snake(Path { entry, exit });
    assert_eq!(
        view.0,
        vec![
            (
                (0, 1),
                segment(Some(Direction::Left), Some(Direction::Right)),
                segment(None, Some(Direction::Right))
            ),
            (
                (0, 2),
                segment(Some(Direction::Left), None),
                segment(Some(Direction::Left), Some(Direction::Down))
            ),
            (
                (0, 0),
                segment(None, Some(Direction::Right)),
                dto::Cell::Empty
            ),
            (
                (1, 2),
                dto::Cell::Empty,
                segment(Some(Direction::Up), None)
            ),
        ]
    );
}

#[test]
fn a_slide_puts_the_tail_last_among_the_empty_positions() {
    let board: Board<2, 3> = Board::new([
        [
            Cell::Empty(0),
            Cell::Snake(Path {
                entry: None,
                exit: Some(Direction::Right),
            }),
            Cell::Snake(Path {
                entry: Some(Direction::Left),
                exit: None,
            }),
        ],
        [Cell::Empty(1), Cell::Empty(2), Cell::Empty(3)],
    ]);
    let mut controller = MockController(Direction::Right);
    let mut view = MockView::default();
    let mut game = GameState::from_board(board, &mut controller, &mut view, Generator::from_seed(0));
    assert_eq!(game.iterate_turn(), dto::Status::Ongoing);
    // (0, 0) left slot 0, the last position took it, and the tail was pushed
    assert_eq!(
        game.state.empty,
        vec![Position(1, 2), Position(1, 0), Position(1, 1), Position(0, 1)]
    );
    assert_eq!(game.state.board.at(&Position(1, 2)), Cell::Empty(0));
    assert_eq!(game.state.board.at(&Position(0, 1)), Cell::Empty(3));
    assert_eq!(
        game.state.snake,
        VecDeque::from([Position(0, 0), Position(0, 2)])
    );
    assert_eq!(
        game.state.board.at(&Position(0, 2)),
        Cell::Snake(Path {
            entry: None,
            exit: Some(Direction::Right)
        })
    );
    assert_eq!(
        game.state.board.at(&Position(0, 0)),
        Cell::Snake(Path {
            entry: Some(Direction::Left),
            exit: None
        })
    );
    assert_invariant(&game.state);
}

#[test]
fn a_single_segment_slides_without_links() {
    let mut controller = MockController(Direction::Left);
    let mut view = MockView::default();
    let mut game = Options::<3, 3>::with_seed(0, 0)
        .build(&mut controller, &mut view)
        .unwrap();
    assert_eq!(game.iterate_turn(), dto::Status::Ongoing);
    assert_eq!(game.state.snake, VecDeque::from([Position(1, 0)]));
    assert_eq!(
        game.state.board.at(&Position(1, 0)),
        Cell::Snake(Path {
            entry: None,
            exit: None
        })
    );
    let segment = dto::Cell::Snake(Path {
        entry: None,
        exit: None,
    });
    assert_invariant(&game.state);
    assert_eq!(
        view.0,
        vec![
            ((1, 1), segment, dto::Cell::Empty),
            ((1, 0), dto::Cell::Empty, segment)
        ]
    );
}

#[test]
fn win_on_a_board_of_two_cells() {
    let mut controller = MockController(Direction::Right);
    let mut view = MockView::default();
    let mut game = Options::<1, 2>::with_seed(1, 0)
        .build(&mut controller, &mut view)
        .unwrap();
    assert_eq!(game.state.snake, VecDeque::from([Position(0, 1)]));
    assert_eq!(game.state.foods, vec![Position(0, 0)]);
    assert_eq!(game.iterate_turn(), dto::Status::Over { is_won: true });
    assert_eq!(game.status, dto::Status::Over { is_won: true });
    assert_eq!(
        game.state.snake,
        VecDeque::from([Position(0, 0), Position(0, 1)])
    );
    assert_eq!(game.state.empty, Vec::new());
    assert_eq!(game.state.foods, Vec::new());
    assert_invariant(&game.state);
}

#[test]
fn running_into_the_body_of_a_full_board_is_a_win() {
    let board: Board<1, 2> = Board::new([[
        Cell::Snake(Path {
            entry: None,
            exit: Some(Direction::Right),
        }),
        Cell::Snake(Path {
            entry: Some(Direction::Left),
            exit: None,
        }),
    ]]);
    let mut controller = MockController(Direction::Right);
    let mut view = MockView::default();
    let mut game = GameState::from_board(board, &mut controller, &mut view, Generator::from_seed(0));
    assert_eq!(game.iterate_turn(), dto::Status::Over { is_won: true });
}

#[test]
fn loss_on_a_board_with_one_cell_left() {
    let board: Board<2, 3> = Board::new([
        [
            Cell::Snake(Path {
                entry: Some(Direction::Right),
                exit: Some(Direction::Down),
            }),
            Cell::Snake(Path {
                entry: Some(Direction::Right),
                exit: Some(Direction::Left),
            }),
            Cell::Snake(Path {
                entry: None,
                exit: Some(Direction::Left),
            }),
        ],
        [
            Cell::Snake(Path {
                entry: Some(Direction::Up),
                exit: Some(Direction::Right),
            }),
            Cell::Snake(Path {
                entry: Some(Direction::Left),
                exit: None,
            }),
            Cell::Empty(0),
        ],
    ]);
    for direction in [Direction::Up, Direction::Down, Direction::Left] {
        let mut controller = MockController(direction);
        let mut view = MockView::default();
        let mut game =
            GameState::from_board(board.clone(), &mut controller, &mut view, Generator::from_seed(0));
        assert_eq!(game.iterate_turn(), dto::Status::Over { is_won: false });
        assert_eq!(game.status, dto::Status::Over { is_won: false });
    }
}

#[test]
fn equal_seeds_and_directions_give_equal_games() {
    for seed in [0u64, 9, 77] {
        let mut first_controller = RandomController::seeded(seed);
        let mut first_view = MockView::default();
        let mut first = Options::<4, 4>::with_seed(2, seed)
            .build(&mut first_controller, &mut first_view)
            .unwrap();
        let mut second_controller = RandomController::seeded(seed);
        let mut second_view = MockView::default();
        let mut second = Options::<4, 4>::with_seed(2, seed)
            .build(&mut second_controller, &mut second_view)
            .unwrap();
        assert_eq!(first.state, second.state);
        for _ in 0..200 {
            let status = first.iterate_turn();
            assert_eq!(second.iterate_turn(), status);
            assert_eq!(first.state, second.state);
            assert_eq!(first.state.foods, second.state.foods);
            assert_eq!(first.view.0, second.view.0);
        }
    }
}

#[test]
fn different_seeds_place_the_food_differently() {
    let mut placements = Vec::new();
    for seed in 0..20u64 {
        let mut controller = MockController(Direction::Right);
        let mut view = MockView::default();
        let game = Options::<5, 5>::with_seed(1, seed)
            .build(&mut controller, &mut view)
            .unwrap();
        placements.push(game.state.foods[0]);
    }
    placements.dedup();
    assert!(placements.len() > 1);
}
