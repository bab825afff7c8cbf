use snake_rust::board::Board;
use snake_rust::data_transfer_objects as dto;
use snake_rust::seeder::{MockSeeder, Seeder};
use snake_rust::state::State;
use snake_rust::value_objects::{Cell, Direction, Path, Position};
use std::collections::VecDeque;

const MOCK_BOARD: [[Cell; 3]; 2] = [
    [
        Cell::Snake(Path {
            entry: Some(Direction::Right),
            exit: Some(Direction::Down),
        }),
        Cell::Snake(Path {
            entry: Some(Direction::Right),
            exit: Some(Direction::Left),
        }),
        Cell::Snake(Path {
            entry: None,
            exit: Some(Direction::Left),
        }),
    ],
    [
        Cell::Snake(Path {
            entry: Some(Direction::Up),
            exit: Some(Direction::Right),
        }),
        Cell::Snake(Path {
            entry: Some(Direction::Left),
            exit: None,
        }),
        Cell::Empty(0),
    ],
];

fn get_mock_state() -> State<2, 3> {
    let rng = MockSeeder(0).get_rng();
    let board = Board::new(MOCK_BOARD);
    State::new(board, rng)
}

fn get_two_cell() -> State<1, 2> {
    let direction = Direction::Right;
    let board = Board::new([[
        Cell::Snake(Path {
            entry: None,
            exit: Some(direction),
        }),
        Cell::Snake(Path {
            entry: Some(direction.opposite()),
            exit: None,
        }),
    ]]);
    let rng = MockSeeder(0).get_rng();
    State::new(board, rng)
}

#[test]
fn is_valid_true() {
    let state = get_mock_state();
    assert!(state.is_valid());
    assert!(get_two_cell().is_valid());
}

#[test]
fn is_empty_valid_false() {
    let board = Board::new([[
        Cell::Snake(Path {
            entry: None,
            exit: None,
        }),
        Cell::Empty(1),
    ]]);
    let empty = board.get_empty();
    let foods = board.get_foods();
    let snake = board.get_snake();
    let state = State {
        board,
        empty,
        foods,
        snake,
        rng: MockSeeder(0).get_rng(),
    };
    assert!(!state.is_empty_valid());
    assert!(!state.is_valid());
}

#[test]
fn is_foods_valid_false() {
    let board = Board::new([[
        Cell::Snake(Path {
            entry: None,
            exit: None,
        }),
        Cell::Foods(0),
    ]]);
    let empty = board.get_empty();
    let foods = vec![Position(0, 0)];
    let snake = board.get_snake();
    let state = State {
        board,
        empty,
        foods,
        snake,
        rng: MockSeeder(0).get_rng(),
    };
    assert!(!state.is_foods_valid());
    assert!(!state.is_valid());
}

#[test]
fn is_snake_valid_false() {
    let board = Board::new([[
        Cell::Snake(Path {
            entry: None,
            exit: None,
        }),
        Cell::Empty(0),
    ]]);
    let empty = board.get_empty();
    let foods = board.get_foods();
    let snake = VecDeque::from([Position(0, 1)]);
    let state = State {
        board,
        empty,
        foods,
        snake,
        rng: MockSeeder(0).get_rng(),
    };
    assert!(!state.is_snake_valid());
    assert!(!state.is_valid());
}

#[test]
fn validity_checks_accept_a_valid_state() {
    let state = get_mock_state();
    assert!(state.is_empty_valid());
    assert!(state.is_foods_valid());
    assert!(state.is_snake_valid());
    assert!(state.is_snake_linked());
    assert!(state.is_board_valid());
    assert!(state.is_partition());
}

#[test]
fn is_valid_rejects_positions_off_the_board() {
    let mut state = get_mock_state();
    state.empty[0] = Position(5, 5);
    assert!(!state.is_empty_valid());
    assert!(!state.is_valid());
    let mut state = get_mock_state();
    state.snake[0] = Position(2, 0);
    assert!(!state.is_snake_valid());
    assert!(!state.is_snake_linked());
}

#[test]
fn is_valid_rejects_a_broken_chain() {
    // the head points at a cell that is not the next segment
    let board = Board::new([[
        Cell::Snake(Path {
            entry: Some(Direction::Down),
            exit: None,
        }),
        Cell::Snake(Path {
            entry: None,
            exit: Some(Direction::Left),
        }),
    ]]);
    let state: State<1, 2> = State {
        board,
        empty: vec![],
        foods: vec![],
        snake: VecDeque::from([Position(0, 0), Position(0, 1)]),
        rng: MockSeeder(0).get_rng(),
    };
    assert!(state.is_snake_valid());
    assert!(!state.is_snake_linked());
    assert!(!state.is_valid());
}

#[test]
fn is_valid_rejects_an_unlisted_cell_and_a_wrong_count() {
    let mut state = get_mock_state();
    state.empty.clear();
    assert!(state.is_empty_valid());
    assert!(!state.is_board_valid());
    assert!(!state.is_partition());
    assert!(!state.is_valid());
    let mut state = get_mock_state();
    state.snake.pop_back();
    assert!(!state.is_board_valid());
    assert!(!state.is_valid());
    let mut state = get_mock_state();
    state.snake.clear();
    assert!(!state.is_snake_linked());
    assert!(!state.is_valid());
}

#[test]
fn new_reads_the_lists_and_the_body_off_the_board() {
    let state = get_mock_state();
    assert_eq!(state.empty, vec![Position(1, 2)]);
    assert_eq!(state.foods, Vec::new());
    assert_eq!(
        state.snake,
        VecDeque::from([
            Position(1, 1),
            Position(1, 0),
            Position(0, 0),
            Position(0, 1),
            Position(0, 2)
        ])
    );
    assert_eq!(state.rng, MockSeeder(0).get_rng());
}

#[test]
fn check_is_won_status_true() {
    assert_eq!(
        get_two_cell().check_is_won_status(),
        dto::Status::Over { is_won: true }
    );
}

#[test]
fn check_is_won_status_false() {
    let state = get_mock_state();
    let status = state.check_is_won_status();
    assert_eq!(status, dto::Status::Ongoing);
}

#[test]
fn state_get_next_head() {
    let state = get_mock_state();
    let direction = Direction::Right;
    let head = state.get_next_head(&direction);
    assert_eq!(head, Position(1, 2));
}

#[test]
fn state_remove_last_tail() {
    let mut state = get_mock_state();
    let position = Position(0, 2);
    assert_eq!(state.remove_last_tail(), position);
    assert_eq!(state.board.at(&position), Cell::Empty(1))
}

#[test]
fn remove_empty_moves_the_last_position_into_the_slot() {
    let board: Board<1, 4> = Board::new([[
        Cell::Empty(0),
        Cell::Snake(Path {
            entry: None,
            exit: None,
        }),
        Cell::Empty(1),
        Cell::Empty(2),
    ]]);
    let mut state = State::new(board, MockSeeder(0).get_rng());
    state.remove_empty(&Position(0, 0), 0);
    assert_eq!(state.empty, vec![Position(0, 3), Position(0, 2)]);
    assert_eq!(state.board.at(&Position(0, 3)), Cell::Empty(0));
    assert_eq!(state.board.at(&Position(0, 2)), Cell::Empty(1));
    // removing the last slot patches nothing
    state.remove_empty(&Position(0, 2), 1);
    assert_eq!(state.empty, vec![Position(0, 3)]);
    assert_eq!(state.board.at(&Position(0, 3)), Cell::Empty(0));
}

#[test]
fn remove_foods_moves_the_last_position_into_the_slot() {
    let board: Board<1, 4> = Board::new([[
        Cell::Foods(0),
        Cell::Snake(Path {
            entry: None,
            exit: None,
        }),
        Cell::Foods(1),
        Cell::Foods(2),
    ]]);
    let mut state = State::new(board, MockSeeder(0).get_rng());
    state.remove_foods(&Position(0, 2), 1);
    assert_eq!(state.foods, vec![Position(0, 0), Position(0, 3)]);
    assert_eq!(state.board.at(&Position(0, 3)), Cell::Foods(1));
    assert_eq!(state.board.at(&Position(0, 0)), Cell::Foods(0));
}

#[test]
fn state_insert_food_fails_on_a_full_board() {
    let mut state = get_two_cell();
    let before = state.clone();
    assert!(state.insert_food().is_err());
    assert_eq!(state, before);
}

#[test]
fn state_insert_food_gives_back_the_position() {
    let mut state = get_mock_state();
    assert_eq!(state.insert_food().unwrap(), Position(1, 2));
    assert_eq!(state.board.at(&Position(1, 2)), Cell::Foods(0));
    assert_eq!(state.foods, vec![Position(1, 2)]);
    assert_eq!(state.empty, Vec::new());
    assert!(state.is_valid());
}

#[test]
fn cut_behind_takes_the_entry_link_of_one_segment() {
    let mut state = get_mock_state();
    let change = state.cut_behind(3);
    assert_eq!(change.0, Position(0, 1));
    assert_eq!(
        change.1,
        Cell::Snake(Path {
            entry: Some(Direction::Right),
            exit: Some(Direction::Left)
        })
    );
    assert_eq!(
        change.2,
        Cell::Snake(Path {
            entry: None,
            exit: Some(Direction::Left)
        })
    );
    assert_eq!(state.board.at(&Position(0, 1)), change.2);
    assert_eq!(state.snake.len(), 5);
}

#[test]
fn push_snake_leaves_the_lists_alone() {
    let mut state = get_mock_state();
    let change = state.push_snake(Position(1, 2), Some(Direction::Left));
    assert_eq!(change.1, Cell::Empty(0));
    assert_eq!(
        state.board.at(&Position(1, 2)),
        Cell::Snake(Path {
            entry: Some(Direction::Left),
            exit: None
        })
    );
    assert_eq!(state.snake.front(), Some(&Position(1, 2)));
    assert_eq!(state.snake.len(), 6);
    assert_eq!(state.empty, vec![Position(1, 2)]);
}

#[test]
fn update_next_tail_and_update_last_head_relink_the_ends() {
    let mut state = get_mock_state();
    state.remove_last_tail();
    let change = state.update_next_tail();
    assert_eq!(change.0, Position(0, 1));
    assert_eq!(
        state.board.at(&Position(0, 1)),
        Cell::Snake(Path {
            entry: None,
            exit: Some(Direction::Left)
        })
    );
    let change = state.update_last_head(&Direction::Right);
    assert_eq!(change.0, Position(1, 1));
    assert_eq!(
        state.board.at(&Position(1, 1)),
        Cell::Snake(Path {
            entry: Some(Direction::Left),
            exit: Some(Direction::Right)
        })
    );
    assert_eq!(*state.get_last_head(), Position(1, 1));
    assert_eq!(*state.get_next_tail(), Position(0, 1));
}
