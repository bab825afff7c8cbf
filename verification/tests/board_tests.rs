use snake_rust::board::Board;
use snake_rust::data_transfer_objects as dto;
use snake_rust::value_objects::{Cell, Direction, Path, Position};
use std::collections::VecDeque;

const INPUT_BOARD: [[Cell; 3]; 3] = [
    [Cell::Empty(0), Cell::Foods(0), Cell::Empty(1)],
    [
        Cell::Empty(2),
        Cell::Snake(Path {
            entry: Some(Direction::Down),
            exit: None,
        }),
        Cell::Empty(3),
    ],
    [
        Cell::Snake(Path {
            entry: None,
            exit: Some(Direction::Up),
        }),
        Cell::Snake(Path {
            entry: Some(Direction::Left),
            exit: Some(Direction::Right),
        }),
        Cell::Empty(4),
    ],
];

const EXPECTED_EMPTY: [Position; 5] = [
    Position(0, 0),
    Position(0, 2),
    Position(1, 0),
    Position(1, 2),
    Position(2, 2),
];

const EXPECTED_SNAKE: [Position; 3] = [Position(1, 1), Position(2, 1), Position(2, 0)];

const DTO_BOARD: [[dto::Cell; 3]; 3] = [
    [dto::Cell::Empty, dto::Cell::Foods, dto::Cell::Empty],
    [
        dto::Cell::Empty,
        dto::Cell::Snake(Path {
            entry: Some(Direction::Down),
            exit: None,
        }),
        dto::Cell::Empty,
    ],
    [
        dto::Cell::Snake(Path {
            entry: None,
            exit: Some(Direction::Up),
        }),
        dto::Cell::Snake(Path {
            entry: Some(Direction::Left),
            exit: Some(Direction::Right),
        }),
        dto::Cell::Empty,
    ],
];

#[test]
fn board_get_empty() {
    let board = Board::new(INPUT_BOARD);
    let empty = board.get_empty();
    assert_eq!(empty, EXPECTED_EMPTY);
}

#[test]
fn game_state_get_empty() {
    let board: Board<3, 3> = Board::from(DTO_BOARD);
    let empty = board.get_empty();
    assert_eq!(empty, EXPECTED_EMPTY);
}

#[test]
fn board_parse_snake() {
    let board = Board::new(INPUT_BOARD);
    let snake = board.get_snake();
    assert_eq!(snake, EXPECTED_SNAKE);
}

#[test]
fn game_state_parse_snake() {
    let board: Board<3, 3> = Board::from(DTO_BOARD);
    let snake = board.get_snake();
    assert_eq!(snake, EXPECTED_SNAKE);
}

#[test]
fn get_foods_lists_the_food_cells_in_order() {
    let board = Board::new(INPUT_BOARD);
    assert_eq!(board.get_foods(), vec![Position(0, 1)]);
    let two: Board<1, 3> = Board::new([[Cell::Foods(0), Cell::Empty(0), Cell::Foods(1)]]);
    assert_eq!(two.get_foods(), vec![Position(0, 0), Position(0, 2)]);
    assert_eq!(two.get_empty(), vec![Position(0, 1)]);
}

#[test]
fn at() {
    let board = Board::new(INPUT_BOARD);
    let position = Position(0, 1);
    let cell = board.at(&position);
    assert_eq!(cell, Cell::Foods(0));
}

#[test]
fn at_mut() {
    let mut board = Board::new(INPUT_BOARD);
    let position = Position(2, 2);
    let cell = *board.at_mut(&position);
    assert_eq!(cell, Cell::Empty(4));
}

#[test]
fn at_mut_writes_one_cell() {
    let mut board = Board::new(INPUT_BOARD);
    *board.at_mut(&Position(2, 2)) = Cell::Foods(1);
    assert_eq!(board.at(&Position(2, 2)), Cell::Foods(1));
    assert_eq!(board.at(&Position(0, 1)), Cell::Foods(0));
    board.put(&Position(0, 0), Cell::Foods(2));
    assert_eq!(board.at(&Position(0, 0)), Cell::Foods(2));
    assert_eq!(board.at(&Position(0, 2)), Cell::Empty(1));
}

#[test]
fn board_from_dto() {
    let board: Board<3, 3> = DTO_BOARD.into();
    assert_eq!(board, Board::new(INPUT_BOARD));
}

#[test]
fn mod_from_dto() {
    let board: Board<3, 3> = DTO_BOARD.into();
    assert_eq!(board, Board::from(DTO_BOARD));
    assert_eq!(board, Board::new(INPUT_BOARD));
}

#[test]
fn indexed_gives_the_board_and_both_lists() {
    let (board, empty, foods) = Board::<3, 3>::indexed(&DTO_BOARD);
    assert_eq!(board, Board::new(INPUT_BOARD));
    assert_eq!(empty, EXPECTED_EMPTY);
    assert_eq!(foods, vec![Position(0, 1)]);
}

#[test]
fn get_board() {
    let actual = Board::<3, 3>::default();
    let expected = Board::new([
        [Cell::Empty(0), Cell::Empty(1), Cell::Empty(2)],
        [
            Cell::Empty(3),
            Cell::Snake(Path {
                entry: None,
                exit: None,
            }),
            Cell::Empty(4),
        ],
        [Cell::Empty(5), Cell::Empty(6), Cell::Empty(7)],
    ]);
    assert_eq!(actual, expected);
}

#[test]
fn lib_get_empty() {
    let actual = Board::<3, 3>::default().get_empty();
    let expected = vec![
        Position(0, 0),
        Position(0, 1),
        Position(0, 2),
        Position(1, 0),
        Position(1, 2),
        Position(2, 0),
        Position(2, 1),
        Position(2, 2),
    ];
    assert_eq!(actual, expected);
}

#[test]
fn get_snake() {
    let actual = Board::<3, 3>::default().get_snake();
    let expected = vec![Position(1, 1)];
    assert_eq!(actual, expected);
}

#[test]
fn get_foods() {
    assert_eq!(Board::<3, 3>::default().get_foods(), Vec::new());
}

#[test]
fn default_board_of_a_single_cell_is_the_snake() {
    let board = Board::<1, 1>::default();
    assert_eq!(
        board,
        Board::new([[Cell::Snake(Path {
            entry: None,
            exit: None
        })]])
    );
    assert_eq!(board.get_empty(), Vec::new());
    assert_eq!(board.get_snake(), VecDeque::from([Position(0, 0)]));
}

#[test]
fn default_board_centres_the_snake_on_uneven_shapes() {
    let board = Board::<2, 4>::default();
    assert_eq!(board.find_snake_head(), Some(Position(1, 2)));
    assert_eq!(board.at(&Position(1, 1)), Cell::Empty(5));
    assert_eq!(board.at(&Position(1, 3)), Cell::Empty(6));
    assert_eq!(board.get_empty().len(), 7);
}

#[test]
fn find_snake_head_takes_the_first_cell_without_an_exit() {
    let board = Board::new(INPUT_BOARD);
    assert_eq!(board.find_snake_head(), Some(Position(1, 1)));
    let row = [
        Cell::Empty(0),
        Cell::Snake(Path {
            entry: None,
            exit: Some(Direction::Right),
        }),
        Cell::Snake(Path {
            entry: Some(Direction::Left),
            exit: None,
        }),
    ];
    assert_eq!(
        board.find_snake_head_from_row((4, &row)),
        Some(Position(4, 2))
    );
    let none: Board<1, 2> = Board::new([[Cell::Empty(0), Cell::Foods(0)]]);
    assert_eq!(none.find_snake_head(), None);
    assert_eq!(
        none.find_snake_head_from_row((0, &[Cell::Empty(0), Cell::Foods(0)])),
        None
    );
}

#[test]
fn move_in_moves_by_one_inside_the_board() {
    let board = Board::new(INPUT_BOARD);
    let from = Position(1, 1);
    assert_eq!(board.move_in(&from, &Direction::Up), Position(0, 1));
    assert_eq!(board.move_in(&from, &Direction::Down), Position(2, 1));
    assert_eq!(board.move_in(&from, &Direction::Left), Position(1, 0));
    assert_eq!(board.move_in(&from, &Direction::Right), Position(1, 2));
}

#[test]
fn move_in_wraps_around_all_four_edges() {
    let board = Board::<3, 4>::default();
    assert_eq!(board.move_in(&Position(0, 2), &Direction::Up), Position(2, 2));
    assert_eq!(board.move_in(&Position(2, 2), &Direction::Down), Position(0, 2));
    assert_eq!(board.move_in(&Position(1, 0), &Direction::Left), Position(1, 3));
    assert_eq!(board.move_in(&Position(1, 3), &Direction::Right), Position(1, 0));
    // corners wrap on one axis only
    assert_eq!(board.move_in(&Position(0, 0), &Direction::Up), Position(2, 0));
    assert_eq!(board.move_in(&Position(0, 0), &Direction::Left), Position(0, 3));
    assert_eq!(board.move_in(&Position(2, 3), &Direction::Down), Position(0, 3));
    assert_eq!(board.move_in(&Position(2, 3), &Direction::Right), Position(2, 0));
}

#[test]
fn move_in_on_a_single_row_or_column_comes_back() {
    let row = Board::<1, 2>::default();
    assert_eq!(row.move_in(&Position(0, 1), &Direction::Up), Position(0, 1));
    assert_eq!(row.move_in(&Position(0, 1), &Direction::Down), Position(0, 1));
    assert_eq!(row.move_in(&Position(0, 1), &Direction::Right), Position(0, 0));
    let cell = Board::<1, 1>::default();
    assert_eq!(cell.move_in(&Position(0, 0), &Direction::Left), Position(0, 0));
}

#[test]
fn a_step_and_its_reverse_lead_back() {
    let board = Board::<3, 4>::default();
    for i in 0..3 {
        for j in 0..4 {
            for direction in [
                Direction::Right,
                Direction::Up,
                Direction::Left,
                Direction::Down,
            ] {
                let there = board.move_in(&Position(i, j), &direction);
                assert_eq!(
                    board.move_in(&there, &direction.opposite()),
                    Position(i, j)
                );
            }
        }
    }
}

#[test]
fn board_to_string_draws_row_by_row() {
    let board = Board::new(INPUT_BOARD);
    assert_eq!(board.to_string(), "░░▒▒░░\n░░██░░\n████░░\n");
    assert_eq!(Board::<1, 1>::default().to_string(), "██\n");
}

#[test]
fn is_walkable_needs_a_head_and_an_end() {
    assert!(Board::new(INPUT_BOARD).is_walkable());
    assert!(Board::<3, 3>::default().is_walkable());
    // no head at all
    let none: Board<1, 2> = Board::new([[Cell::Empty(0), Cell::Foods(0)]]);
    assert!(!none.is_walkable());
    // the links run in a circle
    let circle: Board<1, 3> = Board::new([[
        Cell::Snake(Path {
            entry: Some(Direction::Right),
            exit: None,
        }),
        Cell::Snake(Path {
            entry: Some(Direction::Right),
            exit: Some(Direction::Left),
        }),
        Cell::Snake(Path {
            entry: Some(Direction::Left),
            exit: Some(Direction::Left),
        }),
    ]]);
    assert!(!circle.is_walkable());
    // a walk may end on a cell that is no segment
    let stray: Board<1, 2> = Board::new([[
        Cell::Snake(Path {
            entry: Some(Direction::Right),
            exit: None,
        }),
        Cell::Empty(0),
    ]]);
    assert!(stray.is_walkable());
    assert_eq!(
        stray.get_snake(),
        VecDeque::from([Position(0, 0), Position(0, 1)])
    );
}
