use game_of_life::board::Board;
use rand::Rng;

const BOARD_WIDTH: usize = 125 + 1;
const BOARD_HEIGHT: usize = 70 + 1;

fn setup() -> (usize, usize, Board, rand::prelude::ThreadRng) {
    let mut rng = rand::thread_rng();
    let board = Board::new(BOARD_WIDTH - 1, BOARD_HEIGHT - 1).unwrap();
    let x_coord = rng.gen_range(1..BOARD_WIDTH);
    let y_coord = rng.gen_range(1..BOARD_HEIGHT);
    (x_coord, y_coord, board, rng)
}

#[test]
fn board_get_cells_to_flip_1() {
    let (_x_coord, _y_coord, mut board, mut rng) = setup();

    let coords1: (usize, usize) = (rng.gen_range(0..BOARD_WIDTH), rng.gen_range(1..BOARD_HEIGHT));
    let coords2: (usize, usize) = (rng.gen_range(0..BOARD_WIDTH), rng.gen_range(1..BOARD_HEIGHT));
    let coords3: (usize, usize) = (rng.gen_range(0..BOARD_WIDTH), rng.gen_range(1..BOARD_HEIGHT));

    for coords in [coords1, coords2, coords3].iter() {
        board.get_cell_mut(*coords).unwrap().flip();
    }

    let mut flipped = vec![coords1, coords2, coords3];
    let mut test_result = board.get_cells_to_flip();
    flipped.sort();
    test_result.sort();
    assert_eq!(flipped, test_result);
}

#[test]
fn board_get_cells_to_flip_2() {
    let (_x_coord, _y_coord, mut board, mut _rng) = setup();

    let coords1: (usize, usize) = (4, 4);
    let coords2: (usize, usize) = (4, 5);
    let coords3: (usize, usize) = (5, 5);

    for coords in [coords1, coords2, coords3].iter() {
        board.get_cell_mut(*coords).unwrap().flip();
    }

    let to_flip: Vec<(usize, usize)> = vec![(5, 4)];
    let test_result = board.get_cells_to_flip();
    assert_eq!(to_flip, test_result);
}

#[test]
fn board_get_cells_to_flip_3() {
    let (_x_coord, _y_coord, mut board, mut _rng) = setup();

    let coords1: (usize, usize) = (1, 1);

    for coords in [coords1].iter() {
        board.get_cell_mut(*coords).unwrap().flip();
    }

    let to_flip: Vec<(usize, usize)> = vec![(1, 1)];
    let test_result = board.get_cells_to_flip();
    assert_eq!(to_flip, test_result);
}

#[test]
fn board_get_cells_to_flip_4() {
    let (_x_coord, _y_coord, mut board, mut _rng) = setup();

    let coords1: (usize, usize) = (1, 1);
    let coords2: (usize, usize) = (1, 2);
    let coords3: (usize, usize) = (2, 2);
    let coords4: (usize, usize) = (2, 1);

    for coords in [coords1, coords2, coords3, coords4].iter() {
        board.get_cell_mut(*coords).unwrap().flip();
    }

    let to_flip: Vec<(usize, usize)> = vec![];
    let test_result = board.get_cells_to_flip();
    assert_eq!(to_flip, test_result);
}

#[test]
fn board_get_cells_to_flip_5() {
    let (_x_coord, _y_coord, mut board, mut _rng) = setup();

    let coords1: (usize, usize) = (1, 1);
    let coords2: (usize, usize) = (1, 2);
    let coords3: (usize, usize) = (2, 2);
    let coords4: (usize, usize) = (2, 1);
    let coords5: (usize, usize) = (3, 1);
    let coords6: (usize, usize) = (3, 2);

    for coords in [coords1, coords2, coords3, coords4, coords5, coords6].iter() {
        board.get_cell_mut(*coords).unwrap().flip();
    }

    let mut to_flip: Vec<(usize, usize)> = vec![(2, 1), (2, 2), (2, 3)];
    let mut test_result = board.get_cells_to_flip();
    to_flip.sort();
    test_result.sort();
    assert_eq!(to_flip, test_result);
}
