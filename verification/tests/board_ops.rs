use game_of_life::board::Board;
use rand::Rng;

const BOARD_WIDTH: usize = 125 + 1;
const BOARD_HEIGHT: usize = 70 + 1;

fn setup() -> (usize, usize, Board, rand::prelude::ThreadRng) {
    let mut rng = rand::thread_rng();
    let board = Board::new(BOARD_WIDTH - 1, BOARD_HEIGHT - 1).unwrap();
    let x_coord = rng.gen_range(1..BOARD_WIDTH);
    let y_coord = rng.gen_range(1..BOARD_HEIGHT);
    (x_coord, y_coord, board, rng)
}

#[test]
fn cell_flip() {
    let (x_coord, y_coord, mut board, _rng) = setup();
    let cell = board.get_cell_mut((x_coord, y_coord)).unwrap();
    cell.flip();

    assert_eq!(board.get_cell((x_coord, y_coord)).unwrap().alive, true)
}

#[test]
fn board_get_cell() {
    let (x_coord, y_coord, mut board, _rng) = setup();
    board.cells[x_coord - 1][y_coord - 1].alive = true;
    assert_eq!(board.get_cell((x_coord, y_coord)).unwrap().alive, true);
}

#[test]
fn boarder_1() {
    let (_x_coord, _y_coord, board, _rng) = setup();
    assert_eq!(board.get_cell((0, 0)), None);
}

#[test]
fn boarder_2() {
    let (_x_coord, _y_coord, board, _rng) = setup();
    assert_eq!(board.get_cell((BOARD_WIDTH, BOARD_HEIGHT)), None);
}

#[test]
fn board_count_adjacent_alive_1() {
    let (_x_coord, _y_coord, board, _rng) = setup();
    board.count_adjacent_alive((1, 1)); //Should not panic
}

#[test]
fn board_count_adjacent_alive_2() {
    let (x_coord, y_coord, mut board, mut rng) = setup();

    // Randomly select three adjacent cells to make alive
    let targets = [
        rng.gen_range(0..9),
        rng.gen_range(0..9),
        rng.gen_range(0..9),
    ];

    let mut counter = 0;
    for target in targets.iter() {
        match target {
            1 => {
                if let Some(cell) = board.get_cell_mut((x_coord - 1, y_coord - 1)) {
                    if !cell.alive {
                        cell.alive = true;
                        counter += 1;
                    }
                }
            }
            2 => {
                if let Some(cell) = board.get_cell_mut((x_coord - 1, y_coord)) {
                    if !cell.alive {
                        cell.alive = true;
                        counter += 1;
                    }
                }
            }
            3 => {
                if let Some(cell) = board.get_cell_mut((x_coord - 1, y_coord + 1)) {
                    if !cell.alive {
                        cell.alive = true;
                        counter += 1;
                    }
                }
            }
            4 => {
                if let Some(cell) = board.get_cell_mut((x_coord, y_coord - 1)) {
                    if !cell.alive {
                        cell.alive = true;
                        counter += 1;
                    }
                }
            }
            5 => {
                if let Some(cell) = board.get_cell_mut((x_coord, y_coord + 1)) {
                    if !cell.alive {
                        cell.alive = true;
                        counter += 1;
                    }
                }
            }
            6 => {
                if let Some(cell) = board.get_cell_mut((x_coord + 1, y_coord - 1)) {
                    if !cell.alive {
                        cell.alive = true;
                        counter += 1;
                    }
                }
            }
            7 => {
                if let Some(cell) = board.get_cell_mut((x_coord + 1, y_coord)) {
                    if !cell.alive {
                        cell.alive = true;
                        counter += 1;
                    }
                }
            }
            8 => {
                if let Some(cell) = board.get_cell_mut((x_coord + 1, y_coord + 1)) {
                    if !cell.alive {
                        cell.alive = true;
                        counter += 1;
                    }
                }
            }
            _ => (),
        }
    }

    assert_eq!(board.count_adjacent_alive((x_coord, y_coord)), counter)
}
