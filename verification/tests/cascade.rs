use minesweeper::{Board, CellKind, GameState, Minesweeper, Pos};

/// A small generator of numbers that gives the same boards on every run.
struct Dice(u64);

impl Dice {
    fn roll(&mut self, sides: u64) -> u64 {
        self.0 = self
            .0
            .wrapping_mul(6364136223846793005)
            .wrapping_add(1442695040888963407);
        (self.0 >> 33) % sides
    }

    fn matrix(&mut self, height: usize, width: usize, one_in: u64) -> Vec<Vec<i32>> {
        (0..height)
            .map(|_| {
                (0..width)
                    .map(|_| if self.roll(one_in) == 0 { 1 } else { 0 })
                    .collect()
            })
            .collect()
    }
}

type Cells = Vec<Vec<CellKind>>;

fn cells_of(board: &Board) -> Cells {
    board.iter().cloned().collect()
}

fn around(cells: &Cells, row: usize, col: usize) -> Vec<(usize, usize)> {
    let mut out = Vec::new();
    for r in row.saturating_sub(1)..=(row + 1).min(cells.len() - 1) {
        for c in col.saturating_sub(1)..=(col + 1).min(cells[r].len() - 1) {
            if (r, c) != (row, col) {
                out.push((r, c));
            }
        }
    }
    out
}

/// Disclosure by plain recursion, cell by cell.
fn open_by_recursion(cells: &mut Cells, row: usize, col: usize) {
    if cells[row][col] != (CellKind::Closed { flagged: false }) {
        return;
    }
    let near = around(cells, row, col);
    let count = near.iter().filter(|&&(r, c)| cells[r][c].is_mine()).count();
    cells[row][col] = CellKind::Open {
        neighbor_mines: count as u8,
    };
    if count == 0 {
        for (r, c) in near {
            open_by_recursion(cells, r, c);
        }
    }
}

#[test]
fn cascade_agrees_with_plain_recursion() {
    let mut dice = Dice(2024);
    for round in 0..300 {
        let height = 1 + dice.roll(9) as usize;
        let width = 1 + dice.roll(9) as usize;
        let one_in = 2 + dice.roll(8);
        let matrix = dice.matrix(height, width, one_in);
        let mut game = Minesweeper::from_matrix(matrix);
        for _ in 0..(dice.roll(4)) {
            let pos = Pos {
                row: dice.roll(height as u64) as u8,
                col: dice.roll(width as u64) as u8,
            };
            game.flag_cell(pos);
        }
        let mut expect = cells_of(&game.board);
        for _ in 0..6 {
            if game.state != GameState::Playing {
                break;
            }
            let row = dice.roll(height as u64) as usize;
            let col = dice.roll(width as u64) as usize;
            let lost = expect[row][col] == (CellKind::Mine { flagged: false });
            open_by_recursion(&mut expect, row, col);
            game.open_cell(Pos {
                row: row as u8,
                col: col as u8,
            });
            assert_eq!(cells_of(&game.board), expect, "round {}", round);
            let closed = expect.iter().flatten().filter(|k| k.is_closed()).count();
            if lost {
                assert_eq!(game.state, GameState::Lose);
            } else if game.state == GameState::Win {
                assert_eq!(closed, 0);
            } else {
                assert_eq!(game.state, GameState::Playing);
            }
        }
    }
}

#[test]
fn chord_agrees_with_opening_the_cells_around_in_turn() {
    let mut dice = Dice(7);
    let mut chords = 0;
    for round in 0..400 {
        let height = 2 + dice.roll(7) as usize;
        let width = 2 + dice.roll(7) as usize;
        let matrix = dice.matrix(height, width, 5);
        let mut game = Minesweeper::from_matrix(matrix.clone());
        let mut twin = Minesweeper::from_matrix(matrix);
        let row = dice.roll(height as u64) as u8;
        let col = dice.roll(width as u64) as u8;
        let pos = Pos { row, col };
        game.open_cell(pos);
        twin.open_cell(pos);
        if game.state != GameState::Playing {
            continue;
        }
        for q in game.board.iter_neighbors(pos) {
            if twin.board.get(q) == Some(&CellKind::Closed { flagged: false }) {
                twin.open_cell(q);
            }
        }
        game.chorded_open(pos);
        chords += 1;
        assert_eq!(cells_of(&game.board), cells_of(&twin.board), "round {}", round);
        assert_eq!(game.state, twin.state, "round {}", round);
    }
    assert!(chords > 50);
}

#[test]
fn disclosing_in_turn_is_disclosing_at_once() {
    let mut dice = Dice(99);
    for round in 0..200 {
        let height = 1 + dice.roll(8) as usize;
        let width = 1 + dice.roll(8) as usize;
        let matrix = dice.matrix(height, width, 6);
        let mut seeds = Vec::new();
        for _ in 0..dice.roll(5) {
            seeds.push(Pos {
                row: dice.roll(height as u64 + 1) as u8,
                col: dice.roll(width as u64 + 1) as u8,
            });
        }
        let split = dice.roll(seeds.len() as u64 + 1) as usize;
        let mut at_once = Board::from_matrix(matrix.clone());
        at_once.disclose(seeds.clone());
        let mut in_turn = Board::from_matrix(matrix.clone());
        in_turn.disclose(seeds[..split].to_vec());
        in_turn.disclose(seeds[split..].to_vec());
        assert_eq!(cells_of(&at_once), cells_of(&in_turn), "round {}", round);

        let mut expect = cells_of(&Board::from_matrix(matrix));
        for seed in &seeds {
            if (seed.row as usize) < height && (seed.col as usize) < width {
                open_by_recursion(&mut expect, seed.row as usize, seed.col as usize);
            }
        }
        assert_eq!(cells_of(&at_once), expect, "round {}", round);
    }
}

#[test]
fn an_open_cell_shows_the_mines_around_it() {
    let mut dice = Dice(5);
    for _ in 0..100 {
        let height = 1 + dice.roll(8) as usize;
        let width = 1 + dice.roll(8) as usize;
        let matrix = dice.matrix(height, width, 4);
        let mut game = Minesweeper::from_matrix(matrix);
        let pos = Pos {
            row: dice.roll(height as u64) as u8,
            col: dice.roll(width as u64) as u8,
        };
        game.open_cell(pos);
        for p in game.board.iter_pos() {
            if let Some(CellKind::Open { neighbor_mines }) = game.board.get(p) {
                assert_eq!(*neighbor_mines, game.board.mines_around(p));
                let mines = game
                    .board
                    .iter_neighbors(p)
                    .into_iter()
                    .filter(|&q| game.board.get(q).unwrap().is_mine())
                    .count();
                assert_eq!(*neighbor_mines as usize, mines);
            }
        }
    }
}
