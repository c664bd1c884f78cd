use ataxx::game::{Ataxx, CellType};

fn count(a: &Ataxx, c: CellType) -> u32 {
    let mut n = 0;
    for x in 0..7 {
        for y in 0..7 {
            if a.board[x][y] == c {
                n += 1;
            }
        }
    }
    n
}

fn empty_board() -> Ataxx {
    let mut a = Ataxx::new();
    a.board = [[CellType::Empty; 7]; 7];
    a
}

#[test]
fn new_game_seed_layout() {
    let a = Ataxx::new();
    assert_eq!(a.width, 7);
    assert_eq!(a.height, 7);
    assert!(a.p1_turn);
    assert_eq!(a.selected_piece, None);
    assert_eq!(a.board[0][0], CellType::Blue);
    assert_eq!(a.board[6][6], CellType::Blue);
    assert_eq!(a.board[6][0], CellType::Red);
    assert_eq!(a.board[0][6], CellType::Red);
    assert_eq!(a.board[3][3], CellType::Solid);
    assert_eq!(count(&a, CellType::Blue), 2);
    assert_eq!(count(&a, CellType::Red), 2);
    assert_eq!(count(&a, CellType::Solid), 1);
    assert_eq!(count(&a, CellType::Empty), 44);
}

#[test]
fn count_cells_matches_grid() {
    let a = Ataxx::new();
    assert_eq!(a.count_cells(CellType::Blue), 2);
    assert_eq!(a.count_cells(CellType::Red), 2);
    assert_eq!(a.count_cells(CellType::Solid), 1);
    assert_eq!(a.count_cells(CellType::Empty), 44);
}

#[test]
fn first_pick_of_other_cell_changes_nothing() {
    for x in -1..8i16 {
        for y in -1..8i16 {
            let mut a = Ataxx::new();
            let before = a.board;
            a.select_cell((x, y));
            assert_eq!(a.board, before);
            if (x, y) == (0, 0) || (x, y) == (6, 6) {
                assert_eq!(a.selected_piece, Some((x, y)));
            } else {
                assert_eq!(a.selected_piece, None);
            }
            assert!(a.p1_turn);
        }
    }
}

#[test]
fn first_pick_respects_turn() {
    let mut a = Ataxx::new();
    a.p1_turn = false;
    a.select_cell((0, 0));
    assert_eq!(a.selected_piece, None);
    a.select_cell((6, 0));
    assert_eq!(a.selected_piece, Some((6, 0)));
}

#[test]
fn duplicate_move() {
    let mut a = Ataxx::new();
    a.select_cell((0, 0));
    a.select_cell((1, 1));
    assert_eq!(a.board[0][0], CellType::Blue);
    assert_eq!(a.board[1][1], CellType::Blue);
    assert_eq!(count(&a, CellType::Blue), 3);
    assert_eq!(a.selected_piece, None);
    assert!(!a.p1_turn);
}

#[test]
fn jump_move() {
    let mut a = Ataxx::new();
    a.select_cell((0, 0));
    a.select_cell((2, 2));
    assert_eq!(a.board[0][0], CellType::Empty);
    assert_eq!(a.board[2][2], CellType::Blue);
    assert_eq!(count(&a, CellType::Blue), 2);
    assert_eq!(a.selected_piece, None);
    assert!(!a.p1_turn);
}

#[test]
fn capture_converts_adjacent_enemies() {
    let mut a = empty_board();
    a.board[2][2] = CellType::Blue;
    a.board[4][4] = CellType::Red;
    a.board[4][3] = CellType::Red;
    a.board[5][5] = CellType::Red;
    a.board[3][4] = CellType::Solid;
    a.select_cell((2, 2));
    a.select_cell((3, 3));
    assert_eq!(a.board[3][3], CellType::Blue);
    assert_eq!(a.board[2][2], CellType::Blue);
    assert_eq!(a.board[4][4], CellType::Blue);
    assert_eq!(a.board[4][3], CellType::Blue);
    assert_eq!(a.board[5][5], CellType::Red);
    assert_eq!(a.board[3][4], CellType::Solid);
    assert!(!a.p1_turn);
}

#[test]
fn jump_captures_too() {
    let mut a = empty_board();
    a.board[0][0] = CellType::Red;
    a.board[3][3] = CellType::Blue;
    a.board[6][6] = CellType::Blue;
    a.p1_turn = false;
    a.select_cell((0, 0));
    a.select_cell((2, 2));
    assert_eq!(a.board[0][0], CellType::Empty);
    assert_eq!(a.board[2][2], CellType::Red);
    assert_eq!(a.board[3][3], CellType::Red);
    assert_eq!(a.board[6][6], CellType::Blue);
    assert!(a.p1_turn);
}

#[test]
fn out_of_reach_target_clears_selection() {
    let mut a = Ataxx::new();
    let before = a.board;
    a.select_cell((0, 0));
    a.select_cell((3, 0));
    assert_eq!(a.board, before);
    assert_eq!(a.selected_piece, None);
    assert!(a.p1_turn);
    a.select_cell((0, 0));
    a.select_cell((1, 5));
    assert_eq!(a.board, before);
    assert_eq!(a.selected_piece, None);
}

#[test]
fn occupied_target_clears_selection() {
    let mut a = Ataxx::new();
    a.board[1][0] = CellType::Red;
    let before = a.board;
    a.select_cell((0, 0));
    a.select_cell((1, 0));
    assert_eq!(a.board, before);
    assert_eq!(a.selected_piece, None);
    assert!(a.p1_turn);
}

#[test]
fn out_of_range_target_clears_selection() {
    let mut a = Ataxx::new();
    let before = a.board;
    for target in [(-1i16, 0i16), (0, -1), (7, 0), (0, 7), (i16::MAX, i16::MIN)] {
        a.select_cell((0, 0));
        assert_eq!(a.selected_piece, Some((0, 0)));
        a.select_cell(target);
        assert_eq!(a.board, before);
        assert_eq!(a.selected_piece, None);
        assert!(a.p1_turn);
    }
}

#[test]
fn skip_turn_when_opponent_is_stuck() {
    let mut a = empty_board();
    a.board[0][0] = CellType::Red;
    for x in 0..3 {
        for y in 0..3 {
            if (x, y) != (0, 0) {
                a.board[x][y] = CellType::Solid;
            }
        }
    }
    a.board[6][6] = CellType::Blue;
    a.select_cell((6, 6));
    a.select_cell((5, 5));
    assert_eq!(a.board[5][5], CellType::Blue);
    assert!(a.p1_turn);
    assert_eq!(a.selected_piece, None);
}

#[test]
fn turn_passes_when_opponent_can_move() {
    let mut a = Ataxx::new();
    a.select_cell((6, 6));
    a.select_cell((4, 4));
    assert!(!a.p1_turn);
    a.select_cell((6, 0));
    a.select_cell((5, 1));
    assert!(a.p1_turn);
    assert_eq!(a.board[5][1], CellType::Red);
}

#[test]
fn reset_restores_seed_and_keeps_turn() {
    let mut a = Ataxx::new();
    a.select_cell((0, 0));
    a.select_cell((1, 1));
    a.select_cell((6, 0));
    a.reset();
    assert_eq!(a.board, Ataxx::new().board);
    assert_eq!(a.selected_piece, None);
    assert!(!a.p1_turn);
}
