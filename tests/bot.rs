use ataxx::bot::Redesia;
use ataxx::game::{Ataxx, CellType};

fn empty_board() -> Ataxx {
    let mut a = Ataxx::new();
    a.board = [[CellType::Empty; 7]; 7];
    a
}

#[test]
fn new_copies_board() {
    let a = Ataxx::new();
    let r = Redesia::new(&a);
    assert_eq!(r.width, 7);
    assert_eq!(r.height, 7);
    assert_eq!(r.board, a.board);
    assert!(r.positions.is_empty());
}

#[test]
fn bot_takes_first_best_move() {
    let mut a = Ataxx::new();
    a.p1_turn = false;
    let mut r = Redesia::new(&a);
    let m = r.step(a);
    assert_eq!(m, (3, (0, 6), (0, 5)));
}

#[test]
fn bot_is_deterministic() {
    let mut a = Ataxx::new();
    a.select_cell((0, 0));
    a.select_cell((1, 1));
    let mut r = Redesia::new(&a);
    let first = r.step(a);
    let second = r.step(a);
    let third = Redesia::new(&a).step(a);
    assert_eq!(first, second);
    assert_eq!(first, third);
}

#[test]
fn bot_leaves_live_board_alone() {
    let mut a = Ataxx::new();
    a.select_cell((0, 0));
    a.select_cell((1, 1));
    let snapshot = a;
    let mut r = Redesia::new(&a);
    r.step(a);
    assert_eq!(a.board, snapshot.board);
    assert_eq!(a.p1_turn, snapshot.p1_turn);
    assert_eq!(a.selected_piece, snapshot.selected_piece);
}

#[test]
fn bot_prefers_captures() {
    let mut a = empty_board();
    a.board[0][0] = CellType::Red;
    a.board[3][1] = CellType::Blue;
    a.board[3][2] = CellType::Blue;
    a.board[6][6] = CellType::Blue;
    a.p1_turn = false;
    let mut r = Redesia::new(&a);
    let m = r.step(a);
    // jumps to (2,1) and (2,2) both take two Blue pieces; the first one wins
    assert_eq!(m, (3, (0, 0), (2, 1)));
    assert_eq!(r.positions.len(), 8);
    a.select_cell((m.1 .0 as i16, m.1 .1 as i16));
    a.select_cell((m.2 .0 as i16, m.2 .1 as i16));
    assert_eq!(a.count_cells(CellType::Red), 3);
}

#[test]
fn bot_lists_moves_in_scan_order() {
    let mut a = empty_board();
    a.board[0][0] = CellType::Red;
    a.board[6][6] = CellType::Blue;
    a.p1_turn = false;
    let mut r = Redesia::new(&a);
    r.step(a);
    let targets: Vec<(u8, u8)> = r.positions.iter().map(|m| m.2).collect();
    assert_eq!(
        targets,
        vec![(0, 1), (0, 2), (1, 0), (1, 1), (1, 2), (2, 0), (2, 1), (2, 2)]
    );
    let scores: Vec<i32> = r.positions.iter().map(|m| m.0).collect();
    assert_eq!(scores, vec![2, 1, 2, 2, 1, 1, 1, 1]);
}

#[test]
fn bot_without_moves_returns_off_board_move() {
    let mut a = empty_board();
    a.board[0][0] = CellType::Red;
    for x in 0..3 {
        for y in 0..3 {
            if (x, y) != (0, 0) {
                a.board[x][y] = CellType::Solid;
            }
        }
    }
    a.board[6][6] = CellType::Blue;
    a.p1_turn = false;
    let mut r = Redesia::new(&a);
    let m = r.step(a);
    assert_eq!(m, (0, (7, 7), (7, 7)));
    let before = a.board;
    a.select_cell((m.1 .0 as i16, m.1 .1 as i16));
    a.select_cell((m.2 .0 as i16, m.2 .1 as i16));
    assert_eq!(a.board, before);
    assert_eq!(a.selected_piece, None);
}

#[test]
fn bot_candidate_list_is_rebuilt_each_search() {
    let mut a = empty_board();
    a.board[0][0] = CellType::Red;
    a.board[6][6] = CellType::Blue;
    a.p1_turn = false;
    let mut r = Redesia::new(&a);
    r.step(a);
    let first = r.positions.clone();
    r.step(a);
    assert_eq!(r.positions.len(), 8);
    assert_eq!(r.positions, first);
}
