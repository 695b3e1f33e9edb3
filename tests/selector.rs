use filler_bot::strategy::find_best_move;
use std::collections::VecDeque;

fn board(rows: &[&str]) -> Vec<Vec<char>> {
    rows.iter().map(|r| r.chars().collect()).collect()
}

fn piece(rows: &[&str]) -> Vec<(usize, usize)> {
    let mut cells = Vec::new();
    for (y, r) in rows.iter().enumerate() {
        for (x, c) in r.chars().enumerate() {
            if c == 'O' {
                cells.push((y, x));
            }
        }
    }
    cells
}

fn empty_board(h: usize, w: usize) -> Vec<Vec<char>> {
    vec![vec!['.'; w]; h]
}

fn pick_move(b: &[Vec<char>], p: &[(usize, usize)], roles: (char, char)) -> Option<(usize, usize)> {
    let track: VecDeque<(usize, usize)> = VecDeque::new();
    find_best_move(b, p, roles.0, roles.1, 0, &track)
}

#[test]
fn trivial_first_move() {
    let b = board(&[".....", ".....", "..@..", ".....", "....."]);
    assert_eq!(pick_move(&b, &piece(&["O"]), ('@', 'a')), Some((2, 2)));
}

#[test]
fn frontier_preferred_toward_opponent() {
    let mut b = empty_board(7, 7);
    b[0][0] = '@';
    b[1][0] = 'a';
    b[6][6] = '$';
    assert_eq!(pick_move(&b, &piece(&["OO"]), ('@', 'a')), Some((1, 0)));
}

#[test]
fn opponent_blocking_rewarded() {
    let mut b = empty_board(5, 5);
    b[2][1] = '@';
    b[2][3] = '$';
    assert_eq!(pick_move(&b, &piece(&["OO"]), ('@', 'a')), Some((2, 1)));
}

#[test]
fn pocket_board_single_cell_piece_lands_on_our_cell() {
    let b = board(&[".....", ".aaa.", ".a.a.", ".a@a.", "....."]);
    let r = pick_move(&b, &piece(&["O"]), ('@', 'a')).unwrap();
    let c = b[r.0][r.1];
    assert!(c == '@' || c == 'a');
}

#[test]
fn forced_forfeit() {
    let b = board(&["$$$", "$@.", "$$$"]);
    assert_eq!(pick_move(&b, &piece(&["OOO"]), ('@', 'a')), None);
}

#[test]
fn fallback_sweep_finds_distant_anchor() {
    let mut b = empty_board(80, 80);
    b[40][70] = '@';
    b[39][70] = '$';
    b[41][70] = '$';
    b[40][69] = '$';
    b[40][71] = '$';
    let p = vec![(0, 0), (0, 20)];
    assert_eq!(pick_move(&b, &p, ('@', 'a')), Some((40, 50)));
}

#[test]
fn mirrored_turn_gives_mirrored_move() {
    let mut b = empty_board(5, 5);
    b[1][2] = '$';
    b[3][2] = '@';
    assert_eq!(pick_move(&b, &piece(&["O", "O"]), ('$', 's')), Some((1, 2)));
}

#[test]
fn same_inputs_same_move() {
    let mut b = empty_board(9, 9);
    b[1][1] = '@';
    b[1][2] = 'a';
    b[7][6] = '$';
    b[7][7] = 's';
    let p = piece(&["OO", ".O"]);
    let mut track: VecDeque<(usize, usize)> = VecDeque::new();
    track.push_front((7, 7));
    track.push_front((6, 7));
    let first = find_best_move(&b, &p, '@', 'a', 3, &track);
    let second = find_best_move(&b, &p, '@', 'a', 3, &track);
    assert!(first.is_some());
    assert_eq!(first, second);
}

#[test]
fn single_row_board_stays_on_board() {
    let b = board(&["..a@...$s"]);
    let r = pick_move(&b, &piece(&["O"]), ('@', 'a')).unwrap();
    assert_eq!(r.0, 0);
    assert!(r.1 < 9);
    assert!(r == (0, 2) || r == (0, 3));
}

#[test]
fn single_column_board_stays_on_board() {
    let b = board(&[".", "@", ".", ".", "$"]);
    let r = pick_move(&b, &piece(&["O"]), ('@', 'a')).unwrap();
    assert_eq!(r, (1, 0));
}

#[test]
fn single_cell_board() {
    let b = board(&["@"]);
    assert_eq!(pick_move(&b, &piece(&["O"]), ('@', 'a')), Some((0, 0)));
    assert_eq!(pick_move(&b, &piece(&["OO"]), ('@', 'a')), None);
}

#[test]
fn legal_move_found_when_one_exists() {
    let b = board(&["$$$$", "$@..", "$$$$"]);
    assert_eq!(pick_move(&b, &piece(&["OOO"]), ('@', 'a')), Some((1, 1)));
}

#[test]
fn move_never_touches_opponent() {
    let b = board(&["......", ".@a...", "..a$..", "...ss.", "......"]);
    let p = piece(&["OO", "O."]);
    let (y, x) = pick_move(&b, &p, ('@', 'a')).unwrap();
    let mut ours = 0;
    for &(dy, dx) in &p {
        let c = b[y + dy][x + dx];
        assert!(c != '$' && c != 's');
        if c == '@' || c == 'a' {
            ours += 1;
        } else {
            assert_eq!(c, '.');
        }
    }
    assert_eq!(ours, 1);
}
