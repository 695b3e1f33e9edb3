use filler_bot::candidates::{expansion_seeds, search_radius, Candidate};
use filler_bot::legality::is_valid_placement;
use filler_bot::scoring::{evaluate_move_score, ScoreContext};
use filler_bot::strategy::{fallback_sweep, select_best};

fn board(rows: &[&str]) -> Vec<Vec<char>> {
    rows.iter().map(|r| r.chars().collect()).collect()
}

fn blocking_board() -> Vec<Vec<char>> {
    board(&[".....", ".....", ".@.$.", ".....", "....."])
}

fn blocking_context() -> ScoreContext {
    ScoreContext { phase: 8, opponent_center: (2, 3), our_center: (2, 1), opponent_direction: (0, 0) }
}

#[test]
fn score_of_blocking_placement() {
    let b = blocking_board();
    let p = vec![(0, 0), (0, 1)];
    let s = evaluate_move_score(&b, &p, 2, 1, '@', 'a', &[(2, 1)], blocking_context(), false);
    assert_eq!(s, 1970);
    let s = evaluate_move_score(&b, &p, 2, 1, '@', 'a', &[(2, 1)], blocking_context(), true);
    assert_eq!(s, 1970);
}

#[test]
fn score_of_retreating_placement() {
    let b = blocking_board();
    let p = vec![(0, 0), (0, 1)];
    let s = evaluate_move_score(&b, &p, 2, 0, '@', 'a', &[(2, 1)], blocking_context(), false);
    assert_eq!(s, 1683);
}

#[test]
fn score_in_late_phase() {
    let b = blocking_board();
    let p = vec![(0, 0), (0, 1)];
    let ctx = ScoreContext { phase: 75, ..blocking_context() };
    // weighted 150 + 80 + 60 + 50, distances 590, band 150
    let s = evaluate_move_score(&b, &p, 2, 1, '@', 'a', &[(2, 1)], ctx, false);
    assert_eq!(s, 1080);
}

#[test]
fn score_with_direction_bonus() {
    let b = blocking_board();
    let p = vec![(0, 0), (0, 1)];
    let ctx = ScoreContext { opponent_direction: (0, -1), ..blocking_context() };
    let s = evaluate_move_score(&b, &p, 2, 1, '@', 'a', &[(2, 1)], ctx, false);
    assert_eq!(s, 2070);
}

#[test]
fn legality_rules() {
    let b = board(&["@a..", "..$.", "...s"]);
    let one = vec![(0, 0), (0, 1)];
    assert!(is_valid_placement(&b, &one, 0, 1, '@', 'a'));
    assert!(!is_valid_placement(&b, &one, 0, 0, '@', 'a'));
    assert!(!is_valid_placement(&b, &one, 0, 3, '@', 'a'));
    assert!(!is_valid_placement(&b, &one, 1, 0, '@', 'a'));
    let down = vec![(0, 0), (1, 0)];
    assert!(!is_valid_placement(&b, &down, 0, 2, '@', 'a'));
    assert!(is_valid_placement(&b, &down, 0, 2, '$', 's'));
    assert!(!is_valid_placement(&b, &down, 2, 0, '@', 'a'));
}

#[test]
fn radius_table() {
    assert_eq!(search_radius(0, 100), 5);
    assert_eq!(search_radius(30, 6000), 3);
    assert_eq!(search_radius(31, 100), 4);
    assert_eq!(search_radius(70, 6000), 2);
    assert_eq!(search_radius(71, 100), 3);
    assert_eq!(search_radius(100, 6000), 2);
}

#[test]
fn seeds_are_open_empty_cells() {
    let b = board(&["$..", "$$.", "..."]);
    let seeds = expansion_seeds(&b, &vec![(0, 0), (1, 0), (1, 1)]);
    assert_eq!(seeds.len(), 4);
    for &(y, x) in &seeds {
        assert_eq!(b[y][x], '.');
    }
    assert!(!seeds.contains(&(0, 1)));
    assert!(!seeds.contains(&(2, 0)));
    assert!(seeds.contains(&(1, 2)));
    assert!(seeds.contains(&(2, 2)));
}

#[test]
fn seeds_capped_on_large_boards() {
    let mut b = vec![vec!['.'; 60]; 60];
    b[30][30] = '$';
    let seeds = expansion_seeds(&b, &vec![(30, 30)]);
    assert_eq!(seeds.len(), 100);
}

#[test]
fn sweep_with_stride_two() {
    let b = board(&["....", ".@..", "....", "...."]);
    let p = vec![(0, 0), (1, 1)];
    assert_eq!(fallback_sweep(&b, &p, '@', 'a', 2), Some((0, 0)));
    let p = vec![(0, 0), (0, 1)];
    assert_eq!(fallback_sweep(&b, &p, '@', 'a', 2), None);
    assert_eq!(fallback_sweep(&b, &p, '@', 'a', 1), Some((1, 0)));
}

#[test]
fn earliest_of_equal_scores_wins() {
    let b = board(&["...", "a.a", "..."]);
    let p = vec![(0, 0)];
    let ctx = ScoreContext { phase: 11, opponent_center: (1, 1), our_center: (1, 1), opponent_direction: (0, 0) };
    let ours = [(1, 0), (1, 2)];
    let a = Candidate { y: 1, x: 0, tier: 3, bonus: 0 };
    let c = Candidate { y: 1, x: 2, tier: 3, bonus: 0 };
    let sa = evaluate_move_score(&b, &p, 1, 0, '@', 'a', &ours, ctx, false);
    let sc = evaluate_move_score(&b, &p, 1, 2, '@', 'a', &ours, ctx, false);
    assert_eq!(sa, sc);
    assert_eq!(select_best(&b, &p, '@', 'a', &ours, ctx, &vec![a, c], None), Some((1, 0, sa)));
    assert_eq!(select_best(&b, &p, '@', 'a', &ours, ctx, &vec![c, a], None), Some((1, 2, sc)));
    let bonus = Candidate { y: 1, x: 2, tier: 1, bonus: 500 };
    let r = select_best(&b, &p, '@', 'a', &ours, ctx, &vec![a, bonus], None).unwrap();
    assert_eq!((r.0, r.1), (1, 2));
    let illegal = Candidate { y: 0, x: 0, tier: 1, bonus: 500 };
    assert_eq!(select_best(&b, &p, '@', 'a', &ours, ctx, &vec![illegal], None), None);
}

#[test]
fn mirrored_placement_scores_the_same() {
    let b = blocking_board();
    let m = board(&[".....", "..$..", ".....", "..@..", "....."]);
    let s = evaluate_move_score(&b, &[(0, 0), (0, 1)], 2, 1, '@', 'a', &[(2, 1)], blocking_context(), true);
    let ctx = ScoreContext { phase: 8, opponent_center: (3, 2), our_center: (1, 2), opponent_direction: (0, 0) };
    let t = evaluate_move_score(&m, &[(0, 0), (1, 0)], 1, 2, '$', 's', &[(1, 2)], ctx, true);
    assert_eq!(s, t);
    assert!(is_valid_placement(&m, &[(0, 0), (1, 0)], 1, 2, '$', 's'));
}

#[test]
fn one_opponent_neighbour_is_not_adjacency() {
    let b = board(&["@.$"]);
    let ctx = ScoreContext { phase: 50, opponent_center: (0, 2), our_center: (0, 0), opponent_direction: (0, 0) };
    // weighted 120 + 150 + 50, distances 590, band 150
    assert_eq!(evaluate_move_score(&b, &[(0, 0), (0, 1)], 0, 0, '@', 'a', &[(0, 0)], ctx, false), 1060);
    assert_eq!(evaluate_move_score(&b, &[(0, 0), (0, 1)], 0, 0, '@', 'a', &[(0, 0)], ctx, true), 1060);
}

#[test]
fn two_opponent_neighbours_cut_and_touch() {
    let b = board(&[".$.", "@..", ".$."]);
    let ctx = ScoreContext { phase: 33, opponent_center: (1, 1), our_center: (1, 0), opponent_direction: (0, 0) };
    // weighted 120 + 300 + 30, distances 595, cut 500, adjacency 200, band 150
    assert_eq!(evaluate_move_score(&b, &[(0, 0), (0, 1)], 1, 0, '@', 'a', &[(1, 0)], ctx, false), 1895);
    assert_eq!(evaluate_move_score(&b, &[(0, 0), (0, 1)], 1, 0, '@', 'a', &[(1, 0)], ctx, true), 2195);
}
