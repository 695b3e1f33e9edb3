use filler_bot::board::{
    calculate_territory_center, collect_opponent_territory, collect_territory_cells, game_phase,
    get_territory_metrics, order_frontier, predict_opponent_direction, sample_frontier,
    update_opponent_movement_pattern,
};
use filler_bot::game::initialize_player;
use filler_bot::grid::grid_distance;
use std::collections::VecDeque;

fn board(rows: &[&str]) -> Vec<Vec<char>> {
    rows.iter().map(|r| r.chars().collect()).collect()
}

#[test]
fn territory_cells_in_row_major_order() {
    let b = board(&["a.$", "@s.", ".aa"]);
    assert_eq!(collect_territory_cells(&b, '@', 'a'), vec![(0, 0), (1, 0), (2, 1), (2, 2)]);
    assert_eq!(collect_opponent_territory(&b, '@', 'a'), vec![(0, 2), (1, 1)]);
    assert_eq!(collect_opponent_territory(&b, '$', 's'), vec![(0, 0), (1, 0), (2, 1), (2, 2)]);
}

#[test]
fn metrics_split_frontier_and_interior() {
    let b = board(&["@a.", "aa.", "..."]);
    let (size, enclosed, frontier) = get_territory_metrics(&b, '@', 'a');
    assert_eq!(size, 4);
    assert_eq!(enclosed, 1);
    assert_eq!(frontier, vec![(1, 1), (0, 1), (1, 0)]);
}

#[test]
fn metrics_frontier_puts_contact_first() {
    let b = board(&["@..", "a$.", "..."]);
    assert_eq!(get_territory_metrics(&b, '@', 'a'), (2, 0, vec![(1, 0), (0, 0)]));
}

#[test]
fn metrics_of_absent_side() {
    let b = board(&["@a.", "..."]);
    let (size, enclosed, frontier) = get_territory_metrics(&b, '$', 's');
    assert_eq!((size, enclosed), (0, 0));
    assert!(frontier.is_empty());
}

#[test]
fn centroid_is_integer_mean() {
    assert_eq!(calculate_territory_center(&[(1, 2), (2, 5), (4, 1)]), (2, 2));
    assert_eq!(calculate_territory_center(&[]), (0, 0));
    assert_eq!(calculate_territory_center(&[(7, 3)]), (7, 3));
}

#[test]
fn phase_is_claimed_percentage() {
    assert_eq!(game_phase(3, 2, 25), 20);
    assert_eq!(game_phase(1, 0, 3), 33);
    assert_eq!(game_phase(0, 0, 1), 0);
    assert_eq!(game_phase(4, 5, 9), 100);
}

#[test]
fn distance_is_manhattan() {
    assert_eq!(grid_distance((2, 7), (5, 3)), 7);
    assert_eq!(grid_distance((4, 4), (4, 4)), 0);
}

#[test]
fn direction_from_sample() {
    let mut t: VecDeque<(usize, usize)> = VecDeque::new();
    assert_eq!(predict_opponent_direction(&t), (0, 0));
    t.push_back((5, 5));
    assert_eq!(predict_opponent_direction(&t), (0, 0));
    t.push_back((4, 4));
    t.push_back((3, 3));
    assert_eq!(predict_opponent_direction(&t), (-1, -1));
    let t: VecDeque<(usize, usize)> = vec![(2, 0), (1, 0), (1, 0)].into_iter().collect();
    assert_eq!(predict_opponent_direction(&t), (0, 0));
    let t: VecDeque<(usize, usize)> = vec![(0, 3), (1, 2), (2, 2)].into_iter().collect();
    assert_eq!(predict_opponent_direction(&t), (1, 0));
}

#[test]
fn sample_takes_first_opponent_territory_cell() {
    let b = board(&["..$.s", "..s.."]);
    let mut t: VecDeque<(usize, usize)> = VecDeque::new();
    update_opponent_movement_pattern(&b, '@', 'a', &mut t);
    assert_eq!(t, VecDeque::from(vec![(0, 4)]));
    update_opponent_movement_pattern(&b, '$', 's', &mut t);
    assert_eq!(t, VecDeque::from(vec![(0, 4)]));
}

#[test]
fn sample_keeps_five_newest() {
    let b = board(&["...", ".s."]);
    let mut t: VecDeque<(usize, usize)> = vec![(9, 1), (9, 2), (9, 3), (9, 4), (9, 5)].into_iter().collect();
    update_opponent_movement_pattern(&b, '@', 'a', &mut t);
    assert_eq!(t, VecDeque::from(vec![(1, 1), (9, 1), (9, 2), (9, 3), (9, 4)]));
}

#[test]
fn frontier_ordered_by_contact_then_room() {
    let b = board(&["a..", ".$.", "aa."]);
    let (_, _, frontier) = get_territory_metrics(&b, '@', 'a');
    assert_eq!(frontier, vec![(2, 1), (0, 0), (2, 0)]);
    let ordered = order_frontier(&b, &frontier, '@');
    assert_eq!(ordered, vec![(2, 1), (0, 0), (2, 0)]);
    let tied = board(&["a.a", "...", "..."]);
    let (_, _, frontier) = get_territory_metrics(&tied, '@', 'a');
    assert_eq!(order_frontier(&tied, &frontier, '@'), vec![(0, 0), (0, 2)]);
}

#[test]
fn frontier_sampled_on_large_boards() {
    let cells: Vec<(usize, usize)> = (0..150).map(|i| (i, 0)).collect();
    let thin = sample_frontier(&cells, 6000);
    assert_eq!(thin.len(), 50);
    assert_eq!(thin[1], (3, 0));
    assert_eq!(sample_frontier(&cells, 5000), cells);
    let few: Vec<(usize, usize)> = (0..100).map(|i| (i, 1)).collect();
    assert_eq!(sample_frontier(&few, 6000), few);
}

#[test]
fn handshake_lines() {
    assert_eq!(initialize_player("$$$ exec p1 : [robots/bender]"), Some(('@', 'a')));
    assert_eq!(initialize_player("$$$ exec p2 : [player]"), Some(('$', 's')));
    assert_eq!(initialize_player("launched"), None);
    assert_eq!(initialize_player("p"), None);
    assert_eq!(initialize_player(""), None);
}
