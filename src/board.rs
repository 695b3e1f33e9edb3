//! Board analytics: territory lists, frontier, centroids, phase, and the
//! rolling sample of opponent cells with the direction derived from it.
use vstd::prelude::*;
use std::collections::VecDeque;
use crate::grid::{
    count_empty4, count_theirs4, empty4, is_ours, opp_anchor, opp_terr, opponent_symbols, sign, theirs4,
    valid_roles, wf_board,
};

verus! {

/// Row-major list of the cells `(y, x)` with `x < n` in row `y` that satisfy `f`.
pub open spec fn row_where(b: Seq<Vec<char>>, f: spec_fn(int, int) -> bool, y: int, n: int) -> Seq<
    (usize, usize),
>
    decreases n,
{
    if n <= 0 {
        seq![]
    } else {
        row_where(b, f, y, n - 1) + if f(y, n - 1) {
            seq![(y as usize, (n - 1) as usize)]
        } else {
            seq![]
        }
    }
}

/// Row-major list of the cells in the first `n` rows that satisfy `f`.
pub open spec fn grid_where(b: Seq<Vec<char>>, f: spec_fn(int, int) -> bool, n: int) -> Seq<
    (usize, usize),
>
    decreases n,
{
    if n <= 0 {
        seq![]
    } else {
        grid_where(b, f, n - 1) + row_where(b, f, n - 1, b[n - 1]@.len() as int)
    }
}

/// Row-major list of all cells of the board that satisfy `f`.
pub open spec fn cells_where(b: Seq<Vec<char>>, f: spec_fn(int, int) -> bool) -> Seq<(usize, usize)> {
    grid_where(b, f, b.len() as int)
}

/// Cells holding symbol `a` or symbol `s`.
pub open spec fn holds_either(b: Seq<Vec<char>>, a: char, s: char) -> spec_fn(int, int) -> bool {
    |y: int, x: int| b[y]@[x] == a || b[y]@[x] == s
}

/// Our cells with at least one empty four-neighbour.
pub open spec fn frontier_cell(b: Seq<Vec<char>>, p: char, t: char) -> spec_fn(int, int) -> bool {
    |y: int, x: int| is_ours(b[y]@[x], p, t) && empty4(b, y, x) >= 1
}

/// Our cells with no empty four-neighbour.
pub open spec fn interior_cell(b: Seq<Vec<char>>, p: char, t: char) -> spec_fn(int, int) -> bool {
    |y: int, x: int| is_ours(b[y]@[x], p, t) && empty4(b, y, x) == 0
}

/// Lists, in row-major order, the cells that hold `player_sym` or `territory_sym`.
pub fn collect_territory_cells(board: &[Vec<char>], player_sym: char, territory_sym: char) -> (r:
    Vec<(usize, usize)>)
    ensures
        r@ == cells_where(board@, holds_either(board@, player_sym, territory_sym)),
{
    let ghost b = board@;
    let ghost f = holds_either(b, player_sym, territory_sym);
    let mut positions: Vec<(usize, usize)> = Vec::new();
    let mut y: usize = 0;
    while y < board.len()
        invariant
            b == board@,
            f == holds_either(b, player_sym, territory_sym),
            0 <= y <= b.len(),
            positions@ == grid_where(b, f, y as int),
        decreases b.len() - y,
    {
        let row = &board[y];
        let mut x: usize = 0;
        while x < row.len()
            invariant
                b == board@,
                f == holds_either(b, player_sym, territory_sym),
                0 <= y < b.len(),
                row@ == b[y as int]@,
                0 <= x <= row@.len(),
                positions@ == grid_where(b, f, y as int) + row_where(b, f, y as int, x as int),
            decreases row@.len() - x,
        {
            let cell = row[x];
            if cell == player_sym || cell == territory_sym {
                positions.push((y, x));
            }
            proof {
                assert(f(y as int, x as int) == (cell == player_sym || cell == territory_sym));
                assert(positions@ =~= grid_where(b, f, y as int) + row_where(b, f, y as int, x + 1));
            }
            x = x + 1;
        }
        y = y + 1;
    }
    positions
}

/// Lists, in row-major order, the opponent's cells for the player whose anchor is `player_symbol`.
pub fn collect_opponent_territory(board: &[Vec<char>], player_symbol: char, territory_symbol: char) -> (r:
    Vec<(usize, usize)>)
    ensures
        r@ == cells_where(board@, holds_either(board@, opp_anchor(player_symbol), opp_terr(player_symbol))),
{
    let (oa, ot) = opponent_symbols(player_symbol);
    collect_territory_cells(board, oa, ot)
}


/// Counts the side's cells and its interior cells (no empty four-neighbour),
/// and lists its frontier cells (some empty four-neighbour) by priority: more
/// cells of the other side around first, then more empty cells around, and
/// row-major order among equals.
pub fn get_territory_metrics(board: &[Vec<char>], player_symbol: char, territory_symbol: char) -> (r: (
    usize,
    usize,
    Vec<(usize, usize)>,
))
    requires
        wf_board(board@),
    ensures
        r.0 == cells_where(board@, holds_either(board@, player_symbol, territory_symbol)).len(),
        r.1 == cells_where(board@, interior_cell(board@, player_symbol, territory_symbol)).len(),
        r.2@ == ranked_from(
            board@,
            player_symbol,
            cells_where(board@, frontier_cell(board@, player_symbol, territory_symbol)),
            0,
        ),
{
    let ghost b = board@;
    let ghost fo = holds_either(b, player_symbol, territory_symbol);
    let ghost fi = interior_cell(b, player_symbol, territory_symbol);
    let ghost ff = frontier_cell(b, player_symbol, territory_symbol);
    let h = board.len();
    let w = board[0].len();
    let mut size: usize = 0;
    let mut enclosed: usize = 0;
    let mut frontier: Vec<(usize, usize)> = Vec::new();
    let mut y: usize = 0;
    while y < h
        invariant
            wf_board(b),
            b == board@,
            h == b.len(),
            w == b[0]@.len(),
            fo == holds_either(b, player_symbol, territory_symbol),
            fi == interior_cell(b, player_symbol, territory_symbol),
            ff == frontier_cell(b, player_symbol, territory_symbol),
            0 <= y <= h,
            size == grid_where(b, fo, y as int).len(),
            enclosed == grid_where(b, fi, y as int).len(),
            frontier@ == grid_where(b, ff, y as int),
            size <= y * w,
            enclosed <= size,
        decreases h - y,
    {
        assert(b[y as int]@.len() == w);
        let mut x: usize = 0;
        while x < w
            invariant
                wf_board(b),
                b == board@,
                h == b.len(),
                w == b[0]@.len(),
                b[y as int]@.len() == w,
                fo == holds_either(b, player_symbol, territory_symbol),
                fi == interior_cell(b, player_symbol, territory_symbol),
                ff == frontier_cell(b, player_symbol, territory_symbol),
                0 <= y < h,
                0 <= x <= w,
                size == grid_where(b, fo, y as int).len() + row_where(b, fo, y as int, x as int).len(),
                enclosed == grid_where(b, fi, y as int).len() + row_where(b, fi, y as int, x as int).len(),
                frontier@ == grid_where(b, ff, y as int) + row_where(b, ff, y as int, x as int),
                size <= y * w + x,
                enclosed <= size,
            decreases w - x,
        {
            proof {
                assert(y * w + x < (y + 1) * w <= h * w) by (nonlinear_arith)
                    requires
                        x < w,
                        y + 1 <= h,
                ;
            }
            let cell = board[y][x];
            if cell == player_symbol || cell == territory_symbol {
                size = size + 1;
                if count_empty4(board, y, x) >= 1 {
                    frontier.push((y, x));
                } else {
                    enclosed = enclosed + 1;
                }
            }
            proof {
                assert(frontier@ =~= grid_where(b, ff, y as int) + row_where(b, ff, y as int, x + 1));
            }
            x = x + 1;
        }
        proof {
            assert(y * w + w == (y + 1) * w) by (nonlinear_arith);
        }
        y = y + 1;
    }
    proof {
        lemma_cells_where_in_bounds(b, ff);
    }
    let ordered = order_frontier(board, &frontier, player_symbol);
    (size, enclosed, ordered)
}

pub open spec fn sum_ys(s: Seq<(usize, usize)>, n: int) -> int
    decreases n,
{
    if n <= 0 { 0 } else { sum_ys(s, n - 1) + s[n - 1].0 }
}

pub open spec fn sum_xs(s: Seq<(usize, usize)>, n: int) -> int
    decreases n,
{
    if n <= 0 { 0 } else { sum_xs(s, n - 1) + s[n - 1].1 }
}

/// Integer mean of the cells, `(0, 0)` for none.
pub open spec fn centroid(s: Seq<(usize, usize)>) -> (usize, usize) {
    if s.len() == 0 {
        (0, 0)
    } else {
        (
            (sum_ys(s, s.len() as int) / s.len() as int) as usize,
            (sum_xs(s, s.len() as int) / s.len() as int) as usize,
        )
    }
}

proof fn lemma_mean_fits(sum: int, n: int)
    requires
        0 <= sum <= n * usize::MAX,
        0 < n,
    ensures
        0 <= sum / n <= usize::MAX,
{
    vstd::arithmetic::div_mod::lemma_div_is_ordered(sum, n * usize::MAX, n);
    vstd::arithmetic::div_mod::lemma_div_multiples_vanish(usize::MAX as int, n);
    assert(n * usize::MAX == usize::MAX * n) by (nonlinear_arith);
    assert(0 <= sum / n) by (nonlinear_arith)
        requires
            0 <= sum,
            0 < n,
    ;
}

/// The integer mean of the positions, `(0, 0)` when there are none.
pub fn calculate_territory_center(positions: &[(usize, usize)]) -> (r: (usize, usize))
    ensures
        r == centroid(positions@),
{
    let ghost s = positions@;
    let n = positions.len();
    if n == 0 {
        return (0, 0);
    }
    let mut sy: u128 = 0;
    let mut sx: u128 = 0;
    let mut i: usize = 0;
    while i < n
        invariant
            s == positions@,
            n == s.len(),
            0 <= i <= n,
            sy == sum_ys(s, i as int),
            sx == sum_xs(s, i as int),
            sy <= i * usize::MAX,
            sx <= i * usize::MAX,
        decreases n - i,
    {
        proof {
            assert(i * usize::MAX + usize::MAX == (i + 1) * usize::MAX) by (nonlinear_arith);
            assert((i + 1) * usize::MAX <= usize::MAX * usize::MAX) by (nonlinear_arith)
                requires
                    i + 1 <= usize::MAX,
            ;
        }
        sy = sy + positions[i].0 as u128;
        sx = sx + positions[i].1 as u128;
        i = i + 1;
    }
    proof {
        lemma_mean_fits(sy as int, n as int);
        lemma_mean_fits(sx as int, n as int);
    }
    ((sy / n as u128) as usize, (sx / n as u128) as usize)
}


/// Capacity of the opponent sample.
pub const TRACK_LEN: usize = 5;

/// `(y2, x2)` comes before `(y, x)` in row-major order.
pub open spec fn before(y2: int, x2: int, y: int, x: int) -> bool {
    y2 < y || (y2 == y && x2 < x)
}

/// `(y, x)` is the first cell in row-major order that holds `c`.
pub open spec fn first_with(b: Seq<Vec<char>>, c: char, y: int, x: int) -> bool {
    &&& 0 <= y < b.len()
    &&& 0 <= x < b[y]@.len()
    &&& b[y]@[x] == c
    &&& forall|y2: int, x2: int|
        0 <= y2 < b.len() && 0 <= x2 < b[y2]@.len() && before(y2, x2, y, x) ==> #[trigger] b[y2]@[x2]
            != c
}

/// No cell holds `c`.
pub open spec fn absent(b: Seq<Vec<char>>, c: char) -> bool {
    forall|y: int, x: int| 0 <= y < b.len() && 0 <= x < b[y]@.len() ==> #[trigger] b[y]@[x] != c
}

/// The sample after `c` is pushed on the front, the oldest dropped beyond capacity.
pub open spec fn pushed(s: Seq<(usize, usize)>, c: (usize, usize)) -> Seq<(usize, usize)> {
    let s2 = seq![c] + s;
    if s2.len() > TRACK_LEN { s2.drop_last() } else { s2 }
}

/// Pushes the first opponent-territory cell in row-major order onto the front
/// of the sample, keeping at most five; leaves the sample alone when the
/// opponent holds no territory cell.
pub fn update_opponent_movement_pattern(
    board: &[Vec<char>],
    player_symbol: char,
    territory_symbol: char,
    pattern: &mut VecDeque<(usize, usize)>,
)
    ensures
        absent(board@, opp_terr(player_symbol)) ==> final(pattern)@ == old(pattern)@,
        !absent(board@, opp_terr(player_symbol)) ==> exists|y: usize, x: usize|
            first_with(board@, opp_terr(player_symbol), y as int, x as int) && final(pattern)@
                == pushed(old(pattern)@, (y, x)),
{
    let ghost b = board@;
    let ot = opponent_symbols(player_symbol).1;
    let mut y: usize = 0;
    while y < board.len()
        invariant
            b == board@,
            ot == opp_terr(player_symbol),
            pattern@ == old(pattern)@,
            0 <= y <= b.len(),
            forall|y2: int, x2: int|
                0 <= y2 < y && 0 <= x2 < b[y2]@.len() ==> #[trigger] b[y2]@[x2] != ot,
        decreases b.len() - y,
    {
        let row = &board[y];
        let mut x: usize = 0;
        while x < row.len()
            invariant
                b == board@,
                ot == opp_terr(player_symbol),
                pattern@ == old(pattern)@,
                0 <= y < b.len(),
                row@ == b[y as int]@,
                0 <= x <= row@.len(),
                forall|y2: int, x2: int|
                    0 <= y2 < b.len() && 0 <= x2 < b[y2]@.len() && before(y2, x2, y as int, x as int)
                        ==> #[trigger] b[y2]@[x2] != ot,
            decreases row@.len() - x,
        {
            if row[x] == ot {
                pattern.push_front((y, x));
                if pattern.len() > TRACK_LEN {
                    pattern.pop_back();
                }
                proof {
                    assert(b[y as int]@[x as int] == ot);
                    assert(!absent(b, ot));
                    assert(first_with(b, ot, y as int, x as int));
                    assert(pattern@ =~= pushed(old(pattern)@, (y, x)));
                }
                return;
            }
            x = x + 1;
        }
        y = y + 1;
    }
}

pub open spec fn step_sum_y(s: Seq<(usize, usize)>, n: int) -> int
    decreases n,
{
    if n <= 1 { 0 } else { step_sum_y(s, n - 1) + sign(s[n - 1].0 - s[n - 2].0) }
}

pub open spec fn step_sum_x(s: Seq<(usize, usize)>, n: int) -> int
    decreases n,
{
    if n <= 1 { 0 } else { step_sum_x(s, n - 1) + sign(s[n - 1].1 - s[n - 2].1) }
}

/// Integer division rounding toward zero.
pub open spec fn div_trunc(a: int, d: int) -> int {
    if a >= 0 { a / d } else { -((-a) / d) }
}

/// The mean sign of the successive displacements of the sample, truncated.
pub open spec fn direction_of(s: Seq<(usize, usize)>) -> (int, int) {
    if s.len() < 2 {
        (0, 0)
    } else {
        (
            div_trunc(step_sum_y(s, s.len() as int), s.len() - 1),
            div_trunc(step_sum_x(s, s.len() as int), s.len() - 1),
        )
    }
}

fn sign_step(a: usize, b: usize) -> (r: i128)
    ensures
        r == sign(b - a),
{
    if b > a { 1 } else if b < a { -1 } else { 0 }
}

fn mean_trunc(sum: i128, count: i128) -> (r: i32)
    requires
        0 < count,
        -count <= sum <= count,
    ensures
        r == div_trunc(sum as int, count as int),
        -1 <= r <= 1,
{
    if sum >= 0 {
        proof {
            vstd::arithmetic::div_mod::lemma_div_is_ordered(sum as int, count as int, count as int);
            vstd::arithmetic::div_mod::lemma_div_is_ordered(0, sum as int, count as int);
        }
        (sum / count) as i32
    } else {
        proof {
            vstd::arithmetic::div_mod::lemma_div_is_ordered(-sum as int, count as int, count as int);
            vstd::arithmetic::div_mod::lemma_div_is_ordered(0, -sum as int, count as int);
        }
        -(((-sum) / count) as i32)
    }
}

/// The opponent's estimated direction: for a sample of at least two cells,
/// the mean sign of successive displacements per axis, truncated toward zero;
/// `(0, 0)` otherwise.
pub fn predict_opponent_direction(pattern: &VecDeque<(usize, usize)>) -> (r: (i32, i32))
    ensures
        r.0 == direction_of(pattern@).0,
        r.1 == direction_of(pattern@).1,
        -1 <= r.0 <= 1,
        -1 <= r.1 <= 1,
{
    let ghost s = pattern@;
    let n = pattern.len();
    if n < 2 {
        return (0, 0);
    }
    let mut dy: i128 = 0;
    let mut dx: i128 = 0;
    let mut i: usize = 1;
    while i < n
        invariant
            s == pattern@,
            n == s.len(),
            1 <= i <= n,
            dy == step_sum_y(s, i as int),
            dx == step_sum_x(s, i as int),
            -(i - 1) <= dy <= i - 1,
            -(i - 1) <= dx <= i - 1,
        decreases n - i,
    {
        let (y1, x1) = pattern[i - 1];
        let (y2, x2) = pattern[i];
        dy = dy + sign_step(y1, y2);
        dx = dx + sign_step(x1, x2);
        i = i + 1;
    }
    let count = (n - 1) as i128;
    (mean_trunc(dy, count), mean_trunc(dx, count))
}


/// Every listed cell lies on the board.
pub open spec fn all_in_bounds(b: Seq<Vec<char>>, s: Seq<(usize, usize)>) -> bool {
    forall|k: int| 0 <= k < s.len() ==> (#[trigger] s[k]).0 < b.len() && s[k].1 < b[s[k].0 as int]@.len()
}

proof fn lemma_row_where_in_bounds(b: Seq<Vec<char>>, f: spec_fn(int, int) -> bool, y: int, n: int)
    requires
        0 <= y < b.len(),
        n <= b[y]@.len(),
        b.len() <= usize::MAX,
        b[y]@.len() <= usize::MAX,
    ensures
        all_in_bounds(b, row_where(b, f, y, n)),
        forall|k: int| 0 <= k < row_where(b, f, y, n).len() ==> (#[trigger] row_where(b, f, y, n)[k]).0 == y,
    decreases n,
{
    if n > 0 {
        lemma_row_where_in_bounds(b, f, y, n - 1);
    }
}

/// Every cell that `cells_where` lists lies on the board.
pub proof fn lemma_cells_where_in_bounds(b: Seq<Vec<char>>, f: spec_fn(int, int) -> bool)
    requires
        wf_board(b),
    ensures
        all_in_bounds(b, cells_where(b, f)),
{
    lemma_grid_where_in_bounds(b, f, b.len() as int);
}

proof fn lemma_grid_where_in_bounds(b: Seq<Vec<char>>, f: spec_fn(int, int) -> bool, n: int)
    requires
        wf_board(b),
        n <= b.len(),
    ensures
        all_in_bounds(b, grid_where(b, f, n)),
    decreases n,
{
    if n > 0 {
        lemma_grid_where_in_bounds(b, f, n - 1);
        assert(b[n - 1]@.len() == b[0]@.len());
        lemma_row_where_in_bounds(b, f, n - 1, b[n - 1]@.len() as int);
        let g = grid_where(b, f, n - 1);
        let r = row_where(b, f, n - 1, b[n - 1]@.len() as int);
        assert(grid_where(b, f, n) == g + r);
        assert forall|k: int| 0 <= k < (g + r).len() implies ((#[trigger] (g + r)[k]).0 < b.len() && (g
            + r)[k].1 < b[(g + r)[k].0 as int]@.len()) by {
            if k >= g.len() {
                assert((g + r)[k] == r[k - g.len()]);
            } else {
                assert((g + r)[k] == g[k]);
            }
        }
    }
}

proof fn lemma_row_disjoint(
    b: Seq<Vec<char>>,
    f: spec_fn(int, int) -> bool,
    g: spec_fn(int, int) -> bool,
    y: int,
    n: int,
)
    requires
        0 <= n,
        forall|x: int| 0 <= x < n ==> !(#[trigger] f(y, x) && g(y, x)),
    ensures
        row_where(b, f, y, n).len() + row_where(b, g, y, n).len() <= n,
    decreases n,
{
    if n > 0 {
        lemma_row_disjoint(b, f, g, y, n - 1);
    }
}

proof fn lemma_grid_disjoint(b: Seq<Vec<char>>, f: spec_fn(int, int) -> bool, g: spec_fn(int, int) -> bool, n: int)
    requires
        wf_board(b),
        0 <= n <= b.len(),
        forall|y: int, x: int| 0 <= y < b.len() && 0 <= x < b[0]@.len() ==> !(#[trigger] f(y, x) && g(y, x)),
    ensures
        grid_where(b, f, n).len() + grid_where(b, g, n).len() <= n * b[0]@.len(),
    decreases n,
{
    if n > 0 {
        lemma_grid_disjoint(b, f, g, n - 1);
        assert(b[n - 1]@.len() == b[0]@.len());
        lemma_row_disjoint(b, f, g, n - 1, b[0]@.len() as int);
        assert((n - 1) * b[0]@.len() + b[0]@.len() == n * b[0]@.len()) by (nonlinear_arith);
    }
}

/// Our cells and the opponent's together never outnumber the board's cells.
pub proof fn lemma_sides_fit(b: Seq<Vec<char>>, p: char, t: char)
    requires
        wf_board(b),
        valid_roles(p, t),
    ensures
        cells_where(b, holds_either(b, p, t)).len() + cells_where(
            b,
            holds_either(b, opp_anchor(p), opp_terr(p)),
        ).len() <= b.len() * b[0]@.len(),
{
    lemma_grid_disjoint(b, holds_either(b, p, t), holds_either(b, opp_anchor(p), opp_terr(p)), b.len() as int);
}

/// Percentage of the board that is claimed, rounded down.
pub open spec fn phase_of(our_size: int, opp_size: int, area: int) -> int {
    (100 * (our_size + opp_size)) / area
}

/// The game phase: the claimed share of the board as a percentage, rounded down.
pub fn game_phase(our_size: usize, opp_size: usize, area: usize) -> (r: usize)
    requires
        0 < area,
        our_size + opp_size <= area,
    ensures
        r == phase_of(our_size as int, opp_size as int, area as int),
        r <= 100,
{
    let claimed = our_size as u128 + opp_size as u128;
    proof {
        vstd::arithmetic::div_mod::lemma_div_is_ordered(100 * claimed as int, 100 * area as int, area as int);
        vstd::arithmetic::div_mod::lemma_div_multiples_vanish(100, area as int);
        vstd::arithmetic::div_mod::lemma_div_is_ordered(0, 100 * claimed as int, area as int);
        assert(100 * area as int == area as int * 100);
    }
    ((100 * claimed) / area as u128) as usize
}

/// Priority of a frontier cell of the side whose anchor is `side`: the cells
/// of the other side around it count ten times the empty ones.
pub open spec fn frontier_key(b: Seq<Vec<char>>, side: char, c: (usize, usize)) -> int {
    theirs4(b, side, c.0 as int, c.1 as int) * 10 + empty4(b, c.0 as int, c.1 as int)
}

/// The first `n` listed cells whose key is `k`, in list order.
pub open spec fn keyed(b: Seq<Vec<char>>, side: char, s: Seq<(usize, usize)>, k: int, n: int) -> Seq<
    (usize, usize),
>
    decreases n,
{
    if n <= 0 {
        seq![]
    } else {
        keyed(b, side, s, k, n - 1) + if frontier_key(b, side, s[n - 1]) == k {
            seq![s[n - 1]]
        } else {
            seq![]
        }
    }
}

/// The highest key a cell can have: four neighbours of the other side.
pub const MAX_KEY: usize = 44;

/// The listed cells with key at least `k`, highest key first and list order
/// kept among equal keys.
pub open spec fn ranked_from(b: Seq<Vec<char>>, side: char, s: Seq<(usize, usize)>, k: int) -> Seq<
    (usize, usize),
>
    decreases MAX_KEY + 1 - k,
{
    if k > MAX_KEY {
        seq![]
    } else {
        ranked_from(b, side, s, k + 1) + keyed(b, side, s, k, s.len() as int)
    }
}

/// Orders frontier cells of the side whose anchor is `side`: more
/// neighbours of the other side first, then more empty neighbours, list order
/// kept among equals.
pub fn order_frontier(board: &[Vec<char>], frontier: &Vec<(usize, usize)>, side: char) -> (r: Vec<(usize, usize)>)
    requires
        wf_board(board@),
        all_in_bounds(board@, frontier@),
    ensures
        r@ == ranked_from(board@, side, frontier@, 0),
{
    let ghost b = board@;
    let ghost s = frontier@;
    let mut out: Vec<(usize, usize)> = Vec::new();
    let mut level: usize = MAX_KEY + 1;
    while level > 0
        invariant
            wf_board(b),
            b == board@,
            s == frontier@,
            all_in_bounds(b, s),
            0 <= level <= MAX_KEY + 1,
            out@ == ranked_from(b, side, s, level as int),
        decreases level,
    {
        let k = level - 1;
        let mut i: usize = 0;
        while i < frontier.len()
            invariant
                wf_board(b),
                b == board@,
                s == frontier@,
                all_in_bounds(b, s),
                k < MAX_KEY + 1,
                0 <= i <= s.len(),
                out@ == ranked_from(b, side, s, k + 1) + keyed(b, side, s, k as int, i as int),
            decreases s.len() - i,
        {
            let c = frontier[i];
            assert(c.0 < b.len() && c.1 < b[c.0 as int]@.len());
            assert(b[c.0 as int]@.len() == b[0]@.len());
            let key = count_theirs4(board, side, c.0, c.1) * 10 + count_empty4(board, c.0, c.1);
            if key == k as i128 {
                out.push(c);
            }
            proof {
                assert(out@ =~= ranked_from(b, side, s, k + 1) + keyed(b, side, s, k as int, i + 1));
            }
            i = i + 1;
        }
        level = k;
    }
    out
}

/// The first `n` listed cells whose index is a multiple of three.
pub open spec fn every_third(s: Seq<(usize, usize)>, n: int) -> Seq<(usize, usize)>
    decreases n,
{
    if n <= 0 {
        seq![]
    } else {
        every_third(s, n - 1) + if (n - 1) % 3 == 0 {
            seq![s[n - 1]]
        } else {
            seq![]
        }
    }
}

/// Boards with more cells than this are searched more sparsely.
pub const LARGE_AREA: usize = 5000;

/// Frontier lists longer than this are thinned on large boards.
pub const SAMPLE_ABOVE: usize = 100;

/// The probed part of a frontier list.
pub open spec fn sampled(s: Seq<(usize, usize)>, area: int) -> Seq<(usize, usize)> {
    if area > LARGE_AREA && s.len() > SAMPLE_ABOVE {
        every_third(s, s.len() as int)
    } else {
        s
    }
}

/// On a large board a frontier list of more than a hundred cells keeps every
/// third cell; otherwise it is kept whole.
pub fn sample_frontier(cells: &Vec<(usize, usize)>, area: usize) -> (r: Vec<(usize, usize)>)
    ensures
        r@ == sampled(cells@, area as int),
{
    let thin = area > LARGE_AREA && cells.len() > SAMPLE_ABOVE;
    let ghost s = cells@;
    let mut out: Vec<(usize, usize)> = Vec::new();
    let mut i: usize = 0;
    while i < cells.len()
        invariant
            s == cells@,
            thin == (area > LARGE_AREA && s.len() > SAMPLE_ABOVE),
            0 <= i <= s.len(),
            out@ == if thin { every_third(s, i as int) } else { s.take(i as int) },
        decreases s.len() - i,
    {
        if !thin || i % 3 == 0 {
            out.push(cells[i]);
        }
        proof {
            if thin {
                assert(out@ =~= every_third(s, i + 1));
            } else {
                assert(out@ =~= s.take(i + 1));
            }
        }
        i = i + 1;
    }
    proof {
        assert(s.take(s.len() as int) =~= s);
    }
    out
}

} // verus!
