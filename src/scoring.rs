//! The move scorer: local geometry of a placement combined with turn-wide terms.
use vstd::prelude::*;
use crate::grid::{
    abs_diff, at, count_empty4, count_theirs4, empty4, empty_at, grid_distance, ind, is_ours, look,
    manhattan, opp_anchor, opponent_symbols, sign, theirs4, wf_board, EMPTY,
};
use crate::legality::{cover_ok, covered, legal};

verus! {

/// An eight-neighbour that does not break a seal: off the board, ours, or the opponent's anchor.
pub open spec fn seals(o: Option<char>, p: char, t: char) -> bool {
    match o {
        Some(c) => is_ours(c, p, t) || c == opp_anchor(p),
        None => true,
    }
}

/// Every eight-neighbour of `(y, x)` seals it.
pub open spec fn sealed(b: Seq<Vec<char>>, p: char, t: char, y: int, x: int) -> bool {
    &&& seals(at(b, y - 1, x - 1), p, t)
    &&& seals(at(b, y - 1, x), p, t)
    &&& seals(at(b, y - 1, x + 1), p, t)
    &&& seals(at(b, y, x - 1), p, t)
    &&& seals(at(b, y, x + 1), p, t)
    &&& seals(at(b, y + 1, x - 1), p, t)
    &&& seals(at(b, y + 1, x), p, t)
    &&& seals(at(b, y + 1, x + 1), p, t)
}

/// An empty cell whose every eight-neighbour seals it.
pub open spec fn pocket(b: Seq<Vec<char>>, p: char, t: char, y: int, x: int) -> bool {
    empty_at(b, y, x) && sealed(b, p, t, y, x)
}

/// Pockets among the four neighbours of `(y, x)`.
pub open spec fn pockets4(b: Seq<Vec<char>>, p: char, t: char, y: int, x: int) -> int {
    ind(pocket(b, p, t, y - 1, x)) + ind(pocket(b, p, t, y + 1, x)) + ind(pocket(b, p, t, y, x - 1))
        + ind(pocket(b, p, t, y, x + 1))
}

/// How many of the first `n` listed cells lie within Manhattan distance `d` of `(y, x)`.
pub open spec fn near_count(cells: Seq<(usize, usize)>, y: int, x: int, d: int, n: int) -> int
    decreases n,
{
    if n <= 0 {
        0
    } else {
        let c = cells[n - 1];
        near_count(cells, y, x, d, n - 1) + ind(
            abs_diff(y, c.0 as int) + abs_diff(x, c.1 as int) <= d,
        )
    }
}

/// The turn-wide inputs of the scorer.
#[derive(Clone, Copy)]
pub struct ScoreContext {
    /// Percentage of the board that is claimed.
    pub phase: usize,
    pub opponent_center: (usize, usize),
    pub our_center: (usize, usize),
    /// Estimated opponent direction, each component in `{-1, 0, 1}`.
    pub opponent_direction: (i32, i32),
}

/// Directional bonus of a newly claimed cell at `(y, x)`.
pub open spec fn alignment(ctx: ScoreContext, y: int, x: int) -> int {
    let my = sign(y - ctx.our_center.0);
    let mx = sign(x - ctx.our_center.1);
    let d = ctx.opponent_direction;
    if ctx.phase < 50 {
        if (my == d.0 && mx == d.1) || (my == -d.0 && mx == -d.1) {
            2
        } else {
            0
        }
    } else {
        1
    }
}

/// Running totals over the covered cells of one placement.
pub struct Tally {
    pub new_territory: int,
    pub blocks: int,
    pub enclosure: int,
    pub growth: int,
    pub direction: int,
    /// Some newly claimed cell has two or more opponent neighbours; the
    /// placement then cuts the opponent's path and counts as adjacent to it.
    pub cuts: bool,
    pub adjacent: bool,
    /// Covered cells with at least two of our cells within distance 3.
    pub linked: int,
    /// Some covered cell has one of our cells within distance 5.
    pub close: bool,
}

pub open spec fn empty_tally() -> Tally {
    Tally {
        new_territory: 0,
        blocks: 0,
        enclosure: 0,
        growth: 0,
        direction: 0,
        cuts: false,
        adjacent: false,
        linked: 0,
        close: false,
    }
}

/// Adds the covered cell `(y, x)` to the totals.
pub open spec fn tally_cell(
    tl: Tally,
    b: Seq<Vec<char>>,
    p: char,
    t: char,
    ours: Seq<(usize, usize)>,
    ctx: ScoreContext,
    y: int,
    x: int,
) -> Tally {
    let linked = tl.linked + ind(near_count(ours, y, x, 3, ours.len() as int) >= 2);
    let close = tl.close || near_count(ours, y, x, 5, ours.len() as int) >= 1;
    if empty_at(b, y, x) {
        let o = theirs4(b, p, y, x);
        Tally {
            new_territory: tl.new_territory + 1,
            blocks: tl.blocks + o,
            enclosure: tl.enclosure + pockets4(b, p, t, y, x),
            growth: tl.growth + empty4(b, y, x),
            direction: tl.direction + alignment(ctx, y, x),
            cuts: tl.cuts || o >= 2,
            adjacent: tl.adjacent || o >= 2,
            linked,
            close,
        }
    } else {
        Tally { linked, close, ..tl }
    }
}

/// Totals over the first `n` covered cells of the piece laid at `(y, x)`.
pub open spec fn tally(
    b: Seq<Vec<char>>,
    piece: Seq<(usize, usize)>,
    y: int,
    x: int,
    p: char,
    t: char,
    ours: Seq<(usize, usize)>,
    ctx: ScoreContext,
    n: int,
) -> Tally
    decreases n,
{
    if n <= 0 {
        empty_tally()
    } else {
        let c = covered(piece, y, x, n - 1);
        tally_cell(tally(b, piece, y, x, p, t, ours, ctx, n - 1), b, p, t, ours, ctx, c.0, c.1)
    }
}

pub open spec fn territory_weight(phase: int) -> int {
    if phase < 30 { 80 } else if phase < 70 { 120 } else { 150 }
}

pub open spec fn blocking_weight(phase: int) -> int {
    if phase < 30 { 200 } else if phase < 70 { 150 } else { 80 }
}

pub open spec fn enclosure_weight(phase: int) -> int {
    if phase < 30 { 50 } else if phase < 70 { 100 } else { 200 }
}

/// The weighted counters of a placement.
pub open spec fn weighted(tl: Tally, phase: int) -> int {
    tl.new_territory * territory_weight(phase) + tl.blocks * blocking_weight(phase) + tl.enclosure
        * enclosure_weight(phase) + tl.growth * 30 + tl.direction * 50
}

/// The pull towards the opponent's centroid and towards ours.
pub open spec fn distance_terms(d_opp: int, d_us: int) -> int {
    (100 - d_opp) * 5 + (50 - d_us) * 2
}

/// The flat bonuses and penalty of a placement.
pub open spec fn flag_terms(tl: Tally, our_size: int, aggressive: bool) -> int {
    let connects = our_size >= 5 && tl.linked >= 2;
    (if tl.cuts { 500int } else { 0 }) + (if tl.adjacent { 200int } else { 0 }) + (if connects {
        300int
    } else {
        0
    }) + (if !tl.close { -500int } else { 0 }) + (if aggressive && tl.adjacent {
        300int
    } else {
        0
    })
}

/// The early-aggression term, which depends on the phase band.
pub open spec fn band_term(tl: Tally, phase: int, d_opp: int) -> int {
    if phase < 10 {
        (15 - d_opp) * 80
    } else if phase < 30 {
        if tl.adjacent { 400 } else { 0 }
    } else {
        tl.new_territory * 150
    }
}

/// The score of a placement from its totals, its distances to the two
/// centroids, the number of our cells, and whether it came from an
/// opponent-centred candidate tier.
pub open spec fn compose(
    tl: Tally,
    phase: int,
    d_opp: int,
    d_us: int,
    our_size: int,
    aggressive: bool,
) -> int {
    weighted(tl, phase) + distance_terms(d_opp, d_us) + flag_terms(tl, our_size, aggressive)
        + band_term(tl, phase, d_opp)
}

/// The score of the piece laid at `(y, x)`.
pub open spec fn placement_score(
    b: Seq<Vec<char>>,
    piece: Seq<(usize, usize)>,
    y: usize,
    x: usize,
    p: char,
    t: char,
    ours: Seq<(usize, usize)>,
    ctx: ScoreContext,
    aggressive: bool,
) -> int {
    compose(
        tally(b, piece, y as int, x as int, p, t, ours, ctx, piece.len() as int),
        ctx.phase as int,
        manhattan((y, x), ctx.opponent_center),
        manhattan((y, x), ctx.our_center),
        ours.len() as int,
        aggressive,
    )
}

fn seals_exec(o: Option<char>, p: char, t: char) -> (r: bool)
    ensures
        r == seals(o, p, t),
{
    match o {
        Some(c) => c == p || c == t || c == opponent_symbols(p).0,
        None => true,
    }
}

fn is_sealed(board: &[Vec<char>], p: char, t: char, y: usize, x: usize) -> (r: bool)
    requires
        wf_board(board@),
        y < board@.len(),
        x < board@[0]@.len(),
    ensures
        r == sealed(board@, p, t, y as int, x as int),
{
    seals_exec(look(board, y, x, -1, -1), p, t) && seals_exec(look(board, y, x, -1, 0), p, t)
        && seals_exec(look(board, y, x, -1, 1), p, t) && seals_exec(look(board, y, x, 0, -1), p, t)
        && seals_exec(look(board, y, x, 0, 1), p, t) && seals_exec(look(board, y, x, 1, -1), p, t)
        && seals_exec(look(board, y, x, 1, 0), p, t) && seals_exec(look(board, y, x, 1, 1), p, t)
}

/// Whether the neighbour `(y + dy, x + dx)` is a pocket.
fn pocket_next(board: &[Vec<char>], p: char, t: char, y: usize, x: usize, dy: i8, dx: i8) -> (r:
    bool)
    requires
        wf_board(board@),
        y < board@.len(),
        x < board@[0]@.len(),
        -1 <= dy <= 1,
        -1 <= dx <= 1,
    ensures
        r == pocket(board@, p, t, y + dy, x + dx),
{
    if look(board, y, x, dy, dx) != Some(EMPTY) {
        return false;
    }
    let ny: usize = if dy < 0 { y - 1 } else if dy > 0 { y + 1 } else { y };
    let nx: usize = if dx < 0 { x - 1 } else if dx > 0 { x + 1 } else { x };
    is_sealed(board, p, t, ny, nx)
}

fn count_pockets4(board: &[Vec<char>], p: char, t: char, y: usize, x: usize) -> (r: i128)
    requires
        wf_board(board@),
        y < board@.len(),
        x < board@[0]@.len(),
    ensures
        r == pockets4(board@, p, t, y as int, x as int),
{
    let mut n: i128 = 0;
    if pocket_next(board, p, t, y, x, -1, 0) {
        n = n + 1;
    }
    if pocket_next(board, p, t, y, x, 1, 0) {
        n = n + 1;
    }
    if pocket_next(board, p, t, y, x, 0, -1) {
        n = n + 1;
    }
    if pocket_next(board, p, t, y, x, 0, 1) {
        n = n + 1;
    }
    n
}

/// Counts the listed cells within Manhattan distance `d` of `(y, x)`.
fn count_near(cells: &[(usize, usize)], y: usize, x: usize, d: u128) -> (r: usize)
    ensures
        r == near_count(cells@, y as int, x as int, d as int, cells@.len() as int),
{
    let mut n: usize = 0;
    let mut j: usize = 0;
    while j < cells.len()
        invariant
            0 <= j <= cells@.len(),
            n == near_count(cells@, y as int, x as int, d as int, j as int),
            n <= j,
        decreases cells@.len() - j,
    {
        if grid_distance((y, x), cells[j]) <= d {
            n = n + 1;
        }
        j = j + 1;
    }
    n
}

fn alignment_exec(ctx: ScoreContext, y: usize, x: usize) -> (r: i128)
    ensures
        r == alignment(ctx, y as int, x as int),
{
    if ctx.phase >= 50 {
        return 1;
    }
    let my: i64 = if y > ctx.our_center.0 { 1 } else if y < ctx.our_center.0 { -1 } else { 0 };
    let mx: i64 = if x > ctx.our_center.1 { 1 } else if x < ctx.our_center.1 { -1 } else { 0 };
    let dy = ctx.opponent_direction.0 as i64;
    let dx = ctx.opponent_direction.1 as i64;
    if (my == dy && mx == dx) || (my == -dy && mx == -dx) {
        2
    } else {
        0
    }
}

/// Running totals of the scorer, as machine integers.
pub struct Counts {
    pub new_territory: i128,
    pub blocks: i128,
    pub enclosure: i128,
    pub growth: i128,
    pub direction: i128,
    pub cuts: bool,
    pub adjacent: bool,
    pub linked: i128,
    pub close: bool,
}

impl View for Counts {
    type V = Tally;

    open spec fn view(&self) -> Tally {
        Tally {
            new_territory: self.new_territory as int,
            blocks: self.blocks as int,
            enclosure: self.enclosure as int,
            growth: self.growth as int,
            direction: self.direction as int,
            cuts: self.cuts,
            adjacent: self.adjacent,
            linked: self.linked as int,
            close: self.close,
        }
    }
}

/// The totals after `n` covered cells stay within what `n` cells can add.
pub open spec fn tally_bounded(tl: Tally, n: int) -> bool {
    &&& 0 <= tl.new_territory <= n
    &&& 0 <= tl.blocks <= 4 * n
    &&& 0 <= tl.enclosure <= 4 * n
    &&& 0 <= tl.growth <= 4 * n
    &&& 0 <= tl.direction <= 2 * n
    &&& 0 <= tl.linked <= n
}

fn add_cell(
    c: &mut Counts,
    board: &[Vec<char>],
    p: char,
    t: char,
    our_territory: &[(usize, usize)],
    ctx: ScoreContext,
    y: usize,
    x: usize,
    Ghost(n): Ghost<int>,
)
    requires
        wf_board(board@),
        y < board@.len(),
        x < board@[0]@.len(),
        0 <= n < usize::MAX,
        tally_bounded(old(c)@, n),
    ensures
        final(c)@ == tally_cell(old(c)@, board@, p, t, our_territory@, ctx, y as int, x as int),
        tally_bounded(final(c)@, n + 1),
{
    assert(board@[y as int]@.len() == board@[0]@.len());
    if count_near(our_territory, y, x, 3) >= 2 {
        c.linked = c.linked + 1;
    }
    if count_near(our_territory, y, x, 5) >= 1 {
        c.close = true;
    }
    if board[y][x] == EMPTY {
        c.new_territory = c.new_territory + 1;
        let o = count_theirs4(board, p, y, x);
        c.blocks = c.blocks + o;
        if o >= 2 {
            c.cuts = true;
            c.adjacent = true;
        }
        c.enclosure = c.enclosure + count_pockets4(board, p, t, y, x);
        c.growth = c.growth + count_empty4(board, y, x);
        c.direction = c.direction + alignment_exec(ctx, y, x);
    }
}

fn weighted_exec(c: &Counts, phase: usize) -> (r: i128)
    requires
        tally_bounded(c@, usize::MAX as int),
    ensures
        r == weighted(c@, phase as int),
        0 <= r <= 2000 * usize::MAX,
{
    let (wt, wb, we): (i128, i128, i128) = if phase < 30 {
        (80, 200, 50)
    } else if phase < 70 {
        (120, 150, 100)
    } else {
        (150, 80, 200)
    };
    let ghost m = usize::MAX as int;
    assert(0 <= c.new_territory * wt <= 150 * m) by (nonlinear_arith)
        requires
            0 <= c.new_territory <= m,
            0 <= wt <= 150,
    ;
    assert(0 <= c.blocks * wb <= 800 * m) by (nonlinear_arith)
        requires
            0 <= c.blocks <= 4 * m,
            0 <= wb <= 200,
    ;
    assert(0 <= c.enclosure * we <= 800 * m) by (nonlinear_arith)
        requires
            0 <= c.enclosure <= 4 * m,
            0 <= we <= 200,
    ;
    c.new_territory * wt + c.blocks * wb + c.enclosure * we + c.growth * 30 + c.direction * 50
}

fn flag_exec(c: &Counts, our_size: usize, aggressive: bool) -> (r: i128)
    ensures
        r == flag_terms(c@, our_size as int, aggressive),
        -500 <= r <= 1300,
{
    let mut r: i128 = 0;
    if c.cuts {
        r = r + 500;
    }
    if c.adjacent {
        r = r + 200;
    }
    if our_size >= 5 && c.linked >= 2 {
        r = r + 300;
    }
    if !c.close {
        r = r - 500;
    }
    if aggressive && c.adjacent {
        r = r + 300;
    }
    r
}

fn band_exec(c: &Counts, phase: usize, d_opp: u128) -> (r: i128)
    requires
        tally_bounded(c@, usize::MAX as int),
        d_opp <= 2 * usize::MAX,
    ensures
        r == band_term(c@, phase as int, d_opp as int),
        -160 * usize::MAX <= r <= 150 * usize::MAX + 1200,
{
    if phase < 10 {
        (15 - d_opp as i128) * 80
    } else if phase < 30 {
        if c.adjacent { 400 } else { 0 }
    } else {
        c.new_territory * 150
    }
}

fn compose_exec(c: &Counts, phase: usize, d_opp: u128, d_us: u128, our_size: usize, aggressive: bool) -> (r: i128)
    requires
        tally_bounded(c@, usize::MAX as int),
        d_opp <= 2 * usize::MAX,
        d_us <= 2 * usize::MAX,
    ensures
        r == compose(c@, phase as int, d_opp as int, d_us as int, our_size as int, aggressive),
        -SCORE_LIMIT <= r <= SCORE_LIMIT,
{
    let w = weighted_exec(c, phase);
    let d = (100 - d_opp as i128) * 5 + (50 - d_us as i128) * 2;
    let f = flag_exec(c, our_size, aggressive);
    let b = band_exec(c, phase, d_opp);
    w + d + f + b
}

/// Scores the legal placement of the piece at `(y, x)`; larger is better.
/// `our_territory` lists our cells, and `aggressive` marks a candidate that
/// came from an opponent-centred tier.
pub fn evaluate_move_score(
    board: &[Vec<char>],
    piece_cells: &[(usize, usize)],
    y: usize,
    x: usize,
    player_symbol: char,
    territory_symbol: char,
    our_territory: &[(usize, usize)],
    ctx: ScoreContext,
    aggressive: bool,
) -> (r: i128)
    requires
        wf_board(board@),
        legal(board@, piece_cells@, y as int, x as int, player_symbol, territory_symbol),
    ensures
        r == placement_score(
            board@,
            piece_cells@,
            y,
            x,
            player_symbol,
            territory_symbol,
            our_territory@,
            ctx,
            aggressive,
        ),
        -SCORE_LIMIT <= r <= SCORE_LIMIT,
{
    let ghost b = board@;
    let ghost pc = piece_cells@;
    let ghost ours = our_territory@;
    let p = player_symbol;
    let t = territory_symbol;
    let mut c = Counts {
        new_territory: 0,
        blocks: 0,
        enclosure: 0,
        growth: 0,
        direction: 0,
        cuts: false,
        adjacent: false,
        linked: 0,
        close: false,
    };
    let mut i: usize = 0;
    while i < piece_cells.len()
        invariant
            wf_board(b),
            b == board@,
            pc == piece_cells@,
            ours == our_territory@,
            legal(b, pc, y as int, x as int, p, t),
            0 <= i <= pc.len(),
            c@ == tally(b, pc, y as int, x as int, p, t, ours, ctx, i as int),
            tally_bounded(c@, i as int),
        decreases pc.len() - i,
    {
        let (py, px) = piece_cells[i];
        assert(cover_ok(b, pc, y as int, x as int, p, t, i as int));
        let cy = y + py;
        let cx = x + px;
        add_cell(&mut c, board, p, t, our_territory, ctx, cy, cx, Ghost(i as int));
        i = i + 1;
    }
    let d_opp = grid_distance((y, x), ctx.opponent_center);
    let d_us = grid_distance((y, x), ctx.our_center);
    compose_exec(&c, ctx.phase, d_opp, d_us, our_territory.len(), aggressive)
}

/// Bound on any score that `evaluate_move_score` returns, in absolute value.
pub const SCORE_LIMIT: i128 = 0x1_0000_0000_0000_0000_0000;

} // verus!
