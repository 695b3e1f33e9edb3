//! The move selector: tiered candidates, argmax over legal ones, and a
//! fallback sweep.
use vstd::prelude::*;
use std::collections::VecDeque;
use crate::board::{
    before, calculate_territory_center, cells_where, centroid, collect_opponent_territory,
    collect_territory_cells, direction_of, frontier_cell, game_phase, get_territory_metrics, holds_either,
    lemma_cells_where_in_bounds, lemma_sides_fit, phase_of, predict_opponent_direction,
    ranked_from, sample_frontier, sampled, LARGE_AREA,
};
use crate::candidates::{
    Probe,
    expansion_seeds, flood_seeds, probe_all, probe_seeds, radius_for, search_radius, sign_of_step,
    Candidate,
};
use crate::grid::{opp_anchor, opp_terr, opponent_symbols, sign, valid_roles, wf_board};
use crate::legality::{is_valid_placement, legal, lemma_legal_on_board};
use crate::scoring::{evaluate_move_score, placement_score, ScoreContext, SCORE_LIMIT};

verus! {

/// The score of a candidate: its placement's score plus its tier's bonus.
pub open spec fn cand_score(
    b: Seq<Vec<char>>,
    piece: Seq<(usize, usize)>,
    p: char,
    t: char,
    ours: Seq<(usize, usize)>,
    ctx: ScoreContext,
    c: Candidate,
) -> int {
    placement_score(b, piece, c.y, c.x, p, t, ours, ctx, c.tier <= 2) + c.bonus
}

/// The best legal candidate among the first `n`, starting from `init`: a
/// candidate replaces the current best only with a strictly higher score, so
/// the earliest of equal scores wins.
pub open spec fn best_of(
    b: Seq<Vec<char>>,
    piece: Seq<(usize, usize)>,
    p: char,
    t: char,
    ours: Seq<(usize, usize)>,
    ctx: ScoreContext,
    cs: Seq<Candidate>,
    n: int,
    init: Option<(usize, usize, int)>,
) -> Option<(usize, usize, int)>
    decreases n,
{
    if n <= 0 {
        init
    } else {
        let prev = best_of(b, piece, p, t, ours, ctx, cs, n - 1, init);
        let c = cs[n - 1];
        let s = cand_score(b, piece, p, t, ours, ctx, c);
        let beats = match prev {
            Some(v) => s > v.2,
            None => true,
        };
        if legal(b, piece, c.y as int, c.x as int, p, t) && beats {
            Some((c.y, c.x, s))
        } else {
            prev
        }
    }
}

pub open spec fn best_view(o: Option<(usize, usize, i128)>) -> Option<(usize, usize, int)> {
    match o {
        Some(v) => Some((v.0, v.1, v.2 as int)),
        None => None,
    }
}

/// The best so far is absent or a legal placement with a bounded score.
pub open spec fn best_ok(
    b: Seq<Vec<char>>,
    piece: Seq<(usize, usize)>,
    p: char,
    t: char,
    o: Option<(usize, usize, i128)>,
) -> bool {
    match o {
        Some(v) => legal(b, piece, v.0 as int, v.1 as int, p, t) && -SCORE_LIMIT - 500 <= v.2
            <= SCORE_LIMIT + 500,
        None => true,
    }
}

/// Scores each legal candidate in order and keeps the best, starting from `init`.
pub fn select_best(
    board: &[Vec<char>],
    piece_cells: &[(usize, usize)],
    player_symbol: char,
    territory_symbol: char,
    our_territory: &[(usize, usize)],
    ctx: ScoreContext,
    cands: &Vec<Candidate>,
    init: Option<(usize, usize, i128)>,
) -> (r: Option<(usize, usize, i128)>)
    requires
        wf_board(board@),
        forall|k: int| 0 <= k < cands@.len() ==> 0 <= (#[trigger] cands@[k]).bonus <= 500,
        best_ok(board@, piece_cells@, player_symbol, territory_symbol, init),
    ensures
        best_view(r) == best_of(
            board@,
            piece_cells@,
            player_symbol,
            territory_symbol,
            our_territory@,
            ctx,
            cands@,
            cands@.len() as int,
            best_view(init),
        ),
        best_ok(board@, piece_cells@, player_symbol, territory_symbol, r),
{
    let mut best = init;
    let mut i: usize = 0;
    while i < cands.len()
        invariant
            wf_board(board@),
            forall|k: int| 0 <= k < cands@.len() ==> 0 <= (#[trigger] cands@[k]).bonus <= 500,
            0 <= i <= cands@.len(),
            best_ok(board@, piece_cells@, player_symbol, territory_symbol, best),
            best_view(best) == best_of(
                board@,
                piece_cells@,
                player_symbol,
                territory_symbol,
                our_territory@,
                ctx,
                cands@,
                i as int,
                best_view(init),
            ),
        decreases cands@.len() - i,
    {
        let c = cands[i];
        if is_valid_placement(board, piece_cells, c.y, c.x, player_symbol, territory_symbol) {
            let s = evaluate_move_score(
                board,
                piece_cells,
                c.y,
                c.x,
                player_symbol,
                territory_symbol,
                our_territory,
                ctx,
                c.tier <= 2,
            ) + c.bonus;
            let better = match best {
                Some(v) => s > v.2,
                None => true,
            };
            if better {
                best = Some((c.y, c.x, s));
            }
        }
        i = i + 1;
    }
    best
}

proof fn lemma_next_stride(a: int, a2: int, step: int)
    requires
        1 <= step <= 2,
        a % step == 0,
        a2 % step == 0,
        a < a2,
    ensures
        a2 >= a + step,
{
    if step == 2 {
        assert(a2 >= a + 2);
    }
}

proof fn lemma_stride_step(a: int, step: int)
    requires
        1 <= step <= 2,
        a % step == 0,
    ensures
        (a + step) % step == 0,
{
    if step == 2 {
        assert((a + 2) % 2 == 0);
    }
}

/// `(y, x)` is a cell of the sweep with stride `step`.
pub open spec fn on_stride(b: Seq<Vec<char>>, step: int, y: int, x: int) -> bool {
    0 <= y < b.len() && 0 <= x < b[0]@.len() && y % step == 0 && x % step == 0
}

/// `(y, x)` is the first legal anchor of the sweep with stride `step`.
pub open spec fn sweep_first(
    b: Seq<Vec<char>>,
    piece: Seq<(usize, usize)>,
    p: char,
    t: char,
    step: int,
    y: int,
    x: int,
) -> bool {
    &&& on_stride(b, step, y, x)
    &&& legal(b, piece, y, x, p, t)
    &&& forall|y2: int, x2: int|
        on_stride(b, step, y2, x2) && before(y2, x2, y, x) ==> !legal(b, piece, y2, x2, p, t)
}

/// The first legal anchor, in row-major order, of the sweep with stride `step`.
pub open spec fn first_on_stride(
    b: Seq<Vec<char>>,
    piece: Seq<(usize, usize)>,
    p: char,
    t: char,
    step: int,
) -> Option<(usize, usize)> {
    if exists|y: int, x: int| sweep_first(b, piece, p, t, step, y, x) {
        let c = choose|y: int, x: int| sweep_first(b, piece, p, t, step, y, x);
        Some((c.0 as usize, c.1 as usize))
    } else {
        None
    }
}

proof fn lemma_sweep_first_unique(
    b: Seq<Vec<char>>,
    piece: Seq<(usize, usize)>,
    p: char,
    t: char,
    step: int,
    y: int,
    x: int,
    y2: int,
    x2: int,
)
    requires
        sweep_first(b, piece, p, t, step, y, x),
        sweep_first(b, piece, p, t, step, y2, x2),
    ensures
        y == y2 && x == x2,
{
    if before(y2, x2, y, x) {
        assert(!legal(b, piece, y2, x2, p, t));
    } else if before(y, x, y2, x2) {
        assert(!legal(b, piece, y, x, p, t));
    }
}

/// Returns the first legal anchor, in row-major order, among the cells whose
/// coordinates are both multiples of `step`.
pub fn fallback_sweep(
    board: &[Vec<char>],
    piece_cells: &[(usize, usize)],
    player_symbol: char,
    territory_symbol: char,
    step: usize,
) -> (r: Option<(usize, usize)>)
    requires
        wf_board(board@),
        1 <= step <= 2,
    ensures
        match r {
            Some((y, x)) => {
                &&& on_stride(board@, step as int, y as int, x as int)
                &&& legal(board@, piece_cells@, y as int, x as int, player_symbol, territory_symbol)
                &&& forall|y2: int, x2: int|
                    on_stride(board@, step as int, y2, x2) && before(y2, x2, y as int, x as int) ==> !legal(
                        board@,
                        piece_cells@,
                        y2,
                        x2,
                        player_symbol,
                        territory_symbol,
                    )
            },
            None => forall|y2: int, x2: int|
                on_stride(board@, step as int, y2, x2) ==> !legal(
                    board@,
                    piece_cells@,
                    y2,
                    x2,
                    player_symbol,
                    territory_symbol,
                ),
        },
        r == first_on_stride(board@, piece_cells@, player_symbol, territory_symbol, step as int),
{
    let ghost b = board@;
    let ghost pc = piece_cells@;
    let h = board.len();
    let w = board[0].len();
    let mut y: usize = 0;
    while y < h
        invariant
            wf_board(b),
            b == board@,
            pc == piece_cells@,
            1 <= step <= 2,
            h == b.len(),
            w == b[0]@.len(),
            y <= h,
            y < h ==> y % step == 0,
            forall|y2: int, x2: int|
                on_stride(b, step as int, y2, x2) && y2 < y ==> !legal(b, pc, y2, x2, player_symbol, territory_symbol),
        decreases h - y,
    {
        let mut x: usize = 0;
        while x < w
            invariant
                wf_board(b),
                b == board@,
                pc == piece_cells@,
                1 <= step <= 2,
                h == b.len(),
                w == b[0]@.len(),
                y < h,
                y % step == 0,
                x <= w,
                x < w ==> x % step == 0,
                forall|y2: int, x2: int|
                    on_stride(b, step as int, y2, x2) && y2 < y ==> !legal(b, pc, y2, x2, player_symbol, territory_symbol),
                forall|x2: int|
                    on_stride(b, step as int, y as int, x2) && x2 < x ==> !legal(
                        b,
                        pc,
                        y as int,
                        x2,
                        player_symbol,
                        territory_symbol,
                    ),
            decreases w - x,
        {
            if is_valid_placement(board, piece_cells, y, x, player_symbol, territory_symbol) {
                proof {
                    let st = step as int;
                    assert(sweep_first(b, pc, player_symbol, territory_symbol, st, y as int, x as int));
                    let c = choose|y1: int, x1: int| sweep_first(b, pc, player_symbol, territory_symbol, st, y1, x1);
                    lemma_sweep_first_unique(b, pc, player_symbol, territory_symbol, st, y as int, x as int, c.0, c.1);
                }
                return Some((y, x));
            }
            let ghost x0 = x as int;
            if w - x <= step {
                x = w;
            } else {
                x = x + step;
            }
            proof {
                assert forall|x2: int| on_stride(b, step as int, y as int, x2) && x2 < x implies !legal(
                    b,
                    pc,
                    y as int,
                    x2,
                    player_symbol,
                    territory_symbol,
                ) by {
                    if x2 > x0 {
                        lemma_next_stride(x0, x2, step as int);
                    }
                }
                if x < w {
                    lemma_stride_step(x0, step as int);
                }
            }
        }
        let ghost y0 = y as int;
        if h - y <= step {
            y = h;
        } else {
            y = y + step;
        }
        proof {
            assert forall|y2: int, x2: int| on_stride(b, step as int, y2, x2) && y2 < y implies !legal(
                b,
                pc,
                y2,
                x2,
                player_symbol,
                territory_symbol,
            ) by {
                if y2 > y0 {
                    lemma_next_stride(y0, y2, step as int);
                }
            }
            if y < h {
                lemma_stride_step(y0, step as int);
            }
        }
    }
    proof {
        assert(!exists|y1: int, x1: int| sweep_first(b, pc, player_symbol, territory_symbol, step as int, y1, x1));
    }
    None
}

/// Below this best score our own frontier is probed as well.
pub const STRONG_SCORE: i128 = 1000;

/// Before this phase our own frontier is always probed.
pub const EARLY_PHASE: usize = 50;

/// The scoring context of a turn: phase, both centroids and the opponent's direction.
pub open spec fn turn_context(b: Seq<Vec<char>>, p: char, t: char, pattern: Seq<(usize, usize)>) -> ScoreContext {
    let our = cells_where(b, holds_either(b, p, t));
    let opp = cells_where(b, holds_either(b, opp_anchor(p), opp_terr(p)));
    let d = direction_of(pattern);
    ScoreContext {
        phase: phase_of(our.len() as int, opp.len() as int, (b.len() as int) * b[0]@.len() as int) as usize,
        opponent_center: centroid(opp),
        our_center: centroid(our),
        opponent_direction: (d.0 as i32, d.1 as i32),
    }
}

/// The signs of the vector from our centroid to the opponent's.
pub open spec fn toward_of(ctx: ScoreContext) -> (int, int) {
    (sign(ctx.opponent_center.0 - ctx.our_center.0), sign(ctx.opponent_center.1 - ctx.our_center.1))
}

/// The candidates of the two opponent-centred tiers, around the expansion
/// seeds and then around the sampled opponent frontier, with the marks left
/// after probing them.
pub open spec fn opponent_tiers(
    b: Seq<Vec<char>>,
    p: char,
    t: char,
    pattern: Seq<(usize, usize)>,
) -> Probe {
    let oa = opp_anchor(p);
    let ot = opp_terr(p);
    let h = b.len() as int;
    let w = b[0]@.len() as int;
    let area = h * w;
    let opp = cells_where(b, holds_either(b, oa, ot));
    let ctx = turn_context(b, p, t, pattern);
    let radius = radius_for(ctx.phase as int, area);
    let opp_ranked = sampled(ranked_from(b, oa, cells_where(b, frontier_cell(b, oa, ot)), 0), area);
    let seeds = flood_seeds(b, opp);
    let marks = Seq::new(area as nat, |i: int| false);
    let st1 = probe_seeds(h, w, seeds, seeds.len() as int, radius, 1, toward_of(ctx), (marks, seq![]));
    probe_seeds(h, w, opp_ranked, opp_ranked.len() as int, radius, 2, toward_of(ctx), st1)
}

/// The candidates of the tier around our sampled frontier, probed after the
/// opponent-centred tiers.
pub open spec fn own_tier(b: Seq<Vec<char>>, p: char, t: char, pattern: Seq<(usize, usize)>) -> Seq<Candidate> {
    let h = b.len() as int;
    let w = b[0]@.len() as int;
    let area = h * w;
    let ctx = turn_context(b, p, t, pattern);
    let radius = radius_for(ctx.phase as int, area);
    let our_ranked = sampled(ranked_from(b, p, cells_where(b, frontier_cell(b, p, t)), 0), area);
    probe_seeds(
        h,
        w,
        our_ranked,
        our_ranked.len() as int,
        radius,
        3,
        toward_of(ctx),
        (opponent_tiers(b, p, t, pattern).0, seq![]),
    ).1
}

/// The stride of the fallback sweep: every other row and column on a large board.
pub open spec fn sweep_step(b: Seq<Vec<char>>) -> int {
    if b.len() * b[0]@.len() > LARGE_AREA { 2 } else { 1 }
}

/// The move the selector makes: the tiered candidates are probed and the best
/// legal one kept (our frontier only while no strong move is found or early in
/// the game), and the sweep's first legal anchor is the fallback.
pub open spec fn best_move(
    b: Seq<Vec<char>>,
    piece: Seq<(usize, usize)>,
    p: char,
    t: char,
    pattern: Seq<(usize, usize)>,
) -> Option<(usize, usize)> {
    let our = cells_where(b, holds_either(b, p, t));
    let ctx = turn_context(b, p, t, pattern);
    let cs = opponent_tiers(b, p, t, pattern).1;
    let first = best_of(b, piece, p, t, our, ctx, cs, cs.len() as int, None);
    let strong = match first {
        Some(v) => v.2 >= STRONG_SCORE,
        None => false,
    };
    let best = if !strong || ctx.phase < EARLY_PHASE {
        let own = own_tier(b, p, t, pattern);
        best_of(b, piece, p, t, our, ctx, own, own.len() as int, first)
    } else {
        first
    };
    match best {
        Some(v) => Some((v.0, v.1)),
        None => first_on_stride(b, piece, p, t, sweep_step(b)),
    }
}

proof fn lemma_best_of_none_legal(
    b: Seq<Vec<char>>,
    piece: Seq<(usize, usize)>,
    p: char,
    t: char,
    ours: Seq<(usize, usize)>,
    ctx: ScoreContext,
    cs: Seq<Candidate>,
    n: int,
    init: Option<(usize, usize, int)>,
)
    requires
        n <= cs.len(),
        forall|k: int| 0 <= k < cs.len() ==> !legal(b, piece, (#[trigger] cs[k]).y as int, cs[k].x as int, p, t),
    ensures
        best_of(b, piece, p, t, ours, ctx, cs, n, init) == init,
    decreases n,
{
    if n > 0 {
        lemma_best_of_none_legal(b, piece, p, t, ours, ctx, cs, n - 1, init);
        assert(!legal(b, piece, cs[n - 1].y as int, cs[n - 1].x as int, p, t));
    }
}

/// Fallback: when no candidate of any tier is a legal placement, the move is
/// the first legal anchor, in row-major order, of the sweep over every row and
/// column (every other one on a board of more than 5000 cells), or none.
pub proof fn lemma_fallback_when_tiers_fail(
    b: Seq<Vec<char>>,
    piece: Seq<(usize, usize)>,
    p: char,
    t: char,
    pattern: Seq<(usize, usize)>,
)
    requires
        forall|k: int|
            0 <= k < opponent_tiers(b, p, t, pattern).1.len() ==> !legal(
                b,
                piece,
                (#[trigger] opponent_tiers(b, p, t, pattern).1[k]).y as int,
                opponent_tiers(b, p, t, pattern).1[k].x as int,
                p,
                t,
            ),
        forall|k: int|
            0 <= k < own_tier(b, p, t, pattern).len() ==> !legal(
                b,
                piece,
                (#[trigger] own_tier(b, p, t, pattern)[k]).y as int,
                own_tier(b, p, t, pattern)[k].x as int,
                p,
                t,
            ),
    ensures
        best_move(b, piece, p, t, pattern) == first_on_stride(b, piece, p, t, sweep_step(b)),
{
    let our = cells_where(b, holds_either(b, p, t));
    let ctx = turn_context(b, p, t, pattern);
    let cs = opponent_tiers(b, p, t, pattern).1;
    let own = own_tier(b, p, t, pattern);
    lemma_best_of_none_legal(b, piece, p, t, our, ctx, cs, cs.len() as int, None);
    lemma_best_of_none_legal(b, piece, p, t, our, ctx, own, own.len() as int, None);
}

/// Determinism: the move depends on nothing but the board, the piece, the
/// roles and the opponent sample, so two turns that agree on these get the
/// same move.
pub proof fn lemma_same_turn_same_move(
    b: Seq<Vec<char>>,
    piece: Seq<(usize, usize)>,
    p: char,
    t: char,
    pattern: Seq<(usize, usize)>,
    r1: Option<(usize, usize)>,
    r2: Option<(usize, usize)>,
)
    requires
        r1 == best_move(b, piece, p, t, pattern),
        r2 == best_move(b, piece, p, t, pattern),
    ensures
        r1 == r2,
{
}

/// Chooses where to lay the piece this turn, or `None` to forfeit.
///
/// Candidates come in tiers: cells around the opponent's expansion seeds,
/// then around the opponent's frontier, then, while no strong move is found
/// or early in the game, around our own frontier. Each legal candidate is
/// scored and the first best one kept. When none is legal, a sweep of the
/// board (every other row and column on a large board) returns the first
/// legal anchor. The game phase serves as the game clock, so the turn number
/// the driver passes in does not affect the move.
pub fn find_best_move(
    board: &[Vec<char>],
    piece_cells: &[(usize, usize)],
    player_symbol: char,
    territory_symbol: char,
    _turn_counter: usize,
    opponent_pattern: &VecDeque<(usize, usize)>,
) -> (r: Option<(usize, usize)>)
    requires
        wf_board(board@),
        valid_roles(player_symbol, territory_symbol),
    ensures
        match r {
            Some((y, x)) => {
                &&& legal(board@, piece_cells@, y as int, x as int, player_symbol, territory_symbol)
                &&& y < board@.len()
                &&& x < board@[0]@.len()
            },
            None => forall|y: int, x: int|
                0 <= y && 0 <= x && (board@.len() * board@[0]@.len() <= LARGE_AREA || (y % 2 == 0 && x
                    % 2 == 0)) ==> !legal(board@, piece_cells@, y, x, player_symbol, territory_symbol),
        },
        r == best_move(board@, piece_cells@, player_symbol, territory_symbol, opponent_pattern@),
{
    let ghost b = board@;
    let ghost pc = piece_cells@;
    let p = player_symbol;
    let t = territory_symbol;
    let our = collect_territory_cells(board, p, t);
    let opp = collect_opponent_territory(board, p, t);
    let (oa, ot) = opponent_symbols(p);
    let (our_size, _our_interior, our_frontier) = get_territory_metrics(board, p, t);
    let (opp_size, _opp_interior, opp_frontier) = get_territory_metrics(board, oa, ot);
    let h = board.len();
    let w = board[0].len();
    let area = h * w;
    proof {
        lemma_sides_fit(b, p, t);
        lemma_cells_where_in_bounds(b, holds_either(b, oa, ot));
        assert(h * w >= 1) by (nonlinear_arith)
            requires
                h >= 1,
                w >= 1,
        ;
    }
    let phase = game_phase(our_size, opp_size, area);
    let ctx = ScoreContext {
        phase,
        opponent_center: calculate_territory_center(&opp),
        our_center: calculate_territory_center(&our),
        opponent_direction: predict_opponent_direction(opponent_pattern),
    };
    let radius = search_radius(phase, area);
    let opp_ranked = sample_frontier(&opp_frontier, area);
    let our_ranked = sample_frontier(&our_frontier, area);
    let seeds = expansion_seeds(board, &opp);
    let toward = (
        sign_of_step(ctx.our_center.0, ctx.opponent_center.0),
        sign_of_step(ctx.our_center.1, ctx.opponent_center.1),
    );
    let mut marks: Vec<bool> = Vec::new();
    while marks.len() < area
        invariant
            marks@.len() <= area,
            forall|i: int| 0 <= i < marks@.len() ==> !(#[trigger] marks@[i]),
        decreases area - marks@.len(),
    {
        marks.push(false);
    }
    proof {
        assert(marks@ =~= Seq::new(area as nat, |i: int| false));
    }
    let mut cands: Vec<Candidate> = Vec::new();
    probe_all(board, &seeds, radius, 1, toward, &mut marks, &mut cands);
    probe_all(board, &opp_ranked, radius, 2, toward, &mut marks, &mut cands);
    let mut best = select_best(board, piece_cells, p, t, &our, ctx, &cands, None);
    let strong = match best {
        Some(v) => v.2 >= STRONG_SCORE,
        None => false,
    };
    if !strong || phase < EARLY_PHASE {
        let mut mine: Vec<Candidate> = Vec::new();
        probe_all(board, &our_ranked, radius, 3, toward, &mut marks, &mut mine);
        best = select_best(board, piece_cells, p, t, &our, ctx, &mine, best);
    }
    match best {
        Some(v) => {
            proof {
                lemma_legal_on_board(b, pc, v.0 as int, v.1 as int, p, t);
            }
            Some((v.0, v.1))
        },
        None => {
            let step: usize = if area > LARGE_AREA { 2 } else { 1 };
            let r = fallback_sweep(board, piece_cells, p, t, step);
            proof {
                match r {
                    Some((y, x)) => {},
                    None => {
                        assert forall|y: int, x: int|
                            0 <= y && 0 <= x && (b.len() * b[0]@.len() <= LARGE_AREA || (y % 2 == 0 && x
                                % 2 == 0)) implies !legal(b, pc, y, x, p, t) by {
                            if legal(b, pc, y, x, p, t) {
                                lemma_legal_on_board(b, pc, y, x, p, t);
                                assert(on_stride(b, step as int, y, x));
                            }
                        }
                    },
                }
            }
            r
        },
    }
}

} // verus!
