//! The engine does not favour either player or either axis: transposing the
//! board and swapping the players' symbols preserves legality and scores.
use vstd::prelude::*;
use crate::grid::{at, empty4, empty_at, opp_anchor, opp_terr, ours_at, theirs4, theirs_at, valid_roles, wf_board};
use crate::legality::{cover_ok, covered, legal, overlap_count};
use crate::scoring::{
    alignment, near_count, placement_score, pocket, pockets4, sealed, seals, tally, ScoreContext,
};

verus! {

/// The symbol seen by the other player: anchors and territories trade owners.
pub open spec fn swap_symbol(c: char) -> char {
    if c == '@' {
        '$'
    } else if c == '$' {
        '@'
    } else if c == 'a' {
        's'
    } else if c == 's' {
        'a'
    } else {
        c
    }
}

/// `m` is `b` transposed, with the players' symbols swapped.
pub open spec fn mirrored(b: Seq<Vec<char>>, m: Seq<Vec<char>>) -> bool {
    &&& wf_board(b)
    &&& wf_board(m)
    &&& m.len() == b[0]@.len()
    &&& m[0]@.len() == b.len()
    &&& forall|y: int, x: int|
        0 <= y < b.len() && 0 <= x < b[0]@.len() ==> #[trigger] m[x]@[y] == swap_symbol(b[y]@[x])
}

pub open spec fn swap_cell(c: (usize, usize)) -> (usize, usize) {
    (c.1, c.0)
}

/// `q` lists the cells of `s`, each transposed.
pub open spec fn transposed(s: Seq<(usize, usize)>, q: Seq<(usize, usize)>) -> bool {
    q.len() == s.len() && forall|k: int| 0 <= k < s.len() ==> #[trigger] q[k] == swap_cell(s[k])
}

/// The scoring context of the mirrored turn.
pub open spec fn mirrored_context(ctx: ScoreContext) -> ScoreContext {
    ScoreContext {
        phase: ctx.phase,
        opponent_center: swap_cell(ctx.opponent_center),
        our_center: swap_cell(ctx.our_center),
        opponent_direction: (ctx.opponent_direction.1, ctx.opponent_direction.0),
    }
}

proof fn lemma_at_mirrored(b: Seq<Vec<char>>, m: Seq<Vec<char>>)
    requires
        mirrored(b, m),
    ensures
        forall|y: int, x: int|
            #[trigger] at(m, x, y) == match at(b, y, x) {
                Some(c) => Some(swap_symbol(c)),
                None => None,
            },
{
    assert forall|y: int, x: int|
        #[trigger] at(m, x, y) == match at(b, y, x) {
            Some(c) => Some(swap_symbol(c)),
            None => None,
        } by {
        if 0 <= y < b.len() && 0 <= x < b[0]@.len() {
            assert(b[y]@.len() == b[0]@.len());
            assert(m[x]@.len() == m[0]@.len());
        } else if 0 <= x < m.len() && 0 <= y < m[x]@.len() {
            assert(m[x]@.len() == m[0]@.len());
        } else if 0 <= y < b.len() {
            assert(b[y]@.len() == b[0]@.len());
        }
    }
}

proof fn lemma_cells_mirrored(b: Seq<Vec<char>>, m: Seq<Vec<char>>, p: char, t: char)
    requires
        mirrored(b, m),
        valid_roles(p, t),
    ensures
        forall|y: int, x: int| #[trigger] ours_at(m, x, y, opp_anchor(p), opp_terr(p)) == ours_at(b, y, x, p, t),
        forall|y: int, x: int| #[trigger] theirs_at(m, x, y, opp_anchor(p)) == theirs_at(b, y, x, p),
        forall|y: int, x: int| #[trigger] empty_at(m, x, y) == empty_at(b, y, x),
        forall|y: int, x: int|
            #[trigger] sealed(m, opp_anchor(p), opp_terr(p), x, y) == sealed(b, p, t, y, x),
        forall|y: int, x: int|
            #[trigger] pocket(m, opp_anchor(p), opp_terr(p), x, y) == pocket(b, p, t, y, x),
{
    lemma_at_mirrored(b, m);
    let op = opp_anchor(p);
    let ot = opp_terr(p);
    assert forall|o: Option<char>| #[trigger] seals(o, p, t) == seals(
        match o {
            Some(c) => Some(swap_symbol(c)),
            None => None,
        },
        op,
        ot,
    ) by {}
    assert forall|y: int, x: int| #[trigger] sealed(m, op, ot, x, y) == sealed(b, p, t, y, x) by {
        assert(at(m, x - 1, y - 1) == match at(b, y - 1, x - 1) {
            Some(c) => Some(swap_symbol(c)),
            None => None,
        });
    }
}

proof fn lemma_overlap_mirrored(
    b: Seq<Vec<char>>,
    m: Seq<Vec<char>>,
    piece: Seq<(usize, usize)>,
    piece2: Seq<(usize, usize)>,
    y: int,
    x: int,
    p: char,
    t: char,
    n: int,
)
    requires
        mirrored(b, m),
        valid_roles(p, t),
        transposed(piece, piece2),
        n <= piece.len(),
    ensures
        overlap_count(m, piece2, x, y, opp_anchor(p), opp_terr(p), n) == overlap_count(b, piece, y, x, p, t, n),
    decreases n,
{
    lemma_cells_mirrored(b, m, p, t);
    if n > 0 {
        lemma_overlap_mirrored(b, m, piece, piece2, y, x, p, t, n - 1);
        assert(piece2[n - 1] == swap_cell(piece[n - 1]));
    }
}

/// Symmetry of legality: laying the piece at `(y, x)` is legal for one player
/// exactly when laying the transposed piece at `(x, y)` on the transposed board
/// with swapped symbols is legal for the other.
pub proof fn lemma_legal_symmetric(
    b: Seq<Vec<char>>,
    m: Seq<Vec<char>>,
    piece: Seq<(usize, usize)>,
    piece2: Seq<(usize, usize)>,
    y: int,
    x: int,
    p: char,
    t: char,
)
    requires
        mirrored(b, m),
        valid_roles(p, t),
        transposed(piece, piece2),
    ensures
        legal(m, piece2, x, y, opp_anchor(p), opp_terr(p)) == legal(b, piece, y, x, p, t),
{
    let op = opp_anchor(p);
    let ot = opp_terr(p);
    lemma_cells_mirrored(b, m, p, t);
    lemma_overlap_mirrored(b, m, piece, piece2, y, x, p, t, piece.len() as int);
    assert forall|k: int| 0 <= k < piece.len() implies #[trigger] cover_ok(m, piece2, x, y, op, ot, k) == cover_ok(
        b,
        piece,
        y,
        x,
        p,
        t,
        k,
    ) by {
        assert(piece2[k] == swap_cell(piece[k]));
    }
    if legal(b, piece, y, x, p, t) {
        assert forall|k: int| 0 <= k < piece2.len() implies #[trigger] cover_ok(m, piece2, x, y, op, ot, k) by {
            assert(cover_ok(b, piece, y, x, p, t, k));
        }
    }
    if legal(m, piece2, x, y, op, ot) {
        assert forall|k: int| 0 <= k < piece.len() implies #[trigger] cover_ok(b, piece, y, x, p, t, k) by {
            assert(cover_ok(m, piece2, x, y, op, ot, k));
        }
    }
}

proof fn lemma_near_mirrored(
    ours: Seq<(usize, usize)>,
    ours2: Seq<(usize, usize)>,
    y: int,
    x: int,
    d: int,
    n: int,
)
    requires
        transposed(ours, ours2),
        n <= ours.len(),
    ensures
        near_count(ours2, x, y, d, n) == near_count(ours, y, x, d, n),
    decreases n,
{
    if n > 0 {
        lemma_near_mirrored(ours, ours2, y, x, d, n - 1);
        assert(ours2[n - 1] == swap_cell(ours[n - 1]));
    }
}

proof fn lemma_tally_mirrored(
    b: Seq<Vec<char>>,
    m: Seq<Vec<char>>,
    piece: Seq<(usize, usize)>,
    piece2: Seq<(usize, usize)>,
    y: int,
    x: int,
    p: char,
    t: char,
    ours: Seq<(usize, usize)>,
    ours2: Seq<(usize, usize)>,
    ctx: ScoreContext,
    n: int,
)
    requires
        mirrored(b, m),
        valid_roles(p, t),
        transposed(piece, piece2),
        transposed(ours, ours2),
        n <= piece.len(),
    ensures
        tally(m, piece2, x, y, opp_anchor(p), opp_terr(p), ours2, mirrored_context(ctx), n) == tally(
            b,
            piece,
            y,
            x,
            p,
            t,
            ours,
            ctx,
            n,
        ),
    decreases n,
{
    if n > 0 {
        lemma_tally_mirrored(b, m, piece, piece2, y, x, p, t, ours, ours2, ctx, n - 1);
        lemma_cells_mirrored(b, m, p, t);
        assert(piece2[n - 1] == swap_cell(piece[n - 1]));
        let c = covered(piece, y, x, n - 1);
        lemma_near_mirrored(ours, ours2, c.0, c.1, 3, ours.len() as int);
        lemma_near_mirrored(ours, ours2, c.0, c.1, 5, ours.len() as int);
        assert(theirs4(m, opp_anchor(p), c.1, c.0) == theirs4(b, p, c.0, c.1));
        assert(empty4(m, c.1, c.0) == empty4(b, c.0, c.1));
        assert(pockets4(m, opp_anchor(p), opp_terr(p), c.1, c.0) == pockets4(b, p, t, c.0, c.1));
        assert(alignment(mirrored_context(ctx), c.1, c.0) == alignment(ctx, c.0, c.1));
    }
}

/// Symmetry of scores: the mirrored placement on the mirrored turn scores the same.
pub proof fn lemma_score_symmetric(
    b: Seq<Vec<char>>,
    m: Seq<Vec<char>>,
    piece: Seq<(usize, usize)>,
    piece2: Seq<(usize, usize)>,
    y: usize,
    x: usize,
    p: char,
    t: char,
    ours: Seq<(usize, usize)>,
    ours2: Seq<(usize, usize)>,
    ctx: ScoreContext,
    aggressive: bool,
)
    requires
        mirrored(b, m),
        valid_roles(p, t),
        transposed(piece, piece2),
        transposed(ours, ours2),
    ensures
        placement_score(m, piece2, x, y, opp_anchor(p), opp_terr(p), ours2, mirrored_context(ctx), aggressive)
            == placement_score(b, piece, y, x, p, t, ours, ctx, aggressive),
{
    lemma_tally_mirrored(b, m, piece, piece2, y as int, x as int, p, t, ours, ours2, ctx, piece.len() as int);
}

} // verus!
