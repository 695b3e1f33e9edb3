//! The legality oracle: where a piece may be laid.
use vstd::prelude::*;
use crate::grid::{empty_at, ind, ours_at, wf_board, EMPTY};

verus! {

/// The board cell covered by the `k`-th offset of a piece laid at `(y, x)`.
pub open spec fn covered(piece: Seq<(usize, usize)>, y: int, x: int, k: int) -> (int, int) {
    (y + piece[k].0, x + piece[k].1)
}

/// How many of the first `n` covered cells hold one of our symbols.
pub open spec fn overlap_count(
    b: Seq<Vec<char>>,
    piece: Seq<(usize, usize)>,
    y: int,
    x: int,
    p: char,
    t: char,
    n: int,
) -> int
    decreases n,
{
    if n <= 0 {
        0
    } else {
        let c = covered(piece, y, x, n - 1);
        overlap_count(b, piece, y, x, p, t, n - 1) + ind(ours_at(b, c.0, c.1, p, t))
    }
}

/// The `k`-th covered cell is on the board and holds either our symbol or nothing.
pub open spec fn cover_ok(
    b: Seq<Vec<char>>,
    piece: Seq<(usize, usize)>,
    y: int,
    x: int,
    p: char,
    t: char,
    k: int,
) -> bool {
    let c = covered(piece, y, x, k);
    ours_at(b, c.0, c.1, p, t) || empty_at(b, c.0, c.1)
}

/// A placement is legal when every covered cell is on the board and is either
/// empty or ours (so no opponent cell is touched), and exactly one is ours.
pub open spec fn legal(
    b: Seq<Vec<char>>,
    piece: Seq<(usize, usize)>,
    y: int,
    x: int,
    p: char,
    t: char,
) -> bool {
    &&& forall|k: int| 0 <= k < piece.len() ==> #[trigger] cover_ok(b, piece, y, x, p, t, k)
    &&& overlap_count(b, piece, y, x, p, t, piece.len() as int) == 1
}

proof fn lemma_overlap_count_bounds(
    b: Seq<Vec<char>>,
    piece: Seq<(usize, usize)>,
    y: int,
    x: int,
    p: char,
    t: char,
    n: int,
    m: int,
)
    requires
        0 <= n <= m,
    ensures
        0 <= overlap_count(b, piece, y, x, p, t, n) <= overlap_count(b, piece, y, x, p, t, m),
    decreases m,
{
    if m > n {
        lemma_overlap_count_bounds(b, piece, y, x, p, t, n, m - 1);
    } else if n > 0 {
        lemma_overlap_count_bounds(b, piece, y, x, p, t, n - 1, n - 1);
    }
}

/// Decides whether the piece laid at `(y, x)` is a legal move for the player
/// holding the role pair `(player_sym, territory_sym)`.
pub fn is_valid_placement(
    board: &[Vec<char>],
    piece_cells: &[(usize, usize)],
    y: usize,
    x: usize,
    player_sym: char,
    territory_sym: char,
) -> (r: bool)
    requires
        wf_board(board@),
    ensures
        r == legal(board@, piece_cells@, y as int, x as int, player_sym, territory_sym),
{
    let ghost b = board@;
    let ghost pc = piece_cells@;
    let h = board.len();
    let w = board[0].len();
    let mut has_overlap = false;
    let mut i: usize = 0;
    while i < piece_cells.len()
        invariant
            wf_board(b),
            b == board@,
            pc == piece_cells@,
            h == b.len(),
            w == b[0]@.len(),
            0 <= i <= pc.len(),
            forall|k: int| 0 <= k < i ==> #[trigger] cover_ok(b, pc, y as int, x as int, player_sym, territory_sym, k),
            has_overlap == (overlap_count(b, pc, y as int, x as int, player_sym, territory_sym, i as int) == 1),
            overlap_count(b, pc, y as int, x as int, player_sym, territory_sym, i as int) <= 1,
        decreases pc.len() - i,
    {
        let (py, px) = piece_cells[i];
        proof {
            lemma_overlap_count_bounds(b, pc, y as int, x as int, player_sym, territory_sym, i as int, i as int);
        }
        if py >= h || y >= h - py || px >= w || x >= w - px {
            assert(!cover_ok(b, pc, y as int, x as int, player_sym, territory_sym, i as int));
            return false;
        }
        let cy = y + py;
        let cx = x + px;
        assert(b[cy as int]@.len() == w);
        let cell = board[cy][cx];
        if cell == player_sym || cell == territory_sym {
            if has_overlap {
                proof {
                    lemma_overlap_count_bounds(b, pc, y as int, x as int, player_sym, territory_sym, i as int + 1, pc.len() as int);
                }
                return false;
            }
            has_overlap = true;
        } else if cell != EMPTY {
            assert(!cover_ok(b, pc, y as int, x as int, player_sym, territory_sym, i as int));
            return false;
        }
        i = i + 1;
    }
    has_overlap
}

/// A legal anchor lies on the board.
pub proof fn lemma_legal_on_board(
    b: Seq<Vec<char>>,
    piece: Seq<(usize, usize)>,
    y: int,
    x: int,
    p: char,
    t: char,
)
    requires
        wf_board(b),
        0 <= y,
        0 <= x,
        legal(b, piece, y, x, p, t),
    ensures
        y < b.len(),
        x < b[0]@.len(),
{
    if piece.len() == 0 {
        assert(overlap_count(b, piece, y, x, p, t, 0) == 0);
    }
    assert(cover_ok(b, piece, y, x, p, t, 0));
    let c = covered(piece, y, x, 0);
    assert(b[c.0]@.len() == b[0]@.len());
}

} // verus!
