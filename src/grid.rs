//! Grid primitives: cell roles, bounded lookups and Manhattan distance.
use vstd::prelude::*;

verus! {

/// The symbol of an empty cell.
pub const EMPTY: char = '.';

/// A board is non-empty, rectangular, and its area fits in a `usize`.
pub open spec fn wf_board(b: Seq<Vec<char>>) -> bool {
    &&& b.len() >= 1
    &&& b[0]@.len() >= 1
    &&& forall|y: int| 0 <= y < b.len() ==> (#[trigger] b[y]@.len()) == b[0]@.len()
    &&& b.len() <= usize::MAX
    &&& b[0]@.len() <= usize::MAX
    &&& b.len() * b[0]@.len() <= usize::MAX
}

pub open spec fn height(b: Seq<Vec<char>>) -> int {
    b.len() as int
}

pub open spec fn width(b: Seq<Vec<char>>) -> int {
    b[0]@.len() as int
}

pub open spec fn in_bounds(h: int, w: int, y: int, x: int) -> bool {
    0 <= y < h && 0 <= x < w
}

/// The symbol at `(y, x)`, or `None` outside the board.
pub open spec fn at(b: Seq<Vec<char>>, y: int, x: int) -> Option<char> {
    if 0 <= y < b.len() && 0 <= x < b[y]@.len() {
        Some(b[y]@[x])
    } else {
        None
    }
}

/// The anchor symbol of the player opposing the one whose anchor is `p`.
pub open spec fn opp_anchor(p: char) -> char {
    if p == '@' { '$' } else { '@' }
}

/// The territory symbol of the player opposing the one whose anchor is `p`.
pub open spec fn opp_terr(p: char) -> char {
    if p == '@' { 's' } else { 'a' }
}

/// The two role pairs a player can hold.
pub open spec fn valid_roles(p: char, t: char) -> bool {
    (p == '@' && t == 'a') || (p == '$' && t == 's')
}

pub open spec fn is_ours(c: char, p: char, t: char) -> bool {
    c == p || c == t
}

pub open spec fn is_theirs(c: char, p: char) -> bool {
    c == opp_anchor(p) || c == opp_terr(p)
}

pub open spec fn empty_at(b: Seq<Vec<char>>, y: int, x: int) -> bool {
    at(b, y, x) == Some(EMPTY)
}

pub open spec fn ours_at(b: Seq<Vec<char>>, y: int, x: int, p: char, t: char) -> bool {
    match at(b, y, x) {
        Some(c) => is_ours(c, p, t),
        None => false,
    }
}

pub open spec fn theirs_at(b: Seq<Vec<char>>, y: int, x: int, p: char) -> bool {
    match at(b, y, x) {
        Some(c) => is_theirs(c, p),
        None => false,
    }
}

pub open spec fn ind(c: bool) -> int {
    if c { 1 } else { 0 }
}

pub open spec fn abs_diff(a: int, b: int) -> int {
    if a >= b { a - b } else { b - a }
}

pub open spec fn manhattan(a: (usize, usize), b: (usize, usize)) -> int {
    abs_diff(a.0 as int, b.0 as int) + abs_diff(a.1 as int, b.1 as int)
}

pub open spec fn sign(v: int) -> int {
    if v > 0 { 1 } else if v < 0 { -1 } else { 0 }
}

/// The opponent's anchor and territory symbols.
pub fn opponent_symbols(p: char) -> (r: (char, char))
    ensures
        r == (opp_anchor(p), opp_terr(p)),
{
    if p == '@' { ('$', 's') } else { ('@', 'a') }
}

/// Manhattan distance between two cells.
pub fn grid_distance(a: (usize, usize), b: (usize, usize)) -> (r: u128)
    ensures
        r == manhattan(a, b),
{
    let dy: u128 = if a.0 >= b.0 { (a.0 - b.0) as u128 } else { (b.0 - a.0) as u128 };
    let dx: u128 = if a.1 >= b.1 { (a.1 - b.1) as u128 } else { (b.1 - a.1) as u128 };
    dy + dx
}

/// The symbol at `(y + dy, x + dx)`, or `None` when that lies off the board.
pub fn look(board: &[Vec<char>], y: usize, x: usize, dy: i8, dx: i8) -> (r: Option<char>)
    requires
        wf_board(board@),
        y < board@.len(),
        x < board@[0]@.len(),
        -1 <= dy <= 1,
        -1 <= dx <= 1,
    ensures
        r == at(board@, y + dy, x + dx),
{
    let h = board.len();
    let w = board[0].len();
    if (dy < 0 && y == 0) || (dx < 0 && x == 0) {
        return None;
    }
    let ny: usize = if dy < 0 { y - 1 } else if dy > 0 { y + 1 } else { y };
    let nx: usize = if dx < 0 { x - 1 } else if dx > 0 { x + 1 } else { x };
    if ny >= h || nx >= w {
        return None;
    }
    assert(board@[ny as int]@.len() == w);
    Some(board[ny][nx])
}

/// Opponent cells among the four neighbours of `(y, x)`.
pub open spec fn theirs4(b: Seq<Vec<char>>, p: char, y: int, x: int) -> int {
    ind(theirs_at(b, y - 1, x, p)) + ind(theirs_at(b, y + 1, x, p)) + ind(theirs_at(b, y, x - 1, p))
        + ind(theirs_at(b, y, x + 1, p))
}

/// Empty cells among the four neighbours of `(y, x)`.
pub open spec fn empty4(b: Seq<Vec<char>>, y: int, x: int) -> int {
    ind(empty_at(b, y - 1, x)) + ind(empty_at(b, y + 1, x)) + ind(empty_at(b, y, x - 1)) + ind(
        empty_at(b, y, x + 1),
    )
}

/// Counts the opponent cells among the four neighbours of `(y, x)`.
pub fn count_theirs4(board: &[Vec<char>], p: char, y: usize, x: usize) -> (r: i128)
    requires
        wf_board(board@),
        y < board@.len(),
        x < board@[0]@.len(),
    ensures
        r == theirs4(board@, p, y as int, x as int),
{
    let (oa, ot) = opponent_symbols(p);
    let mut n: i128 = 0;
    let a = look(board, y, x, -1, 0);
    if a == Some(oa) || a == Some(ot) {
        n = n + 1;
    }
    let a = look(board, y, x, 1, 0);
    if a == Some(oa) || a == Some(ot) {
        n = n + 1;
    }
    let a = look(board, y, x, 0, -1);
    if a == Some(oa) || a == Some(ot) {
        n = n + 1;
    }
    let a = look(board, y, x, 0, 1);
    if a == Some(oa) || a == Some(ot) {
        n = n + 1;
    }
    n
}

/// Counts the empty cells among the four neighbours of `(y, x)`.
pub fn count_empty4(board: &[Vec<char>], y: usize, x: usize) -> (r: i128)
    requires
        wf_board(board@),
        y < board@.len(),
        x < board@[0]@.len(),
    ensures
        r == empty4(board@, y as int, x as int),
{
    let mut n: i128 = 0;
    if look(board, y, x, -1, 0) == Some(EMPTY) {
        n = n + 1;
    }
    if look(board, y, x, 1, 0) == Some(EMPTY) {
        n = n + 1;
    }
    if look(board, y, x, 0, -1) == Some(EMPTY) {
        n = n + 1;
    }
    if look(board, y, x, 0, 1) == Some(EMPTY) {
        n = n + 1;
    }
    n
}

} // verus!
