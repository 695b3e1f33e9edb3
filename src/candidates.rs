//! Candidate generation: the opponent's expansion seeds and the square
//! probes around seed cells, with a mark per board cell so that no cell is
//! scored twice.
use vstd::prelude::*;
use crate::board::{all_in_bounds, LARGE_AREA};
use crate::grid::{abs_diff, count_empty4, empty4, empty_at, look, sign, wf_board, EMPTY};

verus! {

/// At most this many empty cells are visited by the expansion flood.
pub const FLOOD_LIMIT: usize = 100;

/// Open ground: an empty cell with at least two empty four-neighbours.
pub open spec fn open_cell(b: Seq<Vec<char>>, c: (usize, usize)) -> bool {
    empty_at(b, c.0 as int, c.1 as int) && empty4(b, c.0 as int, c.1 as int) >= 2
}

pub open spec fn distinct<T>(s: Seq<T>) -> bool {
    forall|i: int, j: int| 0 <= i < j < s.len() ==> s[i] != s[j]
}

/// What the expansion flood keeps true: the visited cells are distinct empty
/// cells, at most `FLOOD_LIMIT` of them, and the seeds are distinct open
/// cells among them.
pub open spec fn flood_ok(b: Seq<Vec<char>>, seen: Seq<(usize, usize)>, seeds: Seq<(usize, usize)>) -> bool {
    &&& seen.len() <= FLOOD_LIMIT
    &&& all_in_bounds(b, seen)
    &&& forall|k: int| 0 <= k < seen.len() ==> empty_at(b, (#[trigger] seen[k]).0 as int, seen[k].1 as int)
    &&& distinct(seen)
    &&& all_in_bounds(b, seeds)
    &&& forall|k: int| 0 <= k < seeds.len() ==> open_cell(b, #[trigger] seeds[k])
    &&& forall|k: int| 0 <= k < seeds.len() ==> seen.contains(#[trigger] seeds[k])
    &&& distinct(seeds)
    &&& seeds.len() <= seen.len()
}

/// The flood's state: the visited cells and the seeds among them.
pub type Flood = (Seq<(usize, usize)>, Seq<(usize, usize)>);

/// One flood step into the neighbour `(y + dy, x + dx)`: a fresh empty cell is
/// visited while there is room, and kept as a seed if it is open ground.
pub open spec fn flood_step(b: Seq<Vec<char>>, y: int, x: int, dy: int, dx: int, st: Flood) -> Flood {
    let c = ((y + dy) as usize, (x + dx) as usize);
    if st.0.len() >= FLOOD_LIMIT || !empty_at(b, y + dy, x + dx) || st.0.contains(c) {
        st
    } else {
        (st.0.push(c), if open_cell(b, c) { st.1.push(c) } else { st.1 })
    }
}

/// Flood steps into the four neighbours of `c`, in the order up, down, left, right.
pub open spec fn flood_cell(b: Seq<Vec<char>>, c: (usize, usize), st: Flood) -> Flood {
    let y = c.0 as int;
    let x = c.1 as int;
    flood_step(b, y, x, 0, 1, flood_step(b, y, x, 0, -1, flood_step(b, y, x, 1, 0, flood_step(b, y, x, -1, 0, st))))
}

/// The flood from the first `n` source cells.
pub open spec fn flood_sources(b: Seq<Vec<char>>, srcs: Seq<(usize, usize)>, n: int) -> Flood
    decreases n,
{
    if n <= 0 {
        (seq![], seq![])
    } else {
        flood_cell(b, srcs[n - 1], flood_sources(b, srcs, n - 1))
    }
}

/// The flood continued from the visited cells, in visiting order, from the `j`-th on.
pub open spec fn flood_onward(b: Seq<Vec<char>>, st: Flood, j: int) -> Flood
    decreases FLOOD_LIMIT - j,
{
    if j < 0 || j >= st.0.len() || j >= FLOOD_LIMIT {
        st
    } else {
        flood_onward(b, flood_cell(b, st.0[j], st), j + 1)
    }
}

/// The expansion seeds of the flood from the opponent's cells.
pub open spec fn flood_seeds(b: Seq<Vec<char>>, srcs: Seq<(usize, usize)>) -> Seq<(usize, usize)> {
    flood_onward(b, flood_sources(b, srcs, srcs.len() as int), 0).1
}

fn contains_cell(v: &Vec<(usize, usize)>, c: (usize, usize)) -> (r: bool)
    ensures
        r == v@.contains(c),
{
    let mut i: usize = 0;
    while i < v.len()
        invariant
            0 <= i <= v@.len(),
            forall|k: int| 0 <= k < i ==> v@[k] != c,
        decreases v@.len() - i,
    {
        if v[i].0 == c.0 && v[i].1 == c.1 {
            return true;
        }
        i = i + 1;
    }
    false
}

/// Floods into the neighbour `(y + dy, x + dx)` if it is a fresh empty cell
/// and the flood has room.
fn flood_into(
    board: &[Vec<char>],
    y: usize,
    x: usize,
    dy: i8,
    dx: i8,
    seen: &mut Vec<(usize, usize)>,
    seeds: &mut Vec<(usize, usize)>,
)
    requires
        wf_board(board@),
        y < board@.len(),
        x < board@[0]@.len(),
        -1 <= dy <= 1,
        -1 <= dx <= 1,
        flood_ok(board@, old(seen)@, old(seeds)@),
    ensures
        flood_ok(board@, final(seen)@, final(seeds)@),
        old(seen)@.len() <= final(seen)@.len(),
        (final(seen)@, final(seeds)@) == flood_step(
            board@,
            y as int,
            x as int,
            dy as int,
            dx as int,
            (old(seen)@, old(seeds)@),
        ),
{
    let ghost b = board@;
    if seen.len() >= FLOOD_LIMIT {
        return;
    }
    if look(board, y, x, dy, dx) != Some(EMPTY) {
        return;
    }
    let ny: usize = if dy < 0 { y - 1 } else if dy > 0 { y + 1 } else { y };
    let nx: usize = if dx < 0 { x - 1 } else if dx > 0 { x + 1 } else { x };
    assert(b[ny as int]@.len() == b[0]@.len());
    if contains_cell(seen, (ny, nx)) {
        return;
    }
    let ghost old_seen = seen@;
    seen.push((ny, nx));
    assert forall|k: int| 0 <= k < seeds@.len() implies seen@.contains(#[trigger] seeds@[k]) by {
        let j = choose|j: int| 0 <= j < old_seen.len() && old_seen[j] == seeds@[k];
        assert(seen@[j] == seeds@[k]);
    }
    if count_empty4(board, ny, nx) >= 2 {
        seeds.push((ny, nx));
        assert(seen@[seen@.len() - 1] == (ny, nx));
    }
}

fn flood_around(
    board: &[Vec<char>],
    c: (usize, usize),
    seen: &mut Vec<(usize, usize)>,
    seeds: &mut Vec<(usize, usize)>,
)
    requires
        wf_board(board@),
        c.0 < board@.len(),
        c.1 < board@[c.0 as int]@.len(),
        flood_ok(board@, old(seen)@, old(seeds)@),
    ensures
        flood_ok(board@, final(seen)@, final(seeds)@),
        old(seen)@.len() <= final(seen)@.len(),
        (final(seen)@, final(seeds)@) == flood_cell(board@, c, (old(seen)@, old(seeds)@)),
{
    assert(board@[c.0 as int]@.len() == board@[0]@.len());
    flood_into(board, c.0, c.1, -1, 0, seen, seeds);
    flood_into(board, c.0, c.1, 1, 0, seen, seeds);
    flood_into(board, c.0, c.1, 0, -1, seen, seeds);
    flood_into(board, c.0, c.1, 0, 1, seen, seeds);
}

/// Cells where the opponent can easily expand: a breadth-first flood from the
/// opponent's cells across empty cells, visiting at most `FLOOD_LIMIT` empty
/// cells, keeps each visited cell that is open ground.
pub fn expansion_seeds(board: &[Vec<char>], opp_cells: &Vec<(usize, usize)>) -> (r: Vec<(usize, usize)>)
    requires
        wf_board(board@),
        all_in_bounds(board@, opp_cells@),
    ensures
        r@.len() <= FLOOD_LIMIT,
        all_in_bounds(board@, r@),
        forall|k: int| 0 <= k < r@.len() ==> open_cell(board@, #[trigger] r@[k]),
        distinct(r@),
        r@ == flood_seeds(board@, opp_cells@),
{
    let ghost b = board@;
    let mut seen: Vec<(usize, usize)> = Vec::new();
    let mut seeds: Vec<(usize, usize)> = Vec::new();
    let mut i: usize = 0;
    while i < opp_cells.len()
        invariant
            wf_board(b),
            b == board@,
            all_in_bounds(b, opp_cells@),
            flood_ok(b, seen@, seeds@),
            0 <= i <= opp_cells@.len(),
            (seen@, seeds@) == flood_sources(b, opp_cells@, i as int),
        decreases opp_cells@.len() - i,
    {
        let c = opp_cells[i];
        flood_around(board, c, &mut seen, &mut seeds);
        i = i + 1;
    }
    let mut j: usize = 0;
    while j < seen.len()
        invariant
            wf_board(b),
            b == board@,
            flood_ok(b, seen@, seeds@),
            0 <= j <= seen@.len(),
            flood_onward(b, (seen@, seeds@), j as int) == flood_onward(
                b,
                flood_sources(b, opp_cells@, opp_cells@.len() as int),
                0,
            ),
        decreases FLOOD_LIMIT - j,
    {
        let c = seen[j];
        flood_around(board, c, &mut seen, &mut seeds);
        j = j + 1;
    }
    seeds
}

/// A cell worth scoring, with the tier that found it and its flat bonus.
#[derive(Clone, Copy)]
pub struct Candidate {
    pub y: usize,
    pub x: usize,
    /// 1: opponent expansion seeds; 2: opponent frontier; 3: our frontier.
    pub tier: u8,
    pub bonus: i128,
}

/// Flat bonus of a candidate at `(y, x)` found from `seed` in `tier`; `toward`
/// holds the signs of the vector from our centroid to the opponent's.
pub open spec fn tier_bonus(tier: u8, seed: (usize, usize), y: int, x: int, toward: (int, int)) -> int {
    if tier == 1 {
        500
    } else if tier == 2 && sign(y - seed.0) == toward.0 && sign(x - seed.1) == toward.1 {
        300
    } else {
        0
    }
}

/// The candidates are distinct cells of the board, each marked in `marks`
/// (row-major, one flag per cell).
pub open spec fn cands_ok(b: Seq<Vec<char>>, cs: Seq<Candidate>, marks: Seq<bool>) -> bool {
    &&& marks.len() == b.len() * b[0]@.len()
    &&& forall|k: int|
        0 <= k < cs.len() ==> (#[trigger] cs[k]).y < b.len() && cs[k].x < b[0]@.len() && marks[cs[k].y
            * b[0]@.len() + cs[k].x]
    &&& forall|i: int, j: int| 0 <= i < j < cs.len() ==> (cs[i].y, cs[i].x) != (cs[j].y, cs[j].x)
}

/// The candidates from `from` on were found from `seed` in `tier`: each lies
/// within `r` of the seed on both axes and carries its tier's bonus.
pub open spec fn probed_from(
    cs: Seq<Candidate>,
    from: int,
    seed: (usize, usize),
    r: int,
    tier: u8,
    toward: (int, int),
) -> bool {
    forall|k: int|
        from <= k < cs.len() ==> {
            let c = #[trigger] cs[k];
            &&& abs_diff(c.y as int, seed.0 as int) <= r
            &&& abs_diff(c.x as int, seed.1 as int) <= r
            &&& c.tier == tier
            &&& c.bonus == tier_bonus(tier, seed, c.y as int, c.x as int, toward)
        }
}

proof fn lemma_index_in_grid(y: int, x: int, h: int, w: int)
    requires
        0 <= y < h,
        0 <= x < w,
    ensures
        0 <= y * w + x < h * w,
{
    assert(0 <= y * w + x < h * w) by (nonlinear_arith)
        requires
            0 <= y < h,
            0 <= x < w,
    ;
}

/// The marks and the candidate list while probing.
pub type Probe = (Seq<bool>, Seq<Candidate>);

/// First coordinate of the probe span around `s`.
pub open spec fn span_lo(s: int, r: int) -> int {
    if s >= r { s - r } else { 0 }
}

/// End (exclusive) of the probe span around `s` on an axis of length `n`.
pub open spec fn span_end(s: int, r: int, n: int) -> int {
    if s < n && n - s > r { s + r + 1 } else { n }
}

/// Probing the cell `(y, x)`: an unmarked cell is marked and becomes a candidate.
pub open spec fn probe_cell(
    w: int,
    y: int,
    x: int,
    seed: (usize, usize),
    tier: u8,
    toward: (int, int),
    st: Probe,
) -> Probe {
    let idx = y * w + x;
    if st.0[idx] {
        st
    } else {
        (
            st.0.update(idx, true),
            st.1.push(
                Candidate {
                    y: y as usize,
                    x: x as usize,
                    tier,
                    bonus: tier_bonus(tier, seed, y, x, toward) as i128,
                },
            ),
        )
    }
}

/// Probing the cells of row `y` from column `x_lo` up to, not including, `x`.
pub open spec fn probe_row(
    w: int,
    y: int,
    x_lo: int,
    x: int,
    seed: (usize, usize),
    tier: u8,
    toward: (int, int),
    st: Probe,
) -> Probe
    decreases x - x_lo,
{
    if x <= x_lo {
        st
    } else {
        probe_cell(w, y, x - 1, seed, tier, toward, probe_row(w, y, x_lo, x - 1, seed, tier, toward, st))
    }
}

/// Probing rows `y_lo` up to, not including, `y`, each over columns `x_lo..x_end`.
pub open spec fn probe_rows(
    w: int,
    y_lo: int,
    y: int,
    x_lo: int,
    x_end: int,
    seed: (usize, usize),
    tier: u8,
    toward: (int, int),
    st: Probe,
) -> Probe
    decreases y - y_lo,
{
    if y <= y_lo {
        st
    } else {
        probe_row(
            w,
            y - 1,
            x_lo,
            x_end,
            seed,
            tier,
            toward,
            probe_rows(w, y_lo, y - 1, x_lo, x_end, seed, tier, toward, st),
        )
    }
}

/// Probing the square of half-width `r` around `seed`, clipped to the board, row by row.
pub open spec fn probe_square(
    h: int,
    w: int,
    seed: (usize, usize),
    r: int,
    tier: u8,
    toward: (int, int),
    st: Probe,
) -> Probe {
    probe_rows(
        w,
        span_lo(seed.0 as int, r),
        span_end(seed.0 as int, r, h),
        span_lo(seed.1 as int, r),
        span_end(seed.1 as int, r, w),
        seed,
        tier,
        toward,
        st,
    )
}

/// Probing around the first `n` seeds in turn.
pub open spec fn probe_seeds(
    h: int,
    w: int,
    seeds: Seq<(usize, usize)>,
    n: int,
    r: int,
    tier: u8,
    toward: (int, int),
    st: Probe,
) -> Probe
    decreases n,
{
    if n <= 0 {
        st
    } else {
        probe_square(h, w, seeds[n - 1], r, tier, toward, probe_seeds(h, w, seeds, n - 1, r, tier, toward, st))
    }
}

fn cell_index(h: usize, w: usize, y: usize, x: usize) -> (r: usize)
    requires
        y < h,
        x < w,
        h * w <= usize::MAX,
    ensures
        r == y * w + x,
        r < h * w,
{
    assert(y * w + x < h * w) by (nonlinear_arith)
        requires
            y < h,
            x < w,
    ;
    y * w + x
}

pub(crate) fn sign_of_step(from: usize, to: usize) -> (r: i8)
    ensures
        r == sign(to - from),
{
    if to > from { 1 } else if to < from { -1 } else { 0 }
}

/// Adds, in row-major order, each unmarked cell of the board within `radius`
/// of `seed` on both axes, as a candidate of `tier`, and marks it.
fn probe(
    board: &[Vec<char>],
    seed: (usize, usize),
    radius: usize,
    tier: u8,
    toward: (i8, i8),
    marks: &mut Vec<bool>,
    out: &mut Vec<Candidate>,
)
    requires
        wf_board(board@),
        radius <= 5,
        cands_ok(board@, old(out)@, old(marks)@),
    ensures
        cands_ok(board@, final(out)@, final(marks)@),
        old(out)@.len() <= final(out)@.len(),
        forall|k: int| 0 <= k < old(out)@.len() ==> final(out)@[k] == old(out)@[k],
        probed_from(final(out)@, old(out)@.len() as int, seed, radius as int, tier, (toward.0 as int, toward.1 as int)),
        (final(marks)@, final(out)@) == probe_square(
            board@.len() as int,
            board@[0]@.len() as int,
            seed,
            radius as int,
            tier,
            (toward.0 as int, toward.1 as int),
            (old(marks)@, old(out)@),
        ),
{
    let ghost b = board@;
    let ghost start = old(out)@.len() as int;
    let ghost first = old(out)@;
    let ghost tw = (toward.0 as int, toward.1 as int);
    let h = board.len();
    let w = board[0].len();
    let (sy, sx) = seed;
    let y_lo = if sy >= radius { sy - radius } else { 0 };
    let y_end = if sy < h && h - sy > radius { sy + radius + 1 } else { h };
    let x_lo = if sx >= radius { sx - radius } else { 0 };
    let x_end = if sx < w && w - sx > radius { sx + radius + 1 } else { w };
    let ghost init = (marks@, out@);
    let mut ny = y_lo;
    while ny < y_end
        invariant
            wf_board(b),
            b == board@,
            h == b.len(),
            w == b[0]@.len(),
            y_end <= h,
            x_end <= w,
            y_lo <= ny,
            y_lo as int >= sy as int - radius as int,
            y_end as int <= sy as int + radius as int + 1,
            x_lo as int >= sx as int - radius as int,
            x_end as int <= sx as int + radius as int + 1,
            cands_ok(b, out@, marks@),
            start <= out@.len(),
            first.len() == start,
            tw == (toward.0 as int, toward.1 as int),
            seed == (sy, sx),
            forall|k: int| 0 <= k < start ==> out@[k] == first[k],
            probed_from(out@, start, seed, radius as int, tier, tw),
            y_lo == span_lo(sy as int, radius as int),
            y_end == span_end(sy as int, radius as int, h as int),
            x_lo == span_lo(sx as int, radius as int),
            x_end == span_end(sx as int, radius as int, w as int),
            ny <= y_end || ny == y_lo,
            (marks@, out@) == probe_rows(w as int, y_lo as int, ny as int, x_lo as int, x_end as int, seed, tier, tw, init),
        decreases y_end - ny,
    {
        let mut nx = x_lo;
        while nx < x_end
            invariant
                wf_board(b),
                b == board@,
                h == b.len(),
                w == b[0]@.len(),
                ny < y_end <= h,
                x_end <= w,
                x_lo <= nx,
                y_lo <= ny,
                y_lo as int >= sy as int - radius as int,
                y_end as int <= sy as int + radius as int + 1,
                x_lo as int >= sx as int - radius as int,
                x_end as int <= sx as int + radius as int + 1,
                cands_ok(b, out@, marks@),
                start <= out@.len(),
                first.len() == start,
                tw == (toward.0 as int, toward.1 as int),
                seed == (sy, sx),
                forall|k: int| 0 <= k < start ==> out@[k] == first[k],
                probed_from(out@, start, seed, radius as int, tier, tw),
                nx <= x_end || nx == x_lo,
                (marks@, out@) == probe_row(
                    w as int,
                    ny as int,
                    x_lo as int,
                    nx as int,
                    seed,
                    tier,
                    tw,
                    probe_rows(w as int, y_lo as int, ny as int, x_lo as int, x_end as int, seed, tier, tw, init),
                ),
            decreases x_end - nx,
        {
            let idx = cell_index(h, w, ny, nx);
            if !marks[idx] {
                let bonus: i128 = if tier == 1 {
                    500
                } else if tier == 2 && sign_of_step(sy, ny) == toward.0 && sign_of_step(sx, nx)
                    == toward.1 {
                    300
                } else {
                    0
                };
                let ghost prior = out@;
                let ghost prior_marks = marks@;
                marks.set(idx, true);
                out.push(Candidate { y: ny, x: nx, tier, bonus });
                proof {
                    assert forall|k: int| 0 <= k < out@.len() implies (#[trigger] out@[k]).y < b.len()
                        && out@[k].x < b[0]@.len() && marks@[out@[k].y * w + out@[k].x] by {
                        lemma_index_in_grid(out@[k].y as int, out@[k].x as int, h as int, w as int);
                        if k < prior.len() {
                            assert(prior[k] == out@[k]);
                            assert(prior_marks[prior[k].y * w + prior[k].x]);
                        }
                    }
                    assert forall|k: int| start <= k < out@.len() implies {
                        let c = #[trigger] out@[k];
                        &&& abs_diff(c.y as int, seed.0 as int) <= radius as int
                        &&& abs_diff(c.x as int, seed.1 as int) <= radius as int
                        &&& c.tier == tier
                        &&& c.bonus == tier_bonus(tier, seed, c.y as int, c.x as int, tw)
                    } by {
                        if k < prior.len() {
                            assert(prior[k] == out@[k]);
                        } else {
                            assert(out@[k].y == ny && out@[k].x == nx);
                        }
                    }
                    assert forall|i: int, j: int| 0 <= i < j < out@.len() implies (out@[i].y, out@[i].x)
                        != (out@[j].y, out@[j].x) by {
                        if j == out@.len() - 1 {
                            assert(prior[i] == out@[i]);
                            assert(prior_marks[prior[i].y * w + prior[i].x]);
                        } else {
                            assert(prior[i] == out@[i]);
                            assert(prior[j] == out@[j]);
                        }
                    }
                }
            }
            nx = nx + 1;
        }
        proof {
            let below = probe_rows(w as int, y_lo as int, ny as int, x_lo as int, x_end as int, seed, tier, tw, init);
            if nx != x_end {
                assert(probe_row(w as int, ny as int, x_lo as int, x_end as int, seed, tier, tw, below) == below);
            }
            assert(probe_rows(w as int, y_lo as int, ny + 1, x_lo as int, x_end as int, seed, tier, tw, init)
                == probe_row(w as int, ny as int, x_lo as int, x_end as int, seed, tier, tw, below));
        }
        ny = ny + 1;
    }
}

/// Half-width of the square probed around each seed, by phase and board area.
pub open spec fn radius_for(phase: int, area: int) -> int {
    if phase <= 30 {
        if area > LARGE_AREA { 3 } else { 5 }
    } else if phase <= 70 {
        if area > LARGE_AREA { 2 } else { 4 }
    } else {
        if area > LARGE_AREA { 2 } else { 3 }
    }
}

/// The probe radius for this turn.
pub fn search_radius(phase: usize, area: usize) -> (r: usize)
    ensures
        r == radius_for(phase as int, area as int),
        r <= 5,
{
    let large = area > LARGE_AREA;
    if phase <= 30 {
        if large { 3 } else { 5 }
    } else if phase <= 70 {
        if large { 2 } else { 4 }
    } else {
        if large { 2 } else { 3 }
    }
}

pub open spec fn bonuses_ok(cs: Seq<Candidate>) -> bool {
    forall|k: int| 0 <= k < cs.len() ==> 0 <= (#[trigger] cs[k]).bonus <= 500
}

/// Probes around each seed in turn, as candidates of `tier`.
pub(crate) fn probe_all(
    board: &[Vec<char>],
    seeds: &Vec<(usize, usize)>,
    radius: usize,
    tier: u8,
    toward: (i8, i8),
    marks: &mut Vec<bool>,
    out: &mut Vec<Candidate>,
)
    requires
        wf_board(board@),
        radius <= 5,
        cands_ok(board@, old(out)@, old(marks)@),
        bonuses_ok(old(out)@),
    ensures
        cands_ok(board@, final(out)@, final(marks)@),
        bonuses_ok(final(out)@),
        (final(marks)@, final(out)@) == probe_seeds(
            board@.len() as int,
            board@[0]@.len() as int,
            seeds@,
            seeds@.len() as int,
            radius as int,
            tier,
            (toward.0 as int, toward.1 as int),
            (old(marks)@, old(out)@),
        ),
{
    let ghost init = (marks@, out@);
    let mut i: usize = 0;
    while i < seeds.len()
        invariant
            wf_board(board@),
            radius <= 5,
            cands_ok(board@, out@, marks@),
            bonuses_ok(out@),
            0 <= i <= seeds@.len(),
            (marks@, out@) == probe_seeds(
                board@.len() as int,
                board@[0]@.len() as int,
                seeds@,
                i as int,
                radius as int,
                tier,
                (toward.0 as int, toward.1 as int),
                init,
            ),
        decreases seeds@.len() - i,
    {
        let ghost prior = out@;
        probe(board, seeds[i], radius, tier, toward, marks, out);
        assert forall|k: int| 0 <= k < out@.len() implies 0 <= (#[trigger] out@[k]).bonus <= 500 by {
            if k < prior.len() {
                assert(prior[k] == out@[k]);
            }
        }
        i = i + 1;
    }
}

} // verus!
