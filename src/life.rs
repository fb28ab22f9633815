//! The rule of the game as mathematics: cells are a row-major sequence of
//! booleans, `width * height` long, on a torus.

use vstd::arithmetic::div_mod::{
    lemma_fundamental_div_mod, lemma_fundamental_div_mod_converse, lemma_mod_add_multiples_vanish,
    lemma_mod_self_0, lemma_small_mod,
};
use crate::spaceships::{pattern_of, CommonSpaceships};
use vstd::prelude::*;

verus! {

/// Coordinate `x` moved by `d` on an axis of length `n` that wraps round.
pub open spec fn wrap(x: int, d: int, n: int) -> int {
    (x + d + n) % n
}

/// Whether the cell at `(r, c)` of a grid `w` cells wide is alive.
pub open spec fn cell_at(cells: Seq<bool>, w: int, r: int, c: int) -> bool {
    cells[r * w + c]
}

/// 1 when the neighbour of `(r, c)` at offset `(dr, dc)` is alive, else 0.
pub open spec fn live_at(cells: Seq<bool>, w: int, h: int, r: int, c: int, dr: int, dc: int) -> int {
    if cell_at(cells, w, wrap(r, dr, h), wrap(c, dc, w)) {
        1
    } else {
        0
    }
}

/// The live cells among the eight neighbours of `(r, c)`, the grid wrapping
/// on both axes. Where the grid is narrower than three cells, one cell may be
/// counted under several offsets.
pub open spec fn neighbour_count(cells: Seq<bool>, w: int, h: int, r: int, c: int) -> int {
    live_at(cells, w, h, r, c, -1, -1) + live_at(cells, w, h, r, c, -1, 0)
        + live_at(cells, w, h, r, c, -1, 1) + live_at(cells, w, h, r, c, 0, -1)
        + live_at(cells, w, h, r, c, 0, 1) + live_at(cells, w, h, r, c, 1, -1)
        + live_at(cells, w, h, r, c, 1, 0) + live_at(cells, w, h, r, c, 1, 1)
}

/// The state of a cell in the next generation: a live cell stays alive with
/// two or three live neighbours, a dead one comes alive with exactly three.
pub open spec fn next_state(alive: bool, n: int) -> bool {
    if alive {
        n == 2 || n == 3
    } else {
        n == 3
    }
}

/// The generation that follows `cells`, each cell decided from `cells` alone.
pub open spec fn next_generation(cells: Seq<bool>, w: int, h: int) -> Seq<bool> {
    Seq::new(
        cells.len(),
        |i: int| next_state(cells[i], neighbour_count(cells, w, h, i / w, i % w)),
    )
}

/// A sequence of `n` dead cells.
pub open spec fn all_dead(n: nat) -> Seq<bool> {
    Seq::new(n, |i: int| false)
}

/// The cells after writing the pattern `pat` (`pw` wide, `ph` high, row-major)
/// with its top-left corner on row `sr` and column `sc` of a grid `w` cells
/// wide. Both the live and the dead cells of the pattern are written; what
/// falls outside the grid is dropped, nothing wraps round.
pub open spec fn stamp(cells: Seq<bool>, w: int, pat: Seq<bool>, pw: int, ph: int, sr: int, sc: int) -> Seq<bool> {
    Seq::new(
        cells.len(),
        |i: int|
            {
                let pr = i / w - sr;
                let pc = i % w - sc;
                if 0 <= pr < ph && 0 <= pc < pw {
                    pat[pr * pw + pc]
                } else {
                    cells[i]
                }
            },
    )
}

/// Like `stamp`, with only the first `n` cells of the pattern written.
pub open spec fn stamp_prefix(cells: Seq<bool>, w: int, pat: Seq<bool>, pw: int, n: int, sr: int, sc: int) -> Seq<bool> {
    Seq::new(
        cells.len(),
        |i: int|
            {
                let pr = i / w - sr;
                let pc = i % w - sc;
                if 0 <= pr && 0 <= pc < pw && pr * pw + pc < n {
                    pat[pr * pw + pc]
                } else {
                    cells[i]
                }
            },
    )
}

/// A pattern cell `k` that lands on grid position `i` is the one whose row
/// and column offsets are those of `i` from the corner `(sr, sc)`.
pub proof fn lemma_stamp_target(i: int, w: int, pw: int, k: int, sr: int, sc: int)
    requires
        0 < pw,
        0 <= i / w - sr,
        0 <= i % w - sc < pw,
        (i / w - sr) * pw + (i % w - sc) == k,
    ensures
        i / w == sr + k / pw,
        i % w == sc + k % pw,
{
    lemma_fundamental_div_mod_converse(k, pw, i / w - sr, i % w - sc);
}

/// The full pattern, `pw * ph` cells, written cell by cell, is the stamp.
pub proof fn lemma_stamp_complete(cells: Seq<bool>, w: int, pat: Seq<bool>, pw: int, ph: int, sr: int, sc: int)
    requires
        0 < pw,
        0 <= ph,
    ensures
        stamp_prefix(cells, w, pat, pw, pw * ph, sr, sc) == stamp(cells, w, pat, pw, ph, sr, sc),
{
    assert forall|i: int| 0 <= i < cells.len() implies #[trigger] stamp_prefix(cells, w, pat, pw, pw * ph, sr, sc)[i]
        == stamp(cells, w, pat, pw, ph, sr, sc)[i] by {
        let pr = i / w - sr;
        let pc = i % w - sc;
        if 0 <= pr && 0 <= pc < pw {
            assert(pr * pw + pc < pw * ph <==> pr < ph) by (nonlinear_arith)
                requires
                    0 <= pr,
                    0 <= pc < pw,
            ;
        }
    }
    assert(stamp_prefix(cells, w, pat, pw, pw * ph, sr, sc) =~= stamp(cells, w, pat, pw, ph, sr, sc));
}

/// Stamping is clipped: every pattern cell that lands inside the grid is
/// written there, and every grid cell outside the pattern's rectangle, in
/// neighbouring rows too, keeps its value.
pub proof fn lemma_stamp_clipped(cells: Seq<bool>, w: int, h: int, pat: Seq<bool>, pw: int, ph: int, sr: int, sc: int)
    requires
        0 < w,
        0 < h,
        cells.len() == w * h,
        0 <= sr,
        0 <= sc,
    ensures
        stamp(cells, w, pat, pw, ph, sr, sc).len() == cells.len(),
        forall|pr: int, pc: int|
            0 <= pr < ph && 0 <= pc < pw && sr + pr < h && sc + pc < w ==> #[trigger] stamp(
                cells,
                w,
                pat,
                pw,
                ph,
                sr,
                sc,
            )[(sr + pr) * w + sc + pc] == pat[pr * pw + pc],
        forall|r: int, c: int|
            0 <= r < h && 0 <= c < w && !(sr <= r < sr + ph && sc <= c < sc + pw) ==> #[trigger] stamp(
                cells,
                w,
                pat,
                pw,
                ph,
                sr,
                sc,
            )[r * w + c] == cells[r * w + c],
{
    assert forall|pr: int, pc: int|
        0 <= pr < ph && 0 <= pc < pw && sr + pr < h && sc + pc < w implies #[trigger] stamp(
            cells,
            w,
            pat,
            pw,
            ph,
            sr,
            sc,
        )[(sr + pr) * w + sc + pc] == pat[pr * pw + pc] by {
        lemma_index(sr + pr, sc + pc, w, h);
    }
    assert forall|r: int, c: int|
        0 <= r < h && 0 <= c < w && !(sr <= r < sr + ph && sc <= c < sc + pw) implies #[trigger] stamp(
            cells,
            w,
            pat,
            pw,
            ph,
            sr,
            sc,
        )[r * w + c] == cells[r * w + c] by {
        lemma_index(r, c, w, h);
    }
}

/// Moving by -1, 0 or 1 on a wrapping axis is stepping back or forth, with
/// the two ends joined.
pub proof fn lemma_wrap(x: int, n: int)
    requires
        0 <= x < n,
    ensures
        wrap(x, -1, n) == if x == 0 { n - 1 } else { x - 1 },
        wrap(x, 0, n) == x,
        wrap(x, 1, n) == if x == n - 1 { 0 } else { x + 1 },
{
    if x == 0 {
        lemma_small_mod((n - 1) as nat, n as nat);
    } else {
        lemma_mod_add_multiples_vanish(x - 1, n);
        lemma_small_mod((x - 1) as nat, n as nat);
    }
    lemma_mod_add_multiples_vanish(x, n);
    lemma_small_mod(x as nat, n as nat);
    lemma_mod_add_multiples_vanish(x + 1, n);
    if x == n - 1 {
        lemma_mod_self_0(n);
    } else {
        lemma_small_mod((x + 1) as nat, n as nat);
    }
}

/// Position `r * w + c` of a row-major grid lies inside the grid, and row
/// and column are recovered from it by division.
pub proof fn lemma_index(r: int, c: int, w: int, h: int)
    requires
        0 <= r < h,
        0 <= c < w,
    ensures
        0 <= r * w + c < w * h,
        (r * w + c) / w == r,
        (r * w + c) % w == c,
{
    assert(0 <= r * w + c < w * h) by (nonlinear_arith)
        requires
            0 <= r < h,
            0 <= c < w,
    ;
    lemma_fundamental_div_mod_converse(r * w + c, w, r, c);
}

/// A position inside the grid has its row below the height and its column
/// below the width, and is `row * w + column`.
pub proof fn lemma_position(i: int, w: int, h: int)
    requires
        0 <= i < w * h,
        0 < w,
    ensures
        0 <= i / w < h,
        0 <= i % w < w,
        i == (i / w) * w + i % w,
{
    lemma_fundamental_div_mod(i, w);
    assert(i == (i / w) * w + i % w) by (nonlinear_arith)
        requires
            i == w * (i / w) + i % w,
    ;
    assert(0 <= i / w < h) by (nonlinear_arith)
        requires
            0 <= i < w * h,
            0 < w,
            i == (i / w) * w + i % w,
            0 <= i % w < w,
    ;
}

/// A grid `w` wide and `h` high whose only live cells form the 2×2 block
/// with its top-left cell on row `r` and column `c`.
pub open spec fn block(w: int, h: int, r: int, c: int) -> Seq<bool> {
    Seq::new(
        (w * h) as nat,
        |i: int| (i / w == r || i / w == r + 1) && (i % w == c || i % w == c + 1),
    )
}

/// In a block grid, the cell at `(x, y)` is alive exactly when it is one of
/// the block's four.
proof fn lemma_block_cell(w: int, h: int, r: int, c: int, x: int, y: int)
    requires
        0 <= x < h,
        0 <= y < w,
    ensures
        cell_at(block(w, h, r, c), w, x, y) == ((x == r || x == r + 1) && (y == c || y == c + 1)),
{
    lemma_index(x, y, w, h);
}

/// A block is a still life: on a grid at least four cells wide and high,
/// where the block's neighbourhood does not wrap onto itself, one generation
/// leaves a lone 2×2 block unchanged.
pub proof fn lemma_block_is_still(w: int, h: int, r: int, c: int)
    requires
        4 <= w,
        4 <= h,
        0 <= r,
        r + 1 < h,
        0 <= c,
        c + 1 < w,
    ensures
        next_generation(block(w, h, r, c), w, h) == block(w, h, r, c),
{
    let cells = block(w, h, r, c);
    assert forall|i: int| 0 <= i < cells.len() implies #[trigger] next_generation(cells, w, h)[i]
        == cells[i] by {
        assert(0 <= w * h) by (nonlinear_arith)
            requires
                4 <= w,
                4 <= h,
        ;
        lemma_position(i, w, h);
        let x = i / w;
        let y = i % w;
        lemma_wrap(x, h);
        lemma_wrap(y, w);
        let n = wrap(x, -1, h);
        let s = wrap(x, 1, h);
        let west = wrap(y, -1, w);
        let east = wrap(y, 1, w);
        lemma_block_cell(w, h, r, c, n, west);
        lemma_block_cell(w, h, r, c, n, y);
        lemma_block_cell(w, h, r, c, n, east);
        lemma_block_cell(w, h, r, c, x, west);
        lemma_block_cell(w, h, r, c, x, east);
        lemma_block_cell(w, h, r, c, s, west);
        lemma_block_cell(w, h, r, c, s, y);
        lemma_block_cell(w, h, r, c, s, east);
    }
    assert(next_generation(cells, w, h) =~= cells);
}

/// Phase `k` of a glider, for `k` from 0 to 4: whether the cell at offset
/// `(x, y)` from the corner it was seeded at is alive. Phase 0 is the glider
/// as seeded; phase 4 is phase 0 one row down and one column right.
pub open spec fn glider_phase(k: int, x: int, y: int) -> bool {
    if k == 0 {
        (x == 0 && y == 1) || (x == 1 && y == 2) || (x == 2 && (y == 0 || y == 1 || y == 2))
    } else if k == 1 {
        (x == 1 && (y == 0 || y == 2)) || (x == 2 && (y == 1 || y == 2)) || (x == 3 && y == 1)
    } else if k == 2 {
        (x == 1 && y == 2) || (x == 2 && (y == 0 || y == 2)) || (x == 3 && (y == 1 || y == 2))
    } else if k == 3 {
        (x == 1 && y == 1) || (x == 2 && (y == 2 || y == 3)) || (x == 3 && (y == 1 || y == 2))
    } else {
        (x == 1 && y == 2) || (x == 2 && y == 3) || (x == 3 && (y == 1 || y == 2 || y == 3))
    }
}

/// A grid `w` wide and `h` high holding only phase `k` of a glider whose
/// corner is on row `a` and column `b`; offsets from the corner are taken
/// round the torus.
pub open spec fn glider_on(w: int, h: int, k: int, a: int, b: int) -> Seq<bool> {
    Seq::new((w * h) as nat, |i: int| glider_phase(k, (i / w - a) % h, (i % w - b) % w))
}

/// The live cells among the eight neighbours of offset `(x, y)` from the
/// corner of a glider in phase `k`, on a torus `w` wide and `h` high.
pub open spec fn phase_count(w: int, h: int, k: int, x: int, y: int) -> int {
    (if glider_phase(k, wrap(x, -1, h), wrap(y, -1, w)) { 1int } else { 0 })
        + (if glider_phase(k, wrap(x, -1, h), y) { 1int } else { 0 })
        + (if glider_phase(k, wrap(x, -1, h), wrap(y, 1, w)) { 1int } else { 0 })
        + (if glider_phase(k, x, wrap(y, -1, w)) { 1int } else { 0 })
        + (if glider_phase(k, x, wrap(y, 1, w)) { 1int } else { 0 })
        + (if glider_phase(k, wrap(x, 1, h), wrap(y, -1, w)) { 1int } else { 0 })
        + (if glider_phase(k, wrap(x, 1, h), y) { 1int } else { 0 })
        + (if glider_phase(k, wrap(x, 1, h), wrap(y, 1, w)) { 1int } else { 0 })
}

/// The remainder of a value strictly between `-n` and `n`.
proof fn lemma_mod_near(v: int, n: int)
    requires
        -n < v < n,
    ensures
        v % n == if v >= 0 { v } else { v + n },
{
    if v >= 0 {
        lemma_small_mod(v as nat, n as nat);
    } else {
        lemma_mod_add_multiples_vanish(v, n);
        lemma_small_mod((v + n) as nat, n as nat);
    }
}

/// Offsets from a corner `a` commute with moving round the torus: the offset
/// of the neighbour is the neighbour of the offset.
proof fn lemma_offset_wrap(x: int, d: int, a: int, n: int)
    requires
        0 <= x < n,
        0 <= a < n,
        -1 <= d <= 1,
    ensures
        0 <= (x - a) % n < n,
        (wrap(x, d, n) - a) % n == wrap((x - a) % n, d, n),
{
    lemma_wrap(x, n);
    lemma_mod_near(x - a, n);
    lemma_wrap((x - a) % n, n);
    lemma_mod_near(wrap(x, d, n) - a, n);
}

/// In a glider grid, the cell at `(x, y)` is alive as the phase says of its
/// offset from the corner.
proof fn lemma_glider_cell(w: int, h: int, k: int, a: int, b: int, x: int, y: int)
    requires
        0 <= x < h,
        0 <= y < w,
    ensures
        cell_at(glider_on(w, h, k, a, b), w, x, y) == glider_phase(k, (x - a) % h, (y - b) % w),
{
    lemma_index(x, y, w, h);
}

/// On a torus at least six cells wide and high, one generation takes offset
/// `(x, y)` of a glider from its state in phase `k` to its state in phase
/// `k + 1`.
#[verifier::spinoff_prover]
#[verifier::rlimit(100)]
proof fn lemma_glider_phase_step(w: int, h: int, k: int, x: int, y: int)
    requires
        6 <= w,
        6 <= h,
        0 <= k < 4,
        0 <= x < h,
        0 <= y < w,
    ensures
        next_state(glider_phase(k, x, y), phase_count(w, h, k, x, y)) == glider_phase(k + 1, x, y),
{
    lemma_wrap(x, h);
    lemma_wrap(y, w);
}

/// The neighbours of cell `(x, y)` of a glider grid are counted by the
/// phase at the offsets round the corner.
proof fn lemma_glider_count(w: int, h: int, k: int, a: int, b: int, x: int, y: int)
    requires
        0 < w,
        0 < h,
        0 <= a < h,
        0 <= b < w,
        0 <= x < h,
        0 <= y < w,
    ensures
        neighbour_count(glider_on(w, h, k, a, b), w, h, x, y) == phase_count(
            w,
            h,
            k,
            (x - a) % h,
            (y - b) % w,
        ),
{
    lemma_wrap(x, h);
    lemma_wrap(y, w);
    lemma_offset_wrap(x, -1, a, h);
    lemma_offset_wrap(x, 0, a, h);
    lemma_offset_wrap(x, 1, a, h);
    lemma_offset_wrap(y, -1, b, w);
    lemma_offset_wrap(y, 0, b, w);
    lemma_offset_wrap(y, 1, b, w);
    let n = wrap(x, -1, h);
    let s = wrap(x, 1, h);
    let west = wrap(y, -1, w);
    let east = wrap(y, 1, w);
    lemma_glider_cell(w, h, k, a, b, n, west);
    lemma_glider_cell(w, h, k, a, b, n, y);
    lemma_glider_cell(w, h, k, a, b, n, east);
    lemma_glider_cell(w, h, k, a, b, x, west);
    lemma_glider_cell(w, h, k, a, b, x, east);
    lemma_glider_cell(w, h, k, a, b, s, west);
    lemma_glider_cell(w, h, k, a, b, s, y);
    lemma_glider_cell(w, h, k, a, b, s, east);
}

/// On a torus at least six cells wide and high, one generation takes a
/// glider with its corner at `(a, b)` from phase `k` to phase `k + 1`.
proof fn lemma_glider_step(w: int, h: int, k: int, a: int, b: int)
    requires
        6 <= w,
        6 <= h,
        0 <= k < 4,
        0 <= a < h,
        0 <= b < w,
    ensures
        next_generation(glider_on(w, h, k, a, b), w, h) == glider_on(w, h, k + 1, a, b),
{
    let cells = glider_on(w, h, k, a, b);
    assert forall|i: int| 0 <= i < cells.len() implies #[trigger] next_generation(cells, w, h)[i]
        == glider_on(w, h, k + 1, a, b)[i] by {
        assert(0 <= w * h) by (nonlinear_arith)
            requires
                6 <= w,
                6 <= h,
        ;
        lemma_position(i, w, h);
        let x = i / w;
        let y = i % w;
        lemma_glider_count(w, h, k, a, b, x, y);
        lemma_offset_wrap(x, 0, a, h);
        lemma_offset_wrap(y, 0, b, w);
        lemma_glider_phase_step(w, h, k, (x - a) % h, (y - b) % w);
    }
    assert(next_generation(cells, w, h) =~= glider_on(w, h, k + 1, a, b));
}

/// Phase 4 of a glider with its corner at `(a, b)` is phase 0 with its
/// corner one row down and one column right, round the torus.
proof fn lemma_glider_phase_four(w: int, h: int, a: int, b: int)
    requires
        6 <= w,
        6 <= h,
        0 <= a < h,
        0 <= b < w,
    ensures
        glider_on(w, h, 4, a, b) == glider_on(w, h, 0, (a + 1) % h, (b + 1) % w),
{
    let a2 = (a + 1) % h;
    let b2 = (b + 1) % w;
    lemma_mod_near(a + 1 - h, h);
    lemma_mod_add_multiples_vanish(a + 1 - h, h);
    lemma_mod_near(b + 1 - w, w);
    lemma_mod_add_multiples_vanish(b + 1 - w, w);
    if a + 1 < h {
        lemma_small_mod((a + 1) as nat, h as nat);
    }
    if b + 1 < w {
        lemma_small_mod((b + 1) as nat, w as nat);
    }
    let four = glider_on(w, h, 4, a, b);
    assert forall|i: int| 0 <= i < four.len() implies #[trigger] four[i] == glider_on(w, h, 0, a2, b2)[i] by {
        assert(0 <= w * h) by (nonlinear_arith)
            requires
                6 <= w,
                6 <= h,
        ;
        lemma_position(i, w, h);
        let x = i / w;
        let y = i % w;
        lemma_mod_near(x - a, h);
        lemma_mod_near(y - b, w);
        lemma_mod_near(x - a2, h);
        lemma_mod_near(y - b2, w);
    }
    assert(four =~= glider_on(w, h, 0, a2, b2));
}

/// Stamping the glider's template with its corner on row `r` and column `r`
/// of a dead grid gives a glider in phase 0 with its corner there.
proof fn lemma_glider_stamp(w: int, h: int, r: int)
    requires
        6 <= w,
        6 <= h,
        r == 1 || r == 2,
    ensures
        stamp(all_dead((w * h) as nat), w, pattern_of(CommonSpaceships::Glider).0, 3, 3, r, r)
            == glider_on(w, h, 0, r, r),
{
    let pat = pattern_of(CommonSpaceships::Glider).0;
    let stamped = stamp(all_dead((w * h) as nat), w, pat, 3, 3, r, r);
    assert forall|i: int| 0 <= i < stamped.len() implies #[trigger] stamped[i] == glider_on(w, h, 0, r, r)[i] by {
        assert(0 <= w * h) by (nonlinear_arith)
            requires
                6 <= w,
                6 <= h,
        ;
        lemma_position(i, w, h);
        let pr = i / w - r;
        let pc = i % w - r;
        lemma_mod_near(pr, h);
        lemma_mod_near(pc, w);
        if 0 <= pr < 3 && 0 <= pc < 3 {
            assert(pat[pr * 3 + pc] == glider_phase(0, pr, pc));
        }
    }
    assert(stamped =~= glider_on(w, h, 0, r, r));
}

/// A glider on a torus at least six cells wide and high, with its corner on
/// any row `a` and column `b`, is four generations later the same shape one
/// row down and one column right, round the torus.
pub proof fn lemma_glider_translates(w: int, h: int, a: int, b: int)
    requires
        6 <= w,
        6 <= h,
        0 <= a < h,
        0 <= b < w,
    ensures
        next_generation(
            next_generation(next_generation(next_generation(glider_on(w, h, 0, a, b), w, h), w, h), w, h),
            w,
            h,
        ) == glider_on(w, h, 0, (a + 1) % h, (b + 1) % w),
{
    lemma_glider_step(w, h, 0, a, b);
    lemma_glider_step(w, h, 1, a, b);
    lemma_glider_step(w, h, 2, a, b);
    lemma_glider_step(w, h, 3, a, b);
    lemma_glider_phase_four(w, h, a, b);
}

/// A glider stamped with its corner on row 1 and column 1 of a dead grid at
/// least six cells wide and high is, four generations later, the same shape
/// stamped one row down and one column right.
pub proof fn lemma_glider_moves(w: int, h: int)
    requires
        6 <= w,
        6 <= h,
    ensures
        ({
            let pat = pattern_of(CommonSpaceships::Glider).0;
            let seeded = stamp(all_dead((w * h) as nat), w, pat, 3, 3, 1, 1);
            next_generation(
                next_generation(next_generation(next_generation(seeded, w, h), w, h), w, h),
                w,
                h,
            ) == stamp(all_dead((w * h) as nat), w, pat, 3, 3, 2, 2)
        }),
{
    lemma_glider_stamp(w, h, 1);
    lemma_glider_stamp(w, h, 2);
    lemma_glider_translates(w, h, 1, 1);
    lemma_small_mod(2, h as nat);
    lemma_small_mod(2, w as nat);
}

} // verus!
