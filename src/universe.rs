//! The universe: a toroidal grid of cells, double buffered so that a
//! generation is computed from the previous one alone.

use crate::bitset::{bit, bits_of, blocks, cleared, flip_bit, put_bit};
use crate::life::{
    all_dead, cell_at, lemma_index, lemma_position, lemma_stamp_complete, lemma_stamp_target,
    lemma_wrap, neighbour_count, next_generation, stamp, stamp_prefix,
};
use crate::spaceships::{pattern_of, CommonSpaceships};
use fixedbitset::FixedBitSet;
use vstd::arithmetic::div_mod::lemma_fundamental_div_mod_converse;
use vstd::prelude::*;

verus! {

/// Why an operation on a universe was refused; the universe is left as it was.
#[derive(Clone, Copy, Debug, PartialEq, Eq, Structural)]
pub enum GridError {
    /// A width or a height of zero.
    InvalidDimension,
    /// A row or column outside the grid.
    OutOfBounds,
}

/// How a new universe's cells are first set.
pub enum FillPolicy {
    /// Every cell dead.
    AllDead,
    /// One random draw per cell, row-major.
    Random(Vec<bool>),
    /// The cells at the listed coordinates `(row, col)` alive, the others dead.
    Explicit(Vec<(u32, u32)>),
}

/// What a universe holds, as mathematics: its dimensions and its cells in
/// row-major order.
pub struct Grid {
    pub width: nat,
    pub height: nat,
    pub cells: Seq<bool>,
}

/// A grid is valid when neither dimension is zero, its size fits in a `u32`,
/// and it has one cell per position.
pub open spec fn valid(g: Grid) -> bool {
    &&& g.width > 0
    &&& g.height > 0
    &&& g.width * g.height <= u32::MAX
    &&& g.cells.len() == g.width * g.height
}

/// A grid of cells that wraps round on both axes. `cells` holds the current
/// generation; `back_buffer`, of the same size, receives the next one during
/// a tick, after which the two trade places.
pub struct Universe {
    width: u32,
    height: u32,
    cells: FixedBitSet,
    back_buffer: FixedBitSet,
}

impl View for Universe {
    type V = Grid;

    closed spec fn view(&self) -> Grid {
        Grid { width: self.width as nat, height: self.height as nat, cells: bits_of(self.cells) }
    }
}

/// Whether `(r, c)` is one of the coordinates listed in `coords`.
pub open spec fn listed(coords: Seq<(u32, u32)>, r: int, c: int) -> bool {
    exists|k: int| 0 <= k < coords.len() && coords[k].0 == r && coords[k].1 == c
}

/// Whether every coordinate listed in `coords` lies inside a grid `w` wide
/// and `h` high.
pub open spec fn all_inside(coords: Seq<(u32, u32)>, w: int, h: int) -> bool {
    forall|k: int| 0 <= k < coords.len() ==> coords[k].0 < h && coords[k].1 < w
}

/// The cells with those at the coordinates listed in `coords` made alive and
/// the others unchanged.
pub open spec fn with_alive(cells: Seq<bool>, w: int, coords: Seq<(u32, u32)>) -> Seq<bool> {
    Seq::new(cells.len(), |i: int| cells[i] || listed(coords, i / w, i % w))
}

/// Character `j` of the text of a grid `w` cells wide: each row is `w`
/// glyphs followed by a line break.
pub open spec fn rendered_char(cells: Seq<bool>, w: int, j: int) -> char {
    let r = j / (w + 1);
    let c = j % (w + 1);
    if c == w {
        '\n'
    } else if cell_at(cells, w, r, c) {
        '◼'
    } else {
        '◻'
    }
}

/// The text of a grid `w` cells wide and `h` high, row after row.
pub open spec fn rendered(cells: Seq<bool>, w: int, h: int) -> Seq<char> {
    Seq::new((h * (w + 1)) as nat, |j: int| rendered_char(cells, w, j))
}

impl Universe {
    /// The scratch buffer has the shape of the grid.
    pub closed spec fn scratch_fits(&self) -> bool {
        bits_of(self.back_buffer).len() == bits_of(self.cells).len()
    }

    /// The universe is well formed: a valid grid with a scratch buffer of
    /// its size.
    pub open spec fn wf(&self) -> bool {
        valid(self@) && self.scratch_fits()
    }

    /// Get the index of a cell in the universe, given a row and a column.
    fn get_index(&self, row: u32, col: u32) -> (r: usize)
        requires
            self.wf(),
            row < self.height,
            col < self.width,
        ensures
            r == row * self.width + col,
            r < bits_of(self.cells).len(),
    {
        proof {
            lemma_index(row as int, col as int, self.width as int, self.height as int);
        }
        (row * self.width + col) as usize
    }

    /// Count the live neighbours of a cell, the grid wrapping round on both
    /// axes.
    pub fn live_neighbour_count(&self, row: u32, col: u32) -> (r: u8)
        requires
            self.wf(),
            row < self@.height,
            col < self@.width,
        ensures
            r == neighbour_count(self@.cells, self@.width as int, self@.height as int, row as int, col as int),
            r <= 8,
    {
        proof {
            lemma_wrap(row as int, self.height as int);
            lemma_wrap(col as int, self.width as int);
        }
        let north = if row == 0 { self.height - 1 } else { row - 1 };
        let south = if row == self.height - 1 { 0 } else { row + 1 };
        let west = if col == 0 { self.width - 1 } else { col - 1 };
        let east = if col == self.width - 1 { 0 } else { col + 1 };

        let mut count: u8 = 0;
        if bit(&self.cells, self.get_index(north, west)) {
            count += 1;
        }
        if bit(&self.cells, self.get_index(north, col)) {
            count += 1;
        }
        if bit(&self.cells, self.get_index(north, east)) {
            count += 1;
        }
        if bit(&self.cells, self.get_index(row, west)) {
            count += 1;
        }
        if bit(&self.cells, self.get_index(row, east)) {
            count += 1;
        }
        if bit(&self.cells, self.get_index(south, west)) {
            count += 1;
        }
        if bit(&self.cells, self.get_index(south, col)) {
            count += 1;
        }
        if bit(&self.cells, self.get_index(south, east)) {
            count += 1;
        }
        count
    }

    /// Get the dead and alive values of the entire universe, row by row.
    pub fn get_cells(&self) -> (r: Vec<bool>)
        requires
            self.wf(),
        ensures
            r@ == self@.cells,
            r@.len() == self@.width * self@.height,
    {
        let n = (self.width * self.height) as usize;
        let mut cells: Vec<bool> = Vec::new();
        let mut i: usize = 0;
        while i < n
            invariant
                self.wf(),
                n == bits_of(self.cells).len(),
                i <= n,
                cells@ =~= bits_of(self.cells).subrange(0, i as int),
            decreases n - i,
        {
            cells.push(bit(&self.cells, i));
            i += 1;
        }
        cells
    }

    /// Calculate the next generation of the universe.
    pub fn tick(&mut self)
        requires
            old(self).wf(),
        ensures
            final(self).wf(),
            final(self)@.width == old(self)@.width,
            final(self)@.height == old(self)@.height,
            final(self)@.cells == next_generation(
                old(self)@.cells,
                old(self)@.width as int,
                old(self)@.height as int,
            ),
    {
        let n = (self.width * self.height) as usize;
        let width = self.width as usize;
        let ghost w = self.width as int;
        let ghost h = self.height as int;
        let ghost next = next_generation(bits_of(self.cells), w, h);
        let mut i: usize = 0;
        while i < n
            invariant
                self.wf(),
                self.width == old(self).width,
                self.height == old(self).height,
                self.cells == old(self).cells,
                w == self.width,
                h == self.height,
                width == self.width,
                n == w * h,
                next == next_generation(bits_of(self.cells), w, h),
                i <= n,
                forall|j: int| 0 <= j < i ==> bits_of(self.back_buffer)[j] == next[j],
            decreases n - i,
        {
            proof {
                lemma_position(i as int, w, h);
            }
            let row = (i / width) as u32;
            let col = (i % width) as u32;
            let cell = bit(&self.cells, i);
            let live_neighbours = self.live_neighbour_count(row, col);
            let state = match (cell, live_neighbours) {
                // a live cell with fewer than two live neighbours dies
                (true, x) if x < 2 => false,
                // a live cell with two or three live neighbours lives on
                (true, 2) | (true, 3) => true,
                // a live cell with more than three live neighbours dies
                (true, x) if x > 3 => false,
                // a dead cell with exactly three live neighbours comes alive
                (false, 3) => true,
                // any other cell stays as it is
                (other, _) => other,
            };
            put_bit(&mut self.back_buffer, i, state);
            i += 1;
        }
        std::mem::swap(&mut self.cells, &mut self.back_buffer);
        assert(bits_of(self.cells) =~= next);
    }

    /// Place a spaceship with its top-left corner on row `start_row` and
    /// column `start_col`. Its cells overwrite the grid's, dead ones too; what
    /// falls outside the grid is dropped.
    pub fn add_spaceship(&mut self, spaceship: CommonSpaceships, start_row: usize, start_col: usize)
        requires
            old(self).wf(),
        ensures
            final(self).wf(),
            final(self)@.width == old(self)@.width,
            final(self)@.height == old(self)@.height,
            final(self)@.cells == stamp(
                old(self)@.cells,
                old(self)@.width as int,
                pattern_of(spaceship).0,
                pattern_of(spaceship).1 as int,
                pattern_of(spaceship).2 as int,
                start_row as int,
                start_col as int,
            ),
    {
        let (pattern, pat_width, pat_height) = spaceship.pattern();
        let width = self.width as usize;
        let height = self.height as usize;
        let ghost w = width as int;
        let ghost h = height as int;
        let ghost sr = start_row as int;
        let ghost sc = start_col as int;
        let ghost before = bits_of(self.cells);
        let mut k: usize = 0;
        while k < pattern.len()
            invariant
                self.wf(),
                self.width == old(self).width,
                self.height == old(self).height,
                before == old(self)@.cells,
                w == width,
                h == height,
                width == self.width,
                height == self.height,
                sr == start_row,
                sc == start_col,
                pat_width > 0,
                pattern@.len() == pat_width * pat_height,
                k <= pattern@.len(),
                bits_of(self.cells) == stamp_prefix(before, w, pattern@, pat_width as int, k as int, sr, sc),
            decreases pattern@.len() - k,
        {
            let pr = k / pat_width;
            let pc = k % pat_width;
            proof {
                lemma_position(k as int, pat_width as int, pat_height as int);
            }
            let ghost prev = bits_of(self.cells);
            let ghost len = prev.len();
            let inside = start_row < height && pr < height - start_row && start_col < width && pc
                < width - start_col;
            if inside {
                proof {
                    lemma_index((sr + pr) as int, (sc + pc) as int, w, h);
                }
                let idx = (start_row + pr) * width + (start_col + pc);
                put_bit(&mut self.cells, idx, pattern[k]);
            }
            proof {
                let pw = pat_width as int;
                let next = stamp_prefix(before, w, pattern@, pw, k + 1, sr, sc);
                assert forall|i: int| 0 <= i < len implies #[trigger] bits_of(self.cells)[i] == next[i] by {
                    lemma_position(i, w, h);
                    let pri = i / w - sr;
                    let pci = i % w - sc;
                    if 0 <= pri && 0 <= pci < pw && pri * pw + pci == k {
                        lemma_stamp_target(i, w, pw, k as int, sr, sc);
                        assert(inside);
                        lemma_index((sr + pr) as int, (sc + pc) as int, w, h);
                        assert(i == (sr + pr) * w + (sc + pc));
                    } else if inside {
                        lemma_index((sr + pr) as int, (sc + pc) as int, w, h);
                        lemma_fundamental_div_mod_converse(k as int, pw, pr as int, pc as int);
                        if i == (sr + pr) * w + (sc + pc) {
                            assert(pri == pr && pci == pc);
                            assert(pri * pw + pci == k) by (nonlinear_arith)
                                requires
                                    pri == pr,
                                    pci == pc,
                                    k == pr * pw + pc,
                            ;
                        }
                    }
                }
                assert(bits_of(self.cells) =~= next);
            }
            k += 1;
        }
        proof {
            lemma_stamp_complete(before, w, pattern@, pat_width as int, pat_height as int, sr, sc);
        }
    }

    /// Make alive the cells at the coordinates `(row, col)` listed in
    /// `cells`; the others are unchanged. If any coordinate lies outside the
    /// grid, nothing is changed.
    pub fn set_cells(&mut self, cells: &[(u32, u32)]) -> (r: Result<(), GridError>)
        requires
            old(self).wf(),
        ensures
            final(self).wf(),
            final(self)@.width == old(self)@.width,
            final(self)@.height == old(self)@.height,
            all_inside(cells@, old(self)@.width as int, old(self)@.height as int) <==> r is Ok,
            r is Ok ==> final(self)@.cells == with_alive(old(self)@.cells, old(self)@.width as int, cells@),
            r is Err ==> r == Err::<(), GridError>(GridError::OutOfBounds) && final(self)@ == old(self)@,
    {
        let mut k: usize = 0;
        while k < cells.len()
            invariant
                self.wf(),
                k <= cells@.len(),
                all_inside(cells@.subrange(0, k as int), self.width as int, self.height as int),
            decreases cells@.len() - k,
        {
            let (row, col) = cells[k];
            if row >= self.height || col >= self.width {
                return Err(GridError::OutOfBounds);
            }
            proof {
                assert(cells@.subrange(0, k + 1) =~= cells@.subrange(0, k as int).push((row, col)));
            }
            k += 1;
        }
        assert(cells@.subrange(0, cells@.len() as int) =~= cells@);
        let ghost before = bits_of(self.cells);
        let ghost w = self.width as int;
        let ghost h = self.height as int;
        let mut k: usize = 0;
        while k < cells.len()
            invariant
                self.wf(),
                self.width == old(self).width,
                self.height == old(self).height,
                before == old(self)@.cells,
                w == self.width,
                h == self.height,
                all_inside(cells@, w, h),
                k <= cells@.len(),
                bits_of(self.cells) == with_alive(before, w, cells@.subrange(0, k as int)),
            decreases cells@.len() - k,
        {
            let (row, col) = cells[k];
            let idx = self.get_index(row, col);
            let ghost prev = bits_of(self.cells);
            put_bit(&mut self.cells, idx, true);
            proof {
                let done = cells@.subrange(0, k as int);
                let more = cells@.subrange(0, k + 1);
                assert(more =~= done.push((row, col)));
                assert forall|i: int| 0 <= i < before.len() implies #[trigger] bits_of(self.cells)[i]
                    == with_alive(before, w, more)[i] by {
                    lemma_position(i, w, h);
                    lemma_index(row as int, col as int, w, h);
                    if i == idx {
                        assert(more[k as int] == (row, col));
                    } else {
                        if listed(more, i / w, i % w) {
                            let j = choose|j: int|
                                0 <= j < more.len() && more[j].0 == i / w && more[j].1 == i % w;
                            if j < k {
                                assert(done[j] == more[j]);
                            } else {
                                assert(i == row * w + col);
                            }
                        }
                        if listed(done, i / w, i % w) {
                            let j = choose|j: int|
                                0 <= j < done.len() && done[j].0 == i / w && done[j].1 == i % w;
                            assert(more[j] == done[j]);
                        }
                    }
                }
                assert(bits_of(self.cells) =~= with_alive(before, w, more));
            }
            k += 1;
        }
        assert(cells@.subrange(0, cells@.len() as int) =~= cells@);
        Ok(())
    }

    /// Set the width of the universe; all cells become dead. A width of zero
    /// is refused.
    pub fn set_width(&mut self, width: u32) -> (r: Result<(), GridError>)
        requires
            old(self).wf(),
            width * old(self)@.height <= u32::MAX,
        ensures
            final(self).wf(),
            width == 0 ==> r == Err::<(), GridError>(GridError::InvalidDimension) && final(self)@ == old(self)@,
            width > 0 ==> r is Ok,
            r is Ok ==> final(self)@ == (Grid {
                width: width as nat,
                height: old(self)@.height,
                cells: all_dead((width * old(self)@.height) as nat),
            }),
    {
        if width == 0 {
            return Err(GridError::InvalidDimension);
        }
        self.width = width;
        let size = (width * self.height) as usize;
        self.cells = cleared(size);
        self.back_buffer = cleared(size);
        Ok(())
    }

    /// Set the height of the universe; all cells become dead. A height of
    /// zero is refused.
    pub fn set_height(&mut self, height: u32) -> (r: Result<(), GridError>)
        requires
            old(self).wf(),
            old(self)@.width * height <= u32::MAX,
        ensures
            final(self).wf(),
            height == 0 ==> r == Err::<(), GridError>(GridError::InvalidDimension) && final(self)@ == old(self)@,
            height > 0 ==> r is Ok,
            r is Ok ==> final(self)@ == (Grid {
                width: old(self)@.width,
                height: height as nat,
                cells: all_dead((old(self)@.width * height) as nat),
            }),
    {
        if height == 0 {
            return Err(GridError::InvalidDimension);
        }
        self.height = height;
        let size = (self.width * height) as usize;
        self.cells = cleared(size);
        self.back_buffer = cleared(size);
        Ok(())
    }

    /// Kill all cells; the dimensions stay.
    pub fn dead_cells(&mut self)
        requires
            old(self).wf(),
        ensures
            final(self).wf(),
            final(self)@.width == old(self)@.width,
            final(self)@.height == old(self)@.height,
            final(self)@.cells == all_dead(old(self)@.cells.len()),
    {
        let n = (self.width * self.height) as usize;
        let mut i: usize = 0;
        while i < n
            invariant
                self.wf(),
                self.width == old(self).width,
                self.height == old(self).height,
                n == bits_of(self.cells).len(),
                i <= n,
                forall|j: int| 0 <= j < i ==> !bits_of(self.cells)[j],
            decreases n - i,
        {
            put_bit(&mut self.cells, i, false);
            i += 1;
        }
        assert(bits_of(self.cells) =~= all_dead(n as nat));
    }

    /// Fill the universe with random cells: `random` holds one random draw
    /// per cell, in row-major order, and becomes the universe's content.
    pub fn random_cells(&mut self, random: &[bool])
        requires
            old(self).wf(),
            random@.len() == old(self)@.cells.len(),
        ensures
            final(self).wf(),
            final(self)@.width == old(self)@.width,
            final(self)@.height == old(self)@.height,
            final(self)@.cells == random@,
    {
        let n = (self.width * self.height) as usize;
        let mut i: usize = 0;
        while i < n
            invariant
                self.wf(),
                self.width == old(self).width,
                self.height == old(self).height,
                n == bits_of(self.cells).len(),
                n == random@.len(),
                i <= n,
                forall|j: int| 0 <= j < i ==> bits_of(self.cells)[j] == random@[j],
            decreases n - i,
        {
            put_bit(&mut self.cells, i, random[i]);
            i += 1;
        }
        assert(bits_of(self.cells) =~= random@);
    }

    /// Whether the cell at `row`, `col` is alive.
    pub fn get(&self, row: u32, col: u32) -> (r: Result<bool, GridError>)
        requires
            self.wf(),
        ensures
            row >= self@.height || col >= self@.width ==> r == Err::<bool, GridError>(GridError::OutOfBounds),
            row < self@.height && col < self@.width ==> r == Ok::<bool, GridError>(
                cell_at(self@.cells, self@.width as int, row as int, col as int),
            ),
    {
        if row >= self.height || col >= self.width {
            return Err(GridError::OutOfBounds);
        }
        Ok(bit(&self.cells, self.get_index(row, col)))
    }

    /// Make the cell at `row`, `col` alive or dead.
    pub fn set(&mut self, row: u32, col: u32, alive: bool) -> (r: Result<(), GridError>)
        requires
            old(self).wf(),
        ensures
            final(self).wf(),
            final(self)@.width == old(self)@.width,
            final(self)@.height == old(self)@.height,
            row >= old(self)@.height || col >= old(self)@.width ==> r == Err::<(), GridError>(GridError::OutOfBounds)
                && final(self)@ == old(self)@,
            row < old(self)@.height && col < old(self)@.width ==> r is Ok && final(self)@.cells == old(self)@.cells.update(
                row * old(self)@.width + col,
                alive,
            ),
    {
        if row >= self.height || col >= self.width {
            return Err(GridError::OutOfBounds);
        }
        let idx = self.get_index(row, col);
        put_bit(&mut self.cells, idx, alive);
        Ok(())
    }

    /// Toggle the state of the cell at `row`, `col`.
    pub fn toggle_cell(&mut self, row: u32, col: u32) -> (r: Result<(), GridError>)
        requires
            old(self).wf(),
        ensures
            final(self).wf(),
            final(self)@.width == old(self)@.width,
            final(self)@.height == old(self)@.height,
            row >= old(self)@.height || col >= old(self)@.width ==> r == Err::<(), GridError>(GridError::OutOfBounds)
                && final(self)@ == old(self)@,
            row < old(self)@.height && col < old(self)@.width ==> r is Ok && final(self)@.cells == old(self)@.cells.update(
                row * old(self)@.width + col,
                !cell_at(old(self)@.cells, old(self)@.width as int, row as int, col as int),
            ),
    {
        if row >= self.height || col >= self.width {
            return Err(GridError::OutOfBounds);
        }
        let idx = self.get_index(row, col);
        flip_bit(&mut self.cells, idx);
        Ok(())
    }

    /// Returns the width of the universe.
    pub fn width(&self) -> (r: u32)
        ensures
            r == self@.width,
    {
        self.width
    }

    /// Returns the height of the universe.
    pub fn height(&self) -> (r: u32)
        ensures
            r == self@.height,
    {
        self.height
    }

    /// A universe `width` cells wide and `height` high, filled as `fill`
    /// says. A zero dimension is refused, and so is a listed coordinate outside
    /// the grid.
    pub fn with_fill(width: u32, height: u32, fill: FillPolicy) -> (r: Result<Universe, GridError>)
        requires
            width * height <= u32::MAX,
            width > 0 && height > 0 ==> (fill matches FillPolicy::Random(bits) ==> bits@.len() == width
                * height),
        ensures
            width == 0 || height == 0 ==> r matches Err(GridError::InvalidDimension),
            r matches Ok(u) ==> u.wf() && u@.width == width && u@.height == height,
            width > 0 && height > 0 ==> match fill {
                FillPolicy::AllDead => r matches Ok(u) && u@.cells == all_dead((width * height) as nat),
                FillPolicy::Random(bits) => r matches Ok(u) && u@.cells == bits@,
                FillPolicy::Explicit(coords) => if all_inside(coords@, width as int, height as int) {
                    r matches Ok(u) && u@.cells == with_alive(
                        all_dead((width * height) as nat),
                        width as int,
                        coords@,
                    )
                } else {
                    r matches Err(GridError::OutOfBounds)
                },
            },
    {
        if width == 0 || height == 0 {
            return Err(GridError::InvalidDimension);
        }
        let size = (width * height) as usize;
        let mut universe = Universe { width, height, cells: cleared(size), back_buffer: cleared(size) };
        match fill {
            FillPolicy::AllDead => {},
            FillPolicy::Random(bits) => {
                universe.random_cells(bits.as_slice());
            },
            FillPolicy::Explicit(coords) => {
                match universe.set_cells(coords.as_slice()) {
                    Ok(()) => {},
                    Err(e) => {
                        return Err(e);
                    },
                }
            },
        }
        Ok(universe)
    }

    /// Render the universe as text: one line per row, `◼` for a live cell
    /// and `◻` for a dead one.
    pub fn render(&self) -> (r: String)
        requires
            self.wf(),
        ensures
            r@ == rendered(self@.cells, self@.width as int, self@.height as int),
    {
        let ghost w = self.width as int;
        let ghost h = self.height as int;
        let ghost cells = bits_of(self.cells);
        let mut text = String::new();
        let mut row: u32 = 0;
        while row < self.height
            invariant
                self.wf(),
                w == self.width,
                h == self.height,
                cells == bits_of(self.cells),
                row <= h,
                text@ =~= Seq::new((row * (w + 1)) as nat, |j: int| rendered_char(cells, w, j)),
            decreases h - row,
        {
            let mut col: u32 = 0;
            while col < self.width
                invariant
                    self.wf(),
                    w == self.width,
                    h == self.height,
                    cells == bits_of(self.cells),
                    row < h,
                    col <= w,
                    text@ =~= Seq::new((row * (w + 1) + col) as nat, |j: int| rendered_char(cells, w, j)),
                decreases w - col,
            {
                proof {
                    lemma_fundamental_div_mod_converse(row * (w + 1) + col, w + 1, row as int, col as int);
                    reveal_strlit("◼");
                    reveal_strlit("◻");
                }
                let ghost before = text@;
                if bit(&self.cells, self.get_index(row, col)) {
                    text.append("◼");
                } else {
                    text.append("◻");
                }
                assert(text@ =~= before.push(rendered_char(cells, w, row * (w + 1) + col)));
                col += 1;
            }
            proof {
                lemma_fundamental_div_mod_converse(row * (w + 1) + w, w + 1, row as int, w);
                reveal_strlit("\n");
            }
            let ghost before = text@;
            text.append("\n");
            assert(text@ =~= before.push(rendered_char(cells, w, row * (w + 1) + w)));
            assert((row + 1) * (w + 1) == row * (w + 1) + w + 1) by (nonlinear_arith);
            row += 1;
        }
        text
    }

    /// The cells as packed storage, 32 cells to a `u32` block: cell `i` in
    /// row-major order is bit `i % 32` of block `i / 32`.
    pub fn cells(&self) -> (r: &[u32])
        requires
            self.wf(),
        ensures
            r@.len() == (self@.cells.len() + 31) / 32,
            forall|i: int|
                0 <= i < self@.cells.len() ==> #[trigger] self@.cells[i] == (((r@[i / 32] >> ((i % 32) as u32))
                    & 1u32) == 1u32),
    {
        blocks(&self.cells)
    }

    /// A universe of 128 by 128 dead cells.
    pub fn new() -> (r: Universe)
        ensures
            r.wf(),
            r@.width == 128,
            r@.height == 128,
            r@.cells == all_dead(128 * 128),
    {
        let width: u32 = 128;
        let height: u32 = 128;
        let size = (width * height) as usize;
        Universe { width, height, cells: cleared(size), back_buffer: cleared(size) }
    }
}

/// A generation follows from the dimensions and the cells alone: two
/// universes of the same dimensions and the same cells tick to the same cells.
pub proof fn lemma_tick_deterministic(a: Universe, b: Universe)
    requires
        a.wf(),
        b.wf(),
        a@.width == b@.width,
        a@.height == b@.height,
        a@.cells == b@.cells,
    ensures
        next_generation(a@.cells, a@.width as int, a@.height as int) == next_generation(
            b@.cells,
            b@.width as int,
            b@.height as int,
        ),
{
}

} // verus!
