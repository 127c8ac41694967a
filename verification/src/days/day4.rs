//! A grid of letters: how often the word XMAS can be read in it along the
//! eight directions, and how often two MAS cross in the shape of an X.

use vstd::prelude::*;
use crate::aoc::{AOCYearDay, ComputeError, Day, DayPart, ParseError, ParseErrorKind, ParseFailure};
use crate::text::{
    chars_of,
    lines,
    rows,
    split_at_separators,
    string_from_chars,
    trim,
    trimmed,
    Separator,
};

verus! {

/// A grid of characters, kept in a two-dimensional array of the `ndarray`
/// crate. The first axis counts the rows, the second the places of a row.
#[verifier::external_body]
pub struct Grid {
    cells: ndarray::Array2<char>,
}

/// The error of the `ndarray` crate for a shape that does not fit the data.
#[verifier::external_type_specification]
#[verifier::external_body]
pub struct ExShapeError(ndarray::ShapeError);

/// The rows of a grid, from the top, each from the left.
pub uninterp spec fn grid_rows(g: Grid) -> Seq<Seq<char>>;

/// One for an axis of length zero, the length for any other.
pub open spec fn at_least_one(n: usize) -> int {
    if n == 0 {
        1
    } else {
        n as int
    }
}

/// Whether `count` cells fill a grid of this shape, and the shape is one
/// that an array can have.
pub open spec fn shape_fits(height: usize, width: usize, count: nat) -> bool {
    height * width == count && at_least_one(height) * at_least_one(width) <= isize::MAX
}

/// Whether the rows of `g` are `data` cut into `height` rows of `width` cells.
pub open spec fn laid_out(g: Grid, height: usize, width: usize, data: Seq<char>) -> bool {
    &&& grid_rows(g).len() == height
    &&& forall|i: int| 0 <= i < height ==> (#[trigger] grid_rows(g)[i]).len() == width
    &&& forall|i: int, j: int|
        0 <= i < height && 0 <= j < width ==> #[trigger] grid_rows(g)[i][j] == data[i * width
            + j]
}

/// Builds the grid with `Array2::from_shape_vec` and the shape `(height,
/// width)`. The crate takes the data row by row. It refuses them where their
/// number is not `height * width`, and where the product of the axis
/// lengths that are not zero is above `isize::MAX`.
#[verifier::external_body]
fn grid_from_cells(height: usize, width: usize, data: Vec<char>) -> (r: Result<
    Grid,
    ndarray::ShapeError,
>)
    ensures
        match r {
            Ok(g) => shape_fits(height, width, data@.len()) && laid_out(g, height, width, data@),
            Err(_) => !shape_fits(height, width, data@.len()),
        },
{
    Ok(Grid { cells: ndarray::Array2::from_shape_vec((height, width), data)? })
}

/// The lengths of the two axes, read with `ArrayBase::shape`: the number of
/// rows, and the length that every row has.
#[verifier::external_body]
fn grid_shape(g: &Grid) -> (shape: (usize, usize))
    ensures
        shape.0 == grid_rows(*g).len(),
        forall|i: int| 0 <= i < shape.0 ==> (#[trigger] grid_rows(*g)[i]).len() == shape.1,
{
    (g.cells.shape()[0], g.cells.shape()[1])
}

/// The character at row `row` and place `column`, read by indexing the array
/// with both numbers, which panics outside the array.
#[verifier::external_body]
fn grid_at(g: &Grid, row: usize, column: usize) -> (c: char)
    requires
        row < grid_rows(*g).len(),
        column < grid_rows(*g)[row as int].len(),
    ensures
        c == grid_rows(*g)[row as int][column as int],
{
    g.cells[[row, column]]
}

/// The letter at a place of the grid, if the place is in the grid.
pub open spec fn letter(g: Seq<Seq<char>>, row: int, column: int) -> Option<char> {
    if 0 <= row < g.len() && 0 <= column < g[row].len() {
        Some(g[row][column])
    } else {
        None
    }
}

/// Whether XMAS can be read from a place on, stepping `down` rows and
/// `right` places from each letter to the next.
pub open spec fn spells_xmas(g: Seq<Seq<char>>, row: int, column: int, down: int, right: int) -> bool {
    &&& letter(g, row, column) == Some('X')
    &&& letter(g, row + down, column + right) == Some('M')
    &&& letter(g, row + 2 * down, column + 2 * right) == Some('A')
    &&& letter(g, row + 3 * down, column + 3 * right) == Some('S')
}

/// One if `b` holds, zero if not.
pub open spec fn one_if(b: bool) -> nat {
    if b {
        1
    } else {
        0
    }
}

/// In how many of the eight directions XMAS can be read from a place on.
pub open spec fn xmas_from(g: Seq<Seq<char>>, row: int, column: int) -> nat {
    one_if(spells_xmas(g, row, column, 1, 0)) + one_if(spells_xmas(g, row, column, -1, 0))
        + one_if(spells_xmas(g, row, column, 0, 1)) + one_if(spells_xmas(g, row, column, 0, -1))
        + one_if(spells_xmas(g, row, column, 1, 1)) + one_if(spells_xmas(g, row, column, -1, 1))
        + one_if(spells_xmas(g, row, column, 1, -1)) + one_if(
        spells_xmas(g, row, column, -1, -1),
    )
}

/// Whether two letters are the two ends of MAS, in either order.
pub open spec fn ends_of_mas(a: Option<char>, b: Option<char>) -> bool {
    (a == Some('M') && b == Some('S')) || (a == Some('S') && b == Some('M'))
}

/// Whether two MAS cross at a place: an A there, and on each diagonal
/// through it an M and an S.
pub open spec fn x_mas_at(g: Seq<Seq<char>>, row: int, column: int) -> bool {
    &&& letter(g, row, column) == Some('A')
    &&& ends_of_mas(letter(g, row - 1, column - 1), letter(g, row + 1, column + 1))
    &&& ends_of_mas(letter(g, row - 1, column + 1), letter(g, row + 1, column - 1))
}

/// What a place adds to the answer of a part.
pub open spec fn found_at(g: Seq<Seq<char>>, part: DayPart, row: int, column: int) -> nat {
    match part {
        DayPart::Part1 => xmas_from(g, row, column),
        DayPart::Part2 => one_if(x_mas_at(g, row, column)),
    }
}

/// What the first `upto` places of a row add.
pub open spec fn found_in_row(g: Seq<Seq<char>>, part: DayPart, row: int, upto: nat) -> nat
    decreases upto,
{
    if upto == 0 {
        0
    } else {
        found_in_row(g, part, row, (upto - 1) as nat) + found_at(g, part, row, upto - 1)
    }
}

/// What the first `upto` rows add.
pub open spec fn found_in_rows(g: Seq<Seq<char>>, part: DayPart, upto: nat) -> nat
    decreases upto,
{
    if upto == 0 {
        0
    } else {
        found_in_rows(g, part, (upto - 1) as nat) + found_in_row(
            g,
            part,
            upto - 1,
            g[upto - 1].len(),
        )
    }
}

/// What the whole grid adds.
pub open spec fn found(g: Seq<Seq<char>>, part: DayPart) -> nat {
    found_in_rows(g, part, g.len())
}

/// A count as an answer: itself where a `usize` holds it.
pub open spec fn count_answer(n: nat) -> Result<usize, ComputeError> {
    if n <= usize::MAX {
        Ok(n as usize)
    } else {
        Err(ComputeError::Overflow)
    }
}

/// More places of a row add no less.
pub proof fn lemma_row_grows(g: Seq<Seq<char>>, part: DayPart, row: int, a: nat, b: nat)
    requires
        a <= b,
    ensures
        found_in_row(g, part, row, a) <= found_in_row(g, part, row, b),
    decreases b,
{
    if a < b {
        lemma_row_grows(g, part, row, a, (b - 1) as nat);
    }
}

/// More rows add no less.
pub proof fn lemma_rows_grow(g: Seq<Seq<char>>, part: DayPart, a: nat, b: nat)
    requires
        a <= b,
    ensures
        found_in_rows(g, part, a) <= found_in_rows(g, part, b),
    decreases b,
{
    if a < b {
        lemma_rows_grow(g, part, a, (b - 1) as nat);
    }
}

/// The rows of a grid that a sequence of lines stands for: each line
/// without the white space around it, empty ones left out.
pub open spec fn trimmed_rows(all: Seq<Seq<char>>) -> Seq<Seq<char>>
    decreases all.len(),
{
    if all.len() == 0 {
        Seq::empty()
    } else {
        let before = trimmed_rows(all.drop_last());
        let row = trimmed(all.last());
        if row.len() == 0 {
            before
        } else {
            before.push(row)
        }
    }
}

/// The first row that is not as long as the first one, if there is one.
pub open spec fn uneven_row(found: Seq<Seq<char>>) -> Option<Seq<char>>
    decreases found.len(),
{
    if found.len() == 0 {
        None
    } else {
        match uneven_row(found.drop_last()) {
            Some(row) => Some(row),
            None => if found.last().len() != found[0].len() {
                Some(found.last())
            } else {
                None
            },
        }
    }
}

/// The length of the rows of a grid: that of its first row.
pub open spec fn width_of(found: Seq<Seq<char>>) -> nat {
    if found.len() == 0 {
        0
    } else {
        found[0].len()
    }
}

/// The grid that a text stands for. Its rows are the lines of the text, in
/// their order. It is refused where a row is not as long as the first one,
/// with that row, and where it has more cells than an array can hold.
pub open spec fn grid_of(text: Seq<char>) -> Result<Seq<Seq<char>>, ParseFailure> {
    let found = trimmed_rows(lines(text));
    match uneven_row(found) {
        Some(row) => Err(ParseFailure { kind: ParseErrorKind::Shape, content: row }),
        None => if found.len() * width_of(found) > isize::MAX {
            Err(ParseFailure { kind: ParseErrorKind::Shape, content: Seq::empty() })
        } else {
            Ok(found)
        },
    }
}

/// Once a row is found uneven, it stays the first uneven one.
pub proof fn lemma_uneven_stays(found: Seq<Seq<char>>, k: int)
    requires
        1 <= k <= found.len(),
        uneven_row(found.take(k)) is Some,
    ensures
        uneven_row(found) == uneven_row(found.take(k)),
    decreases found.len() - k,
{
    if k == found.len() {
        assert(found.take(k) =~= found);
    } else {
        assert(found.take(k + 1).drop_last() =~= found.take(k));
        assert(found.take(k + 1)[0] == found.take(k)[0]);
        lemma_uneven_stays(found, k + 1);
        assert(found.take(k + 1)[0] == found[0]);
    }
}

/// The cell `column` of row `row` comes before the cells of row `height`.
pub proof fn lemma_cell_index(row: int, column: int, height: int, width: int)
    requires
        0 <= row < height,
        0 <= column < width,
    ensures
        0 <= row * width + column < height * width,
        (row + 1) * width == row * width + width,
{
    assert(0 <= row * width && (row + 1) * width <= height * width && (row + 1) * width == row
        * width + width) by (nonlinear_arith)
        requires
            0 <= row < height,
            0 <= width,
    ;
}

/// The grid of the puzzle.
pub struct Day4 {
    input: Grid,
}

impl Day4 {
    /// The letter `down` rows below and `right` places to the right of a
    /// place, if there is one.
    pub fn letter_at(&self, x: usize, y: usize, down: i16, right: i16) -> (found: Option<char>)
        ensures
            found == letter(self.model(), x + down, y + right),
    {
        let (height, width) = grid_shape(&self.input);
        let row: i128 = x as i128 + down as i128;
        let column: i128 = y as i128 + right as i128;
        if row < 0 || row >= height as i128 || column < 0 || column >= width as i128 {
            proof {
                if 0 <= row < height {
                    assert(grid_rows(self.input)[row as int].len() == width);
                }
            }
            return None;
        }
        assert(grid_rows(self.input)[row as int].len() == width);
        Some(grid_at(&self.input, row as usize, column as usize))
    }

    /// Whether XMAS can be read from row `x`, place `y` on, stepping `down`
    /// rows and `right` places from each letter to the next.
    pub fn spells(&self, x: usize, y: usize, down: i8, right: i8) -> (found: bool)
        ensures
            found == spells_xmas(self.model(), x as int, y as int, down as int, right as int),
    {
        let down: i16 = down as i16;
        let right: i16 = right as i16;
        self.letter_at(x, y, 0, 0) == Some('X') && self.letter_at(x, y, down, right) == Some('M')
            && self.letter_at(x, y, 2 * down, 2 * right) == Some('A') && self.letter_at(
            x,
            y,
            3 * down,
            3 * right,
        ) == Some('S')
    }

    /// In how many directions XMAS can be read from row `x`, place `y`.
    pub fn check_xmas(&self, x: usize, y: usize) -> (count: usize)
        ensures
            count == xmas_from(self.model(), x as int, y as int),
            count <= 8,
    {
        let mut count: usize = 0;
        if self.spells(x, y, 1, 0) {
            count += 1;
        }
        if self.spells(x, y, -1, 0) {
            count += 1;
        }
        if self.spells(x, y, 0, 1) {
            count += 1;
        }
        if self.spells(x, y, 0, -1) {
            count += 1;
        }
        if self.spells(x, y, 1, 1) {
            count += 1;
        }
        if self.spells(x, y, -1, 1) {
            count += 1;
        }
        if self.spells(x, y, 1, -1) {
            count += 1;
        }
        if self.spells(x, y, -1, -1) {
            count += 1;
        }
        count
    }

    /// Whether two MAS cross at row `x`, place `y`.
    pub fn check_x_mas(&self, x: usize, y: usize) -> (found: bool)
        ensures
            found == x_mas_at(self.model(), x as int, y as int),
    {
        if self.letter_at(x, y, 0, 0) != Some('A') {
            return false;
        }
        let top_left = self.letter_at(x, y, -1, -1);
        let top_right = self.letter_at(x, y, -1, 1);
        let bottom_left = self.letter_at(x, y, 1, -1);
        let bottom_right = self.letter_at(x, y, 1, 1);
        ((top_left == Some('M') && bottom_right == Some('S')) || (top_left == Some('S')
            && bottom_right == Some('M'))) && ((top_right == Some('M') && bottom_left == Some('S'))
            || (top_right == Some('S') && bottom_left == Some('M')))
    }

    /// What a place adds to the answer of a part.
    pub fn check_at(&self, part: DayPart, x: usize, y: usize) -> (count: usize)
        ensures
            count == found_at(self.model(), part, x as int, y as int),
            count <= 8,
    {
        match part {
            DayPart::Part1 => self.check_xmas(x, y),
            DayPart::Part2 => if self.check_x_mas(x, y) {
                1
            } else {
                0
            },
        }
    }

    /// Adds up a part over all places of the grid.
    pub fn count(&self, part: DayPart) -> (r: Result<usize, ComputeError>)
        ensures
            r == count_answer(found(self.model(), part)),
    {
        let ghost g = self.model();
        let (height, width) = grid_shape(&self.input);
        let mut result: usize = 0;
        let mut x: usize = 0;
        while x < height
            invariant
                x <= height,
                g == self.model(),
                height == g.len(),
                forall|i: int| 0 <= i < height ==> (#[trigger] g[i]).len() == width,
                result == found_in_rows(g, part, x as nat),
            decreases height - x,
        {
            let mut y: usize = 0;
            let ghost before = result;
            while y < width
                invariant
                    y <= width,
                    x < height,
                    g == self.model(),
                    height == g.len(),
                    g[x as int].len() == width,
                    before == found_in_rows(g, part, x as nat),
                    result == before + found_in_row(g, part, x as int, y as nat),
                decreases width - y,
            {
                let here = self.check_at(part, x, y);
                if result > usize::MAX - here {
                    proof {
                        lemma_row_grows(g, part, x as int, (y + 1) as nat, width as nat);
                        lemma_rows_grow(g, part, (x + 1) as nat, height as nat);
                    }
                    return Err(ComputeError::Overflow);
                }
                result += here;
                y += 1;
            }
            x += 1;
        }
        Ok(result)
    }
}

impl Day for Day4 {
    type DayOutputPart1 = usize;

    type DayOutputPart2 = usize;

    type Model = Seq<Seq<char>>;

    closed spec fn model(&self) -> Seq<Seq<char>> {
        grid_rows(self.input)
    }

    open spec fn parsed(text: Seq<char>) -> Result<Seq<Seq<char>>, ParseFailure> {
        grid_of(text)
    }

    open spec fn answer1(state: Seq<Seq<char>>) -> Result<usize, ComputeError> {
        count_answer(found(state, DayPart::Part1))
    }

    open spec fn answer2(state: Seq<Seq<char>>) -> Result<usize, ComputeError> {
        count_answer(found(state, DayPart::Part2))
    }

    fn id() -> (r: AOCYearDay)
        ensures
            r == (2024i32, 4i32),
    {
        (2024, 4)
    }

    fn from_str(text: &str) -> (r: Result<Self, ParseError>) {
        let chars = chars_of(text);
        let all = split_at_separators(&chars, Separator::Newline);
        let mut found: Vec<Vec<char>> = Vec::new();
        let mut i: usize = 0;
        assert(rows(found@) =~= Seq::<Seq<char>>::empty());
        while i < all.len()
            invariant
                i <= all.len(),
                rows(found@) == trimmed_rows(rows(all@).take(i as int)),
                forall|k: int| 0 <= k < found@.len() ==> (#[trigger] found@[k])@.len() > 0,
            decreases all.len() - i,
        {
            proof {
                assert(rows(all@).take(i + 1).drop_last() =~= rows(all@).take(i as int));
                assert(rows(all@).take(i + 1).last() == all@[i as int]@);
            }
            let row = trim(&all[i]);
            if row.len() > 0 {
                proof {
                    assert(rows(found@.push(row)) =~= rows(found@).push(row@));
                }
                found.push(row);
            }
            i += 1;
        }
        proof {
            assert(rows(all@).take(i as int) =~= rows(all@));
        }
        let height = found.len();
        let width: usize = if height == 0 {
            0
        } else {
            found[0].len()
        };
        assert(rows(found@).len() == height);
        assert(height > 0 ==> rows(found@)[0] == found@[0]@);
        assert(rows(found@).take(0) =~= Seq::<Seq<char>>::empty());
        let mut data: Vec<char> = Vec::new();
        let mut k: usize = 0;
        while k < height
            invariant
                k <= height,
                height == found.len(),
                width == width_of(rows(found@)),
                height > 0 ==> width > 0,
                rows(found@) == trimmed_rows(lines(text@)),
                uneven_row(rows(found@).take(k as int)) is None,
                data@.len() == k * width,
                forall|a: int| 0 <= a < k ==> (#[trigger] found@[a])@.len() == width,
                forall|a: int, b: int|
                    0 <= a < k && 0 <= b < width ==> data@[a * width + b]
                        == #[trigger] found@[a]@[b],
            decreases height - k,
        {
            proof {
                let whole = rows(found@);
                assert(whole.take(k + 1).drop_last() =~= whole.take(k as int));
                assert(whole.take(k + 1).last() == found@[k as int]@);
                assert(whole.take(k + 1)[0] == found@[0]@);
            }
            if found[k].len() != width {
                proof {
                    lemma_uneven_stays(rows(found@), k + 1);
                }
                return Err(
                    ParseError {
                        kind: ParseErrorKind::Shape,
                        content: string_from_chars(&found[k]),
                    },
                );
            }
            let ghost old_data = data@;
            let mut column: usize = 0;
            while column < width
                invariant
                    column <= width,
                    k < height,
                    height == found.len(),
                    found@[k as int]@.len() == width,
                    data@ == old_data + found@[k as int]@.take(column as int),
                decreases width - column,
            {
                data.push(found[k][column]);
                proof {
                    assert(data@ =~= old_data + found@[k as int]@.take(column + 1));
                }
                column += 1;
            }
            proof {
                lemma_cell_index(k as int, 0, k + 1, width as int);
                assert forall|a: int, b: int| 0 <= a < k + 1 && 0 <= b < width implies data@[a
                    * width + b] == #[trigger] found@[a]@[b] by {
                    if a < k {
                        lemma_cell_index(a, b, k as int, width as int);
                        assert(data@[a * width + b] == old_data[a * width + b]);
                    } else {
                        assert(a * width + b == old_data.len() + b);
                    }
                }
            }
            k += 1;
        }
        proof {
            assert(rows(found@).take(height as int) =~= rows(found@));
        }
        let ghost cells = data@;
        match grid_from_cells(height, width, data) {
            Err(_) => Err(ParseError { kind: ParseErrorKind::Shape, content: String::new() }),
            Ok(input) => {
                proof {
                    let g = grid_rows(input);
                    assert forall|a: int| 0 <= a < height implies #[trigger] g[a] =~= rows(
                        found@,
                    )[a] by {
                        assert(found@[a]@.len() == width);
                        assert forall|b: int| 0 <= b < width implies g[a][b] == found@[a]@[b] by {
                            assert(cells[a * width + b] == found@[a]@[b]);
                        }
                    }
                    assert(g =~= rows(found@));
                }
                Ok(Day4 { input })
            },
        }
    }

    fn part1(&self) -> (r: Result<usize, ComputeError>) {
        self.count(DayPart::Part1)
    }

    fn part2(&self) -> (r: Result<usize, ComputeError>) {
        self.count(DayPart::Part2)
    }
}

} // verus!
