//! How a latent is cut into tokens and put together again.
//!
//! A latent has the axes batch, channel, frame, row and column. With batch and
//! frame folded into one axis, rows and columns split into patches, and the axes
//! reordered, every patch becomes one token: the channels of its cells.
use vstd::prelude::*;
use vstd::arithmetic::div_mod::lemma_fundamental_div_mod;
use crate::archive::{five_axes_multiply, product};

verus! {

/// The place of an element in a row-major buffer of the given shape.
pub open spec fn row_major(shape: Seq<usize>, index: Seq<int>) -> int
    decreases shape.len(),
{
    if shape.len() == 0 {
        0
    } else {
        row_major(shape.drop_last(), index.drop_last()) * shape.last() + index.last()
    }
}

/// Every coordinate of `index` lies within `shape`.
pub open spec fn in_shape(shape: Seq<usize>, index: Seq<int>) -> bool {
    &&& index.len() == shape.len()
    &&& forall|i: int| 0 <= i < shape.len() ==> 0 <= #[trigger] index[i] < shape[i]
}

/// Axes in another order: place `k` of the result is place `axes[k]`.
pub open spec fn reordered<A>(items: Seq<A>, axes: Seq<usize>) -> Seq<A> {
    Seq::new(axes.len(), |k: int| items[axes[k] as int])
}

/// The order that brings the axes of a split latent into that of its tokens.
pub open spec fn patch_order() -> Seq<usize> {
    seq![0usize, 2, 4, 1, 3, 5]
}

/// The order that undoes `patch_order`.
pub open spec fn cell_order() -> Seq<usize> {
    seq![0usize, 3, 1, 4, 2, 5]
}

/// A latent and the grid of patches on it.
#[derive(Clone, Copy, Debug, PartialEq, Eq, Structural)]
pub struct PatchGrid {
    pub batch: usize,
    pub channels: usize,
    pub frames: usize,
    pub height: usize,
    pub width: usize,
    /// Rows and columns of a patch.
    pub ph: usize,
    pub pw: usize,
    /// Rows and columns of the grid.
    pub rows: usize,
    pub cols: usize,
}

/// The latent divides evenly into patches.
pub open spec fn divides(dims: Seq<usize>, patch: Seq<usize>) -> bool {
    &&& dims[2] % patch[0] == 0
    &&& dims[3] % patch[1] == 0
    &&& dims[4] % patch[2] == 0
}

impl PatchGrid {
    pub open spec fn valid(self) -> bool {
        &&& self.ph > 0 && self.pw > 0
        &&& self.height == self.rows * self.ph
        &&& self.width == self.cols * self.pw
    }

    /// Tokens of one latent.
    pub open spec fn tokens(self) -> nat {
        self.frames as nat * self.rows as nat * self.cols as nat
    }

    /// Values in one token.
    pub open spec fn token_width(self) -> nat {
        self.channels as nat * self.ph as nat * self.pw as nat
    }

    /// The sizes of the folded axes are machine-sized.
    pub open spec fn fits(self) -> bool {
        &&& self.batch * self.frames <= usize::MAX
        &&& self.frames * self.rows <= usize::MAX
        &&& self.tokens() <= usize::MAX
        &&& self.channels * self.ph <= usize::MAX
        &&& self.token_width() <= usize::MAX
    }

    /// Batch, frame, channel, row, column.
    pub open spec fn framed(self) -> Seq<usize> {
        seq![self.batch, self.frames, self.channels, self.height, self.width]
    }

    /// Frame of the batch, channel, grid row, patch row, grid column, patch column.
    pub open spec fn split(self) -> Seq<usize> {
        seq![
            (self.batch * self.frames) as usize,
            self.channels,
            self.rows,
            self.ph,
            self.cols,
            self.pw,
        ]
    }

    /// Frame of the batch, grid row, grid column, channel, patch row, patch column.
    pub open spec fn grouped(self) -> Seq<usize> {
        seq![
            (self.batch * self.frames) as usize,
            self.rows,
            self.cols,
            self.channels,
            self.ph,
            self.pw,
        ]
    }

    /// Batch, token, value.
    pub open spec fn flat(self) -> Seq<usize> {
        seq![self.batch, self.tokens() as usize, self.token_width() as usize]
    }

    /// A cell of the latent: batch, frame, channel, row, column.
    pub open spec fn is_cell(self, cell: Seq<int>) -> bool {
        in_shape(self.framed(), cell)
    }

    /// The cell with its row and column split at the patch.
    pub open spec fn split_cell(self, cell: Seq<int>) -> Seq<int> {
        seq![
            cell[0] * self.frames + cell[1],
            cell[2],
            cell[3] / self.ph as int,
            cell[3] % self.ph as int,
            cell[4] / self.pw as int,
            cell[4] % self.pw as int,
        ]
    }

    /// The token that a cell belongs to: patches go from left to right, then down,
    /// then from frame to frame.
    pub open spec fn token_of(self, cell: Seq<int>) -> int {
        (cell[1] * self.rows + cell[3] / self.ph as int) * self.cols + cell[4] / self.pw as int
    }

    /// The place of a cell in its token: channel by channel, the patch row by row.
    pub open spec fn slot_of(self, cell: Seq<int>) -> int {
        (cell[2] * self.ph + cell[3] % self.ph as int) * self.pw + cell[4] % self.pw as int
    }

    /// The grid of patches on a latent, if it divides evenly. `dims` are batch,
    /// channels, frames, rows and columns; `patch` is `[1, ph, pw]`.
    pub fn new(dims: [usize; 5], patch: [usize; 3]) -> (grid: Option<PatchGrid>)
        requires
            patch[0] == 1,
            patch[1] > 0,
            patch[2] > 0,
        ensures
            grid is Some <==> divides(dims@, patch@),
            grid matches Some(g) ==> {
                &&& g.valid()
                &&& g.batch == dims[0] && g.channels == dims[1] && g.frames == dims[2]
                &&& g.height == dims[3] && g.width == dims[4]
                &&& g.ph == patch[1] && g.pw == patch[2]
            },
    {
        if dims[2] % patch[0] != 0 || dims[3] % patch[1] != 0 || dims[4] % patch[2] != 0 {
            return None;
        }
        let (rows, cols): (usize, usize) = (dims[3] / patch[1], dims[4] / patch[2]);
        proof {
            let (h, w, ph, pw): (int, int, int, int) = (
                dims[3] as int,
                dims[4] as int,
                patch[1] as int,
                patch[2] as int,
            );
            lemma_fundamental_div_mod(h, ph);
            lemma_fundamental_div_mod(w, pw);
            assert(ph * (h / ph) == (h / ph) * ph) by (nonlinear_arith);
            assert(pw * (w / pw) == (w / pw) * pw) by (nonlinear_arith);
        }
        Some(
            PatchGrid {
                batch: dims[0],
                channels: dims[1],
                frames: dims[2],
                height: dims[3],
                width: dims[4],
                ph: patch[1],
                pw: patch[2],
                rows,
                cols,
            },
        )
    }

    /// Whether the sizes of the folded axes are machine-sized.
    pub fn check_sizes(&self) -> (fit: bool)
        ensures
            fit == self.fits(),
    {
        let tokens: Option<usize> = match self.frames.checked_mul(self.rows) {
            Some(lines) => lines.checked_mul(self.cols),
            None => None,
        };
        let width: Option<usize> = match self.channels.checked_mul(self.ph) {
            Some(column) => column.checked_mul(self.pw),
            None => None,
        };
        self.batch.checked_mul(self.frames).is_some() && tokens.is_some() && width.is_some()
    }

    /// Tokens of one latent.
    pub fn token_count(&self) -> (count: usize)
        requires
            self.fits(),
        ensures
            count == self.tokens(),
    {
        self.frames * self.rows * self.cols
    }

    /// The shape of the latent with its axes split at the patches.
    pub fn split_shape(&self) -> (shape: [usize; 6])
        requires
            self.fits(),
        ensures
            shape@ == self.split(),
    {
        let shape: [usize; 6] = [
            self.batch * self.frames,
            self.channels,
            self.rows,
            self.ph,
            self.cols,
            self.pw,
        ];
        assert(shape@ =~= self.split());
        shape
    }

    /// The shape of the tokens with their axes split.
    pub fn grouped_shape(&self) -> (shape: [usize; 6])
        requires
            self.fits(),
        ensures
            shape@ == self.grouped(),
    {
        let shape: [usize; 6] = [
            self.batch * self.frames,
            self.rows,
            self.cols,
            self.channels,
            self.ph,
            self.pw,
        ];
        assert(shape@ =~= self.grouped());
        shape
    }

    /// The shape of the tokens.
    pub fn token_shape(&self) -> (shape: [usize; 3])
        requires
            self.fits(),
        ensures
            shape@ == self.flat(),
    {
        let shape: [usize; 3] = [
            self.batch,
            self.token_count(),
            self.channels * self.ph * self.pw,
        ];
        assert(shape@ =~= self.flat());
        shape
    }

    /// The shape of the latent, frames before channels.
    pub fn framed_shape(&self) -> (shape: [usize; 5])
        ensures
            shape@ == self.framed(),
    {
        let shape: [usize; 5] = [
            self.batch,
            self.frames,
            self.channels,
            self.height,
            self.width,
        ];
        assert(shape@ =~= self.framed());
        shape
    }
}

/// The order of axes that turns a split latent into tokens.
pub fn patch_axes() -> (axes: [usize; 6])
    ensures
        axes@ == patch_order(),
{
    let axes: [usize; 6] = [0, 2, 4, 1, 3, 5];
    assert(axes@ =~= patch_order());
    axes
}

/// The order of axes that turns tokens into a split latent again.
pub fn cell_axes() -> (axes: [usize; 6])
    ensures
        axes@ == cell_order(),
{
    let axes: [usize; 6] = [0, 3, 1, 4, 2, 5];
    assert(axes@ =~= cell_order());
    axes
}

/// A patch of `ph * pw` cells divides the number of tokens by as much.
pub proof fn patches_divide_the_tokens(grid: PatchGrid)
    requires
        grid.valid(),
    ensures
        grid.tokens() * (grid.ph * grid.pw) == grid.frames * grid.height * grid.width,
{
    let (t, r, c, a, b): (int, int, int, int, int) = (
        grid.frames as int,
        grid.rows as int,
        grid.cols as int,
        grid.ph as int,
        grid.pw as int,
    );
    assert((t * r * c) * (a * b) == t * (r * a) * (c * b)) by (nonlinear_arith);
}

/// Undoing the order of tokens gives the order of cells.
pub proof fn orders_are_inverse<A>(items: Seq<A>)
    requires
        items.len() == 6,
    ensures
        reordered(reordered(items, patch_order()), cell_order()) == items,
        reordered(reordered(items, cell_order()), patch_order()) == items,
{
    assert(reordered(reordered(items, patch_order()), cell_order()) =~= items);
    assert(reordered(reordered(items, cell_order()), patch_order()) =~= items);
}

proof fn row_major_of_three(shape: Seq<usize>, index: Seq<int>)
    requires
        shape.len() == 3,
        index.len() == 3,
    ensures
        row_major(shape, index) == (index[0] * shape[1] + index[1]) * shape[2] + index[2],
{
    reveal_with_fuel(row_major, 4);
    assert(0 * shape[0] == 0);
}

proof fn row_major_of_five(shape: Seq<usize>, index: Seq<int>)
    requires
        shape.len() == 5,
        index.len() == 5,
    ensures
        row_major(shape, index) == (((index[0] * shape[1] + index[1]) * shape[2] + index[2])
            * shape[3] + index[3]) * shape[4] + index[4],
{
    reveal_with_fuel(row_major, 3);
    row_major_of_three(shape.drop_last().drop_last(), index.drop_last().drop_last());
}

proof fn row_major_of_six(shape: Seq<usize>, index: Seq<int>)
    requires
        shape.len() == 6,
        index.len() == 6,
    ensures
        row_major(shape, index) == ((((index[0] * shape[1] + index[1]) * shape[2] + index[2])
            * shape[3] + index[3]) * shape[4] + index[4]) * shape[5] + index[5],
{
    row_major_of_five(shape.drop_last(), index.drop_last());
}

proof fn digit_pair(high: int, low: int, base: int, limit: int)
    requires
        0 <= low < base,
        0 <= high < limit,
    ensures
        0 <= high * base + low < limit * base,
{
    assert(high * base + low < limit * base) by (nonlinear_arith)
        requires
            0 <= low < base,
            high + 1 <= limit,
    ;
    assert(0 <= high * base) by (nonlinear_arith)
        requires
            0 <= high,
            0 <= base,
    ;
}

/// Splitting a latent at its patches, bringing the axes into the order of tokens
/// and merging them puts every cell into the slot of the token that it belongs
/// to.
pub proof fn patchify_fills_the_tokens(grid: PatchGrid, cell: Seq<int>)
    requires
        grid.valid(),
        grid.fits(),
        grid.is_cell(cell),
    ensures
        in_shape(grid.split(), grid.split_cell(cell)),
        row_major(grid.split(), grid.split_cell(cell)) == row_major(grid.framed(), cell),
        reordered(grid.split(), patch_order()) == grid.grouped(),
        in_shape(grid.flat(), seq![cell[0], grid.token_of(cell), grid.slot_of(cell)]),
        row_major(grid.grouped(), reordered(grid.split_cell(cell), patch_order())) == row_major(
            grid.flat(),
            seq![cell[0], grid.token_of(cell), grid.slot_of(cell)],
        ),
{
    let framed = grid.framed();
    assert(0 <= cell[0] < framed[0] && 0 <= cell[1] < framed[1] && 0 <= cell[2] < framed[2]);
    assert(0 <= cell[3] < framed[3] && 0 <= cell[4] < framed[4]);
    let (n, t, c, y, x): (int, int, int, int, int) = (cell[0], cell[1], cell[2], cell[3], cell[4]);
    let (bt, ts, cs): (int, int, int) = (
        grid.batch as int,
        grid.frames as int,
        grid.channels as int,
    );
    let (rows, cols): (int, int) = (grid.rows as int, grid.cols as int);
    let (ph, pw): (int, int) = (grid.ph as int, grid.pw as int);
    let (yh, yl, xh, xl): (int, int, int, int) = (y / ph, y % ph, x / pw, x % pw);
    lemma_fundamental_div_mod(y, ph);
    lemma_fundamental_div_mod(x, pw);
    assert(0 <= yh < rows) by (nonlinear_arith)
        requires
            y == ph * yh + yl,
            0 <= yl < ph,
            0 <= y < rows * ph,
    ;
    assert(0 <= xh < cols) by (nonlinear_arith)
        requires
            x == pw * xh + xl,
            0 <= xl < pw,
            0 <= x < cols * pw,
    ;
    digit_pair(n, t, ts, bt);
    let split = grid.split_cell(cell);
    assert(in_shape(grid.split(), split));
    row_major_of_five(framed, cell);
    row_major_of_six(grid.split(), split);
    let f = n * ts + t;
    let a = f * cs + c;
    assert((a * rows + yh) * ph + yl == a * (rows * ph) + (ph * yh + yl)) by (nonlinear_arith);
    let b = a * grid.height + y;
    assert((b * cols + xh) * pw + xl == b * (cols * pw) + (pw * xh + xl)) by (nonlinear_arith);
    assert(reordered(grid.split(), patch_order()) =~= grid.grouped());
    let moved = reordered(split, patch_order());
    assert(moved =~= seq![f, yh, xh, c, yl, xl]);
    row_major_of_six(grid.grouped(), moved);
    let place = seq![n, grid.token_of(cell), grid.slot_of(cell)];
    row_major_of_three(grid.flat(), place);
    digit_pair(t, yh, rows, ts);
    digit_pair(t * rows + yh, xh, cols, ts * rows);
    digit_pair(c, yl, ph, cs);
    digit_pair(c * ph + yl, xl, pw, cs * ph);
    assert(in_shape(grid.flat(), place));
    let u = (t * rows + yh) * cols + xh;
    assert((f * rows + yh) * cols + xh == n * (ts * rows * cols) + u) by (nonlinear_arith)
        requires
            f == n * ts + t,
            u == (t * rows + yh) * cols + xh,
    ;
    let v = n * (ts * rows * cols) + u;
    let w = (c * ph + yl) * pw + xl;
    assert(((v * cs + c) * ph + yl) * pw + xl == v * (cs * ph * pw) + w) by (nonlinear_arith)
        requires
            w == (c * ph + yl) * pw + xl,
    ;
}

/// Splitting the tokens again, undoing the order of axes and merging them puts
/// every cell back where it was.
pub proof fn unpatchify_restores_the_cells(grid: PatchGrid, cell: Seq<int>)
    requires
        grid.valid(),
        grid.fits(),
        grid.is_cell(cell),
    ensures
        reordered(grid.grouped(), cell_order()) == grid.split(),
        ({
            let grouped = reordered(grid.split_cell(cell), patch_order());
            &&& row_major(
                grid.flat(),
                seq![cell[0], grid.token_of(cell), grid.slot_of(cell)],
            ) == row_major(grid.grouped(), grouped)
            &&& row_major(grid.split(), reordered(grouped, cell_order())) == row_major(
                grid.framed(),
                cell,
            )
        }),
{
    patchify_fills_the_tokens(grid, cell);
    orders_are_inverse(grid.split());
    orders_are_inverse(grid.split_cell(cell));
}

/// A step along an axis moves an element past as many others as the axes after it
/// have elements; the element at the beginning of every axis comes first.
pub proof fn elements_lie_row_by_row(shape: Seq<usize>, index: Seq<int>, axis: int)
    requires
        index.len() == shape.len(),
        0 <= axis < shape.len(),
    ensures
        row_major(shape, index.update(axis, index[axis] + 1)) == row_major(shape, index) + product(
            shape.skip(axis + 1),
        ),
        (forall|i: int| 0 <= i < index.len() ==> #[trigger] index[i] == 0) ==> row_major(shape, index)
            == 0,
    decreases shape.len(),
{
    let moved = index.update(axis, index[axis] + 1);
    let (upper, coarse) = (shape.drop_last(), index.drop_last());
    let n = shape.last() as int;
    first_elements_come_first(shape, index);
    if axis == shape.len() - 1 {
        assert(moved.drop_last() =~= coarse);
        assert(shape.skip(axis + 1) =~= Seq::<usize>::empty());
        assert(product(shape.skip(axis + 1)) == 1);
    } else {
        elements_lie_row_by_row(upper, coarse, axis);
        assert(moved.drop_last() =~= coarse.update(axis, coarse[axis] + 1));
        assert(shape.skip(axis + 1).drop_last() =~= upper.skip(axis + 1));
        assert(shape.skip(axis + 1).last() == shape.last());
        let (a, p): (int, int) = (
            row_major(upper, coarse),
            product(upper.skip(axis + 1)) as int,
        );
        assert((a + p) * n == a * n + p * n) by (nonlinear_arith);
    }
}

proof fn first_elements_come_first(shape: Seq<usize>, index: Seq<int>)
    requires
        index.len() == shape.len(),
    ensures
        (forall|i: int| 0 <= i < index.len() ==> #[trigger] index[i] == 0) ==> row_major(shape, index)
            == 0,
    decreases shape.len(),
{
    if shape.len() > 0 && (forall|i: int| 0 <= i < index.len() ==> #[trigger] index[i] == 0) {
        let coarse = index.drop_last();
        assert forall|i: int| 0 <= i < coarse.len() implies #[trigger] coarse[i] == 0 by {
            assert(index[i] == 0);
        }
        first_elements_come_first(shape.drop_last(), coarse);
        assert(index[index.len() - 1] == 0);
        assert(0 * shape.last() == 0);
    }
}

/// The cell in a given row and column of a given patch belongs to the token of that
/// patch, patches counted from left to right, then down, then from frame to frame;
/// within the token, cells are counted from left to right, then down, then from
/// channel to channel.
pub proof fn cells_belong_to_their_patch(
    grid: PatchGrid,
    frame: (int, int, int),
    patch: (int, int),
    within: (int, int),
)
    requires
        grid.valid(),
        0 <= within.0 < grid.ph,
        0 <= within.1 < grid.pw,
    ensures
        ({
            let (batch, time, channel) = frame;
            let cell = seq![
                batch,
                time,
                channel,
                patch.0 * grid.ph + within.0,
                patch.1 * grid.pw + within.1,
            ];
            &&& grid.token_of(cell) == time * (grid.rows * grid.cols) + patch.0 * grid.cols
                + patch.1
            &&& grid.slot_of(cell) == channel * (grid.ph * grid.pw) + within.0 * grid.pw + within.1
        }),
{
    let (batch, time, channel) = frame;
    let (ph, pw): (int, int) = (grid.ph as int, grid.pw as int);
    let (rows, cols): (int, int) = (grid.rows as int, grid.cols as int);
    let (y, x): (int, int) = (patch.0 * ph + within.0, patch.1 * pw + within.1);
    vstd::arithmetic::div_mod::lemma_fundamental_div_mod_converse(y, ph, patch.0, within.0);
    vstd::arithmetic::div_mod::lemma_fundamental_div_mod_converse(x, pw, patch.1, within.1);
    assert((time * rows + patch.0) * cols + patch.1 == time * (rows * cols) + patch.0 * cols
        + patch.1) by (nonlinear_arith);
    assert((channel * ph + within.0) * pw + within.1 == channel * (ph * pw) + within.0 * pw
        + within.1) by (nonlinear_arith);
}

/// The axes of a token come in this order: the frame, the row and the column of the
/// patch, then the channel, and the row and the column within the patch.
pub proof fn tokens_gather_their_patch<A>(items: Seq<A>)
    requires
        items.len() == 6,
    ensures
        reordered(items, patch_order()) == seq![
            items[0],
            items[2],
            items[4],
            items[1],
            items[3],
            items[5],
        ],
{
    assert(reordered(items, patch_order()) =~= seq![
        items[0],
        items[2],
        items[4],
        items[1],
        items[3],
        items[5],
    ]);
}

/// A latent divides into patches exactly where every one of its three axes is a
/// whole number of patches long.
pub proof fn whole_patches_divide(dims: Seq<usize>, patch: Seq<usize>, counts: (int, int, int))
    requires
        patch[0] > 0 && patch[1] > 0 && patch[2] > 0,
        counts.0 * patch[0] <= dims[2] < (counts.0 + 1) * patch[0],
        counts.1 * patch[1] <= dims[3] < (counts.1 + 1) * patch[1],
        counts.2 * patch[2] <= dims[4] < (counts.2 + 1) * patch[2],
    ensures
        divides(dims, patch) <==> dims[2] == counts.0 * patch[0] && dims[3] == counts.1 * patch[1]
            && dims[4] == counts.2 * patch[2],
{
    remainder_of(dims[2] as int, patch[0] as int, counts.0);
    remainder_of(dims[3] as int, patch[1] as int, counts.1);
    remainder_of(dims[4] as int, patch[2] as int, counts.2);
}

proof fn remainder_of(size: int, part: int, count: int)
    requires
        part > 0,
        count * part <= size < (count + 1) * part,
    ensures
        size % part == size - count * part,
{
    assert((count + 1) * part == count * part + part) by (nonlinear_arith);
    vstd::arithmetic::div_mod::lemma_fundamental_div_mod_converse(
        size,
        part,
        count,
        size - count * part,
    );
}

/// The tokens of a latent hold every one of its values once.
pub proof fn tokens_hold_every_value(grid: PatchGrid)
    requires
        grid.valid(),
    ensures
        grid.tokens() * grid.token_width() == grid.channels * grid.frames * grid.height
            * grid.width,
        grid.tokens() == grid.frames * (grid.rows * grid.cols),
        grid.token_width() == grid.channels * (grid.ph * grid.pw),
{
    let (t, k, r, c, a, b): (int, int, int, int, int, int) = (
        grid.frames as int,
        grid.channels as int,
        grid.rows as int,
        grid.cols as int,
        grid.ph as int,
        grid.pw as int,
    );
    assert((t * r * c) * (k * a * b) == k * t * (r * a) * (c * b)) by (nonlinear_arith);
    assert(t * r * c == t * (r * c) && k * a * b == k * (a * b)) by (nonlinear_arith);
}

/// None of the shapes of a latent loses or adds a value.
pub proof fn shapes_hold_every_value(grid: PatchGrid)
    requires
        grid.valid(),
        grid.fits(),
    ensures
        ({
            let all = grid.batch * grid.channels * grid.frames * grid.height * grid.width;
            &&& product(grid.framed()) == all
            &&& product(grid.split()) == all
            &&& product(grid.grouped()) == all
            &&& product(grid.flat()) == all
        }),
{
    let (n, t, k, r, c, a, b): (int, int, int, int, int, int, int) = (
        grid.batch as int,
        grid.frames as int,
        grid.channels as int,
        grid.rows as int,
        grid.cols as int,
        grid.ph as int,
        grid.pw as int,
    );
    let (h, w): (int, int) = (r * a, c * b);
    three_axes_multiply(grid.flat());
    five_axes_multiply(grid.framed());
    let (split, grouped) = (grid.split(), grid.grouped());
    five_axes_multiply(split.drop_last());
    five_axes_multiply(grouped.drop_last());
    let all = n * k * t * h * w;
    assert(n * t * k * h * w == all) by (nonlinear_arith)
        requires
            all == n * k * t * h * w,
    ;
    assert((n * t) * k * r * a * c * b == all) by (nonlinear_arith)
        requires
            all == n * k * t * h * w,
            h == r * a,
            w == c * b,
    ;
    assert((n * t) * r * c * k * a * b == all) by (nonlinear_arith)
        requires
            all == n * k * t * h * w,
            h == r * a,
            w == c * b,
    ;
    assert(n * (t * r * c) * (k * a * b) == all) by (nonlinear_arith)
        requires
            all == n * k * t * h * w,
            h == r * a,
            w == c * b,
    ;
}

/// The elements of a shape of three axes.
pub proof fn three_axes_multiply(shape: Seq<usize>)
    requires
        shape.len() == 3,
    ensures
        product(shape) == shape[0] * shape[1] * shape[2],
{
    let none = Seq::<usize>::empty();
    let (a, b) = (shape.take(1), shape.take(2));
    assert(a.drop_last() =~= none);
    assert(b.drop_last() =~= a);
    assert(shape.drop_last() =~= b);
    assert(product(none) == 1);
    assert(product(a) == 1 * shape[0] as nat);
    assert(product(b) == product(a) * shape[1] as nat);
    assert(product(shape) == product(b) * shape[2] as nat);
}

/// The sizes of a grid without an empty axis fit wherever the frames of the batch,
/// the tokens and the width of a token each fit a machine word.
pub proof fn grids_fit_with_their_sizes(grid: PatchGrid)
    requires
        grid.ph > 0 && grid.pw > 0 && grid.rows > 0 && grid.cols > 0,
    ensures
        grid.fits() <==> grid.batch * grid.frames <= usize::MAX && grid.frames * grid.rows
            * grid.cols <= usize::MAX && grid.channels * grid.ph * grid.pw <= usize::MAX,
{
    let (t, r, c): (int, int, int) = (grid.frames as int, grid.rows as int, grid.cols as int);
    let (k, a, b): (int, int, int) = (grid.channels as int, grid.ph as int, grid.pw as int);
    assert(t * r <= t * r * c) by (nonlinear_arith)
        requires
            t >= 0,
            r >= 0,
            c >= 1,
    ;
    assert(k * a <= k * a * b) by (nonlinear_arith)
        requires
            k >= 0,
            a >= 0,
            b >= 1,
    ;
}

} // verus!
