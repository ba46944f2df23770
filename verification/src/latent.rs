//! Latents on the host: the two spatial axes halved and doubled, and the frames
//! that are compared with one another.
//!
//! Values are binary32 bit patterns. How two of them are averaged, and how one is
//! taken from the other, is handed in.
use vstd::prelude::*;
use vstd::arithmetic::div_mod::{lemma_fundamental_div_mod, lemma_fundamental_div_mod_converse};

verus! {

/// A latent, row-major: batch, channel, frame, row, column.
#[derive(Clone, Debug)]
pub struct Latent {
    pub dims: [usize; 5],
    pub values: Vec<u32>,
}

/// Planes of rows and columns in a latent of the given shape.
pub open spec fn planes(dims: Seq<usize>) -> nat {
    dims[0] as nat * dims[1] as nat * dims[2] as nat
}

/// Cells in a latent of the given shape.
pub open spec fn cells(dims: Seq<usize>) -> nat {
    planes(dims) * dims[3] as nat * dims[4] as nat
}

/// The place of a cell: its plane, row and column, in planes of the given size.
pub open spec fn place(plane: int, row: int, column: int, height: int, width: int) -> int {
    (plane * height + row) * width + column
}

/// The shape and the values of a latent.
#[verifier::ext_equal]
pub struct LatentView {
    pub dims: Seq<usize>,
    pub values: Seq<u32>,
}

impl LatentView {
    /// The values fill the shape.
    pub open spec fn valid(self) -> bool {
        self.dims.len() == 5 && self.values.len() == cells(self.dims)
    }

    /// The value of a cell.
    pub open spec fn at(self, plane: int, row: int, column: int) -> u32 {
        self.values[place(plane, row, column, self.dims[3] as int, self.dims[4] as int)]
    }
}

impl View for Latent {
    type V = LatentView;

    open spec fn view(&self) -> LatentView {
        LatentView { dims: self.dims@, values: self.values@ }
    }
}

impl Latent {
    /// The values fill the shape.
    pub open spec fn valid(self) -> bool {
        self@.valid()
    }
}

/// The latent of the given shape in which every cell has the value that `cell`
/// gives for its plane, row and column.
pub open spec fn filled(dims: Seq<usize>, cell: spec_fn(int, int, int) -> u32) -> LatentView {
    let (h, w) = (dims[3] as int, dims[4] as int);
    LatentView {
        dims,
        values: Seq::new(cells(dims), |j: int| cell(j / w / h, (j / w) % h, j % w)),
    }
}

impl Latent {
    /// Whether the values fill the shape.
    pub fn check(&self) -> (fills: bool)
        ensures
            fills == self.valid(),
    {
        let d: [usize; 5] = self.dims;
        let length: usize = self.values.len();
        proof {
            let (a, b, c, h, w): (int, int, int, int, int) = (
                d[0] as int,
                d[1] as int,
                d[2] as int,
                d[3] as int,
                d[4] as int,
            );
            if a == 0 || b == 0 || c == 0 || h == 0 || w == 0 {
                assert(a * b * c * h * w == 0) by (nonlinear_arith)
                    requires
                        a == 0 || b == 0 || c == 0 || h == 0 || w == 0,
                ;
            } else {
                let p = a * b * c * h * w;
                assert(a * b <= p && a * b * c <= p && a * b * c * h <= p) by (nonlinear_arith)
                    requires
                        a >= 1,
                        b >= 1,
                        c >= 1,
                        h >= 1,
                        w >= 1,
                        p == a * b * c * h * w,
                ;
            }
        }
        if d[0] == 0 || d[1] == 0 || d[2] == 0 || d[3] == 0 || d[4] == 0 {
            return length == 0;
        }
        let planes: Option<usize> = match d[0].checked_mul(d[1]) {
            Some(pairs) => pairs.checked_mul(d[2]),
            None => None,
        };
        let lines: Option<usize> = match planes {
            Some(planes) => planes.checked_mul(d[3]),
            None => None,
        };
        let cells: Option<usize> = match lines {
            Some(lines) => lines.checked_mul(d[4]),
            None => None,
        };
        match cells {
            Some(cells) => cells == length,
            None => false,
        }
    }
}

/// The shape with both spatial axes doubled.
pub open spec fn doubled(dims: Seq<usize>) -> Seq<usize> {
    dims.update(3, (2 * dims[3]) as usize).update(4, (2 * dims[4]) as usize)
}

/// The shape with both spatial axes halved, or as it is where one of them is odd.
pub open spec fn pooled(dims: Seq<usize>) -> Seq<usize> {
    if dims[3] % 2 != 0 || dims[4] % 2 != 0 {
        dims
    } else {
        dims.update(3, dims[3] / 2).update(4, dims[4] / 2)
    }
}

/// The shape after `times` halvings.
pub open spec fn pooled_often(dims: Seq<usize>, times: nat) -> Seq<usize>
    decreases times,
{
    if times == 0 {
        dims
    } else {
        pooled(pooled_often(dims, (times - 1) as nat))
    }
}

/// The four cells that one cell of the halved latent averages: down the left
/// column, then down the right.
pub open spec fn quad(latent: LatentView, plane: int, row: int, column: int) -> Seq<u32> {
    seq![
        latent.at(plane, 2 * row, 2 * column),
        latent.at(plane, 2 * row + 1, 2 * column),
        latent.at(plane, 2 * row, 2 * column + 1),
        latent.at(plane, 2 * row + 1, 2 * column + 1),
    ]
}

/// The average of four values: the average of the averages of two.
pub open spec fn averaged(mean: spec_fn(u32, u32) -> u32, four: Seq<u32>) -> u32 {
    mean(mean(four[0], four[1]), mean(four[2], four[3]))
}

/// A latent with every cell repeated in two rows and two columns.
pub open spec fn enlarged(latent: LatentView) -> LatentView {
    filled(
        doubled(latent.dims),
        |plane: int, row: int, column: int| latent.at(plane, row / 2, column / 2),
    )
}

/// A latent with every square of four cells averaged, or as it is where an axis is
/// odd.
pub open spec fn halved(latent: LatentView, mean: spec_fn(u32, u32) -> u32) -> LatentView {
    if latent.dims[3] % 2 != 0 || latent.dims[4] % 2 != 0 {
        latent
    } else {
        filled(
            pooled(latent.dims),
            |plane: int, row: int, column: int| averaged(mean, quad(latent, plane, row, column)),
        )
    }
}

/// A latent after `times` halvings.
pub open spec fn halved_often(
    latent: LatentView,
    mean: spec_fn(u32, u32) -> u32,
    times: nat,
) -> LatentView
    decreases times,
{
    if times == 0 {
        latent
    } else {
        halved(halved_often(latent, mean, (times - 1) as nat), mean)
    }
}

/// What is left of a latent when what one more halving keeps is taken from it;
/// zero throughout where that halving changes nothing.
pub open spec fn detail(
    latent: LatentView,
    mean: spec_fn(u32, u32) -> u32,
    minus: spec_fn(u32, u32) -> u32,
) -> LatentView {
    let smooth = enlarged(halved(latent, mean));
    LatentView {
        dims: latent.dims,
        values: Seq::new(
            latent.values.len(),
            |j: int|
                if pooled(latent.dims) == latent.dims {
                    0
                } else {
                    minus(latent.values[j], smooth.values[j])
                },
        ),
    }
}

/// The octave of a latent that survives `octave` halvings but not one more.
pub open spec fn band(
    latent: LatentView,
    octave: nat,
    mean: spec_fn(u32, u32) -> u32,
    minus: spec_fn(u32, u32) -> u32,
) -> LatentView {
    detail(halved_often(latent, mean, octave), mean, minus)
}

/// `combine` takes any two values.
pub open spec fn takes_pairs<F: Fn(u32, u32) -> u32>(combine: &F) -> bool {
    forall|a: u32, b: u32| #[trigger] call_requires(combine, (a, b))
}

/// Whatever `combine` makes of two values is what the function `value` gives for
/// them.
pub open spec fn computes<F: Fn(u32, u32) -> u32>(
    combine: &F,
    value: spec_fn(u32, u32) -> u32,
) -> bool {
    forall|a: u32, b: u32, out: u32| #[trigger]
        call_ensures(combine, (a, b), out) ==> out == value(a, b)
}

proof fn place_is_inside(
    plane: int,
    row: int,
    column: int,
    height: int,
    width: int,
    count: int,
)
    requires
        0 <= plane < count,
        0 <= row < height,
        0 <= column < width,
    ensures
        0 <= place(plane, row, column, height, width) < count * height * width,
{
    let line = plane * height + row;
    assert(0 <= line < count * height) by (nonlinear_arith)
        requires
            0 <= plane < count,
            0 <= row < height,
            line == plane * height + row,
    ;
    assert(0 <= line * width + column < (count * height) * width) by (nonlinear_arith)
        requires
            0 <= line < count * height,
            0 <= column < width,
    ;
}

proof fn place_and_back(plane: int, row: int, column: int, height: int, width: int)
    requires
        0 <= row < height,
        0 <= column < width,
    ensures
        ({
            let k = place(plane, row, column, height, width);
            &&& k / width / height == plane
            &&& (k / width) % height == row
            &&& k % width == column
        }),
{
    let line = plane * height + row;
    lemma_fundamental_div_mod_converse(line * width + column, width, line, column);
    lemma_fundamental_div_mod_converse(line, height, plane, row);
}

proof fn back_and_place(k: int, height: int, width: int, count: int)
    requires
        0 <= k < count * height * width,
        height >= 0 && width >= 0,
    ensures
        height > 0 && width > 0,
        0 <= k / width / height < count,
        0 <= (k / width) % height < height,
        0 <= k % width < width,
        place(k / width / height, (k / width) % height, k % width, height, width) == k,
{
    if height == 0 || width == 0 {
        assert(count * height * width == 0) by (nonlinear_arith)
            requires
                height == 0 || width == 0,
        ;
    }
    let line = k / width;
    lemma_fundamental_div_mod(k, width);
    lemma_fundamental_div_mod(line, height);
    assert(line * width == width * line) by (nonlinear_arith);
    assert((line / height) * height == height * (line / height)) by (nonlinear_arith);
    assert(0 <= line < count * height) by (nonlinear_arith)
        requires
            k == width * line + k % width,
            0 <= k % width < width,
            0 <= k < (count * height) * width,
    ;
    assert(0 <= line / height < count) by (nonlinear_arith)
        requires
            line == height * (line / height) + line % height,
            0 <= line % height < height,
            0 <= line < count * height,
    ;
}

/// The place of a cell in a latent of the given shape, machine-sized.
fn locate(latent: &Latent, plane: usize, row: usize, column: usize) -> (at: usize)
    requires
        latent.valid(),
        plane < planes(latent.dims@),
        row < latent.dims[3],
        column < latent.dims[4],
    ensures
        at == place(
            plane as int,
            row as int,
            column as int,
            latent.dims[3] as int,
            latent.dims[4] as int,
        ),
        at < latent.values@.len(),
{
    let (height, width): (usize, usize) = (latent.dims[3], latent.dims[4]);
    let length: usize = latent.values.len();
    proof {
        let (p, y, x, h, w): (int, int, int, int, int) = (
            plane as int,
            row as int,
            column as int,
            height as int,
            width as int,
        );
        place_is_inside(p, y, x, h, w, planes(latent.dims@) as int);
        assert(0 <= p * h) by (nonlinear_arith)
            requires
                p >= 0,
                h >= 0,
        ;
        let line = p * h + y;
        assert(line <= line * w) by (nonlinear_arith)
            requires
                line >= 0,
                w >= 1,
        ;
        assert(place(p, y, x, h, w) < length);
    }
    (plane * height + row) * width + column
}

/// A filled latent has the value that it was filled with in every cell.
pub proof fn filled_cells(
    dims: Seq<usize>,
    cell: spec_fn(int, int, int) -> u32,
    plane: int,
    row: int,
    column: int,
)
    requires
        0 <= plane < planes(dims),
        0 <= row < dims[3],
        0 <= column < dims[4],
    ensures
        filled(dims, cell).at(plane, row, column) == cell(plane, row, column),
{
    let (h, w) = (dims[3] as int, dims[4] as int);
    place_is_inside(plane, row, column, h, w, planes(dims) as int);
    place_and_back(plane, row, column, h, w);
}

/// Repeats every cell in two rows and two columns.
pub fn spatial_upsample2(latent: &Latent) -> (larger: Latent)
    requires
        latent.valid(),
        2 * latent.dims[3] <= usize::MAX,
        2 * latent.dims[4] <= usize::MAX,
        cells(doubled(latent.dims@)) <= usize::MAX,
    ensures
        larger.valid(),
        larger@ == enlarged(latent@),
{
    let (tall, wide): (usize, usize) = (2 * latent.dims[3], 2 * latent.dims[4]);
    let dims: [usize; 5] = [latent.dims[0], latent.dims[1], latent.dims[2], tall, wide];
    assert(dims@ =~= doubled(latent.dims@));
    let ghost count = planes(latent.dims@) as int;
    let ghost (h, w) = (latent.dims[3] as int, latent.dims[4] as int);
    proof {
        assert(count * (2 * h) * (2 * w) == 4 * (count * h * w)) by (nonlinear_arith);
    }
    let total: usize = 4 * latent.values.len();
    let mut values: Vec<u32> = Vec::new();
    let mut k: usize = 0;
    while k < total
        invariant
            k <= total,
            total == count * tall * wide,
            count == planes(latent.dims@),
            tall == 2 * latent.dims[3] && wide == 2 * latent.dims[4],
            latent.valid(),
            values@.len() == k,
            forall|j: int|
                0 <= j < k ==> #[trigger] values@[j] == latent@.at(
                    j / wide as int / tall as int,
                    ((j / wide as int) % tall as int) / 2,
                    (j % wide as int) / 2,
                ),
        decreases total - k,
    {
        proof {
            back_and_place(k as int, tall as int, wide as int, count);
        }
        let line: usize = k / wide;
        let source: usize = locate(latent, line / tall, (line % tall) / 2, (k % wide) / 2);
        values.push(latent.values[source]);
        k = k + 1;
    }
    let larger: Latent = Latent { dims, values };
    assert(larger@ =~= enlarged(latent@));
    larger
}

/// Averages the cells of a latent in squares of four. A latent with an odd axis
/// stays as it is. `mean` averages two values.
pub fn spatial_pool2<F: Fn(u32, u32) -> u32>(latent: &Latent, mean: &F) -> (smaller: Latent)
    requires
        latent.valid(),
        takes_pairs(mean),
    ensures
        smaller.valid(),
        smaller.dims@ == pooled(latent.dims@),
        forall|average: spec_fn(u32, u32) -> u32| #[trigger]
            computes(mean, average) ==> smaller@ == halved(latent@, average),
{
    if latent.dims[3] % 2 != 0 || latent.dims[4] % 2 != 0 {
        let values: Vec<u32> = latent.values.clone();
        assert(values@ =~= latent.values@);
        return Latent { dims: latent.dims, values };
    }
    let (low, slim): (usize, usize) = (latent.dims[3] / 2, latent.dims[4] / 2);
    let dims: [usize; 5] = [latent.dims[0], latent.dims[1], latent.dims[2], low, slim];
    assert(dims@ =~= pooled(latent.dims@));
    let ghost count = planes(latent.dims@) as int;
    let total: usize = latent.values.len() / 4;
    proof {
        let (a, b): (int, int) = (low as int, slim as int);
        assert(count * (2 * a) * (2 * b) == 4 * (count * a * b)) by (nonlinear_arith);
    }
    let mut values: Vec<u32> = Vec::new();
    let mut k: usize = 0;
    while k < total
        invariant
            k <= total,
            total == count * low * slim,
            count == planes(latent.dims@),
            latent.dims[3] == 2 * low && latent.dims[4] == 2 * slim,
            latent.valid(),
            takes_pairs(mean),
            values@.len() == k,
            forall|average: spec_fn(u32, u32) -> u32, j: int|
                #![trigger computes(mean, average), values@[j]]
                computes(mean, average) && 0 <= j < k ==> values@[j] == averaged(
                    average,
                    quad(
                        latent@,
                        j / slim as int / low as int,
                        (j / slim as int) % low as int,
                        j % slim as int,
                    ),
                ),
        decreases total - k,
    {
        proof {
            back_and_place(k as int, low as int, slim as int, count);
        }
        let line: usize = k / slim;
        let (plane, row, column): (usize, usize, usize) = (line / low, line % low, k % slim);
        let a: usize = locate(latent, plane, 2 * row, 2 * column);
        let b: usize = locate(latent, plane, 2 * row + 1, 2 * column);
        let c: usize = locate(latent, plane, 2 * row, 2 * column + 1);
        let d: usize = locate(latent, plane, 2 * row + 1, 2 * column + 1);
        let left: u32 = mean(latent.values[a], latent.values[b]);
        let right: u32 = mean(latent.values[c], latent.values[d]);
        values.push(mean(left, right));
        k = k + 1;
    }
    let smaller: Latent = Latent { dims, values };
    assert forall|average: spec_fn(u32, u32) -> u32| #[trigger]
        computes(mean, average) implies smaller@ == halved(latent@, average) by {
        assert(smaller@ =~= halved(latent@, average));
    }
    smaller
}

/// The octave of a latent that survives `octave` halvings but not one more. `mean`
/// averages two values, `minus` takes the second from the first.
pub fn laplacian_band<F: Fn(u32, u32) -> u32, G: Fn(u32, u32) -> u32>(
    latent: &Latent,
    octave: usize,
    mean: &F,
    minus: &G,
) -> (level: Latent)
    requires
        latent.valid(),
        takes_pairs(mean),
        takes_pairs(minus),
    ensures
        level.valid(),
        level.dims@ == pooled_often(latent.dims@, octave as nat),
        forall|average: spec_fn(u32, u32) -> u32, difference: spec_fn(u32, u32) -> u32|
            #![trigger computes(mean, average), computes(minus, difference)]
            computes(mean, average) && computes(minus, difference) ==> level@ == band(
                latent@,
                octave as nat,
                average,
                difference,
            ),
{
    let copy: Vec<u32> = latent.values.clone();
    assert(copy@ =~= latent.values@);
    let mut low: Latent = Latent { dims: latent.dims, values: copy };
    let mut done: usize = 0;
    while done < octave
        invariant
            done <= octave,
            low.valid(),
            takes_pairs(mean),
            low.dims@ == pooled_often(latent.dims@, done as nat),
            forall|average: spec_fn(u32, u32) -> u32| #[trigger]
                computes(mean, average) ==> low@ == halved_often(latent@, average, done as nat),
        decreases octave - done,
    {
        low = spatial_pool2(&low, mean);
        done = done + 1;
    }
    let coarser: Latent = spatial_pool2(&low, mean);
    let still: bool = coarser.dims[3] == low.dims[3] && coarser.dims[4] == low.dims[4];
    proof {
        if still {
            assert(pooled(low.dims@) =~= low.dims@);
        }
    }
    let mut values: Vec<u32> = Vec::new();
    if still {
        while values.len() < low.values.len()
            invariant
                values@.len() <= low.values@.len(),
                forall|j: int| 0 <= j < values@.len() ==> #[trigger] values@[j] == 0,
            decreases low.values.len() - values.len(),
        {
            values.push(0);
        }
    } else {
        assert(doubled(coarser.dims@) =~= low.dims@);
        let smooth: Latent = spatial_upsample2(&coarser);
        while values.len() < low.values.len()
            invariant
                values@.len() <= low.values@.len(),
                smooth.values@.len() == low.values@.len(),
                takes_pairs(minus),
                forall|difference: spec_fn(u32, u32) -> u32, j: int|
                    #![trigger computes(minus, difference), values@[j]]
                    computes(minus, difference) && 0 <= j < values@.len() ==> values@[j]
                        == difference(low.values@[j], smooth.values@[j]),
            decreases low.values.len() - values.len(),
        {
            let k: usize = values.len();
            values.push(minus(low.values[k], smooth.values[k]));
        }
    }
    let level: Latent = Latent { dims: low.dims, values };
    assert forall|average: spec_fn(u32, u32) -> u32, difference: spec_fn(u32, u32) -> u32|
        #![trigger computes(mean, average), computes(minus, difference)]
        computes(mean, average) && computes(minus, difference) implies level@ == band(
        latent@,
        octave as nat,
        average,
        difference,
    ) by {
        assert(level@ =~= detail(low@, average, difference));
    }
    level
}

/// Halving undoes doubling, where the average of a value and itself is that value.
pub proof fn pooling_undoes_upsampling(latent: LatentView, mean: spec_fn(u32, u32) -> u32)
    requires
        latent.valid(),
        2 * latent.dims[3] <= usize::MAX,
        2 * latent.dims[4] <= usize::MAX,
        forall|i: int|
            0 <= i < latent.values.len() ==> mean(#[trigger] latent.values[i], latent.values[i])
                == latent.values[i],
    ensures
        halved(enlarged(latent), mean) == latent,
{
    let larger = enlarged(latent);
    let (h, w) = (latent.dims[3] as int, latent.dims[4] as int);
    let count = planes(latent.dims) as int;
    assert(pooled(larger.dims) =~= latent.dims);
    assert(planes(larger.dims) == count);
    let cell = |plane: int, row: int, column: int| latent.at(plane, row / 2, column / 2);
    assert forall|j: int| 0 <= j < latent.values.len() implies halved(larger, mean).values[j]
        == #[trigger] latent.values[j] by {
        back_and_place(j, h, w, count);
        let (plane, row, column) = (j / w / h, (j / w) % h, j % w);
        filled_cells(larger.dims, cell, plane, 2 * row, 2 * column);
        filled_cells(larger.dims, cell, plane, 2 * row + 1, 2 * column);
        filled_cells(larger.dims, cell, plane, 2 * row, 2 * column + 1);
        filled_cells(larger.dims, cell, plane, 2 * row + 1, 2 * column + 1);
        assert((2 * row + 1) / 2 == row && (2 * row) / 2 == row);
        assert((2 * column + 1) / 2 == column && (2 * column) / 2 == column);
        assert(latent.at(plane, row, column) == latent.values[j]);
    }
    assert(halved(larger, mean) =~= latent);
}

/// A doubled latent has nothing in its finest octave, where moreover a value less
/// itself is zero.
pub proof fn doubled_latents_have_no_finest_band(
    latent: LatentView,
    mean: spec_fn(u32, u32) -> u32,
    minus: spec_fn(u32, u32) -> u32,
)
    requires
        latent.valid(),
        2 * latent.dims[3] <= usize::MAX,
        2 * latent.dims[4] <= usize::MAX,
        forall|i: int|
            0 <= i < latent.values.len() ==> {
                let value = #[trigger] latent.values[i];
                mean(value, value) == value && minus(value, value) == 0
            },
    ensures
        band(enlarged(latent), 0, mean, minus).dims == doubled(latent.dims),
        forall|j: int|
            0 <= j < cells(doubled(latent.dims)) ==> #[trigger] band(
                enlarged(latent),
                0,
                mean,
                minus,
            ).values[j] == 0,
{
    pooling_undoes_upsampling(latent, mean);
    let larger = enlarged(latent);
    let (h, w) = (latent.dims[3] as int, latent.dims[4] as int);
    let count = planes(latent.dims) as int;
    assert forall|j: int| 0 <= j < cells(doubled(latent.dims)) implies #[trigger] band(
        larger,
        0,
        mean,
        minus,
    ).values[j] == 0 by {
        back_and_place(j, 2 * h, 2 * w, count);
        let (plane, row, column) = (
            j / (2 * w) / (2 * h),
            (j / (2 * w)) % (2 * h),
            j % (2 * w),
        );
        place_is_inside(plane, row / 2, column / 2, h, w, count);
        let value = latent.values[place(plane, row / 2, column / 2, h, w)];
        assert(larger.values[j] == value);
    }
}

/// Halving once more at the end is halving once more at the beginning.
pub proof fn halving_composes(latent: LatentView, mean: spec_fn(u32, u32) -> u32, times: nat)
    ensures
        halved_often(latent, mean, times + 1) == halved_often(halved(latent, mean), mean, times),
        pooled_often(latent.dims, times + 1) == pooled_often(pooled(latent.dims), times),
    decreases times,
{
    if times > 0 {
        halving_composes(latent, mean, (times - 1) as nat);
    } else {
        reveal_with_fuel(halved_often, 2);
        reveal_with_fuel(pooled_often, 2);
    }
}

/// The octaves of a halved latent are those of the latent, but for the finest.
pub proof fn octaves_of_a_halved_latent(
    latent: LatentView,
    octave: nat,
    mean: spec_fn(u32, u32) -> u32,
    minus: spec_fn(u32, u32) -> u32,
)
    ensures
        band(latent, octave + 1, mean, minus) == band(halved(latent, mean), octave, mean, minus),
{
    halving_composes(latent, mean, octave);
}

/// The shape of a halved latent is the halved shape, however often it is halved.
pub proof fn shapes_follow_the_latent(
    latent: LatentView,
    mean: spec_fn(u32, u32) -> u32,
    times: nat,
)
    requires
        latent.valid(),
    ensures
        halved_often(latent, mean, times).valid(),
        halved_often(latent, mean, times).dims == pooled_often(latent.dims, times),
    decreases times,
{
    if times > 0 {
        shapes_follow_the_latent(latent, mean, (times - 1) as nat);
    }
}

/// A shape with an odd axis stays as it is, however often it is halved.
pub proof fn odd_shapes_stay(dims: Seq<usize>, times: nat)
    requires
        pooled(dims) == dims,
    ensures
        pooled_often(dims, times) == dims,
    decreases times,
{
    if times > 0 {
        odd_shapes_stay(dims, (times - 1) as nat);
    }
}

/// The frames whose differences are formed, later ones and the ones before them,
/// each from its first frame to past its last.
pub fn difference_ranges(frames: usize) -> (ranges: ((usize, usize), (usize, usize)))
    requires
        frames > 0,
    ensures
        ranges.0 == (1usize, frames),
        ranges.1.0 == 0 && ranges.1.1 == frames - 1,
        ranges.0.1 - ranges.0.0 == ranges.1.1 - ranges.1.0,
{
    ((1, frames), (0, frames - 1))
}

/// Cells lie row after row and plane after plane: the one to the right comes next,
/// after the last of a row comes the first of the next, and after the last of a
/// plane the first of the next.
pub proof fn cells_lie_in_order(plane: int, row: int, column: int, height: int, width: int)
    requires
        height > 0 && width > 0,
    ensures
        place(0, 0, 0, height, width) == 0,
        place(plane, row, column + 1, height, width) == place(plane, row, column, height, width) + 1,
        place(plane, row + 1, 0, height, width) == place(plane, row, width - 1, height, width) + 1,
        place(plane + 1, 0, 0, height, width) == place(
            plane,
            height - 1,
            width - 1,
            height,
            width,
        ) + 1,
{
    assert((plane * height + (row + 1)) * width == (plane * height + row) * width + width)
        by (nonlinear_arith);
    assert(((plane + 1) * height) * width == (plane * height + (height - 1)) * width + width)
        by (nonlinear_arith);
    assert((0 * height + 0) * width == 0) by (nonlinear_arith);
}

/// A latent has a value for every cell: as many as the product of its sizes.
pub proof fn latents_have_all_their_cells(latent: LatentView)
    requires
        latent.dims.len() == 5,
    ensures
        latent.valid() <==> latent.values.len() == latent.dims[0] * latent.dims[1]
            * latent.dims[2] * latent.dims[3] * latent.dims[4],
        planes(latent.dims) == latent.dims[0] * latent.dims[1] * latent.dims[2],
{
}

/// The value of a cell is the one at its place, and a latent has a place for every
/// cell: as many as the product of its sizes.
pub proof fn cells_have_their_values(latent: LatentView, plane: int, row: int, column: int)
    requires
        latent.valid(),
        0 <= plane < latent.dims[0] * latent.dims[1] * latent.dims[2],
        0 <= row < latent.dims[3],
        0 <= column < latent.dims[4],
    ensures
        latent.values.len() == latent.dims[0] * latent.dims[1] * latent.dims[2] * latent.dims[3]
            * latent.dims[4],
        ({
            let k = plane * (latent.dims[3] * latent.dims[4]) + row * latent.dims[4] + column;
            0 <= k < latent.values.len() && latent.at(plane, row, column) == latent.values[k]
        }),
{
    let (h, w): (int, int) = (latent.dims[3] as int, latent.dims[4] as int);
    place_is_inside(plane, row, column, h, w, planes(latent.dims) as int);
    assert((plane * h + row) * w + column == plane * (h * w) + row * w + column)
        by (nonlinear_arith);
}

/// Doubling repeats every cell in two rows and two columns of its own plane.
pub proof fn doubling_repeats_every_cell(latent: LatentView, plane: int, row: int, column: int)
    requires
        latent.valid(),
        2 * latent.dims[3] <= usize::MAX,
        2 * latent.dims[4] <= usize::MAX,
        0 <= plane < planes(latent.dims),
        0 <= row < latent.dims[3],
        0 <= column < latent.dims[4],
    ensures
        enlarged(latent).valid(),
        enlarged(latent).dims.len() == 5,
        forall|i: int| 0 <= i < 3 ==> #[trigger] enlarged(latent).dims[i] == latent.dims[i],
        enlarged(latent).dims[3] == 2 * latent.dims[3],
        enlarged(latent).dims[4] == 2 * latent.dims[4],
        enlarged(latent).at(plane, 2 * row, 2 * column) == latent.at(plane, row, column),
        enlarged(latent).at(plane, 2 * row + 1, 2 * column) == latent.at(plane, row, column),
        enlarged(latent).at(plane, 2 * row, 2 * column + 1) == latent.at(plane, row, column),
        enlarged(latent).at(plane, 2 * row + 1, 2 * column + 1) == latent.at(plane, row, column),
{
    let larger = doubled(latent.dims);
    let cell = |p: int, r: int, c: int| latent.at(p, r / 2, c / 2);
    assert(planes(larger) == planes(latent.dims));
    filled_cells(larger, cell, plane, 2 * row, 2 * column);
    filled_cells(larger, cell, plane, 2 * row + 1, 2 * column);
    filled_cells(larger, cell, plane, 2 * row, 2 * column + 1);
    filled_cells(larger, cell, plane, 2 * row + 1, 2 * column + 1);
    assert((2 * row) / 2 == row && (2 * row + 1) / 2 == row);
    assert((2 * column) / 2 == column && (2 * column + 1) / 2 == column);
}

/// Halving makes of every square of four cells one cell, whose value is averaged
/// down the columns and then across them. A latent with an odd axis stays as it
/// is.
pub proof fn halving_averages_every_square(
    latent: LatentView,
    mean: spec_fn(u32, u32) -> u32,
    plane: int,
    row: int,
    column: int,
)
    requires
        latent.valid(),
    ensures
        halved(latent, mean).valid(),
        latent.dims[3] % 2 == 1 || latent.dims[4] % 2 == 1 ==> halved(latent, mean) == latent,
        latent.dims[3] % 2 == 0 && latent.dims[4] % 2 == 0 ==> {
            let smaller = halved(latent, mean);
            &&& forall|i: int| 0 <= i < 3 ==> #[trigger] smaller.dims[i] == latent.dims[i]
            &&& 2 * smaller.dims[3] == latent.dims[3]
            &&& 2 * smaller.dims[4] == latent.dims[4]
            &&& 0 <= plane < planes(latent.dims) && 0 <= 2 * row < latent.dims[3] && 0 <= 2 * column
                < latent.dims[4] ==> smaller.at(plane, row, column) == mean(
                mean(
                    latent.at(plane, 2 * row, 2 * column),
                    latent.at(plane, 2 * row + 1, 2 * column),
                ),
                mean(
                    latent.at(plane, 2 * row, 2 * column + 1),
                    latent.at(plane, 2 * row + 1, 2 * column + 1),
                ),
            )
        },
{
    if latent.dims[3] % 2 == 0 && latent.dims[4] % 2 == 0 {
        let dims = pooled(latent.dims);
        assert(planes(dims) == planes(latent.dims));
        if 0 <= plane < planes(latent.dims) && 0 <= 2 * row < latent.dims[3] && 0 <= 2 * column
            < latent.dims[4] {
            let cell = |p: int, r: int, c: int| averaged(mean, quad(latent, p, r, c));
            filled_cells(dims, cell, plane, row, column);
        }
    }
}

/// Every cell of the finest octave of a latent with even axes is that same cell
/// less the average of the square that it lies in.
pub proof fn bands_are_cells_less_their_squares(
    latent: LatentView,
    mean: spec_fn(u32, u32) -> u32,
    minus: spec_fn(u32, u32) -> u32,
    plane: int,
    row: int,
    column: int,
)
    requires
        latent.valid(),
        latent.dims[3] % 2 == 0 && latent.dims[4] % 2 == 0,
        0 <= plane < planes(latent.dims),
        0 <= row < latent.dims[3],
        0 <= column < latent.dims[4],
    ensures
        ({
            let (y, x) = (row - row % 2, column - column % 2);
            &&& band(latent, 0, mean, minus).dims == latent.dims
            &&& band(latent, 0, mean, minus).valid()
            &&& band(latent, 0, mean, minus).at(plane, row, column) == minus(
                latent.at(plane, row, column),
                mean(
                    mean(latent.at(plane, y, x), latent.at(plane, y + 1, x)),
                    mean(latent.at(plane, y, x + 1), latent.at(plane, y + 1, x + 1)),
                ),
            )
        }),
{
    let smaller = halved(latent, mean);
    let (h, w): (int, int) = (latent.dims[3] as int, latent.dims[4] as int);
    halving_averages_every_square(latent, mean, plane, row / 2, column / 2);
    assert(doubled(smaller.dims) =~= latent.dims);
    doubling_repeats_every_cell(smaller, plane, row / 2, column / 2);
    assert(row % 2 == 0 || row % 2 == 1);
    assert(2 * (row / 2) == row - row % 2 && 2 * (column / 2) == column - column % 2);
    assert(enlarged(smaller).at(plane, row, column) == smaller.at(plane, row / 2, column / 2));
    place_is_inside(plane, row, column, h, w, planes(latent.dims) as int);
    assert(pooled(latent.dims)[3] < latent.dims[3]);
}

/// A band and what one more halving keeps of the latent make up the latent again:
/// where adding undoes taking away, adding the doubled half to the band, value by
/// value, gives what the band was taken of, at every octave.
pub proof fn bands_and_halves_make_up_the_latent(
    latent: LatentView,
    octave: nat,
    mean: spec_fn(u32, u32) -> u32,
    minus: spec_fn(u32, u32) -> u32,
    plus: spec_fn(u32, u32) -> u32,
    j: int,
)
    requires
        latent.valid(),
        halved_often(latent, mean, octave).dims[3] % 2 == 0,
        halved_often(latent, mean, octave).dims[4] % 2 == 0,
        forall|a: u32, b: u32| #[trigger] plus(minus(a, b), b) == a,
        0 <= j < halved_often(latent, mean, octave).values.len(),
    ensures
        ({
            let low = halved_often(latent, mean, octave);
            let smooth = enlarged(halved_often(latent, mean, octave + 1));
            let rest = band(latent, octave, mean, minus);
            &&& rest.dims == low.dims && smooth.dims == low.dims
            &&& rest.values.len() == low.values.len() && smooth.values.len() == low.values.len()
            &&& plus(rest.values[j], smooth.values[j]) == low.values[j]
        }),
{
    shapes_follow_the_latent(latent, mean, octave);
    let low = halved_often(latent, mean, octave);
    let (h, w): (int, int) = (low.dims[3] as int, low.dims[4] as int);
    let smaller = halved(low, mean);
    assert(doubled(smaller.dims) =~= low.dims);
    back_and_place(j, h, w, planes(low.dims) as int);
    assert(pooled(low.dims)[3] < low.dims[3]);
    assert(band(latent, octave, mean, minus).values[j] == minus(
        low.values[j],
        enlarged(smaller).values[j],
    ));
}

/// A latent that halving leaves alone has nothing in its band: zeros, and as many
/// as the latent has cells.
pub proof fn still_latents_have_empty_bands(
    latent: LatentView,
    octave: nat,
    mean: spec_fn(u32, u32) -> u32,
    minus: spec_fn(u32, u32) -> u32,
    j: int,
)
    requires
        latent.valid(),
        latent.dims[3] % 2 == 1 || latent.dims[4] % 2 == 1,
        0 <= j < latent.values.len(),
    ensures
        band(latent, octave, mean, minus).dims == latent.dims,
        band(latent, octave, mean, minus).values.len() == latent.values.len(),
        band(latent, octave, mean, minus).values[j] == 0,
    decreases octave,
{
    if octave > 0 {
        still_latents_have_empty_bands(latent, (octave - 1) as nat, mean, minus, j);
        octaves_of_a_halved_latent(latent, (octave - 1) as nat, mean, minus);
    }
}

} // verus!
