//! How attention is scheduled: the blocks of query rows that are scored at a
//! time, and the width of a head.
//!
//! Softmax normalises every query row by itself, so rows can be taken in blocks
//! without changing any of them. What has to hold for that is that the blocks
//! cover every row once, in order.
use vstd::prelude::*;
use crate::geometry::{in_shape, row_major};
use crate::text::{
    blank, decimal, numbers_are_read_from_their_text, other_text_is_no_number, parse_trimmed, parsed,
    trimmed, trimming_takes_the_ends, zeros,
};

verus! {

/// Query rows in a block, unless another number is asked for.
pub const DEFAULT_ATTENTION_BLOCK: usize = 1024;

/// The blocks of `seq` query rows, each from its first row to past its last. A
/// block width of zero, or one that no fewer rows than all fit in, leaves the
/// rows in one block.
pub open spec fn tiles(seq: nat, block: nat) -> Seq<(nat, nat)> {
    if block == 0 || seq <= block {
        seq![(0nat, seq)]
    } else {
        Seq::new(
            (seq + block - 1) as nat / block,
            |i: int|
                (
                    i as nat * block,
                    if (i as nat + 1) * block < seq {
                        (i as nat + 1) * block
                    } else {
                        seq
                    },
                ),
        )
    }
}

proof fn tile_bounds(seq: nat, block: nat, i: int)
    requires
        0 < block < seq,
        0 <= i < tiles(seq, block).len(),
    ensures
        i * block < seq,
        i + 1 == tiles(seq, block).len() ==> (i + 1) * block >= seq,
        i + 1 < tiles(seq, block).len() ==> (i + 1) * block < seq,
{
    let (n, b, s): (int, int, int) = (tiles(seq, block).len() as int, block as int, seq as int);
    vstd::arithmetic::div_mod::lemma_fundamental_div_mod(s + b - 1, b);
    let r = (s + b - 1) % b;
    assert(i * b < s) by (nonlinear_arith)
        requires
            i + 1 <= n,
            s + b - 1 == b * n + r,
            0 <= r < b,
            b > 0,
    ;
    if i + 1 == n {
        assert((i + 1) * b >= s) by (nonlinear_arith)
            requires
                i + 1 == n,
                s + b - 1 == b * n + r,
                0 <= r < b,
        ;
    } else {
        assert((i + 1) * b < s) by (nonlinear_arith)
            requires
                i + 2 <= n,
                s + b - 1 == b * n + r,
                0 <= r < b,
                b > 0,
        ;
    }
}

/// The blocks begin at the first row, follow one another without a gap or an
/// overlap, and end after the last row. Only where there is one block can it be
/// wider than asked for, or empty.
pub proof fn tiles_partition_the_rows(seq: nat, block: nat)
    ensures
        tiles(seq, block).len() >= 1,
        tiles(seq, block)[0].0 == 0,
        tiles(seq, block).last().1 == seq,
        forall|i: int|
            0 <= i < tiles(seq, block).len() - 1 ==> (#[trigger] tiles(seq, block)[i]).1 == tiles(
                seq,
                block,
            )[i + 1].0,
        0 < block < seq ==> forall|i: int|
            0 <= i < tiles(seq, block).len() ==> (#[trigger] tiles(seq, block)[i]).0 < tiles(
                seq,
                block,
            )[i].1 <= tiles(seq, block)[i].0 + block,
{
    if 0 < block < seq {
        let (s, b): (int, int) = (seq as int, block as int);
        vstd::arithmetic::div_mod::lemma_fundamental_div_mod(s + b - 1, b);
        let count = tiles(seq, block).len();
        assert(count >= 1) by (nonlinear_arith)
            requires
                s + b - 1 == b * count + (s + b - 1) % b,
                (s + b - 1) % b < b,
                s > b,
                b > 0,
        ;
        tile_bounds(seq, block, count - 1);
        assert(0 * b == 0);
        assert forall|i: int| 0 <= i < count - 1 implies (#[trigger] tiles(seq, block)[i]).1
            == tiles(seq, block)[i + 1].0 by {
            tile_bounds(seq, block, i);
        }
        assert forall|i: int| 0 <= i < count implies (#[trigger] tiles(seq, block)[i]).0 < tiles(
            seq,
            block,
        )[i].1 <= tiles(seq, block)[i].0 + block by {
            tile_bounds(seq, block, i);
            assert((i + 1) * b == i * b + b) by (nonlinear_arith);
        }
    }
}

/// What attention gives for the query rows of the first `count` blocks, block by
/// block, where `attend` is what it gives for one row against all keys and values.
pub open spec fn attended<Q, O>(
    rows: Seq<Q>,
    attend: spec_fn(Q) -> O,
    block: nat,
    count: nat,
) -> Seq<O>
    decreases count,
{
    if count == 0 {
        Seq::empty()
    } else {
        let tile = tiles(rows.len(), block)[count - 1];
        attended(rows, attend, block, (count - 1) as nat) + rows.subrange(
            tile.0 as int,
            tile.1 as int,
        ).map_values(attend)
    }
}

proof fn blocks_attend_to_their_rows<Q, O>(
    rows: Seq<Q>,
    attend: spec_fn(Q) -> O,
    block: nat,
    count: nat,
)
    requires
        0 < count <= tiles(rows.len(), block).len(),
    ensures
        ({
            let end = tiles(rows.len(), block)[count - 1].1;
            &&& end <= rows.len()
            &&& attended(rows, attend, block, count) == rows.take(end as int).map_values(attend)
        }),
    decreases count,
{
    let all = tiles(rows.len(), block);
    tiles_partition_the_rows(rows.len(), block);
    let tile = all[count - 1];
    if count > 1 {
        blocks_attend_to_their_rows(rows, attend, block, (count - 1) as nat);
        assert(all[count - 2].1 == all[count - 2 + 1].0);
    } else {
        assert(attended(rows, attend, block, 0) =~= rows.take(0).map_values(attend));
    }
    assert(tile.0 <= tile.1 <= rows.len());
    assert(attended(rows, attend, block, count) =~= rows.take(tile.1 as int).map_values(attend));
}

/// Attention in blocks is attention row by row, whatever the block width.
pub proof fn blocks_change_no_row<Q, O>(
    rows: Seq<Q>,
    attend: spec_fn(Q) -> O,
    block: nat,
    other: nat,
)
    ensures
        attended(rows, attend, block, tiles(rows.len(), block).len()) == rows.map_values(attend),
        attended(rows, attend, block, tiles(rows.len(), block).len()) == attended(
            rows,
            attend,
            other,
            tiles(rows.len(), other).len(),
        ),
{
    tiles_partition_the_rows(rows.len(), block);
    tiles_partition_the_rows(rows.len(), other);
    blocks_attend_to_their_rows(rows, attend, block, tiles(rows.len(), block).len());
    blocks_attend_to_their_rows(rows, attend, other, tiles(rows.len(), other).len());
    assert(rows.take(rows.len() as int) =~= rows);
}

/// The blocks of `seq` query rows.
pub fn attention_tiles(seq: usize, block: usize) -> (blocks: Vec<(usize, usize)>)
    ensures
        blocks@.len() == tiles(seq as nat, block as nat).len(),
        forall|i: int|
            0 <= i < blocks@.len() ==> {
                let tile = tiles(seq as nat, block as nat)[i];
                (#[trigger] blocks@[i]).0 == tile.0 && blocks@[i].1 == tile.1
            },
{
    let mut blocks: Vec<(usize, usize)> = Vec::new();
    let ghost wanted = tiles(seq as nat, block as nat);
    if block == 0 || seq <= block {
        blocks.push((0, seq));
        return blocks;
    }
    let mut start: usize = 0;
    proof {
        tiles_partition_the_rows(seq as nat, block as nat);
        assert(0 * block == 0);
    }
    while start < seq
        invariant
            0 < block < seq,
            start <= seq,
            wanted == tiles(seq as nat, block as nat),
            blocks@.len() <= wanted.len(),
            start < seq ==> blocks@.len() < wanted.len() && start == blocks@.len() * block,
            start == seq ==> blocks@.len() == wanted.len(),
            forall|k: int|
                0 <= k < blocks@.len() ==> (#[trigger] blocks@[k]).0 == wanted[k].0
                    && blocks@[k].1 == wanted[k].1,
        decreases seq - start,
    {
        let ghost k: int = blocks@.len() as int;
        proof {
            tile_bounds(seq as nat, block as nat, k);
            assert((k + 1) * block == k * block + block) by (nonlinear_arith);
        }
        let end: usize = if seq - start <= block {
            seq
        } else {
            start + block
        };
        blocks.push((start, end));
        start = end;
    }
    blocks
}

/// The block width that a setting asks for: a positive number, white space
/// around it aside, else the default.
pub open spec fn block_width(setting: Option<Seq<char>>) -> nat {
    match setting {
        Some(text) => match parsed(trimmed(text)) {
            Some(width) => if width > 0 {
                width
            } else {
                DEFAULT_ATTENTION_BLOCK as nat
            },
            None => DEFAULT_ATTENTION_BLOCK as nat,
        },
        None => DEFAULT_ATTENTION_BLOCK as nat,
    }
}

/// The block width for the text of a setting that may be missing.
pub fn attention_block(setting: Option<&str>) -> (width: usize)
    ensures
        width == block_width(
            match setting {
                Some(text) => Some(text@),
                None => None,
            },
        ),
        width > 0,
{
    if let Some(text) = setting {
        if let Some(width) = parse_trimmed(text) {
            if width > 0 {
                return width;
            }
        }
    }
    DEFAULT_ATTENTION_BLOCK
}

/// How the columns of a block are shared out among its heads.
#[derive(Clone, Copy, Debug, PartialEq, Eq, Structural)]
pub struct HeadPlan {
    pub batch: usize,
    pub seq: usize,
    pub width: usize,
    pub heads: usize,
    /// The width of one head.
    pub dim: usize,
}

impl HeadPlan {
    pub open spec fn valid(self) -> bool {
        self.heads > 0 && self.width == self.heads * self.dim
    }

    /// Batch, row, column.
    pub open spec fn merged(self) -> Seq<usize> {
        seq![self.batch, self.seq, self.width]
    }

    /// Batch, row, head, column of the head.
    pub open spec fn split(self) -> Seq<usize> {
        seq![self.batch, self.seq, self.heads, self.dim]
    }

    /// The plan for a width that divides evenly among the heads.
    pub fn new(batch: usize, seq: usize, width: usize, heads: usize) -> (plan: HeadPlan)
        requires
            heads > 0,
            width % heads == 0,
        ensures
            plan.valid(),
            plan.batch == batch && plan.seq == seq && plan.width == width && plan.heads == heads,
    {
        proof {
            let (w, h): (int, int) = (width as int, heads as int);
            vstd::arithmetic::div_mod::lemma_fundamental_div_mod(w, h);
        }
        HeadPlan { batch, seq, width, heads, dim: width / heads }
    }

    /// The shape with the columns split among the heads.
    pub fn split_shape(&self) -> (shape: [usize; 4])
        ensures
            shape@ == self.split(),
    {
        let shape: [usize; 4] = [self.batch, self.seq, self.heads, self.dim];
        assert(shape@ =~= self.split());
        shape
    }

    /// The shape with the columns of all heads side by side.
    pub fn merged_shape(&self) -> (shape: [usize; 3])
        ensures
            shape@ == self.merged(),
    {
        let shape: [usize; 3] = [self.batch, self.seq, self.width];
        assert(shape@ =~= self.merged());
        shape
    }
}

/// Splitting the columns gives every one of them to one head, side by side, and
/// merging puts it back: neither moves an element.
pub proof fn heads_share_out_the_columns(plan: HeadPlan, index: Seq<int>)
    requires
        plan.valid(),
        in_shape(plan.merged(), index),
    ensures
        ({
            let (head, lane) = (index[2] / plan.dim as int, index[2] % plan.dim as int);
            let part = seq![index[0], index[1], head, lane];
            &&& in_shape(plan.split(), part)
            &&& index[2] == head * plan.dim + lane
            &&& row_major(plan.split(), part) == row_major(plan.merged(), index)
        }),
{
    let merged = plan.merged();
    assert(0 <= index[0] < merged[0] && 0 <= index[1] < merged[1] && 0 <= index[2] < merged[2]);
    let (x, d, h): (int, int, int) = (index[2], plan.dim as int, plan.heads as int);
    if d == 0 {
        assert(h * d == 0) by (nonlinear_arith)
            requires
                d == 0,
        ;
    }
    let (head, lane): (int, int) = (x / d, x % d);
    vstd::arithmetic::div_mod::lemma_fundamental_div_mod(x, d);
    assert(d * head == head * d) by (nonlinear_arith);
    assert(0 <= head < h) by (nonlinear_arith)
        requires
            x == d * head + lane,
            0 <= lane < d,
            0 <= x < h * d,
    ;
    let part = seq![index[0], index[1], head, lane];
    assert(in_shape(plan.split(), part));
    reveal_with_fuel(row_major, 5);
    let row = index[0] * plan.seq + index[1];
    assert(0 * plan.batch == 0);
    assert(plan.split().drop_last().drop_last() =~= plan.merged().drop_last());
    assert(part.drop_last().drop_last() =~= index.drop_last());
    let b = row_major(plan.merged().drop_last(), index.drop_last());
    assert(row_major(plan.split(), part) == (b * h + head) * d + lane);
    assert((b * h + head) * d + lane == b * (h * d) + (head * d + lane)) by (nonlinear_arith);
}

/// What the conditioning vector modulates in a block, in the order in which the
/// terms lie side by side.
#[derive(Clone, Copy, Debug, PartialEq, Eq, Structural)]
pub enum Modulation {
    AttentionShift,
    AttentionScale,
    AttentionGate,
    MlpShift,
    MlpScale,
    MlpGate,
}

impl Modulation {
    pub open spec fn place(self) -> nat {
        match self {
            Modulation::AttentionShift => 0,
            Modulation::AttentionScale => 1,
            Modulation::AttentionGate => 2,
            Modulation::MlpShift => 3,
            Modulation::MlpScale => 4,
            Modulation::MlpGate => 5,
        }
    }

    /// Where the term lies among the six, from its first place to past its last.
    pub fn range(self) -> (range: (usize, usize))
        ensures
            range.0 == self.place(),
            range.1 == self.place() + 1,
            range.1 <= 6,
    {
        match self {
            Modulation::AttentionShift => (0, 1),
            Modulation::AttentionScale => (1, 2),
            Modulation::AttentionGate => (2, 3),
            Modulation::MlpShift => (3, 4),
            Modulation::MlpScale => (4, 5),
            Modulation::MlpGate => (5, 6),
        }
    }
}

/// No two terms of the modulation share a place.
pub proof fn modulation_terms_lie_apart(a: Modulation, b: Modulation)
    ensures
        a.place() == b.place() ==> a == b,
        a.place() < 6,
{
}

/// Every block but the last has exactly as many rows as asked for, and the last no
/// more; where no width is asked for, or all rows fit in it, there is one block of
/// all rows.
pub proof fn blocks_are_full(seq: nat, block: nat, i: int)
    requires
        0 <= i < tiles(seq, block).len(),
    ensures
        block == 0 || seq <= block ==> tiles(seq, block) == seq![(0nat, seq)],
        0 < block < seq ==> {
            let all = tiles(seq, block);
            &&& all[i].0 == i * block
            &&& i + 1 < all.len() ==> all[i].1 == all[i].0 + block
            &&& i + 1 == all.len() ==> all[i].1 == seq && all[i].0 < seq <= all[i].0 + block
        },
{
    if 0 < block < seq {
        tile_bounds(seq, block, i);
        assert((i + 1) * block == i * block + block) by (nonlinear_arith);
    }
}

/// A row lies in exactly one block.
pub proof fn rows_lie_in_one_block(seq: nat, block: nat, row: nat, i: int, j: int)
    requires
        row < seq,
        0 <= i < tiles(seq, block).len(),
        0 <= j < tiles(seq, block).len(),
        tiles(seq, block)[i].0 <= row < tiles(seq, block)[i].1,
        tiles(seq, block)[j].0 <= row < tiles(seq, block)[j].1,
    ensures
        i == j,
        0 < block < seq ==> i * block <= row < (i + 1) * block,
{
    blocks_are_full(seq, block, i);
    blocks_are_full(seq, block, j);
    if 0 < block < seq {
        let (b, r): (int, int) = (block as int, row as int);
        assert((i + 1) * b == i * b + b && (j + 1) * b == j * b + b) by (nonlinear_arith);
        assert(i == j) by (nonlinear_arith)
            requires
                i * b <= r < i * b + b,
                j * b <= r < j * b + b,
                b > 0,
        ;
    }
}

/// A setting is taken at its word where it is the text of a positive number, white
/// space around it aside, and else is as if it were missing.
pub proof fn settings_are_taken_at_their_word(n: nat, before: Seq<char>, after: Seq<char>)
    requires
        blank(before) && blank(after),
    ensures
        0 < n <= usize::MAX ==> block_width(Some(before + decimal(n) + after)) == n,
        n == 0 || n > usize::MAX ==> block_width(Some(before + decimal(n) + after)) == 1024,
        block_width(None) == 1024,
        block_width(Some(before)) == 1024,
{
    numbers_are_read_from_their_text(n, 0, before, after);
    assert(zeros(0) + decimal(n) =~= decimal(n));
    let none = Seq::<char>::empty();
    trimming_takes_the_ends(before, none, none);
    assert(before + none + none =~= before);
    other_text_is_no_number(none, 0);
}

/// Every head has the same number of columns, which together are all of them.
pub proof fn heads_are_equally_wide(plan: HeadPlan, other: HeadPlan)
    requires
        plan.valid() && other.valid(),
        plan.width == other.width && plan.heads == other.heads,
    ensures
        plan.dim == other.dim,
        plan.heads * plan.dim == plan.width,
{
    let (h, a, b): (int, int, int) = (plan.heads as int, plan.dim as int, other.dim as int);
    assert(a == b) by (nonlinear_arith)
        requires
            h * a == h * b,
            h > 0,
    ;
}

/// Attention has its terms before the MLP, and each of the two has first a shift,
/// then a scale, then a gate.
pub proof fn modulation_terms_are_in_order()
    ensures
        Modulation::AttentionShift.place() == 0,
        Modulation::AttentionScale.place() == Modulation::AttentionShift.place() + 1,
        Modulation::AttentionGate.place() == Modulation::AttentionScale.place() + 1,
        Modulation::MlpShift.place() == Modulation::AttentionGate.place() + 1,
        Modulation::MlpScale.place() == Modulation::MlpShift.place() + 1,
        Modulation::MlpGate.place() == Modulation::MlpScale.place() + 1,
{
}

} // verus!
