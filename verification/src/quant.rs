//! Symmetric weight quantization: integer levels packed into a flat blob, with an
//! ordered index of what lies where.
//!
//! A value is its level times the scale of its tensor. Levels are packed at eight
//! bits, one to a byte, or at four, two to a byte. Entries of the index stand in
//! the order in which the tensors were visited and are consumed in that order, so
//! the name of an entry is a readable ordinal and nothing else.
use vstd::prelude::*;
use crate::archive::product;
use crate::text::{decimal, padded, push_decimal, push_padded};

verus! {

/// One quantized tensor. `offset` and `length` index the shared blob: its first
/// byte, and its number of values.
#[derive(Clone, Debug)]
pub struct QTensor {
    pub name: String,
    pub shape: Vec<usize>,
    /// binary32 pattern.
    pub scale: u32,
    pub offset: u64,
    pub length: u64,
    pub bits: u8,
}

/// A tensor in levels that are yet to be clamped and packed.
#[derive(Clone, Debug)]
pub struct LevelTensor {
    pub shape: Vec<usize>,
    /// binary32 pattern.
    pub scale: u32,
    pub levels: Vec<i32>,
}

impl LevelTensor {
    /// There is a level for every element of the shape.
    pub open spec fn shaped(self) -> bool {
        self.levels@.len() == product(self.shape@)
    }
}

/// The largest level at the given width.
pub open spec fn top(bits: u8) -> int {
    if bits == 8 {
        127
    } else {
        7
    }
}

/// The nearest level within range.
pub open spec fn clamped(level: int, bits: u8) -> int {
    if level < -top(bits) {
        -top(bits)
    } else if level > top(bits) {
        top(bits)
    } else {
        level
    }
}

/// The bytes that `count` levels take.
pub open spec fn packed_len(count: nat, bits: u8) -> nat {
    if bits == 8 {
        count
    } else {
        (count + 1) / 2
    }
}

/// The half byte of the level at `i`; past the end that of level zero.
pub open spec fn nibble(levels: Seq<i32>, i: int) -> int {
    if i < levels.len() {
        clamped(levels[i] as int, 4) + 8
    } else {
        8
    }
}

/// Levels packed: at eight bits the two's complement byte of each, at four bits
/// two to a byte, the earlier one low, each raised by eight.
pub open spec fn packed(levels: Seq<i32>, bits: u8) -> Seq<u8> {
    if bits == 8 {
        Seq::new(
            levels.len(),
            |i: int|
                {
                    let level = clamped(levels[i] as int, 8);
                    (if level < 0 {
                        level + 256
                    } else {
                        level
                    }) as u8
                },
        )
    } else {
        Seq::new(
            (levels.len() + 1) / 2,
            |i: int| (nibble(levels, 2 * i) + 16 * nibble(levels, 2 * i + 1)) as u8,
        )
    }
}

/// The level at `i` of a packed tensor.
pub open spec fn level_at(bytes: Seq<u8>, i: int, bits: u8) -> int {
    if bits == 8 {
        if bytes[i] >= 128 {
            bytes[i] - 256
        } else {
            bytes[i] as int
        }
    } else if i % 2 == 0 {
        bytes[i / 2] as int % 16 - 8
    } else {
        bytes[i / 2] as int / 16 - 8
    }
}

/// The levels of a packed tensor.
pub open spec fn unpacked(bytes: Seq<u8>, count: nat, bits: u8) -> Seq<int> {
    Seq::new(count, |i: int| level_at(bytes, i, bits))
}

/// Levels within range.
pub open spec fn clamped_all(levels: Seq<i32>, bits: u8) -> Seq<int> {
    Seq::new(
        levels.len(),
        |i: int|
            clamped(
                levels[i] as int,
                if bits == 8 {
                    8
                } else {
                    4
                },
            ),
    )
}

/// What was packed is unpacked again, out-of-range levels as the nearest level in
/// range.
pub proof fn unpacking_inverts_packing(levels: Seq<i32>, bits: u8)
    ensures
        packed(levels, bits).len() == packed_len(levels.len(), bits),
        unpacked(packed(levels, bits), levels.len(), bits) == clamped_all(levels, bits),
{
    let bytes = packed(levels, bits);
    assert forall|i: int| 0 <= i < levels.len() implies #[trigger] level_at(bytes, i, bits)
        == clamped_all(levels, bits)[i] by {
        if bits != 8 {
            let k = i / 2;
            let (low, high): (int, int) = (nibble(levels, 2 * k), nibble(levels, 2 * k + 1));
            assert(bytes[k] == low + 16 * high);
        }
    }
    assert(unpacked(bytes, levels.len(), bits) =~= clamped_all(levels, bits));
}

fn clamp(level: i32, top: i32) -> (nearest: i32)
    requires
        top == 7 || top == 127,
    ensures
        nearest == clamped(
            level as int,
            if top == 127 {
                8
            } else {
                4
            },
        ),
{
    if level < -top {
        -top
    } else if level > top {
        top
    } else {
        level
    }
}

/// Packs the levels of one tensor.
pub fn quantize_values(levels: &[i32], bits: u8) -> (bytes: Vec<u8>)
    ensures
        bytes@ == packed(levels@, bits),
{
    let mut bytes: Vec<u8> = Vec::new();
    let mut i: usize = 0;
    if bits == 8 {
        while i < levels.len()
            invariant
                bits == 8,
                i <= levels@.len(),
                bytes@ == packed(levels@, bits).take(i as int),
            decreases levels.len() - i,
        {
            let level: i32 = clamp(levels[i], 127);
            bytes.push(
                if level < 0 {
                    (level + 256) as u8
                } else {
                    level as u8
                },
            );
            i = i + 1;
            assert(bytes@ =~= packed(levels@, bits).take(i as int));
        }
    } else {
        while i < levels.len()
            invariant
                bits != 8,
                i <= levels@.len() || i == levels@.len() + 1,
                i % 2 == 0,
                bytes@ == packed(levels@, bits).take(i as int / 2),
            decreases levels.len() + 1 - i,
        {
            let low: i32 = clamp(levels[i], 7) + 8;
            let high: i32 = if levels.len() - i > 1 {
                clamp(levels[i + 1], 7) + 8
            } else {
                8
            };
            assert(low == nibble(levels@, i as int));
            assert(high == nibble(levels@, i + 1));
            bytes.push((low + 16 * high) as u8);
            assert(2 * (i as int / 2) == i);
            assert(bytes@ =~= packed(levels@, bits).take(i as int / 2 + 1));
            if levels.len() - i <= 2 {
                assert(bytes@ =~= packed(levels@, bits));
                return bytes;
            }
            i = i + 2;
        }
    }
    assert(bytes@ =~= packed(levels@, bits));
    bytes
}

impl QTensor {
    /// The entry's bytes lie within a blob of the given length.
    pub open spec fn within(self, blob: nat) -> bool {
        &&& self.offset <= usize::MAX
        &&& self.length <= usize::MAX
        &&& self.offset + packed_len(self.length as nat, self.bits) <= blob
    }

    /// The entry's bytes in a blob.
    pub open spec fn bytes_in(self, blob: Seq<u8>) -> Seq<u8> {
        blob.subrange(
            self.offset as int,
            self.offset + packed_len(self.length as nat, self.bits),
        )
    }
}

/// Unpacks the levels of one tensor from the blob.
pub fn dequantize_values(entry: &QTensor, blob: &[u8]) -> (levels: Vec<i8>)
    requires
        entry.within(blob@.len()),
    ensures
        levels@.len() == entry.length,
        forall|i: int|
            0 <= i < levels@.len() ==> #[trigger] levels@[i] == unpacked(
                entry.bytes_in(blob@),
                entry.length as nat,
                entry.bits,
            )[i],
{
    let total: usize = blob.len();
    let start: usize = entry.offset as usize;
    let count: usize = entry.length as usize;
    let ghost bytes = entry.bytes_in(blob@);
    let mut levels: Vec<i8> = Vec::new();
    let mut i: usize = 0;
    while i < count
        invariant
            i <= count,
            start == entry.offset,
            count == entry.length,
            entry.within(blob@.len()),
            total == blob@.len(),
            bytes == entry.bytes_in(blob@),
            levels@.len() == i,
            forall|k: int| 0 <= k < i ==> #[trigger] levels@[k] == level_at(bytes, k, entry.bits),
        decreases count - i,
    {
        let level: i16 = if entry.bits == 8 {
            let byte: u8 = blob[start + i];
            assert(byte == bytes[i as int]);
            if byte >= 128 {
                byte as i16 - 256
            } else {
                byte as i16
            }
        } else {
            let byte: u8 = blob[start + i / 2];
            assert(byte == bytes[i as int / 2]);
            let half: u8 = if i % 2 == 0 {
                byte % 16
            } else {
                byte / 16
            };
            half as i16 - 8
        };
        assert(level == level_at(bytes, i as int, entry.bits));
        levels.push(level as i8);
        i = i + 1;
    }
    levels
}

/// The packed tensors, one after the other.
pub open spec fn blob_of(tensors: Seq<LevelTensor>, bits: u8) -> Seq<u8>
    decreases tensors.len(),
{
    if tensors.len() == 0 {
        Seq::empty()
    } else {
        blob_of(tensors.drop_last(), bits) + packed(tensors.last().levels@, bits)
    }
}

/// `entry` describes the `i`-th tensor: it begins where the earlier ones end.
pub open spec fn describes(entry: QTensor, tensors: Seq<LevelTensor>, i: int, bits: u8) -> bool {
    &&& entry.name@ == "p"@ + padded(i as nat, 4)
    &&& entry.shape@ == tensors[i].shape@
    &&& entry.scale == tensors[i].scale
    &&& entry.offset == blob_of(tensors.take(i), bits).len()
    &&& entry.length == tensors[i].levels@.len()
    &&& entry.bits == bits
}

/// `index` describes every tensor, in order.
pub open spec fn indexes(index: Seq<QTensor>, tensors: Seq<LevelTensor>, bits: u8) -> bool {
    &&& index.len() == tensors.len()
    &&& forall|i: int|
        0 <= i < index.len() ==> describes(#[trigger] index[i], tensors, i, bits)
}

/// Packs the tensors of a model into a blob and the index that finds them again.
pub fn quantize_module(tensors: &Vec<LevelTensor>, bits: u8) -> (bundle: (Vec<u8>, Vec<QTensor>))
    ensures
        bundle.0@ == blob_of(tensors@, bits),
        indexes(bundle.1@, tensors@, bits),
{
    let mut blob: Vec<u8> = Vec::new();
    let mut index: Vec<QTensor> = Vec::new();
    let mut i: usize = 0;
    assert(tensors@.take(0) =~= Seq::<LevelTensor>::empty());
    while i < tensors.len()
        invariant
            i <= tensors@.len(),
            blob@ == blob_of(tensors@.take(i as int), bits),
            index@.len() == i,
            forall|k: int| 0 <= k < i ==> describes(#[trigger] index@[k], tensors@, k, bits),
        decreases tensors.len() - i,
    {
        let tensor: &LevelTensor = &tensors[i];
        let mut bytes: Vec<u8> = quantize_values(tensor.levels.as_slice(), bits);
        let mut name: String = "p".to_owned();
        push_padded(&mut name, i as u64, 4);
        let shape: Vec<usize> = tensor.shape.clone();
        assert(shape@ =~= tensor.shape@);
        index.push(
            QTensor {
                name,
                shape,
                scale: tensor.scale,
                offset: blob.len() as u64,
                length: tensor.levels.len() as u64,
                bits,
            },
        );
        blob.append(&mut bytes);
        assert(tensors@.take(i + 1).drop_last() =~= tensors@.take(i as int));
        i = i + 1;
    }
    assert(tensors@.take(i as int) =~= tensors@);
    (blob, index)
}

proof fn blob_begins_with(tensors: Seq<LevelTensor>, upto: int, bits: u8)
    requires
        0 <= upto <= tensors.len(),
    ensures
        blob_of(tensors.take(upto), bits).len() <= blob_of(tensors, bits).len(),
        blob_of(tensors, bits).take(blob_of(tensors.take(upto), bits).len() as int) == blob_of(
            tensors.take(upto),
            bits,
        ),
    decreases tensors.len() - upto,
{
    let part = blob_of(tensors.take(upto), bits);
    let whole = blob_of(tensors, bits);
    if upto < tensors.len() {
        blob_begins_with(tensors, upto + 1, bits);
        let longer = blob_of(tensors.take(upto + 1), bits);
        assert(tensors.take(upto + 1).drop_last() =~= tensors.take(upto));
        assert(longer.take(part.len() as int) =~= part);
        assert(whole.take(part.len() as int) =~= whole.take(longer.len() as int).take(
            part.len() as int,
        ));
    } else {
        assert(tensors.take(upto) =~= tensors);
        assert(whole.take(part.len() as int) =~= part);
    }
}

/// A bundle gives every tensor back: the bytes that an entry of the index points
/// at lie in the blob, and unpack to the levels that the tensor had.
pub proof fn bundles_reconstruct_every_tensor(
    tensors: Seq<LevelTensor>,
    bits: u8,
    index: Seq<QTensor>,
    i: int,
)
    requires
        indexes(index, tensors, bits),
        blob_of(tensors, bits).len() <= usize::MAX,
        0 <= i < tensors.len(),
        tensors[i].levels@.len() <= usize::MAX,
    ensures
        index[i].within(blob_of(tensors, bits).len()),
        unpacked(index[i].bytes_in(blob_of(tensors, bits)), index[i].length as nat, bits)
            == clamped_all(tensors[i].levels@, bits),
{
    assert(describes(index[i], tensors, i, bits));
    let blob = blob_of(tensors, bits);
    let levels = tensors[i].levels@;
    let before = blob_of(tensors.take(i), bits);
    let with = blob_of(tensors.take(i + 1), bits);
    blob_begins_with(tensors, i + 1, bits);
    assert(tensors.take(i + 1).drop_last() =~= tensors.take(i));
    assert(with == before + packed(levels, bits));
    unpacking_inverts_packing(levels, bits);
    assert(index[i].bytes_in(blob) =~= with.subrange(before.len() as int, with.len() as int)) by {
        assert(blob.take(with.len() as int) == with);
        assert forall|k: int| before.len() <= k < with.len() implies blob[k] == with[k] by {
            assert(blob.take(with.len() as int)[k] == blob[k]);
        }
    }
    assert(with.subrange(before.len() as int, with.len() as int) =~= packed(levels, bits));
}

/// Entries of a bundle lie one after the other, without a gap.
pub proof fn entries_are_contiguous(
    tensors: Seq<LevelTensor>,
    bits: u8,
    index: Seq<QTensor>,
    i: int,
)
    requires
        indexes(index, tensors, bits),
        0 <= i < tensors.len(),
    ensures
        index[0].offset == 0,
        ({
            let end = index[i].offset + packed_len(index[i].length as nat, bits);
            if i + 1 < tensors.len() {
                end == index[i + 1].offset
            } else {
                end == blob_of(tensors, bits).len()
            }
        }),
{
    assert(describes(index[0], tensors, 0, bits));
    assert(describes(index[i], tensors, i, bits));
    assert(tensors.take(0) =~= Seq::<LevelTensor>::empty());
    assert(tensors.take(i + 1).drop_last() =~= tensors.take(i));
    unpacking_inverts_packing(tensors[i].levels@, bits);
    if i + 1 < tensors.len() {
        assert(describes(index[i + 1], tensors, i + 1, bits));
    } else {
        assert(tensors.take(i + 1) =~= tensors);
    }
}

/// An entry that describes a tensor with a level for every element counts as many
/// values as its own shape has elements.
pub proof fn entries_count_their_shapes(
    tensors: Seq<LevelTensor>,
    bits: u8,
    index: Seq<QTensor>,
    i: int,
)
    requires
        indexes(index, tensors, bits),
        0 <= i < tensors.len(),
        tensors[i].shaped(),
    ensures
        index[i].length == product(index[i].shape@),
{
    assert(describes(index[i], tensors, i, bits));
}

/// Values in all tensors together.
pub open spec fn values_in(tensors: Seq<LevelTensor>) -> nat
    decreases tensors.len(),
{
    if tensors.len() == 0 {
        0
    } else {
        values_in(tensors.drop_last()) + tensors.last().levels@.len()
    }
}

/// Eight-bit packing takes one byte for each value, and four-bit packing half of
/// that, up to half a byte for each tensor.
pub proof fn four_bits_take_half(tensors: Seq<LevelTensor>)
    ensures
        blob_of(tensors, 8).len() == values_in(tensors),
        blob_of(tensors, 8).len() <= 2 * blob_of(tensors, 4).len(),
        2 * blob_of(tensors, 4).len() <= blob_of(tensors, 8).len() + tensors.len(),
    decreases tensors.len(),
{
    if tensors.len() > 0 {
        four_bits_take_half(tensors.drop_last());
        unpacking_inverts_packing(tensors.last().levels@, 8);
        unpacking_inverts_packing(tensors.last().levels@, 4);
    }
}

/// A parameter of a model: its shape, and whatever stands for its weights.
#[derive(Clone, Debug)]
pub struct Parameter<W> {
    pub shape: Vec<usize>,
    pub weights: W,
}

/// What a bundle puts into a parameter: every value is its level times the scale.
#[derive(Clone, Debug)]
pub struct Restored {
    pub shape: Vec<usize>,
    /// binary32 pattern.
    pub scale: u32,
    pub levels: Vec<i8>,
}

/// The shape, the scale and the levels of a restored parameter.
pub type RestoredValue = (Seq<usize>, u32, Seq<int>);

impl Restored {
    pub open spec fn value(self) -> RestoredValue {
        (self.shape@, self.scale, self.levels@.map_values(|level: i8| level as int))
    }
}

/// The index has an entry for every parameter, of as many values as the parameter
/// has, whose bytes lie within a blob of the given length.
pub open spec fn loadable<W>(model: Seq<Parameter<W>>, index: Seq<QTensor>, blob: nat) -> bool {
    &&& model.len() <= index.len()
    &&& forall|i: int|
        0 <= i < model.len() ==> {
            &&& (#[trigger] index[i]).within(blob)
            &&& index[i].length == product(model[i].shape@)
        }
}

/// The parameters of a model after a bundle was loaded onto it.
pub open spec fn loaded<W>(
    model: Seq<Parameter<W>>,
    index: Seq<QTensor>,
    blob: Seq<u8>,
) -> Seq<RestoredValue> {
    Seq::new(
        model.len(),
        |i: int|
            (
                model[i].shape@,
                index[i].scale,
                unpacked(index[i].bytes_in(blob), index[i].length as nat, index[i].bits),
            ),
    )
}

/// The elements of the first axes of a shape without an empty axis are no more than
/// those of all of them.
pub proof fn product_grows(shape: Seq<usize>, n: int)
    requires
        0 <= n <= shape.len(),
        forall|k: int| 0 <= k < shape.len() ==> #[trigger] shape[k] > 0,
    ensures
        0 < product(shape.take(n)) <= product(shape),
    decreases shape.len() - n, n,
{
    if n < shape.len() {
        product_grows(shape, n + 1);
        assert(shape.take(n + 1).drop_last() =~= shape.take(n));
        let (a, b): (int, int) = (product(shape.take(n)) as int, shape[n] as int);
        assert(product(shape.take(n + 1)) == a * b);
        assert(0 < a <= a * b) by (nonlinear_arith)
            requires
                0 < a * b,
                0 <= a,
                0 < b,
        ;
    } else {
        assert(shape.take(n) =~= shape);
        all_axes_make_a_product(shape);
    }
}

proof fn all_axes_make_a_product(shape: Seq<usize>)
    requires
        forall|k: int| 0 <= k < shape.len() ==> #[trigger] shape[k] > 0,
    ensures
        product(shape) > 0,
    decreases shape.len(),
{
    if shape.len() > 0 {
        assert forall|k: int| 0 <= k < shape.drop_last().len() implies #[trigger] shape.drop_last()[k]
            > 0 by {
            assert(shape[k] > 0);
        }
        all_axes_make_a_product(shape.drop_last());
        let (a, b): (int, int) = (product(shape.drop_last()) as int, shape.last() as int);
        assert(shape[shape.len() - 1] > 0);
        assert(a * b > 0) by (nonlinear_arith)
            requires
                a > 0,
                b > 0,
        ;
    }
}

proof fn an_empty_axis_empties_the_product(shape: Seq<usize>, k: int)
    requires
        0 <= k < shape.len(),
        shape[k] == 0,
    ensures
        product(shape) == 0,
    decreases shape.len(),
{
    if k == shape.len() - 1 {
        assert(product(shape.drop_last()) * 0 == 0);
    } else {
        an_empty_axis_empties_the_product(shape.drop_last(), k);
        assert(0 * shape.last() as nat == 0);
    }
}

/// Whether a tensor of the given shape has `count` values.
fn has_values(shape: &[usize], count: u64) -> (yes: bool)
    ensures
        yes == (product(shape@) == count),
{
    let mut i: usize = 0;
    while i < shape.len()
        invariant
            i <= shape@.len(),
            forall|k: int| 0 <= k < i ==> #[trigger] shape@[k] > 0,
        decreases shape.len() - i,
    {
        if shape[i] == 0 {
            proof {
                an_empty_axis_empties_the_product(shape@, i as int);
            }
            return count == 0;
        }
        i = i + 1;
    }
    let mut values: u64 = 1;
    let mut n: usize = 0;
    assert(shape@.take(0) =~= Seq::<usize>::empty());
    while n < shape.len()
        invariant
            n <= shape@.len(),
            forall|k: int| 0 <= k < shape@.len() ==> #[trigger] shape@[k] > 0,
            values == product(shape@.take(n as int)),
        decreases shape.len() - n,
    {
        proof {
            product_grows(shape@, n + 1);
            assert(shape@.take(n + 1).drop_last() =~= shape@.take(n as int));
        }
        values =
        match values.checked_mul(shape[n] as u64) {
            Some(more) => more,
            None => {
                return false;
            },
        };
        n = n + 1;
    }
    assert(shape@.take(n as int) =~= shape@);
    values == count
}

/// Whether a bundle can be loaded onto a model.
pub fn is_loadable<W>(
    model: &Vec<Parameter<W>>,
    index: &Vec<QTensor>,
    blob: &Vec<u8>,
) -> (yes: bool)
    ensures
        yes == loadable(model@, index@, blob@.len()),
{
    if model.len() > index.len() {
        return false;
    }
    let total: usize = blob.len();
    let mut i: usize = 0;
    while i < model.len()
        invariant
            i <= model@.len() <= index@.len(),
            total == blob@.len(),
            forall|k: int|
                0 <= k < i ==> (#[trigger] index@[k]).within(blob@.len()) && index@[k].length
                    == product(model@[k].shape@),
        decreases model.len() - i,
    {
        let entry: &QTensor = &index[i];
        let bytes: u64 = if entry.bits == 8 {
            entry.length
        } else {
            entry.length / 2 + entry.length % 2
        };
        assert(bytes == packed_len(entry.length as nat, entry.bits));
        if entry.offset > total as u64 || entry.length > usize::MAX as u64 || bytes > total as u64
            - entry.offset {
            assert(!index@[i as int].within(blob@.len()));
            return false;
        }
        if !has_values(model[i].shape.as_slice(), entry.length) {
            assert(index@[i as int].length != product(model@[i as int].shape@));
            return false;
        }
        i = i + 1;
    }
    true
}

/// Loads a bundle onto a model, whose parameters take the entries of the index in
/// order.
pub fn dequantize_module<W>(
    model: &Vec<Parameter<W>>,
    index: &Vec<QTensor>,
    blob: &Vec<u8>,
) -> (restored: Vec<Restored>)
    requires
        loadable(model@, index@, blob@.len()),
    ensures
        restored@.len() == model@.len(),
        forall|i: int|
            0 <= i < restored@.len() ==> (#[trigger] restored@[i]).value() == loaded(
                model@,
                index@,
                blob@,
            )[i],
{
    let mut restored: Vec<Restored> = Vec::new();
    let ghost wanted = loaded(model@, index@, blob@);
    let mut i: usize = 0;
    while i < model.len()
        invariant
            i <= model@.len(),
            loadable(model@, index@, blob@.len()),
            wanted == loaded(model@, index@, blob@),
            restored@.len() == i,
            forall|k: int| 0 <= k < i ==> (#[trigger] restored@[k]).value() == wanted[k],
        decreases model.len() - i,
    {
        let entry: &QTensor = &index[i];
        assert(index@[i as int].within(blob@.len()));
        let levels: Vec<i8> = dequantize_values(entry, blob.as_slice());
        let shape: Vec<usize> = model[i].shape.clone();
        assert(shape@ =~= model@[i as int].shape@);
        assert(levels@.map_values(|level: i8| level as int) =~= wanted[i as int].2);
        restored.push(Restored { shape, scale: entry.scale, levels });
        i = i + 1;
    }
    restored
}

/// What a bundle makes of a model depends on the shapes of its parameters and on
/// where the entries point: the weights that the model came with, and the names of
/// the entries, leave no trace.
pub proof fn weights_and_names_leave_no_trace<V, W>(
    one: Seq<Parameter<V>>,
    other: Seq<Parameter<W>>,
    index: Seq<QTensor>,
    renamed: Seq<QTensor>,
    blob: Seq<u8>,
)
    requires
        one.len() == other.len(),
        forall|i: int| 0 <= i < one.len() ==> (#[trigger] one[i]).shape@ == other[i].shape@,
        index.len() == renamed.len(),
        forall|i: int|
            0 <= i < index.len() ==> (#[trigger] renamed[i]) == (QTensor {
                name: renamed[i].name,
                ..index[i]
            }),
    ensures
        loadable(one, index, blob.len()) <==> loadable(other, renamed, blob.len()),
        loadable(one, index, blob.len()) ==> loaded(one, index, blob) == loaded(
            other,
            renamed,
            blob,
        ),
{
    assert forall|i: int| 0 <= i < index.len() implies (#[trigger] index[i]).within(blob.len())
        == renamed[i].within(blob.len()) by {}
    if loadable(one, index, blob.len()) {
        assert forall|i: int| 0 <= i < other.len() implies (#[trigger] renamed[i]).within(
            blob.len(),
        ) && renamed[i].length == product(other[i].shape@) by {
            assert(index[i].within(blob.len()));
            assert(one[i].shape@ == other[i].shape@);
        }
        assert forall|i: int| 0 <= i < one.len() implies loaded(one, index, blob)[i] == loaded(
            other,
            renamed,
            blob,
        )[i] by {
            assert(renamed[i].length == index[i].length);
            assert(one[i].shape@ == other[i].shape@);
        }
        assert(loaded(one, index, blob) =~= loaded(other, renamed, blob));
    }
    if loadable(other, renamed, blob.len()) {
        assert forall|i: int| 0 <= i < one.len() implies (#[trigger] index[i]).within(blob.len())
            && index[i].length == product(one[i].shape@) by {
            assert(renamed[i].within(blob.len()));
            assert(one[i].shape@ == other[i].shape@);
        }
    }
}

/// A bundle, loaded onto any model of the same shapes, gives every parameter the
/// scale and the clamped levels of the tensor that was packed.
pub proof fn bundles_restore_the_model<W>(
    tensors: Seq<LevelTensor>,
    bits: u8,
    index: Seq<QTensor>,
    model: Seq<Parameter<W>>,
)
    requires
        indexes(index, tensors, bits),
        blob_of(tensors, bits).len() <= usize::MAX,
        forall|i: int|
            0 <= i < tensors.len() ==> (#[trigger] tensors[i]).shaped() && tensors[i].levels@.len()
                <= usize::MAX,
        model.len() == tensors.len(),
        forall|i: int| 0 <= i < model.len() ==> (#[trigger] model[i]).shape@ == tensors[i].shape@,
    ensures
        loadable(model, index, blob_of(tensors, bits).len()),
        loaded(model, index, blob_of(tensors, bits)) == Seq::new(
            tensors.len(),
            |i: int|
                (tensors[i].shape@, tensors[i].scale, clamped_all(tensors[i].levels@, bits)),
        ),
{
    let blob = blob_of(tensors, bits);
    assert forall|i: int| 0 <= i < model.len() implies {
        &&& (#[trigger] index[i]).within(blob.len())
        &&& index[i].length == product(model[i].shape@)
        &&& loaded(model, index, blob)[i] == (
            tensors[i].shape@,
            tensors[i].scale,
            clamped_all(tensors[i].levels@, bits),
        )
    } by {
        assert(tensors[i].shaped() && tensors[i].levels@.len() <= usize::MAX);
        assert(model[i].shape@ == tensors[i].shape@);
        bundles_reconstruct_every_tensor(tensors, bits, index, i);
        assert(describes(index[i], tensors, i, bits));
    }
    assert(loaded(model, index, blob) =~= Seq::new(
        tensors.len(),
        |i: int| (tensors[i].shape@, tensors[i].scale, clamped_all(tensors[i].levels@, bits)),
    )) by {
        assert forall|i: int| 0 <= i < tensors.len() implies loaded(model, index, blob)[i] == (
            tensors[i].shape@,
            tensors[i].scale,
            clamped_all(tensors[i].levels@, bits),
        ) by {
            assert(index[i].within(blob.len()));
        }
    }
}

/// The bit widths that a bundle can have.
pub fn check_bits(bits: u8) -> (accepted: bool)
    ensures
        accepted == (bits == 4 || bits == 8),
{
    bits == 4 || bits == 8
}

/// The message for another bit width.
pub fn bits_message() -> (text: String)
    ensures
        text@ == "bits must be 4 or 8"@,
{
    "bits must be 4 or 8".to_owned()
}

/// The file that the blob of a bundle is written to.
pub fn blob_file(bits: u8) -> (name: String)
    ensures
        name@ == "weights.q"@ + decimal(bits as nat),
{
    let mut name: String = "weights.q".to_owned();
    push_decimal(&mut name, bits as u64);
    name
}

/// A level is clamped to the nearest one in range: from -127 to 127 at eight bits,
/// from -7 to 7 at four. A level in range stays as it is.
pub proof fn levels_are_clamped_to_the_nearest(level: int, other: int, bits: u8)
    requires
        bits == 4 || bits == 8,
    ensures
        ({
            let limit: int = if bits == 8 {
                127
            } else {
                7
            };
            let near = clamped(level, bits);
            &&& -limit <= near <= limit
            &&& -limit <= level <= limit ==> near == level
            &&& -limit <= other <= limit ==> {
                &&& level <= near ==> other >= level ==> near <= other
                &&& near <= level ==> other <= level ==> other <= near
                &&& level < near ==> other >= near
                &&& near < level ==> other <= near
            }
        }),
{
}

/// At eight bits a tensor is packed into one byte for every level, in order: the
/// low eight bits of the level as a two's complement number.
pub proof fn eight_bits_are_one_byte_each(levels: Seq<i32>, i: int)
    requires
        0 <= i < levels.len(),
    ensures
        packed(levels, 8).len() == levels.len(),
        (packed(levels, 8)[i] - clamped(levels[i] as int, 8)) % 256 == 0,
{
    let (byte, level) = (packed(levels, 8)[i] as int, clamped(levels[i] as int, 8));
    assert(byte == level || byte == level + 256);
}

/// At four bits a tensor is packed into one byte for every two levels, in order:
/// the earlier level in the lower half, each raised by eight. Where there is no
/// second level, the upper half stands for zero.
pub proof fn four_bits_are_half_a_byte_each(levels: Seq<i32>, k: int)
    requires
        0 <= k,
        2 * k < levels.len(),
    ensures
        2 * packed(levels, 4).len() == levels.len() || 2 * packed(levels, 4).len() == levels.len()
            + 1,
        packed(levels, 4)[k] % 16 == clamped(levels[2 * k] as int, 4) + 8,
        packed(levels, 4)[k] / 16 == (if 2 * k + 1 < levels.len() {
            clamped(levels[2 * k + 1] as int, 4) + 8
        } else {
            8
        }),
{
    let (low, high) = (nibble(levels, 2 * k), nibble(levels, 2 * k + 1));
    assert(k < (levels.len() + 1) / 2);
    assert(packed(levels, 4)[k] == low + 16 * high);
}

/// Levels are unpacked from the bytes alone: at eight bits every byte is a two's
/// complement number, at four bits every byte is two levels raised by eight, the
/// lower half first.
pub proof fn bytes_are_unpacked_in_order(bytes: Seq<u8>, count: nat, bits: u8, i: int)
    requires
        0 <= i < count,
        packed_len(count, bits) <= bytes.len(),
    ensures
        unpacked(bytes, count, bits).len() == count,
        bits == 8 ==> {
            let level = unpacked(bytes, count, bits)[i];
            &&& -128 <= level <= 127
            &&& (level - bytes[i]) % 256 == 0
        },
        bits != 8 ==> {
            let level = unpacked(bytes, count, bits)[i];
            &&& -8 <= level <= 7
            &&& i % 2 == 0 ==> (level + 8 - bytes[i / 2]) % 16 == 0
            &&& i % 2 == 1 ==> 16 * (level + 8) <= bytes[i / 2] < 16 * (level + 8) + 16
        },
        bits == 8 ==> packed_len(count, bits) == count,
        bits != 8 ==> count <= 2 * packed_len(count, bits) <= count + 1,
{
    let level = unpacked(bytes, count, bits)[i];
    if bits == 8 {
        assert(level == bytes[i] || level == bytes[i] - 256);
    } else {
        let byte = bytes[i / 2] as int;
        vstd::arithmetic::div_mod::lemma_fundamental_div_mod(byte, 16);
    }
}

/// The blob of tensors is the packed bytes of each, one after the other: that of
/// two lists is that of the first, then that of the second.
pub proof fn blobs_follow_one_another(
    first: Seq<LevelTensor>,
    second: Seq<LevelTensor>,
    one: LevelTensor,
    bits: u8,
)
    ensures
        blob_of(seq![one], bits) == packed(one.levels@, bits),
        blob_of(first + second, bits) == blob_of(first, bits) + blob_of(second, bits),
    decreases second.len(),
{
    let none = Seq::<LevelTensor>::empty();
    assert(seq![one].drop_last() =~= none);
    assert(blob_of(none, bits) =~= Seq::<u8>::empty());
    assert(blob_of(seq![one], bits) =~= packed(one.levels@, bits));
    if second.len() == 0 {
        assert(first + second =~= first);
        assert(blob_of(first, bits) + blob_of(second, bits) =~= blob_of(first, bits));
    } else {
        blobs_follow_one_another(first, second.drop_last(), one, bits);
        assert((first + second).drop_last() =~= first + second.drop_last());
        assert(blob_of(first + second, bits) =~= blob_of(first, bits) + blob_of(second, bits));
    }
}

/// An entry points at its own bytes: as many as its values take, from its offset
/// on, all of them in the blob.
pub proof fn entries_point_at_their_bytes(entry: QTensor, blob: Seq<u8>, k: int)
    requires
        entry.within(blob.len()),
        0 <= k < packed_len(entry.length as nat, entry.bits),
    ensures
        entry.offset + k < blob.len(),
        entry.bytes_in(blob).len() == packed_len(entry.length as nat, entry.bits),
        entry.bytes_in(blob)[k] == blob[entry.offset + k],
        entry.bits == 8 ==> packed_len(entry.length as nat, entry.bits) == entry.length,
        entry.bits != 8 ==> entry.length <= 2 * packed_len(entry.length as nat, entry.bits)
            <= entry.length + 1,
{
}

/// An index keeps the shape, the scale, the number of values and the width of every
/// tensor, in order, and names them by their number.
pub proof fn indexes_keep_the_tensors(
    tensors: Seq<LevelTensor>,
    bits: u8,
    index: Seq<QTensor>,
    i: int,
)
    requires
        indexes(index, tensors, bits),
        0 <= i < tensors.len(),
    ensures
        index.len() == tensors.len(),
        index[i].shape@ == tensors[i].shape@,
        index[i].scale == tensors[i].scale,
        index[i].length == tensors[i].levels@.len(),
        index[i].bits == bits,
        index[i].name@ == "p"@ + padded(i as nat, 4),
{
    assert(describes(index[i], tensors, i, bits));
}

/// A model onto which a bundle was loaded has its own shapes, and the scales and
/// the levels of the bundle, parameter by parameter in the order of the index.
pub proof fn loaded_models_hold_the_bundle<W>(
    model: Seq<Parameter<W>>,
    index: Seq<QTensor>,
    blob: Seq<u8>,
    i: int,
    k: int,
)
    requires
        loadable(model, index, blob.len()),
        0 <= i < model.len(),
        0 <= k < index[i].length,
    ensures
        loaded(model, index, blob).len() == model.len(),
        ({
            let (shape, scale, levels) = loaded(model, index, blob)[i];
            let entry = index[i];
            &&& shape == model[i].shape@
            &&& scale == entry.scale
            &&& levels.len() == product(shape)
            &&& entry.bits == 8 ==> -128 <= levels[k] <= 127 && (levels[k] - blob[entry.offset + k])
                % 256 == 0
            &&& entry.bits != 8 && k % 2 == 0 ==> levels[k] + 8 == blob[entry.offset + k / 2] % 16
            &&& entry.bits != 8 && k % 2 == 1 ==> levels[k] + 8 == blob[entry.offset + k / 2] / 16
        }),
{
    let entry = index[i];
    assert(entry.within(blob.len()) && entry.length == product(model[i].shape@));
    let bytes = entry.bytes_in(blob);
    bytes_are_unpacked_in_order(bytes, entry.length as nat, entry.bits, k);
    if entry.bits == 8 {
        entries_point_at_their_bytes(entry, blob, k);
    } else {
        entries_point_at_their_bytes(entry, blob, k / 2);
    }
}

/// An entry lies in a blob exactly where its last byte does: of values of a byte
/// each, or of two values to a byte.
pub proof fn entries_lie_in_the_blob(entry: QTensor, blob: nat)
    requires
        blob <= usize::MAX,
        entry.length <= usize::MAX,
    ensures
        entry.bits == 8 ==> (entry.within(blob) <==> entry.offset + entry.length <= blob),
        entry.bits != 8 ==> (entry.within(blob) <==> 2 * entry.offset + entry.length <= 2 * blob),
{
}

/// A bundle can be loaded whatever else its index and its blob hold: entries that no
/// parameter takes, and bytes that no entry points at, do not matter.
pub proof fn surplus_does_not_matter<W>(
    model: Seq<Parameter<W>>,
    index: Seq<QTensor>,
    more: Seq<QTensor>,
    blob: Seq<u8>,
    rest: Seq<u8>,
)
    requires
        loadable(model, index, blob.len()),
    ensures
        loadable(model, index + more, (blob + rest).len()),
        loaded(model, index + more, blob + rest) == loaded(model, index, blob),
{
    assert forall|i: int| 0 <= i < model.len() implies {
        &&& (#[trigger] (index + more)[i]).within((blob + rest).len())
        &&& (index + more)[i].length == product(model[i].shape@)
    } by {
        assert((index + more)[i] == index[i]);
    }
    assert forall|i: int| 0 <= i < model.len() implies #[trigger] loaded(
        model,
        index + more,
        blob + rest,
    )[i] == loaded(model, index, blob)[i] by {
        assert(index[i].within(blob.len()));
        assert((index + more)[i] == index[i]);
        assert(index[i].bytes_in(blob + rest) =~= index[i].bytes_in(blob));
    }
    assert(loaded(model, index + more, blob + rest) =~= loaded(model, index, blob));
}

/// The bundle that a model was packed into can be loaded onto exactly the models
/// whose parameters have as many values each.
pub proof fn bundles_fit_their_models<W>(
    tensors: Seq<LevelTensor>,
    bits: u8,
    index: Seq<QTensor>,
    model: Seq<Parameter<W>>,
)
    requires
        indexes(index, tensors, bits),
        blob_of(tensors, bits).len() <= usize::MAX,
        forall|i: int|
            0 <= i < tensors.len() ==> (#[trigger] tensors[i]).levels@.len() <= usize::MAX,
    ensures
        loadable(model, index, blob_of(tensors, bits).len()) <==> model.len() <= tensors.len() && (
        forall|i: int|
            0 <= i < model.len() ==> product((#[trigger] model[i]).shape@)
                == tensors[i].levels@.len()),
{
    let blob = blob_of(tensors, bits);
    assert forall|i: int| 0 <= i < tensors.len() implies (#[trigger] index[i]).within(blob.len())
        && index[i].length == tensors[i].levels@.len() by {
        assert(tensors[i].levels@.len() <= usize::MAX);
        bundles_reconstruct_every_tensor(tensors, bits, index, i);
        assert(describes(index[i], tensors, i, bits));
    }
    if loadable(model, index, blob.len()) {
        assert forall|i: int| 0 <= i < model.len() implies product((#[trigger] model[i]).shape@)
            == tensors[i].levels@.len() by {
            assert(index[i].within(blob.len()));
        }
    }
    if model.len() <= tensors.len() && (forall|i: int|
        0 <= i < model.len() ==> product((#[trigger] model[i]).shape@) == tensors[i].levels@.len()) {
        assert forall|i: int| 0 <= i < model.len() implies {
            &&& (#[trigger] index[i]).within(blob.len())
            &&& index[i].length == product(model[i].shape@)
        } by {
            assert(product(model[i].shape@) == tensors[i].levels@.len());
        }
    }
}

} // verus!
