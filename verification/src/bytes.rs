//! Little-endian integers in byte sequences.
use vstd::prelude::*;

verus! {

/// The number that `bytes` stand for, the least significant byte first.
pub open spec fn little_endian(bytes: Seq<u8>) -> nat
    decreases bytes.len(),
{
    if bytes.len() == 0 {
        0
    } else {
        bytes[0] as nat + 256 * little_endian(bytes.skip(1))
    }
}

/// The `width` low bytes of `n`, the least significant first.
pub open spec fn le_bytes(n: nat, width: nat) -> Seq<u8>
    decreases width,
{
    if width == 0 {
        Seq::empty()
    } else {
        seq![(n % 256) as u8] + le_bytes(n / 256, (width - 1) as nat)
    }
}

/// How many numbers fit in `width` bytes.
pub open spec fn range(width: nat) -> nat
    decreases width,
{
    if width == 0 {
        1
    } else {
        256 * range((width - 1) as nat)
    }
}

/// More bytes hold more numbers.
pub proof fn range_grows(a: nat, b: nat)
    requires
        a <= b,
    ensures
        1 <= range(a) <= range(b),
    decreases b,
{
    if a < b {
        range_grows(a, (b - 1) as nat);
    } else if a > 0 {
        range_grows((a - 1) as nat, (b - 1) as nat);
    }
}

/// The numbers of the widths in use.
pub proof fn ranges()
    ensures
        range(1) == 0x100,
        range(2) == 0x1_0000,
        range(4) == 0x1_0000_0000,
        range(8) == 0x1_0000_0000_0000_0000,
{
    reveal_with_fuel(range, 9);
}

/// A number that fits in `width` bytes is read back from them.
pub proof fn le_bytes_read_back(n: nat, width: nat)
    requires
        n < range(width),
    ensures
        le_bytes(n, width).len() == width,
        little_endian(le_bytes(n, width)) == n,
    decreases width,
{
    if width > 0 {
        le_bytes_read_back(n / 256, (width - 1) as nat);
        assert(le_bytes(n, width).skip(1) =~= le_bytes(n / 256, (width - 1) as nat));
    }
}

/// Bytes are written again as they were read.
pub proof fn little_endian_writes_back(bytes: Seq<u8>)
    ensures
        le_bytes(little_endian(bytes), bytes.len()) == bytes,
    decreases bytes.len(),
{
    if bytes.len() > 0 {
        little_endian_writes_back(bytes.skip(1));
        let n = little_endian(bytes);
        assert(n % 256 == bytes[0] as nat);
        assert(n / 256 == little_endian(bytes.skip(1)));
        assert(le_bytes(n, bytes.len()) =~= bytes);
    } else {
        assert(le_bytes(little_endian(bytes), 0) =~= bytes);
    }
}

/// The number in the `width` bytes of `bytes` from `at` on.
pub fn read_le(bytes: &[u8], at: usize, width: usize) -> (value: u64)
    requires
        width <= 8,
        at + width <= bytes@.len(),
    ensures
        value == little_endian(bytes@.subrange(at as int, at + width)),
        value < range(width as nat),
{
    let total: usize = bytes.len();
    let mut value: u64 = 0;
    let mut left: usize = width;
    proof {
        assert(bytes@.subrange(at + left, at + width) =~= Seq::<u8>::empty());
        ranges();
    }
    while left > 0
        invariant
            left <= width <= 8,
            at + width <= total == bytes@.len(),
            value == little_endian(bytes@.subrange(at + left, at + width)),
            value < range((width - left) as nat),
        decreases left,
    {
        proof {
            let here = bytes@.subrange(at + left - 1, at + width);
            assert(here.skip(1) =~= bytes@.subrange(at + left, at + width));
            ranges();
            range_grows((width - left + 1) as nat, 8);
        }
        left = left - 1;
        value = bytes[at + left] as u64 + 256 * value;
    }
    value
}

/// Appends the `width` low bytes of `n`, the least significant first.
pub fn push_le(out: &mut Vec<u8>, n: u64, width: usize)
    ensures
        final(out)@ == old(out)@ + le_bytes(n as nat, width as nat),
{
    let ghost before = out@;
    let mut rest: u64 = n;
    let mut left: usize = width;
    while left > 0
        invariant
            left <= width,
            out@ + le_bytes(rest as nat, left as nat) == before + le_bytes(n as nat, width as nat),
        decreases left,
    {
        let ghost earlier = out@;
        let low: u8 = (rest % 256) as u8;
        out.push(low);
        proof {
            assert(out@ + le_bytes((rest / 256) as nat, (left - 1) as nat) =~= earlier + (seq![low]
                + le_bytes((rest / 256) as nat, (left - 1) as nat)));
        }
        rest = rest / 256;
        left = left - 1;
    }
    assert(out@ =~= before + le_bytes(n as nat, width as nat));
}

/// The 32-bit values, one after the other.
pub open spec fn singles(values: Seq<u32>) -> Seq<u8>
    decreases values.len(),
{
    if values.len() == 0 {
        Seq::empty()
    } else {
        singles(values.drop_last()) + le_bytes(values.last() as nat, 4)
    }
}

/// The 16-bit values, one after the other.
pub open spec fn halves(values: Seq<u16>) -> Seq<u8>
    decreases values.len(),
{
    if values.len() == 0 {
        Seq::empty()
    } else {
        halves(values.drop_last()) + le_bytes(values.last() as nat, 2)
    }
}

/// Every 32-bit value is found again at its place.
pub proof fn singles_read_back(values: Seq<u32>, k: int)
    requires
        0 <= k < values.len(),
    ensures
        singles(values).len() == 4 * values.len(),
        little_endian(singles(values).subrange(4 * k, 4 * k + 4)) == values[k],
    decreases values.len(),
{
    singles_len(values.drop_last());
    ranges();
    le_bytes_read_back(values.last() as nat, 4);
    if k < values.len() - 1 {
        singles_read_back(values.drop_last(), k);
        assert(singles(values).subrange(4 * k, 4 * k + 4) =~= singles(values.drop_last()).subrange(
            4 * k,
            4 * k + 4,
        ));
    } else {
        assert(singles(values).subrange(4 * k, 4 * k + 4) =~= le_bytes(values.last() as nat, 4));
    }
}

/// A 32-bit value takes four bytes.
pub proof fn singles_len(values: Seq<u32>)
    ensures
        singles(values).len() == 4 * values.len(),
    decreases values.len(),
{
    if values.len() > 0 {
        singles_len(values.drop_last());
        ranges();
        le_bytes_read_back(values.last() as nat, 4);
    }
}

/// Every 16-bit value is found again at its place.
pub proof fn halves_read_back(values: Seq<u16>, k: int)
    requires
        0 <= k < values.len(),
    ensures
        halves(values).len() == 2 * values.len(),
        little_endian(halves(values).subrange(2 * k, 2 * k + 2)) == values[k],
    decreases values.len(),
{
    halves_len(values.drop_last());
    ranges();
    le_bytes_read_back(values.last() as nat, 2);
    if k < values.len() - 1 {
        halves_read_back(values.drop_last(), k);
        assert(halves(values).subrange(2 * k, 2 * k + 2) =~= halves(values.drop_last()).subrange(
            2 * k,
            2 * k + 2,
        ));
    } else {
        assert(halves(values).subrange(2 * k, 2 * k + 2) =~= le_bytes(values.last() as nat, 2));
    }
}

/// A 16-bit value takes two bytes.
pub proof fn halves_len(values: Seq<u16>)
    ensures
        halves(values).len() == 2 * values.len(),
    decreases values.len(),
{
    if values.len() > 0 {
        halves_len(values.drop_last());
        ranges();
        le_bytes_read_back(values.last() as nat, 2);
    }
}

/// The bytes of 32-bit values.
pub fn single_bytes(values: &[u32]) -> (bytes: Vec<u8>)
    ensures
        bytes@ == singles(values@),
{
    let mut bytes: Vec<u8> = Vec::new();
    let mut i: usize = 0;
    assert(values@.take(0) =~= Seq::<u32>::empty());
    while i < values.len()
        invariant
            i <= values@.len(),
            bytes@ == singles(values@.take(i as int)),
        decreases values.len() - i,
    {
        assert(values@.take(i + 1).drop_last() =~= values@.take(i as int));
        push_le(&mut bytes, values[i] as u64, 4);
        i = i + 1;
    }
    assert(values@.take(i as int) =~= values@);
    bytes
}

/// The bytes of 16-bit values.
pub fn half_bytes(values: &[u16]) -> (bytes: Vec<u8>)
    ensures
        bytes@ == halves(values@),
{
    let mut bytes: Vec<u8> = Vec::new();
    let mut i: usize = 0;
    assert(values@.take(0) =~= Seq::<u16>::empty());
    while i < values.len()
        invariant
            i <= values@.len(),
            bytes@ == halves(values@.take(i as int)),
        decreases values.len() - i,
    {
        assert(values@.take(i + 1).drop_last() =~= values@.take(i as int));
        push_le(&mut bytes, values[i] as u64, 2);
        i = i + 1;
    }
    assert(values@.take(i as int) =~= values@);
    bytes
}

/// The first byte counts ones, and every further byte counts 256 times what the
/// one before it counts.
pub proof fn bytes_weigh_in_order(bytes: Seq<u8>)
    ensures
        bytes.len() == 2 ==> little_endian(bytes) == bytes[0] + 0x100 * bytes[1],
        bytes.len() == 4 ==> little_endian(bytes) == bytes[0] + 0x100 * bytes[1] + 0x1_0000
            * bytes[2] + 0x100_0000 * bytes[3],
        bytes.len() == 8 ==> little_endian(bytes) == bytes[0] + 0x100 * bytes[1] + 0x1_0000
            * bytes[2] + 0x100_0000 * bytes[3] + 0x1_0000_0000 * bytes[4] + 0x100_0000_0000
            * bytes[5] + 0x1_0000_0000_0000 * bytes[6] + 0x100_0000_0000_0000 * bytes[7],
        little_endian(bytes) < range(bytes.len()),
    decreases bytes.len(),
{
    reveal_with_fuel(little_endian, 9);
    if bytes.len() > 0 {
        bytes_weigh_in_order(bytes.skip(1));
    }
}

/// The byte at `k` of a number is its digit at `k` in base 256.
pub proof fn bytes_are_digits(n: nat, width: nat, k: int)
    requires
        0 <= k < width,
    ensures
        le_bytes(n, width).len() == width,
        le_bytes(n, width)[k] == (n / range(k as nat)) % 256,
        range(0) == 1,
        range(k as nat + 1) == 256 * range(k as nat),
    decreases width,
{
    bytes_are_counted((n / 256) as nat, (width - 1) as nat);
    if k > 0 {
        bytes_are_digits(n / 256, (width - 1) as nat, k - 1);
        let lower = range((k - 1) as nat) as int;
        range_grows(0, (k - 1) as nat);
        vstd::arithmetic::div_mod::lemma_div_denominator(n as int, 256, lower);
        assert(range(k as nat) == 256 * lower);
    } else {
        assert(n / 1 == n);
    }
}

proof fn bytes_are_counted(n: nat, width: nat)
    ensures
        le_bytes(n, width).len() == width,
    decreases width,
{
    if width > 0 {
        bytes_are_counted(n / 256, (width - 1) as nat);
    }
}

/// The values stand in order, each in four bytes of its own, the lowest first.
pub proof fn singles_stand_in_order(values: Seq<u32>, k: int)
    requires
        0 <= k < values.len(),
    ensures
        singles(values).len() == 4 * values.len(),
        singles(values)[4 * k] == values[k] % 0x100,
        singles(values)[4 * k + 1] == (values[k] / 0x100) % 0x100,
        singles(values)[4 * k + 2] == (values[k] / 0x1_0000) % 0x100,
        singles(values)[4 * k + 3] == values[k] / 0x100_0000,
{
    singles_read_back(values, k);
    let own = singles(values).subrange(4 * k, 4 * k + 4);
    bytes_weigh_in_order(own);
    assert(own[0] == singles(values)[4 * k] && own[1] == singles(values)[4 * k + 1]);
    assert(own[2] == singles(values)[4 * k + 2] && own[3] == singles(values)[4 * k + 3]);
}

/// The values stand in order, each in two bytes of its own, the lower first.
pub proof fn halves_stand_in_order(values: Seq<u16>, k: int)
    requires
        0 <= k < values.len(),
    ensures
        halves(values).len() == 2 * values.len(),
        halves(values)[2 * k] == values[k] % 0x100,
        halves(values)[2 * k + 1] == values[k] / 0x100,
{
    halves_read_back(values, k);
    let own = halves(values).subrange(2 * k, 2 * k + 2);
    bytes_weigh_in_order(own);
    assert(own[0] == halves(values)[2 * k] && own[1] == halves(values)[2 * k + 1]);
}

} // verus!
