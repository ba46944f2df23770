//! Floating-point values as their bit patterns. A binary32 value is a `u32`, a
//! binary16 or bfloat16 value a `u16`; what is decided about such a value is
//! decided on the pattern.
use vstd::prelude::*;
use vstd::arithmetic::power2::{
    lemma_pow2_adds, lemma_pow2_pos, lemma_pow2_strictly_increases, lemma_pow2_unfold, lemma2_to64,
    pow2,
};

verus! {

/// Exponent and fraction of a binary32 pattern.
pub open spec fn magnitude(bits: u32) -> nat {
    (bits % 0x8000_0000) as nat
}

pub open spec fn negative(bits: u32) -> bool {
    bits >= 0x8000_0000
}

pub open spec fn nan(bits: u32) -> bool {
    magnitude(bits) > 0x7f80_0000
}

/// Neither an infinity nor a NaN.
pub open spec fn finite(bits: u32) -> bool {
    magnitude(bits) < 0x7f80_0000
}

/// The place of a number in the order of numbers. The two zeros share theirs.
pub open spec fn place(bits: u32) -> int {
    if negative(bits) {
        -(magnitude(bits) as int)
    } else {
        magnitude(bits) as int
    }
}

/// Whether the number `a` is less than the number `b`. A NaN is neither less nor
/// greater than anything.
pub open spec fn less(a: u32, b: u32) -> bool {
    !nan(a) && !nan(b) && place(a) < place(b)
}

/// The absolute value of a finite number, in units of the smallest subnormal,
/// two to the power of minus 149.
pub open spec fn units(bits: u32) -> nat {
    let exponent = magnitude(bits) / 0x80_0000;
    let fraction = magnitude(bits) % 0x80_0000;
    if exponent == 0 {
        fraction
    } else {
        (fraction + 0x80_0000) * pow2((exponent - 1) as nat)
    }
}

/// The absolute value of a finite binary16 number, in units of its smallest
/// subnormal, two to the power of minus 24.
pub open spec fn half_units(half: u16) -> nat {
    let exponent = (half as nat % 0x8000) / 0x400;
    let fraction = half as nat % 0x400;
    if exponent == 0 {
        fraction
    } else {
        (fraction + 0x400) * pow2((exponent - 1) as nat)
    }
}

/// How many binary digits `n` has.
pub open spec fn bit_length(n: nat) -> nat
    decreases n,
{
    if n == 0 {
        0
    } else {
        1 + bit_length(n / 2)
    }
}

/// `n` divided by two to the power of `s`, rounded to the nearest integer, a tie
/// to the even one.
pub open spec fn rounded(n: nat, s: nat) -> nat {
    let quotient = n / pow2(s);
    let rest = n % pow2(s);
    if 2 * rest > pow2(s) || (2 * rest == pow2(s) && quotient % 2 == 1) {
        quotient + 1
    } else {
        quotient
    }
}

/// The 24 leading binary digits of `n`, rounded.
pub open spec fn significand(n: nat) -> nat {
    if bit_length(n) <= 24 {
        n * pow2((24 - bit_length(n)) as nat)
    } else {
        rounded(n, (bit_length(n) - 24) as nat)
    }
}

/// Exponent and fraction of the binary32 number nearest to `n`, where the
/// exponent field of one is `one`. A carry out of the fraction goes into the
/// exponent.
pub open spec fn encoded(n: nat, one: int) -> int {
    if n == 0 {
        0
    } else {
        (one - 1 + bit_length(n)) * 0x80_0000 + significand(n) - 0x80_0000
    }
}

/// The binary32 number nearest to the integer `n`.
pub open spec fn from_integer(n: int) -> int {
    if n < 0 {
        0x8000_0000 + encoded((-n) as nat, 127)
    } else {
        encoded(n as nat, 127)
    }
}

/// The binary32 pattern of a binary16 value. A NaN is made quiet.
pub open spec fn widened_half(half: u16) -> int {
    let sign = if half >= 0x8000 {
        0x8000_0000int
    } else {
        0
    };
    let rest = half as int % 0x8000;
    sign + if rest > 0x7c00 {
        0x7fc0_0000 + (rest % 0x200) * 0x2000
    } else if rest == 0x7c00 {
        0x7f80_0000
    } else if rest >= 0x400 {
        rest * 0x2000 + 112 * 0x80_0000
    } else {
        encoded(rest as nat, 103)
    }
}

/// The binary32 pattern of a bfloat16 value. A NaN is made quiet.
pub open spec fn widened_brain(brain: u16) -> int {
    if brain % 0x8000 > 0x7f80 && (brain / 0x40) % 2 == 0 {
        (brain + 0x40) * 0x1_0000
    } else {
        brain * 0x1_0000
    }
}

proof fn bit_length_bounds(n: nat)
    requires
        n > 0,
    ensures
        bit_length(n) >= 1,
        pow2((bit_length(n) - 1) as nat) <= n < pow2(bit_length(n)),
    decreases n,
{
    lemma2_to64();
    if n > 1 {
        bit_length_bounds(n / 2);
        let length = bit_length(n / 2);
        lemma_pow2_unfold((length + 1) as nat);
        lemma_pow2_unfold(length);
    } else {
        reveal_with_fuel(bit_length, 2);
    }
}

proof fn bit_length_is(n: nat, length: nat)
    requires
        length >= 1,
        pow2((length - 1) as nat) <= n < pow2(length),
    ensures
        bit_length(n) == length,
{
    lemma_pow2_pos((length - 1) as nat);
    bit_length_bounds(n);
    let other = bit_length(n);
    if other < length {
        if other < length - 1 {
            lemma_pow2_strictly_increases(other, (length - 1) as nat);
        }
    } else if other > length {
        if other - 1 > length {
            lemma_pow2_strictly_increases(length, (other - 1) as nat);
        }
    }
}

/// Shifts `n` up to 24 binary digits.
fn normalise(n: u32) -> (shifted: (u32, u32))
    requires
        0 < n < 0x100_0000,
    ensures
        0x80_0000 <= shifted.0 < 0x100_0000,
        shifted.1 < 24,
        shifted.0 == n * pow2(shifted.1 as nat),
        bit_length(n as nat) == 24 - shifted.1,
{
    let mut digits: u32 = n;
    let mut shift: u32 = 0;
    proof {
        lemma2_to64();
        assert(n * pow2(0) == n) by (nonlinear_arith)
            requires
                pow2(0) == 1,
        ;
    }
    while digits < 0x80_0000
        invariant
            0 < digits < 0x100_0000,
            n > 0,
            digits == n * pow2(shift as nat),
            pow2(shift as nat) <= digits,
            shift < 24,
        decreases 0x100_0000 - digits,
    {
        proof {
            lemma_pow2_unfold((shift + 1) as nat);
            let p: int = pow2(shift as nat) as int;
            assert(n * (2 * p) == 2 * (n * p)) by (nonlinear_arith);
            lemma2_to64();
        }
        digits = digits * 2;
        shift = shift + 1;
    }
    proof {
        lemma2_to64();
        let up: nat = (23 - shift) as nat;
        lemma_pow2_adds(up, shift as nat);
        lemma_pow2_adds((24 - shift) as nat, shift as nat);
        lemma_pow2_pos(shift as nat);
        let p: int = pow2(shift as nat) as int;
        let low: int = pow2(up) as int;
        let high: int = pow2((24 - shift) as nat) as int;
        assert(low <= n < high) by (nonlinear_arith)
            requires
                low * p <= n * p < high * p,
                p > 0,
        ;
        bit_length_is(n as nat, (24 - shift) as nat);
    }
    (digits, shift)
}

/// Whether the value is neither an infinity nor a NaN.
pub fn is_finite(bits: u32) -> (yes: bool)
    ensures
        yes == finite(bits),
{
    bits % 0x8000_0000 < 0x7f80_0000
}

/// Whether `a` is a number less than the number `b`.
pub fn is_less(a: u32, b: u32) -> (yes: bool)
    ensures
        yes == less(a, b),
{
    let left: u32 = a % 0x8000_0000;
    let right: u32 = b % 0x8000_0000;
    if left > 0x7f80_0000 || right > 0x7f80_0000 {
        return false;
    }
    match (a >= 0x8000_0000, b >= 0x8000_0000) {
        (false, false) => left < right,
        (true, true) => left > right,
        (true, false) => left > 0 || right > 0,
        (false, true) => false,
    }
}

/// The binary32 pattern of a binary16 value.
pub fn widen_half(half: u16) -> (bits: u32)
    ensures
        bits == widened_half(half),
{
    let sign: u32 = if half >= 0x8000 {
        0x8000_0000
    } else {
        0
    };
    let rest: u32 = (half % 0x8000) as u32;
    if rest > 0x7c00 {
        sign + 0x7fc0_0000 + (rest % 0x200) * 0x2000
    } else if rest == 0x7c00 {
        sign + 0x7f80_0000
    } else if rest >= 0x400 {
        sign + rest * 0x2000 + 112 * 0x80_0000
    } else if rest == 0 {
        sign
    } else {
        let (digits, shift) = normalise(rest);
        sign + (126 - shift) * 0x80_0000 + digits - 0x80_0000
    }
}

/// The binary32 pattern of a bfloat16 value.
pub fn widen_brain(brain: u16) -> (bits: u32)
    ensures
        bits == widened_brain(brain),
{
    let upper: u32 = brain as u32;
    if brain % 0x8000 > 0x7f80 && (brain / 0x40) % 2 == 0 {
        (upper + 0x40) * 0x1_0000
    } else {
        upper * 0x1_0000
    }
}

/// The pattern of the binary32 number nearest to an integer.
pub fn single_from_integer(n: i64) -> (bits: u32)
    ensures
        bits == from_integer(n as int),
{
    let sign: u32 = if n < 0 {
        0x8000_0000
    } else {
        0
    };
    let size: u64 = if n < 0 {
        (-(n + 1)) as u64 + 1
    } else {
        n as u64
    };
    if size == 0 {
        return 0;
    }
    if size < 0x100_0000 {
        let (digits, shift) = normalise(size as u32);
        return sign + (150 - shift) * 0x80_0000 + digits - 0x80_0000;
    }
    let mut divisor: u64 = 1;
    let mut shift: u32 = 0;
    let mut quotient: u64 = size;
    proof {
        lemma2_to64();
    }
    while quotient >= 0x100_0000
        invariant
            divisor == pow2(shift as nat),
            divisor > 0,
            quotient == size / divisor,
            quotient >= 0x80_0000,
            shift <= 40,
        decreases quotient,
    {
        proof {
            lemma_pow2_unfold((shift + 1) as nat);
            lemma2_to64();
            vstd::arithmetic::div_mod::lemma_fundamental_div_mod(size as int, divisor as int);
            let (d, q): (int, int) = (divisor as int, quotient as int);
            assert(d * 0x100_0000 <= d * q) by (nonlinear_arith)
                requires
                    d > 0,
                    q >= 0x100_0000,
            ;
            vstd::arithmetic::power2::lemma2_to64_rest();
            vstd::arithmetic::div_mod::lemma_div_denominator(size as int, divisor as int, 2);
        }
        divisor = divisor * 2;
        shift = shift + 1;
        quotient = quotient / 2;
    }
    proof {
        lemma2_to64();
        let (d, q): (int, int) = (divisor as int, quotient as int);
        vstd::arithmetic::div_mod::lemma_fundamental_div_mod(size as int, d);
        lemma_pow2_adds(23, shift as nat);
        lemma_pow2_adds(24, shift as nat);
        assert(d * 0x80_0000 <= d * q) by (nonlinear_arith)
            requires
                d > 0,
                q >= 0x80_0000,
        ;
        assert(d * q + d <= d * 0x100_0000) by (nonlinear_arith)
            requires
                d > 0,
                q + 1 <= 0x100_0000,
        ;
        bit_length_is(size as nat, (24 + shift) as nat);
    }
    let rest: u64 = size % divisor;
    let up: bool = rest > divisor - rest || (rest == divisor - rest && quotient % 2 == 1);
    let digits: u32 = if up {
        quotient as u32 + 1
    } else {
        quotient as u32
    };
    sign + (150 + shift) * 0x80_0000 + (digits - 0x80_0000)
}

/// The largest absolute value among `values`, NaNs aside: zero where there is
/// none.
pub fn peak(values: &[u32]) -> (largest: u32)
    ensures
        forall|i: int|
            0 <= i < values@.len() && !nan(#[trigger] values@[i]) ==> magnitude(values@[i])
                <= largest,
        largest == 0 || exists|i: int|
            0 <= i < values@.len() && !nan(#[trigger] values@[i]) && magnitude(values@[i])
                == largest,
{
    let mut largest: u32 = 0;
    let mut at: usize = 0;
    while at < values.len()
        invariant
            at <= values@.len(),
            forall|i: int|
                0 <= i < at && !nan(#[trigger] values@[i]) ==> magnitude(values@[i]) <= largest,
            largest == 0 || exists|i: int|
                0 <= i < at && !nan(#[trigger] values@[i]) && magnitude(values@[i]) == largest,
        decreases values.len() - at,
    {
        let size: u32 = values[at] % 0x8000_0000;
        if size <= 0x7f80_0000 && size > largest {
            assert(!nan(values@[at as int]) && magnitude(values@[at as int]) == size);
            largest = size;
        }
        at = at + 1;
    }
    largest
}

proof fn encoded_units(n: nat, one: int)
    requires
        0 < n < 0x100_0000,
        24 <= one <= 127,
    ensures
        0x80_0000 <= encoded(n, one) < 0x7f80_0000,
        units(encoded(n, one) as u32) == n * pow2((one + 22) as nat),
{
    lemma2_to64();
    bit_length_bounds(n);
    let length = bit_length(n);
    if length > 24 {
        if length > 25 {
            lemma_pow2_strictly_increases(24, (length - 1) as nat);
        }
        assert(false);
    }
    let up = (24 - length) as nat;
    lemma_pow2_adds((length - 1) as nat, up);
    lemma_pow2_adds(length, up);
    lemma_pow2_pos(up);
    let p: int = pow2(up) as int;
    let low: int = pow2((length - 1) as nat) as int;
    let high: int = pow2(length) as int;
    assert(low * p <= n * p < high * p) by (nonlinear_arith)
        requires
            low <= n < high,
            p > 0,
    ;
    let bits = encoded(n, one) as u32;
    let exponent = (one - 1 + length) as nat;
    let fraction = (n * p - 0x80_0000) as nat;
    assert(magnitude(bits) == exponent * 0x80_0000 + fraction);
    assert(magnitude(bits) / 0x80_0000 == exponent);
    assert(magnitude(bits) % 0x80_0000 == fraction);
    let e: int = pow2((exponent - 1) as nat) as int;
    lemma_pow2_adds(up, (exponent - 1) as nat);
    assert((n * p) * e == n * (p * e)) by (nonlinear_arith);
}

/// A binary16 number keeps its value and its sign when it is widened.
pub proof fn widening_keeps_the_value(half: u16)
    requires
        half % 0x8000 < 0x7c00,
    ensures
        0 <= widened_half(half) <= u32::MAX,
        finite(widened_half(half) as u32),
        negative(widened_half(half) as u32) == (half >= 0x8000),
        units(widened_half(half) as u32) == half_units(half) * pow2(125),
{
    let rest = half as nat % 0x8000;
    let bits = widened_half(half) as u32;
    if rest >= 0x400 {
        let exponent = rest / 0x400;
        let fraction = rest % 0x400;
        assert(magnitude(bits) == (exponent + 112) * 0x80_0000 + fraction * 0x2000);
        assert(magnitude(bits) / 0x80_0000 == exponent + 112);
        assert(magnitude(bits) % 0x80_0000 == fraction * 0x2000);
        lemma2_to64();
        lemma_pow2_adds(13, (exponent + 111) as nat);
        lemma_pow2_adds((exponent - 1) as nat, 125);
        let a: int = pow2((exponent + 111) as nat) as int;
        let b: int = pow2((exponent - 1) as nat) as int;
        let c: int = pow2(125) as int;
        assert(0x2000 * a == b * c);
        assert((fraction * 0x2000 + 0x80_0000) * a == (fraction + 0x400) * (0x2000 * a))
            by (nonlinear_arith);
        assert((fraction + 0x400) * (b * c) == ((fraction + 0x400) * b) * c) by (nonlinear_arith);
    } else if rest > 0 {
        encoded_units(rest, 103);
        assert(magnitude(bits) == magnitude(encoded(rest, 103) as u32));
    } else {
        assert(0 * pow2(125) == 0);
    }
}

/// An integer of at most 24 binary digits is a binary32 number, and converting
/// it is exact.
pub proof fn small_integers_are_exact(n: int)
    requires
        -0x100_0000 < n < 0x100_0000,
    ensures
        0 <= from_integer(n) <= u32::MAX,
        finite(from_integer(n) as u32),
        negative(from_integer(n) as u32) == (n < 0),
        units(from_integer(n) as u32) == (if n < 0 {
            -n
        } else {
            n
        }) * pow2(149),
{
    let size = (if n < 0 {
        -n
    } else {
        n
    }) as nat;
    if size > 0 {
        encoded_units(size, 127);
        assert(magnitude(from_integer(n) as u32) == magnitude(encoded(size, 127) as u32));
    } else {
        assert(0 * pow2(149) == 0);
    }
}

/// The value of a finite number in units of the smallest subnormal, with its sign.
pub open spec fn value(bits: u32) -> int {
    if bits >= 0x8000_0000 {
        -(units(bits) as int)
    } else {
        units(bits) as int
    }
}

proof fn units_grow(a: u32, b: u32)
    requires
        magnitude(a) < magnitude(b),
    ensures
        units(a) < units(b),
{
    let (ma, mb) = (magnitude(a), magnitude(b));
    let (ea, eb) = (ma / 0x80_0000, mb / 0x80_0000);
    let (fa, fb) = (ma % 0x80_0000, mb % 0x80_0000);
    lemma2_to64();
    if eb > 0 {
        lemma_pow2_pos((eb - 1) as nat);
        let q: int = pow2((eb - 1) as nat) as int;
        if ea == eb {
            assert((fa + 0x80_0000) * q < (fb + 0x80_0000) * q) by (nonlinear_arith)
                requires
                    fa < fb,
                    q > 0,
            ;
        } else {
            assert(0x80_0000 * q <= (fb + 0x80_0000) * q) by (nonlinear_arith)
                requires
                    fb >= 0,
                    q > 0,
            ;
            if ea > 0 {
                let p: int = pow2((ea - 1) as nat) as int;
                lemma_pow2_unfold(ea);
                lemma_pow2_pos((ea - 1) as nat);
                if ea < eb - 1 {
                    lemma_pow2_strictly_increases(ea, (eb - 1) as nat);
                }
                assert((fa + 0x80_0000) * p < 0x80_0000 * q) by (nonlinear_arith)
                    requires
                        0 <= fa < 0x80_0000,
                        p > 0,
                        2 * p <= q,
                ;
            } else {
                assert(0x80_0000 <= 0x80_0000 * q) by (nonlinear_arith)
                    requires
                        q >= 1,
                ;
            }
        }
    }
}

/// Of two finite numbers the one with the smaller value is less. A NaN is less
/// than nothing and nothing is less than it, and the two infinities lie outside
/// all finite numbers.
pub proof fn numbers_compare_by_value(a: u32, b: u32)
    ensures
        finite(a) && finite(b) ==> (less(a, b) <==> value(a) < value(b)),
        less(a, b) ==> a % 0x8000_0000 <= 0x7f80_0000 && b % 0x8000_0000 <= 0x7f80_0000,
        finite(a) ==> less(a, 0x7f80_0000) && less(0xff80_0000, a),
        finite(a) ==> !less(0x7f80_0000, a) && !less(a, 0xff80_0000),
        less(0xff80_0000, 0x7f80_0000),
        finite(a) <==> (a % 0x8000_0000) / 0x80_0000 < 255,
{
    if magnitude(a) < magnitude(b) {
        units_grow(a, b);
    } else if magnitude(b) < magnitude(a) {
        units_grow(b, a);
    }
    if magnitude(a) > 0 {
        units_grow(0, a);
    }
    if magnitude(b) > 0 {
        units_grow(0, b);
    }
}

/// An integer of more than 24 binary digits becomes the nearest number of 24: of
/// `24 + s` digits, it is a multiple of two to the power of `s` that lies no more
/// than half of that away, and where two lie equally near, the even one.
pub proof fn large_integers_are_rounded(n: nat, s: nat)
    requires
        1 <= s <= 40,
        0x80_0000 * pow2(s) <= n < 0x100_0000 * pow2(s),
    ensures
        0 <= from_integer(n as int) < 0x7f80_0000,
        from_integer(-(n as int)) == from_integer(n as int) + 0x8000_0000,
        ({
            let m = rounded(n, s);
            let off = m * pow2(s) - n;
            &&& units(from_integer(n as int) as u32) == m * pow2(s + 149)
            &&& -(pow2(s) as int) <= 2 * off <= pow2(s)
            &&& 2 * off == pow2(s) || 2 * off == -(pow2(s) as int) ==> m % 2 == 0
        }),
{
    lemma2_to64();
    lemma_pow2_pos(s);
    lemma_pow2_adds(23, s);
    lemma_pow2_adds(24, s);
    bit_length_is(n, 24 + s);
    let (d, q, r): (int, int, int) = (
        pow2(s) as int,
        n as int / pow2(s) as int,
        n as int % pow2(s) as int,
    );
    vstd::arithmetic::div_mod::lemma_fundamental_div_mod(n as int, d);
    assert(0x80_0000 <= q < 0x100_0000) by (nonlinear_arith)
        requires
            n == d * q + r,
            0 <= r < d,
            0x80_0000 * d <= n < 0x100_0000 * d,
    ;
    let m = rounded(n, s);
    assert((q + 1) * d == d * q + d && q * d == d * q) by (nonlinear_arith);
    assert(significand(n) == m);
    let bits = encoded(n, 127) as u32;
    assert(magnitude(bits) == (150 + s) * 0x80_0000 + m - 0x80_0000);
    lemma_pow2_unfold(s + 150);
    let p: int = pow2(s + 149) as int;
    assert(pow2(s + 150) == 2 * p);
    if m < 0x100_0000 {
        assert(magnitude(bits) / 0x80_0000 == 150 + s);
        assert(magnitude(bits) % 0x80_0000 == m - 0x80_0000);
        assert(units(bits) == m * p);
    } else {
        assert(magnitude(bits) / 0x80_0000 == 151 + s);
        assert(magnitude(bits) % 0x80_0000 == 0);
        assert(units(bits) == 0x80_0000 * pow2(s + 150));
        assert(m == 0x100_0000);
        assert(m * p == 0x100_0000 * p);
    }
    let off = m * pow2(s) - n;
    if m == q {
        assert(off == -r);
    } else {
        assert(m == q + 1);
        assert(off == d - r);
    }
    assert(units(bits) == m * pow2(s + 149));
}

/// A widened binary16 infinity or NaN keeps its sign; an infinity stays one, and a
/// NaN stays one, quiet, with its leading digits.
pub proof fn widening_keeps_the_exceptions(half: u16)
    requires
        half % 0x8000 >= 0x7c00,
    ensures
        0 <= widened_half(half) <= u32::MAX,
        negative(widened_half(half) as u32) == (half >= 0x8000),
        half % 0x8000 == 0x7c00 ==> magnitude(widened_half(half) as u32) == 0x7f80_0000,
        half % 0x8000 > 0x7c00 ==> {
            let wide = magnitude(widened_half(half) as u32);
            &&& nan(widened_half(half) as u32)
            &&& (wide / 0x40_0000) % 2 == 1
            &&& (wide / 0x2000) % 0x200 == half % 0x200
        },
{
}

/// A bfloat16 number is the upper half of the binary32 number of the same value;
/// only a NaN changes, which becomes quiet.
pub proof fn brains_are_upper_halves(brain: u16)
    ensures
        0 <= widened_brain(brain) <= u32::MAX,
        brain % 0x8000 <= 0x7f80 ==> widened_brain(brain) == 0x1_0000 * brain,
        brain % 0x8000 > 0x7f80 ==> {
            let wide = widened_brain(brain) as u32;
            &&& nan(wide)
            &&& negative(wide) == (brain >= 0x8000)
            &&& (wide / 0x40_0000) % 2 == 1
            &&& (wide / 0x1_0000) % 0x40 == brain % 0x40
        },
{
}

} // verus!
