//! Decimal text: the counters inside file and tensor names, the numbers inside
//! messages, and the one number that is read back from text.
use vstd::prelude::*;

verus! {

/// The decimal digit standing for `d`, for `d` below ten.
pub open spec fn digit(d: nat) -> char {
    (48 + d) as char
}

/// `n` written in decimal, without leading zeros.
pub open spec fn decimal(n: nat) -> Seq<char>
    decreases n,
{
    if n < 10 {
        seq![digit(n)]
    } else {
        decimal(n / 10).push(digit(n % 10))
    }
}

/// A run of `count` zero digits.
pub open spec fn zeros(count: nat) -> Seq<char> {
    Seq::new(count, |i: int| '0')
}

/// `n` in decimal, filled with zeros on the left up to `width` characters. A
/// number that is already longer is written in full.
pub open spec fn padded(n: nat, width: nat) -> Seq<char> {
    if decimal(n).len() >= width {
        decimal(n)
    } else {
        zeros((width - decimal(n).len()) as nat) + decimal(n)
    }
}

/// The number that a sequence of decimal digits stands for.
pub open spec fn number(digits: Seq<char>) -> nat
    decreases digits.len(),
{
    if digits.len() == 0 {
        0
    } else {
        number(digits.drop_last()) * 10 + (digits.last() as nat - 48) as nat
    }
}

pub open spec fn is_digit(c: char) -> bool {
    '0' <= c <= '9'
}

pub open spec fn all_digits(s: Seq<char>) -> bool {
    forall|i: int| 0 <= i < s.len() ==> is_digit(#[trigger] s[i])
}

/// Reading a number back from its decimal text gives the number.
pub proof fn decimal_reads_back(n: nat)
    ensures
        number(decimal(n)) == n,
        all_digits(decimal(n)),
        decimal(n).len() >= 1,
    decreases n,
{
    reveal_with_fuel(number, 2);
    if n < 10 {
        assert(decimal(n).drop_last() =~= Seq::<char>::empty());
    } else {
        decimal_reads_back(n / 10);
        assert(decimal(n).drop_last() =~= decimal(n / 10));
    }
}

proof fn zeros_read_as_nothing(count: nat, digits: Seq<char>)
    ensures
        number(zeros(count) + digits) == number(digits),
    decreases count + digits.len(),
{
    let whole = zeros(count) + digits;
    if digits.len() > 0 {
        zeros_read_as_nothing(count, digits.drop_last());
        assert(whole.drop_last() =~= zeros(count) + digits.drop_last());
        assert(whole.last() == digits.last());
    } else if count > 0 {
        zeros_read_as_nothing((count - 1) as nat, digits);
        assert(whole.drop_last() =~= zeros((count - 1) as nat) + digits);
        assert(whole.last() == '0');
    } else {
        assert(whole =~= digits);
    }
}

/// Reading a zero-filled number back gives the number.
pub proof fn padded_reads_back(n: nat, width: nat)
    ensures
        number(padded(n, width)) == n,
        padded(n, width).len() >= width,
{
    decimal_reads_back(n);
    if decimal(n).len() < width {
        zeros_read_as_nothing((width - decimal(n).len()) as nat, decimal(n));
    }
}

/// Two numbers with the same zero-filled text are the same number.
pub proof fn padded_is_injective(a: nat, b: nat, width: nat)
    requires
        padded(a, width) == padded(b, width),
    ensures
        a == b,
{
    padded_reads_back(a, width);
    padded_reads_back(b, width);
}

/// Two numbers with the same decimal text are the same number.
pub proof fn decimal_is_injective(a: nat, b: nat)
    requires
        decimal(a) == decimal(b),
    ensures
        a == b,
{
    decimal_reads_back(a);
    decimal_reads_back(b);
}

/// Ten to the power of `n`.
pub open spec fn power_of_ten(n: nat) -> nat
    decreases n,
{
    if n == 0 {
        1
    } else {
        10 * power_of_ten((n - 1) as nat)
    }
}

proof fn decimal_len_bound(n: nat, width: nat)
    requires
        width >= 1,
        n < power_of_ten(width),
    ensures
        decimal(n).len() <= width,
    decreases n,
{
    if n >= 10 {
        if width == 1 {
            reveal_with_fuel(power_of_ten, 2);
        } else {
            decimal_len_bound(n / 10, (width - 1) as nat);
        }
    }
}

/// A 64-bit number has at most twenty digits.
pub proof fn words_have_twenty_digits(n: nat)
    requires
        n <= u64::MAX,
    ensures
        decimal(n).len() <= 20,
{
    reveal_with_fuel(power_of_ten, 21);
    decimal_len_bound(n, 20);
}

fn push_digit(out: &mut String, d: u64)
    requires
        d < 10,
    ensures
        final(out)@ == old(out)@.push(digit(d as nat)),
{
    let ghost before = out@;
    let text: &str = match d {
        0 => "0",
        1 => "1",
        2 => "2",
        3 => "3",
        4 => "4",
        5 => "5",
        6 => "6",
        7 => "7",
        8 => "8",
        _ => "9",
    };
    proof {
        reveal_strlit("0");
        reveal_strlit("1");
        reveal_strlit("2");
        reveal_strlit("3");
        reveal_strlit("4");
        reveal_strlit("5");
        reveal_strlit("6");
        reveal_strlit("7");
        reveal_strlit("8");
        reveal_strlit("9");
        assert(text@ =~= seq![digit(d as nat)]);
    }
    out.append(text);
    assert(out@ =~= before.push(digit(d as nat)));
}

/// Appends `n` in decimal.
pub fn push_decimal(out: &mut String, n: u64)
    ensures
        final(out)@ == old(out)@ + decimal(n as nat),
    decreases n,
{
    let ghost before = out@;
    if n >= 10 {
        push_decimal(out, n / 10);
    }
    push_digit(out, n % 10);
    assert(out@ =~= before + decimal(n as nat));
}

/// Appends `n` in decimal, zero-filled to `width` characters.
pub fn push_padded(out: &mut String, n: u64, width: u64)
    ensures
        final(out)@ == old(out)@ + padded(n as nat, width as nat),
{
    let ghost before = out@;
    let mut length: u64 = 1;
    let mut rest: u64 = n;
    while rest >= 10
        invariant
            decimal(rest as nat).len() + length - 1 == decimal(n as nat).len(),
            length >= 1,
            length + rest <= n + 1,
        decreases rest,
    {
        rest = rest / 10;
        length = length + 1;
    }
    let mut filled: u64 = length;
    while filled < width
        invariant
            length <= filled,
            filled <= width || filled == length,
            out@ == before + zeros((filled - length) as nat),
        decreases width - filled,
    {
        push_digit(out, 0);
        filled = filled + 1;
        assert(out@ =~= before + zeros((filled - length) as nat));
    }
    let ghost prefix = out@;
    push_decimal(out, n);
    assert(out@ =~= before + padded(n as nat, width as nat));
}

/// Numbers in decimal with a comma and a space between them.
pub open spec fn joined(items: Seq<usize>) -> Seq<char>
    decreases items.len(),
{
    if items.len() == 0 {
        Seq::empty()
    } else if items.len() == 1 {
        decimal(items[0] as nat)
    } else {
        joined(items.drop_last()) + ", "@ + decimal(items.last() as nat)
    }
}

/// Numbers as a bracketed list.
pub open spec fn listed(items: Seq<usize>) -> Seq<char> {
    "["@ + joined(items) + "]"@
}

/// Appends numbers as a bracketed list.
pub fn push_list(out: &mut String, items: &[usize])
    ensures
        final(out)@ == old(out)@ + listed(items@),
{
    let ghost before = out@;
    out.append("[");
    let mut i: usize = 0;
    assert(items@.take(0) =~= Seq::<usize>::empty());
    assert(out@ + joined(items@.take(0)) =~= out@);
    while i < items.len()
        invariant
            i <= items@.len(),
            out@ == before + "["@ + joined(items@.take(i as int)),
        decreases items.len() - i,
    {
        let ghost earlier = out@;
        if i > 0 {
            out.append(", ");
        }
        push_decimal(out, items[i] as u64);
        proof {
            let longer = items@.take(i + 1);
            assert(longer.drop_last() =~= items@.take(i as int));
            if i == 0 {
                assert(items@.take(0) =~= Seq::<usize>::empty());
                assert(out@ =~= before + "["@ + joined(longer));
            } else {
                assert(out@ =~= before + "["@ + joined(longer));
            }
        }
        i = i + 1;
    }
    assert(items@.take(i as int) =~= items@);
    out.append("]");
    assert(out@ =~= before + listed(items@));
}

/// Whether `c` has the Unicode property `White_Space`.
pub open spec fn is_white(c: char) -> bool {
    ||| '\u{9}' <= c <= '\u{d}'
    ||| c == '\u{20}'
    ||| c == '\u{85}'
    ||| c == '\u{a0}'
    ||| c == '\u{1680}'
    ||| '\u{2000}' <= c <= '\u{200a}'
    ||| c == '\u{2028}'
    ||| c == '\u{2029}'
    ||| c == '\u{202f}'
    ||| c == '\u{205f}'
    ||| c == '\u{3000}'
}

/// `s` without the white space at its two ends.
pub open spec fn trimmed(s: Seq<char>) -> Seq<char>
    decreases s.len(),
{
    if s.len() > 0 && is_white(s[0]) {
        trimmed(s.subrange(1, s.len() as int))
    } else if s.len() > 0 && is_white(s.last()) {
        trimmed(s.drop_last())
    } else {
        s
    }
}

/// The machine-sized number that `s` is the text of: decimal digits, at least
/// one, after at most one plus sign.
pub open spec fn parsed(s: Seq<char>) -> Option<nat> {
    let digits = if s.len() > 0 && s[0] == '+' {
        s.subrange(1, s.len() as int)
    } else {
        s
    };
    if digits.len() > 0 && all_digits(digits) && number(digits) <= usize::MAX {
        Some(number(digits))
    } else {
        None
    }
}

/// Trimmed text neither begins nor ends with white space.
pub proof fn trimmed_ends(s: Seq<char>)
    ensures
        trimmed(s).len() > 0 ==> !is_white(trimmed(s)[0]) && !is_white(trimmed(s).last()),
    decreases s.len(),
{
    if s.len() > 0 && is_white(s[0]) {
        trimmed_ends(s.subrange(1, s.len() as int));
    } else if s.len() > 0 && is_white(s.last()) {
        trimmed_ends(s.drop_last());
    }
}

proof fn number_grows(digits: Seq<char>, upto: int)
    requires
        0 <= upto <= digits.len(),
        all_digits(digits),
    ensures
        number(digits.subrange(0, upto)) <= number(digits),
    decreases digits.len() - upto,
{
    if upto < digits.len() {
        number_grows(digits, upto + 1);
        let longer = digits.subrange(0, upto + 1);
        assert(longer.drop_last() =~= digits.subrange(0, upto));
    } else {
        assert(digits.subrange(0, upto) =~= digits);
    }
}

fn white(c: char) -> (yes: bool)
    ensures
        yes == is_white(c),
{
    ('\u{9}' <= c && c <= '\u{d}') || c == '\u{20}' || c == '\u{85}' || c == '\u{a0}' || c
        == '\u{1680}' || ('\u{2000}' <= c && c <= '\u{200a}') || c == '\u{2028}' || c == '\u{2029}'
        || c == '\u{202f}' || c == '\u{205f}' || c == '\u{3000}'
}

/// Reads the number in `text`, white space around it aside: `None` where there
/// is none, or where it does not fit the machine's word.
pub fn parse_trimmed(text: &str) -> (value: Option<usize>)
    ensures
        value is Some <==> parsed(trimmed(text@)) is Some,
        value matches Some(v) ==> parsed(trimmed(text@)) == Some(v as nat),
{
    let mut start: usize = 0;
    let mut end: usize = text.unicode_len();
    assert(text@.subrange(0, end as int) =~= text@);
    while start < end && white(text.get_char(start))
        invariant
            start <= end == text@.len(),
            trimmed(text@) == trimmed(text@.subrange(start as int, end as int)),
        decreases end - start,
    {
        proof {
            let here = text@.subrange(start as int, end as int);
            assert(here.subrange(1, here.len() as int) =~= text@.subrange(
                start as int + 1,
                end as int,
            ));
        }
        start = start + 1;
    }
    while start < end && white(text.get_char(end - 1))
        invariant
            start <= end <= text@.len(),
            start < end ==> !is_white(text@[start as int]),
            trimmed(text@) == trimmed(text@.subrange(start as int, end as int)),
        decreases end - start,
    {
        proof {
            let here = text@.subrange(start as int, end as int);
            assert(here.drop_last() =~= text@.subrange(start as int, end as int - 1));
        }
        end = end - 1;
    }
    let ghost body = text@.subrange(start as int, end as int);
    assert(trimmed(text@) == body);
    let signed: bool = start < end && text.get_char(start) == '+';
    let first: usize = if signed {
        start + 1
    } else {
        start
    };
    let ghost digits = text@.subrange(first as int, end as int);
    proof {
        if signed {
            assert(body.subrange(1, body.len() as int) =~= digits);
        } else {
            assert(body =~= digits);
        }
    }
    if first == end {
        return None;
    }
    let mut value: usize = 0;
    let mut at: usize = first;
    assert(digits.subrange(0, 0) =~= Seq::<char>::empty());
    while at < end
        invariant
            first <= at <= end <= text@.len(),
            digits == text@.subrange(first as int, end as int),
            digits.len() > 0,
            all_digits(digits.subrange(0, at - first)),
            number(digits.subrange(0, at - first)) == value,
            parsed(trimmed(text@)) == (if all_digits(digits) && number(digits) <= usize::MAX {
                Some(number(digits))
            } else {
                None
            }),
        decreases end - at,
    {
        let c: char = text.get_char(at);
        assert(digits[at - first] == c);
        if c < '0' || '9' < c {
            return None;
        }
        let d: usize = (c as u32 - 48) as usize;
        let ghost before = digits.subrange(0, at - first);
        let ghost after = digits.subrange(0, at - first + 1);
        proof {
            assert(after.drop_last() =~= before);
            assert(number(after) == value * 10 + d);
            assert forall|i: int| 0 <= i < after.len() implies is_digit(#[trigger] after[i]) by {
                if i < before.len() {
                    assert(is_digit(before[i]));
                }
            }
            if all_digits(digits) {
                number_grows(digits, at - first + 1);
            }
        }
        let grown: usize = match value.checked_mul(10) {
            Some(v) => v,
            None => {
                return None;
            },
        };
        value = match grown.checked_add(d) {
            Some(v) => v,
            None => {
                return None;
            },
        };
        at = at + 1;
    }
    assert(digits.subrange(0, at - first) =~= digits);
    Some(value)
}

/// The ten digits are those from `0` to `9`, in order.
pub proof fn digits_are_in_order(d: nat)
    requires
        d < 10,
    ensures
        digit(0) == '0',
        digit(d) as nat == '0' as nat + d,
        is_digit(digit(d)),
{
}

/// The text of a number begins with a zero only where the number is zero, and the
/// last character is its last digit.
pub proof fn decimals_have_no_leading_zero(n: nat)
    ensures
        decimal(n)[0] == '0' <==> n == 0,
        decimal(n).last() == digit(n % 10),
        n < 10 ==> decimal(n).len() == 1,
        n >= 10 ==> decimal(n).len() == decimal(n / 10).len() + 1,
    decreases n,
{
    if n >= 10 {
        decimals_have_no_leading_zero(n / 10);
        decimal_reads_back(n / 10);
        assert(decimal(n)[0] == decimal(n / 10)[0]);
    }
}

/// A zero-filled number is exactly as wide as asked for, or as the number itself
/// where that is longer; it ends with the number, and has nothing but zeros before
/// it.
pub proof fn padding_is_zeros(n: nat, width: nat, i: int)
    ensures
        padded(n, width).len() == (if decimal(n).len() > width {
            decimal(n).len()
        } else {
            width
        }),
        padded(n, width).skip(padded(n, width).len() - decimal(n).len()) == decimal(n),
        0 <= i < padded(n, width).len() - decimal(n).len() ==> padded(n, width)[i] == '0',
{
    let text = padded(n, width);
    assert(text.skip(text.len() - decimal(n).len()) =~= decimal(n));
}

/// Every list but an empty one is made of the texts of its numbers, with a comma
/// and a space between any two, wherever it is cut.
pub proof fn lists_join_anywhere(first: Seq<usize>, second: Seq<usize>, one: usize)
    requires
        first.len() > 0,
        second.len() > 0,
    ensures
        joined(seq![one]) == decimal(one as nat),
        joined(first + second) == joined(first) + ", "@ + joined(second),
    decreases second.len(),
{
    let both = first + second;
    assert(both.drop_last() =~= first + second.drop_last());
    assert(both.last() == second.last());
    if second.len() == 1 {
        assert(first + second.drop_last() =~= first);
        assert(second[0] == second.last());
    } else {
        lists_join_anywhere(first, second.drop_last(), one);
        assert(joined(both) =~= joined(first) + ", "@ + joined(second));
    }
}

/// White space is what Unicode calls so, and no digit and no sign is.
pub proof fn numbers_are_not_white(c: char)
    ensures
        is_digit(c) || c == '+' || c == '-' ==> !is_white(c),
        c == ' ' || c == '\t' || c == '\n' || c == '\r' ==> is_white(c),
{
}

/// `s` is white space throughout.
pub open spec fn blank(s: Seq<char>) -> bool {
    forall|i: int| 0 <= i < s.len() ==> is_white(#[trigger] s[i])
}

/// Trimming takes the white space at both ends away, and nothing else.
pub proof fn trimming_takes_the_ends(before: Seq<char>, core: Seq<char>, after: Seq<char>)
    requires
        blank(before) && blank(after),
        core.len() > 0 ==> !is_white(core[0]) && !is_white(core.last()),
    ensures
        trimmed(before + core + after) == core,
    decreases before.len() + after.len(),
{
    let s = before + core + after;
    if before.len() > 0 {
        let rest = before.skip(1);
        assert(is_white(before[0]));
        assert forall|i: int| 0 <= i < rest.len() implies is_white(#[trigger] rest[i]) by {
            assert(is_white(before[i + 1]));
        }
        trimming_takes_the_ends(rest, core, after);
        assert(s.subrange(1, s.len() as int) =~= rest + core + after);
    } else if after.len() > 0 {
        assert(is_white(after[after.len() - 1]));
        if core.len() > 0 {
            let rest = after.drop_last();
            assert forall|i: int| 0 <= i < rest.len() implies is_white(#[trigger] rest[i]) by {
                assert(is_white(after[i]));
            }
            trimming_takes_the_ends(before, core, rest);
            assert(s[0] == core[0]);
            assert(s.drop_last() =~= before + core + rest);
        } else {
            let rest = after.skip(1);
            assert(is_white(after[0]));
            assert forall|i: int| 0 <= i < rest.len() implies is_white(#[trigger] rest[i]) by {
                assert(is_white(after[i + 1]));
            }
            trimming_takes_the_ends(before, core, rest);
            assert(s[0] == after[0]);
            assert(s.subrange(1, s.len() as int) =~= before + core + rest);
        }
    } else {
        assert(s =~= core);
    }
}

/// A machine-sized number is read from its text, whatever white space is around
/// it, however many zeros are before it, and with a plus sign or without one. A
/// larger number is not read.
pub proof fn numbers_are_read_from_their_text(
    n: nat,
    fill: nat,
    before: Seq<char>,
    after: Seq<char>,
)
    requires
        blank(before) && blank(after),
    ensures
        ({
            let text = zeros(fill) + decimal(n);
            let wanted = if n <= usize::MAX {
                Some(n)
            } else {
                None
            };
            &&& parsed(trimmed(before + text + after)) == wanted
            &&& parsed(trimmed(before + (seq!['+'] + text) + after)) == wanted
        }),
{
    let text = zeros(fill) + decimal(n);
    let signed = seq!['+'] + text;
    decimal_reads_back(n);
    zeros_read_as_nothing(fill, decimal(n));
    assert forall|i: int| 0 <= i < text.len() implies is_digit(#[trigger] text[i]) by {
        if i >= fill {
            assert(text[i] == decimal(n)[i - fill]);
        }
    }
    assert(is_digit(text[0]) && is_digit(text[text.len() - 1]));
    assert(signed[0] == '+' && signed.last() == text.last());
    trimming_takes_the_ends(before, text, after);
    trimming_takes_the_ends(before, signed, after);
    assert(signed.subrange(1, signed.len() as int) =~= text);
}

/// Text with anything but digits after its sign is no number, and neither is text
/// without a digit.
pub proof fn other_text_is_no_number(s: Seq<char>, i: int)
    ensures
        0 <= i < s.len() && !is_digit(s[i]) && !(i == 0 && s[i] == '+') ==> parsed(s) is None,
        s.len() == 0 || (s.len() == 1 && s[0] == '+') ==> parsed(s) is None,
{
    if 0 <= i < s.len() && !is_digit(s[i]) && !(i == 0 && s[i] == '+') {
        if s[0] == '+' {
            assert(s.subrange(1, s.len() as int)[i - 1] == s[i]);
        } else {
            assert(!all_digits(s));
        }
    }
}

} // verus!
