//! Which hidden layer of the student is held against which relation of the
//! teacher, and which terms a step's loss has.
use vstd::prelude::*;
use vstd::arithmetic::div_mod::{
    lemma_div_is_ordered, lemma_div_multiples_vanish, lemma_fundamental_div_mod,
};

verus! {

/// `pairs` indices spread evenly over `0 .. len`, both ends included, each
/// rounded down.
pub open spec fn spread(len: nat, pairs: nat) -> Seq<nat> {
    if pairs <= 1 || len <= 1 {
        Seq::new(pairs, |i: int| 0)
    } else {
        Seq::new(pairs, |i: int| (i as nat * (len - 1) as nat) / (pairs - 1) as nat)
    }
}

/// The pairs of student layer and teacher relation, of which there are as many as
/// the shorter side has entries.
pub open spec fn paired(hidden: nat, relations: nat) -> Seq<(nat, nat)> {
    let pairs = if relations < hidden {
        relations
    } else {
        hidden
    };
    if relations == 0 {
        Seq::empty()
    } else {
        Seq::new(pairs, |i: int| (spread(hidden, pairs)[i], spread(relations, pairs)[i]))
    }
}

proof fn spread_in_range(len: nat, pairs: nat, i: int)
    requires
        0 <= i < pairs,
        pairs > 1,
        len > 1,
    ensures
        spread(len, pairs)[i] <= len - 1,
{
    let (a, b): (int, int) = (len - 1, pairs - 1);
    assert(i * a <= b * a) by (nonlinear_arith)
        requires
            0 <= i <= b,
            a >= 0,
    ;
    lemma_div_is_ordered(i * a, b * a, b);
    lemma_div_multiples_vanish(a, b);
}

/// Every index of a spread is below the length that it is spread over.
pub proof fn spread_stays_in_range(len: nat, pairs: nat)
    requires
        len > 0,
    ensures
        forall|i: int|
            0 <= i < spread(len, pairs).len() ==> #[trigger] spread(len, pairs)[i] < len,
{
    assert forall|i: int| 0 <= i < spread(len, pairs).len() implies #[trigger] spread(
        len,
        pairs,
    )[i] < len by {
        if pairs > 1 && len > 1 {
            spread_in_range(len, pairs, i);
        }
    }
}

/// A spread begins at the first index and, where it has two entries or more, ends
/// at the last.
pub proof fn spread_spans_the_range(len: nat, pairs: nat)
    requires
        len > 0,
        pairs > 0,
    ensures
        spread(len, pairs)[0] == 0,
        pairs > 1 ==> spread(len, pairs).last() == len - 1,
{
    if pairs > 1 && len > 1 {
        let (a, b): (int, int) = (len - 1, pairs - 1);
        lemma_div_multiples_vanish(a, b);
        assert(b * a == a * b) by (nonlinear_arith);
        assert(0 * a == 0);
        assert(0int / b == 0) by (nonlinear_arith)
            requires
                b > 0,
        ;
    }
}

/// A spread goes up, and by at least one at every entry where there are no more
/// entries than indices.
pub proof fn spread_is_ordered(len: nat, pairs: nat, i: int, j: int)
    requires
        0 <= i < j < spread(len, pairs).len(),
    ensures
        spread(len, pairs)[i] <= spread(len, pairs)[j],
        pairs <= len ==> spread(len, pairs)[i] < spread(len, pairs)[j],
{
    if pairs > 1 && len > 1 {
        let (a, b): (int, int) = (len - 1, pairs - 1);
        assert(i * a <= j * a) by (nonlinear_arith)
            requires
                i <= j,
                a >= 0,
        ;
        lemma_div_is_ordered(i * a, j * a, b);
        if pairs <= len {
            let (p, q): (int, int) = ((i * a) / b, (j * a) / b);
            lemma_fundamental_div_mod(i * a, b);
            lemma_fundamental_div_mod(j * a, b);
            assert(i * a + b <= j * a) by (nonlinear_arith)
                requires
                    i + 1 <= j,
                    b <= a,
                    a >= 0,
            ;
            assert(p < q) by (nonlinear_arith)
                requires
                    i * a + b <= j * a,
                    i * a == b * p + (i * a) % b,
                    j * a == b * q + (j * a) % b,
                    0 <= (i * a) % b,
                    (j * a) % b < b,
                    b > 0,
            ;
        }
    }
}

/// `pairs` indices spread evenly over `0 .. len`.
pub fn linspace_idx(len: usize, pairs: usize) -> (indices: Vec<usize>)
    ensures
        indices@.len() == pairs,
        forall|i: int|
            0 <= i < indices@.len() ==> #[trigger] indices@[i] == spread(
                len as nat,
                pairs as nat,
            )[i],
{
    let mut indices: Vec<usize> = Vec::new();
    let ghost wanted = spread(len as nat, pairs as nat);
    let flat: bool = pairs <= 1 || len <= 1;
    let mut i: usize = 0;
    while i < pairs
        invariant
            i <= pairs,
            wanted == spread(len as nat, pairs as nat),
            wanted.len() == pairs,
            flat == (pairs <= 1 || len <= 1),
            indices@.len() == i,
            forall|k: int| 0 <= k < i ==> #[trigger] indices@[k] == wanted[k],
        decreases pairs - i,
    {
        if flat {
            indices.push(0);
        } else {
            proof {
                spread_in_range(len as nat, pairs as nat, i as int);
                let (x, a): (int, int) = (i as int, len - 1);
                assert(0 <= x * a <= 0xffff_ffff_ffff_ffff * 0xffff_ffff_ffff_ffff)
                    by (nonlinear_arith)
                    requires
                        0 <= x <= 0xffff_ffff_ffff_ffff,
                        0 <= a <= 0xffff_ffff_ffff_ffff,
                ;
            }
            let value: u128 = (i as u128 * (len - 1) as u128) / (pairs - 1) as u128;
            assert(value == wanted[i as int]);
            indices.push(value as usize);
        }
        i = i + 1;
    }
    indices
}

/// The pairs of student layer and teacher relation that a step's feature term
/// compares. A shard without relations has none, and then no such term.
pub fn feature_pairs(hidden: usize, relations: usize) -> (pairs: Vec<(usize, usize)>)
    requires
        hidden > 0,
    ensures
        pairs@.len() == paired(hidden as nat, relations as nat).len(),
        forall|i: int|
            0 <= i < pairs@.len() ==> {
                let pair = paired(hidden as nat, relations as nat)[i];
                &&& (#[trigger] pairs@[i]).0 == pair.0 && pairs@[i].1 == pair.1
                &&& pairs@[i].0 < hidden && pairs@[i].1 < relations
            },
{
    let mut pairs: Vec<(usize, usize)> = Vec::new();
    let ghost wanted = paired(hidden as nat, relations as nat);
    if relations > 0 {
        let count: usize = if relations < hidden {
            relations
        } else {
            hidden
        };
        let student: Vec<usize> = linspace_idx(hidden, count);
        let teacher: Vec<usize> = linspace_idx(relations, count);
        let mut i: usize = 0;
        while i < count
            invariant
                i <= count,
                hidden > 0 && relations > 0,
                count == (if relations < hidden {
                    relations
                } else {
                    hidden
                }),
                student@.len() == count && teacher@.len() == count,
                forall|k: int|
                    0 <= k < count ==> #[trigger] student@[k] == spread(
                        hidden as nat,
                        count as nat,
                    )[k],
                forall|k: int|
                    0 <= k < count ==> #[trigger] teacher@[k] == spread(
                        relations as nat,
                        count as nat,
                    )[k],
                wanted == paired(hidden as nat, relations as nat),
                pairs@.len() == i,
                forall|k: int|
                    0 <= k < i ==> (#[trigger] pairs@[k]).0 == wanted[k].0 && pairs@[k].1
                        == wanted[k].1 && pairs@[k].0 < hidden && pairs@[k].1 < relations,
            decreases count - i,
        {
            proof {
                spread_stays_in_range(hidden as nat, count as nat);
                spread_stays_in_range(relations as nat, count as nat);
                assert(student@[i as int] < hidden && teacher@[i as int] < relations);
            }
            pairs.push((student[i], teacher[i]));
            i = i + 1;
        }
    }
    pairs
}

/// Whether a step's loss has a temporal term: a single frame has no differences.
pub fn has_temporal_term(frames: usize) -> (yes: bool)
    ensures
        yes == (frames > 1),
{
    frames > 1
}

/// An entry of a spread is the index at its share of the way from the first to the
/// last, rounded down: `i` of `pairs - 1` steps of `len - 1` indices.
pub proof fn spreads_keep_their_share(len: nat, pairs: nat, i: int)
    requires
        0 <= i < pairs,
    ensures
        spread(len, pairs).len() == pairs,
        len <= 1 || pairs == 1 ==> spread(len, pairs)[i] == 0,
        len > 1 && pairs > 1 ==> spread(len, pairs)[i] * (pairs - 1) <= i * (len - 1) < (spread(
            len,
            pairs,
        )[i] + 1) * (pairs - 1),
{
    if len > 1 && pairs > 1 {
        let (a, b): (int, int) = (i * (len - 1), pairs - 1);
        let q = a / b;
        assert(a >= 0) by (nonlinear_arith)
            requires
                i >= 0,
                len - 1 >= 0,
                a == i * (len - 1),
        ;
        lemma_fundamental_div_mod(a, b);
        assert(q * b == b * q && (q + 1) * b == b * q + b) by (nonlinear_arith);
        assert(spread(len, pairs)[i] == q);
    }
}

/// Layers and relations are paired off one to one as far as the shorter side goes,
/// each side spread over its whole range: the first with the first, the last with
/// the last, and every pair at the same share of the way on both sides.
pub proof fn pairs_keep_step(hidden: nat, relations: nat, i: int)
    requires
        hidden > 0,
        0 <= i < paired(hidden, relations).len(),
    ensures
        ({
            let pairs = paired(hidden, relations);
            let last = pairs.len() - 1;
            &&& pairs.len() == (if relations < hidden {
                relations
            } else {
                hidden
            })
            &&& pairs[0] == (0nat, 0nat)
            &&& last > 0 ==> pairs[last] == ((hidden - 1) as nat, (relations - 1) as nat)
            &&& last > 0 ==> {
                &&& pairs[i].0 * last <= i * (hidden - 1) < (pairs[i].0 + 1) * last
                &&& pairs[i].1 * last <= i * (relations - 1) < (pairs[i].1 + 1) * last
            }
            &&& hidden <= relations ==> pairs[i].0 == i
            &&& relations <= hidden ==> pairs[i].1 == i
        }),
{
    let pairs = paired(hidden, relations).len();
    spreads_keep_their_share(hidden, pairs, i);
    spreads_keep_their_share(relations, pairs, i);
    spread_spans_the_range(hidden, pairs);
    spread_spans_the_range(relations, pairs);
    if pairs > 1 {
        let (n, x, y): (int, int, int) = (
            pairs - 1,
            spread(hidden, pairs)[i] as int,
            spread(relations, pairs)[i] as int,
        );
        assert(x * n <= i * n < (x + 1) * n ==> x == i) by (nonlinear_arith)
            requires
                n > 0,
        ;
        assert(y * n <= i * n < (y + 1) * n ==> y == i) by (nonlinear_arith)
            requires
                n > 0,
        ;
    }
}

/// A cache without relations pairs nothing, and any other pairs something.
pub proof fn no_relations_no_pairs(hidden: nat, relations: nat)
    requires
        hidden > 0,
    ensures
        paired(hidden, relations).len() == 0 <==> relations == 0,
{
}

} // verus!
