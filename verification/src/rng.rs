//! The deterministic source behind every random tensor: a linear congruential
//! generator, from whose draws normal values are formed two at a time.
use vstd::prelude::*;

verus! {

/// The generator's next state.
pub open spec fn step(state: u32) -> u32 {
    ((state * 1_664_525 + 1_013_904_223) % 0x1_0000_0000) as u32
}

/// The 24 upper bits of a state: a fraction of two to the power of 24.
pub open spec fn upper(state: u32) -> u32 {
    state / 256
}

/// What a normal value is formed from.
#[derive(Clone, Copy, Debug, PartialEq, Eq, Structural)]
pub enum Draw {
    /// The value that was left over from the pair before, as a bit pattern.
    Spare(u32),
    /// Two fresh draws, from which a pair of values is to be formed.
    Pair(u32, u32),
}

/// The generator, and the second value of a pair that is not used yet.
#[derive(Clone, Copy, Debug, PartialEq, Eq)]
pub struct Lcg {
    pub state: u32,
    /// binary32 pattern.
    pub spare: Option<u32>,
}

impl Lcg {
    /// A generator that begins at `seed` as it is.
    pub fn with_seed(seed: u32) -> (rng: Self)
        ensures
            rng.state == seed,
            rng.spare is None,
    {
        Lcg { state: seed, spare: None }
    }

    /// A generator that begins at `seed`, or at one where that is zero.
    pub fn new(seed: u32) -> (rng: Self)
        ensures
            rng.state == (if seed == 0 {
                1
            } else {
                seed
            }),
            rng.spare is None,
    {
        Lcg {
            state: if seed == 0 {
                1
            } else {
                seed
            },
            spare: None,
        }
    }

    /// The next uniform draw, below two to the power of 24.
    pub fn next(&mut self) -> (draw: u32)
        ensures
            final(self).state == step(old(self).state),
            final(self).spare == old(self).spare,
            draw == upper(final(self).state),
            draw < 0x100_0000,
    {
        self.state = ((self.state as u64 * 1_664_525 + 1_013_904_223) % 0x1_0000_0000) as u32;
        self.state / 256
    }

    /// What the next normal value is formed from: the spare one, if there is one.
    pub fn draw(&mut self) -> (draw: Draw)
        ensures
            final(self).spare is None,
            match old(self).spare {
                Some(value) => draw == Draw::Spare(value) && final(self).state == old(
                    self,
                ).state,
                None => {
                    let first = step(old(self).state);
                    &&& draw == Draw::Pair(upper(first), upper(step(first)))
                    &&& final(self).state == step(first)
                },
            },
    {
        match self.spare {
            Some(value) => {
                self.spare = None;
                Draw::Spare(value)
            },
            None => {
                let u: u32 = self.next();
                let v: u32 = self.next();
                Draw::Pair(u, v)
            },
        }
    }

    /// Keeps the second value of a pair for the next time.
    pub fn keep(&mut self, value: u32)
        ensures
            *final(self) == (Lcg { spare: Some(value), ..*old(self) }),
    {
        self.spare = Some(value);
    }

    /// The next normal value. `form` makes a pair of values of two uniform draws;
    /// the second of them is kept for the next time.
    pub fn normal<F: Fn(u32, u32) -> (u32, u32)>(&mut self, form: &F) -> (value: u32)
        requires
            takes_draws(form),
        ensures
            forall|pair: spec_fn(u32, u32) -> (u32, u32)| #[trigger]
                forms(form, pair) ==> (value, *final(self)) == next_normal(pair, *old(self)),
    {
        match self.draw() {
            Draw::Spare(value) => value,
            Draw::Pair(u, v) => {
                let (first, second): (u32, u32) = form(u, v);
                self.keep(second);
                first
            },
        }
    }

    /// The next `n` normal values.
    pub fn vec<F: Fn(u32, u32) -> (u32, u32)>(&mut self, n: usize, form: &F) -> (values: Vec<u32>)
        requires
            takes_draws(form),
        ensures
            values@.len() == n,
            forall|pair: spec_fn(u32, u32) -> (u32, u32)| #[trigger]
                forms(form, pair) ==> (values@, *final(self)) == normals(
                    pair,
                    *old(self),
                    n as nat,
                ),
    {
        let mut values: Vec<u32> = Vec::new();
        while values.len() < n
            invariant
                values@.len() <= n,
                takes_draws(form),
                forall|pair: spec_fn(u32, u32) -> (u32, u32)| #[trigger]
                    forms(form, pair) ==> (values@, *self) == normals(
                        pair,
                        *old(self),
                        values@.len(),
                    ),
            decreases n - values.len(),
        {
            let ghost (early, before) = (values@, *self);
            let value: u32 = self.normal(form);
            values.push(value);
            proof {
                assert forall|pair: spec_fn(u32, u32) -> (u32, u32)| #[trigger]
                    forms(form, pair) implies (values@, *self) == normals(
                    pair,
                    *old(self),
                    values@.len(),
                ) by {
                    assert((early, before) == normals(pair, *old(self), early.len()));
                    assert((value, *self) == next_normal(pair, before));
                }
            }
        }
        values
    }
}

/// `form` takes any two draws.
pub open spec fn takes_draws<F: Fn(u32, u32) -> (u32, u32)>(form: &F) -> bool {
    forall|u: u32, v: u32|
        u < 0x100_0000 && v < 0x100_0000 ==> #[trigger] call_requires(form, (u, v))
}

/// Whatever `form` makes of two draws is what the function `pair` gives for them.
pub open spec fn forms<F: Fn(u32, u32) -> (u32, u32)>(
    form: &F,
    pair: spec_fn(u32, u32) -> (u32, u32),
) -> bool {
    forall|u: u32, v: u32, values: (u32, u32)| #[trigger]
        call_ensures(form, (u, v), values) ==> values == pair(u, v)
}

/// The next normal value, and the generator after it, where `pair` makes the
/// values of two draws.
pub open spec fn next_normal(pair: spec_fn(u32, u32) -> (u32, u32), rng: Lcg) -> (u32, Lcg) {
    match rng.spare {
        Some(value) => (value, Lcg { state: rng.state, spare: None }),
        None => {
            let first = step(rng.state);
            let second = step(first);
            let values = pair(upper(first), upper(second));
            (values.0, Lcg { state: second, spare: Some(values.1) })
        },
    }
}

/// The next `n` normal values, and the generator after them.
pub open spec fn normals(
    pair: spec_fn(u32, u32) -> (u32, u32),
    rng: Lcg,
    n: nat,
) -> (Seq<u32>, Lcg)
    decreases n,
{
    if n == 0 {
        (Seq::empty(), rng)
    } else {
        let (early, before) = normals(pair, rng, (n - 1) as nat);
        let (value, after) = next_normal(pair, before);
        (early.push(value), after)
    }
}

/// Normal values drawn in two parts are those drawn in one.
pub proof fn normals_compose(
    pair: spec_fn(u32, u32) -> (u32, u32),
    rng: Lcg,
    first: nat,
    second: nat,
)
    ensures
        ({
            let (early, between) = normals(pair, rng, first);
            let (late, end) = normals(pair, between, second);
            normals(pair, rng, first + second) == (early + late, end)
        }),
    decreases second,
{
    let (early, between) = normals(pair, rng, first);
    if second == 0 {
        assert(early + Seq::<u32>::empty() =~= early);
    } else {
        normals_compose(pair, rng, first, (second - 1) as nat);
        let (late, _) = normals(pair, between, second);
        let (shorter, _) = normals(pair, between, (second - 1) as nat);
        assert(early + late =~= (early + shorter).push(late.last()));
    }
}

/// The generator's state after `count` draws.
pub open spec fn after_draws(state: u32, count: nat) -> u32
    decreases count,
{
    if count == 0 {
        state
    } else {
        step(after_draws(state, (count - 1) as nat))
    }
}

/// Drawing in two parts is drawing in one: how a stream is cut up changes nothing
/// in it.
pub proof fn draws_compose(state: u32, first: nat, second: nat)
    ensures
        after_draws(after_draws(state, first), second) == after_draws(state, first + second),
    decreases second,
{
    if second > 0 {
        draws_compose(state, first, (second - 1) as nat);
    }
}

/// Two different states are followed by two different states, so the generator
/// never runs into a state by two ways.
pub proof fn step_is_injective(a: u32, b: u32)
    requires
        step(a) == step(b),
    ensures
        a == b,
{
    // 4276115653 is the inverse of the multiplier modulo two to the power of 32.
    let n = 0x1_0000_0000int;
    let (p, q): (int, int) = (a * 1_664_525 + 1_013_904_223, b * 1_664_525 + 1_013_904_223);
    let k = p / n - q / n;
    assert(p - q == n * k) by {
        vstd::arithmetic::div_mod::lemma_fundamental_div_mod(p, n);
        vstd::arithmetic::div_mod::lemma_fundamental_div_mod(q, n);
    }
    assert(1_664_525 * (a - b) == n * k);
    assert(4_276_115_653int * 1_664_525 == n * 1_657_219 + 1);
    assert((a - b) == n * (4_276_115_653 * k - 1_657_219 * (a - b))) by (nonlinear_arith)
        requires
            1_664_525 * (a - b) == n * k,
            4_276_115_653int * 1_664_525 == n * 1_657_219 + 1,
    ;
    let m = 4_276_115_653 * k - 1_657_219 * (a - b);
    assert(m == 0) by (nonlinear_arith)
        requires
            a - b == n * m,
            n == 0x1_0000_0000,
            -0x1_0000_0000 < a - b < 0x1_0000_0000,
    ;
}

/// The generator is the linear congruential one with multiplier 1664525 and
/// increment 1013904223, modulo two to the power of 32: neighbouring states are
/// followed by states that the multiplier keeps apart, and zero by the increment.
pub proof fn steps_are_affine(state: u32, other: u32)
    ensures
        step(0) == 1_013_904_223,
        (step(state) - step(other) - 1_664_525 * (state - other)) % 0x1_0000_0000 == 0,
{
    let n = 0x1_0000_0000int;
    let (p, q): (int, int) = (
        state * 1_664_525 + 1_013_904_223,
        other * 1_664_525 + 1_013_904_223,
    );
    vstd::arithmetic::div_mod::lemma_fundamental_div_mod(p, n);
    vstd::arithmetic::div_mod::lemma_fundamental_div_mod(q, n);
    let k = q / n - p / n;
    assert(p % n - q % n - (p - q) == k * n);
    vstd::arithmetic::div_mod::lemma_mod_multiples_basic(k, n);
}

/// A draw is the state without its lowest eight bits.
pub proof fn draws_are_the_upper_bits(state: u32)
    ensures
        upper(state) * 256 <= state < (upper(state) + 1) * 256,
        upper(state) < 0x100_0000,
{
}

/// Normal values come in pairs: of a generator without a spare value, every two
/// values are what `pair` makes of the next two draws, in order.
pub proof fn normals_come_in_pairs(
    pair: spec_fn(u32, u32) -> (u32, u32),
    state: u32,
    n: nat,
    k: int,
)
    requires
        0 <= k,
        2 * k + 1 < n,
    ensures
        ({
            let values = normals(pair, Lcg { state, spare: None }, n).0;
            let made = pair(
                upper(after_draws(state, (2 * k + 1) as nat)),
                upper(after_draws(state, (2 * k + 2) as nat)),
            );
            &&& values.len() == n
            &&& values[2 * k] == made.0
            &&& values[2 * k + 1] == made.1
        }),
    decreases n,
{
    let rng = Lcg { state, spare: None };
    if n == 2 * k + 2 {
        generator_after_pairs(pair, state, k as nat);
        let (early, before) = normals(pair, rng, (2 * k) as nat);
        let (first, between) = next_normal(pair, before);
        let (second, after) = next_normal(pair, between);
        assert(normals(pair, rng, (2 * k + 1) as nat) == (early.push(first), between));
        assert(normals(pair, rng, n) == (early.push(first).push(second), after));
        normals_are_counted(pair, rng, (2 * k) as nat);
    } else {
        normals_come_in_pairs(pair, state, (n - 1) as nat, k);
        normals_are_counted(pair, rng, (n - 1) as nat);
    }
}

proof fn generator_after_pairs(pair: spec_fn(u32, u32) -> (u32, u32), state: u32, k: nat)
    ensures
        normals(pair, Lcg { state, spare: None }, 2 * k).1 == (Lcg {
            state: after_draws(state, 2 * k),
            spare: None,
        }),
        step(after_draws(state, 2 * k)) == after_draws(state, 2 * k + 1),
        step(step(after_draws(state, 2 * k))) == after_draws(state, 2 * k + 2),
    decreases k,
{
    assert(after_draws(state, 2 * k + 1) == step(after_draws(state, 2 * k)));
    assert(after_draws(state, 2 * k + 2) == step(after_draws(state, 2 * k + 1)));
    if k > 0 {
        generator_after_pairs(pair, state, (k - 1) as nat);
        let rng = Lcg { state, spare: None };
        let (early, before) = normals(pair, rng, (2 * k - 2) as nat);
        let (first, between) = next_normal(pair, before);
        let (second, after) = next_normal(pair, between);
        assert(normals(pair, rng, (2 * k - 1) as nat) == (early.push(first), between));
        assert(normals(pair, rng, 2 * k) == (early.push(first).push(second), after));
    } else {
        assert(normals(pair, Lcg { state, spare: None }, 0).1 == Lcg { state, spare: None });
    }
}

/// As many values are drawn as are asked for.
pub proof fn normals_are_counted(pair: spec_fn(u32, u32) -> (u32, u32), rng: Lcg, n: nat)
    ensures
        normals(pair, rng, n).0.len() == n,
    decreases n,
{
    if n > 0 {
        normals_are_counted(pair, rng, (n - 1) as nat);
    }
}

/// A spare value is the next one, is used once, and draws nothing.
pub proof fn spare_values_come_first(
    pair: spec_fn(u32, u32) -> (u32, u32),
    state: u32,
    value: u32,
    n: nat,
)
    requires
        n > 0,
    ensures
        normals(pair, Lcg { state, spare: Some(value) }, n).0 == seq![value] + normals(
            pair,
            Lcg { state, spare: None },
            (n - 1) as nat,
        ).0,
{
    let rng = Lcg { state, spare: Some(value) };
    normals_compose(pair, rng, 1, (n - 1) as nat);
    reveal_with_fuel(normals, 2);
    assert(normals(pair, rng, 1) == (Seq::<u32>::empty().push(value), Lcg { state, spare: None }));
    assert(Seq::<u32>::empty().push(value) =~= seq![value]);
}

} // verus!
