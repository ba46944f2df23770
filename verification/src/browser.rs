//! The model as a browser holds it: when it may generate, what a generation
//! draws, and the picture that comes out.
use vstd::prelude::*;
use crate::contract::{SpecError, StudentSpec};
use crate::rng::{
    after_draws, forms, normals, normals_are_counted, normals_come_in_pairs, normals_compose, step,
    step_is_injective, takes_draws, upper, Lcg,
};
use crate::text::{decimal, push_decimal};

verus! {

/// A model in a browser. Its weights are there once it is prepared.
#[derive(Clone, Copy, Debug)]
pub struct BrowserModel {
    pub spec: StudentSpec,
    pub prepared: bool,
}

/// What one generation draws and runs.
#[derive(Clone, Copy, Debug, PartialEq, Eq, Structural)]
pub struct Generation {
    pub channels: usize,
    pub side: usize,
    /// Cells of the one latent frame.
    pub tokens: usize,
    /// Tokens of the prompt.
    pub seq: usize,
    pub text_width: usize,
    /// Values drawn for the latent, then for the prompt.
    pub latent_values: usize,
    pub prompt_values: usize,
    pub steps: u32,
}

/// Why nothing is generated.
#[derive(Clone, Copy, Debug, PartialEq, Eq, Structural)]
pub enum GenerateError {
    NotPrepared,
    /// The frame has more cells than the spec has tokens.
    TooManyTokens { side: usize, tokens: usize, max_tokens: usize },
}

impl GenerateError {
    pub open spec fn text(self) -> Seq<char> {
        match self {
            GenerateError::NotPrepared => "call prepare() before generate()"@,
            GenerateError::TooManyTokens { side, tokens, max_tokens } => "side="@ + decimal(
                side as nat,
            ) + " yields "@ + decimal(tokens as nat) + " tokens > spec.max_tokens="@ + decimal(
                max_tokens as nat,
            ),
        }
    }

    /// The message for a user.
    pub fn message(&self) -> (text: String)
        ensures
            text@ == self.text(),
    {
        match self {
            GenerateError::NotPrepared => "call prepare() before generate()".to_owned(),
            GenerateError::TooManyTokens { side, tokens, max_tokens } => {
                let mut text: String = "side=".to_owned();
                push_decimal(&mut text, *side as u64);
                text.append(" yields ");
                push_decimal(&mut text, *tokens as u64);
                text.append(" tokens > spec.max_tokens=");
                push_decimal(&mut text, *max_tokens as u64);
                text
            },
        }
    }
}

impl BrowserModel {
    /// What generating a square frame comes to.
    pub open spec fn generation(self, steps: u32, side: usize) -> Result<
        Generation,
        GenerateError,
    > {
        let tokens = side * side;
        if !self.prepared {
            Err(GenerateError::NotPrepared)
        } else if tokens > self.spec.max_tokens {
            Err(
                GenerateError::TooManyTokens {
                    side,
                    tokens: tokens as usize,
                    max_tokens: self.spec.max_tokens,
                },
            )
        } else {
            Ok(
                Generation {
                    channels: self.spec.latent_channels,
                    side,
                    tokens: tokens as usize,
                    seq: 8,
                    text_width: self.spec.text_width,
                    latent_values: (self.spec.latent_channels * tokens) as usize,
                    prompt_values: (8 * self.spec.text_width) as usize,
                    steps: if steps == 0 {
                        1
                    } else {
                        steps
                    },
                },
            )
        }
    }

    /// A model of a spec that a student can be built from. It is not prepared.
    pub fn new(spec: StudentSpec) -> (model: Result<BrowserModel, SpecError>)
        requires
            spec.heads != 0,
        ensures
            model is Ok <==> spec.valid(),
            model matches Ok(m) ==> m.spec == spec && !m.prepared,
            model matches Err(e) ==> spec.objection() == Some(e),
    {
        if let Err(error) = spec.validate() {
            return Err(error);
        }
        Ok(BrowserModel { spec, prepared: false })
    }

    /// Notes that the weights are there.
    pub fn prepare(&mut self)
        ensures
            final(self).spec == old(self).spec,
            final(self).prepared,
    {
        self.prepared = true;
    }

    /// The name of what computes the model.
    pub fn backend(&self) -> (name: String)
        ensures
            name@ == "burn-wgpu"@,
    {
        "burn-wgpu".to_owned()
    }

    /// The approximate number of parameters.
    pub fn parameters(&self) -> (count: usize)
        requires
            self.spec.parameters_fit(),
        ensures
            count == self.spec.parameters(),
    {
        self.spec.approximate_parameters()
    }

    /// What generating a square frame comes to. A generation runs at least one
    /// step.
    pub fn generate(&self, steps: u32, side: usize) -> (generation: Result<
        Generation,
        GenerateError,
    >)
        requires
            self.prepared ==> side * side <= usize::MAX,
            self.prepared && side * side <= self.spec.max_tokens ==> self.spec.latent_channels * (
            side * side) <= usize::MAX && 8 * self.spec.text_width <= usize::MAX,
        ensures
            generation == self.generation(steps, side),
    {
        if !self.prepared {
            return Err(GenerateError::NotPrepared);
        }
        let tokens: usize = side * side;
        if tokens > self.spec.max_tokens {
            return Err(
                GenerateError::TooManyTokens { side, tokens, max_tokens: self.spec.max_tokens },
            );
        }
        Ok(
            Generation {
                channels: self.spec.latent_channels,
                side,
                tokens,
                seq: 8,
                text_width: self.spec.text_width,
                latent_values: self.spec.latent_channels * tokens,
                prompt_values: 8 * self.spec.text_width,
                steps: if steps == 0 {
                    1
                } else {
                    steps
                },
            },
        )
    }
}

impl Generation {
    /// The values that a generation begins with, drawn from the given seed: those of
    /// the latent, then those of the prompt. `form` makes a pair of normal values of
    /// two uniform draws.
    pub fn noise<F: Fn(u32, u32) -> (u32, u32)>(&self, seed: u32, form: &F) -> (values: (
        Vec<u32>,
        Vec<u32>,
    ))
        requires
            takes_draws(form),
        ensures
            values.0@.len() == self.latent_values,
            values.1@.len() == self.prompt_values,
            forall|pair: spec_fn(u32, u32) -> (u32, u32)| #[trigger]
                forms(form, pair) ==> (values.0@, values.1@) == self.drawn(pair, seed),
    {
        let mut rng: Lcg = Lcg::with_seed(seed);
        let latent: Vec<u32> = rng.vec(self.latent_values, form);
        let prompt: Vec<u32> = rng.vec(self.prompt_values, form);
        (latent, prompt)
    }

    /// The values that a generation draws from the given seed, where `pair` makes the
    /// values of two draws.
    pub open spec fn drawn(
        self,
        pair: spec_fn(u32, u32) -> (u32, u32),
        seed: u32,
    ) -> (Seq<u32>, Seq<u32>) {
        let (latent, between) = normals(
            pair,
            Lcg { state: seed, spare: None },
            self.latent_values as nat,
        );
        (latent, normals(pair, between, self.prompt_values as nat).0)
    }
}

/// Asking for no steps is asking for one.
pub proof fn no_steps_count_as_one(model: BrowserModel, side: usize)
    ensures
        model.generation(0, side) == model.generation(1, side),
{
}

/// A model generates as soon as it is prepared and the frame has no more cells
/// than the spec has tokens, whatever the number of steps. Without weights that is
/// what it says, however large the frame.
pub proof fn generation_is_refused_for_two_reasons(model: BrowserModel, steps: u32, side: usize)
    requires
        side * side <= usize::MAX,
    ensures
        model.generation(steps, side) is Ok <==> model.prepared && side * side
            <= model.spec.max_tokens,
        model.generation(steps, side) == Err::<Generation, GenerateError>(
            GenerateError::NotPrepared,
        ) <==> !model.prepared,
        model.generation(steps, side) matches Ok(g) ==> g.steps >= 1 && g.tokens == side * side,
{
}

/// One byte of the picture: red, green and blue from the first three channels, a
/// channel that is not there in the middle of its range, and no transparency.
pub open spec fn picture_byte(levels: Seq<u8>, channels: nat, tokens: nat, at: int) -> u8 {
    let (pixel, part) = (at / 4, at % 4);
    if part == 3 {
        255
    } else if part < channels {
        levels[part * tokens + pixel]
    } else {
        127
    }
}

/// The picture of a frame: four bytes for every cell.
pub open spec fn painted(levels: Seq<u8>, channels: nat, tokens: nat) -> Seq<u8> {
    Seq::new(4 * tokens, |at: int| picture_byte(levels, channels, tokens, at))
}

/// A picture has four bytes for every cell: one for each of the first three
/// channels, in the middle of its range where the frame has no such channel, and
/// one that makes the pixel opaque.
pub proof fn pictures_are_opaque(levels: Seq<u8>, channels: nat, tokens: nat, pixel: int)
    requires
        0 <= pixel < tokens,
    ensures
        painted(levels, channels, tokens).len() == 4 * tokens,
        painted(levels, channels, tokens)[4 * pixel + 3] == 255,
        forall|part: int|
            0 <= part < 3 ==> #[trigger] painted(levels, channels, tokens)[4 * pixel + part] == (
            if part < channels {
                levels[part * tokens + pixel]
            } else {
                127
            }),
{
    assert((4 * pixel + 3) / 4 == pixel && (4 * pixel + 3) % 4 == 3);
    assert forall|part: int| 0 <= part < 3 implies #[trigger] painted(levels, channels, tokens)[4
        * pixel + part] == (if part < channels {
        levels[part * tokens + pixel]
    } else {
        127
    }) by {
        assert((4 * pixel + part) / 4 == pixel && (4 * pixel + part) % 4 == part);
    }
}

/// The picture of a latent frame. `levels` are the channels of the frame one
/// after the other, each value as a level of brightness.
pub fn picture(levels: &[u8], channels: usize, tokens: usize) -> (rgba: Vec<u8>)
    requires
        4 * tokens <= usize::MAX,
        levels@.len() >= (if channels < 3 {
            channels as int
        } else {
            3
        }) * tokens,
    ensures
        rgba@ == painted(levels@, channels as nat, tokens as nat),
{
    let mut rgba: Vec<u8> = Vec::new();
    let mut pixel: usize = 0;
    while pixel < tokens
        invariant
            pixel <= tokens,
            4 * tokens <= usize::MAX,
            levels@.len() >= (if channels < 3 {
                channels as int
            } else {
                3
            }) * tokens,
            rgba@.len() == 4 * pixel,
            forall|at: int|
                0 <= at < 4 * pixel ==> #[trigger] rgba@[at] == picture_byte(
                    levels@,
                    channels as nat,
                    tokens as nat,
                    at,
                ),
        decreases tokens - pixel,
    {
        let mut part: usize = 0;
        while part < 3
            invariant
                pixel < tokens,
                part <= 3,
                4 * tokens <= usize::MAX,
                levels@.len() >= (if channels < 3 {
                    channels as int
                } else {
                    3
                }) * tokens,
                rgba@.len() == 4 * pixel + part,
                forall|at: int|
                    0 <= at < 4 * pixel + part ==> #[trigger] rgba@[at] == picture_byte(
                        levels@,
                        channels as nat,
                        tokens as nat,
                        at,
                    ),
            decreases 3 - part,
        {
            let level: u8 = if part < channels {
                proof {
                    let (p, n, t): (int, int, int) = (
                        part as int,
                        if channels < 3 {
                            channels as int
                        } else {
                            3
                        },
                        tokens as int,
                    );
                    assert(p * t + t <= n * t) by (nonlinear_arith)
                        requires
                            p + 1 <= n,
                            t >= 0,
                    ;
                    assert(p * t <= 2 * t) by (nonlinear_arith)
                        requires
                            p <= 2,
                            t >= 0,
                    ;
                }
                levels[part * tokens + pixel]
            } else {
                127
            };
            assert((4 * pixel + part) / 4 == pixel && (4 * pixel + part) % 4 == part);
            rgba.push(level);
            part = part + 1;
        }
        assert((4 * pixel + 3) / 4 == pixel && (4 * pixel + 3) % 4 == 3);
        rgba.push(255);
        pixel = pixel + 1;
    }
    assert(rgba@ =~= painted(levels@, channels as nat, tokens as nat));
    rgba
}

/// The values of the latent and, after them, those of the prompt are the first
/// normal values of the generator whose state is the seed itself, whatever the
/// seed.
pub proof fn generations_begin_with_their_seed(
    generation: Generation,
    pair: spec_fn(u32, u32) -> (u32, u32),
    seed: u32,
)
    ensures
        ({
            let (latent, prompt) = generation.drawn(pair, seed);
            &&& latent.len() == generation.latent_values
            &&& prompt.len() == generation.prompt_values
            &&& latent + prompt == normals(
                pair,
                Lcg { state: seed, spare: None },
                (generation.latent_values + generation.prompt_values) as nat,
            ).0
        }),
{
    let rng = Lcg { state: seed, spare: None };
    let (first, second) = (generation.latent_values as nat, generation.prompt_values as nat);
    normals_compose(pair, rng, first, second);
    normals_are_counted(pair, rng, first);
    normals_are_counted(pair, normals(pair, rng, first).1, second);
}

/// The first two values of a latent are made of the two draws that follow the
/// seed. Two seeds that differ are followed by states that differ, so that no two
/// generations are drawn from one stream.
pub proof fn seeds_do_not_coincide(
    generation: Generation,
    pair: spec_fn(u32, u32) -> (u32, u32),
    seed: u32,
    other: u32,
)
    requires
        generation.latent_values >= 2,
    ensures
        ({
            let made = pair(upper(step(seed)), upper(step(step(seed))));
            &&& generation.drawn(pair, seed).0[0] == made.0
            &&& generation.drawn(pair, seed).0[1] == made.1
        }),
        seed != other ==> step(seed) != step(other),
{
    normals_come_in_pairs(pair, seed, generation.latent_values as nat, 0);
    reveal_with_fuel(after_draws, 3);
    if step(seed) == step(other) {
        step_is_injective(seed, other);
    }
}

/// What a generation draws fills what it runs on: a value for every channel of
/// every cell of the square frame, and for every column of every token of the
/// prompt.
pub proof fn generations_fill_their_frame(
    model: BrowserModel,
    steps: u32,
    side: usize,
    generation: Generation,
)
    requires
        model.generation(steps, side) == Ok::<Generation, GenerateError>(generation),
        side * side <= usize::MAX,
        model.spec.latent_channels * (side * side) <= usize::MAX,
        8 * model.spec.text_width <= usize::MAX,
    ensures
        generation.side == side && generation.tokens == side * side,
        generation.channels == model.spec.latent_channels,
        generation.text_width == model.spec.text_width,
        generation.seq == 8,
        generation.latent_values == generation.channels * generation.tokens,
        generation.prompt_values == generation.seq * generation.text_width,
        steps > 0 ==> generation.steps == steps,
        steps == 0 ==> generation.steps == 1,
        generation.tokens <= model.spec.max_tokens,
{
}

/// A frame with too many cells is refused with its size and the limit; without
/// weights nothing else is said.
pub proof fn refusals_name_the_frame(model: BrowserModel, steps: u32, side: usize)
    requires
        side * side <= usize::MAX,
    ensures
        model.generation(steps, side) matches Err(
            GenerateError::TooManyTokens { side: s, tokens, max_tokens },
        ) ==> {
            &&& model.prepared
            &&& s == side && tokens == side * side && max_tokens == model.spec.max_tokens
            &&& tokens > max_tokens
        },
        model.prepared && side * side > model.spec.max_tokens ==> model.generation(
            steps,
            side,
        ) matches Err(GenerateError::TooManyTokens { .. }),
{
}

} // verus!
