//! Sampling from a trained student and scoring it against its teacher: which
//! prompt, which latent, how many steps, which shards, how the weights are read,
//! and the file that the latent is written to.
use vstd::prelude::*;
use crate::archive::{
    archive_bytes, archive_contents, contents_of, contents_to_be, count_elements, countable,
    end_fits, find, five_axes_multiply, header_limit, named_values, payload, product, read_archive, serialize, sized,
    ArchiveError, Contents, Element, NewTensor, RawTensor,
};
use crate::bytes::{single_bytes, singles, singles_len};
use crate::contract::{SpecError, StudentSpec};
use crate::shard::{decoded, decoding_fills_the_shape, floats, Sample};
use crate::synth::{singles_decode, synthetic_shards_hold_their_prompts, DrawsView, SynthPlan};
use crate::text::{decimal, listed, push_decimal, push_list};
use safetensors::tensor::SafeTensorError;

verus! {

/// What is wrong with a file as the carrier of a prompt.
pub enum PromptFault {
    /// It holds no prompt.
    Neither,
    /// The embedding is not as wide as the student's text input.
    Width { width: nat, text_width: nat },
    /// The element type is not decoded.
    Element(Seq<char>),
    /// The shape has no axis for the tokens.
    Rank(Seq<usize>),
}

/// Why no prompt was read.
#[derive(Debug)]
pub enum PromptError {
    /// The file is no archive.
    Archive(ArchiveError),
    Neither,
    Width { width: usize, text_width: usize },
    Element(String),
    Rank(Vec<usize>),
}

impl PromptError {
    /// The fault inside an archive that could be opened.
    pub open spec fn fault(self) -> Option<PromptFault> {
        match self {
            PromptError::Archive(_) => None,
            PromptError::Neither => Some(PromptFault::Neither),
            PromptError::Width { width, text_width } => Some(
                PromptFault::Width { width: width as nat, text_width: text_width as nat },
            ),
            PromptError::Element(dtype) => Some(PromptFault::Element(dtype@)),
            PromptError::Rank(shape) => Some(PromptFault::Rank(shape@)),
        }
    }

    /// The message for a user, about the file at `path`. An archive error carries
    /// its own text.
    pub fn message(&self, path: &str) -> (text: Option<String>)
        ensures
            text is None <==> self is Archive,
            text matches Some(t) ==> self.fault() matches Some(f) && t@ == f.text(path@),
    {
        match self {
            PromptError::Archive(_) => None,
            PromptError::Neither => {
                let mut text: String = path.to_owned();
                text.append(" has neither student_prompt_embeds nor prompt_embeds");
                Some(text)
            },
            PromptError::Width { width, text_width } => {
                let mut text: String = "prompt embedding width ".to_owned();
                push_decimal(&mut text, *width as u64);
                text.append(" != spec.text_width ");
                push_decimal(&mut text, *text_width as u64);
                text.append(" (wrong config for this cache?)");
                Some(text)
            },
            PromptError::Element(dtype) => {
                let mut text: String = "unsupported dtype ".to_owned();
                text.append(dtype.as_str());
                Some(text)
            },
            PromptError::Rank(shape) => {
                let mut text: String = "prompt embedding has no token axis in shape ".to_owned();
                push_list(&mut text, shape.as_slice());
                Some(text)
            },
        }
    }
}

impl PromptFault {
    pub open spec fn text(self, path: Seq<char>) -> Seq<char> {
        match self {
            PromptFault::Neither => path
                + " has neither student_prompt_embeds nor prompt_embeds"@,
            PromptFault::Width { width, text_width } => "prompt embedding width "@ + decimal(width)
                + " != spec.text_width "@ + decimal(text_width)
                + " (wrong config for this cache?)"@,
            PromptFault::Element(dtype) => "unsupported dtype "@ + dtype,
            PromptFault::Rank(shape) => "prompt embedding has no token axis in shape "@ + listed(
                shape,
            ),
        }
    }
}

/// The last size of a shape, or zero.
pub open spec fn last_size(shape: Seq<usize>) -> usize {
    if shape.len() == 0 {
        0
    } else {
        shape.last()
    }
}

/// The tensor that a prompt is read from: the student's own where there is one.
pub open spec fn carrier(contents: Contents) -> Option<Seq<char>> {
    if contents.contains_key("student_prompt_embeds"@) {
        Some("student_prompt_embeds"@)
    } else if contents.contains_key("prompt_embeds"@) {
        Some("prompt_embeds"@)
    } else {
        None
    }
}

/// The values of a prompt and its number of tokens, or the first fault.
pub open spec fn prompt_in(contents: Contents, text_width: usize) -> Result<
    (Seq<u32>, nat),
    PromptFault,
> {
    match carrier(contents) {
        None => Err(PromptFault::Neither),
        Some(name) => {
            let value = contents[name];
            let width = last_size(value.1);
            if width != text_width {
                Err(PromptFault::Width { width: width as nat, text_width: text_width as nat })
            } else {
                match decoded(value) {
                    None => Err(PromptFault::Element(value.0)),
                    Some(values) => if value.1.len() < 2 {
                        Err(PromptFault::Rank(value.1))
                    } else {
                        Ok((values, value.1[value.1.len() - 2] as nat))
                    },
                }
            }
        },
    }
}

/// The prompt among the tensors of an archive: its values and its number of
/// tokens.
pub fn find_prompt(tensors: &Vec<RawTensor>, text_width: usize) -> (prompt: Result<
    (Vec<u32>, usize),
    PromptError,
>)
    ensures
        prompt matches Ok(p) ==> prompt_in(contents_of(tensors@), text_width) == Ok::<
            (Seq<u32>, nat),
            PromptFault,
        >((p.0@, p.1 as nat)),
        prompt matches Err(e) ==> e.fault() matches Some(f) && prompt_in(
            contents_of(tensors@),
            text_width,
        ) == Err::<(Seq<u32>, nat), PromptFault>(f),
{
    let place: usize = match find(tensors, "student_prompt_embeds") {
        Some(place) => place,
        None => match find(tensors, "prompt_embeds") {
            Some(place) => place,
            None => {
                return Err(PromptError::Neither);
            },
        },
    };
    let tensor: &RawTensor = &tensors[place];
    let rank: usize = tensor.shape.len();
    let width: usize = if rank == 0 {
        0
    } else {
        tensor.shape[rank - 1]
    };
    if width != text_width {
        return Err(PromptError::Width { width, text_width });
    }
    let values: Vec<u32> = match floats(tensor) {
        Ok(values) => values,
        Err(_) => {
            return Err(PromptError::Element(tensor.dtype.clone()));
        },
    };
    if rank < 2 {
        let shape: Vec<usize> = tensor.shape.clone();
        assert(shape@ =~= tensor.shape@);
        return Err(PromptError::Rank(shape));
    }
    Ok((values, tensor.shape[rank - 2]))
}

/// Reads a prompt from the bytes of a file, such as a shard of a cache.
pub fn read_prompt(bytes: &[u8], text_width: usize) -> (prompt: Result<
    (Vec<u32>, usize),
    PromptError,
>)
    ensures
        prompt matches Err(PromptError::Archive(_)) <==> !end_fits(bytes@) || archive_contents(
            bytes@,
        ) is None,
        prompt matches Ok(p) ==> prompt_in(archive_contents(bytes@)->0, text_width) == Ok::<
            (Seq<u32>, nat),
            PromptFault,
        >((p.0@, p.1 as nat)),
        prompt matches Err(e) ==> e.fault() matches Some(f) ==> prompt_in(
            archive_contents(bytes@)->0,
            text_width,
        ) == Err::<(Seq<u32>, nat), PromptFault>(f),
{
    match read_archive(bytes) {
        Ok(tensors) => find_prompt(&tensors, text_width),
        Err(error) => Err(PromptError::Archive(error)),
    }
}

/// The prompt to draw where none is given: how the generator is seeded, how many
/// values it draws, and how many tokens they make.
#[derive(Clone, Copy, Debug, PartialEq, Eq, Structural)]
pub struct FallbackPrompt {
    pub seed: u32,
    pub values: usize,
    pub seq: usize,
}

/// The prompt to draw where none is given. Its seed differs from the seed of the
/// latent, so that the two are drawn from different streams.
pub fn fallback_prompt(spec: &StudentSpec, seed: u32) -> (prompt: FallbackPrompt)
    requires
        8 * spec.text_width <= usize::MAX,
    ensures
        prompt.seed == seed ^ 0x9e37_79b9u32,
        prompt.seed != seed,
        prompt.values == 8 * spec.text_width,
        prompt.seq == 8,
{
    assert(seed ^ 0x9e37_79b9u32 != seed) by (bit_vector);
    FallbackPrompt { seed: seed ^ 0x9e37_79b9, values: 8 * spec.text_width, seq: 8 }
}

/// A latent that can be sampled.
#[derive(Clone, Copy, Debug, PartialEq, Eq, Structural)]
pub struct SamplePlan {
    pub channels: usize,
    pub frames: usize,
    pub height: usize,
    pub width: usize,
    /// Values of the latent.
    pub cells: usize,
    /// Steps from noise to the latent.
    pub steps: usize,
}

/// Why a latent cannot be sampled.
#[derive(Clone, Copy, Debug, PartialEq, Eq, Structural)]
pub enum SampleError {
    Spec(SpecError),
    /// The latent does not divide into patches.
    Geometry { height: usize, width: usize, ph: usize, pw: usize },
}

impl SampleError {
    pub open spec fn text(self) -> Seq<char> {
        match self {
            SampleError::Spec(error) => error.text(),
            SampleError::Geometry { height, width, ph, pw } => "latent "@ + decimal(height as nat)
                + "x"@ + decimal(width as nat) + " not divisible by patch_size "@ + decimal(
                ph as nat,
            ) + "x"@ + decimal(pw as nat),
        }
    }

    /// The message for a user.
    pub fn message(&self) -> (text: String)
        ensures
            text@ == self.text(),
    {
        match self {
            SampleError::Spec(error) => error.message(),
            SampleError::Geometry { height, width, ph, pw } => {
                let mut text: String = "latent ".to_owned();
                push_decimal(&mut text, *height as u64);
                text.append("x");
                push_decimal(&mut text, *width as u64);
                text.append(" not divisible by patch_size ");
                push_decimal(&mut text, *ph as u64);
                text.append("x");
                push_decimal(&mut text, *pw as u64);
                text
            },
        }
    }
}

/// The first objection to a latent of the given size, if there is one.
pub open spec fn objection(spec: StudentSpec, height: usize, width: usize) -> Option<SampleError> {
    if let Some(error) = spec.objection() {
        Some(SampleError::Spec(error))
    } else if height % spec.patch_size[1] != 0 || width % spec.patch_size[2] != 0 {
        Some(
            SampleError::Geometry {
                height,
                width,
                ph: spec.patch_size[1],
                pw: spec.patch_size[2],
            },
        )
    } else {
        None
    }
}

/// The shape of the latent of a student.
pub open spec fn latent_shape(channels: usize, frames: usize, height: usize, width: usize) -> Seq<
    usize,
> {
    seq![1usize, channels, frames, height, width]
}

impl SamplePlan {
    pub open spec fn shape(self) -> Seq<usize> {
        latent_shape(self.channels, self.frames, self.height, self.width)
    }

    /// The values of the latent can be held in memory and written.
    pub open spec fn valid(self) -> bool {
        &&& self.cells == product(self.shape())
        &&& countable(self.shape(), Element::Single)
        &&& 4 * product(self.shape()) + header_limit() + 8 <= isize::MAX
        &&& self.steps >= 1
    }

    /// Plans the latent to be sampled; `None` where it is larger than memory.
    pub fn new(
        spec: &StudentSpec,
        frames: usize,
        height: usize,
        width: usize,
        steps: usize,
    ) -> (plan: Result<Option<SamplePlan>, SampleError>)
        requires
            spec.heads != 0,
        ensures
            match objection(*spec, height, width) {
                Some(error) => plan == Err::<Option<SamplePlan>, SampleError>(error),
                None => plan is Ok,
            },
            plan matches Ok(p) ==> {
                let shape = latent_shape(spec.latent_channels, frames, height, width);
                p is Some <==> countable(shape, Element::Single) && 4 * product(shape) + header_limit() + 8
                    <= isize::MAX
            },
            plan matches Ok(Some(p)) ==> p.valid() && p == (SamplePlan {
                channels: spec.latent_channels,
                frames,
                height,
                width,
                cells: p.cells,
                steps: if steps == 0 {
                    1
                } else {
                    steps
                },
            }),
    {
        if let Err(error) = spec.validate() {
            return Err(SampleError::Spec(error));
        }
        let (ph, pw): (usize, usize) = (spec.patch_size[1], spec.patch_size[2]);
        if height % ph != 0 || width % pw != 0 {
            return Err(SampleError::Geometry { height, width, ph, pw });
        }
        let shape: [usize; 5] = [1, spec.latent_channels, frames, height, width];
        assert(shape@ =~= latent_shape(spec.latent_channels, frames, height, width));
        let cells: usize = match count_elements(shape.as_slice(), Element::Single) {
            Some(cells) => cells,
            None => {
                return Ok(None);
            },
        };
        if 4 * cells as u128 + 100_000_008 > isize::MAX as u128 {
            return Ok(None);
        }
        Ok(
            Some(
                SamplePlan {
                    channels: spec.latent_channels,
                    frames,
                    height,
                    width,
                    cells,
                    steps: if steps == 0 {
                        1
                    } else {
                        steps
                    },
                },
            ),
        )
    }

    /// The bytes of the file that a sampled latent is written to.
    pub fn encode(&self, values: &[u32]) -> (written: Result<Vec<u8>, SafeTensorError>)
        requires
            self.valid(),
            values@.len() == self.cells,
        ensures
            written matches Ok(bytes) && end_fits(bytes@) && archive_contents(bytes@) == Some(
                map!["latents"@ => ("F32"@, self.shape(), singles(values@))],
            ) && archive_bytes(
                seq![("latents"@, ("F32"@, self.shape(), singles(values@)))],
            ) == Some(bytes@),
    {
        let mut tensors: Vec<NewTensor> = Vec::new();
        tensors.push(
            NewTensor {
                name: "latents".to_owned(),
                element: Element::Single,
                shape: vec![1, self.channels, self.frames, self.height, self.width],
                data: single_bytes(values),
            },
        );
        proof {
            reveal_strlit("latents");
            reveal_strlit("__metadata__");
            let one = tensors@[0];
            assert(one.shape@ =~= self.shape());
            singles_len(values@);
            assert("latents"@.len() != "__metadata__"@.len());
            assert(one.writable());
            assert(tensors@.drop_last() =~= Seq::<NewTensor>::empty());
            reveal_with_fuel(contents_to_be, 2);
            reveal_with_fuel(payload, 2);
            reveal_with_fuel(crate::archive::header_bound, 2);
            assert(contents_to_be(tensors@) =~= map!["latents"@ => ("F32"@, self.shape(), singles(
                values@,
            ))]);
            assert(named_values(tensors@) =~= seq![
                ("latents"@, ("F32"@, self.shape(), singles(values@))),
            ]);
        }
        serialize(&tensors)
    }
}

/// The recorder that a weights file was written with.
#[derive(Clone, Copy, Debug, PartialEq, Eq, Structural)]
pub enum WeightsFormat {
    Mpk,
    Bin,
}

/// The format of a weights file with the given extension; one without an
/// extension is binary.
pub open spec fn format_of(extension: Seq<char>) -> Option<WeightsFormat> {
    if extension == "mpk"@ {
        Some(WeightsFormat::Mpk)
    } else if extension == "bin"@ || extension == ""@ {
        Some(WeightsFormat::Bin)
    } else {
        None
    }
}

/// The format of a weights file with the given extension, or the message for an
/// extension that no format has.
pub fn weights_format(extension: &str) -> (format: Result<WeightsFormat, String>)
    ensures
        format matches Ok(f) ==> format_of(extension@) == Some(f),
        format matches Err(text) ==> format_of(extension@) is None && text@
            == "unknown weights format ."@ + extension@ + "; expected .bin or .mpk"@,
{
    let text: String = extension.to_owned();
    if text == "mpk".to_owned() {
        return Ok(WeightsFormat::Mpk);
    }
    if text == "bin".to_owned() || text == "".to_owned() {
        return Ok(WeightsFormat::Bin);
    }
    let mut message: String = "unknown weights format .".to_owned();
    message.append(extension);
    message.append("; expected .bin or .mpk");
    Err(message)
}

/// How many shards of a cache are scored: all of them where no limit is set.
pub fn scored_shards(limit: usize, shards: usize) -> (count: usize)
    ensures
        count == (if limit == 0 || limit > shards {
            shards
        } else {
            limit
        }),
{
    if limit == 0 || limit > shards {
        shards
    } else {
        limit
    }
}

/// The timestep that a shard is reported under: its first, or zero.
pub fn reported_timestep(sample: &Sample) -> (bits: u32)
    ensures
        bits == (if sample.timestep@.len() == 0 {
            0
        } else {
            sample.timestep@[0]
        }),
{
    if sample.timestep.len() == 0 {
        0
    } else {
        sample.timestep[0]
    }
}

/// A prompt is read as it was written: where the tensor that carries it holds the
/// little-endian bytes of a sequence of binary32 patterns, the prompt is that very
/// sequence, and has as many tokens as the axis before the last is long.
pub proof fn prompts_are_read_as_written(
    contents: Contents,
    text_width: usize,
    shape: Seq<usize>,
    values: Seq<u32>,
)
    requires
        shape.len() >= 2,
        shape[shape.len() - 1] == text_width,
        contents.contains_key("student_prompt_embeds"@) ==> contents["student_prompt_embeds"@] == (
            "F32"@,
            shape,
            singles(values),
        ),
        !contents.contains_key("student_prompt_embeds"@) ==> contents.contains_key(
            "prompt_embeds"@,
        ) && contents["prompt_embeds"@] == ("F32"@, shape, singles(values)),
    ensures
        prompt_in(contents, text_width) == Ok::<(Seq<u32>, nat), PromptFault>(
            (values, shape[shape.len() - 2] as nat),
        ),
{
    singles_decode(shape, values);
}

/// The prompt of a synthetic shard is the student's own: the values that were
/// drawn for it, in order.
pub proof fn synthetic_shards_carry_their_prompt(plan: SynthPlan, index: nat, draws: DrawsView)
    requires
        plan.fills(draws),
    ensures
        prompt_in(plan.contents(index, draws), plan.spec.text_width) == Ok::<
            (Seq<u32>, nat),
            PromptFault,
        >((draws.student_prompt, plan.request.seq as nat)),
{
    let contents = plan.contents(index, draws);
    synthetic_shards_hold_their_prompts(plan, index, draws);
    prompts_are_read_as_written(
        contents,
        plan.spec.text_width,
        plan.student_prompt_shape(),
        draws.student_prompt,
    );
}

/// Whatever the element type, a prompt that is read is what the whole tensor
/// decodes to, value by value, in rows as wide as the text input. It comes from
/// the student's own tensor where there is one, and from the teacher's only where
/// there is none.
pub proof fn prompts_are_whole_tensors(
    contents: Contents,
    text_width: usize,
    values: Seq<u32>,
    tokens: nat,
)
    requires
        prompt_in(contents, text_width) == Ok::<(Seq<u32>, nat), PromptFault>((values, tokens)),
    ensures
        ({
            let name = if contents.contains_key("student_prompt_embeds"@) {
                "student_prompt_embeds"@
            } else {
                "prompt_embeds"@
            };
            let (dtype, shape, data) = contents[name];
            &&& contents.contains_key(name)
            &&& decoded(contents[name]) == Some(values)
            &&& shape.len() >= 2
            &&& shape[shape.len() - 1] == text_width && shape[shape.len() - 2] == tokens
            &&& sized(contents[name]) ==> values.len() == product(shape)
        }),
{
    let name = if contents.contains_key("student_prompt_embeds"@) {
        "student_prompt_embeds"@
    } else {
        "prompt_embeds"@
    };
    if sized(contents[name]) {
        decoding_fills_the_shape(contents[name]);
    }
}

/// A prompt is read wherever a tensor that carries one has an axis for the tokens,
/// rows as wide as the text input, and an element type that is decoded; a fault is
/// true of the tensor.
pub proof fn prompt_faults_are_true(contents: Contents, text_width: usize)
    ensures
        ({
            let name = if contents.contains_key("student_prompt_embeds"@) {
                "student_prompt_embeds"@
            } else {
                "prompt_embeds"@
            };
            let (dtype, shape, data) = contents[name];
            let known = dtype == "F32"@ || dtype == "F16"@ || dtype == "BF16"@ || dtype == "I64"@;
            match prompt_in(contents, text_width) {
                Ok(_) => contents.contains_key(name) && known && shape.len() >= 2 && shape.last()
                    == text_width,
                Err(PromptFault::Neither) => !contents.contains_key("student_prompt_embeds"@)
                    && !contents.contains_key("prompt_embeds"@),
                Err(PromptFault::Width { width, text_width: wanted }) => {
                    &&& contents.contains_key(name)
                    &&& wanted == text_width && width != wanted
                    &&& shape.len() == 0 ==> width == 0
                    &&& shape.len() > 0 ==> width == shape.last()
                },
                Err(PromptFault::Element(named)) => contents.contains_key(name) && named == dtype
                    && !known,
                Err(PromptFault::Rank(named)) => contents.contains_key(name) && named == shape
                    && shape.len() < 2,
            }
        }),
{
}

/// A latent is refused where the spec is, and else exactly where its rows or its
/// columns do not fill whole patches.
pub proof fn latents_divide_into_patches(
    spec: StudentSpec,
    height: usize,
    width: usize,
    rows: int,
    columns: int,
)
    requires
        spec.valid(),
        rows * spec.patch_size[1] <= height < (rows + 1) * spec.patch_size[1],
        columns * spec.patch_size[2] <= width < (columns + 1) * spec.patch_size[2],
    ensures
        objection(spec, height, width) is None <==> height == rows * spec.patch_size[1] && width
            == columns * spec.patch_size[2],
        objection(spec, height, width) matches Some(SampleError::Geometry {
            height: h,
            width: w,
            ph,
            pw,
        }) ==> h == height && w == width && ph == spec.patch_size[1] && pw == spec.patch_size[2],
        objection(spec, height, width) matches Some(e) ==> e is Geometry,
{
    let (a, b): (int, int) = (spec.patch_size[1] as int, spec.patch_size[2] as int);
    let (h, w): (int, int) = (height as int, width as int);
    assert((rows + 1) * a == rows * a + a && (columns + 1) * b == columns * b + b)
        by (nonlinear_arith);
    vstd::arithmetic::div_mod::lemma_fundamental_div_mod_converse(h, a, rows, h - rows * a);
    vstd::arithmetic::div_mod::lemma_fundamental_div_mod_converse(w, b, columns, w - columns * b);
}

/// A plan holds a value for every channel of every cell of every frame.
pub proof fn plans_hold_every_cell(plan: SamplePlan)
    requires
        plan.valid(),
    ensures
        plan.cells == plan.channels * plan.frames * plan.height * plan.width,
        plan.shape() == seq![1usize, plan.channels, plan.frames, plan.height, plan.width],
{
    five_axes_multiply(plan.shape());
    assert(1 * plan.channels == plan.channels);
}

/// Two formats are known, by three extensions: none at all is the binary one.
pub proof fn formats_have_their_extensions(extension: Seq<char>)
    ensures
        format_of(extension) == Some(WeightsFormat::Mpk) <==> extension == "mpk"@,
        format_of(extension) == Some(WeightsFormat::Bin) <==> extension == "bin"@ || extension.len()
            == 0,
{
    reveal_strlit("mpk");
    reveal_strlit("bin");
    reveal_strlit("");
    assert("mpk"@[0] != "bin"@[0] && "mpk"@.len() == 3);
    if extension.len() == 0 {
        assert(extension =~= ""@);
    }
}

/// Where something is wrong with a prompt, its width is named first, then its
/// element type, then its rank.
pub proof fn prompt_faults_have_their_order(contents: Contents, text_width: usize)
    ensures
        ({
            let name = if contents.contains_key("student_prompt_embeds"@) {
                "student_prompt_embeds"@
            } else {
                "prompt_embeds"@
            };
            let (dtype, shape, data) = contents[name];
            let known = dtype == "F32"@ || dtype == "F16"@ || dtype == "BF16"@ || dtype == "I64"@;
            let width = if shape.len() == 0 {
                0
            } else {
                shape.last()
            };
            let verdict = prompt_in(contents, text_width);
            &&& !contents.contains_key(name) ==> verdict is Err && verdict->Err_0 is Neither
            &&& contents.contains_key(name) && width != text_width ==> verdict is Err
                && verdict->Err_0 is Width
            &&& contents.contains_key(name) && width == text_width && !known ==> verdict is Err
                && verdict->Err_0 is Element
            &&& contents.contains_key(name) && width == text_width && known ==> (verdict is Ok
                <==> shape.len() >= 2)
        }),
{
}

} // verus!
