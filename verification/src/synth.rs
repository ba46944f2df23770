//! Synthetic teacher caches: random tensors in shards that meet the contract, so
//! that everything after the teacher can be run without one.
use vstd::prelude::*;
use crate::archive::{
    archive_bytes, archive_contents, contents_to_be, count_elements, countable, distinct_names,
    header_bound, header_limit, named_values, payload, product, serialize, Contents, Element,
    NewTensor, TensorValue,
};
use crate::bytes::{
    half_bytes, halves, halves_len, halves_read_back, le_bytes, le_bytes_read_back, push_le,
    ranges, single_bytes, singles, singles_len, singles_read_back,
};
use crate::contract::{SpecError, StudentSpec, TeacherCacheManifest, TensorShape};
use crate::ieee::{from_integer, widened_half};
use crate::rng::{forms, normals, normals_are_counted, normals_compose, takes_draws, Lcg};
use crate::shard::{
    decoded, first_missing, group, is_shard, loaded, relation_name, relation_tensor, relations,
    Buffer, Fault, SampleView,
};
use crate::text::{
    decimal, decimal_is_injective, number, padded, padded_is_injective, padded_reads_back,
    push_decimal, push_padded,
};
use safetensors::tensor::SafeTensorError;

verus! {

/// What a synthetic cache is asked to hold.
#[derive(Clone, Copy, Debug, PartialEq, Eq)]
pub struct SynthRequest {
    pub clips: usize,
    pub frames: usize,
    pub height: usize,
    pub width: usize,
    /// Tokens of a prompt.
    pub seq: usize,
    pub teacher_text_width: usize,
    pub relation_layers: usize,
    /// Independent draws of noise and timestep for every clip.
    pub draws_per_clip: usize,
}

/// Why a synthetic cache is refused.
#[derive(Clone, Copy, Debug, PartialEq, Eq)]
pub enum SynthError {
    Spec(SpecError),
    /// The geometry does not divide into patches.
    Geometry { frames: usize, height: usize, width: usize, pt: usize, ph: usize, pw: usize },
    /// More latent cells than the spec has tokens for.
    Budget { cells: usize, max_tokens: usize },
    NoClips,
    NoDraws,
}

impl SynthError {
    pub open spec fn text(self) -> Seq<char> {
        match self {
            SynthError::Spec(error) => error.text(),
            SynthError::Geometry { frames, height, width, pt, ph, pw } => "cache geometry "@
                + crossed(frames, height, width) + " not divisible by patch_size "@ + crossed(
                pt,
                ph,
                pw,
            ),
            SynthError::Budget { cells, max_tokens } => decimal(cells as nat)
                + " latent cells exceed spec.max_tokens="@ + decimal(max_tokens as nat),
            SynthError::NoClips => "need at least one clip"@,
            SynthError::NoDraws => "need at least one draw per clip"@,
        }
    }

    /// The message for a user.
    pub fn message(&self) -> (text: String)
        ensures
            text@ == self.text(),
    {
        match self {
            SynthError::Spec(error) => error.message(),
            SynthError::Geometry { frames, height, width, pt, ph, pw } => {
                let mut text: String = "cache geometry ".to_owned();
                push_crossed(&mut text, *frames, *height, *width);
                text.append(" not divisible by patch_size ");
                push_crossed(&mut text, *pt, *ph, *pw);
                text
            },
            SynthError::Budget { cells, max_tokens } => {
                let mut text: String = "".to_owned();
                proof {
                    reveal_strlit("");
                    assert(text@ =~= Seq::<char>::empty());
                }
                push_decimal(&mut text, *cells as u64);
                text.append(" latent cells exceed spec.max_tokens=");
                push_decimal(&mut text, *max_tokens as u64);
                assert(text@ =~= self.text());
                text
            },
            SynthError::NoClips => "need at least one clip".to_owned(),
            SynthError::NoDraws => "need at least one draw per clip".to_owned(),
        }
    }
}

/// Three sizes with a cross between them.
pub open spec fn crossed(a: usize, b: usize, c: usize) -> Seq<char> {
    decimal(a as nat) + "x"@ + decimal(b as nat) + "x"@ + decimal(c as nat)
}

fn push_crossed(out: &mut String, a: usize, b: usize, c: usize)
    ensures
        final(out)@ == old(out)@ + crossed(a, b, c),
{
    let ghost before = out@;
    push_decimal(out, a as u64);
    out.append("x");
    push_decimal(out, b as u64);
    out.append("x");
    push_decimal(out, c as u64);
    assert(out@ =~= before + crossed(a, b, c));
}

/// The latent geometry divides into patches.
pub open spec fn even(spec: StudentSpec, request: SynthRequest) -> bool {
    &&& request.frames % spec.patch_size[0] == 0
    &&& request.height % spec.patch_size[1] == 0
    &&& request.width % spec.patch_size[2] == 0
}

/// Latent cells of one channel.
pub open spec fn cells(request: SynthRequest) -> nat {
    request.frames as nat * request.height as nat * request.width as nat
}

/// Tokens that the student attends over.
pub open spec fn tokens(spec: StudentSpec, request: SynthRequest) -> nat {
    (request.frames / spec.patch_size[0]) as nat * (request.height / spec.patch_size[1]) as nat * (
    request.width / spec.patch_size[2]) as nat
}

/// The first objection to a request, if there is one.
pub open spec fn objection(spec: StudentSpec, request: SynthRequest) -> Option<SynthError> {
    if let Some(error) = spec.objection() {
        Some(SynthError::Spec(error))
    } else if !even(spec, request) {
        Some(
            SynthError::Geometry {
                frames: request.frames,
                height: request.height,
                width: request.width,
                pt: spec.patch_size[0],
                ph: spec.patch_size[1],
                pw: spec.patch_size[2],
            },
        )
    } else if cells(request) > spec.max_tokens {
        Some(SynthError::Budget { cells: cells(request) as usize, max_tokens: spec.max_tokens })
    } else if request.clips == 0 {
        Some(SynthError::NoClips)
    } else if request.draws_per_clip == 0 {
        Some(SynthError::NoDraws)
    } else {
        None
    }
}

/// A synthetic cache that can be drawn and written.
#[derive(Clone, Copy, Debug, PartialEq, Eq)]
pub struct SynthPlan {
    pub spec: StudentSpec,
    pub request: SynthRequest,
    pub cells: usize,
    pub tokens: usize,
}

impl SynthPlan {
    pub open spec fn valid(self) -> bool {
        &&& self.spec.heads != 0
        &&& objection(self.spec, self.request) is None
        &&& self.cells == cells(self.request)
        &&& self.tokens == tokens(self.spec, self.request)
    }

    /// Plans a synthetic cache, or says what is wrong with the request.
    pub fn new(spec: &StudentSpec, request: SynthRequest) -> (plan: Result<SynthPlan, SynthError>)
        requires
            spec.heads != 0,
            spec.valid() && even(*spec, request) ==> request.frames * request.height <= usize::MAX
                && cells(request) <= usize::MAX,
        ensures
            match objection(*spec, request) {
                Some(error) => plan == Err::<SynthPlan, SynthError>(error),
                None => plan is Ok,
            },
            plan matches Ok(p) ==> p.valid() && p.spec == *spec && p.request == request,
    {
        if let Err(error) = spec.validate() {
            return Err(SynthError::Spec(error));
        }
        let (pt, ph, pw): (usize, usize, usize) = (
            spec.patch_size[0],
            spec.patch_size[1],
            spec.patch_size[2],
        );
        if request.frames % pt != 0 || request.height % ph != 0 || request.width % pw != 0 {
            return Err(
                SynthError::Geometry {
                    frames: request.frames,
                    height: request.height,
                    width: request.width,
                    pt,
                    ph,
                    pw,
                },
            );
        }
        let cells: usize = request.frames * request.height * request.width;
        if cells > spec.max_tokens {
            return Err(SynthError::Budget { cells, max_tokens: spec.max_tokens });
        }
        if request.clips == 0 {
            return Err(SynthError::NoClips);
        }
        if request.draws_per_clip == 0 {
            return Err(SynthError::NoDraws);
        }
        let (rows, cols): (usize, usize) = (request.height / ph, request.width / pw);
        proof {
            let (f, h, w): (int, int, int) = (
                request.frames as int,
                request.height as int,
                request.width as int,
            );
            assert(rows <= h && cols <= w) by (nonlinear_arith)
                requires
                    rows == h / ph as int,
                    cols == w / pw as int,
                    ph > 0,
                    pw > 0,
                    h >= 0,
                    w >= 0,
            ;
            assert(f * rows <= f * h) by (nonlinear_arith)
                requires
                    f >= 0,
                    rows <= h,
            ;
            assert((f * rows) * cols <= (f * h) * w) by (nonlinear_arith)
                requires
                    0 <= f * rows <= f * h,
                    0 <= cols <= w,
            ;
            assert(f / 1 == f);
        }
        let tokens: usize = (request.frames / pt) * rows * cols;
        Ok(SynthPlan { spec: *spec, request, cells, tokens })
    }
}

/// The random values of one shard: binary32 patterns, and binary16 patterns for
/// the relations.
#[derive(Clone, Debug)]
pub struct ShardDraws {
    pub noisy: Vec<u32>,
    pub prompt: Vec<u32>,
    pub student_prompt: Vec<u32>,
    pub teacher_pred: Vec<u32>,
    pub relations: Vec<Vec<u16>>,
}

/// The random values of one shard.
#[verifier::ext_equal]
pub struct DrawsView {
    pub noisy: Seq<u32>,
    pub prompt: Seq<u32>,
    pub student_prompt: Seq<u32>,
    pub teacher_pred: Seq<u32>,
    pub relations: Seq<Seq<u16>>,
}

impl View for ShardDraws {
    type V = DrawsView;

    open spec fn view(&self) -> DrawsView {
        DrawsView {
            noisy: self.noisy@,
            prompt: self.prompt@,
            student_prompt: self.student_prompt@,
            teacher_pred: self.teacher_pred@,
            relations: self.relations@.map_values(|layer: Vec<u16>| layer@),
        }
    }
}

/// The timestep of the shard with the given number.
pub open spec fn timestep(index: nat) -> nat {
    (index * 137) % 1000
}

/// A named tensor.
pub type Entry = (Seq<char>, TensorValue);

impl SynthPlan {
    pub open spec fn latent_shape(self) -> Seq<usize> {
        seq![
            1usize,
            self.spec.latent_channels,
            self.request.frames,
            self.request.height,
            self.request.width,
        ]
    }

    pub open spec fn prompt_shape(self) -> Seq<usize> {
        seq![1usize, self.request.seq, self.request.teacher_text_width]
    }

    pub open spec fn student_prompt_shape(self) -> Seq<usize> {
        seq![1usize, self.request.seq, self.spec.text_width]
    }

    pub open spec fn relation_shape(self) -> Seq<usize> {
        seq![1usize, self.tokens, self.tokens]
    }

    /// Bytes of the tensors of one shard.
    pub open spec fn shard_payload(self) -> nat {
        8 * product(self.latent_shape()) + 8 + 4 * product(self.prompt_shape()) + 4 * product(
            self.student_prompt_shape(),
        ) + self.request.relation_layers as nat * (2 * product(self.relation_shape()))
    }

    /// A shard can be held in memory and written.
    pub open spec fn sizes_fit(self) -> bool {
        &&& countable(self.latent_shape(), Element::Single)
        &&& countable(self.prompt_shape(), Element::Single)
        &&& countable(self.student_prompt_shape(), Element::Single)
        &&& countable(self.relation_shape(), Element::Half)
        &&& self.shard_payload() + header_limit() + 8 <= isize::MAX
    }

    /// As many values as the tensors of a shard hold.
    pub open spec fn fills(self, draws: DrawsView) -> bool {
        &&& draws.noisy.len() == product(self.latent_shape())
        &&& draws.prompt.len() == product(self.prompt_shape())
        &&& draws.student_prompt.len() == product(self.student_prompt_shape())
        &&& draws.teacher_pred.len() == product(self.latent_shape())
        &&& draws.relations.len() == self.request.relation_layers
        &&& forall|k: int|
            0 <= k < draws.relations.len() ==> (#[trigger] draws.relations[k]).len() == product(
                self.relation_shape(),
            )
    }

    /// The `i`-th tensor of a shard.
    pub open spec fn entry(self, index: nat, draws: DrawsView, i: int) -> Entry {
        if i == 0 {
            ("noisy_latents"@, ("F32"@, self.latent_shape(), singles(draws.noisy)))
        } else if i == 1 {
            ("timestep"@, ("I64"@, seq![1usize], le_bytes(timestep(index), 8)))
        } else if i == 2 {
            ("prompt_embeds"@, ("F32"@, self.prompt_shape(), singles(draws.prompt)))
        } else if i == 3 {
            (
                "student_prompt_embeds"@,
                ("F32"@, self.student_prompt_shape(), singles(draws.student_prompt)),
            )
        } else if i == 4 {
            ("teacher_noise_pred"@, ("F32"@, self.latent_shape(), singles(draws.teacher_pred)))
        } else {
            (
                relation_name((i - 5) as usize),
                ("F16"@, self.relation_shape(), halves(draws.relations[i - 5])),
            )
        }
    }

    /// Tensors of one shard.
    pub open spec fn entries(self) -> nat {
        5 + self.request.relation_layers as nat
    }

    /// The first `count` tensors of a shard, by name.
    pub open spec fn first_entries(self, index: nat, draws: DrawsView, count: nat) -> Contents
        decreases count,
    {
        if count == 0 {
            Map::empty()
        } else {
            let last = self.entry(index, draws, count - 1);
            self.first_entries(index, draws, (count - 1) as nat).insert(last.0, last.1)
        }
    }

    /// The tensors of a shard, by name.
    pub open spec fn contents(self, index: nat, draws: DrawsView) -> Contents {
        self.first_entries(index, draws, self.entries())
    }

    /// The tensors of a shard, in the order in which they are written.
    pub open spec fn listing(self, index: nat, draws: DrawsView) -> Seq<Entry> {
        Seq::new(self.entries(), |i: int| self.entry(index, draws, i))
    }

    /// What a shard decodes to.
    pub open spec fn sample(self, index: nat, draws: DrawsView) -> SampleView {
        SampleView {
            noisy: (draws.noisy, self.latent_shape()),
            timestep: seq![from_integer(timestep(index) as int) as u32],
            prompt: (draws.prompt, self.prompt_shape()),
            student_prompt: Some((draws.student_prompt, self.student_prompt_shape())),
            teacher_pred: (draws.teacher_pred, self.latent_shape()),
            relations: Seq::new(
                self.request.relation_layers as nat,
                |k: int| (widened_all(draws.relations[k]), self.relation_shape()),
            ),
        }
    }

    /// The relation layers that a manifest lists.
    pub open spec fn layers(self) -> Seq<usize> {
        Seq::new(self.request.relation_layers as nat, |k: int| k as usize)
    }
}

/// binary16 patterns as binary32 patterns.
pub open spec fn widened_all(halves: Seq<u16>) -> Seq<u32> {
    Seq::new(halves.len(), |k: int| widened_half(halves[k]) as u32)
}

/// `narrow` takes any binary32 pattern.
pub open spec fn takes_all<N: Fn(u32) -> u16>(narrow: &N) -> bool {
    forall|value: u32| #[trigger] call_requires(narrow, (value,))
}

/// Whatever `narrow` makes of a pattern is what the function `half` gives for it.
pub open spec fn narrows<N: Fn(u32) -> u16>(narrow: &N, half: spec_fn(u32) -> u16) -> bool {
    forall|value: u32, out: u16| #[trigger]
        call_ensures(narrow, (value,), out) ==> out == half(value)
}

fn narrow_all<N: Fn(u32) -> u16>(values: &Vec<u32>, narrow: &N) -> (narrowed: Vec<u16>)
    requires
        takes_all(narrow),
    ensures
        narrowed@.len() == values@.len(),
        forall|half: spec_fn(u32) -> u16| #[trigger]
            narrows(narrow, half) ==> narrowed@ == values@.map_values(half),
{
    let mut narrowed: Vec<u16> = Vec::new();
    while narrowed.len() < values.len()
        invariant
            narrowed@.len() <= values@.len(),
            takes_all(narrow),
            forall|half: spec_fn(u32) -> u16, k: int|
                #![trigger narrows(narrow, half), narrowed@[k]]
                narrows(narrow, half) && 0 <= k < narrowed@.len() ==> narrowed@[k] == half(
                    values@[k],
                ),
        decreases values.len() - narrowed.len(),
    {
        let value: u16 = narrow(values[narrowed.len()]);
        narrowed.push(value);
    }
    assert forall|half: spec_fn(u32) -> u16| #[trigger]
        narrows(narrow, half) implies narrowed@ == values@.map_values(half) by {
        assert(narrowed@ =~= values@.map_values(half));
    }
    narrowed
}

/// The relations of `count` layers of `size` values each, and the generator after
/// them. `pair` makes the values of two draws, `half` narrows one.
pub open spec fn drawn_relations(
    pair: spec_fn(u32, u32) -> (u32, u32),
    half: spec_fn(u32) -> u16,
    rng: Lcg,
    size: nat,
    count: nat,
) -> (Seq<Seq<u16>>, Lcg)
    decreases count,
{
    if count == 0 {
        (Seq::empty(), rng)
    } else {
        let (early, before) = drawn_relations(pair, half, rng, size, (count - 1) as nat);
        let (values, after) = normals(pair, before, size);
        (early.push(values.map_values(half)), after)
    }
}

impl SynthPlan {
    /// The values of the shard for which the generator stands ready, and the
    /// generator after them.
    pub open spec fn drawn(
        self,
        pair: spec_fn(u32, u32) -> (u32, u32),
        half: spec_fn(u32) -> u16,
        rng: Lcg,
    ) -> (DrawsView, Lcg) {
        let (noisy, a) = normals(pair, rng, product(self.latent_shape()));
        let (prompt, b) = normals(pair, a, product(self.prompt_shape()));
        let (student_prompt, c) = normals(pair, b, product(self.student_prompt_shape()));
        let (teacher_pred, d) = normals(pair, c, product(self.latent_shape()));
        let (relations, end) = drawn_relations(
            pair,
            half,
            d,
            product(self.relation_shape()),
            self.request.relation_layers as nat,
        );
        (DrawsView { noisy, prompt, student_prompt, teacher_pred, relations }, end)
    }

    /// The generator before the shard with the given number, in a cache that was
    /// begun with `rng`.
    pub open spec fn before_shard(
        self,
        pair: spec_fn(u32, u32) -> (u32, u32),
        half: spec_fn(u32) -> u16,
        rng: Lcg,
        index: nat,
    ) -> Lcg
        decreases index,
    {
        if index == 0 {
            rng
        } else {
            self.drawn(pair, half, self.before_shard(pair, half, rng, (index - 1) as nat)).1
        }
    }

    /// The file of the shard with the given number, in a cache that was begun with
    /// `rng`.
    pub open spec fn file(
        self,
        pair: spec_fn(u32, u32) -> (u32, u32),
        half: spec_fn(u32) -> u16,
        rng: Lcg,
        index: nat,
    ) -> Option<Seq<u8>> {
        archive_bytes(
            self.listing(
                index,
                self.drawn(pair, half, self.before_shard(pair, half, rng, index)).0,
            ),
        )
    }
}

/// `files` were written by taking a generator through shard after shard: it stood
/// at `states[i]` before the `i`-th of them and at `states[i + 1]` after it.
pub open spec fn written_in_turn(
    plan: SynthPlan,
    pair: spec_fn(u32, u32) -> (u32, u32),
    half: spec_fn(u32) -> u16,
    files: Seq<Seq<u8>>,
    states: Seq<Lcg>,
) -> bool {
    &&& states.len() == files.len() + 1
    &&& forall|i: int|
        0 <= i < files.len() ==> {
            let (draws, after) = plan.drawn(pair, half, states[i]);
            &&& archive_bytes(plan.listing(i as nat, draws)) == Some(#[trigger] files[i])
            &&& states[i + 1] == after
        }
}

proof fn files_are_determined(
    plan: SynthPlan,
    pair: spec_fn(u32, u32) -> (u32, u32),
    half: spec_fn(u32) -> u16,
    files: Seq<Seq<u8>>,
    states: Seq<Lcg>,
    i: int,
)
    requires
        written_in_turn(plan, pair, half, files, states),
        0 <= i <= files.len(),
    ensures
        states[i] == plan.before_shard(pair, half, states[0], i as nat),
        i < files.len() ==> Some(files[i]) == plan.file(pair, half, states[0], i as nat),
    decreases i,
{
    if i > 0 {
        files_are_determined(plan, pair, half, files, states, i - 1);
        assert(archive_bytes(
            plan.listing((i - 1) as nat, plan.drawn(pair, half, states[i - 1]).0),
        ) == Some(files[i - 1]));
    }
    if i < files.len() {
        assert(archive_bytes(plan.listing(i as nat, plan.drawn(pair, half, states[i]).0)) == Some(
            files[i],
        ));
    }
}

/// Equal arguments write equal caches: two runs over one plan that begin with the
/// generator in one state write the same bytes to every file.
pub proof fn equal_arguments_write_equal_caches(
    plan: SynthPlan,
    pair: spec_fn(u32, u32) -> (u32, u32),
    half: spec_fn(u32) -> u16,
    one: (Seq<Seq<u8>>, Seq<Lcg>),
    other: (Seq<Seq<u8>>, Seq<Lcg>),
)
    requires
        written_in_turn(plan, pair, half, one.0, one.1),
        written_in_turn(plan, pair, half, other.0, other.1),
        one.0.len() == other.0.len(),
        one.1[0] == other.1[0],
    ensures
        one.0 == other.0,
        one.1.last() == other.1.last(),
{
    assert forall|i: int| 0 <= i < one.0.len() implies one.0[i] == other.0[i] by {
        files_are_determined(plan, pair, half, one.0, one.1, i);
        files_are_determined(plan, pair, half, other.0, other.1, i);
    }
    assert(one.0 =~= other.0);
    files_are_determined(plan, pair, half, one.0, one.1, one.0.len() as int);
    files_are_determined(plan, pair, half, other.0, other.1, one.0.len() as int);
}

proof fn fixed_names()
    ensures
        "noisy_latents"@.len() == 13,
        "noisy_latents"@[0] == 'n',
        "timestep"@.len() == 8,
        "prompt_embeds"@.len() == 13,
        "prompt_embeds"@[0] == 'p',
        "student_prompt_embeds"@.len() == 21,
        "student_prompt_embeds"@[0] == 's',
        "teacher_noise_pred"@.len() == 18,
        "teacher_noise_pred"@[8] == 'n',
        "teacher_relation."@.len() == 17,
        "teacher_relation."@[0] == 't',
        "teacher_relation."@[8] == 'r',
        "__metadata__"@.len() == 12,
{
    reveal_strlit("noisy_latents");
    reveal_strlit("timestep");
    reveal_strlit("prompt_embeds");
    reveal_strlit("student_prompt_embeds");
    reveal_strlit("teacher_noise_pred");
    reveal_strlit("teacher_relation.");
    reveal_strlit("__metadata__");
}

/// No two relations share a name, and none has the name of another tensor.
pub proof fn relation_names_are_distinct(a: usize, b: usize)
    ensures
        relation_name(a) == relation_name(b) ==> a == b,
        relation_name(a) != "noisy_latents"@,
        relation_name(a) != "timestep"@,
        relation_name(a) != "prompt_embeds"@,
        relation_name(a) != "student_prompt_embeds"@,
        relation_name(a) != "teacher_noise_pred"@,
        relation_name(a) != "__metadata__"@,
        18 <= relation_name(a).len() <= 37,
{
    fixed_names();
    crate::text::decimal_reads_back(a as nat);
    crate::text::words_have_twenty_digits(a as nat);
    let (x, y) = (relation_name(a), relation_name(b));
    assert(x[0] == 't' && x[8] == 'r');
    if x == y {
        assert(x.skip(17) =~= decimal(a as nat));
        assert(y.skip(17) =~= decimal(b as nat));
        decimal_is_injective(a as nat, b as nat);
    }
}

proof fn entry_names(plan: SynthPlan, index: nat, draws: DrawsView, i: int, j: int)
    requires
        0 <= i < j < plan.entries(),
    ensures
        plan.entry(index, draws, i).0 != plan.entry(index, draws, j).0,
        plan.entry(index, draws, j).0 != "__metadata__"@,
        plan.entry(index, draws, i).0 != "__metadata__"@,
{
    fixed_names();
    if j >= 5 {
        relation_names_are_distinct((j - 5) as usize, (i - 5) as usize);
        if i >= 5 {
            relation_names_are_distinct((i - 5) as usize, (j - 5) as usize);
        }
    }
}

proof fn entries_are_found(plan: SynthPlan, index: nat, draws: DrawsView, count: nat, i: int)
    requires
        0 <= i < count <= plan.entries(),
    ensures
        plan.first_entries(index, draws, count).contains_key(plan.entry(index, draws, i).0),
        plan.first_entries(index, draws, count)[plan.entry(index, draws, i).0] == plan.entry(
            index,
            draws,
            i,
        ).1,
    decreases count,
{
    if i < count - 1 {
        entries_are_found(plan, index, draws, (count - 1) as nat, i);
        entry_names(plan, index, draws, i, count - 1);
    }
}

/// Values written as binary32 are decoded as they were.
pub proof fn singles_decode(shape: Seq<usize>, values: Seq<u32>)
    ensures
        decoded(("F32"@, shape, singles(values))) == Some(values),
{
    let data = singles(values);
    singles_len(values);
    let read = Seq::new(data.len() / 4, |k: int| group(data, k, 4) as u32);
    assert forall|k: int| 0 <= k < values.len() implies read[k] == values[k] by {
        singles_read_back(values, k);
    }
    assert(read =~= values);
}

/// Values written as binary16 are decoded as the binary32 numbers of the same
/// value.
pub proof fn halves_decode(shape: Seq<usize>, values: Seq<u16>)
    ensures
        decoded(("F16"@, shape, halves(values))) == Some(widened_all(values)),
{
    reveal_strlit("F32");
    reveal_strlit("F16");
    assert("F16"@[1] != "F32"@[1]);
    let data = halves(values);
    halves_len(values);
    let read = Seq::new(data.len() / 2, |k: int| widened_half(group(data, k, 2) as u16) as u32);
    assert forall|k: int| 0 <= k < values.len() implies read[k] == widened_all(values)[k] by {
        halves_read_back(values, k);
    }
    assert(read =~= widened_all(values));
}

proof fn timesteps_decode(index: nat)
    ensures
        decoded(("I64"@, seq![1usize], le_bytes(timestep(index), 8))) == Some(
            seq![from_integer(timestep(index) as int) as u32],
        ),
{
    reveal_strlit("F32");
    reveal_strlit("F16");
    reveal_strlit("BF16");
    reveal_strlit("I64");
    assert("I64"@[0] != "F32"@[0] && "I64"@[0] != "F16"@[0] && "I64"@.len() != "BF16"@.len());
    let data = le_bytes(timestep(index), 8);
    ranges();
    le_bytes_read_back(timestep(index), 8);
    assert(data.subrange(0, 8) =~= data);
    let read = decoded(("I64"@, seq![1usize], data))->0;
    assert(read[0] == from_integer(timestep(index) as int) as u32);
    assert(read =~= seq![from_integer(timestep(index) as int) as u32]);
}

proof fn relations_load(plan: SynthPlan, index: nat, draws: DrawsView, count: nat)
    requires
        plan.fills(draws),
        count <= plan.request.relation_layers,
    ensures
        relations(plan.contents(index, draws), plan.layers().take(count as int)) == Ok::<
            Seq<Buffer>,
            Fault,
        >(plan.sample(index, draws).relations.take(count as int)),
    decreases count,
{
    let contents = plan.contents(index, draws);
    let wanted = plan.sample(index, draws).relations;
    let layers = plan.layers();
    if count == 0 {
        assert(layers.take(0) =~= Seq::<usize>::empty());
        assert(wanted.take(0) =~= Seq::<Buffer>::empty());
    } else {
        let k = count - 1;
        relations_load(plan, index, draws, k as nat);
        assert(layers.take(count as int).drop_last() =~= layers.take(k));
        assert(layers.take(count as int).last() == k as usize);
        entries_are_found(plan, index, draws, plan.entries(), k + 5);
        halves_decode(plan.relation_shape(), draws.relations[k]);
        assert(wanted.take(count as int) =~= wanted.take(k).push(wanted[k]));
    }
}

/// A synthetic shard holds every required tensor, and decodes to the values that
/// were drawn for it.
pub proof fn synthetic_shards_load(plan: SynthPlan, index: nat, draws: DrawsView)
    requires
        plan.fills(draws),
    ensures
        first_missing(plan.contents(index, draws)) is None,
        loaded(plan.contents(index, draws), plan.layers()) == Ok::<SampleView, Fault>(
            plan.sample(index, draws),
        ),
{
    let contents = plan.contents(index, draws);
    entries_are_found(plan, index, draws, plan.entries(), 0);
    entries_are_found(plan, index, draws, plan.entries(), 1);
    entries_are_found(plan, index, draws, plan.entries(), 2);
    entries_are_found(plan, index, draws, plan.entries(), 3);
    entries_are_found(plan, index, draws, plan.entries(), 4);
    let layers = plan.layers();
    relations_load(plan, index, draws, plan.request.relation_layers as nat);
    assert(layers.take(layers.len() as int) =~= layers);
    let sample = plan.sample(index, draws);
    assert(sample.relations.take(layers.len() as int) =~= sample.relations);
    singles_decode(plan.latent_shape(), draws.noisy);
    timesteps_decode(index);
    singles_decode(plan.prompt_shape(), draws.prompt);
    singles_decode(plan.student_prompt_shape(), draws.student_prompt);
    singles_decode(plan.latent_shape(), draws.teacher_pred);
}

/// A synthetic shard holds the prompt of the teacher and that of the student, each
/// as the bytes of the values that were drawn for it.
pub proof fn synthetic_shards_hold_their_prompts(plan: SynthPlan, index: nat, draws: DrawsView)
    ensures
        ({
            let contents = plan.contents(index, draws);
            &&& contents.contains_key("prompt_embeds"@)
            &&& contents["prompt_embeds"@] == (
                "F32"@,
                seq![1usize, plan.request.seq, plan.request.teacher_text_width],
                singles(draws.prompt),
            )
            &&& contents.contains_key("student_prompt_embeds"@)
            &&& contents["student_prompt_embeds"@] == (
                "F32"@,
                seq![1usize, plan.request.seq, plan.spec.text_width],
                singles(draws.student_prompt),
            )
        }),
{
    entries_are_found(plan, index, draws, plan.entries(), 2);
    entries_are_found(plan, index, draws, plan.entries(), 3);
}

/// Timesteps stay below a thousand, and no two of a thousand consecutive shards
/// share one.
pub proof fn timesteps_differ(a: nat, b: nat)
    requires
        a < b < a + 1000,
    ensures
        timestep(a) < 1000,
        timestep(a) != timestep(b),
{
    if timestep(a) == timestep(b) {
        let (p, q): (int, int) = (a as int * 137, b as int * 137);
        let k = q / 1000 - p / 1000;
        assert(137 * (b - a) == 1000 * k);
        // 73 times 137 is one more than ten thousand.
        assert(b - a == 1000 * (73 * k - 10 * (b - a)));
        assert(false);
    }
}

fn new_tensor(name: &str, element: Element, shape: Vec<usize>, data: Vec<u8>) -> (tensor: NewTensor)
    ensures
        tensor.name@ == name@,
        tensor.element == element,
        tensor.shape@ == shape@,
        tensor.data@ == data@,
{
    NewTensor { name: name.to_owned(), element, shape, data }
}

impl SynthPlan {
    /// `tensors` are the first tensors of a shard, in order.
    pub open spec fn begins_with(
        self,
        index: nat,
        draws: DrawsView,
        tensors: Seq<NewTensor>,
    ) -> bool {
        forall|i: int|
            0 <= i < tensors.len() ==> ((#[trigger] tensors[i]).name@, tensors[i].value())
                == self.entry(index, draws, i)
    }

    /// Whether a shard of the plan can be held in memory and written.
    pub fn check_sizes(&self) -> (fit: bool)
        ensures
            fit == self.sizes_fit(),
    {
        let latent: [usize; 5] = [
            1,
            self.spec.latent_channels,
            self.request.frames,
            self.request.height,
            self.request.width,
        ];
        let prompt: [usize; 3] = [1, self.request.seq, self.request.teacher_text_width];
        let student: [usize; 3] = [1, self.request.seq, self.spec.text_width];
        let relation: [usize; 3] = [1, self.tokens, self.tokens];
        assert(latent@ =~= self.latent_shape());
        assert(prompt@ =~= self.prompt_shape());
        assert(student@ =~= self.student_prompt_shape());
        assert(relation@ =~= self.relation_shape());
        match (
            count_elements(latent.as_slice(), Element::Single),
            count_elements(prompt.as_slice(), Element::Single),
            count_elements(student.as_slice(), Element::Single),
            count_elements(relation.as_slice(), Element::Half),
        ) {
            (Some(a), Some(b), Some(c), Some(d)) => {
                proof {
                    let (n, two): (int, int) = (
                        self.request.relation_layers as int,
                        2 * d as int,
                    );
                    three_sizes(self.relation_shape(), Element::Half);
                    assert(0 <= n * two <= 0xffff_ffff_ffff_ffff * 0xffff_ffff_ffff_ffff)
                        by (nonlinear_arith)
                        requires
                            0 <= n <= 0xffff_ffff_ffff_ffff,
                            0 <= two <= 0xffff_ffff_ffff_ffff,
                    ;
                }
                let relations: u128 = self.request.relation_layers as u128 * (2 * d as u128);
                let rest: u128 = 8 * a as u128 + 8 + 4 * b as u128 + 4 * c as u128 + 100_000_008;
                let limit: u128 = isize::MAX as u128;
                relations <= limit && rest <= limit - relations
            },
            _ => false,
        }
    }

    /// How many values to draw for the tensors of a shard, in the order in which
    /// they are drawn: noisy latents, prompt, student prompt, teacher prediction,
    /// and the relations.
    pub fn draw_counts(&self) -> (counts: Vec<usize>)
        requires
            self.valid(),
            self.sizes_fit(),
        ensures
            counts@.len() == 4 + self.request.relation_layers,
            counts@[0] == product(self.latent_shape()),
            counts@[1] == product(self.prompt_shape()),
            counts@[2] == product(self.student_prompt_shape()),
            counts@[3] == product(self.latent_shape()),
            forall|k: int|
                4 <= k < counts@.len() ==> #[trigger] counts@[k] == product(self.relation_shape()),
    {
        let request: SynthRequest = self.request;
        proof {
            five_sizes(self.latent_shape(), Element::Single);
            three_sizes(self.prompt_shape(), Element::Single);
            three_sizes(self.student_prompt_shape(), Element::Single);
            three_sizes(self.relation_shape(), Element::Half);
            let (c, f, h, w): (int, int, int, int) = (
                self.spec.latent_channels as int,
                request.frames as int,
                request.height as int,
                request.width as int,
            );
            assert(c * f * h * w == c * (f * h * w)) by (nonlinear_arith);
        }
        let latent: usize = self.spec.latent_channels * self.cells;
        let relation: usize = self.tokens * self.tokens;
        let mut counts: Vec<usize> = Vec::new();
        counts.push(latent);
        counts.push(request.seq * request.teacher_text_width);
        counts.push(request.seq * self.spec.text_width);
        counts.push(latent);
        let mut layer: usize = 0;
        while layer < request.relation_layers
            invariant
                layer <= request.relation_layers,
                request == self.request,
                relation == product(self.relation_shape()),
                counts@.len() == 4 + layer,
                counts@[0] == product(self.latent_shape()),
                counts@[1] == product(self.prompt_shape()),
                counts@[2] == product(self.student_prompt_shape()),
                counts@[3] == product(self.latent_shape()),
                forall|k: int| 4 <= k < counts@.len() ==> #[trigger] counts@[k] == relation,
            decreases request.relation_layers - layer,
        {
            counts.push(relation);
            layer = layer + 1;
        }
        counts
    }

    /// The tensors of a shard, from the values drawn for it.
    pub fn shard_tensors(&self, index: usize, draws: &ShardDraws) -> (tensors: Vec<NewTensor>)
        requires
            self.fills(draws@),
            index * 137 <= i64::MAX,
        ensures
            tensors@.len() == self.entries(),
            self.begins_with(index as nat, draws@, tensors@),
    {
        let request: SynthRequest = self.request;
        let mut tensors: Vec<NewTensor> = Vec::new();
        tensors.push(
            new_tensor(
                "noisy_latents",
                Element::Single,
                vec![1, self.spec.latent_channels, request.frames, request.height, request.width],
                single_bytes(draws.noisy.as_slice()),
            ),
        );
        let mut moment: Vec<u8> = Vec::new();
        push_le(&mut moment, (index as u64 * 137) % 1000, 8);
        assert(moment@ =~= le_bytes(timestep(index as nat), 8));
        tensors.push(new_tensor("timestep", Element::Long, vec![1], moment));
        tensors.push(
            new_tensor(
                "prompt_embeds",
                Element::Single,
                vec![1, request.seq, request.teacher_text_width],
                single_bytes(draws.prompt.as_slice()),
            ),
        );
        tensors.push(
            new_tensor(
                "student_prompt_embeds",
                Element::Single,
                vec![1, request.seq, self.spec.text_width],
                single_bytes(draws.student_prompt.as_slice()),
            ),
        );
        tensors.push(
            new_tensor(
                "teacher_noise_pred",
                Element::Single,
                vec![1, self.spec.latent_channels, request.frames, request.height, request.width],
                single_bytes(draws.teacher_pred.as_slice()),
            ),
        );
        proof {
            assert(tensors@[0].shape@ =~= self.latent_shape());
            assert(tensors@[1].shape@ =~= seq![1usize]);
            assert(tensors@[2].shape@ =~= self.prompt_shape());
            assert(tensors@[3].shape@ =~= self.student_prompt_shape());
            assert(tensors@[4].shape@ =~= self.latent_shape());
        }
        let mut layer: usize = 0;
        while layer < request.relation_layers
            invariant
                layer <= request.relation_layers,
                request == self.request,
                self.fills(draws@),
                tensors@.len() == 5 + layer,
                self.begins_with(index as nat, draws@, tensors@),
            decreases request.relation_layers - layer,
        {
            let name: String = relation_tensor(layer);
            let ghost before = tensors@;
            tensors.push(
                new_tensor(
                    name.as_str(),
                    Element::Half,
                    vec![1, self.tokens, self.tokens],
                    half_bytes(draws.relations[layer].as_slice()),
                ),
            );
            proof {
                let last = tensors@[5 + layer];
                assert(last.shape@ =~= self.relation_shape());
                assert forall|i: int| 0 <= i < tensors@.len() implies ((
                #[trigger] tensors@[i]).name@, tensors@[i].value()) == self.entry(
                    index as nat,
                    draws@,
                    i,
                ) by {
                    if i < before.len() {
                        assert(tensors@[i] == before[i]);
                    }
                }
            }
            layer = layer + 1;
        }
        tensors
    }
}

proof fn three_sizes(shape: Seq<usize>, element: Element)
    requires
        shape.len() == 3,
        countable(shape, element),
    ensures
        product(shape) == shape[0] * shape[1] * shape[2],
        2 * product(shape) <= usize::MAX,
{
    reveal_with_fuel(product, 4);
    assert(shape.take(3) =~= shape);
    assert(1 * shape[0] == shape[0]);
}

proof fn five_sizes(shape: Seq<usize>, element: Element)
    requires
        shape.len() == 5,
        shape[0] == 1,
        countable(shape, element),
    ensures
        product(shape) == shape[1] * shape[2] * shape[3] * shape[4],
        2 * product(shape) <= usize::MAX,
{
    reveal_with_fuel(product, 6);
    assert(shape.take(5) =~= shape);
    assert(1 * shape[1] == shape[1]);
}

proof fn tensors_are_the_contents(
    plan: SynthPlan,
    index: nat,
    draws: DrawsView,
    tensors: Seq<NewTensor>,
)
    requires
        tensors.len() <= plan.entries(),
        plan.begins_with(index, draws, tensors),
    ensures
        contents_to_be(tensors) == plan.first_entries(index, draws, tensors.len()),
    decreases tensors.len(),
{
    if tensors.len() > 0 {
        let shorter = tensors.drop_last();
        assert forall|i: int| 0 <= i < shorter.len() implies ((#[trigger] shorter[i]).name@, shorter[i].value())
            == plan.entry(index, draws, i) by {
            assert(shorter[i] == tensors[i]);
        }
        tensors_are_the_contents(plan, index, draws, shorter);
        let i = tensors.len() - 1;
        assert((tensors[i].name@, tensors[i].value()) == plan.entry(index, draws, i));
    }
}

/// Bytes of the `i`-th tensor of a shard.
spec fn tensor_bytes(plan: SynthPlan, i: int) -> nat {
    if i == 0 || i == 4 {
        4 * product(plan.latent_shape())
    } else if i == 1 {
        8
    } else if i == 2 {
        4 * product(plan.prompt_shape())
    } else if i == 3 {
        4 * product(plan.student_prompt_shape())
    } else {
        2 * product(plan.relation_shape())
    }
}

/// Bytes of the first `count` tensors of a shard.
spec fn first_bytes(plan: SynthPlan, count: nat) -> nat
    decreases count,
{
    if count == 0 {
        0
    } else {
        first_bytes(plan, (count - 1) as nat) + tensor_bytes(plan, count - 1)
    }
}

proof fn bytes_add_up(plan: SynthPlan, layers: nat)
    ensures
        first_bytes(plan, 5 + layers) == 8 * product(plan.latent_shape()) + 8 + 4 * product(
            plan.prompt_shape(),
        ) + 4 * product(plan.student_prompt_shape()) + layers * (2 * product(
            plan.relation_shape(),
        )),
    decreases layers,
{
    let one: int = 2 * product(plan.relation_shape()) as int;
    if layers == 0 {
        reveal_with_fuel(first_bytes, 6);
        assert(0 * one == 0);
    } else {
        bytes_add_up(plan, (layers - 1) as nat);
        assert(layers * one == (layers - 1) * one + one) by (nonlinear_arith);
    }
}

proof fn one_is_countable()
    ensures
        product(seq![1usize]) == 1,
        countable(seq![1usize], Element::Long),
{
    let one = seq![1usize];
    let none = Seq::<usize>::empty();
    assert(one.drop_last() =~= none);
    assert(product(none) == 1);
    assert(product(one) == product(none) * 1nat);
    assert forall|n: int| 0 <= n <= one.len() implies #[trigger] product(one.take(n))
        <= usize::MAX by {
        if n == 0 {
            assert(one.take(n) =~= none);
        } else {
            assert(one.take(n) =~= one);
        }
    }
}

proof fn tensor_sizes(
    plan: SynthPlan,
    index: nat,
    draws: DrawsView,
    tensors: Seq<NewTensor>,
    i: int,
)
    requires
        plan.sizes_fit(),
        plan.fills(draws),
        plan.begins_with(index, draws, tensors),
        0 <= i < tensors.len() <= plan.entries(),
    ensures
        tensors[i].writable(),
        tensors[i].header_share() <= 447,
        tensors[i].data@.len() == tensor_bytes(plan, i),
{
    assert((tensors[i].name@, tensors[i].value()) == plan.entry(index, draws, i));
    fixed_names();
    reveal_strlit("F32");
    reveal_strlit("F16");
    reveal_strlit("I64");
    singles_len(draws.noisy);
    singles_len(draws.prompt);
    singles_len(draws.student_prompt);
    singles_len(draws.teacher_pred);
    ranges();
    le_bytes_read_back(timestep(index), 8);
    let label = tensors[i].element.label();
    assert("F32"@[1] == '3' && "F16"@[1] == '1' && "I64"@[1] == '6');
    if i == 1 {
        one_is_countable();
    } else if i >= 5 {
        relation_names_are_distinct((i - 5) as usize, 0);
        assert(draws.relations[i - 5].len() == product(plan.relation_shape()));
        halves_len(draws.relations[i - 5]);
    }
    assert(tensors[i].data@.len() == tensor_bytes(plan, i));
}

proof fn tensors_are_writable(
    plan: SynthPlan,
    index: nat,
    draws: DrawsView,
    tensors: Seq<NewTensor>,
)
    requires
        plan.sizes_fit(),
        plan.fills(draws),
        tensors.len() <= plan.entries(),
        plan.begins_with(index, draws, tensors),
    ensures
        forall|i: int| 0 <= i < tensors.len() ==> (#[trigger] tensors[i]).writable(),
        distinct_names(tensors),
        payload(tensors) == first_bytes(plan, tensors.len()),
        header_bound(tensors) <= 16 + 447 * tensors.len(),
    decreases tensors.len(),
{
    assert forall|i: int| 0 <= i < tensors.len() implies (#[trigger] tensors[i]).writable() by {
        tensor_sizes(plan, index, draws, tensors, i);
    }
    assert forall|i: int, j: int| 0 <= i < j < tensors.len() implies (#[trigger] tensors[i]).name@
        != (#[trigger] tensors[j]).name@ by {
        entry_names(plan, index, draws, i, j);
    }
    if tensors.len() > 0 {
        let shorter = tensors.drop_last();
        assert forall|i: int| 0 <= i < shorter.len() implies ((#[trigger] shorter[i]).name@, shorter[i].value())
            == plan.entry(index, draws, i) by {
            assert(shorter[i] == tensors[i]);
        }
        tensors_are_writable(plan, index, draws, shorter);
        tensor_sizes(plan, index, draws, tensors, tensors.len() - 1);
    }
}

/// The name of the file of a shard.
pub open spec fn shard_name(index: nat) -> Seq<char> {
    "shard-"@ + padded(index, 6) + ".safetensors"@
}

/// No two shards share a file name.
pub proof fn shard_names_are_distinct(a: nat, b: nat)
    requires
        shard_name(a) == shard_name(b),
    ensures
        a == b,
{
    reveal_strlit("shard-");
    reveal_strlit(".safetensors");
    let (x, y) = (shard_name(a), shard_name(b));
    assert(x.subrange(6, x.len() - 12) =~= padded(a, 6));
    assert(y.subrange(6, y.len() - 12) =~= padded(b, 6));
    padded_is_injective(a, b, 6);
}

/// The name of the file of a shard.
pub fn shard_file(index: usize) -> (name: String)
    ensures
        name@ == shard_name(index as nat),
{
    let mut name: String = "shard-".to_owned();
    push_padded(&mut name, index as u64, 6);
    name.append(".safetensors");
    name
}

/// Name, element type and shape of the `i`-th tensor of a shard.
pub open spec fn heading(plan: SynthPlan, i: int) -> (Seq<char>, Seq<char>, Seq<usize>) {
    if i == 0 {
        ("noisy_latents"@, "F32"@, plan.latent_shape())
    } else if i == 1 {
        ("timestep"@, "I64"@, seq![1usize])
    } else if i == 2 {
        ("prompt_embeds"@, "F32"@, plan.prompt_shape())
    } else if i == 3 {
        ("student_prompt_embeds"@, "F32"@, plan.student_prompt_shape())
    } else if i == 4 {
        ("teacher_noise_pred"@, "F32"@, plan.latent_shape())
    } else {
        (relation_name((i - 5) as usize), "F16"@, plan.relation_shape())
    }
}

/// The headings that a manifest lists are those of the tensors in its shards.
pub proof fn headings_are_of_the_entries(plan: SynthPlan, index: nat, draws: DrawsView, i: int)
    ensures
        heading(plan, i) == (
            plan.entry(index, draws, i).0,
            plan.entry(index, draws, i).1.0,
            plan.entry(index, draws, i).1.1,
        ),
{
}

fn shape_entry(name: &str, dtype: &str, shape: Vec<usize>) -> (entry: TensorShape)
    ensures
        entry.name@ == name@,
        entry.dtype@ == dtype@,
        entry.shape@ == shape@,
{
    TensorShape { name: name.to_owned(), shape, dtype: dtype.to_owned() }
}

impl SynthPlan {
    /// Shards of the cache.
    pub open spec fn shards(self) -> nat {
        self.request.clips as nat * self.request.draws_per_clip as nat
    }

    /// The bytes of a shard's file, from the values drawn for it.
    pub fn encode_shard(&self, index: usize, draws: &ShardDraws) -> (written: Result<
        Vec<u8>,
        SafeTensorError,
    >)
        requires
            self.sizes_fit(),
            self.fills(draws@),
            index * 137 <= i64::MAX,
        ensures
            16 + 447 * self.entries() <= header_limit() ==> written is Ok,
            written is Err ==> archive_bytes(self.listing(index as nat, draws@)) is None,
            written matches Ok(bytes) ==> {
                &&& archive_bytes(self.listing(index as nat, draws@)) == Some(bytes@)
                &&& is_shard(bytes@)
                &&& archive_contents(bytes@) == Some(self.contents(index as nat, draws@))
                &&& loaded(archive_contents(bytes@)->0, self.layers()) == Ok::<SampleView, Fault>(
                    self.sample(index as nat, draws@),
                )
            },
    {
        let tensors: Vec<NewTensor> = self.shard_tensors(index, draws);
        proof {
            tensors_are_the_contents(*self, index as nat, draws@, tensors@);
            tensors_are_writable(*self, index as nat, draws@, tensors@);
            bytes_add_up(*self, self.request.relation_layers as nat);
            synthetic_shards_load(*self, index as nat, draws@);
            assert(named_values(tensors@) =~= self.listing(index as nat, draws@));
        }
        serialize(&tensors)
    }

    /// Draws the values of one shard, tensor after tensor. `form` makes a pair of
    /// normal values of two uniform draws, and `narrow` a binary16 pattern of a
    /// binary32 pattern.
    pub fn draw_shard<F: Fn(u32, u32) -> (u32, u32), N: Fn(u32) -> u16>(
        &self,
        rng: &mut Lcg,
        form: &F,
        narrow: &N,
    ) -> (draws: ShardDraws)
        requires
            self.valid(),
            self.sizes_fit(),
            takes_draws(form),
            takes_all(narrow),
        ensures
            self.fills(draws@),
            forall|pair: spec_fn(u32, u32) -> (u32, u32), half: spec_fn(u32) -> u16|
                #![trigger forms(form, pair), narrows(narrow, half)]
                forms(form, pair) && narrows(narrow, half) ==> (draws@, *final(rng))
                    == self.drawn(pair, half, *old(rng)),
    {
        let counts: Vec<usize> = self.draw_counts();
        let noisy: Vec<u32> = rng.vec(counts[0], form);
        let prompt: Vec<u32> = rng.vec(counts[1], form);
        let student_prompt: Vec<u32> = rng.vec(counts[2], form);
        let teacher_pred: Vec<u32> = rng.vec(counts[3], form);
        let layers: usize = counts.len() - 4;
        let ghost begun = *rng;
        let ghost size = product(self.relation_shape());
        let mut relations: Vec<Vec<u16>> = Vec::new();
        let ghost mut drawn: Seq<Seq<u16>> = Seq::empty();
        while relations.len() < layers
            invariant
                relations@.len() <= layers,
                counts@.len() == 4 + layers <= usize::MAX,
                forall|k: int| 4 <= k < counts@.len() ==> #[trigger] counts@[k] == size,
                takes_draws(form),
                takes_all(narrow),
                drawn == relations@.map_values(|layer: Vec<u16>| layer@),
                forall|k: int|
                    0 <= k < relations@.len() ==> (#[trigger] relations@[k])@.len() == size,
                forall|pair: spec_fn(u32, u32) -> (u32, u32), half: spec_fn(u32) -> u16|
                    #![trigger forms(form, pair), narrows(narrow, half)]
                    forms(form, pair) && narrows(narrow, half) ==> (drawn, *rng)
                        == drawn_relations(pair, half, begun, size, drawn.len()),
            decreases layers - relations.len(),
        {
            let ghost (early, before) = (drawn, *rng);
            let values: Vec<u32> = rng.vec(counts[4 + relations.len()], form);
            let layer: Vec<u16> = narrow_all(&values, narrow);
            relations.push(layer);
            proof {
                drawn = relations@.map_values(|layer: Vec<u16>| layer@);
                assert(drawn =~= early.push(layer@));
                assert forall|pair: spec_fn(u32, u32) -> (u32, u32), half: spec_fn(u32) -> u16|
                    #![trigger forms(form, pair), narrows(narrow, half)]
                    forms(form, pair) && narrows(narrow, half) implies (drawn, *rng)
                    == drawn_relations(pair, half, begun, size, drawn.len()) by {
                    assert((early, before) == drawn_relations(pair, half, begun, size, early.len()));
                    assert((values@, *rng) == normals(pair, before, size));
                    assert(layer@ == values@.map_values(half));
                }
            }
        }
        ShardDraws { noisy, prompt, student_prompt, teacher_pred, relations }
    }

    /// The bytes of the file of the shard that comes next: its values are drawn from
    /// the generator, which stands where the shards before have left it.
    pub fn synth_shard<F: Fn(u32, u32) -> (u32, u32), N: Fn(u32) -> u16>(
        &self,
        index: usize,
        rng: &mut Lcg,
        form: &F,
        narrow: &N,
    ) -> (written: Result<Vec<u8>, SafeTensorError>)
        requires
            self.valid(),
            self.sizes_fit(),
            index * 137 <= i64::MAX,
            takes_draws(form),
            takes_all(narrow),
        ensures
            16 + 447 * self.entries() <= header_limit() ==> written is Ok,
            written matches Ok(bytes) ==> is_shard(bytes@),
            forall|pair: spec_fn(u32, u32) -> (u32, u32), half: spec_fn(u32) -> u16|
                #![trigger forms(form, pair), narrows(narrow, half)]
                forms(form, pair) && narrows(narrow, half) ==> {
                    let (draws, after) = self.drawn(pair, half, *old(rng));
                    &&& *final(rng) == after
                    &&& match written {
                        Ok(bytes) => archive_bytes(self.listing(index as nat, draws)) == Some(
                            bytes@,
                        ),
                        Err(_) => archive_bytes(self.listing(index as nat, draws)) is None,
                    }
                },
    {
        let draws: ShardDraws = self.draw_shard(rng, form, narrow);
        self.encode_shard(index, &draws)
    }

    /// How many shards the cache has.
    pub fn shard_count(&self) -> (count: usize)
        requires
            self.shards() <= usize::MAX,
        ensures
            count == self.shards(),
    {
        self.request.clips * self.request.draws_per_clip
    }

    /// The manifest of the cache.
    pub fn manifest(&self) -> (manifest: TeacherCacheManifest)
        requires
            self.shards() <= usize::MAX,
        ensures
            manifest.format_version == 1,
            manifest.teacher@ == "synthetic"@,
            manifest.scheduler@ == "longlive"@,
            manifest.shards@.len() == self.shards(),
            forall|i: int|
                0 <= i < self.shards() ==> (#[trigger] manifest.shards@[i])@ == shard_name(
                    i as nat,
                ),
            manifest.tensors@.len() == self.entries(),
            forall|i: int|
                0 <= i < self.entries() ==> ((#[trigger] manifest.tensors@[i]).name@, manifest.tensors@[i].dtype@, manifest.tensors@[i].shape@)
                    == heading(*self, i),
            manifest.hidden_relation_layers@ == self.layers(),
    {
        let request: SynthRequest = self.request;
        let count: usize = self.shard_count();
        let mut shards: Vec<String> = Vec::new();
        let mut index: usize = 0;
        while index < count
            invariant
                index <= count,
                shards@.len() == index,
                forall|i: int| 0 <= i < index ==> (#[trigger] shards@[i])@ == shard_name(i as nat),
            decreases count - index,
        {
            shards.push(shard_file(index));
            index = index + 1;
        }
        let latent: Vec<usize> = vec![
            1,
            self.spec.latent_channels,
            request.frames,
            request.height,
            request.width,
        ];
        let again: Vec<usize> = vec![
            1,
            self.spec.latent_channels,
            request.frames,
            request.height,
            request.width,
        ];
        let mut tensors: Vec<TensorShape> = Vec::new();
        tensors.push(shape_entry("noisy_latents", "F32", latent));
        tensors.push(shape_entry("timestep", "I64", vec![1]));
        tensors.push(
            shape_entry("prompt_embeds", "F32", vec![1, request.seq, request.teacher_text_width]),
        );
        tensors.push(
            shape_entry(
                "student_prompt_embeds",
                "F32",
                vec![1, request.seq, self.spec.text_width],
            ),
        );
        tensors.push(shape_entry("teacher_noise_pred", "F32", again));
        proof {
            assert(tensors@[0].shape@ =~= self.latent_shape());
            assert(tensors@[1].shape@ =~= seq![1usize]);
            assert(tensors@[2].shape@ =~= self.prompt_shape());
            assert(tensors@[3].shape@ =~= self.student_prompt_shape());
            assert(tensors@[4].shape@ =~= self.latent_shape());
        }
        let mut layers: Vec<usize> = Vec::new();
        let mut layer: usize = 0;
        while layer < request.relation_layers
            invariant
                layer <= request.relation_layers,
                request == self.request,
                layers@.len() == layer,
                forall|i: int| 0 <= i < layer ==> #[trigger] layers@[i] == i,
                tensors@.len() == 5 + layer,
                forall|i: int|
                    0 <= i < 5 + layer ==> ((#[trigger] tensors@[i]).name@, tensors@[i].dtype@, tensors@[i].shape@)
                        == heading(*self, i),
            decreases request.relation_layers - layer,
        {
            let name: String = relation_tensor(layer);
            tensors.push(
                shape_entry(name.as_str(), "F16", vec![1, self.tokens, self.tokens]),
            );
            assert(tensors@[5 + layer].shape@ =~= self.relation_shape());
            layers.push(layer);
            layer = layer + 1;
        }
        assert(layers@ =~= self.layers());
        TeacherCacheManifest {
            format_version: 1,
            teacher: "synthetic".to_owned(),
            scheduler: "longlive".to_owned(),
            shards,
            tensors,
            hidden_relation_layers: layers,
        }
    }
}

/// A plan is for a latent of whole patches within the budget of the spec: its cells
/// are its frames by rows by columns, its tokens are as many patches, and it has at
/// least one shard.
pub proof fn plans_are_of_whole_patches(plan: SynthPlan)
    requires
        plan.valid(),
    ensures
        plan.spec.valid(),
        plan.cells == plan.request.frames * plan.request.height * plan.request.width,
        plan.tokens * (plan.spec.patch_size[1] * plan.spec.patch_size[2]) == plan.cells,
        plan.cells <= plan.spec.max_tokens,
        plan.request.clips >= 1 && plan.request.draws_per_clip >= 1,
        plan.shards() == plan.request.clips * plan.request.draws_per_clip,
{
    let (f, h, w): (int, int, int) = (
        plan.request.frames as int,
        plan.request.height as int,
        plan.request.width as int,
    );
    let (a, b): (int, int) = (plan.spec.patch_size[1] as int, plan.spec.patch_size[2] as int);
    vstd::arithmetic::div_mod::lemma_fundamental_div_mod(h, a);
    vstd::arithmetic::div_mod::lemma_fundamental_div_mod(w, b);
    let (r, c): (int, int) = (h / a, w / b);
    assert(f / 1 == f);
    assert((f * r * c) * (a * b) == f * (a * r) * (b * c)) by (nonlinear_arith);
}

/// A request is refused exactly for one of these: the spec, a latent that is not of
/// whole patches, more cells than the budget, no clip, or no draw; the first that
/// is true is named, with the sizes it is about.
pub proof fn requests_are_refused_for_a_reason(
    spec: StudentSpec,
    request: SynthRequest,
    counts: (int, int, int),
)
    requires
        spec.heads > 0,
        spec.patch_size[0] > 0 && spec.patch_size[1] > 0 && spec.patch_size[2] > 0,
        counts.0 * spec.patch_size[0] <= request.frames < (counts.0 + 1) * spec.patch_size[0],
        counts.1 * spec.patch_size[1] <= request.height < (counts.1 + 1) * spec.patch_size[1],
        counts.2 * spec.patch_size[2] <= request.width < (counts.2 + 1) * spec.patch_size[2],
        request.frames * request.height * request.width <= usize::MAX,
    ensures
        ({
            let whole = request.frames == counts.0 * spec.patch_size[0] && request.height
                == counts.1 * spec.patch_size[1] && request.width == counts.2
                * spec.patch_size[2];
            let cells = request.frames * request.height * request.width;
            match objection(spec, request) {
                Some(SynthError::Spec(_)) => !spec.valid(),
                Some(SynthError::Geometry { frames, height, width, pt, ph, pw }) => {
                    &&& spec.valid() && !whole
                    &&& frames == request.frames && height == request.height && width
                        == request.width
                    &&& pt == spec.patch_size[0] && ph == spec.patch_size[1] && pw
                        == spec.patch_size[2]
                },
                Some(SynthError::Budget { cells: named, max_tokens }) => {
                    &&& spec.valid() && whole && cells > spec.max_tokens
                    &&& named == cells && max_tokens == spec.max_tokens
                },
                Some(SynthError::NoClips) => spec.valid() && whole && cells <= spec.max_tokens
                    && request.clips == 0,
                Some(SynthError::NoDraws) => spec.valid() && whole && cells <= spec.max_tokens
                    && request.clips > 0 && request.draws_per_clip == 0,
                None => spec.valid() && whole && cells <= spec.max_tokens && request.clips > 0
                    && request.draws_per_clip > 0,
            }
        }),
{
    let dims = seq![1usize, 1usize, request.frames, request.height, request.width];
    crate::geometry::whole_patches_divide(dims, spec.patch_size@, counts);
    crate::contract::accepted_specs(spec, 0);
}

/// Timesteps begin at zero and go up by 137 from shard to shard, a thousand less
/// where that would pass a thousand.
pub proof fn timesteps_go_up(index: nat)
    ensures
        timestep(0) == 0,
        timestep(index) < 1000,
        timestep(index + 1) == timestep(index) + 137 || timestep(index + 1) == timestep(index) + 137
            - 1000,
{
    assert((index + 1) * 137 == index * 137 + 137);
}

/// A synthetic shard reads back as what was drawn for it, tensor by tensor, under
/// the shapes of the request: the latent and its target, both prompts, the timestep
/// of its number, and a relation for every layer from zero on.
pub proof fn synthetic_shards_read_back(plan: SynthPlan, index: nat, draws: DrawsView, k: int)
    requires
        plan.fills(draws),
        0 <= k < plan.request.relation_layers,
    ensures
        plan.layers().len() == plan.request.relation_layers,
        plan.layers()[k] == k,
        loaded(plan.contents(index, draws), plan.layers()) matches Ok(sample) && {
            let r = plan.request;
            let latent = seq![1usize, plan.spec.latent_channels, r.frames, r.height, r.width];
            &&& sample.noisy == (draws.noisy, latent)
            &&& sample.teacher_pred == (draws.teacher_pred, latent)
            &&& sample.prompt == (draws.prompt, seq![1usize, r.seq, r.teacher_text_width])
            &&& sample.student_prompt == Some(
                (draws.student_prompt, seq![1usize, r.seq, plan.spec.text_width]),
            )
            &&& sample.timestep == seq![from_integer(timestep(index) as int) as u32]
            &&& sample.relations.len() == r.relation_layers
            &&& sample.relations[k].1 == seq![1usize, plan.tokens, plan.tokens]
            &&& sample.relations[k].0.len() == draws.relations[k].len()
            &&& forall|j: int|
                0 <= j < draws.relations[k].len() ==> #[trigger] sample.relations[k].0[j]
                    == widened_half(draws.relations[k][j]) as u32
        },
{
    synthetic_shards_load(plan, index, draws);
}

/// A shard without relations reads back as what was drawn for it, too.
pub proof fn plain_shards_read_back(plan: SynthPlan, index: nat, draws: DrawsView)
    requires
        plan.fills(draws),
        plan.request.relation_layers == 0,
    ensures
        loaded(plan.contents(index, draws), Seq::empty()) matches Ok(sample) && {
            &&& sample.noisy.0 == draws.noisy && sample.teacher_pred.0 == draws.teacher_pred
            &&& sample.prompt.0 == draws.prompt
            &&& sample.student_prompt matches Some(own) && own.0 == draws.student_prompt
            &&& sample.relations.len() == 0
        },
{
    synthetic_shards_load(plan, index, draws);
    assert(plan.layers() =~= Seq::<usize>::empty());
}

/// The values of a shard are drawn one after the other from the generator, without
/// a gap: those of the noisy latent, the prompt, the student's prompt and the
/// target, and after them those of the relations.
pub proof fn shards_are_one_stream(
    plan: SynthPlan,
    pair: spec_fn(u32, u32) -> (u32, u32),
    half: spec_fn(u32) -> u16,
    rng: Lcg,
)
    ensures
        ({
            let (draws, after) = plan.drawn(pair, half, rng);
            let plain = draws.noisy + draws.prompt + draws.student_prompt + draws.teacher_pred;
            let layers = plan.request.relation_layers as nat;
            let size = product(plan.relation_shape());
            let whole = normals(pair, rng, plain.len() + layers * size);
            &&& plain == normals(pair, rng, plain.len()).0
            &&& whole.1 == after
            &&& whole.0.len() == plain.len() + layers * size
            &&& draws.relations.len() == layers
            &&& forall|k: int, j: int|
                #![trigger draws.relations[k][j]]
                0 <= k < layers && 0 <= j < size ==> draws.relations[k].len() == size
                    && draws.relations[k][j] == half(whole.0[plain.len() + k * size + j])
        }),
        plan.fills(plan.drawn(pair, half, rng).0),
{
    let (draws, after) = plan.drawn(pair, half, rng);
    let n1 = product(plan.latent_shape());
    let n2 = product(plan.prompt_shape());
    let n3 = product(plan.student_prompt_shape());
    let layers = plan.request.relation_layers as nat;
    let size = product(plan.relation_shape());
    let (noisy, a) = normals(pair, rng, n1);
    let (prompt, b) = normals(pair, a, n2);
    let (student_prompt, c) = normals(pair, b, n3);
    let (teacher_pred, d) = normals(pair, c, n1);
    normals_compose(pair, rng, n1, n2);
    normals_compose(pair, rng, n1 + n2, n3);
    normals_compose(pair, rng, n1 + n2 + n3, n1);
    normals_are_counted(pair, rng, n1);
    normals_are_counted(pair, a, n2);
    normals_are_counted(pair, b, n3);
    normals_are_counted(pair, c, n1);
    let plain = noisy + prompt + student_prompt + teacher_pred;
    let total = n1 + n2 + n3 + n1;
    assert(normals(pair, rng, total) == (plain, d));
    relations_are_one_stream(pair, half, d, size, layers);
    assert(layers * size >= 0) by (nonlinear_arith)
        requires
            layers >= 0,
            size >= 0,
    ;
    normals_compose(pair, rng, total, layers * size);
    normals_are_counted(pair, d, layers * size);
    let (late, end) = normals(pair, d, layers * size);
    let whole = normals(pair, rng, total + layers * size);
    assert(whole == (plain + late, end));
    assert forall|k: int, j: int|
        #![trigger draws.relations[k][j]]
        0 <= k < layers && 0 <= j < size implies draws.relations[k].len() == size
        && draws.relations[k][j] == half(whole.0[plain.len() + k * size + j]) by {
        assert(0 <= k * size + j < layers * size) by (nonlinear_arith)
            requires
                0 <= k,
                k + 1 <= layers,
                0 <= j < size,
        ;
        assert(whole.0[plain.len() + k * size + j] == late[k * size + j]);
    }
}

proof fn relations_are_one_stream(
    pair: spec_fn(u32, u32) -> (u32, u32),
    half: spec_fn(u32) -> u16,
    rng: Lcg,
    size: nat,
    count: nat,
)
    ensures
        ({
            let (list, after) = drawn_relations(pair, half, rng, size, count);
            let (values, end) = normals(pair, rng, count * size);
            &&& list.len() == count
            &&& after == end
            &&& forall|k: int| 0 <= k < count ==> (#[trigger] list[k]).len() == size
            &&& forall|k: int, j: int|
                #![trigger list[k][j]]
                0 <= k < count && 0 <= j < size ==> list[k][j] == half(values[k * size + j])
        }),
    decreases count,
{
    let (list, after) = drawn_relations(pair, half, rng, size, count);
    let (values, end) = normals(pair, rng, count * size);
    if count == 0 {
        assert(0 * size == 0);
    } else {
        let fewer = (count - 1) as nat;
        relations_are_one_stream(pair, half, rng, size, fewer);
        let (early, before) = drawn_relations(pair, half, rng, size, fewer);
        let (first, between) = normals(pair, rng, fewer * size);
        let (last, _) = normals(pair, before, size);
        normals_compose(pair, rng, fewer * size, size);
        normals_are_counted(pair, rng, fewer * size);
        normals_are_counted(pair, before, size);
        assert(count * size == fewer * size + size) by (nonlinear_arith)
            requires
                count == fewer + 1,
        ;
        assert(values == first + last);
        assert forall|k: int, j: int|
            #![trigger list[k][j]]
            0 <= k < count && 0 <= j < size implies list[k][j] == half(values[k * size + j]) by {
            if k < fewer {
                assert(list[k] == early[k]);
                assert(0 <= k * size + j < fewer * size) by (nonlinear_arith)
                    requires
                        0 <= k,
                        k + 1 <= fewer,
                        0 <= j < size,
                ;
                assert(early[k][j] == half(first[k * size + j]));
            } else {
                assert(list[k] == last.map_values(half));
                assert(values[k * size + j] == last[j]);
            }
        }
        assert forall|k: int| 0 <= k < count implies (#[trigger] list[k]).len() == size by {
            if k < fewer {
                assert(list[k] == early[k]);
            }
        }
    }
}

/// Every shard goes on in the stream where the one before it ended.
pub proof fn shards_go_on_in_the_stream(
    plan: SynthPlan,
    pair: spec_fn(u32, u32) -> (u32, u32),
    half: spec_fn(u32) -> u16,
    rng: Lcg,
    index: nat,
)
    ensures
        plan.before_shard(pair, half, rng, 0) == rng,
        ({
            let (draws, after) = plan.drawn(
                pair,
                half,
                plan.before_shard(pair, half, rng, index),
            );
            &&& plan.before_shard(pair, half, rng, index + 1) == after
            &&& plan.file(pair, half, rng, index) == archive_bytes(plan.listing(index, draws))
        }),
{
}

/// The file of a shard is called by its number, in at least six digits.
pub proof fn shard_files_are_numbered(index: nat)
    ensures
        shard_name(index).len() == 18 + padded(index, 6).len(),
        shard_name(index).take(6) == "shard-"@,
        shard_name(index).subrange(6, shard_name(index).len() - 12) == padded(index, 6),
        shard_name(index).skip(shard_name(index).len() - 12) == ".safetensors"@,
        number(padded(index, 6)) == index,
{
    reveal_strlit("shard-");
    reveal_strlit(".safetensors");
    padded_reads_back(index, 6);
    let name = shard_name(index);
    assert(name.take(6) =~= "shard-"@);
    assert(name.subrange(6, name.len() - 12) =~= padded(index, 6));
    assert(name.skip(name.len() - 12) =~= ".safetensors"@);
}

/// The tensors of a shard take four bytes for every value of the latent, of its
/// target and of both prompts, two for every value of a relation, and eight for the
/// timestep.
pub proof fn shards_take_their_bytes(plan: SynthPlan)
    ensures
        ({
            let r = plan.request;
            let latent = plan.spec.latent_channels * r.frames * r.height * r.width;
            plan.shard_payload() == 4 * latent + 4 * latent + 8 + 4 * (r.seq
                * r.teacher_text_width) + 4 * (r.seq * plan.spec.text_width) + r.relation_layers * (
            2 * (plan.tokens * plan.tokens))
        }),
{
    crate::archive::five_axes_multiply(plan.latent_shape());
    crate::geometry::three_axes_multiply(plan.prompt_shape());
    crate::geometry::three_axes_multiply(plan.student_prompt_shape());
    crate::geometry::three_axes_multiply(plan.relation_shape());
    assert(1 * plan.spec.latent_channels == plan.spec.latent_channels);
    assert(1 * plan.request.seq == plan.request.seq && 1 * plan.tokens == plan.tokens);
}

} // verus!
