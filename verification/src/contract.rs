//! The contract between the teacher cache, the trainer and the browser runtime:
//! what a student looks like, what a cache holds, and which of each is accepted.
use vstd::prelude::*;

verus! {

/// The tensors that every shard of a teacher cache carries.
pub const REQUIRED_SAMPLE_TENSORS: [&'static str; 4] = [
    "noisy_latents",
    "timestep",
    "prompt_embeds",
    "teacher_noise_pred",
];

/// Name, shape and element type of one tensor of a shard.
#[derive(Clone, Debug)]
pub struct TensorShape {
    pub name: String,
    pub shape: Vec<usize>,
    pub dtype: String,
}

/// What a teacher cache says of itself.
#[derive(Clone, Debug)]
pub struct TeacherCacheManifest {
    pub format_version: u32,
    pub teacher: String,
    pub scheduler: String,
    /// Shard files, relative to the directory of the manifest.
    pub shards: Vec<String>,
    pub tensors: Vec<TensorShape>,
    pub hidden_relation_layers: Vec<usize>,
}

/// The patch size of a spec that names none: `[pt, ph, pw]`, as in every model of
/// the Wan family.
pub fn default_patch() -> (patch: [usize; 3])
    ensures
        patch@ == seq![1usize, 2, 2],
{
    [1, 2, 2]
}

/// The architecture of a student.
#[derive(Clone, Copy, Debug, PartialEq, Eq)]
pub struct StudentSpec {
    pub latent_channels: usize,
    pub text_width: usize,
    pub width: usize,
    pub layers: usize,
    pub heads: usize,
    pub mlp_ratio: usize,
    pub max_tokens: usize,
    /// `[pt, ph, pw]`. The temporal entry is 1: a spatial patch divides the token
    /// count by `ph * pw` and leaves the frames alone.
    pub patch_size: [usize; 3],
    /// Modulate every block with the conditioning vector instead of adding it
    /// once at the stem.
    pub per_block_conditioning: bool,
}

/// Why a spec is refused.
#[derive(Clone, Copy, Debug, PartialEq, Eq, Structural)]
pub enum SpecError {
    /// The width does not split evenly over the heads.
    UnevenHeads,
    /// No layer, or no token.
    Empty,
    /// An entry of the patch size is zero.
    ZeroPatch,
    /// The patch spans more than one frame.
    TemporalPatch,
}

impl SpecError {
    pub open spec fn text(self) -> Seq<char> {
        match self {
            SpecError::UnevenHeads => "width must be divisible by heads"@,
            SpecError::Empty => "layers and max_tokens must be non-zero"@,
            SpecError::ZeroPatch => "patch_size entries must be non-zero"@,
            SpecError::TemporalPatch => "patch_size[0] (temporal) must be 1 in this release"@,
        }
    }

    /// The message for a user.
    pub fn message(&self) -> (text: String)
        ensures
            text@ == self.text(),
    {
        match self {
            SpecError::UnevenHeads => "width must be divisible by heads".to_owned(),
            SpecError::Empty => "layers and max_tokens must be non-zero".to_owned(),
            SpecError::ZeroPatch => "patch_size entries must be non-zero".to_owned(),
            SpecError::TemporalPatch => "patch_size[0] (temporal) must be 1 in this release".to_owned(),
        }
    }
}

impl StudentSpec {
    /// A spec that a student can be built from.
    pub open spec fn valid(self) -> bool {
        &&& self.heads != 0
        &&& self.width % self.heads == 0
        &&& self.layers > 0
        &&& self.max_tokens > 0
        &&& self.patch_size[0] == 1
        &&& self.patch_size[1] > 0
        &&& self.patch_size[2] > 0
    }

    /// The first objection to the spec, if there is one.
    pub open spec fn objection(self) -> Option<SpecError> {
        if self.width % self.heads != 0 {
            Some(SpecError::UnevenHeads)
        } else if self.layers == 0 || self.max_tokens == 0 {
            Some(SpecError::Empty)
        } else if self.patch_size[0] == 0 || self.patch_size[1] == 0 || self.patch_size[2] == 0 {
            Some(SpecError::ZeroPatch)
        } else if self.patch_size[0] != 1 {
            Some(SpecError::TemporalPatch)
        } else {
            None
        }
    }

    /// Latent cells folded into one token.
    pub open spec fn volume(self) -> nat {
        self.patch_size[0] as nat * self.patch_size[1] as nat * self.patch_size[2] as nat
    }

    pub open spec fn volume_fits(self) -> bool {
        &&& self.patch_size[0] * self.patch_size[1] <= usize::MAX
        &&& self.volume() <= usize::MAX
    }

    /// Weights of the mixer blocks: four square projections and the two sides of
    /// the MLP, in every layer.
    pub open spec fn dense(self) -> nat {
        self.layers as nat * (4 + 2 * self.mlp_ratio as nat) * self.width as nat * self.width as nat
    }

    pub open spec fn dense_fits(self) -> bool {
        &&& 4 + 2 * self.mlp_ratio <= usize::MAX
        &&& self.layers * (4 + 2 * self.mlp_ratio) <= usize::MAX
        &&& self.layers * (4 + 2 * self.mlp_ratio) * self.width <= usize::MAX
        &&& self.dense() <= usize::MAX
    }

    /// The parameter estimate: the blocks, the text projection, and the input
    /// projection with its output mirror, which both grow with the patch.
    pub open spec fn parameters(self) -> nat {
        self.dense() + self.text_width as nat * self.width as nat + 2
            * self.latent_channels as nat * self.volume() * self.width as nat
    }

    /// No intermediate of the estimate exceeds the machine's word.
    pub open spec fn parameters_fit(self) -> bool {
        &&& self.dense_fits()
        &&& self.volume_fits()
        &&& self.text_width * self.width <= usize::MAX
        &&& 2 * self.latent_channels <= usize::MAX
        &&& 2 * self.latent_channels * self.volume() <= usize::MAX
        &&& self.parameters() <= usize::MAX
    }

    /// Accepts a spec that a student can be built from, and names the first
    /// objection to any other.
    pub fn validate(&self) -> (verdict: Result<(), SpecError>)
        requires
            self.heads != 0,
        ensures
            verdict is Ok <==> self.valid(),
            self.objection() matches Some(e) ==> verdict == Err::<(), SpecError>(e),
            self.objection() is None ==> verdict is Ok,
    {
        if self.width % self.heads != 0 {
            return Err(SpecError::UnevenHeads);
        }
        if self.layers == 0 || self.max_tokens == 0 {
            return Err(SpecError::Empty);
        }
        if self.patch_size[0] == 0 || self.patch_size[1] == 0 || self.patch_size[2] == 0 {
            return Err(SpecError::ZeroPatch);
        }
        if self.patch_size[0] != 1 {
            return Err(SpecError::TemporalPatch);
        }
        Ok(())
    }

    /// Latent cells folded into one token: `pt * ph * pw`.
    pub fn patch_volume(&self) -> (volume: usize)
        requires
            self.volume_fits(),
        ensures
            volume == self.volume(),
    {
        self.patch_size[0] * self.patch_size[1] * self.patch_size[2]
    }

    /// Weights of the mixer blocks.
    pub fn dense_parameters(&self) -> (count: usize)
        requires
            self.dense_fits(),
        ensures
            count == self.dense(),
    {
        self.layers * (4 + 2 * self.mlp_ratio) * self.width * self.width
    }

    /// The approximate number of parameters of the student.
    pub fn approximate_parameters(&self) -> (count: usize)
        requires
            self.parameters_fit(),
        ensures
            count == self.parameters(),
    {
        self.dense_parameters() + self.text_width * self.width + 2 * self.latent_channels
            * self.patch_volume() * self.width
    }

    /// Values in one token: the latent channels of every cell of a patch. There is
    /// no such number where a product on the way to it exceeds the machine's word.
    pub fn token_width(&self) -> (width: Option<usize>)
        ensures
            width is Some <==> self.volume_fits() && self.latent_channels * self.volume()
                <= usize::MAX,
            width matches Some(n) ==> n == self.latent_channels * self.volume(),
    {
        let volume: usize = self.patch_size[0].checked_mul(self.patch_size[1])?.checked_mul(
            self.patch_size[2],
        )?;
        self.latent_channels.checked_mul(volume)
    }

    /// The parameter estimate, where no intermediate of it exceeds the machine's
    /// word.
    pub fn checked_parameters(&self) -> (count: Option<usize>)
        ensures
            count is Some <==> self.parameters_fit(),
            count matches Some(n) ==> n == self.parameters(),
    {
        let mlp: usize = self.mlp_ratio.checked_mul(2)?.checked_add(4)?;
        let dense: usize = self.layers.checked_mul(mlp)?.checked_mul(self.width)?.checked_mul(
            self.width,
        )?;
        let volume: usize = self.patch_size[0].checked_mul(self.patch_size[1])?.checked_mul(
            self.patch_size[2],
        )?;
        let text: usize = self.text_width.checked_mul(self.width)?;
        let ends: usize = self.latent_channels.checked_mul(2)?.checked_mul(volume)?.checked_mul(
            self.width,
        )?;
        dense.checked_add(text)?.checked_add(ends)
    }

    /// Tokens of a latent; rows and columns that do not fill a patch do not count.
    pub open spec fn tokens(self, frames: usize, height: usize, width: usize) -> nat {
        frames as nat * (height / self.patch_size[1]) as nat * (width / self.patch_size[2]) as nat
    }

    /// Tokens of a latent with the given frames, rows and columns.
    pub fn latent_tokens(&self, frames: usize, height: usize, width: usize) -> (count: usize)
        requires
            self.valid(),
            frames * (height / self.patch_size[1]) <= usize::MAX,
            self.tokens(frames, height, width) <= usize::MAX,
        ensures
            count == self.tokens(frames, height, width),
    {
        frames * (height / self.patch_size[1]) * (width / self.patch_size[2])
    }
}

/// The estimate is the sum of the weights of the matrices: in every layer the
/// query, key, value and output projections, each of `width` by `width`, and the
/// two sides of the MLP, whose inner width is `mlp_ratio * width`; beside them the
/// text projection and the projections of a token into the model and out of it.
pub proof fn estimate_sums_the_matrices(spec: StudentSpec)
    ensures
        ({
            let w = spec.width as int;
            let inner = spec.mlp_ratio * w;
            let token = spec.latent_channels * (spec.patch_size[0] * (spec.patch_size[1]
                * spec.patch_size[2]));
            let layer = w * w + w * w + w * w + w * w + w * inner + inner * w;
            &&& spec.dense() == spec.layers * layer
            &&& spec.parameters() == spec.layers * layer + spec.text_width * w + token * w + w
                * token
        }),
{
    let (l, r, w): (int, int, int) = (
        spec.layers as int,
        spec.mlp_ratio as int,
        spec.width as int,
    );
    let (c, a, b, d): (int, int, int, int) = (
        spec.latent_channels as int,
        spec.patch_size[0] as int,
        spec.patch_size[1] as int,
        spec.patch_size[2] as int,
    );
    let square = w * w;
    let layer = w * w + w * w + w * w + w * w + w * (r * w) + (r * w) * w;
    assert(w * (r * w) == r * square && (r * w) * w == r * square) by (nonlinear_arith)
        requires
            square == w * w,
    ;
    assert(layer == (4 + 2 * r) * square) by (nonlinear_arith)
        requires
            layer == 4 * square + r * square + r * square,
    ;
    assert(l * (4 + 2 * r) * w * w == l * ((4 + 2 * r) * square)) by (nonlinear_arith)
        requires
            square == w * w,
    ;
    let token = c * (a * (b * d));
    assert(2 * c * (a * b * d) * w == token * w + w * token) by (nonlinear_arith)
        requires
            token == c * (a * (b * d)),
    ;
}

/// One more in the ratio of the MLP adds two matrices of `width` by `width` to
/// every layer; without an MLP a layer has its four projections.
pub proof fn a_wider_mlp_adds_two_squares(spec: StudentSpec, wider: StudentSpec)
    requires
        wider == (StudentSpec { mlp_ratio: wider.mlp_ratio, ..spec }),
        wider.mlp_ratio == spec.mlp_ratio + 1,
    ensures
        wider.dense() == spec.dense() + spec.layers * (2 * (spec.width * spec.width)),
        wider.parameters() - wider.dense() == spec.parameters() - spec.dense(),
        spec.mlp_ratio == 0 ==> spec.dense() == spec.layers * (4 * (spec.width * spec.width)),
{
    let (l, r, w): (int, int, int) = (
        spec.layers as int,
        spec.mlp_ratio as int,
        spec.width as int,
    );
    assert(l * (4 + 2 * (r + 1)) * w * w == l * (4 + 2 * r) * w * w + l * (2 * (w * w)))
        by (nonlinear_arith);
    assert(r == 0 ==> l * (4 + 2 * r) * w * w == l * (4 * (w * w))) by (nonlinear_arith);
}

/// Every layer adds the same, a column of the text input adds `width`, and a
/// latent channel adds `width` for every cell of a patch, on the way in and on the
/// way out. Heads, tokens and the kind of conditioning add nothing.
pub proof fn each_size_adds_its_share(spec: StudentSpec, other: StudentSpec)
    ensures
        other == (StudentSpec { layers: other.layers, ..spec }) && other.layers == spec.layers + 1
            ==> other.parameters() - spec.parameters() == (4 + 2 * spec.mlp_ratio) * (spec.width
            * spec.width),
        other == (StudentSpec { text_width: other.text_width, ..spec }) && other.text_width
            == spec.text_width + 1 ==> other.parameters() - spec.parameters() == spec.width,
        other == (StudentSpec { latent_channels: other.latent_channels, ..spec })
            && other.latent_channels == spec.latent_channels + 1 ==> other.parameters()
            - spec.parameters() == 2 * (spec.patch_size[0] * spec.patch_size[1]
            * spec.patch_size[2] * spec.width),
        other == (StudentSpec {
            heads: other.heads,
            max_tokens: other.max_tokens,
            per_block_conditioning: other.per_block_conditioning,
            ..spec
        }) ==> other.parameters() == spec.parameters(),
        spec.width == 0 ==> spec.parameters() == 0,
        spec.layers == 0 && spec.text_width == 0 && spec.latent_channels == 0 ==> spec.parameters()
            == 0,
{
    let (l, r, w): (int, int, int) = (
        spec.layers as int,
        spec.mlp_ratio as int,
        spec.width as int,
    );
    let (t, c, v): (int, int, int) = (
        spec.text_width as int,
        spec.latent_channels as int,
        spec.volume() as int,
    );
    assert((l + 1) * (4 + 2 * r) * w * w - l * (4 + 2 * r) * w * w == (4 + 2 * r) * (w * w))
        by (nonlinear_arith);
    assert((t + 1) * w - t * w == w) by (nonlinear_arith);
    assert(2 * (c + 1) * v * w - 2 * c * v * w == 2 * (v * w)) by (nonlinear_arith);
    assert(w == 0 ==> l * (4 + 2 * r) * w * w == 0 && t * w == 0 && 2 * c * v * w == 0)
        by (nonlinear_arith);
    assert(l == 0 ==> l * (4 + 2 * r) * w * w == 0) by (nonlinear_arith);
    assert(t == 0 ==> t * w == 0) by (nonlinear_arith);
    assert(c == 0 ==> 2 * c * v * w == 0) by (nonlinear_arith);
}

/// The estimate of a spec without an empty size can be formed whenever the
/// estimate itself fits a machine word: nothing on the way to it is larger.
pub proof fn estimates_that_fit_can_be_formed(spec: StudentSpec)
    requires
        spec.layers > 0 && spec.width > 0 && spec.latent_channels > 0,
        spec.patch_size[0] > 0 && spec.patch_size[1] > 0 && spec.patch_size[2] > 0,
    ensures
        spec.parameters_fit() <==> spec.parameters() <= usize::MAX,
{
    let (l, m, w): (int, int, int) = (
        spec.layers as int,
        4 + 2 * spec.mlp_ratio as int,
        spec.width as int,
    );
    let (c, a, b, d): (int, int, int, int) = (
        2 * spec.latent_channels as int,
        spec.patch_size[0] as int,
        spec.patch_size[1] as int,
        spec.patch_size[2] as int,
    );
    assert(m <= l * m && l * m <= l * m * w && l * m * w <= l * m * w * w) by (nonlinear_arith)
        requires
            l >= 1,
            m >= 1,
            w >= 1,
    ;
    let v = a * b * d;
    assert(a * b <= v && v >= 1) by (nonlinear_arith)
        requires
            v == a * b * d,
            a >= 1,
            b >= 1,
            d >= 1,
    ;
    assert(v <= c * v && c <= c * v && c * v <= c * v * w) by (nonlinear_arith)
        requires
            v >= 1,
            c >= 1,
            w >= 1,
    ;
    assert(spec.text_width * w >= 0) by (nonlinear_arith)
        requires
            spec.text_width >= 0,
            w >= 0,
    ;
}

/// A spec is accepted exactly where every head has the same number of columns,
/// there is a layer and a token, and the patch is a rectangle within one frame.
pub proof fn accepted_specs(spec: StudentSpec, columns: int)
    requires
        spec.heads > 0,
    ensures
        spec.width == columns * spec.heads && spec.layers >= 1 && spec.max_tokens >= 1
            && spec.patch_size[0] == 1 && spec.patch_size[1] >= 1 && spec.patch_size[2] >= 1
            ==> spec.valid() && spec.objection() is None,
        spec.valid() ==> {
            &&& exists|each: int| #[trigger] (each * spec.heads) == spec.width
            &&& spec.layers >= 1 && spec.max_tokens >= 1
            &&& spec.patch_size[0] == 1 && spec.patch_size[1] >= 1 && spec.patch_size[2] >= 1
        },
        spec.valid() <==> spec.objection() is None,
{
    let (w, h): (int, int) = (spec.width as int, spec.heads as int);
    vstd::arithmetic::div_mod::lemma_fundamental_div_mod(w, h);
    assert((w / h) * h == h * (w / h)) by (nonlinear_arith);
    if w == columns * h {
        vstd::arithmetic::div_mod::lemma_mod_multiples_basic(columns, h);
    }
    if spec.valid() {
        assert((w / h) * spec.heads == spec.width);
    }
}

/// The objection that is raised is true of the spec, and none that comes before it
/// is: uneven heads, then an empty model, then an empty patch, then a patch over
/// several frames.
pub proof fn objections_are_true(spec: StudentSpec)
    requires
        spec.heads > 0,
    ensures
        spec.objection() == Some(SpecError::UnevenHeads) <==> (forall|each: int|
            #[trigger] (each * spec.heads) != spec.width),
        spec.objection() == Some(SpecError::Empty) ==> spec.layers == 0 || spec.max_tokens == 0,
        spec.objection() == Some(SpecError::ZeroPatch) ==> spec.layers > 0 && spec.max_tokens > 0
            && (spec.patch_size[0] == 0 || spec.patch_size[1] == 0 || spec.patch_size[2] == 0),
        spec.objection() == Some(SpecError::TemporalPatch) ==> spec.layers > 0 && spec.max_tokens
            > 0 && spec.patch_size[0] > 1 && spec.patch_size[1] > 0 && spec.patch_size[2] > 0,
        (spec.layers == 0 || spec.max_tokens == 0) && spec.objection() != Some(
            SpecError::UnevenHeads,
        ) ==> spec.objection() == Some(SpecError::Empty),
{
    let (w, h): (int, int) = (spec.width as int, spec.heads as int);
    vstd::arithmetic::div_mod::lemma_fundamental_div_mod(w, h);
    assert((w / h) * h == h * (w / h)) by (nonlinear_arith);
    if w % h == 0 {
        assert((w / h) * spec.heads == spec.width);
    } else {
        assert forall|each: int| #[trigger] (each * spec.heads) != spec.width by {
            if each * spec.heads == spec.width {
                vstd::arithmetic::div_mod::lemma_mod_multiples_basic(each, h);
            }
        }
    }
}

/// A latent has a token for every whole patch: where `rows` whole patches fit in
/// its height and `columns` in its width, that is `frames * rows * columns`. Where
/// nothing is left over, the patches hold every cell once.
pub proof fn tokens_are_whole_patches(
    spec: StudentSpec,
    frames: usize,
    height: usize,
    width: usize,
    rows: int,
    columns: int,
)
    requires
        spec.valid(),
        rows * spec.patch_size[1] <= height < (rows + 1) * spec.patch_size[1],
        columns * spec.patch_size[2] <= width < (columns + 1) * spec.patch_size[2],
    ensures
        spec.tokens(frames, height, width) == frames * rows * columns,
        height == rows * spec.patch_size[1] && width == columns * spec.patch_size[2]
            ==> spec.tokens(frames, height, width) * spec.volume() == frames * height * width,
{
    let (a, b): (int, int) = (spec.patch_size[1] as int, spec.patch_size[2] as int);
    let (h, w, f): (int, int, int) = (height as int, width as int, frames as int);
    assert((rows + 1) * a == rows * a + a && (columns + 1) * b == columns * b + b)
        by (nonlinear_arith);
    vstd::arithmetic::div_mod::lemma_fundamental_div_mod_converse(h, a, rows, h - rows * a);
    vstd::arithmetic::div_mod::lemma_fundamental_div_mod_converse(w, b, columns, w - columns * b);
    assert(f * rows * columns * (1 * a * b) == f * (rows * a) * (columns * b)) by (nonlinear_arith);
}

/// The cells of a patch are its frames by rows by columns, and can be counted
/// wherever there are no more of them than fit a machine word.
pub proof fn patches_count_their_cells(spec: StudentSpec)
    ensures
        spec.volume() == spec.patch_size[0] * (spec.patch_size[1] * spec.patch_size[2]),
        spec.patch_size[2] > 0 ==> (spec.volume_fits() <==> spec.volume() <= usize::MAX),
{
    let (a, b, c): (int, int, int) = (
        spec.patch_size[0] as int,
        spec.patch_size[1] as int,
        spec.patch_size[2] as int,
    );
    assert(a * b * c == a * (b * c)) by (nonlinear_arith);
    assert(c > 0 ==> a * b <= a * b * c) by (nonlinear_arith)
        requires
            a >= 0,
            b >= 0,
    ;
}

} // verus!
