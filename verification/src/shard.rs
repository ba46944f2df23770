//! One shard of a teacher cache, decoded to binary32 host buffers.
use vstd::prelude::*;
use crate::archive::{
    archive_contents, contents_of, end_fits, find, product, read_archive, sized, ArchiveError,
    Contents, RawTensor, TensorValue,
};
use crate::contract::REQUIRED_SAMPLE_TENSORS;
use crate::bytes::{bytes_weigh_in_order, little_endian, ranges, read_le};
use crate::ieee::{
    from_integer, single_from_integer, widen_brain, widen_half, widened_brain, widened_half,
};
use crate::text::{decimal, listed, push_decimal, push_list};

verus! {

/// One shard: every buffer holds binary32 bit patterns, row-major, beside its
/// shape.
#[derive(Debug)]
pub struct Sample {
    pub noisy: (Vec<u32>, [usize; 5]),
    pub timestep: Vec<u32>,
    pub prompt: (Vec<u32>, [usize; 3]),
    pub student_prompt: Option<(Vec<u32>, [usize; 3])>,
    pub teacher_pred: (Vec<u32>, [usize; 5]),
    pub relations: Vec<(Vec<u32>, [usize; 3])>,
}

/// Values and shape of a buffer.
pub type Buffer = (Seq<u32>, Seq<usize>);

/// What a shard holds.
#[verifier::ext_equal]
pub struct SampleView {
    pub noisy: Buffer,
    pub timestep: Seq<u32>,
    pub prompt: Buffer,
    pub student_prompt: Option<Buffer>,
    pub teacher_pred: Buffer,
    pub relations: Seq<Buffer>,
}

pub open spec fn buffer3(x: (Vec<u32>, [usize; 3])) -> Buffer {
    (x.0@, x.1@)
}

pub open spec fn buffer5(x: (Vec<u32>, [usize; 5])) -> Buffer {
    (x.0@, x.1@)
}

impl View for Sample {
    type V = SampleView;

    open spec fn view(&self) -> SampleView {
        SampleView {
            noisy: buffer5(self.noisy),
            timestep: self.timestep@,
            prompt: buffer3(self.prompt),
            student_prompt: match self.student_prompt {
                Some(x) => Some(buffer3(x)),
                None => None,
            },
            teacher_pred: buffer5(self.teacher_pred),
            relations: self.relations@.map_values(|x: (Vec<u32>, [usize; 3])| buffer3(x)),
        }
    }
}

/// A buffer holds as many values as its shape says.
pub open spec fn filled(x: Buffer) -> bool {
    x.0.len() == product(x.1)
}

impl SampleView {
    /// Every buffer fills its shape.
    pub open spec fn well_shaped(self) -> bool {
        &&& filled(self.noisy)
        &&& filled(self.prompt)
        &&& self.student_prompt matches Some(x) ==> filled(x)
        &&& filled(self.teacher_pred)
        &&& forall|i: int| 0 <= i < self.relations.len() ==> filled(#[trigger] self.relations[i])
    }
}

/// What is wrong with a shard.
pub enum Fault {
    /// A tensor is not there.
    Missing(Seq<char>),
    /// The element type is not decoded.
    Element(Seq<char>),
    /// The shape has another rank than the tensor's role asks for.
    Rank { label: Seq<char>, rank: nat, shape: Seq<usize> },
}

/// Why a shard was not read.
#[derive(Debug)]
pub enum ShardError {
    /// The file is no archive.
    Archive(ArchiveError),
    /// A tensor is not there.
    Missing(String),
    /// The element type is not decoded.
    Element(String),
    /// The shape has another rank than the tensor's role asks for.
    Rank { label: String, rank: usize, shape: Vec<usize> },
}

impl ShardError {
    /// The fault inside an archive that could be opened.
    pub open spec fn fault(self) -> Option<Fault> {
        match self {
            ShardError::Archive(_) => None,
            ShardError::Missing(name) => Some(Fault::Missing(name@)),
            ShardError::Element(dtype) => Some(Fault::Element(dtype@)),
            ShardError::Rank { label, rank, shape } => Some(
                Fault::Rank { label: label@, rank: rank as nat, shape: shape@ },
            ),
        }
    }

    /// The message for a user, about the file at `path`. An archive error carries
    /// its own text.
    pub fn message(&self, path: &str) -> (text: Option<String>)
        ensures
            text is None <==> self is Archive,
            text matches Some(t) ==> self.fault() matches Some(f) && t@ == f.text(path@),
    {
        match self {
            ShardError::Archive(_) => None,
            ShardError::Missing(name) => {
                let mut text: String = name.clone();
                text.append(" missing in ");
                text.append(path);
                Some(text)
            },
            ShardError::Element(dtype) => {
                let mut text: String = "unsupported dtype ".to_owned();
                text.append(dtype.as_str());
                Some(text)
            },
            ShardError::Rank { label, rank, shape } => {
                let mut text: String = label.clone();
                text.append(": expected rank ");
                push_decimal(&mut text, *rank as u64);
                text.append(", got shape ");
                push_list(&mut text, shape.as_slice());
                Some(text)
            },
        }
    }
}

impl Fault {
    pub open spec fn text(self, path: Seq<char>) -> Seq<char> {
        match self {
            Fault::Missing(name) => name + " missing in "@ + path,
            Fault::Element(dtype) => "unsupported dtype "@ + dtype,
            Fault::Rank { label, rank, shape } => label + ": expected rank "@ + decimal(rank)
                + ", got shape "@ + listed(shape),
        }
    }
}

/// The signed number with the given 64-bit two's complement pattern.
pub open spec fn signed(pattern: nat) -> int {
    if pattern >= 0x8000_0000_0000_0000 {
        pattern - 0x1_0000_0000_0000_0000
    } else {
        pattern as int
    }
}

/// The number in the `k`-th group of `width` bytes.
pub open spec fn group(data: Seq<u8>, k: int, width: int) -> nat {
    little_endian(data.subrange(k * width, k * width + width))
}

/// The values of a tensor as binary32 patterns, for the element types that are
/// decoded. A last group that is not complete is left out.
pub open spec fn decoded(value: TensorValue) -> Option<Seq<u32>> {
    let data = value.2;
    if value.0 == "F32"@ {
        Some(Seq::new(data.len() / 4, |k: int| group(data, k, 4) as u32))
    } else if value.0 == "F16"@ {
        Some(Seq::new(data.len() / 2, |k: int| widened_half(group(data, k, 2) as u16) as u32))
    } else if value.0 == "BF16"@ {
        Some(Seq::new(data.len() / 2, |k: int| widened_brain(group(data, k, 2) as u16) as u32))
    } else if value.0 == "I64"@ {
        Some(Seq::new(data.len() / 8, |k: int| from_integer(signed(group(data, k, 8))) as u32))
    } else {
        None
    }
}

/// A tensor of a fixed rank, decoded.
pub open spec fn ranked(value: TensorValue, label: Seq<char>, rank: nat) -> Result<Buffer, Fault> {
    match decoded(value) {
        None => Err(Fault::Element(value.0)),
        Some(values) => if value.1.len() == rank {
            Ok((values, value.1))
        } else {
            Err(Fault::Rank { label, rank, shape: value.1 })
        },
    }
}

/// The name of the relation that the teacher left for a layer.
pub open spec fn relation_name(layer: usize) -> Seq<char> {
    "teacher_relation."@ + decimal(layer as nat)
}

/// The relations of the given layers, in order; the first fault counts.
pub open spec fn relations(contents: Contents, layers: Seq<usize>) -> Result<Seq<Buffer>, Fault>
    decreases layers.len(),
{
    if layers.len() == 0 {
        Ok(Seq::empty())
    } else {
        let name = relation_name(layers.last());
        match relations(contents, layers.drop_last()) {
            Err(fault) => Err(fault),
            Ok(earlier) => if !contents.contains_key(name) {
                Err(Fault::Missing(name))
            } else {
                match ranked(contents[name], "teacher_relation"@, 3) {
                    Err(fault) => Err(fault),
                    Ok(one) => Ok(earlier.push(one)),
                }
            },
        }
    }
}

/// The prompt of the student's own text encoder, where the shard has one.
pub open spec fn student_prompt(contents: Contents) -> Result<Option<Buffer>, Fault> {
    if !contents.contains_key("student_prompt_embeds"@) {
        Ok(None)
    } else {
        match ranked(contents["student_prompt_embeds"@], "student_prompt_embeds"@, 3) {
            Err(fault) => Err(fault),
            Ok(buffer) => Ok(Some(buffer)),
        }
    }
}

/// What a shard with the given tensors decodes to, or the first fault in it.
pub open spec fn loaded(contents: Contents, layers: Seq<usize>) -> Result<SampleView, Fault> {
    if !contents.contains_key("noisy_latents"@) {
        Err(Fault::Missing("noisy_latents"@))
    } else if !contents.contains_key("teacher_noise_pred"@) {
        Err(Fault::Missing("teacher_noise_pred"@))
    } else if !contents.contains_key("prompt_embeds"@) {
        Err(Fault::Missing("prompt_embeds"@))
    } else {
        match relations(contents, layers) {
            Err(fault) => Err(fault),
            Ok(relations) => match ranked(
                contents["noisy_latents"@],
                "noisy_latents"@,
                5,
            ) {
                Err(fault) => Err(fault),
                Ok(noisy) => if !contents.contains_key("timestep"@) {
                    Err(Fault::Missing("timestep"@))
                } else {
                    match decoded(contents["timestep"@]) {
                        None => Err(Fault::Element(contents["timestep"@].0)),
                        Some(timestep) => match ranked(
                            contents["prompt_embeds"@],
                            "prompt_embeds"@,
                            3,
                        ) {
                            Err(fault) => Err(fault),
                            Ok(prompt) => match student_prompt(contents) {
                                Err(fault) => Err(fault),
                                Ok(student_prompt) => match ranked(
                                    contents["teacher_noise_pred"@],
                                    "teacher_noise_pred"@,
                                    5,
                                ) {
                                    Err(fault) => Err(fault),
                                    Ok(teacher_pred) => Ok(
                                        SampleView {
                                            noisy,
                                            timestep,
                                            prompt,
                                            student_prompt,
                                            teacher_pred,
                                            relations,
                                        },
                                    ),
                                },
                            },
                        },
                    }
                },
            },
        }
    }
}

/// A 64-bit two's complement pattern as the signed number.
fn to_signed(pattern: u64) -> (n: i64)
    ensures
        n == signed(pattern as nat),
{
    if pattern < 0x8000_0000_0000_0000 {
        pattern as i64
    } else {
        -((u64::MAX - pattern) as i64) - 1
    }
}

/// The values of a tensor as binary32 patterns.
pub fn floats(tensor: &RawTensor) -> (values: Result<Vec<u32>, ShardError>)
    ensures
        values matches Ok(v) ==> decoded(tensor.value()) == Some(v@),
        values matches Err(e) ==> decoded(tensor.value()) is None && e.fault() == Some(
            Fault::Element(tensor.dtype@),
        ),
{
    let width: usize = if tensor.dtype == "F32".to_owned() {
        4
    } else if tensor.dtype == "F16".to_owned() || tensor.dtype == "BF16".to_owned() {
        2
    } else if tensor.dtype == "I64".to_owned() {
        8
    } else {
        return Err(ShardError::Element(tensor.dtype.clone()));
    };
    let half: bool = tensor.dtype == "F16".to_owned();
    let count: usize = tensor.data.len() / width;
    let mut values: Vec<u32> = Vec::new();
    let mut k: usize = 0;
    proof {
        reveal_strlit("F32");
        reveal_strlit("F16");
        reveal_strlit("BF16");
        reveal_strlit("I64");
        ranges();
    }
    let ghost expected = decoded(tensor.value())->0;
    while k < count
        invariant
            width == 4 || width == 2 || width == 8,
            count == tensor.data@.len() / width as nat,
            k <= count,
            values@.len() == k,
            expected.len() == count,
            forall|i: int|
                0 <= i < count ==> #[trigger] expected[i] == (if width == 4 {
                    group(tensor.data@, i, 4) as u32
                } else if width == 8 {
                    from_integer(signed(group(tensor.data@, i, 8))) as u32
                } else if half {
                    widened_half(group(tensor.data@, i, 2) as u16) as u32
                } else {
                    widened_brain(group(tensor.data@, i, 2) as u16) as u32
                }),
            forall|i: int| 0 <= i < k ==> values@[i] == #[trigger] expected[i],
        decreases count - k,
    {
        let length: usize = tensor.data.len();
        proof {
            ranges();
            let (c, w): (int, int) = (count as int, width as int);
            assert(k * w + w <= length) by (nonlinear_arith)
                requires
                    k + 1 <= c,
                    c * w <= length,
                    w > 0,
            ;
        }
        let pattern: u64 = read_le(tensor.data.as_slice(), k * width, width);
        let value: u32 = if width == 4 {
            pattern as u32
        } else if width == 8 {
            single_from_integer(to_signed(pattern))
        } else if half {
            widen_half(pattern as u16)
        } else {
            widen_brain(pattern as u16)
        };
        assert(value == expected[k as int]);
        values.push(value);
        k = k + 1;
    }
    assert(values@ =~= expected);
    Ok(values)
}

fn rank_error(tensor: &RawTensor, label: &str, rank: usize) -> (error: ShardError)
    ensures
        error.fault() == Some(
            Fault::Rank { label: label@, rank: rank as nat, shape: tensor.shape@ },
        ),
{
    let error: ShardError = ShardError::Rank {
        label: label.to_owned(),
        rank,
        shape: tensor.shape.clone(),
    };
    assert(error.fault()->0->shape =~= tensor.shape@);
    error
}

/// The shape of a tensor of rank three.
pub fn dims3(tensor: &RawTensor, label: &str) -> (dims: Result<[usize; 3], ShardError>)
    ensures
        dims is Ok <==> tensor.shape@.len() == 3,
        dims matches Ok(d) ==> d@ == tensor.shape@,
        dims matches Err(e) ==> e.fault() == Some(
            Fault::Rank { label: label@, rank: 3, shape: tensor.shape@ },
        ),
{
    if tensor.shape.len() != 3 {
        return Err(rank_error(tensor, label, 3));
    }
    let d: [usize; 3] = [tensor.shape[0], tensor.shape[1], tensor.shape[2]];
    assert(d@ =~= tensor.shape@);
    Ok(d)
}

/// The shape of a tensor of rank five.
pub fn dims5(tensor: &RawTensor, label: &str) -> (dims: Result<[usize; 5], ShardError>)
    ensures
        dims is Ok <==> tensor.shape@.len() == 5,
        dims matches Ok(d) ==> d@ == tensor.shape@,
        dims matches Err(e) ==> e.fault() == Some(
            Fault::Rank { label: label@, rank: 5, shape: tensor.shape@ },
        ),
{
    if tensor.shape.len() != 5 {
        return Err(rank_error(tensor, label, 5));
    }
    let d: [usize; 5] = [
        tensor.shape[0],
        tensor.shape[1],
        tensor.shape[2],
        tensor.shape[3],
        tensor.shape[4],
    ];
    assert(d@ =~= tensor.shape@);
    Ok(d)
}

fn ranked3(tensor: &RawTensor, label: &str) -> (buffer: Result<(Vec<u32>, [usize; 3]), ShardError>)
    ensures
        buffer matches Ok(b) ==> ranked(tensor.value(), label@, 3) == Ok::<Buffer, Fault>(
            buffer3(b),
        ),
        buffer matches Err(e) ==> e.fault() matches Some(f) && ranked(tensor.value(), label@, 3)
            == Err::<Buffer, Fault>(f),
{
    let values: Vec<u32> = match floats(tensor) {
        Ok(values) => values,
        Err(error) => {
            return Err(error);
        },
    };
    match dims3(tensor, label) {
        Ok(dims) => Ok((values, dims)),
        Err(error) => Err(error),
    }
}

fn ranked5(tensor: &RawTensor, label: &str) -> (buffer: Result<(Vec<u32>, [usize; 5]), ShardError>)
    ensures
        buffer matches Ok(b) ==> ranked(tensor.value(), label@, 5) == Ok::<Buffer, Fault>(
            buffer5(b),
        ),
        buffer matches Err(e) ==> e.fault() matches Some(f) && ranked(tensor.value(), label@, 5)
            == Err::<Buffer, Fault>(f),
{
    let values: Vec<u32> = match floats(tensor) {
        Ok(values) => values,
        Err(error) => {
            return Err(error);
        },
    };
    match dims5(tensor, label) {
        Ok(dims) => Ok((values, dims)),
        Err(error) => Err(error),
    }
}

/// The tensor called `name`.
fn get<'a>(tensors: &'a Vec<RawTensor>, name: &str) -> (found: Result<&'a RawTensor, ShardError>)
    ensures
        found is Ok <==> contents_of(tensors@).contains_key(name@),
        found matches Ok(tensor) ==> contents_of(tensors@)[name@] == tensor.value(),
        found matches Err(e) ==> e.fault() == Some(Fault::Missing(name@)),
{
    match find(tensors, name) {
        Some(i) => Ok(&tensors[i]),
        None => Err(ShardError::Missing(name.to_owned())),
    }
}

/// The name of the relation that the teacher left for a layer.
pub fn relation_tensor(layer: usize) -> (name: String)
    ensures
        name@ == relation_name(layer),
{
    let mut name: String = "teacher_relation.".to_owned();
    push_decimal(&mut name, layer as u64);
    name
}

fn load_relations(tensors: &Vec<RawTensor>, layers: &[usize]) -> (read: Result<
    Vec<(Vec<u32>, [usize; 3])>,
    ShardError,
>)
    ensures
        read matches Ok(list) ==> relations(contents_of(tensors@), layers@) == Ok::<
            Seq<Buffer>,
            Fault,
        >(list@.map_values(|x: (Vec<u32>, [usize; 3])| buffer3(x))),
        read matches Err(e) ==> e.fault() matches Some(f) && relations(
            contents_of(tensors@),
            layers@,
        ) == Err::<Seq<Buffer>, Fault>(f),
{
    let ghost contents = contents_of(tensors@);
    let mut list: Vec<(Vec<u32>, [usize; 3])> = Vec::new();
    let mut i: usize = 0;
    let ghost view = |x: (Vec<u32>, [usize; 3])| buffer3(x);
    assert(layers@.take(0) =~= Seq::<usize>::empty());
    assert(list@.map_values(view) =~= Seq::<Buffer>::empty());
    while i < layers.len()
        invariant
            i <= layers@.len(),
            contents == contents_of(tensors@),
            view == (|x: (Vec<u32>, [usize; 3])| buffer3(x)),
            relations(contents, layers@.take(i as int)) == Ok::<Seq<Buffer>, Fault>(
                list@.map_values(view),
            ),
        decreases layers.len() - i,
    {
        let name: String = relation_tensor(layers[i]);
        proof {
            assert(layers@.take(i + 1).drop_last() =~= layers@.take(i as int));
            first_fault_counts(contents, layers@, i + 1);
        }
        let tensor: &RawTensor = match get(tensors, name.as_str()) {
            Ok(tensor) => tensor,
            Err(error) => {
                return Err(error);
            },
        };
        let one: (Vec<u32>, [usize; 3]) = match ranked3(tensor, "teacher_relation") {
            Ok(one) => one,
            Err(error) => {
                return Err(error);
            },
        };
        let ghost earlier = list@;
        list.push(one);
        assert(list@.map_values(view) =~= earlier.map_values(view).push(buffer3(one)));
        i = i + 1;
    }
    assert(layers@.take(i as int) =~= layers@);
    Ok(list)
}

proof fn first_fault_counts(contents: Contents, layers: Seq<usize>, upto: int)
    requires
        0 <= upto <= layers.len(),
    ensures
        relations(contents, layers.take(upto)) is Err ==> relations(contents, layers) == relations(
            contents,
            layers.take(upto),
        ),
    decreases layers.len() - upto,
{
    if upto < layers.len() {
        first_fault_counts(contents, layers, upto + 1);
        assert(layers.take(upto + 1).drop_last() =~= layers.take(upto));
    } else {
        assert(layers.take(upto) =~= layers);
    }
}

/// Decodes the tensors of a shard, with the relations of the given layers.
pub fn assemble(tensors: &Vec<RawTensor>, layers: &[usize]) -> (read: Result<Sample, ShardError>)
    ensures
        read matches Ok(sample) ==> loaded(contents_of(tensors@), layers@) == Ok::<
            SampleView,
            Fault,
        >(sample@),
        read matches Err(e) ==> e.fault() matches Some(f) && loaded(contents_of(tensors@), layers@)
            == Err::<SampleView, Fault>(f),
{
    let noisy: &RawTensor = match get(tensors, "noisy_latents") {
        Ok(tensor) => tensor,
        Err(error) => {
            return Err(error);
        },
    };
    let pred: &RawTensor = match get(tensors, "teacher_noise_pred") {
        Ok(tensor) => tensor,
        Err(error) => {
            return Err(error);
        },
    };
    let prompt: &RawTensor = match get(tensors, "prompt_embeds") {
        Ok(tensor) => tensor,
        Err(error) => {
            return Err(error);
        },
    };
    let relations: Vec<(Vec<u32>, [usize; 3])> = match load_relations(tensors, layers) {
        Ok(list) => list,
        Err(error) => {
            return Err(error);
        },
    };
    let noisy: (Vec<u32>, [usize; 5]) = match ranked5(noisy, "noisy_latents") {
        Ok(buffer) => buffer,
        Err(error) => {
            return Err(error);
        },
    };
    let timestep: Vec<u32> = match get(tensors, "timestep") {
        Ok(tensor) => match floats(tensor) {
            Ok(values) => values,
            Err(error) => {
                return Err(error);
            },
        },
        Err(error) => {
            return Err(error);
        },
    };
    let prompt: (Vec<u32>, [usize; 3]) = match ranked3(prompt, "prompt_embeds") {
        Ok(buffer) => buffer,
        Err(error) => {
            return Err(error);
        },
    };
    let student_prompt: Option<(Vec<u32>, [usize; 3])> = match find(
        tensors,
        "student_prompt_embeds",
    ) {
        Some(i) => match ranked3(&tensors[i], "student_prompt_embeds") {
            Ok(buffer) => Some(buffer),
            Err(error) => {
                return Err(error);
            },
        },
        None => None,
    };
    let teacher_pred: (Vec<u32>, [usize; 5]) = match ranked5(pred, "teacher_noise_pred") {
        Ok(buffer) => buffer,
        Err(error) => {
            return Err(error);
        },
    };
    Ok(Sample { noisy, timestep, prompt, student_prompt, teacher_pred, relations })
}

/// A tensor whose bytes agree with its shape decodes to as many values as the
/// shape says.
pub proof fn decoding_fills_the_shape(value: TensorValue)
    requires
        sized(value),
    ensures
        decoded(value) matches Some(values) ==> values.len() == product(value.1),
{
    reveal_strlit("F32");
    reveal_strlit("F16");
    reveal_strlit("BF16");
    reveal_strlit("I64");
    let count = product(value.1);
    assert((4 * count) / 4 == count && (2 * count) / 2 == count && (8 * count) / 8 == count);
}

proof fn contents_are_sized(read: Seq<RawTensor>)
    requires
        forall|i: int| 0 <= i < read.len() ==> sized((#[trigger] read[i]).value()),
    ensures
        forall|name: Seq<char>| #[trigger]
            contents_of(read).contains_key(name) ==> sized(contents_of(read)[name]),
    decreases read.len(),
{
    if read.len() > 0 {
        contents_are_sized(read.drop_last());
        assert(sized(read[read.len() - 1].value()));
        let earlier = contents_of(read.drop_last());
        assert forall|name: Seq<char>| #[trigger] contents_of(read).contains_key(name) implies sized(
            contents_of(read)[name],
        ) by {
            if earlier.contains_key(name) {
                assert(contents_of(read)[name] == earlier[name]);
            } else {
                assert(contents_of(read)[name] == read.last().value());
            }
        }
    }
}

proof fn relations_fill_their_shapes(contents: Contents, layers: Seq<usize>)
    requires
        forall|name: Seq<char>| #[trigger]
            contents.contains_key(name) ==> sized(contents[name]),
    ensures
        relations(contents, layers) matches Ok(list) ==> list.len() == layers.len() && forall|i: int|
            0 <= i < list.len() ==> filled(#[trigger] list[i]),
    decreases layers.len(),
{
    if layers.len() > 0 {
        relations_fill_their_shapes(contents, layers.drop_last());
        let name = relation_name(layers.last());
        if contents.contains_key(name) {
            decoding_fills_the_shape(contents[name]);
        }
    }
}

/// In what a shard decodes to, every buffer fills its shape, and there is one
/// relation for every layer asked for.
pub proof fn loaded_samples_are_well_shaped(contents: Contents, layers: Seq<usize>)
    requires
        forall|name: Seq<char>| #[trigger]
            contents.contains_key(name) ==> sized(contents[name]),
    ensures
        loaded(contents, layers) matches Ok(sample) ==> sample.well_shaped()
            && sample.relations.len() == layers.len(),
{
    if loaded(contents, layers) is Ok {
        relations_fill_their_shapes(contents, layers);
        decoding_fills_the_shape(contents["noisy_latents"@]);
        decoding_fills_the_shape(contents["prompt_embeds"@]);
        decoding_fills_the_shape(contents["teacher_noise_pred"@]);
        if contents.contains_key("student_prompt_embeds"@) {
            decoding_fills_the_shape(contents["student_prompt_embeds"@]);
        }
    }
}

/// Reads a shard from the bytes of its file, with the relations of the given
/// layers.
pub fn load_shard(bytes: &[u8], layers: &[usize]) -> (read: Result<Sample, ShardError>)
    ensures
        read matches Err(ShardError::Archive(_)) <==> !end_fits(bytes@) || archive_contents(
            bytes@,
        ) is None,
        read matches Ok(sample) ==> loaded(archive_contents(bytes@)->0, layers@) == Ok::<
            SampleView,
            Fault,
        >(sample@),
        read matches Ok(sample) ==> sample@.well_shaped(),
        read matches Err(e) ==> e.fault() matches Some(f) ==> loaded(
            archive_contents(bytes@)->0,
            layers@,
        ) == Err::<SampleView, Fault>(f),
{
    let tensors: Vec<RawTensor> = match read_archive(bytes) {
        Ok(tensors) => tensors,
        Err(error) => {
            return Err(ShardError::Archive(error));
        },
    };
    proof {
        contents_are_sized(tensors@);
        loaded_samples_are_well_shaped(contents_of(tensors@), layers@);
    }
    assemble(&tensors, layers)
}

/// The required tensor that a shard lacks, the first in the order of the list.
pub open spec fn first_missing(contents: Contents) -> Option<Seq<char>> {
    if !contents.contains_key("noisy_latents"@) {
        Some("noisy_latents"@)
    } else if !contents.contains_key("timestep"@) {
        Some("timestep"@)
    } else if !contents.contains_key("prompt_embeds"@) {
        Some("prompt_embeds"@)
    } else if !contents.contains_key("teacher_noise_pred"@) {
        Some("teacher_noise_pred"@)
    } else {
        None
    }
}

/// A file is a shard: an archive that holds every required tensor.
pub open spec fn is_shard(bytes: Seq<u8>) -> bool {
    end_fits(bytes) && archive_contents(bytes) is Some && first_missing(archive_contents(bytes)->0)
        is None
}

/// Whether the tensors include every required one; else the first that does not
/// occur.
pub fn check_required(tensors: &Vec<RawTensor>) -> (verdict: Result<(), ShardError>)
    ensures
        verdict is Ok <==> first_missing(contents_of(tensors@)) is None,
        verdict matches Err(e) ==> first_missing(contents_of(tensors@)) matches Some(name)
            && e.fault() == Some(Fault::Missing(name)),
{
    let mut i: usize = 0;
    while i < 4
        invariant
            i <= 4,
            i > 0 ==> contents_of(tensors@).contains_key("noisy_latents"@),
            i > 1 ==> contents_of(tensors@).contains_key("timestep"@),
            i > 2 ==> contents_of(tensors@).contains_key("prompt_embeds"@),
            i > 3 ==> contents_of(tensors@).contains_key("teacher_noise_pred"@),
        decreases 4 - i,
    {
        let name: &str = REQUIRED_SAMPLE_TENSORS[i];
        if let Err(error) = get(tensors, name) {
            return Err(error);
        }
        i = i + 1;
    }
    Ok(())
}

/// Accepts the bytes of a shard file if it is an archive that holds every
/// required tensor.
pub fn validate_shard(bytes: &[u8]) -> (verdict: Result<(), ShardError>)
    ensures
        verdict is Ok <==> is_shard(bytes@),
        verdict matches Err(ShardError::Archive(_)) <==> !end_fits(bytes@) || archive_contents(
            bytes@,
        ) is None,
        verdict matches Err(e) ==> e.fault() matches Some(f) ==> first_missing(
            archive_contents(bytes@)->0,
        ) matches Some(name) && f == Fault::Missing(name),
{
    match read_archive(bytes) {
        Ok(tensors) => check_required(&tensors),
        Err(error) => Err(ShardError::Archive(error)),
    }
}

/// A shard that decodes has every required tensor.
pub proof fn loaded_shards_have_the_required_tensors(contents: Contents, layers: Seq<usize>)
    ensures
        loaded(contents, layers) is Ok ==> first_missing(contents) is None,
{
}

proof fn labels_differ()
    ensures
        "F32"@ != "F16"@ && "F32"@ != "BF16"@ && "F32"@ != "I64"@,
        "F16"@ != "BF16"@ && "F16"@ != "I64"@ && "BF16"@ != "I64"@,
{
    reveal_strlit("F32");
    reveal_strlit("F16");
    reveal_strlit("BF16");
    reveal_strlit("I64");
    assert("F32"@[1] == '3' && "F16"@[1] == '1' && "I64"@[1] == '6');
    assert("BF16"@.len() == 4);
}

/// binary32 values are read as they lie in the bytes: the `k`-th from the `k`-th
/// four, the lowest byte first, and as many as there are whole fours.
pub proof fn singles_are_read_in_order(shape: Seq<usize>, data: Seq<u8>, k: int)
    requires
        0 <= k,
        4 * k + 4 <= data.len(),
    ensures
        decoded(("F32"@, shape, data)) matches Some(values) && values.len() == data.len() / 4
            && values[k] == data[4 * k] + 0x100 * data[4 * k + 1] + 0x1_0000 * data[4 * k + 2]
            + 0x100_0000 * data[4 * k + 3],
{
    bytes_weigh_in_order(data.subrange(4 * k, 4 * k + 4));
    assert(k < data.len() / 4);
}

/// binary16 and bfloat16 values are widened one by one, in the order in which they
/// lie in the bytes.
pub proof fn halves_are_read_in_order(shape: Seq<usize>, data: Seq<u8>, k: int)
    requires
        0 <= k,
        2 * k + 2 <= data.len(),
    ensures
        ({
            let half = (data[2 * k] + 0x100 * data[2 * k + 1]) as u16;
            &&& half == data[2 * k] + 0x100 * data[2 * k + 1]
            &&& decoded(("F16"@, shape, data)) matches Some(values) && values.len() == data.len()
                / 2 && values[k] == widened_half(half) as u32
            &&& decoded(("BF16"@, shape, data)) matches Some(values) && values.len() == data.len()
                / 2 && values[k] == widened_brain(half) as u32
        }),
{
    labels_differ();
    bytes_weigh_in_order(data.subrange(2 * k, 2 * k + 2));
    assert(k < data.len() / 2);
}

/// Integers of eight bytes are read as two's complement, and each becomes the
/// nearest binary32 number.
pub proof fn integers_are_read_in_order(shape: Seq<usize>, data: Seq<u8>, k: int, n: int)
    requires
        0 <= k,
        8 * k + 8 <= data.len(),
        -0x8000_0000_0000_0000 <= n < 0x8000_0000_0000_0000,
        (n - (data[8 * k] + 0x100 * data[8 * k + 1] + 0x1_0000 * data[8 * k + 2] + 0x100_0000
            * data[8 * k + 3] + 0x1_0000_0000 * data[8 * k + 4] + 0x100_0000_0000 * data[8 * k + 5]
            + 0x1_0000_0000_0000 * data[8 * k + 6] + 0x100_0000_0000_0000 * data[8 * k + 7]))
            % 0x1_0000_0000_0000_0000 == 0,
    ensures
        decoded(("I64"@, shape, data)) matches Some(values) && values.len() == data.len() / 8
            && values[k] == from_integer(n) as u32,
{
    labels_differ();
    let own = data.subrange(8 * k, 8 * k + 8);
    bytes_weigh_in_order(own);
    ranges();
    assert(k < data.len() / 8);
    assert(own[0] == data[8 * k] && own[1] == data[8 * k + 1] && own[2] == data[8 * k + 2]
        && own[3] == data[8 * k + 3] && own[4] == data[8 * k + 4] && own[5] == data[8 * k + 5]
        && own[6] == data[8 * k + 6] && own[7] == data[8 * k + 7]);
    assert(n == signed(group(data, k, 8)));
}

/// No other element type is decoded, and each of the four is, whatever the bytes.
pub proof fn four_element_types_are_decoded(value: TensorValue)
    ensures
        decoded(value) is Some <==> value.0 == "F32"@ || value.0 == "F16"@ || value.0 == "BF16"@
            || value.0 == "I64"@,
{
}

/// What a shard decodes to holds every tensor in its own place: the values that
/// its bytes decode to, under its own shape. There is a relation for every layer
/// asked for, in the order asked for.
pub proof fn samples_hold_their_tensors(
    contents: Contents,
    layers: Seq<usize>,
    sample: SampleView,
    i: int,
)
    requires
        loaded(contents, layers) == Ok::<SampleView, Fault>(sample),
    ensures
        ({
            let (noisy, prompt, own, target, time) = (
                contents["noisy_latents"@],
                contents["prompt_embeds"@],
                contents["student_prompt_embeds"@],
                contents["teacher_noise_pred"@],
                contents["timestep"@],
            );
            &&& decoded(noisy) == Some(sample.noisy.0) && sample.noisy.1 == noisy.1
            &&& decoded(prompt) == Some(sample.prompt.0) && sample.prompt.1 == prompt.1
            &&& decoded(target) == Some(sample.teacher_pred.0) && sample.teacher_pred.1 == target.1
            &&& decoded(time) == Some(sample.timestep)
            &&& sample.student_prompt is Some <==> contents.contains_key("student_prompt_embeds"@)
            &&& sample.student_prompt matches Some(x) ==> decoded(own) == Some(x.0) && x.1 == own.1
            &&& sample.noisy.1.len() == 5 && sample.teacher_pred.1.len() == 5
            &&& sample.prompt.1.len() == 3
            &&& sample.student_prompt matches Some(x) ==> x.1.len() == 3
        }),
        sample.relations.len() == layers.len(),
        0 <= i < layers.len() ==> {
            let name = "teacher_relation."@ + decimal(layers[i] as nat);
            &&& contents.contains_key(name)
            &&& decoded(contents[name]) == Some(sample.relations[i].0)
            &&& sample.relations[i].1 == contents[name].1
            &&& sample.relations[i].1.len() == 3
        },
{
    relations_hold_their_tensors(contents, layers, sample.relations, i);
}

proof fn relations_hold_their_tensors(
    contents: Contents,
    layers: Seq<usize>,
    list: Seq<Buffer>,
    i: int,
)
    requires
        relations(contents, layers) == Ok::<Seq<Buffer>, Fault>(list),
    ensures
        list.len() == layers.len(),
        0 <= i < layers.len() ==> {
            let name = "teacher_relation."@ + decimal(layers[i] as nat);
            &&& contents.contains_key(name)
            &&& decoded(contents[name]) == Some(list[i].0)
            &&& list[i].1 == contents[name].1
            &&& list[i].1.len() == 3
        },
    decreases layers.len(),
{
    if layers.len() > 0 {
        let earlier = relations(contents, layers.drop_last());
        relations_hold_their_tensors(contents, layers.drop_last(), earlier->Ok_0, i);
    }
}

/// A tensor that can stand in a role: it is there, of the rank of the role, and of
/// an element type that is decoded.
pub open spec fn serves(contents: Contents, name: Seq<char>, rank: nat) -> bool {
    &&& contents.contains_key(name)
    &&& contents[name].1.len() == rank
    &&& decoded(contents[name]) is Some
}

/// A shard decodes exactly where every tensor can stand in its role: the latent,
/// the target and the prompt, a timestep of any rank, the student's own prompt if
/// there is one, and the relation of every layer asked for.
pub proof fn shards_decode_where_their_tensors_serve(contents: Contents, layers: Seq<usize>)
    ensures
        loaded(contents, layers) is Ok <==> {
            &&& serves(contents, "noisy_latents"@, 5)
            &&& serves(contents, "teacher_noise_pred"@, 5)
            &&& serves(contents, "prompt_embeds"@, 3)
            &&& contents.contains_key("timestep"@) && decoded(contents["timestep"@]) is Some
            &&& contents.contains_key("student_prompt_embeds"@) ==> serves(
                contents,
                "student_prompt_embeds"@,
                3,
            )
            &&& forall|i: int|
                0 <= i < layers.len() ==> serves(
                    contents,
                    "teacher_relation."@ + decimal(#[trigger] layers[i] as nat),
                    3,
                )
        },
{
    relations_decode_where_they_serve(contents, layers);
}

proof fn relations_decode_where_they_serve(contents: Contents, layers: Seq<usize>)
    ensures
        relations(contents, layers) is Ok <==> forall|i: int|
            0 <= i < layers.len() ==> serves(
                contents,
                "teacher_relation."@ + decimal(#[trigger] layers[i] as nat),
                3,
            ),
    decreases layers.len(),
{
    if layers.len() > 0 {
        let shorter = layers.drop_last();
        relations_decode_where_they_serve(contents, shorter);
        let n = layers.len() - 1;
        if relations(contents, layers) is Ok {
            assert forall|i: int| 0 <= i < layers.len() implies serves(
                contents,
                "teacher_relation."@ + decimal(#[trigger] layers[i] as nat),
                3,
            ) by {
                if i < n {
                    assert(shorter[i] == layers[i]);
                }
            }
        } else {
            if forall|i: int|
                0 <= i < layers.len() ==> serves(
                    contents,
                    "teacher_relation."@ + decimal(#[trigger] layers[i] as nat),
                    3,
                ) {
                assert(serves(contents, "teacher_relation."@ + decimal(layers[n] as nat), 3));
                assert forall|i: int| 0 <= i < shorter.len() implies serves(
                    contents,
                    "teacher_relation."@ + decimal(#[trigger] shorter[i] as nat),
                    3,
                ) by {
                    assert(shorter[i] == layers[i]);
                }
            }
        }
    }
}

/// A shard is refused for a tensor that it lacks: one of the four that every shard
/// carries, and none of the four that come before it in the list. It is accepted
/// where all four are there, whatever else is.
pub proof fn refused_shards_lack_a_tensor(contents: Contents)
    ensures
        first_missing(contents) is None <==> contents.contains_key("noisy_latents"@)
            && contents.contains_key("timestep"@) && contents.contains_key("prompt_embeds"@)
            && contents.contains_key("teacher_noise_pred"@),
        first_missing(contents) matches Some(name) ==> {
            &&& !contents.contains_key(name)
            &&& name == "noisy_latents"@ || contents.contains_key("noisy_latents"@)
            &&& name == "noisy_latents"@ || name == "timestep"@ || contents.contains_key(
                "timestep"@,
            )
            &&& name == "teacher_noise_pred"@ ==> contents.contains_key("prompt_embeds"@)
            &&& name == "noisy_latents"@ || name == "timestep"@ || name == "prompt_embeds"@ || name
                == "teacher_noise_pred"@
        },
{
    reveal_strlit("noisy_latents");
    reveal_strlit("timestep");
    reveal_strlit("prompt_embeds");
    reveal_strlit("teacher_noise_pred");
    assert("teacher_noise_pred"@.len() == 18 && "noisy_latents"@.len() == 13);
    assert("timestep"@.len() == 8 && "prompt_embeds"@.len() == 13);
}

/// A fault of a shard is true of it: a tensor that is named as missing is not
/// there, and one of an element type that is not decoded has that type.
pub proof fn faults_are_true(contents: Contents, layers: Seq<usize>, fault: Fault)
    requires
        loaded(contents, layers) == Err::<SampleView, Fault>(fault),
    ensures
        match fault {
            Fault::Missing(name) => !contents.contains_key(name),
            Fault::Element(dtype) => {
                &&& dtype != "F32"@ && dtype != "F16"@ && dtype != "BF16"@ && dtype != "I64"@
                &&& exists|name: Seq<char>| #[trigger]
                    contents.contains_key(name) && contents[name].0 == dtype
            },
            Fault::Rank { label, rank, shape } => {
                &&& shape.len() != rank
                &&& label == "noisy_latents"@ || label == "teacher_noise_pred"@ ==> rank == 5
                &&& label == "prompt_embeds"@ || label == "student_prompt_embeds"@ || label
                    == "teacher_relation"@ ==> rank == 3
                &&& label != "teacher_relation"@ ==> {
                    &&& label == "noisy_latents"@ || label == "teacher_noise_pred"@ || label
                        == "prompt_embeds"@ || label == "student_prompt_embeds"@
                    &&& contents.contains_key(label) && contents[label].1 == shape
                }
                &&& label == "teacher_relation"@ ==> exists|i: int|
                    #![trigger layers[i]]
                    0 <= i < layers.len() && contents.contains_key(relation_name(layers[i]))
                        && contents[relation_name(layers[i])].1 == shape
            },
        },
{
    relation_faults_are_true(contents, layers);
    reveal_strlit("noisy_latents");
    reveal_strlit("prompt_embeds");
    reveal_strlit("student_prompt_embeds");
    reveal_strlit("teacher_noise_pred");
    reveal_strlit("teacher_relation");
    assert("noisy_latents"@[0] == 'n' && "prompt_embeds"@[0] == 'p');
    assert("noisy_latents"@.len() == 13 && "prompt_embeds"@.len() == 13);
    assert("student_prompt_embeds"@.len() == 21 && "teacher_noise_pred"@.len() == 18);
    assert("teacher_relation"@.len() == 16);
    assert(contents.contains_key("noisy_latents"@) || !contents.contains_key("noisy_latents"@));
    assert(contents.contains_key("student_prompt_embeds"@) || !contents.contains_key(
        "student_prompt_embeds"@,
    ));
}

proof fn relation_faults_are_true(contents: Contents, layers: Seq<usize>)
    ensures
        relations(contents, layers) matches Err(fault) ==> match fault {
            Fault::Missing(name) => !contents.contains_key(name),
            Fault::Element(dtype) => {
                &&& dtype != "F32"@ && dtype != "F16"@ && dtype != "BF16"@ && dtype != "I64"@
                &&& exists|name: Seq<char>| #[trigger]
                    contents.contains_key(name) && contents[name].0 == dtype
            },
            Fault::Rank { label, rank, shape } => {
                &&& shape.len() != rank && rank == 3 && label == "teacher_relation"@
                &&& exists|i: int|
                    #![trigger layers[i]]
                    0 <= i < layers.len() && contents.contains_key(relation_name(layers[i]))
                        && contents[relation_name(layers[i])].1 == shape
            },
        },
    decreases layers.len(),
{
    if layers.len() > 0 {
        let shorter = layers.drop_last();
        relation_faults_are_true(contents, shorter);
        let name = relation_name(layers.last());
        assert(contents.contains_key(name) || !contents.contains_key(name));
        assert(layers[layers.len() - 1] == layers.last());
        if let Err(Fault::Rank { label, rank, shape }) = relations(contents, shorter) {
            let i = choose|i: int|
                #![trigger shorter[i]]
                0 <= i < shorter.len() && contents.contains_key(relation_name(shorter[i]))
                    && contents[relation_name(shorter[i])].1 == shape;
            assert(layers[i] == shorter[i]);
        }
    }
}

/// A required tensor that is not there is named before anything else is said of a
/// shard: the latent, then the target, then the prompt; the timestep where the rest
/// of the shard is sound.
pub proof fn missing_tensors_come_first(contents: Contents, layers: Seq<usize>)
    ensures
        ({
            let (noisy, target, prompt, time) = (
                contents.contains_key("noisy_latents"@),
                contents.contains_key("teacher_noise_pred"@),
                contents.contains_key("prompt_embeds"@),
                contents.contains_key("timestep"@),
            );
            let verdict = loaded(contents, layers);
            &&& !noisy ==> verdict == Err::<SampleView, Fault>(Fault::Missing("noisy_latents"@))
            &&& noisy && !target ==> verdict == Err::<SampleView, Fault>(
                Fault::Missing("teacher_noise_pred"@),
            )
            &&& noisy && target && !prompt ==> verdict == Err::<SampleView, Fault>(
                Fault::Missing("prompt_embeds"@),
            )
            &&& !time && target && prompt && serves(contents, "noisy_latents"@, 5) && (forall|i: int|
                0 <= i < layers.len() ==> serves(
                    contents,
                    "teacher_relation."@ + decimal(#[trigger] layers[i] as nat),
                    3,
                )) ==> verdict == Err::<SampleView, Fault>(Fault::Missing("timestep"@))
        }),
{
    relations_decode_where_they_serve(contents, layers);
}

} // verus!
