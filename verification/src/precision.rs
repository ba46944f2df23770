//! Which backend computes a run, and in which float format: what is refused, and
//! with which words, before a cache is opened or a weight allocated.
use vstd::prelude::*;

verus! {

/// The format every float tensor of a run is stored and computed in.
#[derive(Clone, Copy, Debug, PartialEq, Eq, Structural)]
pub enum Precision {
    /// IEEE binary32.
    F32,
    /// IEEE binary16.
    F16,
    /// bfloat16.
    Bf16,
}

/// What computes a run.
#[derive(Clone, Copy, Debug, PartialEq, Eq, Structural)]
pub enum Backend {
    NdArray,
    Wgpu,
    Cuda,
    Tch,
}

/// What a device computes in besides binary32.
#[derive(Clone, Copy, Debug, PartialEq, Eq, Structural)]
pub struct Support {
    pub half: bool,
    pub brain: bool,
}

/// Why a precision is refused.
#[derive(Clone, Copy, Debug, PartialEq, Eq, Structural)]
pub enum PrecisionError {
    /// Training in binary16 diverges.
    NotTrainable,
    /// The ndarray backend computes in binary32 alone.
    NdArrayOnlySingle,
    /// The device has no arithmetic in the format.
    NotSupported { precision: Precision, support: Support },
}

/// Why binary16 is not trained in.
pub const NOT_TRAINABLE: &'static str =
    "--precision f16 is not usable for training this student: it goes non-finite within ~10 \
    steps and hard-fails, with or without gradient clipping (the overflow is in the forward \
    pass, at hidden layer 0 \u{2014} see docs/PERF-ROUND-1.md). Use --precision bf16 for \
    the same memory saving with a usable loss curve, or pass --allow-f16-training to \
    reproduce the failure.";

/// Why the ndarray backend takes binary32 alone.
pub const NDARRAY_ONLY_SINGLE: &'static str =
    "--backend ndarray only supports --precision f32 (burn 0.21 implements \
    FloatNdArrayElement for f32 and f64 only \u{2014} there is no f16/bf16 ndarray backend \
    to dispatch to). Use --backend wgpu for f16, or --backend cuda for f16/bf16.";

/// Where the answer on a format comes from.
pub const OWN_ANSWER: &'static str =
    ". This is the device's own answer, not a hardcoded table \u{2014} a type can be present \
    for storage and conversion and still have no arithmetic behind it, which is exactly \
    bf16's status on every graphics API wgpu targets.";

impl Precision {
    pub open spec fn label(self) -> Seq<char> {
        match self {
            Precision::F32 => "f32"@,
            Precision::F16 => "f16"@,
            Precision::Bf16 => "bf16"@,
        }
    }

    /// The name of the format on the command line.
    pub fn name(self) -> (text: &'static str)
        ensures
            text@ == self.label(),
    {
        match self {
            Precision::F32 => "f32",
            Precision::F16 => "f16",
            Precision::Bf16 => "bf16",
        }
    }

    /// Whether the device has to be asked. Binary32 is supported everywhere, so it
    /// is never asked for that.
    pub fn needs_probe(self) -> (yes: bool)
        ensures
            yes == (self != Precision::F32),
    {
        self != Precision::F32
    }
}

impl Support {
    /// The device computes in the format.
    pub open spec fn has(self, precision: Precision) -> bool {
        match precision {
            Precision::F32 => true,
            Precision::F16 => self.half,
            Precision::Bf16 => self.brain,
        }
    }

    /// The formats that the device computes in, as a list.
    pub open spec fn text(self) -> Seq<char> {
        "f32"@ + (if self.half {
            " | "@ + "f16"@
        } else {
            Seq::empty()
        }) + (if self.brain {
            " | "@ + "bf16"@
        } else {
            Seq::empty()
        })
    }
}

impl PrecisionError {
    pub open spec fn text(self, backend: Seq<char>) -> Seq<char> {
        match self {
            PrecisionError::NotTrainable => NOT_TRAINABLE@,
            PrecisionError::NdArrayOnlySingle => NDARRAY_ONLY_SINGLE@,
            PrecisionError::NotSupported { precision, support } => "--backend "@ + backend
                + " cannot compute in "@ + precision.label() + " on this device; it supports "@
                + support.text()
                + OWN_ANSWER@,
        }
    }

    /// The message for a user of the given backend.
    pub fn message(&self, backend: &str) -> (text: String)
        ensures
            text@ == self.text(backend@),
    {
        match self {
            PrecisionError::NotTrainable => NOT_TRAINABLE.to_owned(),
            PrecisionError::NdArrayOnlySingle => NDARRAY_ONLY_SINGLE.to_owned(),
            PrecisionError::NotSupported { precision, support } => {
                let mut text: String = "--backend ".to_owned();
                text.append(backend);
                text.append(" cannot compute in ");
                text.append(precision.name());
                text.append(" on this device; it supports ");
                let ghost before = text@;
                text.append("f32");
                if support.half {
                    text.append(" | ");
                    text.append("f16");
                }
                if support.brain {
                    text.append(" | ");
                    text.append("bf16");
                }
                assert(text@ =~= before + support.text());
                text.append(OWN_ANSWER);
                text
            },
        }
    }
}

/// Refuses to train in binary16, unless that is asked for in so many words.
pub fn require_trainable(precision: Precision, allow: bool) -> (verdict: Result<
    (),
    PrecisionError,
>)
    ensures
        verdict == (if precision == Precision::F16 && !allow {
            Err::<(), PrecisionError>(PrecisionError::NotTrainable)
        } else {
            Ok(())
        }),
{
    if precision == Precision::F16 && !allow {
        Err(PrecisionError::NotTrainable)
    } else {
        Ok(())
    }
}

/// Refuses anything but binary32 on the ndarray backend.
pub fn require_ndarray_f32(precision: Precision) -> (verdict: Result<(), PrecisionError>)
    ensures
        verdict == (if precision != Precision::F32 {
            Err::<(), PrecisionError>(PrecisionError::NdArrayOnlySingle)
        } else {
            Ok(())
        }),
{
    if precision != Precision::F32 {
        Err(PrecisionError::NdArrayOnlySingle)
    } else {
        Ok(())
    }
}

/// Refuses a format that the device has no arithmetic in. `support` is what the
/// device answered; for binary32 it is not looked at.
pub fn require_dtype(precision: Precision, support: Support) -> (verdict: Result<
    (),
    PrecisionError,
>)
    ensures
        verdict == (if support.has(precision) {
            Ok::<(), PrecisionError>(())
        } else {
            Err(PrecisionError::NotSupported { precision, support })
        }),
{
    let supported: bool = match precision {
        Precision::F32 => true,
        Precision::F16 => support.half,
        Precision::Bf16 => support.brain,
    };
    if supported {
        Ok(())
    } else {
        Err(PrecisionError::NotSupported { precision, support })
    }
}

/// Binary32 is accepted whatever a device answers.
pub proof fn single_needs_no_answer(support: Support)
    ensures
        support.has(Precision::F32),
{
}

/// The backend of the given name.
pub open spec fn backend_named(name: Seq<char>) -> Option<Backend> {
    if name == "ndarray"@ {
        Some(Backend::NdArray)
    } else if name == "wgpu"@ {
        Some(Backend::Wgpu)
    } else if name == "cuda"@ {
        Some(Backend::Cuda)
    } else if name == "tch"@ {
        Some(Backend::Tch)
    } else {
        None
    }
}

/// The backend of the given name, or the message for a name that none has.
pub fn parse_backend(name: &str) -> (backend: Result<Backend, String>)
    ensures
        backend matches Ok(b) ==> backend_named(name@) == Some(b),
        backend matches Err(text) ==> backend_named(name@) is None && text@ == "unknown backend "@
            + name@ + "; use ndarray | wgpu | cuda | tch"@,
{
    let text: String = name.to_owned();
    if text == "ndarray".to_owned() {
        return Ok(Backend::NdArray);
    }
    if text == "wgpu".to_owned() {
        return Ok(Backend::Wgpu);
    }
    if text == "cuda".to_owned() {
        return Ok(Backend::Cuda);
    }
    if text == "tch".to_owned() {
        return Ok(Backend::Tch);
    }
    let mut message: String = "unknown backend ".to_owned();
    message.append(name);
    message.append("; use ndarray | wgpu | cuda | tch");
    Err(message)
}

/// Every backend has one name, and no other name is known.
pub proof fn backends_have_their_names(name: Seq<char>)
    ensures
        backend_named(name) == Some(Backend::NdArray) <==> name == "ndarray"@,
        backend_named(name) == Some(Backend::Wgpu) <==> name == "wgpu"@,
        backend_named(name) == Some(Backend::Cuda) <==> name == "cuda"@,
        backend_named(name) == Some(Backend::Tch) <==> name == "tch"@,
{
    reveal_strlit("ndarray");
    reveal_strlit("wgpu");
    reveal_strlit("cuda");
    reveal_strlit("tch");
    assert("ndarray"@.len() == 7 && "wgpu"@.len() == 4 && "cuda"@.len() == 4 && "tch"@.len() == 3);
    assert("wgpu"@[0] != "cuda"@[0]);
}

/// A device computes in each of the narrow formats exactly where it said so of that
/// format, whatever it said of the other.
pub proof fn answers_are_taken_format_by_format(support: Support, other: Support)
    ensures
        support.has(Precision::F16) <==> support.half,
        support.has(Precision::Bf16) <==> support.brain,
        support.half == other.half ==> support.has(Precision::F16) == other.has(Precision::F16),
        support.brain == other.brain ==> support.has(Precision::Bf16) == other.has(Precision::Bf16),
{
}

/// No two formats share a name.
pub proof fn formats_have_their_names(a: Precision, b: Precision)
    ensures
        a.label() == b.label() ==> a == b,
{
    reveal_strlit("f32");
    reveal_strlit("f16");
    reveal_strlit("bf16");
    assert("f32"@[1] == '3' && "f16"@[1] == '1' && "bf16"@.len() == 4);
}

} // verus!
