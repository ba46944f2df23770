//! Safetensors archives as plain tensors: a name, an element type, a shape and
//! the raw little-endian bytes.
use vstd::prelude::*;
use crate::bytes::{little_endian, read_le};
use safetensors::tensor::SafeTensorError;

verus! {

/// Why the safetensors crate refused an archive.
#[verifier::external_type_specification]
#[verifier::external_body]
pub struct ExSafeTensorError(SafeTensorError);

/// One tensor of an archive: element type, shape and bytes.
pub type TensorValue = (Seq<char>, Seq<usize>, Seq<u8>);

/// The tensors of an archive, by name.
pub type Contents = Map<Seq<char>, TensorValue>;

/// One tensor read from an archive.
#[derive(Clone, Debug)]
pub struct RawTensor {
    pub name: String,
    /// The element type by its name in the format, such as `F32`.
    pub dtype: String,
    pub shape: Vec<usize>,
    pub data: Vec<u8>,
}

/// The element types that are written.
#[derive(Clone, Copy, Debug, PartialEq, Eq, Structural)]
pub enum Element {
    /// IEEE binary32.
    Single,
    /// IEEE binary16.
    Half,
    /// Signed 64-bit integers.
    Long,
}

/// One tensor to be written to an archive.
#[derive(Clone, Debug)]
pub struct NewTensor {
    pub name: String,
    pub element: Element,
    pub shape: Vec<usize>,
    pub data: Vec<u8>,
}

/// Elements in a tensor of the given shape.
pub open spec fn product(shape: Seq<usize>) -> nat
    decreases shape.len(),
{
    if shape.len() == 0 {
        1
    } else {
        product(shape.drop_last()) * shape.last() as nat
    }
}

/// The bytes that one element takes, for the element types that are decoded.
pub open spec fn element_bytes(dtype: Seq<char>) -> Option<nat> {
    if dtype == "F32"@ {
        Some(4)
    } else if dtype == "F16"@ || dtype == "BF16"@ {
        Some(2)
    } else if dtype == "I64"@ {
        Some(8)
    } else {
        None
    }
}

/// The bytes are as many as the shape and the element type ask for.
pub open spec fn sized(value: TensorValue) -> bool {
    element_bytes(value.0) matches Some(width) ==> value.2.len() == width * product(value.1)
}

impl RawTensor {
    pub open spec fn value(self) -> TensorValue {
        (self.dtype@, self.shape@, self.data@)
    }
}

impl Element {
    /// The name of the element type in the format.
    pub open spec fn label(self) -> Seq<char> {
        match self {
            Element::Single => "F32"@,
            Element::Half => "F16"@,
            Element::Long => "I64"@,
        }
    }

    /// The bytes that `count` elements take.
    pub open spec fn bytes(self, count: nat) -> nat {
        match self {
            Element::Single => 4 * count,
            Element::Half => 2 * count,
            Element::Long => 8 * count,
        }
    }
}

impl NewTensor {
    pub open spec fn value(self) -> TensorValue {
        (self.element.label(), self.shape@, self.data@)
    }

    /// The shape's element count can be formed factor by factor, and agrees with
    /// the bytes.
    pub open spec fn writable(self) -> bool {
        &&& countable(self.shape@, self.element)
        &&& self.data@.len() == self.element.bytes(product(self.shape@))
        &&& self.name@ != "__metadata__"@
    }

    /// An upper bound on what the tensor adds to the header of an archive.
    pub open spec fn header_share(self) -> nat {
        6 * self.name@.len() + 21 * self.shape@.len() + 120
    }
}

/// The elements of a shape can be counted axis by axis, and their bits together.
pub open spec fn countable(shape: Seq<usize>, element: Element) -> bool {
    &&& forall|n: int| 0 <= n <= shape.len() ==> #[trigger] product(shape.take(n)) <= usize::MAX
    &&& 8 * element.bytes(product(shape)) <= usize::MAX
}

/// The element count of a shape, where the shape is countable.
pub fn count_elements(shape: &[usize], element: Element) -> (count: Option<usize>)
    ensures
        count is Some <==> countable(shape@, element),
        count matches Some(n) ==> n == product(shape@),
{
    let mut count: usize = 1;
    let mut i: usize = 0;
    assert(shape@.take(0) =~= Seq::<usize>::empty());
    while i < shape.len()
        invariant
            i <= shape@.len(),
            count == product(shape@.take(i as int)),
            forall|n: int| 0 <= n <= i ==> #[trigger] product(shape@.take(n)) <= usize::MAX,
        decreases shape.len() - i,
    {
        proof {
            assert(shape@.take(i + 1).drop_last() =~= shape@.take(i as int));
            assert(product(shape@.take(i + 1)) == count * shape@[i as int]);
        }
        count =
        match count.checked_mul(shape[i]) {
            Some(grown) => grown,
            None => {
                return None;
            },
        };
        i = i + 1;
    }
    assert(shape@.take(i as int) =~= shape@);
    let bits: usize = match element {
        Element::Single => 32,
        Element::Half => 16,
        Element::Long => 64,
    };
    if count > usize::MAX / bits {
        return None;
    }
    Some(count)
}

/// Bytes of payload in all tensors together.
pub open spec fn payload(tensors: Seq<NewTensor>) -> nat
    decreases tensors.len(),
{
    if tensors.len() == 0 {
        0
    } else {
        payload(tensors.drop_last()) + tensors.last().data@.len()
    }
}

/// An upper bound on the header of an archive.
pub open spec fn header_bound(tensors: Seq<NewTensor>) -> nat
    decreases tensors.len(),
{
    if tensors.len() == 0 {
        16
    } else {
        header_bound(tensors.drop_last()) + tensors.last().header_share()
    }
}

/// The largest header that the format allows.
pub open spec fn header_limit() -> nat {
    100_000_000
}

/// The tensors of a list by name. Of two with one name the first counts.
pub open spec fn contents_of(read: Seq<RawTensor>) -> Contents
    decreases read.len(),
{
    if read.len() == 0 {
        Map::empty()
    } else {
        let earlier = contents_of(read.drop_last());
        let last = read.last();
        if earlier.contains_key(last.name@) {
            earlier
        } else {
            earlier.insert(last.name@, last.value())
        }
    }
}

/// The tensors to be written, by name.
pub open spec fn contents_to_be(written: Seq<NewTensor>) -> Contents
    decreases written.len(),
{
    if written.len() == 0 {
        Map::empty()
    } else {
        contents_to_be(written.drop_last()).insert(written.last().name@, written.last().value())
    }
}

/// No two tensors share a name.
pub open spec fn distinct_names(tensors: Seq<NewTensor>) -> bool {
    forall|i: int, j: int|
        0 <= i < j < tensors.len() ==> (#[trigger] tensors[i]).name@ != (
        #[trigger] tensors[j]).name@
}

/// The header length that the first eight bytes of an archive announce.
pub open spec fn announced_header(bytes: Seq<u8>) -> nat {
    little_endian(bytes.take(8))
}

/// The bytes between the announced length and the payload, where an archive has
/// that many.
pub open spec fn header_of(bytes: Seq<u8>) -> Option<Seq<u8>> {
    if bytes.len() < 8 || announced_header(bytes) > header_limit() || 8 + announced_header(bytes)
        > bytes.len() {
        None
    } else {
        Some(bytes.subrange(8, 8 + announced_header(bytes) as int))
    }
}

/// What a safetensors archive holds, or `None` where the bytes are no archive.
pub uninterp spec fn archive_contents(bytes: Seq<u8>) -> Option<Contents>;

/// The payload length that a safetensors header declares, or `None` where the
/// bytes are no header.
pub uninterp spec fn declared_payload(header: Seq<u8>) -> Option<nat>;

/// The tensors to be written, in the order in which they are handed over.
pub open spec fn named_values(tensors: Seq<NewTensor>) -> Seq<(Seq<char>, TensorValue)> {
    Seq::new(tensors.len(), |i: int| (tensors[i].name@, tensors[i].value()))
}

/// The safetensors archive of the given tensors, or `None` where there is none.
pub uninterp spec fn archive_bytes(tensors: Seq<(Seq<char>, TensorValue)>) -> Option<Seq<u8>>;

/// The end of the archive, as its own header puts it, is a machine-sized number.
pub open spec fn end_fits(bytes: Seq<u8>) -> bool {
    header_of(bytes) matches Some(header) ==> declared_payload(header) matches Some(length)
        ==> length + 8 + header.len() <= usize::MAX
}

/// Calls `serde_json::from_slice` for `safetensors::tensor::Metadata` and takes
/// its `data_len`. Claimed: on machines of one word size, the answer depends on
/// the header bytes alone.
#[verifier::external_body]
fn declared(header: &[u8]) -> (length: Option<usize>)
    ensures
        length is Some <==> declared_payload(header@) is Some,
        length matches Some(n) ==> declared_payload(header@) == Some(n as nat),
{
    let metadata: Option<safetensors::tensor::Metadata> = serde_json::from_slice(header).ok();
    metadata.map(|m| m.data_len())
}

/// Calls `safetensors::SafeTensors::deserialize` and lists its `tensors`.
/// Claimed: on machines of one word size, success and the tensors depend on the
/// bytes alone, and a tensor's bytes are as many as its shape and element type ask
/// for. Nothing is claimed of the order of the list, nor of which error is given.
/// The crate adds up the end of the archive unchecked, so that sum has to fit.
#[verifier::external_body]
fn deserialize(bytes: &[u8]) -> (read: Result<Vec<RawTensor>, SafeTensorError>)
    requires
        end_fits(bytes@),
    ensures
        read is Ok <==> archive_contents(bytes@) is Some,
        read matches Ok(tensors) ==> archive_contents(bytes@) == Some(contents_of(tensors@)),
        read matches Ok(tensors) ==> forall|i: int|
            0 <= i < tensors@.len() ==> sized((#[trigger] tensors@[i]).value()),
{
    let mut list: Vec<RawTensor> = Vec::new();
    for (name, view) in safetensors::SafeTensors::deserialize(bytes)?.tensors() {
        list.push(RawTensor {
            name,
            dtype: view.dtype().to_string(),
            shape: view.shape().to_vec(),
            data: view.data().to_vec(),
        });
    }
    Ok(list)
}

/// Calls `safetensors::serialize` on `safetensors::tensor::TensorView`s of the
/// tensors. Claimed: success and the bytes depend on the tensors alone, what was
/// written is what the archive holds, and a header that is sure to stay below the
/// format's limit is not refused. Nothing is claimed of success where the header
/// may be longer, nor of which error is given. The crate indexes out of bounds on
/// two tensors of one name, multiplies the shape unchecked and allocates the whole
/// archive, so each of these has to be sound.
#[verifier::external_body]
pub(crate) fn serialize(tensors: &Vec<NewTensor>) -> (written: Result<Vec<u8>, SafeTensorError>)
    requires
        distinct_names(tensors@),
        forall|i: int| 0 <= i < tensors@.len() ==> (#[trigger] tensors@[i]).writable(),
        payload(tensors@) + header_limit() + 8 <= isize::MAX,
    ensures
        header_bound(tensors@) <= header_limit() ==> written is Ok,
        written is Err ==> archive_bytes(named_values(tensors@)) is None,
        written matches Ok(bytes) ==> archive_bytes(named_values(tensors@)) == Some(bytes@),
        written matches Ok(bytes) ==> archive_contents(bytes@) == Some(contents_to_be(tensors@))
            && end_fits(bytes@),
{
    let mut views = Vec::new();
    for t in tensors {
        let dtype = match t.element {
            Element::Single => safetensors::Dtype::F32,
            Element::Half => safetensors::Dtype::F16,
            Element::Long => safetensors::Dtype::I64,
        };
        views.push((t.name.as_str(), safetensors::tensor::TensorView::new(dtype, t.shape.clone(), &t.data)?));
    }
    safetensors::serialize(views, None)
}

/// Why an archive was not read.
#[derive(Debug)]
pub enum ArchiveError {
    /// The bytes are no archive.
    Malformed(SafeTensorError),
    /// The header puts the end of the archive beyond the machine's address range.
    EndOverflow,
}

/// Reads an archive.
pub fn read_archive(bytes: &[u8]) -> (read: Result<Vec<RawTensor>, ArchiveError>)
    ensures
        read is Ok <==> end_fits(bytes@) && archive_contents(bytes@) is Some,
        read matches Ok(tensors) ==> archive_contents(bytes@) == Some(contents_of(tensors@)),
        read matches Ok(tensors) ==> forall|i: int|
            0 <= i < tensors@.len() ==> sized((#[trigger] tensors@[i]).value()),
        read matches Err(ArchiveError::EndOverflow) <==> !end_fits(bytes@),
{
    if bytes.len() >= 8 {
        let announced: u64 = read_le(bytes, 0, 8);
        assert(bytes@.subrange(0, 8) =~= bytes@.take(8));
        if announced <= 100_000_000 && announced as usize <= bytes.len() - 8 {
            let end: usize = 8 + announced as usize;
            let header: &[u8] = vstd::slice::slice_subrange(bytes, 8, end);
            if let Some(length) = declared(header) {
                if length > usize::MAX - end {
                    return Err(ArchiveError::EndOverflow);
                }
            }
        }
    }
    match deserialize(bytes) {
        Ok(tensors) => Ok(tensors),
        Err(error) => Err(ArchiveError::Malformed(error)),
    }
}

proof fn first_one_counts(read: Seq<RawTensor>, upto: int, name: Seq<char>)
    requires
        0 <= upto <= read.len(),
        contents_of(read.take(upto)).contains_key(name),
    ensures
        contents_of(read).contains_key(name),
        contents_of(read)[name] == contents_of(read.take(upto))[name],
    decreases read.len() - upto,
{
    if upto < read.len() {
        assert(read.take(upto + 1).drop_last() =~= read.take(upto));
        first_one_counts(read, upto + 1, name);
    } else {
        assert(read.take(upto) =~= read);
    }
}

/// The place of the first tensor called `name`, if there is one.
pub fn find(tensors: &Vec<RawTensor>, name: &str) -> (place: Option<usize>)
    ensures
        place is Some <==> contents_of(tensors@).contains_key(name@),
        place matches Some(i) ==> i < tensors@.len() && tensors@[i as int].name@ == name@
            && contents_of(tensors@)[name@] == tensors@[i as int].value(),
{
    let wanted: String = name.to_owned();
    let mut i: usize = 0;
    assert(tensors@.take(0) =~= Seq::<RawTensor>::empty());
    while i < tensors.len()
        invariant
            wanted@ == name@,
            i <= tensors@.len(),
            !contents_of(tensors@.take(i as int)).contains_key(name@),
        decreases tensors.len() - i,
    {
        assert(tensors@.take(i + 1).drop_last() =~= tensors@.take(i as int));
        if tensors[i].name == wanted {
            proof {
                first_one_counts(tensors@, i + 1, name@);
            }
            return Some(i);
        }
        i = i + 1;
    }
    assert(tensors@.take(i as int) =~= tensors@);
    None
}

/// A shape of one axis has as many elements as the axis is long, one without an
/// axis has a single element, and putting two shapes one behind the other
/// multiplies their elements.
pub proof fn shapes_multiply(first: Seq<usize>, second: Seq<usize>, n: usize)
    ensures
        product(Seq::empty()) == 1,
        product(seq![n]) == n,
        product(first + second) == product(first) * product(second),
    decreases second.len(),
{
    let none = Seq::<usize>::empty();
    assert(seq![n].drop_last() =~= none);
    assert(product(none) == 1);
    assert(product(seq![n]) == product(none) * n as nat);
    assert(1 * n as nat == n as nat);
    if second.len() == 0 {
        assert(first + second =~= first);
        assert(second =~= none);
        assert(product(first) * 1 == product(first));
    } else {
        let shorter = second.drop_last();
        shapes_multiply(first, shorter, n);
        assert((first + second).drop_last() =~= first + shorter);
        let (a, b, c): (int, int, int) = (
            product(first) as int,
            product(shorter) as int,
            second.last() as int,
        );
        assert((a * b) * c == a * (b * c)) by (nonlinear_arith);
    }
}

/// The elements of a shape of five axes.
pub proof fn five_axes_multiply(shape: Seq<usize>)
    requires
        shape.len() == 5,
    ensures
        product(shape) == shape[0] * shape[1] * shape[2] * shape[3] * shape[4],
{
    let none = Seq::<usize>::empty();
    let (a, b, c, d) = (shape.take(1), shape.take(2), shape.take(3), shape.take(4));
    assert(a.drop_last() =~= none);
    assert(b.drop_last() =~= a);
    assert(c.drop_last() =~= b);
    assert(d.drop_last() =~= c);
    assert(shape.drop_last() =~= d);
    assert(product(none) == 1);
    assert(product(a) == 1 * shape[0] as nat);
    assert(product(b) == product(a) * shape[1] as nat);
    assert(product(c) == product(b) * shape[2] as nat);
    assert(product(d) == product(c) * shape[3] as nat);
    assert(product(shape) == product(d) * shape[4] as nat);
}

/// Among tensors that were read, a name stands for the first tensor that has it,
/// and for none where no tensor has it.
pub proof fn names_stand_for_the_first(read: Seq<RawTensor>, i: int, name: Seq<char>)
    ensures
        contents_of(read).contains_key(name) <==> exists|k: int|
            0 <= k < read.len() && (#[trigger] read[k]).name@ == name,
        0 <= i < read.len() && read[i].name@ == name && (forall|k: int|
            0 <= k < i ==> (#[trigger] read[k]).name@ != name) ==> contents_of(read)[name] == (
            read[i].dtype@,
            read[i].shape@,
            read[i].data@,
        ),
    decreases read.len(),
{
    if read.len() > 0 {
        let shorter = read.drop_last();
        let last = read.len() - 1;
        names_stand_for_the_first(shorter, i, name);
        let earlier = contents_of(shorter);
        if contents_of(read).contains_key(name) {
            if earlier.contains_key(name) {
                let k = choose|k: int| 0 <= k < shorter.len() && (#[trigger] shorter[k]).name@ == name;
                assert(read[k].name@ == name);
            } else {
                assert(read[last].name@ == name);
            }
        }
        if exists|k: int| 0 <= k < read.len() && (#[trigger] read[k]).name@ == name {
            let k = choose|k: int| 0 <= k < read.len() && (#[trigger] read[k]).name@ == name;
            if k < last {
                assert(shorter[k].name@ == name);
            }
        }
        if 0 <= i < read.len() && read[i].name@ == name && (forall|k: int|
            0 <= k < i ==> (#[trigger] read[k]).name@ != name) {
            if i < last {
                assert(shorter[i] == read[i]);
                assert forall|k: int| 0 <= k < i implies (#[trigger] shorter[k]).name@ != name by {
                    assert(read[k].name@ != name);
                }
            } else if earlier.contains_key(name) {
                let k = choose|k: int| 0 <= k < shorter.len() && (#[trigger] shorter[k]).name@ == name;
                assert(read[k].name@ == name);
            }
        }
    }
}

/// An archive is to hold exactly the tensors that are handed over, each under its
/// name, where no two share one.
pub proof fn every_tensor_is_to_be_held(written: Seq<NewTensor>, i: int, name: Seq<char>)
    requires
        distinct_names(written),
    ensures
        contents_to_be(written).contains_key(name) <==> exists|k: int|
            0 <= k < written.len() && (#[trigger] written[k]).name@ == name,
        0 <= i < written.len() ==> contents_to_be(written)[written[i].name@] == (
            written[i].element.label(),
            written[i].shape@,
            written[i].data@,
        ),
    decreases written.len(),
{
    if written.len() > 0 {
        let shorter = written.drop_last();
        let last = written.len() - 1;
        assert forall|a: int, b: int| 0 <= a < b < shorter.len() implies (
        #[trigger] shorter[a]).name@ != (#[trigger] shorter[b]).name@ by {
            assert(written[a].name@ != written[b].name@);
        }
        every_tensor_is_to_be_held(shorter, i, name);
        if contents_to_be(shorter).contains_key(name) {
            let k = choose|k: int| 0 <= k < shorter.len() && (#[trigger] shorter[k]).name@ == name;
            assert(written[k].name@ == name);
        }
        if exists|k: int| 0 <= k < written.len() && (#[trigger] written[k]).name@ == name {
            let k = choose|k: int| 0 <= k < written.len() && (#[trigger] written[k]).name@ == name;
            if k < last {
                assert(shorter[k].name@ == name);
            }
        }
        assert(written[last].name@ == written.last().name@);
        if 0 <= i < last {
            assert(shorter[i] == written[i]);
            assert(written[i].name@ != written[last].name@);
        }
    }
}

/// The element types that are written are among those that are decoded, and take
/// the bytes that the format says.
pub proof fn written_elements_are_decoded(element: Element, count: nat)
    ensures
        element == Element::Single ==> element.label() == "F32"@,
        element == Element::Half ==> element.label() == "F16"@,
        element == Element::Long ==> element.label() == "I64"@,
        element_bytes(element.label()) matches Some(width) && element.bytes(count) == width * count,
        element == Element::Single ==> element.bytes(count) == 4 * count,
        element == Element::Half ==> element.bytes(count) == 2 * count,
        element == Element::Long ==> element.bytes(count) == 8 * count,
{
    reveal_strlit("F32");
    reveal_strlit("F16");
    reveal_strlit("BF16");
    reveal_strlit("I64");
    assert("F32"@[1] == '3' && "F16"@[1] == '1' && "I64"@[1] == '6');
}

/// A shape without an empty axis can be counted wherever the bits of all its
/// elements can.
pub proof fn shapes_that_fit_can_be_counted(shape: Seq<usize>, element: Element)
    requires
        forall|k: int| 0 <= k < shape.len() ==> #[trigger] shape[k] > 0,
    ensures
        countable(shape, element) <==> 8 * element.bytes(product(shape)) <= usize::MAX,
{
    assert forall|n: int| 0 <= n <= shape.len() implies #[trigger] product(shape.take(n))
        <= product(shape) by {
        crate::quant::product_grows(shape, n);
    }
}

/// The end of an archive is too far exactly where its first eight bytes announce a
/// header that it has, and that header declares more payload than a machine word
/// can count to, what comes before it included.
pub proof fn ends_are_too_far_by_their_header(bytes: Seq<u8>)
    ensures
        !end_fits(bytes) <==> bytes.len() >= 8 && {
            let n = little_endian(bytes.take(8));
            &&& n <= 100_000_000 && 8 + n <= bytes.len()
            &&& declared_payload(bytes.subrange(8, 8 + n as int)) matches Some(length) && length + 8
                + n > usize::MAX
        },
{
}

} // verus!
