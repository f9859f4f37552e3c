//! Handles: 256-bit identifiers of build artifacts, and the tasks that relate
//! them.
//!
//! A handle names an object either by carrying it (a literal of up to 31
//! bytes), by its content hash (canonical), or by a number that only means
//! something inside one process (local). Packed, a handle is 32 bytes whose
//! last byte describes the rest:
//!
//! ```text
//! literal:    | content (31 bytes)                                  | aa1sssss |
//! canonical:  | hash (16 bytes) | size (8 bytes) | hash (7 bytes)   | aa000 1 oo |
//! local:      | id (8 bytes) | 0 (8 bytes) | size (8 bytes) | 0 (7) | aa000 0 oo |
//! ```
//!
//! `aa` is the accessibility, `sssss` the literal's length and `oo` the kind
//! of object. Numbers are little-endian. As text, the 32 bytes are read as
//! four little-endian 64-bit words, each written in lower-case hexadecimal
//! without leading zeros, with a dash between them.

use crate::text::{
    hex_chars, hex_text, join, parse_hex_u64, parse_unsigned, split, split_fields, string_of,
};
use vstd::bytes::{
    spec_u64_from_le_bytes, spec_u64_to_le_bytes, u64_from_le_bytes, u64_to_le_bytes,
};
use vstd::prelude::*;
use vstd::slice::slice_subrange;
use vstd::string::StringExecFns;

verus! {

/// Bytes of a packed handle taken by the byte that describes it.
pub const METADATA_LENGTH: usize = 1;

/// Bytes of a 64-bit number.
pub const UINT64_LENGTH: usize = 8;

/// Bytes of a packed handle.
pub const HANDLE_LENGTH: usize = 32;

/// Bytes of a literal's content.
pub const LITERAL_CONTENT_LENGTH: usize = 31;

/// Bytes of a canonical handle's hash.
pub const CANONICAL_HASH_LENGTH: usize = 23;

/// How a parent was combined into its child.
#[derive(Clone, Copy, Debug, PartialEq, Eq, Hash, Structural)]
pub enum Operation {
    Apply,
    Eval,
    Fill,
}

/// How eagerly the object behind a handle is to be had.
#[derive(Clone, Copy, Debug, PartialEq, Eq, Hash, Structural)]
pub enum Accessibility {
    Strict,
    Shallow,
    Lazy,
}

/// The kind of object behind a handle that is no literal.
#[derive(Clone, Copy, Debug, PartialEq, Eq, Hash, Structural)]
pub enum Object {
    Blob,
    Tree,
    Thunk,
    Tag,
}

/// What names an object that is not carried in its handle.
#[derive(Clone, Copy, Debug, Eq, Hash)]
pub enum Nonliteral {
    /// The object's content hash.
    Canonical([u8; CANONICAL_HASH_LENGTH]),
    /// A number that one process gave the object.
    Local(u64),
}

/// What a handle holds besides its size and accessibility.
#[derive(Clone, Copy, Debug, Eq, Hash)]
pub enum Content {
    Other { object_type: Object, data: Nonliteral },
    /// The object itself, in the first `size` bytes.
    Literal([u8; LITERAL_CONTENT_LENGTH]),
}

/// The identifier of a build artifact.
#[derive(Clone, Copy, Debug, Eq, Hash)]
pub struct Handle {
    /// Number of entries or of bytes of the object, by its kind.
    pub size: u64,
    pub accessibility: Accessibility,
    pub content: Content,
}

/// A handle that took part in producing another, and how.
#[derive(Clone, Copy, Debug, Eq, Hash)]
pub struct Task {
    pub handle: Handle,
    pub operation: Operation,
}

/// Why packed bytes or a code are no value of this module.
#[derive(Clone, Copy, Debug, PartialEq, Eq, Structural)]
pub enum DecodeError {
    /// The two accessibility bits hold three.
    InvalidAccessibility,
    /// A code above three was given for a kind of object.
    InvalidObject,
    /// A code above two was given for an operation.
    InvalidOperation,
}

/// Why a text is not the text of four 64-bit words.
#[derive(Clone, Copy, Debug, PartialEq, Eq, Structural)]
pub enum FormatError {
    /// A field is no hexadecimal numeral of at most 64 bits.
    InvalidField,
    /// Every field is a numeral, but there are not four of them.
    FieldCount,
}

/// Why a text is not the text of a handle.
#[derive(Clone, Copy, Debug, PartialEq, Eq, Structural)]
pub enum HandleError {
    Format(FormatError),
    Decode(DecodeError),
}

impl PartialEq for Nonliteral {
    fn eq(&self, other: &Self) -> (r: bool) {
        match (self, other) {
            (Nonliteral::Canonical(a), Nonliteral::Canonical(b)) => same_bytes(a, b),
            (Nonliteral::Local(a), Nonliteral::Local(b)) => *a == *b,
            _ => false,
        }
    }
}

impl vstd::std_specs::cmp::PartialEqSpecImpl for Nonliteral {
    open spec fn obeys_eq_spec() -> bool {
        true
    }

    open spec fn eq_spec(&self, other: &Self) -> bool {
        *self == *other
    }
}

/// Whether two arrays hold the same bytes.
fn same_bytes<const N: usize>(a: &[u8; N], b: &[u8; N]) -> (r: bool)
    ensures
        r == (*a == *b),
{
    let mut i: usize = 0;
    while i < N
        invariant
            i <= N,
            forall|j: int| 0 <= j < i ==> a[j] == b[j],
        decreases N - i,
    {
        if a[i] != b[i] {
            return false;
        }
        i += 1;
    }
    assert(*a =~= *b);
    true
}

impl PartialEq for Content {
    fn eq(&self, other: &Self) -> (r: bool) {
        match (self, other) {
            (Content::Literal(a), Content::Literal(b)) => same_bytes(a, b),
            (
                Content::Other { object_type: t1, data: d1 },
                Content::Other { object_type: t2, data: d2 },
            ) => *t1 == *t2 && *d1 == *d2,
            _ => false,
        }
    }
}

impl vstd::std_specs::cmp::PartialEqSpecImpl for Content {
    open spec fn obeys_eq_spec() -> bool {
        true
    }

    open spec fn eq_spec(&self, other: &Self) -> bool {
        *self == *other
    }
}

impl PartialEq for Handle {
    fn eq(&self, other: &Self) -> (r: bool) {
        self.size == other.size && self.accessibility == other.accessibility && self.content
            == other.content
    }
}

impl vstd::std_specs::cmp::PartialEqSpecImpl for Handle {
    open spec fn obeys_eq_spec() -> bool {
        true
    }

    open spec fn eq_spec(&self, other: &Self) -> bool {
        *self == *other
    }
}

impl PartialEq for Task {
    fn eq(&self, other: &Self) -> (r: bool) {
        self.handle == other.handle && self.operation == other.operation
    }
}

impl vstd::std_specs::cmp::PartialEqSpecImpl for Task {
    open spec fn obeys_eq_spec() -> bool {
        true
    }

    open spec fn eq_spec(&self, other: &Self) -> bool {
        *self == *other
    }
}

/// What names an object that is not carried in its handle, with the hash as
/// a sequence of 23 bytes.
pub enum NonliteralView {
    Canonical(Seq<u8>),
    Local(u64),
}

/// What a handle holds besides its size and accessibility, with a literal as
/// a sequence of 31 bytes.
pub enum ContentView {
    Other { object_type: Object, data: NonliteralView },
    Literal(Seq<u8>),
}

/// A handle as a mathematical value.
pub struct HandleView {
    pub size: u64,
    pub accessibility: Accessibility,
    pub content: ContentView,
}

impl View for Nonliteral {
    type V = NonliteralView;

    open spec fn view(&self) -> NonliteralView {
        match *self {
            Nonliteral::Canonical(hash) => NonliteralView::Canonical(hash@),
            Nonliteral::Local(id) => NonliteralView::Local(id),
        }
    }
}

impl View for Content {
    type V = ContentView;

    open spec fn view(&self) -> ContentView {
        match *self {
            Content::Other { object_type, data } => ContentView::Other {
                object_type,
                data: data@,
            },
            Content::Literal(bytes) => ContentView::Literal(bytes@),
        }
    }
}

impl View for Handle {
    type V = HandleView;

    open spec fn view(&self) -> HandleView {
        HandleView { size: self.size, accessibility: self.accessibility, content: self.content@ }
    }
}

impl HandleView {
    /// The byte sequences have the lengths that the packed form gives them.
    /// This holds of the view of every handle.
    pub open spec fn well_shaped(self) -> bool {
        match self.content {
            ContentView::Literal(bytes) => bytes.len() == LITERAL_CONTENT_LENGTH,
            ContentView::Other { object_type, data: NonliteralView::Canonical(hash) } => hash.len()
                == CANONICAL_HASH_LENGTH,
            ContentView::Other { object_type, data: NonliteralView::Local(id) } => true,
        }
    }

    /// Well shaped, and a literal's size is the length of something that fits
    /// in its content.
    pub open spec fn well_formed(self) -> bool {
        &&& self.well_shaped()
        &&& self.content is Literal ==> self.size <= LITERAL_CONTENT_LENGTH
    }
}

/// The number that stands for an accessibility in the top two bits of the
/// last byte.
pub open spec fn accessibility_code(a: Accessibility) -> u8 {
    match a {
        Accessibility::Strict => 0,
        Accessibility::Shallow => 1,
        Accessibility::Lazy => 2,
    }
}

/// The accessibility that a number stands for; three and above stand for
/// none.
pub open spec fn accessibility_of(code: u8) -> Result<Accessibility, DecodeError> {
    if code == 0 {
        Ok(Accessibility::Strict)
    } else if code == 1 {
        Ok(Accessibility::Shallow)
    } else if code == 2 {
        Ok(Accessibility::Lazy)
    } else {
        Err(DecodeError::InvalidAccessibility)
    }
}

/// The number that stands for a kind of object in the low two bits of the
/// last byte.
pub open spec fn object_code(o: Object) -> u8 {
    match o {
        Object::Tree => 0,
        Object::Thunk => 1,
        Object::Blob => 2,
        Object::Tag => 3,
    }
}

/// The kind of object that a number stands for; four and above stand for
/// none.
pub open spec fn object_of(code: u8) -> Result<Object, DecodeError> {
    if code == 0 {
        Ok(Object::Tree)
    } else if code == 1 {
        Ok(Object::Thunk)
    } else if code == 2 {
        Ok(Object::Blob)
    } else if code == 3 {
        Ok(Object::Tag)
    } else {
        Err(DecodeError::InvalidObject)
    }
}

/// The number that stands for an operation on the wire.
pub open spec fn operation_code(o: Operation) -> u8 {
    match o {
        Operation::Apply => 0,
        Operation::Eval => 1,
        Operation::Fill => 2,
    }
}

/// The operation that a number stands for; three and above stand for none.
pub open spec fn operation_of(code: u8) -> Result<Operation, DecodeError> {
    if code == 0 {
        Ok(Operation::Apply)
    } else if code == 1 {
        Ok(Operation::Eval)
    } else if code == 2 {
        Ok(Operation::Fill)
    } else {
        Err(DecodeError::InvalidOperation)
    }
}

/// Bit of the last byte that marks a literal.
pub const LITERAL_FLAG: u8 = 0x20;

/// Bits of the last byte that hold a literal's size.
pub const LITERAL_SIZE_MASK: u8 = 0x1f;

/// Bit of the last byte that marks a canonical handle among those that are
/// no literals.
pub const CANONICAL_FLAG: u8 = 0x04;

/// Bits of the last byte that hold the kind of object.
pub const OBJECT_MASK: u8 = 0x03;

/// `n` zero bytes.
pub open spec fn zeros(n: nat) -> Seq<u8> {
    Seq::new(n, |i: int| 0u8)
}

/// The last byte of a packed handle.
pub open spec fn metadata_of(h: HandleView) -> u8 {
    let access = accessibility_code(h.accessibility) << 6;
    match h.content {
        ContentView::Literal(bytes) => access | LITERAL_FLAG | ((h.size & 0xff) as u8),
        ContentView::Other { object_type, data: NonliteralView::Canonical(hash) } => access
            | object_code(object_type) | CANONICAL_FLAG,
        ContentView::Other { object_type, data: NonliteralView::Local(id) } => access
            | object_code(object_type),
    }
}

/// The 32 bytes of a handle.
pub open spec fn pack(h: HandleView) -> Seq<u8> {
    match h.content {
        ContentView::Literal(bytes) => bytes.push(metadata_of(h)),
        ContentView::Other { object_type, data: NonliteralView::Canonical(hash) } => (hash.subrange(
            0,
            16,
        ) + spec_u64_to_le_bytes(h.size) + hash.subrange(16, 23)).push(metadata_of(h)),
        ContentView::Other { object_type, data: NonliteralView::Local(id) } => (
        spec_u64_to_le_bytes(id) + zeros(8) + spec_u64_to_le_bytes(h.size) + zeros(7)).push(
            metadata_of(h),
        ),
    }
}

/// The handle that 32 bytes hold, or why they hold none.
pub open spec fn unpack(buf: Seq<u8>) -> Result<HandleView, DecodeError> {
    let metadata = buf[31];
    match accessibility_of(metadata >> 6) {
        Err(e) => Err(e),
        Ok(accessibility) => if metadata & LITERAL_FLAG != 0 {
            Ok(
                HandleView {
                    size: (metadata & LITERAL_SIZE_MASK) as u64,
                    accessibility,
                    content: ContentView::Literal(buf.subrange(0, 31)),
                },
            )
        } else {
            match object_of(metadata & OBJECT_MASK) {
                Err(e) => Err(e),
                Ok(object_type) => {
                    let size = spec_u64_from_le_bytes(buf.subrange(16, 24));
                    let data = if metadata & CANONICAL_FLAG != 0 {
                        NonliteralView::Canonical(buf.subrange(0, 16) + buf.subrange(24, 31))
                    } else {
                        NonliteralView::Local(spec_u64_from_le_bytes(buf.subrange(0, 8)))
                    };
                    Ok(
                        HandleView {
                            size,
                            accessibility,
                            content: ContentView::Other { object_type, data },
                        },
                    )
                },
            }
        },
    }
}

/// The 32 bytes that four words are in little-endian order.
pub open spec fn bytes_of_words(words: Seq<u64>) -> Seq<u8> {
    spec_u64_to_le_bytes(words[0]) + spec_u64_to_le_bytes(words[1]) + spec_u64_to_le_bytes(
        words[2],
    ) + spec_u64_to_le_bytes(words[3])
}

/// The four words that 32 bytes are in little-endian order.
pub open spec fn words_of_bytes(buf: Seq<u8>) -> Seq<u64> {
    seq![
        spec_u64_from_le_bytes(buf.subrange(0, 8)),
        spec_u64_from_le_bytes(buf.subrange(8, 16)),
        spec_u64_from_le_bytes(buf.subrange(16, 24)),
        spec_u64_from_le_bytes(buf.subrange(24, 32)),
    ]
}

/// The word that a field writes in hexadecimal, if it writes one.
pub open spec fn field_word(field: Seq<char>) -> Option<u64> {
    match parse_unsigned(field, 16, u64::MAX as int) {
        Some(v) => Some(v as u64),
        None => None,
    }
}

/// The words that the fields write, if each field writes one.
pub open spec fn field_words(fields: Seq<Seq<char>>) -> Option<Seq<u64>> {
    if forall|i: int| 0 <= i < fields.len() ==> (#[trigger] field_word(fields[i])) is Some {
        Some(Seq::new(fields.len(), |i: int| field_word(fields[i]).unwrap()))
    } else {
        None
    }
}

/// The handle that a text names, or why it names none. A field that is no
/// numeral is reported before a wrong number of fields, and that before
/// bytes that hold no handle.
pub open spec fn decode_text(s: Seq<char>) -> Result<HandleView, HandleError> {
    match field_words(split(s, '-')) {
        None => Err(HandleError::Format(FormatError::InvalidField)),
        Some(words) => if words.len() != 4 {
            Err(HandleError::Format(FormatError::FieldCount))
        } else {
            match unpack(bytes_of_words(words)) {
                Ok(h) => Ok(h),
                Err(e) => Err(HandleError::Decode(e)),
            }
        },
    }
}

/// The text of a handle.
pub open spec fn encode_text(h: HandleView) -> Seq<char> {
    let words = words_of_bytes(pack(h));
    join(
        seq![
            hex_text(words[0] as nat),
            hex_text(words[1] as nat),
            hex_text(words[2] as nat),
            hex_text(words[3] as nat),
        ],
        '-',
    )
}

impl TryFrom<u8> for Accessibility {
    type Error = DecodeError;

    fn try_from(value: u8) -> (r: Result<Self, DecodeError>) {
        match value {
            0 => Ok(Accessibility::Strict),
            1 => Ok(Accessibility::Shallow),
            2 => Ok(Accessibility::Lazy),
            _ => Err(DecodeError::InvalidAccessibility),
        }
    }
}

impl vstd::std_specs::convert::TryFromSpecImpl<u8> for Accessibility {
    open spec fn obeys_try_from_spec() -> bool {
        true
    }

    open spec fn try_from_spec(value: u8) -> Result<Self, DecodeError> {
        accessibility_of(value)
    }
}

impl From<Accessibility> for u8 {
    fn from(val: Accessibility) -> (r: u8) {
        match val {
            Accessibility::Strict => 0,
            Accessibility::Shallow => 1,
            Accessibility::Lazy => 2,
        }
    }
}

impl vstd::std_specs::convert::FromSpecImpl<Accessibility> for u8 {
    open spec fn obeys_from_spec() -> bool {
        true
    }

    open spec fn from_spec(val: Accessibility) -> u8 {
        accessibility_code(val)
    }
}

impl TryFrom<u8> for Object {
    type Error = DecodeError;

    fn try_from(value: u8) -> (r: Result<Self, DecodeError>) {
        match value {
            0 => Ok(Object::Tree),
            1 => Ok(Object::Thunk),
            2 => Ok(Object::Blob),
            3 => Ok(Object::Tag),
            _ => Err(DecodeError::InvalidObject),
        }
    }
}

impl vstd::std_specs::convert::TryFromSpecImpl<u8> for Object {
    open spec fn obeys_try_from_spec() -> bool {
        true
    }

    open spec fn try_from_spec(value: u8) -> Result<Self, DecodeError> {
        object_of(value)
    }
}

impl From<Object> for u8 {
    fn from(val: Object) -> (r: u8) {
        match val {
            Object::Tree => 0,
            Object::Thunk => 1,
            Object::Blob => 2,
            Object::Tag => 3,
        }
    }
}

impl vstd::std_specs::convert::FromSpecImpl<Object> for u8 {
    open spec fn obeys_from_spec() -> bool {
        true
    }

    open spec fn from_spec(val: Object) -> u8 {
        object_code(val)
    }
}

impl TryFrom<u8> for Operation {
    type Error = DecodeError;

    fn try_from(value: u8) -> (r: Result<Self, DecodeError>) {
        match value {
            0 => Ok(Operation::Apply),
            1 => Ok(Operation::Eval),
            2 => Ok(Operation::Fill),
            _ => Err(DecodeError::InvalidOperation),
        }
    }
}

impl vstd::std_specs::convert::TryFromSpecImpl<u8> for Operation {
    open spec fn obeys_try_from_spec() -> bool {
        true
    }

    open spec fn try_from_spec(value: u8) -> Result<Self, DecodeError> {
        operation_of(value)
    }
}

impl From<Operation> for u8 {
    fn from(val: Operation) -> (r: u8) {
        match val {
            Operation::Apply => 0,
            Operation::Eval => 1,
            Operation::Fill => 2,
        }
    }
}

impl vstd::std_specs::convert::FromSpecImpl<Operation> for u8 {
    open spec fn obeys_from_spec() -> bool {
        true
    }

    open spec fn from_spec(val: Operation) -> u8 {
        operation_code(val)
    }
}

/// Copies `n` bytes of `src`, from index `from` on, over those of `dst` from
/// index `at` on.
fn copy_bytes<const N: usize>(dst: &mut [u8; N], at: usize, src: &[u8], from: usize, n: usize)
    requires
        at + n <= N,
        from + n <= src@.len(),
    ensures
        forall|i: int|
            0 <= i < N ==> #[trigger] final(dst)@[i] == if at <= i < at + n {
                src@[from + i - at]
            } else {
                old(dst)@[i]
            },
{
    let len = src.len();
    let mut k: usize = 0;
    while k < n
        invariant
            k <= n,
            at + n <= N,
            from + n <= src@.len(),
            src@.len() == len,
            forall|i: int|
                0 <= i < N ==> #[trigger] dst@[i] == if at <= i < at + k {
                    src@[from + i - at]
                } else {
                    old(dst)@[i]
                },
        decreases n - k,
    {
        dst[at + k] = src[from + k];
        k += 1;
    }
}

impl Handle {
    /// Whether a literal's size is the length of something that fits in its
    /// content. Handles that are no literals are always well formed.
    pub open spec fn well_formed(&self) -> bool {
        self@.well_formed()
    }

    /// The 32 bytes of the handle.
    pub fn to_buffer(&self) -> (out: [u8; HANDLE_LENGTH])
        ensures
            out@ == pack(self@),
    {
        let mut out = [0u8; HANDLE_LENGTH];
        let access: u8 = u8::from(self.accessibility) << 6;
        match &self.content {
            Content::Literal(data) => {
                copy_bytes(&mut out, 0, data.as_slice(), 0, LITERAL_CONTENT_LENGTH);
                let size = self.size;
                assert(size & 0xff < 256) by (bit_vector);
                out[HANDLE_LENGTH - 1] = access | LITERAL_FLAG | (size & 0xff) as u8;
            },
            Content::Other { object_type, data } => {
                let size_bytes = u64_to_le_bytes(self.size);
                copy_bytes(&mut out, UINT64_LENGTH * 2, size_bytes.as_slice(), 0, UINT64_LENGTH);
                match data {
                    Nonliteral::Canonical(hash) => {
                        copy_bytes(&mut out, 0, hash.as_slice(), 0, UINT64_LENGTH * 2);
                        copy_bytes(
                            &mut out,
                            UINT64_LENGTH * 3,
                            hash.as_slice(),
                            UINT64_LENGTH * 2,
                            UINT64_LENGTH - 1,
                        );
                        out[HANDLE_LENGTH - 1] = access | u8::from(*object_type) | CANONICAL_FLAG;
                    },
                    Nonliteral::Local(id) => {
                        let id_bytes = u64_to_le_bytes(*id);
                        copy_bytes(&mut out, 0, id_bytes.as_slice(), 0, UINT64_LENGTH);
                        out[HANDLE_LENGTH - 1] = access | u8::from(*object_type);
                    },
                }
            },
        }
        assert(out@ =~= pack(self@));
        out
    }

    /// The handle that 32 bytes hold.
    pub fn from_buffer(buf: &[u8; HANDLE_LENGTH]) -> (r: Result<Handle, DecodeError>)
        ensures
            match r {
                Ok(h) => unpack(buf@) == Ok::<HandleView, DecodeError>(h@),
                Err(e) => unpack(buf@) == Err::<HandleView, DecodeError>(e),
            },
    {
        let metadata: u8 = buf[HANDLE_LENGTH - 1];
        let accessibility = match Accessibility::try_from(metadata >> 6) {
            Ok(a) => a,
            Err(e) => {
                return Err(e);
            },
        };
        if metadata & LITERAL_FLAG != 0 {
            let mut content = [0u8; LITERAL_CONTENT_LENGTH];
            copy_bytes(&mut content, 0, buf.as_slice(), 0, LITERAL_CONTENT_LENGTH);
            assert(content@ =~= buf@.subrange(0, 31));
            let literal_size = metadata & LITERAL_SIZE_MASK;
            return Ok(
                Handle {
                    size: literal_size as u64,
                    accessibility,
                    content: Content::Literal(content),
                },
            );
        }
        let object_type = match Object::try_from(metadata & OBJECT_MASK) {
            Ok(o) => o,
            Err(e) => {
                return Err(e);
            },
        };
        let size = u64_from_le_bytes(
            slice_subrange(buf.as_slice(), UINT64_LENGTH * 2, UINT64_LENGTH * 3),
        );
        if metadata & CANONICAL_FLAG != 0 {
            let mut hash = [0u8; CANONICAL_HASH_LENGTH];
            copy_bytes(&mut hash, 0, buf.as_slice(), 0, UINT64_LENGTH * 2);
            copy_bytes(
                &mut hash,
                UINT64_LENGTH * 2,
                buf.as_slice(),
                UINT64_LENGTH * 3,
                UINT64_LENGTH - 1,
            );
            assert(hash@ =~= buf@.subrange(0, 16) + buf@.subrange(24, 31));
            return Ok(
                Handle {
                    size,
                    accessibility,
                    content: Content::Other { object_type, data: Nonliteral::Canonical(hash) },
                },
            );
        }
        let local_id = u64_from_le_bytes(slice_subrange(buf.as_slice(), 0, UINT64_LENGTH));
        Ok(
            Handle {
                size,
                accessibility,
                content: Content::Other { object_type, data: Nonliteral::Local(local_id) },
            },
        )
    }

    /// Reads a handle from its text: four hexadecimal numerals of at most 64
    /// bits each, with a dash between them. For example `d9-0-4-0` or
    /// `10-0-0-2400000000000000`.
    pub fn from_hex(input: &str) -> (r: Result<Handle, HandleError>)
        ensures
            match r {
                Ok(h) => decode_text(input@) == Ok::<HandleView, HandleError>(h@),
                Err(e) => decode_text(input@) == Err::<HandleView, HandleError>(e),
            },
    {
        let fields = split_fields(input, '-');
        let ghost texts = split(input@, '-');
        let mut words: Vec<u64> = Vec::new();
        let mut i: usize = 0;
        while i < fields.len()
            invariant
                i <= fields.len(),
                texts == crate::text::field_views(fields@),
                texts == split(input@, '-'),
                words@.len() == i,
                forall|j: int| 0 <= j < i ==> #[trigger] field_word(texts[j]) == Some(words@[j]),
            decreases fields.len() - i,
        {
            match parse_hex_u64(&fields[i]) {
                None => {
                    assert(field_word(texts[i as int]) is None);
                    return Err(HandleError::Format(FormatError::InvalidField));
                },
                Some(word) => {
                    words.push(word);
                },
            }
            i += 1;
        }
        assert(field_words(texts) == Some(words@)) by {
            assert(Seq::new(texts.len(), |i: int| field_word(texts[i]).unwrap()) =~= words@);
        }
        if words.len() != 4 {
            return Err(HandleError::Format(FormatError::FieldCount));
        }
        let mut buf = [0u8; HANDLE_LENGTH];
        let mut k: usize = 0;
        while k < 4
            invariant
                k <= 4,
                words@.len() == 4,
                forall|j: int|
                    0 <= j < k ==> buf@.subrange(8 * j, 8 * j + 8) == spec_u64_to_le_bytes(
                        #[trigger] words@[j],
                    ),
            decreases 4 - k,
        {
            let bytes = u64_to_le_bytes(words[k]);
            let ghost before = buf@;
            copy_bytes(&mut buf, UINT64_LENGTH * k, bytes.as_slice(), 0, UINT64_LENGTH);
            assert(buf@.subrange(8 * k, 8 * k + 8) =~= bytes@);
            assert forall|j: int| 0 <= j < k implies buf@.subrange(8 * j, 8 * j + 8)
                == spec_u64_to_le_bytes(#[trigger] words@[j]) by {
                assert(buf@.subrange(8 * j, 8 * j + 8) =~= before.subrange(8 * j, 8 * j + 8));
            }
            k += 1;
        }
        assert(buf@ =~= bytes_of_words(words@)) by {
            assert(buf@.subrange(0, 8) == spec_u64_to_le_bytes(words@[0]));
            assert(buf@.subrange(8, 16) == spec_u64_to_le_bytes(words@[1]));
            assert(buf@.subrange(16, 24) == spec_u64_to_le_bytes(words@[2]));
            assert(buf@.subrange(24, 32) == spec_u64_to_le_bytes(words@[3]));
            assert(buf@ =~= buf@.subrange(0, 8) + buf@.subrange(8, 16) + buf@.subrange(16, 24)
                + buf@.subrange(24, 32));
        }
        match Handle::from_buffer(&buf) {
            Ok(h) => Ok(h),
            Err(e) => Err(HandleError::Decode(e)),
        }
    }

    /// The text of the handle: its 32 bytes as four little-endian words, each
    /// in lower-case hexadecimal without leading zeros, with a dash between
    /// them.
    pub fn to_hex(&self) -> (s: String)
        ensures
            s@ == encode_text(self@),
    {
        let buf = self.to_buffer();
        let mut out: Vec<char> = Vec::new();
        let ghost words = words_of_bytes(buf@);
        let ghost texts = seq![
            hex_text(words[0] as nat),
            hex_text(words[1] as nat),
            hex_text(words[2] as nat),
            hex_text(words[3] as nat),
        ];
        let mut k: usize = 0;
        while k < 4
            invariant
                k <= 4,
                words == words_of_bytes(buf@),
                texts == seq![
                    hex_text(words[0] as nat),
                    hex_text(words[1] as nat),
                    hex_text(words[2] as nat),
                    hex_text(words[3] as nat),
                ],
                out@ == join(texts.take(k as int), '-'),
            decreases 4 - k,
        {
            let word = u64_from_le_bytes(
                slice_subrange(buf.as_slice(), UINT64_LENGTH * k, UINT64_LENGTH * (k + 1)),
            );
            assert(word == words[k as int]);
            let mut text = hex_chars(word);
            proof {
                let longer = texts.take(k + 1);
                assert(longer.drop_last() =~= texts.take(k as int));
                assert(longer.last() == text@);
                if k > 0 {
                    assert(join(longer, '-') =~= (out@.push('-') + text@));
                }
            }
            if k > 0 {
                out.push('-');
            }
            out.append(&mut text);
            k += 1;
        }
        assert(texts.take(4) =~= texts);
        string_of(&out)
    }

    /// The bytes of a literal: the first `size` bytes of its content. `None`
    /// for a handle that is no literal.
    pub fn get_literal_content(&self) -> (r: Option<&[u8]>)
        requires
            self.well_formed(),
        ensures
            match r {
                Some(bytes) => self@.content matches ContentView::Literal(content) && bytes@
                    == content.take(self.size as int),
                None => !(self@.content is Literal),
            },
    {
        match &self.content {
            Content::Literal(content) => Some(
                slice_subrange(content.as_slice(), 0, self.size as usize),
            ),
            _ => None,
        }
    }
}

/// The name of an operation.
pub open spec fn operation_name(operation: Operation) -> Seq<char> {
    match operation {
        Operation::Apply => "Apply"@,
        Operation::Eval => "Eval"@,
        Operation::Fill => "Fill"@,
    }
}

/// The text of a task: its handle's text, a colon, a space, and the name of
/// its operation.
pub open spec fn task_text(task: Task) -> Seq<char> {
    encode_text(task.handle@) + ": "@ + operation_name(task.operation)
}

impl Operation {
    /// The name of the operation.
    pub fn name(&self) -> (s: &'static str)
        ensures
            s@ == operation_name(*self),
    {
        match self {
            Operation::Apply => "Apply",
            Operation::Eval => "Eval",
            Operation::Fill => "Fill",
        }
    }
}

impl Task {
    /// The text of the task.
    pub fn to_text(&self) -> (s: String)
        ensures
            s@ == task_text(*self),
    {
        let mut s = self.handle.to_hex();
        s.append(": ");
        s.append(self.operation.name());
        s
    }
}

/// What is wrong with a code, in words.
pub open spec fn decode_error_text(e: DecodeError) -> Seq<char> {
    match e {
        DecodeError::InvalidAccessibility => "Invalid number for Accessibility"@,
        DecodeError::InvalidObject => "Invalid number for Object"@,
        DecodeError::InvalidOperation => "Invalid number for Operation"@,
    }
}

/// What was being read when a code was found wrong, in words.
pub open spec fn decode_error_context(e: DecodeError) -> Seq<char> {
    match e {
        DecodeError::InvalidAccessibility => "getting accessibility bits: "@,
        DecodeError::InvalidObject => "getting object bits: "@,
        DecodeError::InvalidOperation => ""@,
    }
}

/// What is wrong with a text that names no handle, in words.
pub open spec fn handle_error_text(e: HandleError) -> Seq<char> {
    match e {
        HandleError::Format(FormatError::InvalidField) => "Failed to parse handle from hex"@,
        HandleError::Format(FormatError::FieldCount) =>
            "Expected handle with exactly 4 parts when parsing from hex"@,
        HandleError::Decode(e) => decode_error_context(e) + decode_error_text(e),
    }
}

impl DecodeError {
    /// What is wrong, in words.
    pub fn message(&self) -> (s: &'static str)
        ensures
            s@ == decode_error_text(*self),
    {
        match self {
            DecodeError::InvalidAccessibility => "Invalid number for Accessibility",
            DecodeError::InvalidObject => "Invalid number for Object",
            DecodeError::InvalidOperation => "Invalid number for Operation",
        }
    }
}

impl HandleError {
    /// What is wrong, in words: for a code, what was being read and then what
    /// is wrong with it.
    pub fn message(&self) -> (s: String)
        ensures
            s@ == handle_error_text(*self),
    {
        match self {
            HandleError::Format(FormatError::InvalidField) => {
                "Failed to parse handle from hex".to_owned()
            },
            HandleError::Format(FormatError::FieldCount) => {
                "Expected handle with exactly 4 parts when parsing from hex".to_owned()
            },
            HandleError::Decode(e) => {
                let mut s = match e {
                    DecodeError::InvalidAccessibility => "getting accessibility bits: ",
                    DecodeError::InvalidObject => "getting object bits: ",
                    DecodeError::InvalidOperation => "",
                }.to_owned();
                s.append(e.message());
                s
            },
        }
    }
}

} // verus!
