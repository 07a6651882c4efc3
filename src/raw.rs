//! Unchecked view of a buffer and the validator that turns it into a
//! document that is safe to traverse.
use vstd::prelude::*;
use vstd::string::StringSliceAdditionalSpecFns;
use vstd::utf8::*;

use crate::codec::{
    arg_at, decode_value, le32_at, node_at, Arg, BinaryRange, Header, Node, NodeRange,
    RawValue, StringRange, ARG_OFFSET_NAME, ARG_OFFSET_VALUE, ARG_SIZE, HEADER_SIZE, MAGIC,
    NODE_OFFSET_ARGS, NODE_OFFSET_CHILDREN, NODE_OFFSET_NAME, NODE_OFFSET_TY, NODE_SIZE,
    OFFSET_ARGS_LEN, OFFSET_ARGS_OFFSET, OFFSET_BINARY_LEN, OFFSET_BINARY_OFFSET, OFFSET_NODES_LEN,
    OFFSET_NODES_OFFSET, OFFSET_RESERVED1, OFFSET_RESERVED2, OFFSET_RESERVED3,
    OFFSET_ROOT_NODE_INDEX, OFFSET_SIZE, OFFSET_STRINGS_LEN, OFFSET_STRINGS_OFFSET, OFFSET_VERSION,
    VALUE_OFFSET_PAYLOAD, VALUE_OFFSET_TY, VERSION,
};
use crate::error::{ValidationError, ValidationErrorKind};

verus! {

// ---------------------------------------------------------------------------
// What validation decides

pub open spec fn err(kind: ValidationErrorKind, offset: int) -> ValidationError {
    ValidationError { offset: offset as usize, error: kind }
}

/// Two half-open byte intervals share a byte (an empty interval shares
/// none).
pub open spec fn overlapping(a_start: int, a_end: int, b_start: int, b_end: int) -> bool {
    a_start < a_end && b_start < b_end && a_start < b_end && b_start < a_end
}

/// The offset field of a section of `count` items, in a buffer of `len`
/// bytes, is out of bounds or points into the header. Only an empty
/// section may have offset zero.
pub open spec fn bad_section_offset(offset: u32, count: u32, len: nat) -> bool {
    (offset < HEADER_SIZE && (offset != 0 || count != 0)) || offset > len
}

pub open spec fn nodes_end(b: Seq<u8>) -> int {
    le32_at(b, OFFSET_NODES_OFFSET as int) + NODE_SIZE * le32_at(b, OFFSET_NODES_LEN as int)
}

pub open spec fn args_end(b: Seq<u8>) -> int {
    le32_at(b, OFFSET_ARGS_OFFSET as int) + ARG_SIZE * le32_at(b, OFFSET_ARGS_LEN as int)
}

pub open spec fn strings_end(b: Seq<u8>) -> int {
    le32_at(b, OFFSET_STRINGS_OFFSET as int) + le32_at(b, OFFSET_STRINGS_LEN as int)
}

pub open spec fn binary_end(b: Seq<u8>) -> int {
    le32_at(b, OFFSET_BINARY_OFFSET as int) + le32_at(b, OFFSET_BINARY_LEN as int)
}

/// The first error in the header of `b` (at least 64 bytes long), if any.
pub open spec fn header_error(b: Seq<u8>) -> Option<ValidationError> {
    let len = b.len();
    let version = le32_at(b, OFFSET_VERSION as int);
    let root = le32_at(b, OFFSET_ROOT_NODE_INDEX as int);
    let size = le32_at(b, OFFSET_SIZE as int);
    let nodes_offset = le32_at(b, OFFSET_NODES_OFFSET as int);
    let nodes_len = le32_at(b, OFFSET_NODES_LEN as int);
    let args_offset = le32_at(b, OFFSET_ARGS_OFFSET as int);
    let strings_offset = le32_at(b, OFFSET_STRINGS_OFFSET as int);
    let binary_offset = le32_at(b, OFFSET_BINARY_OFFSET as int);
    if b.subrange(0, 8) != MAGIC@ {
        Some(err(ValidationErrorKind::HeaderMagic, 0))
    } else if version != VERSION {
        Some(err(ValidationErrorKind::HeaderVersion(version), OFFSET_VERSION as int))
    } else if size != len {
        Some(err(ValidationErrorKind::HeaderSize, OFFSET_SIZE as int))
    } else if nodes_offset % 4 != 0 || bad_section_offset(nodes_offset, nodes_len, len) {
        Some(err(ValidationErrorKind::HeaderNodesOffset, OFFSET_NODES_OFFSET as int))
    } else if nodes_end(b) > len {
        Some(err(ValidationErrorKind::HeaderNodesLen, OFFSET_NODES_LEN as int))
    } else if args_offset % 4 != 0 || bad_section_offset(args_offset, le32_at(b, OFFSET_ARGS_LEN as int), len) {
        Some(err(ValidationErrorKind::HeaderArgsOffset, OFFSET_ARGS_OFFSET as int))
    } else if args_end(b) > len {
        Some(err(ValidationErrorKind::HeaderArgsLen, OFFSET_ARGS_LEN as int))
    } else if bad_section_offset(strings_offset, le32_at(b, OFFSET_STRINGS_LEN as int), len) {
        Some(err(ValidationErrorKind::HeaderStringsOffset, OFFSET_STRINGS_OFFSET as int))
    } else if strings_end(b) > len {
        Some(err(ValidationErrorKind::HeaderStringsLen, OFFSET_STRINGS_LEN as int))
    } else if bad_section_offset(binary_offset, le32_at(b, OFFSET_BINARY_LEN as int), len) {
        Some(err(ValidationErrorKind::HeaderBinaryOffset, OFFSET_BINARY_OFFSET as int))
    } else if binary_end(b) > len {
        Some(err(ValidationErrorKind::HeaderBinaryLen, OFFSET_BINARY_LEN as int))
    } else if root != 0 && root >= nodes_len {
        Some(err(ValidationErrorKind::HeaderRootNodeOutOfBounds, OFFSET_ROOT_NODE_INDEX as int))
    } else if overlapping(nodes_offset as int, nodes_end(b), args_offset as int, args_end(b)) {
        Some(err(ValidationErrorKind::HeaderSectionsOverlap, OFFSET_ARGS_OFFSET as int))
    } else if overlapping(
        nodes_offset as int,
        nodes_end(b),
        strings_offset as int,
        strings_end(b),
    ) {
        Some(err(ValidationErrorKind::HeaderSectionsOverlap, OFFSET_STRINGS_OFFSET as int))
    } else if overlapping(nodes_offset as int, nodes_end(b), binary_offset as int, binary_end(b)) {
        Some(err(ValidationErrorKind::HeaderSectionsOverlap, OFFSET_BINARY_OFFSET as int))
    } else if overlapping(args_offset as int, args_end(b), strings_offset as int, strings_end(b)) {
        Some(err(ValidationErrorKind::HeaderSectionsOverlap, OFFSET_STRINGS_OFFSET as int))
    } else if overlapping(args_offset as int, args_end(b), binary_offset as int, binary_end(b)) {
        Some(err(ValidationErrorKind::HeaderSectionsOverlap, OFFSET_BINARY_OFFSET as int))
    } else if overlapping(
        strings_offset as int,
        strings_end(b),
        binary_offset as int,
        binary_end(b),
    ) {
        Some(err(ValidationErrorKind::HeaderSectionsOverlap, OFFSET_BINARY_OFFSET as int))
    } else if le32_at(b, OFFSET_RESERVED1 as int) != 0 {
        Some(err(ValidationErrorKind::HeaderReservedFieldsMustBeZero, OFFSET_RESERVED1 as int))
    } else if le32_at(b, OFFSET_RESERVED2 as int) != 0 {
        Some(err(ValidationErrorKind::HeaderReservedFieldsMustBeZero, OFFSET_RESERVED2 as int))
    } else if le32_at(b, OFFSET_RESERVED3 as int) != 0 {
        Some(err(ValidationErrorKind::HeaderReservedFieldsMustBeZero, OFFSET_RESERVED3 as int))
    } else {
        None
    }
}


/// Header fields of a buffer; a buffer too short for a header has none.
pub open spec fn header_field(b: Seq<u8>, offset: usize) -> u32 {
    if b.len() < HEADER_SIZE {
        0
    } else {
        le32_at(b, offset as int)
    }
}

pub open spec fn nodes_offset_of(b: Seq<u8>) -> u32 {
    header_field(b, OFFSET_NODES_OFFSET)
}

pub open spec fn nodes_len_of(b: Seq<u8>) -> u32 {
    header_field(b, OFFSET_NODES_LEN)
}

pub open spec fn args_offset_of(b: Seq<u8>) -> u32 {
    header_field(b, OFFSET_ARGS_OFFSET)
}

pub open spec fn args_len_of(b: Seq<u8>) -> u32 {
    header_field(b, OFFSET_ARGS_LEN)
}

pub open spec fn strings_offset_of(b: Seq<u8>) -> u32 {
    header_field(b, OFFSET_STRINGS_OFFSET)
}

pub open spec fn strings_len_of(b: Seq<u8>) -> u32 {
    header_field(b, OFFSET_STRINGS_LEN)
}

pub open spec fn binary_offset_of(b: Seq<u8>) -> u32 {
    header_field(b, OFFSET_BINARY_OFFSET)
}

pub open spec fn binary_len_of(b: Seq<u8>) -> u32 {
    header_field(b, OFFSET_BINARY_LEN)
}

pub open spec fn root_of(b: Seq<u8>) -> u32 {
    header_field(b, OFFSET_ROOT_NODE_INDEX)
}

pub open spec fn to_result(e: Option<ValidationError>) -> Result<(), ValidationError> {
    match e {
        Some(e) => Err(e),
        None => Ok(()),
    }
}

/// The first of two possible errors.
pub open spec fn or_else(a: Option<ValidationError>, b: Option<ValidationError>) -> Option<
    ValidationError,
> {
    if a is Some {
        a
    } else {
        b
    }
}

/// What the header check decides: the empty buffer is the empty document,
/// and a non-empty buffer must hold at least a whole header.
pub open spec fn header_result(b: Seq<u8>) -> Option<ValidationError> {
    if b.len() == 0 {
        None
    } else if b.len() < HEADER_SIZE {
        Some(err(ValidationErrorKind::HeaderSize, OFFSET_SIZE as int))
    } else {
        header_error(b)
    }
}

/// A `(start, len)` range checked against a section of `bound` items.
pub open spec fn range_error(
    start: u32,
    len: u32,
    bound: u32,
    offset: int,
    kind: ValidationErrorKind,
) -> Option<ValidationError> {
    if start + len > u32::MAX {
        Some(err(ValidationErrorKind::LengthOverflow, offset))
    } else if start + len <= bound {
        None
    } else {
        Some(err(kind, offset))
    }
}

/// Byte `i` of the strings section starts a character (or ends the section).
pub open spec fn on_char_boundary(b: Seq<u8>, i: int) -> bool {
    i == strings_len_of(b) || !is_continuation_byte(b[strings_offset_of(b) + i])
}

/// A string range, whose field is at byte `offset`: in bounds, and starting
/// and ending on character boundaries.
pub open spec fn string_error(b: Seq<u8>, offset: int, r: StringRange) -> Option<ValidationError> {
    or_else(
        range_error(r.start, r.len, strings_len_of(b), offset, ValidationErrorKind::StringOutOfBounds),
        if on_char_boundary(b, r.start as int) && on_char_boundary(b, r.start + r.len) {
            None
        } else {
            Some(err(ValidationErrorKind::InvalidUtf8, offset))
        },
    )
}

pub open spec fn binary_error(b: Seq<u8>, offset: int, r: BinaryRange) -> Option<ValidationError> {
    range_error(r.start, r.len, binary_len_of(b), offset, ValidationErrorKind::BinaryOutOfBounds)
}

/// Byte offset of node `i`.
pub open spec fn node_offset(b: Seq<u8>, i: int) -> int {
    nodes_offset_of(b) + NODE_SIZE * i
}

/// Byte offset of argument `j`.
pub open spec fn arg_offset(b: Seq<u8>, j: int) -> int {
    args_offset_of(b) + ARG_SIZE * j
}

/// The record of node `i`.
pub open spec fn node_record(b: Seq<u8>, i: int) -> Node {
    node_at(b, node_offset(b, i))
}

/// The record of argument `j`.
pub open spec fn arg_record(b: Seq<u8>, j: int) -> Arg {
    arg_at(b, arg_offset(b, j))
}

/// The first error in node `i`: its name, its type, its argument range,
/// whether its children come after it, and its children range.
pub open spec fn node_error(b: Seq<u8>, i: int) -> Option<ValidationError> {
    let at = node_offset(b, i);
    let n = node_record(b, i);
    or_else(
        string_error(b, at + NODE_OFFSET_NAME, n.name),
        or_else(
            string_error(b, at + NODE_OFFSET_TY, n.ty),
            or_else(
                range_error(
                    n.args.start,
                    n.args.len,
                    args_len_of(b),
                    at + NODE_OFFSET_ARGS,
                    ValidationErrorKind::ArgumentsOutOfBounds,
                ),
                if n.children.len != 0 && n.children.start <= i {
                    Some(err(ValidationErrorKind::ChildrenBeforeParent, at + NODE_OFFSET_CHILDREN))
                } else {
                    range_error(
                        n.children.start,
                        n.children.len,
                        nodes_len_of(b),
                        at + NODE_OFFSET_CHILDREN,
                        ValidationErrorKind::ChildrenOutOfBounds,
                    )
                },
            ),
        ),
    )
}

/// The first error among the first `k` nodes.
pub open spec fn nodes_error(b: Seq<u8>, k: nat) -> Option<ValidationError>
    decreases k,
{
    if k == 0 {
        None
    } else {
        or_else(nodes_error(b, (k - 1) as nat), node_error(b, k - 1))
    }
}

/// The first error in a value record whose field is at byte `at`.
pub open spec fn value_error(b: Seq<u8>, at: int, v: crate::codec::Value) -> Option<ValidationError> {
    match decode_value(v) {
        Err(kind) => Some(err(kind, at + VALUE_OFFSET_TY)),
        Ok(RawValue::String(r)) => string_error(b, at + VALUE_OFFSET_PAYLOAD, r),
        Ok(RawValue::Binary(r)) => binary_error(b, at + VALUE_OFFSET_PAYLOAD, r),
        Ok(_) => None,
    }
}

/// The first error in argument `j`: its name, then its value.
pub open spec fn arg_error(b: Seq<u8>, j: int) -> Option<ValidationError> {
    let at = arg_offset(b, j);
    let a = arg_record(b, j);
    or_else(
        string_error(b, at + ARG_OFFSET_NAME, a.name),
        value_error(b, at + ARG_OFFSET_VALUE, a.value),
    )
}

/// The first error among the first `k` arguments.
pub open spec fn args_error(b: Seq<u8>, k: nat) -> Option<ValidationError>
    decreases k,
{
    if k == 0 {
        None
    } else {
        or_else(args_error(b, (k - 1) as nat), arg_error(b, k - 1))
    }
}

/// The bytes of the strings section.
pub open spec fn strings_section(b: Seq<u8>) -> Seq<u8> {
    b.subrange(strings_offset_of(b) as int, strings_offset_of(b) + strings_len_of(b))
}

/// The bytes of the binary section.
pub open spec fn binary_section(b: Seq<u8>) -> Seq<u8> {
    b.subrange(binary_offset_of(b) as int, binary_offset_of(b) + binary_len_of(b))
}

pub open spec fn strings_error(b: Seq<u8>) -> Option<ValidationError> {
    if valid_utf8(strings_section(b)) {
        None
    } else {
        Some(err(ValidationErrorKind::InvalidUtf8, strings_offset_of(b) as int))
    }
}

/// What validating `b` decides: the header, then every node, then every
/// argument, then the strings section as a whole; the first error wins.
pub open spec fn check_result(b: Seq<u8>) -> Result<(), ValidationError> {
    to_result(
        or_else(
            header_result(b),
            or_else(
                nodes_error(b, nodes_len_of(b) as nat),
                or_else(args_error(b, args_len_of(b) as nat), strings_error(b)),
            ),
        ),
    )
}

/// `b` is a valid document.
pub open spec fn valid_document(b: Seq<u8>) -> bool {
    check_result(b) is Ok
}


// ---------------------------------------------------------------------------
// The validator

/// Relies on `core::str::from_utf8`: it succeeds exactly on valid UTF-8, and
/// the string it returns has the same bytes.
#[verifier::external_body]
pub(crate) fn str_from_utf8(v: &[u8]) -> (r: Option<&str>)
    ensures
        r is Some <==> valid_utf8(v@),
        r matches Some(s) ==> s.spec_bytes() == v@,
{
    core::str::from_utf8(v).ok()
}

/// Unchecked view of a buffer as a document.
///
/// Only the `check*` methods look at the contents; the accessors that read
/// records require what validation establishes.
#[derive(Clone, Copy, Debug, PartialEq, Eq)]
pub struct RawDocument<'a> {
    bytes: &'a [u8],
}

/// Owned buffer holding an unchecked document.
#[derive(Clone, Debug, Default)]
pub struct RawDocumentBuffer {
    buffer: Vec<u8>,
}

impl RawDocumentBuffer {
    pub closed spec fn view(&self) -> Seq<u8> {
        self.buffer@
    }

    /// Wrap a buffer, without any validation.
    pub fn from_buffer(buffer: Vec<u8>) -> (r: RawDocumentBuffer)
        ensures
            r.view() == buffer@,
    {
        RawDocumentBuffer { buffer }
    }

    pub fn as_document(&self) -> (r: RawDocument<'_>)
        ensures
            r.view() == self.view(),
    {
        RawDocument { bytes: self.buffer.as_slice() }
    }
}

impl<'a> RawDocument<'a> {
    pub closed spec fn view(&self) -> Seq<u8> {
        self.bytes@
    }

    /// Wrap a byte slice, without any validation.
    pub fn from_slice(bytes: &'a [u8]) -> (r: RawDocument<'a>)
        ensures
            r.view() == bytes@,
    {
        RawDocument { bytes }
    }

    pub fn as_bytes(&self) -> (r: &'a [u8])
        ensures
            r@ == self.view(),
    {
        self.bytes
    }

    /// The header; the empty buffer has the default header.
    pub fn header(&self) -> (h: Header)
        requires
            self.view().len() == 0 || self.view().len() >= HEADER_SIZE,
        ensures
            self.view().len() == 0 ==> h.is_default(),
            self.view().len() != 0 ==> h.describes(self.view()),
    {
        if self.bytes.len() == 0 {
            Header::default()
        } else {
            Header::read(self.bytes)
        }
    }

    /// Check everything: when this returns `Ok(())` the buffer is a valid
    /// document.
    pub fn check(&self) -> (r: Result<(), ValidationError>)
        ensures
            r == check_result(self.view()),
    {
        match self.check_header() {
            Err(e) => return Err(e),
            Ok(()) => {},
        }
        match self.check_nodes() {
            Err(e) => return Err(e),
            Ok(()) => {},
        }
        match self.check_args() {
            Err(e) => return Err(e),
            Ok(()) => {},
        }
        self.check_strings()
    }

    /// Check the header: magic, version, size, the bounds, alignment and
    /// overlap of the four sections, the root index and the reserved fields.
    pub fn check_header(&self) -> (r: Result<(), ValidationError>)
        ensures
            r == to_result(header_result(self.view())),
    {
        let len = self.bytes.len();
        if len == 0 {
            return Ok(());
        }
        if len < HEADER_SIZE {
            return Err(ValidationErrorKind::HeaderSize.at_offset(OFFSET_SIZE));
        }
        let h = Header::read(self.bytes);
        let ghost b = self.view();
        assert(b.subrange(0, 8) == MAGIC@ <==> h.magic@ == MAGIC@);
        let mut i: usize = 0;
        while i < 8
            invariant
                0 <= i <= 8,
                h.magic@.len() == 8,
                MAGIC@.len() == 8,
                b == self.view(),
                b.len() >= HEADER_SIZE,
                h.magic@ == b.subrange(0, 8),
                forall|k: int| 0 <= k < i ==> h.magic@[k] == MAGIC@[k],
            decreases 8 - i,
        {
            if h.magic[i] != MAGIC[i] {
                assert(h.magic@[i as int] != MAGIC@[i as int]);
                assert(b.subrange(0, 8)[i as int] != MAGIC@[i as int]);
                return Err(ValidationErrorKind::HeaderMagic.at_offset(0));
            }
            i = i + 1;
        }
        assert(h.magic@ =~= MAGIC@);
        if h.version != VERSION {
            return Err(ValidationErrorKind::HeaderVersion(h.version).at_offset(OFFSET_VERSION));
        }
        let len64 = len as u64;
        if h.size as u64 != len64 {
            return Err(ValidationErrorKind::HeaderSize.at_offset(OFFSET_SIZE));
        }
        let nodes_offset = h.nodes_offset as u64;
        let args_offset = h.args_offset as u64;
        let strings_offset = h.strings_offset as u64;
        let binary_offset = h.binary_offset as u64;
        if nodes_offset % 4 != 0 || bad_offset(h.nodes_offset, h.nodes_len, len64) {
            return Err(ValidationErrorKind::HeaderNodesOffset.at_offset(OFFSET_NODES_OFFSET));
        }
        let nodes_end = nodes_offset + (h.nodes_len as u64) * (NODE_SIZE as u64);
        if nodes_end > len64 {
            return Err(ValidationErrorKind::HeaderNodesLen.at_offset(OFFSET_NODES_LEN));
        }
        if args_offset % 4 != 0 || bad_offset(h.args_offset, h.args_len, len64) {
            return Err(ValidationErrorKind::HeaderArgsOffset.at_offset(OFFSET_ARGS_OFFSET));
        }
        let args_end = args_offset + (h.args_len as u64) * (ARG_SIZE as u64);
        if args_end > len64 {
            return Err(ValidationErrorKind::HeaderArgsLen.at_offset(OFFSET_ARGS_LEN));
        }
        if bad_offset(h.strings_offset, h.strings_len, len64) {
            return Err(ValidationErrorKind::HeaderStringsOffset.at_offset(OFFSET_STRINGS_OFFSET));
        }
        let strings_end = strings_offset + h.strings_len as u64;
        if strings_end > len64 {
            return Err(ValidationErrorKind::HeaderStringsLen.at_offset(OFFSET_STRINGS_LEN));
        }
        if bad_offset(h.binary_offset, h.binary_len, len64) {
            return Err(ValidationErrorKind::HeaderBinaryOffset.at_offset(OFFSET_BINARY_OFFSET));
        }
        let binary_end = binary_offset + h.binary_len as u64;
        if binary_end > len64 {
            return Err(ValidationErrorKind::HeaderBinaryLen.at_offset(OFFSET_BINARY_LEN));
        }
        if h.root_node_index != 0 && h.root_node_index >= h.nodes_len {
            return Err(
                ValidationErrorKind::HeaderRootNodeOutOfBounds.at_offset(OFFSET_ROOT_NODE_INDEX),
            );
        }
        if overlaps(nodes_offset, nodes_end, args_offset, args_end) {
            return Err(ValidationErrorKind::HeaderSectionsOverlap.at_offset(OFFSET_ARGS_OFFSET));
        }
        if overlaps(nodes_offset, nodes_end, strings_offset, strings_end) {
            return Err(ValidationErrorKind::HeaderSectionsOverlap.at_offset(OFFSET_STRINGS_OFFSET));
        }
        if overlaps(nodes_offset, nodes_end, binary_offset, binary_end) {
            return Err(ValidationErrorKind::HeaderSectionsOverlap.at_offset(OFFSET_BINARY_OFFSET));
        }
        if overlaps(args_offset, args_end, strings_offset, strings_end) {
            return Err(ValidationErrorKind::HeaderSectionsOverlap.at_offset(OFFSET_STRINGS_OFFSET));
        }
        if overlaps(args_offset, args_end, binary_offset, binary_end) {
            return Err(ValidationErrorKind::HeaderSectionsOverlap.at_offset(OFFSET_BINARY_OFFSET));
        }
        if overlaps(strings_offset, strings_end, binary_offset, binary_end) {
            return Err(ValidationErrorKind::HeaderSectionsOverlap.at_offset(OFFSET_BINARY_OFFSET));
        }
        if h.reserved1 != 0 {
            return Err(
                ValidationErrorKind::HeaderReservedFieldsMustBeZero.at_offset(OFFSET_RESERVED1),
            );
        }
        if h.reserved2 != 0 {
            return Err(
                ValidationErrorKind::HeaderReservedFieldsMustBeZero.at_offset(OFFSET_RESERVED2),
            );
        }
        if h.reserved3 != 0 {
            return Err(
                ValidationErrorKind::HeaderReservedFieldsMustBeZero.at_offset(OFFSET_RESERVED3),
            );
        }
        Ok(())
    }

    /// Check every node: its name and type, its argument range, that its
    /// children come after it, and its children range.
    pub fn check_nodes(&self) -> (r: Result<(), ValidationError>)
        requires
            header_result(self.view()) is None,
        ensures
            r == to_result(nodes_error(self.view(), nodes_len_of(self.view()) as nat)),
    {
        if self.bytes.len() == 0 {
            return Ok(());
        }
        let h = Header::read(self.bytes);
        let ghost b = self.view();
        let mut i: u32 = 0;
        while i < h.nodes_len
            invariant
                b == self.view(),
                b.len() >= HEADER_SIZE,
                header_error(b) is None,
                h.describes(b),
                i <= h.nodes_len,
                nodes_error(b, i as nat) is None,
            decreases h.nodes_len - i,
        {
            match check_node(self.bytes, &h, i) {
                Err(e) => {
                    proof {
                        lemma_nodes_error_sticks(b, (i + 1) as nat, h.nodes_len as nat);
                    }
                    return Err(e);
                },
                Ok(()) => {},
            }
            i = i + 1;
        }
        Ok(())
    }

    /// Check every argument: its name and its value.
    pub fn check_args(&self) -> (r: Result<(), ValidationError>)
        requires
            header_result(self.view()) is None,
        ensures
            r == to_result(args_error(self.view(), args_len_of(self.view()) as nat)),
    {
        if self.bytes.len() == 0 {
            return Ok(());
        }
        let h = Header::read(self.bytes);
        let ghost b = self.view();
        let mut j: u32 = 0;
        while j < h.args_len
            invariant
                b == self.view(),
                b.len() >= HEADER_SIZE,
                header_error(b) is None,
                h.describes(b),
                j <= h.args_len,
                args_error(b, j as nat) is None,
            decreases h.args_len - j,
        {
            match check_arg(self.bytes, &h, j) {
                Err(e) => {
                    proof {
                        lemma_args_error_sticks(b, (j + 1) as nat, h.args_len as nat);
                    }
                    return Err(e);
                },
                Ok(()) => {},
            }
            j = j + 1;
        }
        Ok(())
    }

    /// Check that the strings section, as a whole, is valid UTF-8.
    pub fn check_strings(&self) -> (r: Result<(), ValidationError>)
        requires
            header_result(self.view()) is None,
        ensures
            r == to_result(strings_error(self.view())),
    {
        if self.bytes.len() == 0 {
            assert(strings_section(self.view()) =~= Seq::<u8>::empty());
            return Ok(());
        }
        let h = Header::read(self.bytes);
        let start = h.strings_offset as usize;
        let end = start + h.strings_len as usize;
        let section = vstd::slice::slice_subrange(self.bytes, start, end);
        assert(section@ == strings_section(self.view()));
        match str_from_utf8(section) {
            Some(_) => Ok(()),
            None => Err(ValidationErrorKind::InvalidUtf8.at_offset(start)),
        }
    }

    /// Look up a string by a range that did not come from a validated node:
    /// the range is checked against the strings section and the bytes are
    /// checked to be UTF-8.
    pub fn get_string(&self, range: StringRange) -> (r: Result<&'a str, ValidationError>)
        requires
            header_result(self.view()) is None,
        ensures
            ({
                let b = self.view();
                let so = strings_offset_of(b);
                let in_bounds = range.start + range.len <= strings_len_of(b);
                let bytes = b.subrange(so + range.start, so + range.start + range.len);
                &&& !in_bounds ==> r == Err::<&str, ValidationError>(
                    err(ValidationErrorKind::StringOutOfBounds, so as int),
                )
                &&& in_bounds && !valid_utf8(bytes) ==> r == Err::<&str, ValidationError>(
                    err(ValidationErrorKind::InvalidUtf8, so as int),
                )
                &&& in_bounds && valid_utf8(bytes) ==> (r matches Ok(s) && s.spec_bytes() == bytes)
            }),
    {
        let h = self.header();
        let so = h.strings_offset as usize;
        let end = range.start as u64 + range.len as u64;
        if end > h.strings_len as u64 {
            return Err(ValidationErrorKind::StringOutOfBounds.at_offset(so));
        }
        let section = vstd::slice::slice_subrange(
            self.bytes,
            so + range.start as usize,
            so + end as usize,
        );
        match str_from_utf8(section) {
            Some(s) => Ok(s),
            None => Err(ValidationErrorKind::InvalidUtf8.at_offset(so)),
        }
    }
}

// ---------------------------------------------------------------------------
// What a valid document guarantees

/// The bytes that a string range denotes.
pub open spec fn string_bytes(b: Seq<u8>, r: StringRange) -> Seq<u8> {
    strings_section(b).subrange(r.start as int, r.start + r.len)
}

/// The bytes that a binary range denotes.
pub open spec fn binary_bytes(b: Seq<u8>, r: BinaryRange) -> Seq<u8> {
    binary_section(b).subrange(r.start as int, r.start + r.len)
}

proof fn lemma_nodes_error_none(b: Seq<u8>, k: nat, i: int)
    requires
        nodes_error(b, k) is None,
        0 <= i < k,
    ensures
        node_error(b, i) is None,
    decreases k,
{
    if i < k - 1 {
        lemma_nodes_error_none(b, (k - 1) as nat, i);
    }
}

proof fn lemma_args_error_none(b: Seq<u8>, k: nat, j: int)
    requires
        args_error(b, k) is None,
        0 <= j < k,
    ensures
        arg_error(b, j) is None,
    decreases k,
{
    if j < k - 1 {
        lemma_args_error_none(b, (k - 1) as nat, j);
    }
}

/// In a valid document, every node passed its check.
pub proof fn lemma_valid_node(b: Seq<u8>, i: int)
    requires
        valid_document(b),
        0 <= i < nodes_len_of(b),
    ensures
        node_error(b, i) is None,
        b.len() >= HEADER_SIZE,
        header_error(b) is None,
{
    lemma_nodes_error_none(b, nodes_len_of(b) as nat, i);
}

/// In a valid document, every argument passed its check.
pub proof fn lemma_valid_arg(b: Seq<u8>, j: int)
    requires
        valid_document(b),
        0 <= j < args_len_of(b),
    ensures
        arg_error(b, j) is None,
        b.len() >= HEADER_SIZE,
        header_error(b) is None,
{
    lemma_args_error_none(b, args_len_of(b) as nat, j);
}

/// Facts about the sections of a valid document.
pub proof fn lemma_valid_sections(b: Seq<u8>)
    requires
        valid_document(b),
    ensures
        b.len() == 0 ==> nodes_len_of(b) == 0 && args_len_of(b) == 0 && strings_len_of(b) == 0
            && binary_len_of(b) == 0,
        b.len() != 0 ==> b.len() >= HEADER_SIZE && header_error(b) is None,
        nodes_offset_of(b) + NODE_SIZE * nodes_len_of(b) <= b.len(),
        args_offset_of(b) + ARG_SIZE * args_len_of(b) <= b.len(),
        strings_offset_of(b) + strings_len_of(b) <= b.len(),
        binary_offset_of(b) + binary_len_of(b) <= b.len(),
        b.len() <= u32::MAX,
        valid_utf8(strings_section(b)),
        root_of(b) == 0 || root_of(b) < nodes_len_of(b),
{
}

/// A string range that passed its check denotes valid UTF-8, when the
/// strings section as a whole is valid UTF-8.
pub proof fn lemma_string_range_utf8(b: Seq<u8>, offset: int, r: StringRange)
    requires
        valid_utf8(strings_section(b)),
        string_error(b, offset, r) is None,
        strings_offset_of(b) + strings_len_of(b) <= b.len(),
    ensures
        r.start + r.len <= strings_len_of(b),
        valid_utf8(string_bytes(b, r)),
{
    let sec = strings_section(b);
    let s = r.start as int;
    let e = r.start + r.len;
    assert(sec.len() == strings_len_of(b));
    if s == e {
        assert(string_bytes(b, r) =~= Seq::<u8>::empty());
    } else {
        is_char_boundary_start_end_of_seq(sec);
        if e < sec.len() {
            assert(sec[e] == b[strings_offset_of(b) + e]);
            is_char_boundary_iff_not_is_continuation_byte(sec, e);
        }
        valid_utf8_split(sec, e);
        let p = sec.subrange(0, e);
        assert(sec[s] == b[strings_offset_of(b) + s]);
        is_char_boundary_iff_not_is_continuation_byte(sec, s);
        assert(p[s] == sec[s]);
        is_char_boundary_iff_not_is_continuation_byte(p, s);
        valid_utf8_split(p, s);
        assert(p.subrange(s, p.len() as int) =~= string_bytes(b, r));
    }
}

// ---------------------------------------------------------------------------
// Handles on an unchecked document

/// A node of a raw document, with its record.
#[derive(Clone, Copy)]
pub struct RawNodeRef<'a> {
    doc: RawDocument<'a>,
    node: Node,
}

/// The children of a node of a raw document.
#[derive(Clone, Copy)]
pub struct RawNodeChildren<'a> {
    doc: RawDocument<'a>,
    node: Node,
}

/// The arguments of a node of a raw document.
#[derive(Clone, Copy)]
pub struct RawNodeArgs<'a> {
    doc: RawDocument<'a>,
    node: Node,
}

/// An argument of a raw document: its name range and decoded value.
#[derive(Clone, Copy)]
pub struct RawArgRef {
    pub name: StringRange,
    pub value: RawValue,
}

impl<'a> RawDocument<'a> {
    /// The node at `index`, read from the nodes section.
    pub fn get_node(&self, index: u32) -> (r: RawNodeRef<'a>)
        requires
            header_result(self.view()) is None,
            index < nodes_len_of(self.view()),
        ensures
            r.record() == node_record(self.view(), index as int),
            r.bytes() == self.view(),
    {
        let h = self.header();
        proof {
            lemma_header_ok(self.view());
        }
        let at = h.nodes_offset as usize + index as usize * NODE_SIZE;
        RawNodeRef { doc: *self, node: Node::read(self.bytes, at) }
    }

    /// The argument at `index`, read from the args section.
    pub fn get_arg(&self, index: u32) -> (r: Option<RawArgRef>)
        requires
            header_result(self.view()) is None,
            index < args_len_of(self.view()),
        ensures
            match decode_value(arg_record(self.view(), index as int).value) {
                Ok(v) => r == Some(RawArgRef { name: arg_record(self.view(), index as int).name, value: v }),
                Err(_) => r is None,
            },
    {
        let h = self.header();
        proof {
            lemma_header_ok(self.view());
        }
        let at = h.args_offset as usize + index as usize * ARG_SIZE;
        let rec = Arg::read(self.bytes, at);
        match RawValue::try_from_value(rec.value) {
            Ok(value) => Some(RawArgRef { name: rec.name, value }),
            Err(_) => None,
        }
    }
}

impl<'a> RawNodeRef<'a> {
    pub closed spec fn record(&self) -> Node {
        self.node
    }

    pub closed spec fn bytes(&self) -> Seq<u8> {
        self.doc.view()
    }

    /// The record of this node.
    pub fn encoded(&self) -> (r: Node)
        ensures
            r == self.record(),
    {
        self.node
    }

    pub fn children_range(&self) -> (r: NodeRange)
        ensures
            r == self.record().children,
    {
        self.node.children
    }

    pub fn children(&self) -> (r: RawNodeChildren<'a>)
        ensures
            r.record() == self.record(),
    {
        RawNodeChildren { doc: self.doc, node: self.node }
    }

    pub fn args(&self) -> (r: RawNodeArgs<'a>)
        ensures
            r.record() == self.record(),
    {
        RawNodeArgs { doc: self.doc, node: self.node }
    }
}

impl<'a> RawNodeChildren<'a> {
    pub closed spec fn record(&self) -> Node {
        self.node
    }

    pub fn is_empty(&self) -> (r: bool)
        ensures
            r == (self.record().children.len == 0),
    {
        self.node.children.len == 0
    }

    pub fn len(&self) -> (r: usize)
        ensures
            r == self.record().children.len,
    {
        self.node.children.len as usize
    }
}

impl<'a> RawNodeArgs<'a> {
    pub closed spec fn record(&self) -> Node {
        self.node
    }

    pub fn is_empty(&self) -> (r: bool)
        ensures
            r == (self.record().args.len == 0),
    {
        self.node.args.len == 0
    }

    pub fn len(&self) -> (r: usize)
        ensures
            r == self.record().args.len,
    {
        self.node.args.len as usize
    }
}

/// No node has an error, so the first `k` nodes have none.
pub proof fn lemma_nodes_error_from_each(b: Seq<u8>, k: nat)
    requires
        forall|i: int| 0 <= i < k ==> #[trigger] node_error(b, i) is None,
    ensures
        nodes_error(b, k) is None,
    decreases k,
{
    if k > 0 {
        lemma_nodes_error_from_each(b, (k - 1) as nat);
    }
}

/// No argument has an error, so the first `k` arguments have none.
pub proof fn lemma_args_error_from_each(b: Seq<u8>, k: nat)
    requires
        forall|j: int| 0 <= j < k ==> #[trigger] arg_error(b, j) is None,
    ensures
        args_error(b, k) is None,
    decreases k,
{
    if k > 0 {
        lemma_args_error_from_each(b, (k - 1) as nat);
    }
}

proof fn lemma_nodes_error_sticks(b: Seq<u8>, k: nat, m: nat)
    requires
        k <= m,
        nodes_error(b, k) is Some,
    ensures
        nodes_error(b, m) == nodes_error(b, k),
    decreases m - k,
{
    if k < m {
        lemma_nodes_error_sticks(b, k, (m - 1) as nat);
    }
}

proof fn lemma_args_error_sticks(b: Seq<u8>, k: nat, m: nat)
    requires
        k <= m,
        args_error(b, k) is Some,
    ensures
        args_error(b, m) == args_error(b, k),
    decreases m - k,
{
    if k < m {
        lemma_args_error_sticks(b, k, (m - 1) as nat);
    }
}

/// Facts about the sections of a buffer whose header passed the check.
proof fn lemma_header_ok(b: Seq<u8>)
    requires
        b.len() >= HEADER_SIZE,
        header_error(b) is None,
    ensures
        nodes_end(b) <= b.len(),
        args_end(b) <= b.len(),
        strings_end(b) <= b.len(),
        binary_end(b) <= b.len(),
        b.len() <= u32::MAX,
{
}

/// Whether two half-open byte intervals share a byte.
fn overlaps(a_start: u64, a_end: u64, b_start: u64, b_end: u64) -> (r: bool)
    ensures
        r == overlapping(a_start as int, a_end as int, b_start as int, b_end as int),
{
    a_start < a_end && b_start < b_end && a_start < b_end && b_start < a_end
}

/// Whether the offset of a section of `count` items is out of bounds or
/// points into the header.
fn bad_offset(offset: u32, count: u32, len: u64) -> (r: bool)
    ensures
        r == bad_section_offset(offset, count, len as nat),
{
    (offset < HEADER_SIZE as u32 && (offset != 0 || count != 0)) || offset as u64 > len
}

fn check_range(
    start: u32,
    len: u32,
    bound: u32,
    offset: usize,
    kind: ValidationErrorKind,
) -> (r: Result<(), ValidationError>)
    ensures
        r == to_result(range_error(start, len, bound, offset as int, kind)),
{
    let end = start as u64 + len as u64;
    if end > u32::MAX as u64 {
        Err(ValidationErrorKind::LengthOverflow.at_offset(offset))
    } else if end <= bound as u64 {
        Ok(())
    } else {
        Err(kind.at_offset(offset))
    }
}

/// Whether byte `i` of the strings section starts a character.
fn on_boundary(b: &[u8], h: &Header, i: u32) -> (r: bool)
    requires
        b@.len() >= HEADER_SIZE,
        header_error(b@) is None,
        h.describes(b@),
        i <= h.strings_len,
    ensures
        r == on_char_boundary(b@, i as int),
{
    proof {
        lemma_header_ok(b@);
    }
    if i == h.strings_len {
        true
    } else {
        let byte = b[h.strings_offset as usize + i as usize];
        !(0x80 <= byte && byte <= 0xbf)
    }
}

fn check_string(b: &[u8], h: &Header, offset: usize, r: StringRange) -> (res: Result<
    (),
    ValidationError,
>)
    requires
        b@.len() >= HEADER_SIZE,
        header_error(b@) is None,
        h.describes(b@),
    ensures
        res == to_result(string_error(b@, offset as int, r)),
{
    match check_range(r.start, r.len, h.strings_len, offset, ValidationErrorKind::StringOutOfBounds) {
        Err(e) => Err(e),
        Ok(()) => {
            if on_boundary(b, h, r.start) && on_boundary(b, h, r.start + r.len) {
                Ok(())
            } else {
                Err(ValidationErrorKind::InvalidUtf8.at_offset(offset))
            }
        },
    }
}

fn check_node(b: &[u8], h: &Header, index: u32) -> (r: Result<(), ValidationError>)
    requires
        b@.len() >= HEADER_SIZE,
        header_error(b@) is None,
        h.describes(b@),
        index < h.nodes_len,
    ensures
        r == to_result(node_error(b@, index as int)),
{
    proof {
        lemma_header_ok(b@);
    }
    let at = h.nodes_offset as usize + index as usize * NODE_SIZE;
    let node = Node::read(b, at);
    match check_string(b, h, at + NODE_OFFSET_NAME, node.name) {
        Err(e) => return Err(e),
        Ok(()) => {},
    }
    match check_string(b, h, at + NODE_OFFSET_TY, node.ty) {
        Err(e) => return Err(e),
        Ok(()) => {},
    }
    match check_range(
        node.args.start,
        node.args.len,
        h.args_len,
        at + NODE_OFFSET_ARGS,
        ValidationErrorKind::ArgumentsOutOfBounds,
    ) {
        Err(e) => return Err(e),
        Ok(()) => {},
    }
    if node.children.len != 0 && node.children.start <= index {
        return Err(ValidationErrorKind::ChildrenBeforeParent.at_offset(at + NODE_OFFSET_CHILDREN));
    }
    check_range(
        node.children.start,
        node.children.len,
        h.nodes_len,
        at + NODE_OFFSET_CHILDREN,
        ValidationErrorKind::ChildrenOutOfBounds,
    )
}

fn check_value(b: &[u8], h: &Header, at: usize, v: crate::codec::Value) -> (r: Result<
    (),
    ValidationError,
>)
    requires
        b@.len() >= HEADER_SIZE,
        header_error(b@) is None,
        h.describes(b@),
        at + 12 <= b@.len(),
    ensures
        r == to_result(value_error(b@, at as int, v)),
{
    match RawValue::try_from_value(v) {
        Err(kind) => Err(kind.at_offset(at + VALUE_OFFSET_TY)),
        Ok(RawValue::String(range)) => check_string(b, h, at + VALUE_OFFSET_PAYLOAD, range),
        Ok(RawValue::Binary(range)) => check_range(
            range.start,
            range.len,
            h.binary_len,
            at + VALUE_OFFSET_PAYLOAD,
            ValidationErrorKind::BinaryOutOfBounds,
        ),
        Ok(_) => Ok(()),
    }
}

fn check_arg(b: &[u8], h: &Header, index: u32) -> (r: Result<(), ValidationError>)
    requires
        b@.len() >= HEADER_SIZE,
        header_error(b@) is None,
        h.describes(b@),
        index < h.args_len,
    ensures
        r == to_result(arg_error(b@, index as int)),
{
    proof {
        lemma_header_ok(b@);
    }
    let at = h.args_offset as usize + index as usize * ARG_SIZE;
    let arg = Arg::read(b, at);
    match check_string(b, h, at + ARG_OFFSET_NAME, arg.name) {
        Err(e) => return Err(e),
        Ok(()) => {},
    }
    check_value(b, h, at + ARG_OFFSET_VALUE, arg.value)
}

} // verus!
