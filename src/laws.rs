//! Properties of the format that follow from the contracts of the
//! validator and the interner.
use vstd::prelude::*;

use crate::builder::intern::{add_step, InternModel};
use crate::codec::{
    le32_at, StringRange, HEADER_SIZE, MAGIC, OFFSET_NODES_OFFSET, OFFSET_SIZE,
    OFFSET_VERSION, VERSION,
};
use crate::error::ValidationErrorKind;
use crate::raw::{
    args_end, bad_section_offset, binary_end, check_result, err, lemma_valid_node, node_record, nodes_end, nodes_len_of, overlapping, range_error,
    string_error, strings_end, valid_document,
};

verus! {

/// The empty buffer is a valid document (the empty one).
pub proof fn lemma_empty_buffer_valid()
    ensures
        valid_document(Seq::<u8>::empty()),
{
    assert(crate::raw::strings_section(Seq::<u8>::empty()) =~= Seq::<u8>::empty());
}

/// In a valid document, the children of every node come strictly after
/// it (or it has none): the node graph has no cycles.
pub proof fn lemma_children_follow_parent(b: Seq<u8>, i: int)
    requires
        valid_document(b),
        0 <= i < nodes_len_of(b),
    ensures
        node_record(b, i).children.len == 0 || node_record(b, i).children.start > i,
{
    lemma_valid_node(b, i);
}

/// A non-empty buffer shorter than a header is rejected for its size.
pub proof fn lemma_short_buffer_rejected(b: Seq<u8>)
    requires
        0 < b.len() < HEADER_SIZE,
    ensures
        check_result(b) == Err::<(), _>(err(ValidationErrorKind::HeaderSize, OFFSET_SIZE as int)),
{
}

/// A header whose size field is not the length of the buffer is rejected
/// with `HeaderSize` (once magic and version are right).
pub proof fn lemma_size_mismatch_rejected(b: Seq<u8>)
    requires
        b.len() >= HEADER_SIZE,
        b.subrange(0, 8) == MAGIC@,
        le32_at(b, OFFSET_VERSION as int) == VERSION,
        le32_at(b, OFFSET_SIZE as int) != b.len(),
    ensures
        check_result(b) == Err::<(), _>(err(ValidationErrorKind::HeaderSize, OFFSET_SIZE as int)),
{
}

/// A nodes offset that is not a multiple of 4 is rejected with
/// `HeaderNodesOffset` (once magic, version and size are right).
pub proof fn lemma_unaligned_nodes_rejected(b: Seq<u8>)
    requires
        b.len() >= HEADER_SIZE,
        b.subrange(0, 8) == MAGIC@,
        le32_at(b, OFFSET_VERSION as int) == VERSION,
        le32_at(b, OFFSET_SIZE as int) == b.len(),
        le32_at(b, OFFSET_NODES_OFFSET as int) % 4 != 0,
    ensures
        check_result(b) == Err::<(), _>(
            err(ValidationErrorKind::HeaderNodesOffset, OFFSET_NODES_OFFSET as int),
        ),
{
}

/// A `(start, len)` pair whose end does not fit in a `u32` is a
/// `LengthOverflow`, whatever the bound: the end never wraps around.
pub proof fn lemma_range_overflow_detected(
    start: u32,
    len: u32,
    bound: u32,
    offset: int,
    kind: ValidationErrorKind,
)
    requires
        start + len > u32::MAX,
    ensures
        range_error(start, len, bound, offset, kind) == Some(
            err(ValidationErrorKind::LengthOverflow, offset),
        ),
{
}

/// The same holds of string ranges.
pub proof fn lemma_string_overflow_detected(b: Seq<u8>, offset: int, r: StringRange)
    requires
        r.start + r.len > u32::MAX,
    ensures
        string_error(b, offset, r) == Some(err(ValidationErrorKind::LengthOverflow, offset)),
{
}

/// Every header check before the overlap checks passes.
pub open spec fn sections_well_placed(b: Seq<u8>) -> bool {
    let len = b.len();
    let nodes_offset = le32_at(b, OFFSET_NODES_OFFSET as int);
    let args_offset = le32_at(b, crate::codec::OFFSET_ARGS_OFFSET as int);
    let strings_offset = le32_at(b, crate::codec::OFFSET_STRINGS_OFFSET as int);
    let binary_offset = le32_at(b, crate::codec::OFFSET_BINARY_OFFSET as int);
    let root = le32_at(b, crate::codec::OFFSET_ROOT_NODE_INDEX as int);
    let nodes_len = le32_at(b, crate::codec::OFFSET_NODES_LEN as int);
    &&& len >= HEADER_SIZE
    &&& b.subrange(0, 8) == MAGIC@
    &&& le32_at(b, OFFSET_VERSION as int) == VERSION
    &&& le32_at(b, OFFSET_SIZE as int) == len
    &&& nodes_offset % 4 == 0 && !bad_section_offset(nodes_offset, nodes_len, len)
    &&& nodes_end(b) <= len
    &&& args_offset % 4 == 0 && !bad_section_offset(args_offset, le32_at(b, crate::codec::OFFSET_ARGS_LEN as int), len)
    &&& args_end(b) <= len
    &&& !bad_section_offset(strings_offset, le32_at(b, crate::codec::OFFSET_STRINGS_LEN as int), len)
    &&& strings_end(b) <= len
    &&& !bad_section_offset(binary_offset, le32_at(b, crate::codec::OFFSET_BINARY_LEN as int), len)
    &&& binary_end(b) <= len
    &&& (root == 0 || root < nodes_len)
}

/// Any two of the four sections sharing a byte is rejected with
/// `HeaderSectionsOverlap`, for each of the six pairs.
pub proof fn lemma_overlap_rejected(b: Seq<u8>)
    requires
        sections_well_placed(b),
        ({
            let nodes = le32_at(b, OFFSET_NODES_OFFSET as int) as int;
            let args = le32_at(b, crate::codec::OFFSET_ARGS_OFFSET as int) as int;
            let strings = le32_at(b, crate::codec::OFFSET_STRINGS_OFFSET as int) as int;
            let binary = le32_at(b, crate::codec::OFFSET_BINARY_OFFSET as int) as int;
            ||| overlapping(nodes, nodes_end(b), args, args_end(b))
            ||| overlapping(nodes, nodes_end(b), strings, strings_end(b))
            ||| overlapping(nodes, nodes_end(b), binary, binary_end(b))
            ||| overlapping(args, args_end(b), strings, strings_end(b))
            ||| overlapping(args, args_end(b), binary, binary_end(b))
            ||| overlapping(strings, strings_end(b), binary, binary_end(b))
        }),
    ensures
        check_result(b) matches Err(e) && e.error == ValidationErrorKind::HeaderSectionsOverlap,
{
}

/// Adding a string of at most `limit` bytes a second time reuses the range
/// of the first: one copy in the strings section, referenced twice.
pub proof fn lemma_short_string_shared(m: InternModel, s: Seq<char>)
    requires
        s.len() > 0,
        vstd::utf8::encode_utf8(s).len() <= m.limit,
    ensures
        ({
            let (m1, r1) = add_step(m, s);
            let (m2, r2) = add_step(m1, s);
            r2 == r1 && m2.buffer == m1.buffer && m2.table == m1.table
        }),
{
}

/// A string longer than `limit` bytes is copied each time it is added:
/// two adds give two distinct ranges, one after the other.
pub proof fn lemma_long_string_copied(m: InternModel, s: Seq<char>)
    requires
        vstd::utf8::encode_utf8(s).len() > m.limit,
        s.len() > 0,
        m.buffer.len() + 2 * vstd::utf8::encode_utf8(s).len() <= u32::MAX,
    ensures
        ({
            let bytes = vstd::utf8::encode_utf8(s);
            let (m1, r1) = add_step(m, s);
            let (m2, r2) = add_step(m1, s);
            &&& r1.start == m.buffer.len() && r1.len == bytes.len()
            &&& r2.start == r1.start + r1.len && r2.len == bytes.len()
            &&& r1 != r2
            &&& m2.buffer == m.buffer + bytes + bytes
        }),
{
}

} // verus!
