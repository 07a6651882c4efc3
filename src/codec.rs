//! Byte layout of the document format.
//!
//! Every record is little-endian and made of `u32` fields (plus the eight
//! magic bytes of the header and the eight payload bytes of a value). All
//! offsets stored inside the records are relative to their section.
use vstd::prelude::*;

use crate::error::ValidationErrorKind;

verus! {

/// Magic bytes at the start of every non-empty document: `"zdoc\0\0\0\0"`.
pub const MAGIC: [u8; 8] = [122, 100, 111, 99, 0, 0, 0, 0];

/// The only supported version of the format.
pub const VERSION: u32 = 1;

/// Size of the header in bytes.
pub const HEADER_SIZE: usize = 64;

/// Size of a node record in bytes.
pub const NODE_SIZE: usize = 32;

/// Size of an argument record in bytes.
pub const ARG_SIZE: usize = 20;

/// Byte offsets of the header fields.
pub const OFFSET_VERSION: usize = 8;
pub const OFFSET_ROOT_NODE_INDEX: usize = 12;
pub const OFFSET_SIZE: usize = 16;
pub const OFFSET_NODES_OFFSET: usize = 20;
pub const OFFSET_NODES_LEN: usize = 24;
pub const OFFSET_ARGS_OFFSET: usize = 28;
pub const OFFSET_ARGS_LEN: usize = 32;
pub const OFFSET_STRINGS_OFFSET: usize = 36;
pub const OFFSET_STRINGS_LEN: usize = 40;
pub const OFFSET_BINARY_OFFSET: usize = 44;
pub const OFFSET_BINARY_LEN: usize = 48;
pub const OFFSET_RESERVED1: usize = 52;
pub const OFFSET_RESERVED2: usize = 56;
pub const OFFSET_RESERVED3: usize = 60;

/// Byte offsets of the fields of a node record.
pub const NODE_OFFSET_ARGS: usize = 0;
pub const NODE_OFFSET_CHILDREN: usize = 8;
pub const NODE_OFFSET_NAME: usize = 16;
pub const NODE_OFFSET_TY: usize = 24;

/// Byte offsets of the fields of an argument record.
pub const ARG_OFFSET_NAME: usize = 0;
pub const ARG_OFFSET_VALUE: usize = 8;

/// Byte offsets of the fields of a value record (relative to the value).
pub const VALUE_OFFSET_TY: usize = 0;
pub const VALUE_OFFSET_PAYLOAD: usize = 4;

/// Value tags.
pub const TAG_NULL: u32 = 0;
pub const TAG_BOOL: u32 = 1;
pub const TAG_INT: u32 = 2;
pub const TAG_UINT: u32 = 3;
pub const TAG_FLOAT: u32 = 4;
pub const TAG_STRING: u32 = 5;
pub const TAG_BINARY: u32 = 6;

// ---------------------------------------------------------------------------
// Little-endian integers

/// The `u32` whose little-endian encoding is `b0 b1 b2 b3`.
pub open spec fn u32_le(b0: u8, b1: u8, b2: u8, b3: u8) -> u32 {
    (b0 as u32) | ((b1 as u32) << 8u32) | ((b2 as u32) << 16u32) | ((b3 as u32) << 24u32)
}

/// The `u32` stored little-endian at byte `at` of `b`.
pub open spec fn le32_at(b: Seq<u8>, at: int) -> u32 {
    u32_le(b[at], b[at + 1], b[at + 2], b[at + 3])
}

/// The `u64` stored little-endian at byte `at` of `b`.
pub open spec fn le64_at(b: Seq<u8>, at: int) -> u64 {
    (le32_at(b, at) as u64) | ((le32_at(b, at + 4) as u64) << 32u64)
}

/// The little-endian encoding of `x`.
pub open spec fn u32_bytes(x: u32) -> Seq<u8> {
    seq![
        (x & 0xff) as u8,
        ((x >> 8u32) & 0xff) as u8,
        ((x >> 16u32) & 0xff) as u8,
        ((x >> 24u32) & 0xff) as u8,
    ]
}

/// The little-endian encoding of `x`.
pub open spec fn u64_bytes(x: u64) -> Seq<u8> {
    u32_bytes((x & 0xffff_ffff) as u32) + u32_bytes((x >> 32u64) as u32)
}

pub proof fn lemma_u32_le_bytes(x: u32)
    ensures
        u32_le(u32_bytes(x)[0], u32_bytes(x)[1], u32_bytes(x)[2], u32_bytes(x)[3]) == x,
{
    let b0 = (x & 0xff) as u8;
    let b1 = ((x >> 8u32) & 0xff) as u8;
    let b2 = ((x >> 16u32) & 0xff) as u8;
    let b3 = ((x >> 24u32) & 0xff) as u8;
    assert((b0 as u32) | ((b1 as u32) << 8u32) | ((b2 as u32) << 16u32) | ((b3 as u32) << 24u32)
        == x) by (bit_vector)
        requires
            b0 == (x & 0xff) as u8,
            b1 == ((x >> 8u32) & 0xff) as u8,
            b2 == ((x >> 16u32) & 0xff) as u8,
            b3 == ((x >> 24u32) & 0xff) as u8,
    ;
}

/// Reading back the encoding of `x`, at any position of a buffer, gives `x`.
pub proof fn lemma_le32_of_bytes(pre: Seq<u8>, x: u32, post: Seq<u8>)
    ensures
        le32_at(pre + u32_bytes(x) + post, pre.len() as int) == x,
{
    let b = pre + u32_bytes(x) + post;
    let p = pre.len() as int;
    assert(b[p] == u32_bytes(x)[0]);
    assert(b[p + 1] == u32_bytes(x)[1]);
    assert(b[p + 2] == u32_bytes(x)[2]);
    assert(b[p + 3] == u32_bytes(x)[3]);
    lemma_u32_le_bytes(x);
}

/// A window of four bytes holding the encoding of `x` reads as `x`.
pub proof fn lemma_le32_window(b: Seq<u8>, at: int, x: u32)
    requires
        0 <= at,
        at + 4 <= b.len(),
        b.subrange(at, at + 4) == u32_bytes(x),
    ensures
        le32_at(b, at) == x,
{
    assert(b[at] == b.subrange(at, at + 4)[0]);
    assert(b[at + 1] == b.subrange(at, at + 4)[1]);
    assert(b[at + 2] == b.subrange(at, at + 4)[2]);
    assert(b[at + 3] == b.subrange(at, at + 4)[3]);
    lemma_u32_le_bytes(x);
}

/// A window of eight bytes holding the encoding of `x` reads as `x`.
pub proof fn lemma_le64_window(b: Seq<u8>, at: int, x: u64)
    requires
        0 <= at,
        at + 8 <= b.len(),
        b.subrange(at, at + 8) == u64_bytes(x),
    ensures
        le64_at(b, at) == x,
{
    let lo = (x & 0xffff_ffff) as u32;
    let hi = (x >> 32u64) as u32;
    assert(b.subrange(at, at + 4) =~= b.subrange(at, at + 8).subrange(0, 4));
    assert(b.subrange(at + 4, at + 8) =~= b.subrange(at, at + 8).subrange(4, 8));
    assert(u64_bytes(x).subrange(0, 4) =~= u32_bytes(lo));
    assert(u64_bytes(x).subrange(4, 8) =~= u32_bytes(hi));
    lemma_le32_window(b, at, lo);
    lemma_le32_window(b, at + 4, hi);
    assert(((lo as u64) | ((hi as u64) << 32u64)) == x) by (bit_vector)
        requires
            lo == (x & 0xffff_ffff) as u32,
            hi == (x >> 32u64) as u32,
    ;
}

/// Reads the `u32` stored little-endian at byte `at`.
pub fn read_u32(b: &[u8], at: usize) -> (r: u32)
    requires
        at + 4 <= b@.len(),
    ensures
        r == le32_at(b@, at as int),
{
    (b[at] as u32) | ((b[at + 1] as u32) << 8u32) | ((b[at + 2] as u32) << 16u32) | ((b[at
        + 3] as u32) << 24u32)
}

/// Reads the `u64` stored little-endian at byte `at`.
pub fn read_u64(b: &[u8], at: usize) -> (r: u64)
    requires
        at + 8 <= b@.len(),
    ensures
        r == le64_at(b@, at as int),
{
    let lo = read_u32(b, at);
    let _len = b.len();
    let hi = read_u32(b, at + 4);
    (lo as u64) | ((hi as u64) << 32u64)
}

/// Appends the little-endian encoding of `x`.
pub fn push_u32(out: &mut Vec<u8>, x: u32)
    ensures
        final(out)@ == old(out)@ + u32_bytes(x),
{
    out.push((x & 0xff) as u8);
    out.push(((x >> 8u32) & 0xff) as u8);
    out.push(((x >> 16u32) & 0xff) as u8);
    out.push(((x >> 24u32) & 0xff) as u8);
    assert(final(out)@ =~= old(out)@ + u32_bytes(x));
}

/// Appends the little-endian encoding of `x`.
pub fn push_u64(out: &mut Vec<u8>, x: u64)
    ensures
        final(out)@ == old(out)@ + u64_bytes(x),
{
    push_u32(out, (x & 0xffff_ffff) as u32);
    push_u32(out, (x >> 32u64) as u32);
    assert(final(out)@ =~= old(out)@ + u64_bytes(x));
}


// ---------------------------------------------------------------------------
// Records

/// Range of nodes, relative to the start of the nodes section.
#[derive(Clone, Copy, Debug, PartialEq, Eq, Structural)]
pub struct NodeRange {
    pub start: u32,
    pub len: u32,
}

/// Range of arguments, relative to the start of the args section.
#[derive(Clone, Copy, Debug, PartialEq, Eq, Structural)]
pub struct ArgRange {
    pub start: u32,
    pub len: u32,
}

/// Byte range of a string, relative to the start of the strings section.
#[derive(Clone, Copy, Debug, PartialEq, Eq, Structural)]
pub struct StringRange {
    pub start: u32,
    pub len: u32,
}

/// Byte range of binary data, relative to the start of the binary section.
#[derive(Clone, Copy, Debug, PartialEq, Eq, Structural)]
pub struct BinaryRange {
    pub start: u32,
    pub len: u32,
}

impl NodeRange {
    /// The empty range.
    pub fn empty() -> (r: NodeRange)
        ensures
            r.start == 0 && r.len == 0,
    {
        NodeRange { start: 0, len: 0 }
    }
}

impl ArgRange {
    /// The empty range.
    pub fn empty() -> (r: ArgRange)
        ensures
            r.start == 0 && r.len == 0,
    {
        ArgRange { start: 0, len: 0 }
    }
}

impl StringRange {
    /// The empty range.
    pub fn empty() -> (r: StringRange)
        ensures
            r.start == 0 && r.len == 0,
    {
        StringRange { start: 0, len: 0 }
    }
}

impl BinaryRange {
    /// The empty range.
    pub fn empty() -> (r: BinaryRange)
        ensures
            r.start == 0 && r.len == 0,
    {
        BinaryRange { start: 0, len: 0 }
    }
}

/// Encoded node: 32 bytes.
#[derive(Clone, Copy, Debug, PartialEq, Eq, Structural)]
pub struct Node {
    pub args: ArgRange,
    pub children: NodeRange,
    pub name: StringRange,
    pub ty: StringRange,
}

impl Node {
    /// The record of a node with no name, type, arguments or children.
    pub fn empty() -> (r: Node)
        ensures
            r == spec_empty_node(),
    {
        Node {
            args: ArgRange::empty(),
            children: NodeRange::empty(),
            name: StringRange::empty(),
            ty: StringRange::empty(),
        }
    }
}

/// Encoded value: a `u32` tag followed by an 8-byte payload, read here as
/// one little-endian `u64`.
#[derive(Clone, Copy, Debug, PartialEq, Eq, Structural)]
pub struct Value {
    pub ty: u32,
    pub payload: u64,
}

/// Encoded argument: 20 bytes.
#[derive(Clone, Copy, Debug, PartialEq, Eq, Structural)]
pub struct Arg {
    pub name: StringRange,
    pub value: Value,
}

/// Decoded value. A float is carried as its IEEE-754 bit pattern.
#[derive(Clone, Copy, Debug, PartialEq, Eq)]
pub enum RawValue {
    Null,
    Bool(bool),
    Int(i64),
    Uint(u64),
    Float(u64),
    String(StringRange),
    Binary(BinaryRange),
}

pub open spec fn spec_empty_node() -> Node {
    Node {
        args: ArgRange { start: 0, len: 0 },
        children: NodeRange { start: 0, len: 0 },
        name: StringRange { start: 0, len: 0 },
        ty: StringRange { start: 0, len: 0 },
    }
}

/// The node record stored at byte `at`.
pub open spec fn node_at(b: Seq<u8>, at: int) -> Node {
    Node {
        args: ArgRange { start: le32_at(b, at), len: le32_at(b, at + 4) },
        children: NodeRange { start: le32_at(b, at + 8), len: le32_at(b, at + 12) },
        name: StringRange { start: le32_at(b, at + 16), len: le32_at(b, at + 20) },
        ty: StringRange { start: le32_at(b, at + 24), len: le32_at(b, at + 28) },
    }
}

/// The argument record stored at byte `at`.
pub open spec fn arg_at(b: Seq<u8>, at: int) -> Arg {
    Arg {
        name: StringRange { start: le32_at(b, at), len: le32_at(b, at + 4) },
        value: Value { ty: le32_at(b, at + 8), payload: le64_at(b, at + 12) },
    }
}

pub open spec fn node_bytes(n: Node) -> Seq<u8> {
    u32_bytes(n.args.start) + u32_bytes(n.args.len) + u32_bytes(n.children.start) + u32_bytes(
        n.children.len,
    ) + u32_bytes(n.name.start) + u32_bytes(n.name.len) + u32_bytes(n.ty.start) + u32_bytes(
        n.ty.len,
    )
}

pub open spec fn arg_bytes(a: Arg) -> Seq<u8> {
    u32_bytes(a.name.start) + u32_bytes(a.name.len) + u32_bytes(a.value.ty) + u64_bytes(
        a.value.payload,
    )
}

/// What a value record means; an unknown tag is an error.
pub open spec fn decode_value(v: Value) -> Result<RawValue, ValidationErrorKind> {
    if v.ty == TAG_NULL {
        Ok(RawValue::Null)
    } else if v.ty == TAG_BOOL {
        Ok(RawValue::Bool(v.payload & 0xff != 0))
    } else if v.ty == TAG_INT {
        Ok(RawValue::Int(v.payload as i64))
    } else if v.ty == TAG_UINT {
        Ok(RawValue::Uint(v.payload))
    } else if v.ty == TAG_FLOAT {
        Ok(RawValue::Float(v.payload))
    } else if v.ty == TAG_STRING {
        Ok(
            RawValue::String(
                StringRange { start: (v.payload & 0xffff_ffff) as u32, len: (v.payload >> 32u64) as u32 },
            ),
        )
    } else if v.ty == TAG_BINARY {
        Ok(
            RawValue::Binary(
                BinaryRange { start: (v.payload & 0xffff_ffff) as u32, len: (v.payload >> 32u64) as u32 },
            ),
        )
    } else {
        Err(ValidationErrorKind::InvalidArgumentType)
    }
}

pub open spec fn pack_range(start: u32, len: u32) -> u64 {
    (start as u64) | ((len as u64) << 32u64)
}

/// The value record of a decoded value.
pub open spec fn encode_value(r: RawValue) -> Value {
    match r {
        RawValue::Null => Value { ty: TAG_NULL, payload: 0 },
        RawValue::Bool(v) => Value { ty: TAG_BOOL, payload: if v { 0x0101_0101_0101_0101 } else { 0 } },
        RawValue::Int(v) => Value { ty: TAG_INT, payload: v as u64 },
        RawValue::Uint(v) => Value { ty: TAG_UINT, payload: v },
        RawValue::Float(v) => Value { ty: TAG_FLOAT, payload: v },
        RawValue::String(s) => Value { ty: TAG_STRING, payload: pack_range(s.start, s.len) },
        RawValue::Binary(s) => Value { ty: TAG_BINARY, payload: pack_range(s.start, s.len) },
    }
}

pub proof fn lemma_decode_encode_value(r: RawValue)
    ensures
        decode_value(encode_value(r)) == Ok::<RawValue, ValidationErrorKind>(r),
{
    match r {
        RawValue::Bool(v) => {
            assert(0x0101_0101_0101_0101u64 & 0xff != 0) by (bit_vector);
            assert(0u64 & 0xff == 0) by (bit_vector);
        },
        RawValue::Int(v) => {
            assert(((v as u64) as i64) == v) by (bit_vector);
        },
        RawValue::String(s) => {
            let (a, l) = (s.start, s.len);
            assert((((a as u64) | ((l as u64) << 32u64)) & 0xffff_ffff) as u32 == a) by (bit_vector);
            assert((((a as u64) | ((l as u64) << 32u64)) >> 32u64) as u32 == l) by (bit_vector);
        },
        RawValue::Binary(s) => {
            let (a, l) = (s.start, s.len);
            assert((((a as u64) | ((l as u64) << 32u64)) & 0xffff_ffff) as u32 == a) by (bit_vector);
            assert((((a as u64) | ((l as u64) << 32u64)) >> 32u64) as u32 == l) by (bit_vector);
        },
        _ => {},
    }
}

impl RawValue {
    /// Decode a value record.
    pub fn try_from_value(v: Value) -> (r: Result<RawValue, ValidationErrorKind>)
        ensures
            r == decode_value(v),
    {
        if v.ty == TAG_NULL {
            Ok(RawValue::Null)
        } else if v.ty == TAG_BOOL {
            Ok(RawValue::Bool(v.payload & 0xff != 0))
        } else if v.ty == TAG_INT {
            Ok(RawValue::Int(v.payload as i64))
        } else if v.ty == TAG_UINT {
            Ok(RawValue::Uint(v.payload))
        } else if v.ty == TAG_FLOAT {
            Ok(RawValue::Float(v.payload))
        } else if v.ty == TAG_STRING {
            Ok(
                RawValue::String(
                    StringRange {
                        start: (v.payload & 0xffff_ffff) as u32,
                        len: (v.payload >> 32u64) as u32,
                    },
                ),
            )
        } else if v.ty == TAG_BINARY {
            Ok(
                RawValue::Binary(
                    BinaryRange {
                        start: (v.payload & 0xffff_ffff) as u32,
                        len: (v.payload >> 32u64) as u32,
                    },
                ),
            )
        } else {
            Err(ValidationErrorKind::InvalidArgumentType)
        }
    }
}

impl Value {
    /// Encode a decoded value as a value record.
    pub fn from_raw(r: RawValue) -> (v: Value)
        ensures
            v == encode_value(r),
    {
        match r {
            RawValue::Null => Value { ty: TAG_NULL, payload: 0 },
            RawValue::Bool(b) => Value {
                ty: TAG_BOOL,
                payload: if b { 0x0101_0101_0101_0101 } else { 0 },
            },
            RawValue::Int(i) => Value { ty: TAG_INT, payload: i as u64 },
            RawValue::Uint(u) => Value { ty: TAG_UINT, payload: u },
            RawValue::Float(bits) => Value { ty: TAG_FLOAT, payload: bits },
            RawValue::String(s) => Value {
                ty: TAG_STRING,
                payload: (s.start as u64) | ((s.len as u64) << 32u64),
            },
            RawValue::Binary(s) => Value {
                ty: TAG_BINARY,
                payload: (s.start as u64) | ((s.len as u64) << 32u64),
            },
        }
    }
}

impl Node {
    /// Read the node record stored at byte `at`.
    pub fn read(b: &[u8], at: usize) -> (n: Node)
        requires
            at + NODE_SIZE <= b@.len(),
        ensures
            n == node_at(b@, at as int),
    {
        let _len = b.len();
        Node {
            args: ArgRange { start: read_u32(b, at), len: read_u32(b, at + 4) },
            children: NodeRange { start: read_u32(b, at + 8), len: read_u32(b, at + 12) },
            name: StringRange { start: read_u32(b, at + 16), len: read_u32(b, at + 20) },
            ty: StringRange { start: read_u32(b, at + 24), len: read_u32(b, at + 28) },
        }
    }

    /// Append the 32 bytes of this record.
    pub fn encode(&self, out: &mut Vec<u8>)
        ensures
            final(out)@ == old(out)@ + node_bytes(*self),
    {
        push_u32(out, self.args.start);
        push_u32(out, self.args.len);
        push_u32(out, self.children.start);
        push_u32(out, self.children.len);
        push_u32(out, self.name.start);
        push_u32(out, self.name.len);
        push_u32(out, self.ty.start);
        push_u32(out, self.ty.len);
        assert(final(out)@ =~= old(out)@ + node_bytes(*self));
    }
}

impl Arg {
    /// Read the argument record stored at byte `at`.
    pub fn read(b: &[u8], at: usize) -> (a: Arg)
        requires
            at + ARG_SIZE <= b@.len(),
        ensures
            a == arg_at(b@, at as int),
    {
        let _len = b.len();
        Arg {
            name: StringRange { start: read_u32(b, at), len: read_u32(b, at + 4) },
            value: Value { ty: read_u32(b, at + 8), payload: read_u64(b, at + 12) },
        }
    }

    /// Append the 20 bytes of this record.
    pub fn encode(&self, out: &mut Vec<u8>)
        ensures
            final(out)@ == old(out)@ + arg_bytes(*self),
    {
        push_u32(out, self.name.start);
        push_u32(out, self.name.len);
        push_u32(out, self.value.ty);
        push_u64(out, self.value.payload);
        assert(final(out)@ =~= old(out)@ + arg_bytes(*self));
    }
}


// ---------------------------------------------------------------------------
// Header

/// Header of a document: the first 64 bytes of every non-empty document.
#[derive(Clone, Copy, Debug, PartialEq, Eq)]
pub struct Header {
    /// Magic bytes, must be [`MAGIC`].
    pub magic: [u8; 8],
    /// Format version, must be [`VERSION`].
    pub version: u32,
    /// Index of the root node. Must be zero or less than `nodes_len`.
    pub root_node_index: u32,
    /// Size of the document in bytes, including the header.
    pub size: u32,
    /// Byte offset of the nodes section; a multiple of 4.
    pub nodes_offset: u32,
    /// Number of nodes.
    pub nodes_len: u32,
    /// Byte offset of the args section; a multiple of 4.
    pub args_offset: u32,
    /// Number of arguments.
    pub args_len: u32,
    /// Byte offset of the UTF-8 strings section.
    pub strings_offset: u32,
    /// Length in bytes of the strings section.
    pub strings_len: u32,
    /// Byte offset of the binary section.
    pub binary_offset: u32,
    /// Length in bytes of the binary section.
    pub binary_len: u32,
    /// Reserved, must be zero.
    pub reserved1: u32,
    pub reserved2: u32,
    pub reserved3: u32,
}

/// The 64 bytes that encode `h`.
pub open spec fn header_bytes(h: Header) -> Seq<u8> {
    h.magic@ + u32_bytes(h.version) + u32_bytes(h.root_node_index) + u32_bytes(h.size) + u32_bytes(
        h.nodes_offset,
    ) + u32_bytes(h.nodes_len) + u32_bytes(h.args_offset) + u32_bytes(h.args_len) + u32_bytes(
        h.strings_offset,
    ) + u32_bytes(h.strings_len) + u32_bytes(h.binary_offset) + u32_bytes(h.binary_len)
        + u32_bytes(h.reserved1) + u32_bytes(h.reserved2) + u32_bytes(h.reserved3)
}

/// A buffer that starts with the encoding of `h` is described by `h`.
pub proof fn lemma_header_bytes_describe(h: Header, rest: Seq<u8>)
    ensures
        header_bytes(h).len() == HEADER_SIZE,
        h.describes(header_bytes(h) + rest),
{
    let b = header_bytes(h) + rest;
    assert(h.magic@.len() == 8);
    assert(header_bytes(h).len() == 64);
    assert(b.subrange(0, 8) =~= h.magic@);
    assert(b.subrange(8, 12) =~= u32_bytes(h.version));
    assert(b.subrange(12, 16) =~= u32_bytes(h.root_node_index));
    assert(b.subrange(16, 20) =~= u32_bytes(h.size));
    assert(b.subrange(20, 24) =~= u32_bytes(h.nodes_offset));
    assert(b.subrange(24, 28) =~= u32_bytes(h.nodes_len));
    assert(b.subrange(28, 32) =~= u32_bytes(h.args_offset));
    assert(b.subrange(32, 36) =~= u32_bytes(h.args_len));
    assert(b.subrange(36, 40) =~= u32_bytes(h.strings_offset));
    assert(b.subrange(40, 44) =~= u32_bytes(h.strings_len));
    assert(b.subrange(44, 48) =~= u32_bytes(h.binary_offset));
    assert(b.subrange(48, 52) =~= u32_bytes(h.binary_len));
    assert(b.subrange(52, 56) =~= u32_bytes(h.reserved1));
    assert(b.subrange(56, 60) =~= u32_bytes(h.reserved2));
    assert(b.subrange(60, 64) =~= u32_bytes(h.reserved3));
    lemma_le32_window(b, 8, h.version);
    lemma_le32_window(b, 12, h.root_node_index);
    lemma_le32_window(b, 16, h.size);
    lemma_le32_window(b, 20, h.nodes_offset);
    lemma_le32_window(b, 24, h.nodes_len);
    lemma_le32_window(b, 28, h.args_offset);
    lemma_le32_window(b, 32, h.args_len);
    lemma_le32_window(b, 36, h.strings_offset);
    lemma_le32_window(b, 40, h.strings_len);
    lemma_le32_window(b, 44, h.binary_offset);
    lemma_le32_window(b, 48, h.binary_len);
    lemma_le32_window(b, 52, h.reserved1);
    lemma_le32_window(b, 56, h.reserved2);
    lemma_le32_window(b, 60, h.reserved3);
}

/// A window holding the encoding of `n` reads as `n`.
pub proof fn lemma_node_window(b: Seq<u8>, at: int, n: Node)
    requires
        0 <= at,
        at + NODE_SIZE <= b.len(),
        b.subrange(at, at + NODE_SIZE) == node_bytes(n),
    ensures
        node_at(b, at) == n,
{
    let w = b.subrange(at, at + 32);
    assert(b.subrange(at, at + 4) =~= w.subrange(0, 4));
    assert(b.subrange(at + 4, at + 8) =~= w.subrange(4, 8));
    assert(b.subrange(at + 8, at + 12) =~= w.subrange(8, 12));
    assert(b.subrange(at + 12, at + 16) =~= w.subrange(12, 16));
    assert(b.subrange(at + 16, at + 20) =~= w.subrange(16, 20));
    assert(b.subrange(at + 20, at + 24) =~= w.subrange(20, 24));
    assert(b.subrange(at + 24, at + 28) =~= w.subrange(24, 28));
    assert(b.subrange(at + 28, at + 32) =~= w.subrange(28, 32));
    assert(w.subrange(0, 4) =~= u32_bytes(n.args.start));
    assert(w.subrange(4, 8) =~= u32_bytes(n.args.len));
    assert(w.subrange(8, 12) =~= u32_bytes(n.children.start));
    assert(w.subrange(12, 16) =~= u32_bytes(n.children.len));
    assert(w.subrange(16, 20) =~= u32_bytes(n.name.start));
    assert(w.subrange(20, 24) =~= u32_bytes(n.name.len));
    assert(w.subrange(24, 28) =~= u32_bytes(n.ty.start));
    assert(w.subrange(28, 32) =~= u32_bytes(n.ty.len));
    lemma_le32_window(b, at, n.args.start);
    lemma_le32_window(b, at + 4, n.args.len);
    lemma_le32_window(b, at + 8, n.children.start);
    lemma_le32_window(b, at + 12, n.children.len);
    lemma_le32_window(b, at + 16, n.name.start);
    lemma_le32_window(b, at + 20, n.name.len);
    lemma_le32_window(b, at + 24, n.ty.start);
    lemma_le32_window(b, at + 28, n.ty.len);
}

/// A window holding the encoding of `a` reads as `a`.
pub proof fn lemma_arg_window(b: Seq<u8>, at: int, a: Arg)
    requires
        0 <= at,
        at + ARG_SIZE <= b.len(),
        b.subrange(at, at + ARG_SIZE) == arg_bytes(a),
    ensures
        arg_at(b, at) == a,
{
    let w = b.subrange(at, at + 20);
    assert(b.subrange(at, at + 4) =~= w.subrange(0, 4));
    assert(b.subrange(at + 4, at + 8) =~= w.subrange(4, 8));
    assert(b.subrange(at + 8, at + 12) =~= w.subrange(8, 12));
    assert(b.subrange(at + 12, at + 20) =~= w.subrange(12, 20));
    assert(w.subrange(0, 4) =~= u32_bytes(a.name.start));
    assert(w.subrange(4, 8) =~= u32_bytes(a.name.len));
    assert(w.subrange(8, 12) =~= u32_bytes(a.value.ty));
    assert(w.subrange(12, 20) =~= u64_bytes(a.value.payload));
    lemma_le32_window(b, at, a.name.start);
    lemma_le32_window(b, at + 4, a.name.len);
    lemma_le32_window(b, at + 8, a.value.ty);
    lemma_le64_window(b, at + 12, a.value.payload);
}

impl Header {
    /// `b` starts with the encoding of this header.
    pub open spec fn describes(self, b: Seq<u8>) -> bool {
        &&& b.len() >= HEADER_SIZE
        &&& self.magic@ == b.subrange(0, 8)
        &&& self.version == le32_at(b, OFFSET_VERSION as int)
        &&& self.root_node_index == le32_at(b, OFFSET_ROOT_NODE_INDEX as int)
        &&& self.size == le32_at(b, OFFSET_SIZE as int)
        &&& self.nodes_offset == le32_at(b, OFFSET_NODES_OFFSET as int)
        &&& self.nodes_len == le32_at(b, OFFSET_NODES_LEN as int)
        &&& self.args_offset == le32_at(b, OFFSET_ARGS_OFFSET as int)
        &&& self.args_len == le32_at(b, OFFSET_ARGS_LEN as int)
        &&& self.strings_offset == le32_at(b, OFFSET_STRINGS_OFFSET as int)
        &&& self.strings_len == le32_at(b, OFFSET_STRINGS_LEN as int)
        &&& self.binary_offset == le32_at(b, OFFSET_BINARY_OFFSET as int)
        &&& self.binary_len == le32_at(b, OFFSET_BINARY_LEN as int)
        &&& self.reserved1 == le32_at(b, OFFSET_RESERVED1 as int)
        &&& self.reserved2 == le32_at(b, OFFSET_RESERVED2 as int)
        &&& self.reserved3 == le32_at(b, OFFSET_RESERVED3 as int)
    }

    /// The header that stands for the empty document: no sections at all.
    pub open spec fn is_default(self) -> bool {
        &&& self.magic@ == MAGIC@
        &&& self.version == VERSION
        &&& self.root_node_index == 0
        &&& self.size == HEADER_SIZE
        &&& self.nodes_offset == 0
        &&& self.nodes_len == 0
        &&& self.args_offset == 0
        &&& self.args_len == 0
        &&& self.strings_offset == 0
        &&& self.strings_len == 0
        &&& self.binary_offset == 0
        &&& self.binary_len == 0
        &&& self.reserved1 == 0
        &&& self.reserved2 == 0
        &&& self.reserved3 == 0
    }

    /// Read the header at the start of `b`.
    pub fn read(b: &[u8]) -> (h: Header)
        requires
            b@.len() >= HEADER_SIZE,
        ensures
            h.describes(b@),
    {
        let magic = [b[0], b[1], b[2], b[3], b[4], b[5], b[6], b[7]];
        assert(magic@ =~= b@.subrange(0, 8));
        Header {
            magic,
            version: read_u32(b, OFFSET_VERSION),
            root_node_index: read_u32(b, OFFSET_ROOT_NODE_INDEX),
            size: read_u32(b, OFFSET_SIZE),
            nodes_offset: read_u32(b, OFFSET_NODES_OFFSET),
            nodes_len: read_u32(b, OFFSET_NODES_LEN),
            args_offset: read_u32(b, OFFSET_ARGS_OFFSET),
            args_len: read_u32(b, OFFSET_ARGS_LEN),
            strings_offset: read_u32(b, OFFSET_STRINGS_OFFSET),
            strings_len: read_u32(b, OFFSET_STRINGS_LEN),
            binary_offset: read_u32(b, OFFSET_BINARY_OFFSET),
            binary_len: read_u32(b, OFFSET_BINARY_LEN),
            reserved1: read_u32(b, OFFSET_RESERVED1),
            reserved2: read_u32(b, OFFSET_RESERVED2),
            reserved3: read_u32(b, OFFSET_RESERVED3),
        }
    }

    /// Append the 64 bytes of this header.
    pub fn encode(&self, out: &mut Vec<u8>)
        ensures
            final(out)@ == old(out)@ + header_bytes(*self),
    {
        let mut i: usize = 0;
        while i < 8
            invariant
                0 <= i <= 8,
                out@ == old(out)@ + self.magic@.subrange(0, i as int),
            decreases 8 - i,
        {
            out.push(self.magic[i]);
            assert(self.magic@.subrange(0, i + 1) =~= self.magic@.subrange(0, i as int).push(
                self.magic@[i as int],
            ));
            i = i + 1;
        }
        assert(self.magic@.subrange(0, 8) =~= self.magic@);
        push_u32(out, self.version);
        push_u32(out, self.root_node_index);
        push_u32(out, self.size);
        push_u32(out, self.nodes_offset);
        push_u32(out, self.nodes_len);
        push_u32(out, self.args_offset);
        push_u32(out, self.args_len);
        push_u32(out, self.strings_offset);
        push_u32(out, self.strings_len);
        push_u32(out, self.binary_offset);
        push_u32(out, self.binary_len);
        push_u32(out, self.reserved1);
        push_u32(out, self.reserved2);
        push_u32(out, self.reserved3);
        assert(final(out)@ =~= old(out)@ + header_bytes(*self));
    }

    /// The 64 bytes of this header.
    pub fn to_bytes(&self) -> (r: Vec<u8>)
        ensures
            r@ == header_bytes(*self),
    {
        let mut out: Vec<u8> = Vec::new();
        self.encode(&mut out);
        assert(out@ =~= header_bytes(*self));
        out
    }
}

impl Default for Header {
    /// The header of the empty document.
    fn default() -> (h: Header)
        ensures
            h.is_default(),
    {
        Header {
            magic: MAGIC,
            version: VERSION,
            root_node_index: 0,
            size: HEADER_SIZE as u32,
            nodes_offset: 0,
            nodes_len: 0,
            args_offset: 0,
            args_len: 0,
            strings_offset: 0,
            strings_len: 0,
            binary_offset: 0,
            binary_len: 0,
            reserved1: 0,
            reserved2: 0,
            reserved3: 0,
        }
    }
}

} // verus!
