//! Serializes a tree into the binary layout.
//!
//! Node slots are handed out in traversal order: a node's slot is reserved
//! before the slots of its children, so children always come after their
//! parent.
use vstd::prelude::*;

use crate::builder::intern::{
    holds, lemma_holds_prefix, boundary, lemma_add_step_inv, lemma_intern_step_inv,
    lemma_valid_utf8_first, string_ok, strings_inv, InternModel, Strings,
};
use crate::builder::{Arg, BuildError, Node, Value};
use crate::codec::{
    arg_bytes, header_bytes, node_bytes, spec_empty_node, Arg as ArgRecord, ArgRange,
    BinaryRange, Header, Node as NodeRecord, NodeRange, RawValue, StringRange, Value as ValueRecord,
    ARG_SIZE, HEADER_SIZE, MAGIC, NODE_SIZE, VERSION,
};
use crate::document::DocumentBuffer;
use crate::raw::{
    nodes_len_of, args_len_of, valid_document, arg_error, check_result, header_error, lemma_args_error_from_each,
    lemma_nodes_error_from_each, node_error, strings_section, strings_len_of, strings_offset_of, };
use crate::codec::{
    decode_value, lemma_arg_window, lemma_decode_encode_value,
    lemma_header_bytes_describe, lemma_node_window,
};
use vstd::utf8::{valid_utf8};

verus! {

/// The bytes of a sequence of node records.
pub open spec fn nodes_bytes(s: Seq<NodeRecord>) -> Seq<u8>
    decreases s.len(),
{
    if s.len() == 0 {
        Seq::empty()
    } else {
        nodes_bytes(s.drop_last()) + node_bytes(s.last())
    }
}

/// The bytes of a sequence of argument records.
pub open spec fn args_bytes(s: Seq<ArgRecord>) -> Seq<u8>
    decreases s.len(),
{
    if s.len() == 0 {
        Seq::empty()
    } else {
        args_bytes(s.drop_last()) + arg_bytes(s.last())
    }
}

/// Total size of a document with these sections.
pub open spec fn file_size_of(n_nodes: nat, n_args: nat, strings_len: nat, binary_len: nat) -> nat {
    (HEADER_SIZE + NODE_SIZE * n_nodes + ARG_SIZE * n_args + strings_len + binary_len) as nat
}

/// The header of a document whose sections follow the header in order:
/// nodes, args, strings, binary.
pub open spec fn layout_header(n_nodes: nat, n_args: nat, strings_len: nat, binary_len: nat) -> Header {
    let args_offset = HEADER_SIZE + NODE_SIZE * n_nodes;
    let strings_offset = args_offset + ARG_SIZE * n_args;
    let binary_offset = strings_offset + strings_len;
    Header {
        magic: MAGIC,
        version: VERSION,
        root_node_index: 0,
        size: file_size_of(n_nodes, n_args, strings_len, binary_len) as u32,
        nodes_offset: HEADER_SIZE as u32,
        nodes_len: n_nodes as u32,
        args_offset: args_offset as u32,
        args_len: n_args as u32,
        strings_offset: strings_offset as u32,
        strings_len: strings_len as u32,
        binary_offset: binary_offset as u32,
        binary_len: binary_len as u32,
        reserved1: 0,
        reserved2: 0,
        reserved3: 0,
    }
}

/// The buffer made of the given sections: `header ++ nodes ++ args ++
/// strings ++ binary`.
pub open spec fn serialized(
    nodes: Seq<NodeRecord>,
    args: Seq<ArgRecord>,
    strings: Seq<u8>,
    binary: Seq<u8>,
) -> Seq<u8> {
    header_bytes(layout_header(nodes.len(), args.len(), strings.len(), binary.len())) + nodes_bytes(
        nodes,
    ) + args_bytes(args) + strings + binary
}

/// Node record `n` in slot `i` refers only to what the sections hold, and
/// its children come after it.
pub open spec fn slot_ok(n: NodeRecord, i: int, n_nodes: nat, n_args: nat, strings: Seq<u8>) -> bool {
    &&& string_ok(strings, n.name)
    &&& string_ok(strings, n.ty)
    &&& n.args.start + n.args.len <= n_args
    &&& (n.children.len == 0 || n.children.start > i)
    &&& n.children.start + n.children.len <= n_nodes
}

/// Value record `v` has a known tag and refers only to what the sections
/// hold.
pub open spec fn value_ok(v: ValueRecord, strings: Seq<u8>, binary_len: nat) -> bool {
    match decode_value(v) {
        Ok(RawValue::String(r)) => string_ok(strings, r),
        Ok(RawValue::Binary(r)) => r.start + r.len <= binary_len,
        Ok(_) => true,
        Err(_) => false,
    }
}

/// Argument record `a` has a known tag and refers only to what the
/// sections hold.
pub open spec fn arg_ok(a: ArgRecord, strings: Seq<u8>, binary_len: nat) -> bool {
    &&& string_ok(strings, a.name)
    &&& value_ok(a.value, strings, binary_len)
}

/// Every record of the staging area is well formed and the strings are
/// valid UTF-8.
pub open spec fn staged_ok(
    nodes: Seq<NodeRecord>,
    args: Seq<ArgRecord>,
    strings: Seq<u8>,
    binary_len: nat,
) -> bool {
    &&& valid_utf8(strings)
    &&& forall|i: int|
        0 <= i < nodes.len() ==> slot_ok(#[trigger] nodes[i], i, nodes.len(), args.len(), strings)
    &&& forall|j: int| 0 <= j < args.len() ==> arg_ok(#[trigger] args[j], strings, binary_len)
}

/// The name of an argument as characters; no name is the empty string.
pub open spec fn name_chars(n: Option<String>) -> Seq<char> {
    match n {
        Some(s) => s@,
        None => Seq::empty(),
    }
}

/// Value record `v` reads back as the value `t`.
pub open spec fn value_matches(v: ValueRecord, strings: Seq<u8>, binary: Seq<u8>, t: Value) -> bool {
    match t {
        Value::Null => decode_value(v) matches Ok(RawValue::Null),
        Value::Bool(x) => decode_value(v) matches Ok(RawValue::Bool(y)) && y == x,
        Value::Int(x) => decode_value(v) matches Ok(RawValue::Int(y)) && y == x,
        Value::Uint(x) => decode_value(v) matches Ok(RawValue::Uint(y)) && y == x,
        Value::Float(x) => decode_value(v) matches Ok(RawValue::Float(y)) && y == x,
        Value::String(x) => decode_value(v) matches Ok(RawValue::String(r)) && holds(
            strings,
            r,
            x@,
        ),
        Value::Binary(x) => decode_value(v) matches Ok(RawValue::Binary(r)) && r.start + r.len
            <= binary.len() && binary.subrange(r.start as int, r.start + r.len) == x@,
    }
}

/// Argument record `a` reads back as the argument `t`.
pub open spec fn arg_matches(a: ArgRecord, strings: Seq<u8>, binary: Seq<u8>, t: Arg) -> bool {
    &&& holds(strings, a.name, name_chars(t.name))
    &&& value_matches(a.value, strings, binary, t.value)
}

/// The node in slot `i` reads back as the tree `t`: same name and type,
/// the same arguments in order, and children that read back as the
/// children of `t` in order. The slots of all descendants lie in
/// `[lo, hi)`.
pub open spec fn node_matches(
    nodes: Seq<NodeRecord>,
    args: Seq<ArgRecord>,
    strings: Seq<u8>,
    binary: Seq<u8>,
    i: int,
    t: Node,
    lo: int,
    hi: int,
) -> bool
    decreases t,
{
    let rec = nodes[i];
    &&& 0 <= i < nodes.len()
    &&& holds(strings, rec.name, t.name@)
    &&& holds(strings, rec.ty, t.ty@)
    &&& rec.args.len == t.args@.len()
    &&& rec.args.start + rec.args.len <= args.len()
    &&& forall|k: int|
        0 <= k < t.args@.len() ==> arg_matches(
            args[rec.args.start + k],
            strings,
            binary,
            #[trigger] t.args@[k],
        )
    &&& rec.children.len == t.children@.len()
    &&& t.children@.len() > 0 ==> lo <= rec.children.start && rec.children.start
        + rec.children.len <= hi
    &&& forall|k: int|
        0 <= k < t.children@.len() ==> node_matches(
            nodes,
            args,
            strings,
            binary,
            rec.children.start + k,
            #[trigger] t.children@[k],
            lo,
            hi,
        )
}

proof fn lemma_arg_matches_grow(
    a: ArgRecord,
    s1: Seq<u8>,
    b1: Seq<u8>,
    s2: Seq<u8>,
    b2: Seq<u8>,
    t: Arg,
)
    requires
        arg_matches(a, s1, b1, t),
        s1.is_prefix_of(s2),
        b1.is_prefix_of(b2),
    ensures
        arg_matches(a, s2, b2, t),
{
    lemma_holds_prefix(s1, s2, a.name, name_chars(t.name));
    match t.value {
        Value::String(x) => {
            let r = decode_value(a.value)->Ok_0->String_0;
            lemma_holds_prefix(s1, s2, r, x@);
        },
        Value::Binary(x) => {
            let r = decode_value(a.value)->Ok_0->Binary_0;
            assert(b2.subrange(r.start as int, r.start + r.len) =~= b1.subrange(
                r.start as int,
                r.start + r.len,
            ));
        },
        _ => {},
    }
}

/// A tree read back from some sections still reads back after the
/// sections grow, as long as the slots of its subtree stay as they were.
proof fn lemma_node_matches_stable(
    n1: Seq<NodeRecord>,
    a1: Seq<ArgRecord>,
    s1: Seq<u8>,
    b1: Seq<u8>,
    n2: Seq<NodeRecord>,
    a2: Seq<ArgRecord>,
    s2: Seq<u8>,
    b2: Seq<u8>,
    i: int,
    t: Node,
    lo: int,
    hi: int,
    lo2: int,
    hi2: int,
)
    requires
        node_matches(n1, a1, s1, b1, i, t, lo, hi),
        lo2 <= lo,
        hi <= hi2,
        n1.len() <= n2.len(),
        n2[i] == n1[i],
        forall|j: int| lo <= j < hi && j < n1.len() ==> n2[j] == n1[j],
        a1.len() <= a2.len(),
        forall|j: int| 0 <= j < a1.len() ==> a2[j] == a1[j],
        s1.is_prefix_of(s2),
        b1.is_prefix_of(b2),
    ensures
        node_matches(n2, a2, s2, b2, i, t, lo2, hi2),
    decreases t,
{
    let rec = n1[i];
    lemma_holds_prefix(s1, s2, rec.name, t.name@);
    lemma_holds_prefix(s1, s2, rec.ty, t.ty@);
    assert forall|k: int| 0 <= k < t.args@.len() implies arg_matches(
        a2[rec.args.start + k],
        s2,
        b2,
        #[trigger] t.args@[k],
    ) by {
        lemma_arg_matches_grow(a1[rec.args.start + k], s1, b1, s2, b2, t.args@[k]);
    }
    assert forall|k: int| 0 <= k < t.children@.len() implies node_matches(
        n2,
        a2,
        s2,
        b2,
        rec.children.start + k,
        #[trigger] t.children@[k],
        lo2,
        hi2,
    ) by {
        assert(decreases_to!(t => t.children@[k]));
        lemma_node_matches_stable(
            n1,
            a1,
            s1,
            b1,
            n2,
            a2,
            s2,
            b2,
            rec.children.start + k,
            t.children@[k],
            lo,
            hi,
            lo2,
            hi2,
        );
    }
}

proof fn lemma_prefix_trans(a: Seq<u8>, b: Seq<u8>, c: Seq<u8>)
    requires
        a.is_prefix_of(b),
        b.is_prefix_of(c),
    ensures
        a.is_prefix_of(c),
{
    assert(c.subrange(0, a.len() as int) =~= b.subrange(0, a.len() as int));
}

/// Bytes that the UTF-8 encoding of `s` takes.
pub open spec fn str_size(s: Seq<char>) -> nat {
    vstd::utf8::encode_utf8(s).len()
}

/// Bytes that a value adds to the strings or binary section, at most.
pub open spec fn value_size(v: Value) -> nat {
    match v {
        Value::String(s) => str_size(s@),
        Value::Binary(d) => d@.len(),
        _ => 0,
    }
}

/// Bytes that an argument takes in a document, at most: its record, its
/// name and its value.
pub open spec fn arg_size(a: Arg) -> nat {
    (ARG_SIZE + str_size(name_chars(a.name)) + value_size(a.value)) as nat
}

/// Bytes that the first `k` arguments of `s` take, at most.
pub open spec fn args_size_upto(s: Seq<Arg>, k: int) -> nat
    decreases k,
{
    if k <= 0 {
        0
    } else {
        args_size_upto(s, k - 1) + arg_size(s[k - 1])
    }
}

/// Bytes that the arguments `s` take, at most.
pub open spec fn args_size(s: Seq<Arg>) -> nat {
    args_size_upto(s, s.len() as int)
}

/// Bytes that the first `k` children of `t`, with their descendants, take
/// in a document, at most.
pub open spec fn children_size(t: Node, k: int) -> nat
    decreases t, k,
{
    if k <= 0 || k > t.children@.len() {
        0
    } else {
        children_size(t, k - 1) + tree_size(t.children@[k - 1])
    }
}

/// Bytes that the tree `t` takes in a document, beyond its own record, at
/// most: its name and type, its arguments, and its children.
pub open spec fn contents_size(t: Node) -> nat
    decreases t, t.children@.len() + 1,
{
    str_size(t.name@) + str_size(t.ty@) + args_size(t.args@) + children_size(
        t,
        t.children@.len() as int,
    )
}

/// Bytes that the tree `t` takes in a document, its own record included,
/// at most (the header aside).
pub open spec fn tree_size(t: Node) -> nat
    decreases t, t.children@.len() + 2,
{
    (NODE_SIZE + contents_size(t)) as nat
}

proof fn lemma_args_size_grows(s: Seq<Arg>, j: int, k: int)
    requires
        0 <= j <= k <= s.len(),
    ensures
        args_size_upto(s, j) + ARG_SIZE * (k - j) <= args_size_upto(s, k),
    decreases k - j,
{
    if j < k {
        lemma_args_size_grows(s, j, k - 1);
    }
}

proof fn lemma_children_size_grows(t: Node, j: int, k: int)
    requires
        0 <= j <= k <= t.children@.len(),
    ensures
        children_size(t, j) + NODE_SIZE * (k - j) <= children_size(t, k),
    decreases k - j,
{
    if j < k {
        lemma_children_size_grows(t, j, k - 1);
        assert(tree_size(t.children@[k - 1]) >= NODE_SIZE);
    }
}

/// The empty range is well placed in valid UTF-8.
proof fn lemma_empty_range_ok(buf: Seq<u8>)
    requires
        valid_utf8(buf),
    ensures
        string_ok(buf, StringRange { start: 0, len: 0 }),
{
    if buf.len() > 0 {
        lemma_valid_utf8_first(buf);
    }
}

/// Growing the sections keeps the staged records well formed.
proof fn lemma_staged_grow(
    n1: Seq<NodeRecord>,
    a1: Seq<ArgRecord>,
    s1: Seq<u8>,
    bl1: nat,
    n2: Seq<NodeRecord>,
    a2: Seq<ArgRecord>,
    s2: Seq<u8>,
    bl2: nat,
)
    requires
        staged_ok(n1, a1, s1, bl1),
        n1.len() <= n2.len(),
        a1.len() <= a2.len(),
        bl1 <= bl2,
        valid_utf8(s2),
        forall|r: StringRange| string_ok(s1, r) ==> string_ok(s2, r),
        forall|i: int| 0 <= i < n1.len() ==> n2[i] == n1[i],
        forall|i: int|
            n1.len() <= i < n2.len() ==> slot_ok(#[trigger] n2[i], i, n2.len(), a2.len(), s2),
        forall|j: int| 0 <= j < a1.len() ==> a2[j] == a1[j],
        forall|j: int| a1.len() <= j < a2.len() ==> arg_ok(#[trigger] a2[j], s2, bl2),
    ensures
        staged_ok(n2, a2, s2, bl2),
{
    assert forall|i: int| 0 <= i < n2.len() implies slot_ok(
        #[trigger] n2[i],
        i,
        n2.len(),
        a2.len(),
        s2,
    ) by {
        if i < n1.len() {
            assert(slot_ok(n1[i], i, n1.len(), a1.len(), s1));
        }
    }
    assert forall|j: int| 0 <= j < a2.len() implies arg_ok(#[trigger] a2[j], s2, bl2) by {
        if j < a1.len() {
            assert(arg_ok(a1[j], s1, bl1));
        }
    }
}

proof fn lemma_staged_set_node(
    n: Seq<NodeRecord>,
    a: Seq<ArgRecord>,
    s: Seq<u8>,
    bl: nat,
    i: int,
    rec: NodeRecord,
)
    requires
        staged_ok(n, a, s, bl),
        0 <= i < n.len(),
        slot_ok(rec, i, n.len(), a.len(), s),
    ensures
        staged_ok(n.update(i, rec), a, s, bl),
{
    let n2 = n.update(i, rec);
    assert forall|k: int| 0 <= k < n2.len() implies slot_ok(
        #[trigger] n2[k],
        k,
        n2.len(),
        a.len(),
        s,
    ) by {
        if k != i {
            assert(slot_ok(n[k], k, n.len(), a.len(), s));
        }
    }
}

proof fn lemma_staged_set_arg(
    n: Seq<NodeRecord>,
    a: Seq<ArgRecord>,
    s: Seq<u8>,
    bl: nat,
    j: int,
    rec: ArgRecord,
)
    requires
        staged_ok(n, a, s, bl),
        0 <= j < a.len(),
        arg_ok(rec, s, bl),
    ensures
        staged_ok(n, a.update(j, rec), s, bl),
{
    let a2 = a.update(j, rec);
    assert forall|k: int| 0 <= k < a2.len() implies arg_ok(#[trigger] a2[k], s, bl) by {
        if k != j {
            assert(arg_ok(a[k], s, bl));
        }
    }
}

/// The header and the strings section of a serialized buffer.
#[verifier::rlimit(60)]
proof fn lemma_serialized_layout(
    nodes: Seq<NodeRecord>,
    args: Seq<ArgRecord>,
    strings: Seq<u8>,
    binary: Seq<u8>,
)
    requires
        file_size_of(nodes.len(), args.len(), strings.len(), binary.len()) <= u32::MAX,
    ensures
        ({
            let b = serialized(nodes, args, strings, binary);
            let h = layout_header(nodes.len(), args.len(), strings.len(), binary.len());
            &&& b.len() == file_size_of(nodes.len(), args.len(), strings.len(), binary.len())
            &&& h.describes(b)
            &&& b.subrange(HEADER_SIZE as int, HEADER_SIZE + NODE_SIZE * nodes.len()) == nodes_bytes(nodes)
            &&& b.subrange(HEADER_SIZE + NODE_SIZE * nodes.len(), HEADER_SIZE + NODE_SIZE * nodes.len() + ARG_SIZE * args.len()) == args_bytes(args)
            &&& strings_section(b) == strings
        }),
{
    let n = nodes.len() as int;
    let a = args.len() as int;
    let h = layout_header(nodes.len(), args.len(), strings.len(), binary.len());
    let nb = nodes_bytes(nodes);
    let ab = args_bytes(args);
    let rest = nb + ab + strings + binary;
    let b = serialized(nodes, args, strings, binary);
    assert(b =~= header_bytes(h) + rest);
    lemma_header_bytes_describe(h, rest);
    lemma_nodes_bytes_len(nodes);
    lemma_args_bytes_len(args);
    let so = 64 + 32 * n + 20 * a;
    assert(b.subrange(64, 64 + 32 * n) =~= nb);
    assert(b.subrange(64 + 32 * n, so) =~= ab);
    assert(strings_section(b) =~= strings) by {
        assert(strings_offset_of(b) == so);
        assert(strings_len_of(b) == strings.len());
        assert(b.subrange(so, so + strings.len() as int) =~= strings);
    }
}

/// The header of a serialized buffer passes its check.
#[verifier::rlimit(40)]
proof fn lemma_serialized_header_ok(
    nodes: Seq<NodeRecord>,
    args: Seq<ArgRecord>,
    strings: Seq<u8>,
    binary: Seq<u8>,
)
    requires
        file_size_of(nodes.len(), args.len(), strings.len(), binary.len()) <= u32::MAX,
    ensures
        header_error(serialized(nodes, args, strings, binary)) is None,
{
    lemma_serialized_layout(nodes, args, strings, binary);
    let h = layout_header(nodes.len(), args.len(), strings.len(), binary.len());
    assert(h.magic@ == MAGIC@);
}

/// Character boundaries of the strings section of a buffer are those of
/// the section's bytes.
proof fn lemma_boundary_in_buffer(b: Seq<u8>, strings: Seq<u8>, k: int)
    requires
        strings_section(b) == strings,
        strings_len_of(b) == strings.len(),
        strings_offset_of(b) + strings_len_of(b) <= b.len(),
        0 <= k <= strings.len(),
    ensures
        crate::raw::on_char_boundary(b, k) == boundary(strings, k),
{
    if k < strings.len() {
        assert(strings_section(b)[k] == b[strings_offset_of(b) + k]);
    }
}

proof fn lemma_string_ok_in_buffer(b: Seq<u8>, strings: Seq<u8>, offset: int, r: StringRange)
    requires
        strings_section(b) == strings,
        strings_len_of(b) == strings.len(),
        strings_offset_of(b) + strings_len_of(b) <= b.len(),
        string_ok(strings, r),
    ensures
        crate::raw::string_error(b, offset, r) is None,
{
    lemma_boundary_in_buffer(b, strings, r.start as int);
    lemma_boundary_in_buffer(b, strings, r.start + r.len);
}

#[verifier::rlimit(40)]
proof fn lemma_serialized_node_ok(
    nodes: Seq<NodeRecord>,
    args: Seq<ArgRecord>,
    strings: Seq<u8>,
    binary: Seq<u8>,
    i: int,
)
    requires
        staged_ok(nodes, args, strings, binary.len()),
        file_size_of(nodes.len(), args.len(), strings.len(), binary.len()) <= u32::MAX,
        0 <= i < nodes.len(),
    ensures
        node_error(serialized(nodes, args, strings, binary), i) is None,
{
    let n = nodes.len() as int;
    let b = serialized(nodes, args, strings, binary);
    lemma_serialized_layout(nodes, args, strings, binary);
    let nb = nodes_bytes(nodes);
    lemma_nodes_bytes(nodes, i);
    let at = 64 + 32 * i;
    assert(b.subrange(at, at + 32) =~= nb.subrange(32 * i, 32 * i + 32)) by {
        assert forall|k: int| 0 <= k < 32 implies #[trigger] b.subrange(at, at + 32)[k] == nb.subrange(
            32 * i,
            32 * i + 32,
        )[k] by {
            assert(b.subrange(64, 64 + 32 * n)[32 * i + k] == b[at + k]);
        }
    }
    lemma_node_window(b, at, nodes[i]);
    let rec = nodes[i];
    assert(slot_ok(rec, i, nodes.len(), args.len(), strings));
    lemma_string_ok_in_buffer(b, strings, at + 16, rec.name);
    lemma_string_ok_in_buffer(b, strings, at + 24, rec.ty);
}

#[verifier::rlimit(40)]
proof fn lemma_serialized_arg_ok(
    nodes: Seq<NodeRecord>,
    args: Seq<ArgRecord>,
    strings: Seq<u8>,
    binary: Seq<u8>,
    j: int,
)
    requires
        staged_ok(nodes, args, strings, binary.len()),
        file_size_of(nodes.len(), args.len(), strings.len(), binary.len()) <= u32::MAX,
        0 <= j < args.len(),
    ensures
        arg_error(serialized(nodes, args, strings, binary), j) is None,
{
    let n = nodes.len() as int;
    let a = args.len() as int;
    let b = serialized(nodes, args, strings, binary);
    lemma_serialized_layout(nodes, args, strings, binary);
    let ab = args_bytes(args);
    lemma_args_bytes(args, j);
    let base = 64 + 32 * n;
    let at = base + 20 * j;
    assert(b.subrange(at, at + 20) =~= ab.subrange(20 * j, 20 * j + 20)) by {
        assert forall|k: int| 0 <= k < 20 implies #[trigger] b.subrange(at, at + 20)[k] == ab.subrange(
            20 * j,
            20 * j + 20,
        )[k] by {
            assert(b.subrange(base, base + 20 * a)[20 * j + k] == b[at + k]);
        }
    }
    lemma_arg_window(b, at, args[j]);
    let rec = args[j];
    assert(arg_ok(rec, strings, binary.len()));
    lemma_string_ok_in_buffer(b, strings, at, rec.name);
    match decode_value(rec.value) {
        Ok(RawValue::String(r)) => {
            lemma_string_ok_in_buffer(b, strings, at + 12, r);
        },
        _ => {},
    }
}

/// Well-formed sections serialize to a buffer that passes validation.
pub proof fn lemma_serialized_valid(
    nodes: Seq<NodeRecord>,
    args: Seq<ArgRecord>,
    strings: Seq<u8>,
    binary: Seq<u8>,
)
    requires
        staged_ok(nodes, args, strings, binary.len()),
        file_size_of(nodes.len(), args.len(), strings.len(), binary.len()) <= u32::MAX,
    ensures
        check_result(serialized(nodes, args, strings, binary)) is Ok,
{
    let b = serialized(nodes, args, strings, binary);
    lemma_serialized_layout(nodes, args, strings, binary);
    lemma_serialized_header_ok(nodes, args, strings, binary);
    assert forall|i: int| 0 <= i < nodes.len() implies #[trigger] node_error(b, i) is None by {
        lemma_serialized_node_ok(nodes, args, strings, binary, i);
    }
    lemma_nodes_error_from_each(b, nodes.len());
    assert forall|j: int| 0 <= j < args.len() implies #[trigger] arg_error(b, j) is None by {
        lemma_serialized_arg_ok(nodes, args, strings, binary, j);
    }
    lemma_args_error_from_each(b, args.len());
}

proof fn lemma_nodes_bytes(s: Seq<NodeRecord>, i: int)
    requires
        0 <= i < s.len(),
    ensures
        nodes_bytes(s).len() == NODE_SIZE * s.len(),
        nodes_bytes(s).subrange(NODE_SIZE * i, NODE_SIZE * i + NODE_SIZE) == node_bytes(s[i]),
    decreases s.len(),
{
    lemma_nodes_bytes_len(s);
    let p = s.drop_last();
    lemma_nodes_bytes_len(p);
    if i < s.len() - 1 {
        lemma_nodes_bytes(p, i);
        assert(nodes_bytes(s).subrange(NODE_SIZE * i, NODE_SIZE * i + NODE_SIZE) =~= nodes_bytes(
            p,
        ).subrange(NODE_SIZE * i, NODE_SIZE * i + NODE_SIZE));
    } else {
        assert(nodes_bytes(s).subrange(NODE_SIZE * i, NODE_SIZE * i + NODE_SIZE) =~= node_bytes(
            s.last(),
        ));
    }
}

proof fn lemma_nodes_bytes_len(s: Seq<NodeRecord>)
    ensures
        nodes_bytes(s).len() == NODE_SIZE * s.len(),
    decreases s.len(),
{
    if s.len() > 0 {
        lemma_nodes_bytes_len(s.drop_last());
    }
}

proof fn lemma_args_bytes(s: Seq<ArgRecord>, i: int)
    requires
        0 <= i < s.len(),
    ensures
        args_bytes(s).len() == ARG_SIZE * s.len(),
        args_bytes(s).subrange(ARG_SIZE * i, ARG_SIZE * i + ARG_SIZE) == arg_bytes(s[i]),
    decreases s.len(),
{
    lemma_args_bytes_len(s);
    let p = s.drop_last();
    lemma_args_bytes_len(p);
    if i < s.len() - 1 {
        lemma_args_bytes(p, i);
        assert(args_bytes(s).subrange(ARG_SIZE * i, ARG_SIZE * i + ARG_SIZE) =~= args_bytes(
            p,
        ).subrange(ARG_SIZE * i, ARG_SIZE * i + ARG_SIZE));
    } else {
        assert(args_bytes(s).subrange(ARG_SIZE * i, ARG_SIZE * i + ARG_SIZE) =~= arg_bytes(
            s.last(),
        ));
    }
}

proof fn lemma_args_bytes_len(s: Seq<ArgRecord>)
    ensures
        args_bytes(s).len() == ARG_SIZE * s.len(),
    decreases s.len(),
{
    if s.len() > 0 {
        lemma_args_bytes_len(s.drop_last());
    }
}

/// The node records of a buffer, in order.
pub open spec fn decoded_nodes(b: Seq<u8>) -> Seq<NodeRecord> {
    Seq::new(nodes_len_of(b) as nat, |i: int| crate::raw::node_record(b, i))
}

/// The argument records of a buffer, in order.
pub open spec fn decoded_args(b: Seq<u8>) -> Seq<ArgRecord> {
    Seq::new(args_len_of(b) as nat, |j: int| crate::raw::arg_record(b, j))
}

/// Read from its root, the document `b` is the tree `t`: same names and
/// types, the same arguments in order, the same children in order.
pub open spec fn reads_back(b: Seq<u8>, t: Node) -> bool {
    &&& crate::raw::root_of(b) == 0
    &&& node_matches(
        decoded_nodes(b),
        decoded_args(b),
        strings_section(b),
        crate::raw::binary_section(b),
        0,
        t,
        1,
        nodes_len_of(b) as int,
    )
}

#[verifier::rlimit(40)]
proof fn lemma_serialized_decodes_nodes(
    nodes: Seq<NodeRecord>,
    args: Seq<ArgRecord>,
    strings: Seq<u8>,
    binary: Seq<u8>,
)
    requires
        file_size_of(nodes.len(), args.len(), strings.len(), binary.len()) <= u32::MAX,
    ensures
        decoded_nodes(serialized(nodes, args, strings, binary)) == nodes,
{
    let b = serialized(nodes, args, strings, binary);
    lemma_serialized_layout(nodes, args, strings, binary);
    let n = nodes.len() as int;
    let nb = nodes_bytes(nodes);
    assert forall|i: int| 0 <= i < n implies #[trigger] crate::raw::node_record(b, i) == nodes[i] by {
        lemma_nodes_bytes(nodes, i);
        let at = 64 + 32 * i;
        assert(b.subrange(at, at + 32) =~= nb.subrange(32 * i, 32 * i + 32)) by {
            assert forall|k: int| 0 <= k < 32 implies #[trigger] b.subrange(at, at + 32)[k]
                == nb.subrange(32 * i, 32 * i + 32)[k] by {
                assert(b.subrange(64, 64 + 32 * n)[32 * i + k] == b[at + k]);
            }
        }
        lemma_node_window(b, at, nodes[i]);
    }
    assert(decoded_nodes(b) =~= nodes);
}

#[verifier::rlimit(40)]
proof fn lemma_serialized_decodes_args(
    nodes: Seq<NodeRecord>,
    args: Seq<ArgRecord>,
    strings: Seq<u8>,
    binary: Seq<u8>,
)
    requires
        file_size_of(nodes.len(), args.len(), strings.len(), binary.len()) <= u32::MAX,
    ensures
        decoded_args(serialized(nodes, args, strings, binary)) == args,
{
    let b = serialized(nodes, args, strings, binary);
    lemma_serialized_layout(nodes, args, strings, binary);
    let n = nodes.len() as int;
    let a = args.len() as int;
    let ab = args_bytes(args);
    let base = 64 + 32 * n;
    assert forall|j: int| 0 <= j < a implies #[trigger] crate::raw::arg_record(b, j) == args[j] by {
        lemma_args_bytes(args, j);
        let at = base + 20 * j;
        assert(b.subrange(at, at + 20) =~= ab.subrange(20 * j, 20 * j + 20)) by {
            assert forall|k: int| 0 <= k < 20 implies #[trigger] b.subrange(at, at + 20)[k]
                == ab.subrange(20 * j, 20 * j + 20)[k] by {
                assert(b.subrange(base, base + 20 * a)[20 * j + k] == b[at + k]);
            }
        }
        lemma_arg_window(b, at, args[j]);
    }
    assert(decoded_args(b) =~= args);
}

#[verifier::rlimit(40)]
proof fn lemma_serialized_decodes_binary(
    nodes: Seq<NodeRecord>,
    args: Seq<ArgRecord>,
    strings: Seq<u8>,
    binary: Seq<u8>,
)
    requires
        file_size_of(nodes.len(), args.len(), strings.len(), binary.len()) <= u32::MAX,
    ensures
        crate::raw::binary_section(serialized(nodes, args, strings, binary)) == binary,
        crate::raw::root_of(serialized(nodes, args, strings, binary)) == 0,
{
    let b = serialized(nodes, args, strings, binary);
    lemma_serialized_layout(nodes, args, strings, binary);
    lemma_nodes_bytes_len(nodes);
    lemma_args_bytes_len(args);
    let h = layout_header(nodes.len(), args.len(), strings.len(), binary.len());
    let rest = nodes_bytes(nodes) + args_bytes(args) + strings + binary;
    assert(b =~= header_bytes(h) + rest);
    let bo = 64 + 32 * nodes.len() + 20 * args.len() + strings.len();
    assert(crate::raw::binary_offset_of(b) == bo);
    assert forall|k: int| 0 <= k < binary.len() implies #[trigger] crate::raw::binary_section(
        b,
    )[k] == binary[k] by {
        assert(b[bo + k] == rest[bo - 64 + k]);
    }
    assert(crate::raw::binary_section(b) =~= binary);
}

/// Reading a serialized buffer gives back its sections.
proof fn lemma_serialized_decodes(
    nodes: Seq<NodeRecord>,
    args: Seq<ArgRecord>,
    strings: Seq<u8>,
    binary: Seq<u8>,
)
    requires
        file_size_of(nodes.len(), args.len(), strings.len(), binary.len()) <= u32::MAX,
    ensures
        ({
            let b = serialized(nodes, args, strings, binary);
            &&& decoded_nodes(b) == nodes
            &&& decoded_args(b) == args
            &&& strings_section(b) == strings
            &&& crate::raw::binary_section(b) == binary
            &&& crate::raw::root_of(b) == 0
            &&& nodes_len_of(b) == nodes.len()
        }),
{
    lemma_serialized_layout(nodes, args, strings, binary);
    lemma_serialized_decodes_nodes(nodes, args, strings, binary);
    lemma_serialized_decodes_args(nodes, args, strings, binary);
    lemma_serialized_decodes_binary(nodes, args, strings, binary);
}

/// The encoding of a non-empty string is not empty.
pub proof fn lemma_encode_nonempty(s: Seq<char>)
    requires
        s.len() > 0,
    ensures
        vstd::utf8::encode_utf8(s).len() > 0,
{
    assert(vstd::utf8::encode_scalar(s[0] as u32).len() >= 1);
}

/// Staging area of a document under construction.
pub struct RawBuilder {
    nodes: Vec<NodeRecord>,
    args: Vec<ArgRecord>,
    strings: Strings,
    binary: Vec<u8>,
}

fn append_bytes(out: &mut Vec<u8>, src: &[u8])
    ensures
        final(out)@ == old(out)@ + src@,
{
    let mut i: usize = 0;
    while i < src.len()
        invariant
            i <= src@.len(),
            out@ == old(out)@ + src@.subrange(0, i as int),
        decreases src@.len() - i,
    {
        out.push(src[i]);
        assert(src@.subrange(0, i + 1) =~= src@.subrange(0, i as int).push(src@[i as int]));
        i = i + 1;
    }
    assert(src@.subrange(0, src@.len() as int) =~= src@);
}

impl RawBuilder {
    pub closed spec fn spec_nodes(&self) -> Seq<NodeRecord> {
        self.nodes@
    }

    pub closed spec fn spec_args(&self) -> Seq<ArgRecord> {
        self.args@
    }

    pub closed spec fn spec_strings(&self) -> InternModel {
        self.strings.model()
    }

    pub closed spec fn spec_binary(&self) -> Seq<u8> {
        self.binary@
    }

    /// Every section can be counted with a `u32`, and every record refers
    /// only to what the sections hold.
    pub closed spec fn wf(&self) -> bool {
        &&& self.nodes@.len() <= u32::MAX
        &&& self.args@.len() <= u32::MAX
        &&& self.strings.model().buffer.len() <= u32::MAX
        &&& self.binary@.len() <= u32::MAX
        &&& strings_inv(self.strings.model())
        &&& staged_ok(self.nodes@, self.args@, self.strings.model().buffer, self.binary@.len())
    }

    /// Bytes that the staged sections take: the records, the strings and
    /// the binary data (the header aside).
    pub closed spec fn staged_size(&self) -> nat {
        (NODE_SIZE * self.nodes@.len() + ARG_SIZE * self.args@.len()
            + self.strings.model().buffer.len() + self.binary@.len()) as nat
    }

    /// `self` holds everything `earlier` held, and possibly more.
    pub closed spec fn extends(&self, earlier: RawBuilder) -> bool {
        &&& self.nodes@.len() >= earlier.nodes@.len()
        &&& self.args@.len() >= earlier.args@.len()
        &&& self.binary@.len() >= earlier.binary@.len()
        &&& forall|r: StringRange|
            string_ok(earlier.strings.model().buffer, r) ==> string_ok(
                self.strings.model().buffer,
                r,
            )
    }

    /// An empty staging area; strings of up to 128 bytes are interned.
    pub fn new() -> (r: RawBuilder)
        ensures
            r.wf(),
            r.spec_nodes().len() == 0,
            r.spec_args().len() == 0,
            r.spec_strings().buffer.len() == 0,
            r.spec_strings().limit == 128,
            r.spec_binary().len() == 0,
    {
        RawBuilder {
            nodes: Vec::new(),
            args: Vec::new(),
            strings: Strings::new(128),
            binary: Vec::new(),
        }
    }

    pub fn set_limit(&mut self, limit: usize)
        ensures
            old(self).wf() ==> final(self).wf(),
            final(self).spec_strings().limit == limit,
            final(self).spec_nodes() == old(self).spec_nodes(),
            final(self).spec_args() == old(self).spec_args(),
            final(self).spec_binary() == old(self).spec_binary(),
    {
        self.strings.set_limit(limit);
    }

    /// Empty every section, keeping the interning limit.
    pub fn clear(&mut self)
        ensures
            final(self).wf(),
            final(self).spec_nodes().len() == 0,
            final(self).spec_args().len() == 0,
            final(self).spec_strings().buffer.len() == 0,
            final(self).spec_strings().table.dom().len() == 0,
            final(self).spec_strings().limit == old(self).spec_strings().limit,
            final(self).spec_binary().len() == 0,
    {
        self.nodes.clear();
        self.args.clear();
        self.strings.clear();
        self.binary.clear();
    }

    /// Size in bytes of the document these sections make.
    pub fn file_size(&self) -> (r: u64)
        requires
            self.wf(),
        ensures
            r == file_size_of(
                self.spec_nodes().len(),
                self.spec_args().len(),
                self.spec_strings().buffer.len(),
                self.spec_binary().len(),
            ),
    {
        let n = self.nodes.len() as u64;
        let a = self.args.len() as u64;
        let s = self.strings.len() as u64;
        let b = self.binary.len() as u64;
        assert(n <= u32::MAX && a <= u32::MAX && s <= u32::MAX && b <= u32::MAX);
        64 + 32 * n + 20 * a + s + b
    }
}


impl RawBuilder {
    /// Clear the staging area and serialize `root` into it, the root in slot
    /// zero.
    pub fn set_root(&mut self, root: &Node) -> (r: Result<(), BuildError>)
        ensures
            final(self).wf(),
            r is Ok ==> final(self).spec_nodes().len() >= 1,
            r is Ok ==> node_matches(
                final(self).spec_nodes(),
                final(self).spec_args(),
                final(self).spec_strings().buffer,
                final(self).spec_binary(),
                0,
                *root,
                1,
                final(self).spec_nodes().len() as int,
            ),
            HEADER_SIZE + tree_size(*root) <= u32::MAX ==> r is Ok,
            r is Ok ==> final(self).staged_size() <= tree_size(*root),
    {
        self.clear();
        let ghost before = *self;
        self.nodes.push(NodeRecord::empty());
        proof {
            lemma_empty_range_ok(self.strings.model().buffer);
            lemma_staged_grow(
                before.nodes@,
                before.args@,
                before.strings.model().buffer,
                before.binary@.len(),
                self.nodes@,
                self.args@,
                self.strings.model().buffer,
                self.binary@.len(),
            );
        }
        self.build_node(root, 0)
    }

    /// Intern a name or a type, keeping the staging area well formed.
    fn intern(&mut self, s: &str) -> (r: Option<StringRange>)
        requires
            old(self).wf(),
        ensures
            final(self).wf(),
            final(self).extends(*old(self)),
            final(self).spec_nodes() == old(self).spec_nodes(),
            final(self).spec_args() == old(self).spec_args(),
            r matches Some(range) ==> string_ok(final(self).strings.model().buffer, range),
            r matches Some(range) ==> holds(final(self).strings.model().buffer, range, s@),
            old(self).strings.model().buffer.is_prefix_of(final(self).strings.model().buffer),
            final(self).binary@ == old(self).binary@,
            r is None ==> old(self).staged_size() + str_size(s@) > u32::MAX,
            r is Some ==> final(self).staged_size() <= old(self).staged_size() + str_size(s@),
    {
        let ghost before = *self;
        let r = self.strings.add_string_intern(s);
        proof {
            if r is None {
                assert(before.strings.model().buffer.is_prefix_of(self.strings.model().buffer));
            }
            if r is Some {
                lemma_intern_step_inv(before.strings.model(), s@);
                lemma_staged_grow(
                    before.nodes@,
                    before.args@,
                    before.strings.model().buffer,
                    before.binary@.len(),
                    self.nodes@,
                    self.args@,
                    self.strings.model().buffer,
                    self.binary@.len(),
                );
            }
        }
        r
    }

    /// Serialize `node` into the reserved slot `index`: first its arguments,
    /// then a block of slots for its children, then each child, and last
    /// the node's own record.
    fn build_node(&mut self, node: &Node, index: u32) -> (r: Result<(), BuildError>)
        requires
            old(self).wf(),
            index < old(self).spec_nodes().len(),
        ensures
            final(self).wf(),
            final(self).extends(*old(self)),
            r is Ok ==> node_matches(
                final(self).nodes@,
                final(self).args@,
                final(self).strings.model().buffer,
                final(self).binary@,
                index as int,
                *node,
                old(self).nodes@.len() as int,
                final(self).nodes@.len() as int,
            ),
            forall|j: int|
                0 <= j < old(self).nodes@.len() && j != index ==> final(self).nodes@[j] == old(
                    self,
                ).nodes@[j],
            forall|j: int| 0 <= j < old(self).args@.len() ==> final(self).args@[j] == old(self).args@[j],
            old(self).strings.model().buffer.is_prefix_of(final(self).strings.model().buffer),
            old(self).binary@.is_prefix_of(final(self).binary@),
            r is Err ==> old(self).staged_size() + contents_size(*node) > u32::MAX,
            r is Ok ==> final(self).staged_size() <= old(self).staged_size() + contents_size(*node),
        decreases node,
    {
        proof {
            lemma_children_size_grows(*node, 0, node.children@.len() as int);
            assert(children_size(*node, 0) == 0);
        }
        let args = match self.build_args(&node.args) {
            Ok(a) => a,
            Err(e) => return Err(e),
        };
        let ghost after_args = *self;
        let n = node.children.len();
        if n as u64 > u32::MAX as u64 - self.nodes.len() as u64 {
            return Err(BuildError::TooManyNodes);
        }
        let start = self.nodes.len() as u32;
        let mut k: usize = 0;
        while k < n
            invariant
                self.wf(),
                self.extends(after_args),
                self.extends(*old(self)),
                after_args.extends(*old(self)),
                n == node.children@.len(),
                start as u64 + n as u64 <= u32::MAX,
                self.nodes@.len() == start + k,
                self.args@ == after_args.args@,
                self.strings.model().buffer == after_args.strings.model().buffer,
                self.binary@ == after_args.binary@,
                start == after_args.nodes@.len(),
                after_args.nodes@ == old(self).nodes@,
                forall|j: int| 0 <= j < start ==> self.nodes@[j] == old(self).nodes@[j],
                index < start,
                k <= n,
                args.start + args.len <= after_args.args@.len(),
                self.staged_size() == after_args.staged_size() + NODE_SIZE * k,
            decreases n - k,
        {
            let ghost before = *self;
            self.nodes.push(NodeRecord::empty());
            proof {
                lemma_empty_range_ok(self.strings.model().buffer);
                lemma_staged_grow(
                    before.nodes@,
                    before.args@,
                    before.strings.model().buffer,
                    before.binary@.len(),
                    self.nodes@,
                    self.args@,
                    self.strings.model().buffer,
                    self.binary@.len(),
                );
            }
            k = k + 1;
        }
        proof {
            assert(after_args.strings.model().buffer.is_prefix_of(self.strings.model().buffer));
            assert(after_args.binary@.is_prefix_of(self.binary@));
            lemma_prefix_trans(old(self).strings.model().buffer, after_args.strings.model().buffer, self.strings.model().buffer);
            lemma_prefix_trans(old(self).binary@, after_args.binary@, self.binary@);
        }
        let lo = start + n as u32;
        let mut k: usize = 0;
        while k < n
            invariant
                self.wf(),
                self.extends(after_args),
                self.extends(*old(self)),
                after_args.extends(*old(self)),
                n == node.children@.len(),
                start as u64 + n as u64 <= u32::MAX,
                lo == start + n,
                self.nodes@.len() >= start + n,
                start == after_args.nodes@.len(),
                after_args.nodes@ == old(self).nodes@,
                forall|j: int| 0 <= j < start ==> self.nodes@[j] == old(self).nodes@[j],
                forall|j: int| 0 <= j < after_args.args@.len() ==> self.args@[j] == after_args.args@[j],
                after_args.strings.model().buffer.is_prefix_of(self.strings.model().buffer),
                after_args.binary@.is_prefix_of(self.binary@),
                old(self).strings.model().buffer.is_prefix_of(self.strings.model().buffer),
                old(self).binary@.is_prefix_of(self.binary@),
                forall|j: int| 0 <= j < old(self).args@.len() ==> self.args@[j] == old(self).args@[j],
                index < start,
                k <= n,
                args.start + args.len <= after_args.args@.len(),
                forall|k2: int|
                    0 <= k2 < k ==> node_matches(
                        self.nodes@,
                        self.args@,
                        self.strings.model().buffer,
                        self.binary@,
                        start + k2,
                        #[trigger] node.children@[k2],
                        lo as int,
                        self.nodes@.len() as int,
                    ),
                self.staged_size() + NODE_SIZE * k <= after_args.staged_size() + NODE_SIZE * n
                    + children_size(*node, k as int),
                after_args.staged_size() + children_size(*node, n as int) <= old(self).staged_size()
                    + contents_size(*node),
            decreases n - k,
        {
            assert(decreases_to!(node => node.children@[k as int]));
            proof {
                lemma_children_size_grows(*node, k + 1, n as int);
                assert(children_size(*node, k + 1) == children_size(*node, k as int) + tree_size(
                    node.children@[k as int],
                ));
                assert(tree_size(node.children@[k as int]) == NODE_SIZE + contents_size(
                    node.children@[k as int],
                ));
            }
            let ghost before = *self;
            let res = self.build_node(&node.children[k], start + k as u32);
            proof {
                lemma_prefix_trans(old(self).strings.model().buffer, before.strings.model().buffer, self.strings.model().buffer);
                lemma_prefix_trans(old(self).binary@, before.binary@, self.binary@);
                lemma_prefix_trans(after_args.strings.model().buffer, before.strings.model().buffer, self.strings.model().buffer);
                lemma_prefix_trans(after_args.binary@, before.binary@, self.binary@);
            }
            match res {
                Ok(()) => {},
                Err(e) => return Err(e),
            }
            proof {
                lemma_node_matches_stable(
                    self.nodes@,
                    self.args@,
                    self.strings.model().buffer,
                    self.binary@,
                    self.nodes@,
                    self.args@,
                    self.strings.model().buffer,
                    self.binary@,
                    start + k,
                    node.children@[k as int],
                    before.nodes@.len() as int,
                    self.nodes@.len() as int,
                    lo as int,
                    self.nodes@.len() as int,
                );
                assert forall|k2: int| 0 <= k2 < k + 1 implies node_matches(
                    self.nodes@,
                    self.args@,
                    self.strings.model().buffer,
                    self.binary@,
                    start + k2,
                    #[trigger] node.children@[k2],
                    lo as int,
                    self.nodes@.len() as int,
                ) by {
                    if k2 < k {
                        lemma_node_matches_stable(
                            before.nodes@,
                            before.args@,
                            before.strings.model().buffer,
                            before.binary@,
                            self.nodes@,
                            self.args@,
                            self.strings.model().buffer,
                            self.binary@,
                            start + k2,
                            node.children@[k2],
                            lo as int,
                            before.nodes@.len() as int,
                            lo as int,
                            self.nodes@.len() as int,
                        );
                    }
                }
            }
            k = k + 1;
        }
        let children = if n == 0 {
            NodeRange::empty()
        } else {
            NodeRange { start, len: n as u32 }
        };
        let ghost before_strings = *self;
        let ty = match self.intern(node.ty.as_str()) {
            Some(r) => r,
            None => return Err(BuildError::TooLarge),
        };
        let ghost after_ty = *self;
        let name = match self.intern(node.name.as_str()) {
            Some(r) => r,
            None => return Err(BuildError::TooLarge),
        };
        let rec = NodeRecord { args, children, name, ty };
        let ghost before_set = *self;
        proof {
            assert(slot_ok(rec, index as int, self.nodes@.len(), self.args@.len(), self.strings.model().buffer));
            lemma_staged_set_node(
                self.nodes@,
                self.args@,
                self.strings.model().buffer,
                self.binary@.len(),
                index as int,
                rec,
            );
        }
        self.nodes.set(index as usize, rec);
        proof {
            let fin = *self;
            lemma_holds_prefix(
                after_ty.strings.model().buffer,
                fin.strings.model().buffer,
                ty,
                node.ty@,
            );
            assert forall|k2: int| 0 <= k2 < n implies node_matches(
                fin.nodes@,
                fin.args@,
                fin.strings.model().buffer,
                fin.binary@,
                start + k2,
                #[trigger] node.children@[k2],
                old(self).nodes@.len() as int,
                fin.nodes@.len() as int,
            ) by {
                lemma_node_matches_stable(
                    before_strings.nodes@,
                    before_strings.args@,
                    before_strings.strings.model().buffer,
                    before_strings.binary@,
                    fin.nodes@,
                    fin.args@,
                    fin.strings.model().buffer,
                    fin.binary@,
                    start + k2,
                    node.children@[k2],
                    lo as int,
                    before_strings.nodes@.len() as int,
                    old(self).nodes@.len() as int,
                    fin.nodes@.len() as int,
                );
            }
            assert forall|k2: int| 0 <= k2 < node.args@.len() implies arg_matches(
                fin.args@[args.start + k2],
                fin.strings.model().buffer,
                fin.binary@,
                #[trigger] node.args@[k2],
            ) by {
                lemma_arg_matches_grow(
                    after_args.args@[args.start + k2],
                    after_args.strings.model().buffer,
                    after_args.binary@,
                    fin.strings.model().buffer,
                    fin.binary@,
                    node.args@[k2],
                );
            }
            assert(node_matches(
                fin.nodes@,
                fin.args@,
                fin.strings.model().buffer,
                fin.binary@,
                index as int,
                *node,
                old(self).nodes@.len() as int,
                fin.nodes@.len() as int,
            ));
        }
        Ok(())
    }

    /// Reserve a block of argument slots and fill each.
    fn build_args(&mut self, args: &Vec<Arg>) -> (r: Result<ArgRange, BuildError>)
        requires
            old(self).wf(),
        ensures
            final(self).wf(),
            final(self).extends(*old(self)),
            final(self).spec_nodes() == old(self).spec_nodes(),
            r matches Ok(range) ==> range.start + range.len <= final(self).spec_args().len(),
            r matches Ok(range) ==> range.len == args@.len() && forall|k: int|
                0 <= k < args@.len() ==> arg_matches(
                    final(self).args@[range.start + k],
                    final(self).strings.model().buffer,
                    final(self).binary@,
                    #[trigger] args@[k],
                ),
            forall|j: int| 0 <= j < old(self).args@.len() ==> final(self).args@[j] == old(self).args@[j],
            old(self).strings.model().buffer.is_prefix_of(final(self).strings.model().buffer),
            old(self).binary@.is_prefix_of(final(self).binary@),
            r is Err ==> old(self).staged_size() + args_size(args@) > u32::MAX,
            r is Ok ==> final(self).staged_size() <= old(self).staged_size() + args_size(args@),
    {
        proof {
            assert(self.strings.model().buffer.is_prefix_of(self.strings.model().buffer));
            assert(self.binary@.is_prefix_of(self.binary@));
            lemma_args_size_grows(args@, 0, args@.len() as int);
        }
        let n = args.len();
        if n == 0 {
            return Ok(ArgRange::empty());
        }
        if n as u64 > u32::MAX as u64 - self.args.len() as u64 {
            return Err(BuildError::TooManyArgs);
        }
        let start = self.args.len() as u32;
        let mut k: usize = 0;
        while k < n
            invariant
                self.wf(),
                self.extends(*old(self)),
                self.nodes@ == old(self).nodes@,
                n == args@.len(),
                start as u64 + n as u64 <= u32::MAX,
                start == old(self).args@.len(),
                self.args@.len() == start + k,
                k <= n,
                forall|j: int| 0 <= j < old(self).args@.len() ==> self.args@[j] == old(self).args@[j],
                self.strings.model().buffer == old(self).strings.model().buffer,
                self.binary@ == old(self).binary@,
                self.staged_size() == old(self).staged_size() + ARG_SIZE * k,
            decreases n - k,
        {
            let ghost before = *self;
            let empty = ArgRecord {
                name: StringRange::empty(),
                value: ValueRecord::from_raw(RawValue::Null),
            };
            proof {
                lemma_empty_range_ok(self.strings.model().buffer);
                lemma_decode_encode_value(RawValue::Null);
            }
            self.args.push(empty);
            proof {
                lemma_staged_grow(
                    before.nodes@,
                    before.args@,
                    before.strings.model().buffer,
                    before.binary@.len(),
                    self.nodes@,
                    self.args@,
                    self.strings.model().buffer,
                    self.binary@.len(),
                );
            }
            k = k + 1;
        }
        let mut k: usize = 0;
        while k < n
            invariant
                self.wf(),
                self.extends(*old(self)),
                self.nodes@ == old(self).nodes@,
                n == args@.len(),
                start as u64 + n as u64 <= u32::MAX,
                start == old(self).args@.len(),
                self.args@.len() == start + n,
                k <= n,
                forall|j: int| 0 <= j < old(self).args@.len() ==> self.args@[j] == old(self).args@[j],
                old(self).strings.model().buffer.is_prefix_of(self.strings.model().buffer),
                old(self).binary@.is_prefix_of(self.binary@),
                forall|k2: int|
                    0 <= k2 < k ==> arg_matches(
                        self.args@[start + k2],
                        self.strings.model().buffer,
                        self.binary@,
                        #[trigger] args@[k2],
                    ),
                self.staged_size() + ARG_SIZE * k <= old(self).staged_size() + ARG_SIZE * n
                    + args_size_upto(args@, k as int),
                args_size_upto(args@, k as int) + ARG_SIZE * (n - k) <= args_size(args@),
            decreases n - k,
        {
            let ghost s0 = *self;
            proof {
                lemma_args_size_grows(args@, k + 1, n as int);
                if args@[k as int].name is None {
                    assert(vstd::utf8::encode_utf8(Seq::<char>::empty()) =~= Seq::<u8>::empty());
                }
            }
            let arg = &args[k];
            let name = match &arg.name {
                Some(s) => self.intern(s.as_str()),
                None => {
                    proof {
                        lemma_empty_range_ok(self.strings.model().buffer);
                    }
                    Some(StringRange::empty())
                },
            };
            let name = match name {
                Some(r) => r,
                None => return Err(BuildError::TooLarge),
            };
            let ghost s1 = *self;
            let value = match self.add_value(&arg.value) {
                Ok(v) => v,
                Err(e) => return Err(e),
            };
            let rec = ArgRecord { name, value };
            proof {
                assert(s0.strings.model().buffer.is_prefix_of(s1.strings.model().buffer)) by {
                    if arg.name is None {
                        assert(s0.strings.model().buffer.is_prefix_of(s0.strings.model().buffer));
                    }
                }
                lemma_holds_prefix(
                    s1.strings.model().buffer,
                    self.strings.model().buffer,
                    name,
                    name_chars(arg.name),
                );
                assert(arg_matches(rec, self.strings.model().buffer, self.binary@, args@[k as int]));
                assert forall|k2: int| 0 <= k2 < k implies arg_matches(
                    self.args@[start + k2],
                    self.strings.model().buffer,
                    self.binary@,
                    #[trigger] args@[k2],
                ) by {
                    lemma_arg_matches_grow(
                        self.args@[start + k2],
                        s0.strings.model().buffer,
                        s0.binary@,
                        self.strings.model().buffer,
                        self.binary@,
                        args@[k2],
                    );
                }
                lemma_staged_set_arg(
                    self.nodes@,
                    self.args@,
                    self.strings.model().buffer,
                    self.binary@.len(),
                    start + k,
                    rec,
                );
            }
            self.args.set(start as usize + k, rec);
            k = k + 1;
        }
        Ok(ArgRange { start, len: n as u32 })
    }

    /// Encode a value, adding its string or bytes to their section.
    fn add_value(&mut self, value: &Value) -> (r: Result<ValueRecord, BuildError>)
        requires
            old(self).wf(),
        ensures
            final(self).wf(),
            final(self).extends(*old(self)),
            final(self).spec_nodes() == old(self).spec_nodes(),
            final(self).spec_args() == old(self).spec_args(),
            r matches Ok(v) ==> value_ok(v, final(self).strings.model().buffer, final(self).binary@.len()),
            r matches Ok(v) ==> value_matches(v, final(self).strings.model().buffer, final(self).binary@, *value),
            old(self).strings.model().buffer.is_prefix_of(final(self).strings.model().buffer),
            old(self).binary@.is_prefix_of(final(self).binary@),
            r is Err ==> old(self).staged_size() + value_size(*value) > u32::MAX,
            r is Ok ==> final(self).staged_size() <= old(self).staged_size() + value_size(*value),
    {
        let ghost before = *self;
        let raw = match value {
            Value::Null => RawValue::Null,
            Value::Bool(b) => RawValue::Bool(*b),
            Value::Int(i) => RawValue::Int(*i),
            Value::Uint(u) => RawValue::Uint(*u),
            Value::Float(bits) => RawValue::Float(*bits),
            Value::String(s) => match self.strings.add_string(s.as_str()) {
                Some(r) => {
                    proof {
                        lemma_add_step_inv(before.strings.model(), s@);
                        lemma_staged_grow(
                            before.nodes@,
                            before.args@,
                            before.strings.model().buffer,
                            before.binary@.len(),
                            self.nodes@,
                            self.args@,
                            self.strings.model().buffer,
                            self.binary@.len(),
                        );
                    }
                    RawValue::String(r)
                },
                None => return Err(BuildError::TooLarge),
            },
            Value::Binary(data) => match self.add_binary(data.as_slice()) {
                Some(r) => RawValue::Binary(r),
                None => return Err(BuildError::TooLarge),
            },
        };
        proof {
            lemma_decode_encode_value(raw);
            assert(before.strings.model().buffer.is_prefix_of(self.strings.model().buffer));
            assert(before.binary@.is_prefix_of(self.binary@)) by {
                assert(self.binary@.subrange(0, before.binary@.len() as int) =~= before.binary@);
            }
            match value {
                Value::Binary(data) => {
                    let r = raw->Binary_0;
                    assert(self.binary@.subrange(r.start as int, r.start + r.len) =~= data@);
                },
                _ => {},
            }
        }
        Ok(ValueRecord::from_raw(raw))
    }

    /// Append binary data; `None` when the section would outgrow `u32::MAX`
    /// bytes (then nothing changes).
    fn add_binary(&mut self, data: &[u8]) -> (r: Option<BinaryRange>)
        requires
            old(self).wf(),
        ensures
            final(self).wf(),
            final(self).extends(*old(self)),
            final(self).spec_nodes() == old(self).spec_nodes(),
            final(self).spec_args() == old(self).spec_args(),
            final(self).spec_strings() == old(self).spec_strings(),
            match r {
                Some(range) => range.start == old(self).spec_binary().len() && range.len
                    == data@.len() && final(self).spec_binary() == old(self).spec_binary() + data@,
                None => old(self).spec_binary().len() + data@.len() > u32::MAX
                    && final(self).spec_binary() == old(self).spec_binary(),
            },
    {
        if data.len() as u64 > u32::MAX as u64 - self.binary.len() as u64 {
            return None;
        }
        let ghost before = *self;
        let start = self.binary.len() as u32;
        append_bytes(&mut self.binary, data);
        proof {
            lemma_staged_grow(
                before.nodes@,
                before.args@,
                before.strings.model().buffer,
                before.binary@.len(),
                self.nodes@,
                self.args@,
                self.strings.model().buffer,
                self.binary@.len(),
            );
        }
        Some(BinaryRange { start, len: data.len() as u32 })
    }

    /// The header followed by the four sections.
    fn encode_sections(&self, header: &Header) -> (out: Vec<u8>)
        ensures
            out@ == header_bytes(*header) + nodes_bytes(self.spec_nodes()) + args_bytes(
                self.spec_args(),
            ) + self.spec_strings().buffer + self.spec_binary(),
    {
        let mut out: Vec<u8> = Vec::new();
        header.encode(&mut out);
        let mut i: usize = 0;
        while i < self.nodes.len()
            invariant
                i <= self.nodes@.len(),
                out@ == header_bytes(*header) + nodes_bytes(self.nodes@.subrange(0, i as int)),
            decreases self.nodes@.len() - i,
        {
            self.nodes[i].encode(&mut out);
            assert(self.nodes@.subrange(0, i + 1).drop_last() =~= self.nodes@.subrange(0, i as int));
            i = i + 1;
        }
        assert(self.nodes@.subrange(0, self.nodes@.len() as int) =~= self.nodes@);
        let mut j: usize = 0;
        while j < self.args.len()
            invariant
                j <= self.args@.len(),
                out@ == header_bytes(*header) + nodes_bytes(self.nodes@) + args_bytes(
                    self.args@.subrange(0, j as int),
                ),
            decreases self.args@.len() - j,
        {
            self.args[j].encode(&mut out);
            assert(self.args@.subrange(0, j + 1).drop_last() =~= self.args@.subrange(0, j as int));
            j = j + 1;
        }
        assert(self.args@.subrange(0, self.args@.len() as int) =~= self.args@);
        append_bytes(&mut out, self.strings.as_bytes());
        append_bytes(&mut out, self.binary.as_slice());
        out
    }

    /// Concatenate the header and the sections into one validated buffer.
    /// A staging area holding only an empty root is the empty document.
    pub fn build(&self) -> (r: Result<DocumentBuffer, BuildError>)
        requires
            self.wf(),
        ensures
            HEADER_SIZE + self.staged_size() <= u32::MAX ==> r is Ok,
            r matches Ok(d) ==> valid_document(d.view()),
            self.spec_nodes() == seq![spec_empty_node()] ==> (r matches Ok(d) && d.view().len()
                == 0),
            self.spec_nodes() != seq![spec_empty_node()] ==> {
                let size = file_size_of(
                    self.spec_nodes().len(),
                    self.spec_args().len(),
                    self.spec_strings().buffer.len(),
                    self.spec_binary().len(),
                );
                let bytes = serialized(
                    self.spec_nodes(),
                    self.spec_args(),
                    self.spec_strings().buffer,
                    self.spec_binary(),
                );
                &&& size > u32::MAX ==> r == Err::<DocumentBuffer, BuildError>(BuildError::TooLarge)
                &&& size <= u32::MAX ==> (r matches Ok(d) && d.view() == bytes)
            },
            forall|t: Node|
                node_matches(
                    self.spec_nodes(),
                    self.spec_args(),
                    self.spec_strings().buffer,
                    self.spec_binary(),
                    0,
                    t,
                    1,
                    self.spec_nodes().len() as int,
                ) && self.spec_nodes() != seq![spec_empty_node()] ==> (r matches Ok(d) ==> reads_back(
                    d.view(),
                    t,
                )),
    {
        if self.nodes.len() == 1 && self.nodes[0] == NodeRecord::empty() {
            assert(self.spec_nodes() =~= seq![spec_empty_node()]);
            return Ok(DocumentBuffer::empty());
        }
        let size = self.file_size();
        if size > u32::MAX as u64 {
            return Err(BuildError::TooLarge);
        }
        let n_nodes = self.nodes.len() as u32;
        let n_args = self.args.len() as u32;
        let strings_len = self.strings.len() as u32;
        let binary_len = self.binary.len() as u32;
        let args_offset = 64 + 32 * n_nodes;
        let strings_offset = args_offset + 20 * n_args;
        let binary_offset = strings_offset + strings_len;
        let header = Header {
            magic: MAGIC,
            version: VERSION,
            root_node_index: 0,
            size: size as u32,
            nodes_offset: HEADER_SIZE as u32,
            nodes_len: n_nodes,
            args_offset,
            args_len: n_args,
            strings_offset,
            strings_len,
            binary_offset,
            binary_len,
            reserved1: 0,
            reserved2: 0,
            reserved3: 0,
        };
        assert(header == layout_header(
            self.nodes@.len(),
            self.args@.len(),
            self.strings.model().buffer.len(),
            self.binary@.len(),
        ));
        let out = self.encode_sections(&header);
        proof {
            lemma_serialized_valid(
                self.nodes@,
                self.args@,
                self.strings.model().buffer,
                self.binary@,
            );
            lemma_serialized_decodes(
                self.nodes@,
                self.args@,
                self.strings.model().buffer,
                self.binary@,
            );
        }
        Ok(DocumentBuffer::from_valid_buffer(out))
    }
}

} // verus!
