//! Zero-copy reader over a validated document.
//!
//! Every handle is a plain index into the buffer of its document. Once the
//! buffer has passed validation, no accessor can fail.
use vstd::prelude::*;
use vstd::string::StringSliceAdditionalSpecFns;
use vstd::utf8::valid_utf8;

use crate::classify::{classification, classify_counts, ClassifyNode};
use crate::codec::{
    decode_value, spec_empty_node, Arg as ArgRecord, ArgRange, Header, Node as NodeRecord,
    NodeRange, RawValue, StringRange, BinaryRange, ARG_SIZE, NODE_SIZE,
};
use crate::error::ValidationError;
use crate::raw::{
    str_from_utf8,
    arg_record, binary_bytes, binary_len_of, check_result, lemma_string_range_utf8,
    lemma_valid_arg, lemma_valid_node, lemma_valid_sections, node_record, nodes_len_of,
    args_len_of, args_offset_of, nodes_offset_of, root_of, string_bytes, string_error,
    strings_len_of, valid_document, arg_offset, node_offset,
    RawDocument, RawDocumentBuffer, strings_section, };

verus! {

/// The record of node `i`; the empty document has one empty root node.
pub open spec fn node_rec(b: Seq<u8>, i: int) -> NodeRecord {
    if nodes_len_of(b) == 0 {
        spec_empty_node()
    } else {
        node_record(b, i)
    }
}

/// The root index of a document.
pub open spec fn root_index(b: Seq<u8>) -> int {
    root_of(b) as int
}

/// `r` is what a name or type range reads as: nothing for the empty range,
/// else the string with those bytes.
pub open spec fn reads_as(r: Option<&str>, b: Seq<u8>, range: StringRange) -> bool {
    if range.len == 0 {
        r is None
    } else {
        r matches Some(s) && s.spec_bytes() == string_bytes(b, range)
    }
}

/// The name of node `i` is present and has the bytes `q`.
pub open spec fn node_named(b: Seq<u8>, i: int, q: Seq<u8>) -> bool {
    node_rec(b, i).name.len != 0 && string_bytes(b, node_rec(b, i).name) == q
}

/// The name of argument `j` is present and has the bytes `q`.
pub open spec fn arg_named(b: Seq<u8>, j: int, q: Seq<u8>) -> bool {
    arg_record(b, j).name.len != 0 && string_bytes(b, arg_record(b, j).name) == q
}

/// Value of an argument, borrowed from its document. A float is carried as
/// its IEEE-754 bit pattern.
#[derive(Clone, Copy, Debug, PartialEq)]
pub enum ValueRef<'a> {
    Null,
    Bool(bool),
    Int(i64),
    Uint(u64),
    Float(u64),
    String(&'a str),
    Binary(&'a [u8]),
}

/// `v` is what the decoded value `raw` reads as in the buffer `b`.
pub open spec fn value_reads_as(v: ValueRef, b: Seq<u8>, raw: RawValue) -> bool {
    match raw {
        RawValue::Null => v is Null,
        RawValue::Bool(x) => v == ValueRef::Bool(x),
        RawValue::Int(x) => v == ValueRef::Int(x),
        RawValue::Uint(x) => v == ValueRef::Uint(x),
        RawValue::Float(x) => v == ValueRef::Float(x),
        RawValue::String(r) => v matches ValueRef::String(s) && s.spec_bytes() == string_bytes(b, r),
        RawValue::Binary(r) => v matches ValueRef::Binary(s) && s@ == binary_bytes(b, r),
    }
}

/// Argument of a node: an optional name and a value.
#[derive(Clone, Copy, Debug, PartialEq)]
pub struct Arg<'a> {
    pub name: Option<&'a str>,
    pub value: ValueRef<'a>,
}

/// `a` is what argument `j` of the buffer `b` reads as.
pub open spec fn arg_reads_as(a: Arg, b: Seq<u8>, j: int) -> bool {
    &&& reads_as(a.name, b, arg_record(b, j).name)
    &&& decode_value(arg_record(b, j).value) matches Ok(raw) && value_reads_as(a.value, b, raw)
}

/// Key for looking up a child or an argument: a position or a name.
pub enum IndexOrString<'b> {
    Index(usize),
    String(&'b str),
}

/// A validated document.
#[derive(Clone, Copy, Debug, PartialEq, Eq)]
pub struct Document<'a> {
    raw: RawDocument<'a>,
    header: Header,
}

/// An owned, validated document.
#[derive(Debug)]
pub struct DocumentBuffer {
    raw: RawDocumentBuffer,
}

impl DocumentBuffer {
    #[verifier::type_invariant]
    closed spec fn inv(self) -> bool {
        valid_document(self.raw.view())
    }

    pub closed spec fn view(&self) -> Seq<u8> {
        self.raw.view()
    }

    /// Take ownership of a buffer already known to be a valid document.
    pub(crate) fn from_valid_buffer(buffer: Vec<u8>) -> (r: DocumentBuffer)
        requires
            valid_document(buffer@),
        ensures
            r.view() == buffer@,
    {
        DocumentBuffer { raw: RawDocumentBuffer::from_buffer(buffer) }
    }

    /// The empty document: a buffer of length zero.
    pub fn empty() -> (r: DocumentBuffer)
        ensures
            r.view().len() == 0,
            valid_document(r.view()),
    {
        let raw = RawDocumentBuffer::from_buffer(Vec::new());
        assert(strings_section(raw.view()) =~= Seq::<u8>::empty());
        DocumentBuffer { raw }
    }

    /// Validate a buffer and take ownership of it. The empty buffer is the
    /// empty document.
    pub fn from_buffer(buffer: Vec<u8>) -> (r: Result<DocumentBuffer, ValidationError>)
        ensures
            match r {
                Ok(d) => check_result(buffer@) is Ok && d.view() == buffer@,
                Err(e) => check_result(buffer@) == Err::<(), ValidationError>(e),
            },
    {
        let raw = RawDocumentBuffer::from_buffer(buffer);
        match raw.as_document().check() {
            Ok(()) => Ok(DocumentBuffer { raw }),
            Err(e) => Err(e),
        }
    }

    pub fn as_document(&self) -> (r: Document<'_>)
        ensures
            r.view() == self.view(),
    {
        proof {
            use_type_invariant(self);
        }
        Document::from_valid(self.raw.as_document())
    }
}

impl<'a> Document<'a> {
    #[verifier::type_invariant]
    closed spec fn inv(self) -> bool {
        &&& valid_document(self.raw.view())
        &&& self.raw.view().len() == 0 ==> self.header.is_default()
        &&& self.raw.view().len() != 0 ==> self.header.describes(self.raw.view())
    }

    /// The bytes of the document.
    pub closed spec fn view(&self) -> Seq<u8> {
        self.raw.view()
    }

    fn from_valid(raw: RawDocument<'a>) -> (r: Document<'a>)
        requires
            valid_document(raw.view()),
        ensures
            r.view() == raw.view(),
    {
        proof {
            lemma_valid_sections(raw.view());
        }
        let header = raw.header();
        Document { raw, header }
    }

    /// The empty document.
    pub fn empty() -> (r: Document<'static>)
        ensures
            r.view().len() == 0,
    {
        let bytes: &'static [u8] = &[];
        let raw = RawDocument::from_slice(bytes);
        assert(strings_section(raw.view()) =~= Seq::<u8>::empty());
        Document::from_valid(raw)
    }

    /// Validate a block of bytes as a document and wrap it. The empty slice
    /// is the empty document.
    pub fn from_slice(slice: &'a [u8]) -> (r: Result<Document<'a>, ValidationError>)
        ensures
            match r {
                Ok(d) => check_result(slice@) is Ok && d.view() == slice@,
                Err(e) => check_result(slice@) == Err::<(), ValidationError>(e),
            },
    {
        let raw = RawDocument::from_slice(slice);
        match raw.check() {
            Ok(()) => Ok(Document::from_valid(raw)),
            Err(e) => Err(e),
        }
    }

    /// Validate a raw document and wrap it.
    pub fn try_from_raw(raw: RawDocument<'a>) -> (r: Result<Document<'a>, ValidationError>)
        ensures
            match r {
                Ok(d) => check_result(raw.view()) is Ok && d.view() == raw.view(),
                Err(e) => check_result(raw.view()) == Err::<(), ValidationError>(e),
            },
    {
        match raw.check() {
            Ok(()) => Ok(Document::from_valid(raw)),
            Err(e) => Err(e),
        }
    }

    /// The header; the empty document has the default header.
    pub fn header(&self) -> (h: Header)
        ensures
            self.view().len() == 0 ==> h.is_default(),
            self.view().len() != 0 ==> h.describes(self.view()),
    {
        proof {
            use_type_invariant(self);
        }
        self.header
    }

    /// The document has no nodes.
    pub fn is_empty(&self) -> (r: bool)
        ensures
            r == (nodes_len_of(self.view()) == 0),
    {
        proof {
            use_type_invariant(self);
        }
        self.header.nodes_len == 0
    }

    pub fn as_bytes(&self) -> (r: &'a [u8])
        ensures
            r@ == self.view(),
    {
        self.raw.as_bytes()
    }

    /// All node records, in order.
    pub fn nodes(&self) -> (r: Vec<NodeRecord>)
        ensures
            r@.len() == nodes_len_of(self.view()),
            forall|i: int| 0 <= i < r@.len() ==> r@[i] == node_record(self.view(), i),
    {
        proof {
            use_type_invariant(self);
            lemma_valid_sections(self.view());
        }
        let b = self.raw.as_bytes();
        let mut out: Vec<NodeRecord> = Vec::new();
        let mut i: u32 = 0;
        while i < self.header.nodes_len
            invariant
                b@ == self.view(),
                valid_document(self.view()),
                self.view().len() != 0 ==> self.header.describes(self.view()),
                self.view().len() == 0 ==> self.header.is_default(),
                nodes_offset_of(self.view()) + NODE_SIZE * nodes_len_of(self.view())
                    <= self.view().len(),
                i <= self.header.nodes_len,
                self.header.nodes_len == nodes_len_of(self.view()),
                out@.len() == i,
                forall|k: int| 0 <= k < i ==> out@[k] == node_record(self.view(), k),
            decreases self.header.nodes_len - i,
        {
            let at = self.header.nodes_offset as usize + i as usize * NODE_SIZE;
            out.push(NodeRecord::read(b, at));
            i = i + 1;
        }
        out
    }

    /// All argument records, in order.
    pub fn args(&self) -> (r: Vec<ArgRecord>)
        ensures
            r@.len() == args_len_of(self.view()),
            forall|j: int| 0 <= j < r@.len() ==> r@[j] == arg_record(self.view(), j),
    {
        proof {
            use_type_invariant(self);
            lemma_valid_sections(self.view());
        }
        let b = self.raw.as_bytes();
        let mut out: Vec<ArgRecord> = Vec::new();
        let mut j: u32 = 0;
        while j < self.header.args_len
            invariant
                b@ == self.view(),
                valid_document(self.view()),
                self.view().len() != 0 ==> self.header.describes(self.view()),
                self.view().len() == 0 ==> self.header.is_default(),
                args_offset_of(self.view()) + ARG_SIZE * args_len_of(self.view())
                    <= self.view().len(),
                j <= self.header.args_len,
                self.header.args_len == args_len_of(self.view()),
                out@.len() == j,
                forall|k: int| 0 <= k < j ==> out@[k] == arg_record(self.view(), k),
            decreases self.header.args_len - j,
        {
            let at = self.header.args_offset as usize + j as usize * ARG_SIZE;
            out.push(ArgRecord::read(b, at));
            j = j + 1;
        }
        out
    }

    /// The root node. The empty document has an empty root node.
    pub fn root(&self) -> (n: Node<'a>)
        ensures
            n.bytes() == self.view(),
            n.position() == root_index(self.view()),
    {
        proof {
            use_type_invariant(self);
            lemma_valid_sections(self.view());
        }
        Node { doc: *self, index: self.header.root_node_index }
    }

    /// Look up a string by a range that did not come from a node of this
    /// document: `None` when it is out of bounds or not UTF-8.
    pub fn get_string(&self, range: StringRange) -> (r: Option<&'a str>)
        ensures
            ({
                let b = self.view();
                let in_bounds = range.start + range.len <= strings_len_of(b);
                &&& (in_bounds && valid_utf8(string_bytes(b, range))) <==> r is Some
                &&& r matches Some(s) ==> s.spec_bytes() == string_bytes(b, range)
            }),
    {
        proof {
            use_type_invariant(self);
            lemma_valid_sections(self.view());
        }
        let end = range.start as u64 + range.len as u64;
        if end > self.header.strings_len as u64 {
            return None;
        }
        let so = self.header.strings_offset as usize;
        let bytes = vstd::slice::slice_subrange(
            self.raw.as_bytes(),
            so + range.start as usize,
            so + end as usize,
        );
        assert(bytes@ =~= string_bytes(self.view(), range));
        str_from_utf8(bytes)
    }

    /// The string of a range that passed validation.
    fn str_at(&self, range: StringRange) -> (r: &'a str)
        requires
            exists|off: int| string_error(self.view(), off, range) is None,
        ensures
            r.spec_bytes() == string_bytes(self.view(), range),
    {
        proof {
            use_type_invariant(self);
            lemma_valid_sections(self.view());
            let off = choose|off: int| string_error(self.view(), off, range) is None;
            lemma_string_range_utf8(self.view(), off, range);
        }
        let so = self.header.strings_offset as usize;
        let bytes = vstd::slice::slice_subrange(
            self.raw.as_bytes(),
            so + range.start as usize,
            so + range.start as usize + range.len as usize,
        );
        assert(bytes@ =~= string_bytes(self.view(), range));
        match str_from_utf8(bytes) {
            Some(s) => s,
            None => {
                // Unreachable: the range was checked to be valid UTF-8.
                proof {
                    assert(false);
                }
                ""
            },
        }
    }

    /// A name or type: `None` for the empty range.
    fn opt_str_at(&self, range: StringRange) -> (r: Option<&'a str>)
        requires
            exists|off: int| string_error(self.view(), off, range) is None,
        ensures
            reads_as(r, self.view(), range),
    {
        if range.len == 0 {
            None
        } else {
            Some(self.str_at(range))
        }
    }

    /// The bytes of a binary range that passed validation.
    fn binary_at(&self, range: BinaryRange) -> (r: &'a [u8])
        requires
            range.start + range.len <= binary_len_of(self.view()),
        ensures
            r@ == binary_bytes(self.view(), range),
    {
        proof {
            use_type_invariant(self);
            lemma_valid_sections(self.view());
        }
        let bo = self.header.binary_offset as usize;
        let r = vstd::slice::slice_subrange(
            self.raw.as_bytes(),
            bo + range.start as usize,
            bo + range.start as usize + range.len as usize,
        );
        assert(r@ =~= binary_bytes(self.view(), range));
        r
    }

    /// Argument `j` of the document.
    fn arg_at(&self, j: u32) -> (a: Arg<'a>)
        requires
            j < args_len_of(self.view()),
        ensures
            arg_reads_as(a, self.view(), j as int),
    {
        proof {
            use_type_invariant(self);
            lemma_valid_sections(self.view());
            lemma_valid_arg(self.view(), j as int);
        }
        let at = self.header.args_offset as usize + j as usize * ARG_SIZE;
        let rec = ArgRecord::read(self.raw.as_bytes(), at);
        let name = self.opt_str_at(rec.name);
        let value = match RawValue::try_from_value(rec.value) {
            Ok(RawValue::Null) => ValueRef::Null,
            Ok(RawValue::Bool(x)) => ValueRef::Bool(x),
            Ok(RawValue::Int(x)) => ValueRef::Int(x),
            Ok(RawValue::Uint(x)) => ValueRef::Uint(x),
            Ok(RawValue::Float(x)) => ValueRef::Float(x),
            Ok(RawValue::String(r)) => ValueRef::String(self.str_at(r)),
            Ok(RawValue::Binary(r)) => ValueRef::Binary(self.binary_at(r)),
            Err(_) => {
                // Unreachable: every argument's tag was checked.
                proof {
                    assert(false);
                }
                ValueRef::Null
            },
        };
        Arg { name, value }
    }

    /// The record of node `i`.
    fn record(&self, i: u32) -> (n: NodeRecord)
        requires
            i < nodes_len_of(self.view()) || (nodes_len_of(self.view()) == 0 && i == 0),
        ensures
            n == node_rec(self.view(), i as int),
    {
        proof {
            use_type_invariant(self);
            lemma_valid_sections(self.view());
        }
        if self.header.nodes_len == 0 {
            NodeRecord::empty()
        } else {
            let at = self.header.nodes_offset as usize + i as usize * NODE_SIZE;
            NodeRecord::read(self.raw.as_bytes(), at)
        }
    }
}

/// Whether `b` starts at byte `start` of `hay` and fills `len` bytes there.
fn bytes_at_eq(hay: &[u8], start: usize, len: usize, b: &[u8]) -> (r: bool)
    requires
        start + len <= hay@.len(),
    ensures
        r == (hay@.subrange(start as int, start + len) == b@),
{
    let _hay_len = hay.len();
    if len != b.len() {
        return false;
    }
    let mut i: usize = 0;
    while i < len
        invariant
            start + len <= hay@.len(),
            hay@.len() == _hay_len,
            len == b@.len(),
            i <= len,
            forall|k: int| 0 <= k < i ==> hay@[start + k] == b@[k],
        decreases len - i,
    {
        if hay[start + i] != b[i] {
            assert(hay@.subrange(start as int, start + len)[i as int] != b@[i as int]);
            return false;
        }
        i = i + 1;
    }
    assert(hay@.subrange(start as int, start + len) =~= b@);
    true
}

/// Node of a [`Document`].
#[derive(Clone, Copy)]
pub struct Node<'a> {
    doc: Document<'a>,
    index: u32,
}

/// Argument or child of a node.
#[derive(Clone, Copy)]
pub enum Entry<'a> {
    Arg(Arg<'a>),
    Child(Node<'a>),
}

/// The children of a node: a range of nodes of its document.
#[derive(Clone, Copy)]
pub struct Children<'a> {
    doc: Document<'a>,
    range: NodeRange,
}

/// The arguments of a node: a range of arguments of its document.
#[derive(Clone, Copy)]
pub struct Args<'a> {
    doc: Document<'a>,
    range: ArgRange,
}

impl<'a> Entry<'a> {
    /// The name of the argument or child.
    pub fn name(&self) -> (r: Option<&'a str>)
        ensures
            self matches Entry::Arg(a) ==> r == a.name,
            self matches Entry::Child(n) ==> reads_as(r, n.bytes(), n.spec_record().name),
    {
        match self {
            Entry::Arg(a) => a.name,
            Entry::Child(n) => n.name(),
        }
    }

    /// The type tag of a child; arguments have none.
    pub fn ty(&self) -> (r: Option<&'a str>)
        ensures
            self is Arg ==> r is None,
            self matches Entry::Child(n) ==> reads_as(r, n.bytes(), n.spec_record().ty),
    {
        match self {
            Entry::Arg(_) => None,
            Entry::Child(n) => n.ty(),
        }
    }

    /// The value of an argument, or of the first argument of a child.
    pub fn value(&self) -> (r: Option<ValueRef<'a>>)
        ensures
            self matches Entry::Arg(a) ==> r == Some(a.value),
            self matches Entry::Child(n) ==> (n.spec_record().args.len == 0 <==> r is None),
    {
        match self {
            Entry::Arg(a) => Some(a.value),
            Entry::Child(n) => n.value(),
        }
    }
}

impl<'a> Node<'a> {
    #[verifier::type_invariant]
    closed spec fn inv(self) -> bool {
        let n = nodes_len_of(self.doc.view());
        self.index < n || (n == 0 && self.index == 0)
    }

    /// The bytes of the document this node belongs to.
    pub closed spec fn bytes(&self) -> Seq<u8> {
        self.doc.view()
    }

    /// The position of this node in the nodes section.
    pub closed spec fn position(&self) -> int {
        self.index as int
    }

    /// The record of this node.
    pub open spec fn spec_record(&self) -> NodeRecord {
        node_rec(self.bytes(), self.position())
    }

    /// The position of the node in the nodes section.
    pub fn raw_index(&self) -> (r: usize)
        ensures
            r == self.position(),
            self.position() < nodes_len_of(self.bytes()) || self.position() == 0,
    {
        proof {
            use_type_invariant(self);
        }
        self.index as usize
    }

    /// The record of this node.
    pub fn encoded(&self) -> (r: NodeRecord)
        ensures
            r == self.spec_record(),
    {
        proof {
            use_type_invariant(self);
        }
        self.doc.record(self.index)
    }

    /// What validation established about this node's record.
    fn record_facts(&self)
        requires
            nodes_len_of(self.bytes()) != 0,
        ensures
            string_error(
                self.bytes(),
                node_offset(self.bytes(), self.position()) + 16,
                self.spec_record().name,
            ) is None,
            string_error(
                self.bytes(),
                node_offset(self.bytes(), self.position()) + 24,
                self.spec_record().ty,
            ) is None,
            self.spec_record().args.start + self.spec_record().args.len <= args_len_of(
                self.bytes(),
            ),
            self.spec_record().children.start + self.spec_record().children.len <= nodes_len_of(
                self.bytes(),
            ),
            self.spec_record().children.len == 0 || self.spec_record().children.start
                > self.position(),
    {
        proof {
            use_type_invariant(self);
            use_type_invariant(self.doc);
            lemma_valid_node(self.bytes(), self.position());
        }
    }

    /// The name of the node, if it has one.
    pub fn name(&self) -> (r: Option<&'a str>)
        ensures
            reads_as(r, self.bytes(), self.spec_record().name),
    {
        proof {
            use_type_invariant(self);
        }
        let rec = self.doc.record(self.index);
        if rec.name.len == 0 {
            return None;
        }
        self.record_facts();
        self.doc.opt_str_at(rec.name)
    }

    /// The type tag of the node, if it has one.
    pub fn ty(&self) -> (r: Option<&'a str>)
        ensures
            reads_as(r, self.bytes(), self.spec_record().ty),
    {
        proof {
            use_type_invariant(self);
        }
        let rec = self.doc.record(self.index);
        if rec.ty.len == 0 {
            return None;
        }
        self.record_facts();
        self.doc.opt_str_at(rec.ty)
    }

    /// The children of the node.
    pub fn children(&self) -> (r: Children<'a>)
        ensures
            r.bytes() == self.bytes(),
            r.range() == self.spec_record().children,
            r.range().len == 0 || r.range().start > self.position(),
            r.range().start + r.range().len <= nodes_len_of(self.bytes()),
    {
        proof {
            use_type_invariant(self);
            use_type_invariant(self.doc);
        }
        if self.doc.header.nodes_len != 0 {
            self.record_facts();
        }
        Children { doc: self.doc, range: self.doc.record(self.index).children }
    }

    /// The arguments of the node.
    pub fn args(&self) -> (r: Args<'a>)
        ensures
            r.bytes() == self.bytes(),
            r.range() == self.spec_record().args,
    {
        proof {
            use_type_invariant(self);
            use_type_invariant(self.doc);
        }
        if self.doc.header.nodes_len != 0 {
            self.record_facts();
        }
        Args { doc: self.doc, range: self.doc.record(self.index).args }
    }

    /// The node has neither arguments nor children.
    pub fn is_empty(&self) -> (r: bool)
        ensures
            r == (self.spec_record().args.len == 0 && self.spec_record().children.len == 0),
    {
        let rec = self.encoded();
        rec.args.len == 0 && rec.children.len == 0
    }

    /// The value of the first argument, if any; useful for key-value nodes.
    pub fn value(&self) -> (r: Option<ValueRef<'a>>)
        ensures
            self.spec_record().args.len == 0 ==> r is None,
            self.spec_record().args.len != 0 ==> exists|a: Arg|
                #![trigger arg_reads_as(a, self.bytes(), self.spec_record().args.start as int)]
                arg_reads_as(a, self.bytes(), self.spec_record().args.start as int) && r
                    == Some(a.value),
    {
        let args = self.args();
        match args.get_by_index(0) {
            Some(a) => Some(a.value),
            None => None,
        }
    }

    /// Look up an entry by name: the last argument with that name, else the
    /// last child with that name.
    pub fn get(&self, key: &str) -> (r: Option<Entry<'a>>)
        ensures
            ({
                let b = self.bytes();
                let rec = self.spec_record();
                let q = key.spec_bytes();
                let arg_hit = exists|j: int|
                    rec.args.start <= j < rec.args.start + rec.args.len && #[trigger] arg_named(
                        b,
                        j,
                        q,
                    );
                let child_hit = exists|k: int|
                    rec.children.start <= k < rec.children.start + rec.children.len
                        && #[trigger] node_named(b, k, q);
                let (as_, ae) = (rec.args.start as int, rec.args.start + rec.args.len);
                let (cs, ce) = (rec.children.start as int, rec.children.start + rec.children.len);
                &&& arg_hit ==> (r matches Some(Entry::Arg(_)))
                &&& !arg_hit && child_hit ==> (r matches Some(Entry::Child(_)))
                &&& !arg_hit && !child_hit ==> r is None
                &&& r matches Some(Entry::Arg(a)) ==> exists|j: int|
                    as_ <= j < ae && #[trigger] arg_named(b, j, q) && arg_reads_as(a, b, j)
                        && forall|k: int| j < k < ae ==> !#[trigger] arg_named(b, k, q)
                &&& r matches Some(Entry::Child(n)) ==> n.bytes() == b && cs <= n.position() < ce
                    && node_named(b, n.position(), q) && forall|k: int|
                    n.position() < k < ce ==> !#[trigger] node_named(b, k, q)
            }),
    {
        match self.args().get_by_name(key) {
            Some(a) => Some(Entry::Arg(a)),
            None => match self.children().get_by_name(key) {
                Some(n) => Some(Entry::Child(n)),
                None => None,
            },
        }
    }

    /// Number of named and unnamed entries (arguments and children).
    fn naming_counts(&self) -> (r: (u64, u64))
        ensures
            r.0 + r.1 == self.spec_record().args.len + self.spec_record().children.len,
            r.0 == count_named(self.bytes(), self.spec_record()),
    {
        let args = self.args();
        let children = self.children();
        let mut named: u64 = 0;
        let mut unnamed: u64 = 0;
        let mut j: usize = 0;
        let n_args = args.len();
        while j < n_args
            invariant
                n_args == args.range().len,
                args.bytes() == self.bytes(),
                args.range() == self.spec_record().args,
                j <= n_args,
                n_args <= u32::MAX,
                named + unnamed == j,
                named == count_named_args(self.bytes(), args.range().start as int, j as int),
            decreases n_args - j,
        {
            let a = args.get_by_index(j);
            match a {
                Some(a) => {
                    if a.name.is_some() {
                        named = named + 1;
                    } else {
                        unnamed = unnamed + 1;
                    }
                },
                None => {},
            }
            j = j + 1;
        }
        let mut k: usize = 0;
        let n_children = children.len();
        while k < n_children
            invariant
                n_children == children.range().len,
                children.bytes() == self.bytes(),
                children.range() == self.spec_record().children,
                k <= n_children,
                n_args <= u32::MAX,
                n_children <= u32::MAX,
                named + unnamed == n_args + k,
                n_args == self.spec_record().args.len,
                named == count_named_args(self.bytes(), self.spec_record().args.start as int, n_args as int)
                    + count_named_children(self.bytes(), children.range().start as int, k as int),
            decreases n_children - k,
        {
            let c = children.get_by_index(k);
            match c {
                Some(c) => {
                    if c.name().is_some() {
                        named = named + 1;
                    } else {
                        unnamed = unnamed + 1;
                    }
                },
                None => {},
            }
            k = k + 1;
        }
        (named, unnamed)
    }

    /// The classification of this node: by the naming of its entries and
    /// whether it has a type tag.
    pub open spec fn spec_classify(&self) -> ClassifyNode {
        classification(
            self.spec_record().ty.len != 0,
            count_named(self.bytes(), self.spec_record()),
            (self.spec_record().args.len + self.spec_record().children.len - count_named(
                self.bytes(),
                self.spec_record(),
            )) as nat,
        )
    }

    /// Classify the node by the naming of its entries and its type tag.
    pub fn classify(&self) -> (r: ClassifyNode)
        ensures
            r == self.spec_classify(),
    {
        let (named, unnamed) = self.naming_counts();
        let rec = self.encoded();
        classify_counts(rec.ty.len != 0, named, unnamed)
    }

    /// The node can be read as a map of named items.
    pub fn is_dictionary_like(&self) -> (r: bool)
        ensures
            r == !(self.spec_classify() is Sequence || self.spec_classify() is SeqVariant
                || self.spec_classify() is Value || self.spec_classify() is ValueVariant),
    {
        self.classify().is_dictionary_like()
    }

    /// The node can be read as a list of unnamed items.
    pub fn is_list_like(&self) -> (r: bool)
        ensures
            r == !(self.spec_classify() is Struct || self.spec_classify() is StructVariant),
    {
        self.classify().is_list_like()
    }

    /// The node mixes named and unnamed entries.
    pub fn is_mixed(&self) -> (r: bool)
        ensures
            r == (self.spec_classify() is Mixed || self.spec_classify() is MixedVariant),
    {
        let c = self.classify();
        match c {
            ClassifyNode::Mixed | ClassifyNode::MixedVariant => true,
            _ => false,
        }
    }
}

/// Iterator over the children of a node, from both ends.
#[derive(Clone, Copy)]
pub struct ChildrenIter<'a> {
    children: Children<'a>,
    front: usize,
    back: usize,
}

/// Iterator over the arguments of a node, from both ends.
#[derive(Clone, Copy)]
pub struct ArgsIter<'a> {
    args: Args<'a>,
    front: usize,
    back: usize,
}

/// Iterator over the arguments of a node, then its children.
#[derive(Clone, Copy)]
pub struct EntriesIter<'a> {
    args: ArgsIter<'a>,
    children: ChildrenIter<'a>,
}

impl<'a> Children<'a> {
    /// Iterate over the children in order.
    pub fn iter(&self) -> (r: ChildrenIter<'a>)
        ensures
            r.remaining() == self.range().len,
            r.front() == 0,
            r.back() == self.range().len,
            r.source() == *self,
    {
        ChildrenIter { children: *self, front: 0, back: self.range.len as usize }
    }
}

impl<'a> ChildrenIter<'a> {
    #[verifier::type_invariant]
    closed spec fn inv(self) -> bool {
        self.front <= self.back <= self.children.range().len
    }

    /// The children iterated over.
    pub closed spec fn source(&self) -> Children<'a> {
        self.children
    }

    /// Position, among the children, of the next child from the front.
    pub closed spec fn front(&self) -> int {
        self.front as int
    }

    /// Position, among the children, just past the next child from the back.
    pub closed spec fn back(&self) -> int {
        self.back as int
    }

    /// Number of children not yet visited.
    pub closed spec fn remaining(&self) -> nat {
        (self.back - self.front) as nat
    }

    pub fn len(&self) -> (r: usize)
        ensures
            r == self.remaining(),
    {
        proof {
            use_type_invariant(self);
        }
        self.back - self.front
    }

    /// The next child from the front: the child at position `front`.
    pub fn next(&mut self) -> (r: Option<Node<'a>>)
        ensures
            final(self).source() == old(self).source(),
            final(self).back() == old(self).back(),
            old(self).remaining() == 0 ==> r is None && final(self).front() == old(self).front(),
            old(self).remaining() > 0 ==> (r matches Some(n) && n.bytes() == old(self).source().bytes()
                && n.position() == old(self).source().range().start + old(self).front())
                && final(self).front() == old(self).front() + 1,
            final(self).remaining() == if old(self).remaining() == 0 {
                0
            } else {
                old(self).remaining() - 1
            },
    {
        proof {
            use_type_invariant(&*self);
        }
        if self.front < self.back {
            let r = self.children.get_by_index(self.front);
            self.front = self.front + 1;
            r
        } else {
            None
        }
    }

    /// The next child from the back: the child at position `back - 1`.
    pub fn next_back(&mut self) -> (r: Option<Node<'a>>)
        ensures
            final(self).source() == old(self).source(),
            final(self).front() == old(self).front(),
            old(self).remaining() == 0 ==> r is None && final(self).back() == old(self).back(),
            old(self).remaining() > 0 ==> (r matches Some(n) && n.bytes() == old(self).source().bytes()
                && n.position() == old(self).source().range().start + old(self).back() - 1)
                && final(self).back() == old(self).back() - 1,
            final(self).remaining() == if old(self).remaining() == 0 {
                0
            } else {
                old(self).remaining() - 1
            },
    {
        proof {
            use_type_invariant(&*self);
        }
        if self.front < self.back {
            self.back = self.back - 1;
            self.children.get_by_index(self.back)
        } else {
            None
        }
    }
}

impl<'a> Args<'a> {
    /// Iterate over the arguments in order.
    pub fn iter(&self) -> (r: ArgsIter<'a>)
        ensures
            r.remaining() == self.range().len,
            r.front() == 0,
            r.back() == self.range().len,
            r.source() == *self,
    {
        ArgsIter { args: *self, front: 0, back: self.range.len as usize }
    }
}

impl<'a> ArgsIter<'a> {
    #[verifier::type_invariant]
    closed spec fn inv(self) -> bool {
        self.front <= self.back <= self.args.range().len
    }

    /// The arguments iterated over.
    pub closed spec fn source(&self) -> Args<'a> {
        self.args
    }

    /// Position, among the arguments, of the next argument from the front.
    pub closed spec fn front(&self) -> int {
        self.front as int
    }

    /// Position, among the arguments, just past the next one from the back.
    pub closed spec fn back(&self) -> int {
        self.back as int
    }

    /// Number of arguments not yet visited.
    pub closed spec fn remaining(&self) -> nat {
        (self.back - self.front) as nat
    }

    pub fn len(&self) -> (r: usize)
        ensures
            r == self.remaining(),
    {
        proof {
            use_type_invariant(self);
        }
        self.back - self.front
    }

    /// The next argument from the front: the one at position `front`.
    pub fn next(&mut self) -> (r: Option<Arg<'a>>)
        ensures
            final(self).source() == old(self).source(),
            final(self).back() == old(self).back(),
            old(self).remaining() == 0 ==> r is None && final(self).front() == old(self).front(),
            old(self).remaining() > 0 ==> (r matches Some(a) && arg_reads_as(
                a,
                old(self).source().bytes(),
                old(self).source().range().start + old(self).front(),
            )) && final(self).front() == old(self).front() + 1,
            final(self).remaining() == if old(self).remaining() == 0 {
                0
            } else {
                old(self).remaining() - 1
            },
    {
        proof {
            use_type_invariant(&*self);
        }
        if self.front < self.back {
            let r = self.args.get_by_index(self.front);
            self.front = self.front + 1;
            r
        } else {
            None
        }
    }

    /// The next argument from the back: the one at position `back - 1`.
    pub fn next_back(&mut self) -> (r: Option<Arg<'a>>)
        ensures
            final(self).source() == old(self).source(),
            final(self).front() == old(self).front(),
            old(self).remaining() == 0 ==> r is None && final(self).back() == old(self).back(),
            old(self).remaining() > 0 ==> (r matches Some(a) && arg_reads_as(
                a,
                old(self).source().bytes(),
                old(self).source().range().start + old(self).back() - 1,
            )) && final(self).back() == old(self).back() - 1,
            final(self).remaining() == if old(self).remaining() == 0 {
                0
            } else {
                old(self).remaining() - 1
            },
    {
        proof {
            use_type_invariant(&*self);
        }
        if self.front < self.back {
            self.back = self.back - 1;
            self.args.get_by_index(self.back)
        } else {
            None
        }
    }
}

impl<'a> EntriesIter<'a> {
    /// The iterator over the remaining arguments.
    pub closed spec fn args_iter(&self) -> ArgsIter<'a> {
        self.args
    }

    /// The iterator over the remaining children.
    pub closed spec fn children_iter(&self) -> ChildrenIter<'a> {
        self.children
    }

    /// Number of entries not yet visited.
    pub open spec fn remaining(&self) -> nat {
        self.args_iter().remaining() + self.children_iter().remaining()
    }

    pub fn len(&self) -> (r: usize)
        requires
            self.remaining() <= usize::MAX,
        ensures
            r == self.remaining(),
    {
        self.args.len() + self.children.len()
    }

    /// The next entry: the next argument while any is left, then the next
    /// child.
    pub fn next(&mut self) -> (r: Option<Entry<'a>>)
        ensures
            ({
                let a = old(self).args_iter();
                let c = old(self).children_iter();
                &&& a.remaining() > 0 ==> (r matches Some(Entry::Arg(x)) && arg_reads_as(
                    x,
                    a.source().bytes(),
                    a.source().range().start + a.front(),
                )) && final(self).children_iter() == c
                &&& a.remaining() == 0 && c.remaining() > 0 ==> (r matches Some(Entry::Child(n))
                    && n.bytes() == c.source().bytes() && n.position() == c.source().range().start
                    + c.front()) && final(self).args_iter() == a
                &&& a.remaining() == 0 && c.remaining() == 0 ==> r is None
                &&& old(self).remaining() > 0 ==> final(self).remaining() == old(self).remaining() - 1
            }),
    {
        match self.args.next() {
            Some(a) => Some(Entry::Arg(a)),
            None => match self.children.next() {
                Some(n) => Some(Entry::Child(n)),
                None => None,
            },
        }
    }
}

impl<'a> Node<'a> {
    /// The arguments, then the children.
    pub fn entries(&self) -> (r: EntriesIter<'a>)
        ensures
            r.args_iter().source().bytes() == self.bytes(),
            r.args_iter().source().range() == self.spec_record().args,
            r.args_iter().front() == 0,
            r.args_iter().back() == self.spec_record().args.len,
            r.children_iter().source().bytes() == self.bytes(),
            r.children_iter().source().range() == self.spec_record().children,
            r.children_iter().front() == 0,
            r.children_iter().back() == self.spec_record().children.len,
            r.remaining() == self.spec_record().args.len + self.spec_record().children.len,
    {
        EntriesIter { args: self.args().iter(), children: self.children().iter() }
    }
}

/// Number of named arguments among the `k` arguments from `start`.
pub open spec fn count_named_args(b: Seq<u8>, start: int, k: int) -> nat
    decreases k,
{
    if k <= 0 {
        0
    } else {
        count_named_args(b, start, k - 1) + if arg_record(b, start + k - 1).name.len != 0 {
            1nat
        } else {
            0nat
        }
    }
}

/// Number of named nodes among the `k` nodes from `start`.
pub open spec fn count_named_children(b: Seq<u8>, start: int, k: int) -> nat
    decreases k,
{
    if k <= 0 {
        0
    } else {
        count_named_children(b, start, k - 1) + if node_rec(b, start + k - 1).name.len != 0 {
            1nat
        } else {
            0nat
        }
    }
}

/// Number of named entries of a node.
pub open spec fn count_named(b: Seq<u8>, rec: NodeRecord) -> nat {
    count_named_args(b, rec.args.start as int, rec.args.len as int) + count_named_children(
        b,
        rec.children.start as int,
        rec.children.len as int,
    )
}

impl<'a> Children<'a> {
    #[verifier::type_invariant]
    closed spec fn inv(self) -> bool {
        self.range.start + self.range.len <= nodes_len_of(self.doc.view())
    }

    pub closed spec fn bytes(&self) -> Seq<u8> {
        self.doc.view()
    }

    pub closed spec fn range(&self) -> NodeRange {
        self.range
    }

    pub fn is_empty(&self) -> (r: bool)
        ensures
            r == (self.range().len == 0),
    {
        self.range.len == 0
    }

    pub fn len(&self) -> (r: usize)
        ensures
            r == self.range().len,
    {
        self.range.len as usize
    }

    /// The child at `index`, if there is one.
    pub fn get_by_index(&self, index: usize) -> (r: Option<Node<'a>>)
        ensures
            index < self.range().len ==> (r matches Some(n) && n.bytes() == self.bytes()
                && n.position() == self.range().start + index),
            index >= self.range().len ==> r is None,
    {
        proof {
            use_type_invariant(self);
        }
        if index < self.range.len as usize {
            Some(Node { doc: self.doc, index: self.range.start + index as u32 })
        } else {
            None
        }
    }

    /// The last child named `name`.
    #[verifier::rlimit(80)]
    pub fn get_by_name(&self, name: &str) -> (r: Option<Node<'a>>)
        ensures
            ({
                let b = self.bytes();
                let q = name.spec_bytes();
                let (s, e) = (self.range().start as int, self.range().start + self.range().len);
                &&& r matches Some(n) ==> n.bytes() == b && s <= n.position() < e && node_named(
                    b,
                    n.position(),
                    q,
                ) && forall|k: int| n.position() < k < e ==> !#[trigger] node_named(b, k, q)
                &&& r is None ==> forall|k: int| s <= k < e ==> !#[trigger] node_named(b, k, q)
            }),
    {
        proof {
            use_type_invariant(self);
            use_type_invariant(self.doc);
            lemma_valid_sections(self.bytes());
        }
        let q = name.as_bytes();
        let mut i: usize = self.range.len as usize;
        while i > 0
            invariant
                self.range.start + self.range.len <= nodes_len_of(self.doc.view()),
                i <= self.range.len,
                q@ == name.spec_bytes(),
                valid_document(self.doc.view()),
                forall|k: int|
                    self.range.start + i <= k < self.range.start + self.range.len ==> !#[trigger] node_named(
                        self.doc.view(),
                        k,
                        q@,
                    ),
            decreases i,
        {
            i = i - 1;
            let index = self.range.start + i as u32;
            let node = Node { doc: self.doc, index };
            let rec = self.doc.record(index);
            if rec.name.len != 0 {
                node.record_facts();
                proof {
                    lemma_string_range_utf8(
                        self.doc.view(),
                        node_offset(self.doc.view(), index as int) + 16,
                        rec.name,
                    );
                }
                let hdr = self.doc.header();
                let start = hdr.strings_offset as usize + rec.name.start as usize;
                if bytes_at_eq(self.doc.as_bytes(), start, rec.name.len as usize, q) {
                    proof {
                        assert(self.doc.view().subrange(start as int, start + rec.name.len)
                            =~= string_bytes(self.doc.view(), rec.name));
                    }
                    return Some(node);
                }
                proof {
                    assert(self.doc.view().subrange(start as int, start + rec.name.len)
                        =~= string_bytes(self.doc.view(), rec.name));
                }
            }
        }
        None
    }

    /// Look up a child by position or by name (the last one with that name).
    pub fn get(&self, key: IndexOrString) -> (r: Option<Node<'a>>)
        ensures
            key matches IndexOrString::Index(i) ==> (i < self.range().len <==> r is Some),
            key matches IndexOrString::Index(i) ==> (r matches Some(n) ==> n.position()
                == self.range().start + i),
            key matches IndexOrString::String(q) ==> (r is None <==> forall|k: int|
                self.range().start <= k < self.range().start + self.range().len ==> !#[trigger] node_named(
                    self.bytes(),
                    k,
                    q.spec_bytes(),
                )),
            key matches IndexOrString::String(q) ==> (r matches Some(n) ==> n.bytes() == self.bytes()
                && self.range().start <= n.position() < self.range().start + self.range().len
                && node_named(self.bytes(), n.position(), q.spec_bytes()) && forall|k: int|
                n.position() < k < self.range().start + self.range().len ==> !#[trigger] node_named(
                    self.bytes(),
                    k,
                    q.spec_bytes(),
                )),
    {
        match key {
            IndexOrString::Index(i) => self.get_by_index(i),
            IndexOrString::String(s) => self.get_by_name(s),
        }
    }
}

impl<'a> Args<'a> {
    #[verifier::type_invariant]
    closed spec fn inv(self) -> bool {
        self.range.start + self.range.len <= args_len_of(self.doc.view())
    }

    pub closed spec fn bytes(&self) -> Seq<u8> {
        self.doc.view()
    }

    pub closed spec fn range(&self) -> ArgRange {
        self.range
    }

    pub fn is_empty(&self) -> (r: bool)
        ensures
            r == (self.range().len == 0),
    {
        self.range.len == 0
    }

    pub fn len(&self) -> (r: usize)
        ensures
            r == self.range().len,
    {
        self.range.len as usize
    }

    /// The argument at `index`, if there is one.
    pub fn get_by_index(&self, index: usize) -> (r: Option<Arg<'a>>)
        ensures
            index < self.range().len ==> (r matches Some(a) && arg_reads_as(
                a,
                self.bytes(),
                self.range().start + index,
            )),
            index >= self.range().len ==> r is None,
    {
        proof {
            use_type_invariant(self);
        }
        if index < self.range.len as usize {
            Some(self.doc.arg_at(self.range.start + index as u32))
        } else {
            None
        }
    }

    /// The last argument named `name`.
    #[verifier::rlimit(80)]
    pub fn get_by_name(&self, name: &str) -> (r: Option<Arg<'a>>)
        ensures
            ({
                let b = self.bytes();
                let q = name.spec_bytes();
                let (s, e) = (self.range().start as int, self.range().start + self.range().len);
                &&& r matches Some(a) ==> exists|j: int|
                    s <= j < e && #[trigger] arg_named(b, j, q) && arg_reads_as(a, b, j) && forall|
                        k: int,
                    |
                        j < k < e ==> !#[trigger] arg_named(b, k, q)
                &&& r is None ==> forall|k: int| s <= k < e ==> !#[trigger] arg_named(b, k, q)
            }),
    {
        proof {
            use_type_invariant(self);
            use_type_invariant(self.doc);
            lemma_valid_sections(self.bytes());
        }
        let q = name.as_bytes();
        let mut i: usize = self.range.len as usize;
        while i > 0
            invariant
                self.range.start + self.range.len <= args_len_of(self.doc.view()),
                i <= self.range.len,
                q@ == name.spec_bytes(),
                valid_document(self.doc.view()),
                forall|k: int|
                    self.range.start + i <= k < self.range.start + self.range.len ==> !#[trigger] arg_named(
                        self.doc.view(),
                        k,
                        q@,
                    ),
            decreases i,
        {
            i = i - 1;
            let index = self.range.start + i as u32;
            proof {
                lemma_valid_arg(self.doc.view(), index as int);
                lemma_string_range_utf8(
                    self.doc.view(),
                    arg_offset(self.doc.view(), index as int),
                    arg_record(self.doc.view(), index as int).name,
                );
            }
            let hdr = self.doc.header();
            let at = hdr.args_offset as usize + index as usize * ARG_SIZE;
            let rec = ArgRecord::read(self.doc.as_bytes(), at);
            if rec.name.len != 0 {
                let start = hdr.strings_offset as usize + rec.name.start as usize;
                let hit = bytes_at_eq(self.doc.as_bytes(), start, rec.name.len as usize, q);
                proof {
                    assert(self.doc.view().subrange(start as int, start + rec.name.len)
                        =~= string_bytes(self.doc.view(), rec.name));
                }
                if hit {
                    let a = self.doc.arg_at(index);
                    let ghost j0 = index as int;
                    assert(arg_named(self.bytes(), j0, name.spec_bytes()));
                    assert(arg_reads_as(a, self.bytes(), j0));
                    assert(forall|k: int|
                        j0 < k < self.range().start + self.range().len ==> !#[trigger] arg_named(
                            self.bytes(),
                            k,
                            name.spec_bytes(),
                        ));
                    assert(exists|j: int|
                        self.range().start <= j < self.range().start + self.range().len
                            && #[trigger] arg_named(self.bytes(), j, name.spec_bytes())
                            && arg_reads_as(a, self.bytes(), j) && forall|k: int|
                            j < k < self.range().start + self.range().len ==> !#[trigger] arg_named(
                                self.bytes(),
                                k,
                                name.spec_bytes(),
                            ));
                    return Some(a);
                }
            }
        }
        None
    }

    /// Look up an argument by position or by name (the last one with that
    /// name).
    pub fn get(&self, key: IndexOrString) -> (r: Option<Arg<'a>>)
        ensures
            key matches IndexOrString::Index(i) ==> (i < self.range().len <==> r is Some),
            key matches IndexOrString::Index(i) ==> (r matches Some(a) ==> arg_reads_as(
                a,
                self.bytes(),
                self.range().start + i,
            )),
            key matches IndexOrString::String(q) ==> (r is None <==> forall|k: int|
                self.range().start <= k < self.range().start + self.range().len ==> !#[trigger] arg_named(
                    self.bytes(),
                    k,
                    q.spec_bytes(),
                )),
            key matches IndexOrString::String(q) ==> (r matches Some(a) ==> exists|j: int|
                self.range().start <= j < self.range().start + self.range().len
                    && #[trigger] arg_named(self.bytes(), j, q.spec_bytes()) && arg_reads_as(
                    a,
                    self.bytes(),
                    j,
                ) && forall|k: int|
                    j < k < self.range().start + self.range().len ==> !#[trigger] arg_named(
                        self.bytes(),
                        k,
                        q.spec_bytes(),
                    )),
    {
        match key {
            IndexOrString::Index(i) => self.get_by_index(i),
            IndexOrString::String(s) => self.get_by_name(s),
        }
    }
}

} // verus!
