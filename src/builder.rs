//! Building documents from an in-memory tree.
use vstd::prelude::*;

use crate::document::{Document, DocumentBuffer, Node as DocNode, ValueRef};
use crate::raw::valid_document;

pub mod intern;
pub mod raw;

use raw::{lemma_encode_nonempty, reads_back, tree_size, RawBuilder};

verus! {

/// Value of an argument in a tree under construction. A float is carried as
/// its IEEE-754 bit pattern.
#[derive(Clone, Debug)]
pub enum Value {
    Null,
    Bool(bool),
    Int(i64),
    Uint(u64),
    Float(u64),
    String(String),
    Binary(Vec<u8>),
}

/// Argument of a node under construction: an optional name and a value.
#[derive(Clone, Debug)]
pub struct Arg {
    pub name: Option<String>,
    pub value: Value,
}

/// Node of a tree under construction. An empty name or type means that the
/// node has none.
#[derive(Debug)]
pub struct Node {
    pub children: Vec<Node>,
    pub args: Vec<Arg>,
    pub name: String,
    pub ty: String,
}

/// Why a document could not be built.
#[derive(Clone, Copy, Debug, PartialEq, Eq)]
pub enum BuildError {
    /// More nodes than a `u32` can count.
    TooManyNodes,
    /// More arguments than a `u32` can count.
    TooManyArgs,
    /// The document would exceed 4 GiB.
    TooLarge,
}

/// `n` is the key-value node of the argument `a`: named after it, with no
/// type and no children, and `a`'s value as its single unnamed argument.
pub open spec fn key_value_node_of(n: Node, a: Arg) -> bool {
    &&& n.children@.len() == 0
    &&& n.args@.len() == 1
    &&& n.args@[0].name is None
    &&& n.args@[0].value == a.value
    &&& n.name@ == raw::name_chars(a.name)
    &&& n.ty@.len() == 0
}

impl Arg {
    /// A named argument.
    pub fn new(name: &str, value: Value) -> (r: Arg)
        ensures
            r.name matches Some(n) && n@ == name@,
            r.value == value,
    {
        Arg { name: Some(name.to_owned()), value }
    }

    /// An unnamed argument.
    pub fn unnamed(value: Value) -> (r: Arg)
        ensures
            r.name is None,
            r.value == value,
    {
        Arg { name: None, value }
    }

    /// A node named after this argument, holding its value as its single
    /// unnamed argument.
    pub fn into_key_value_node(self) -> (r: Node)
        ensures
            key_value_node_of(r, self),
    {
        let name = match self.name {
            Some(n) => n,
            None => String::new(),
        };
        let mut args: Vec<Arg> = Vec::new();
        args.push(Arg { name: None, value: self.value });
        Node { children: Vec::new(), args, name, ty: String::new() }
    }
}

/// `children` is `before` followed by the key-value nodes of `args`, in
/// order.
pub open spec fn args_became_children(before: Seq<Node>, args: Seq<Arg>, children: Seq<Node>) -> bool {
    &&& children.len() == before.len() + args.len()
    &&& forall|k: int| 0 <= k < before.len() ==> children[k] == before[k]
    &&& forall|k: int|
        0 <= k < args.len() ==> key_value_node_of(#[trigger] children[before.len() + k], args[k])
}

/// Copy a string slice into an owned string.
fn owned(s: &str) -> (r: String)
    ensures
        r@ == s@,
{
    s.to_owned()
}

/// Copy a byte slice into a vector.
fn owned_bytes(b: &[u8]) -> (r: Vec<u8>)
    ensures
        r@ == b@,
{
    let mut v: Vec<u8> = Vec::new();
    let mut i: usize = 0;
    while i < b.len()
        invariant
            i <= b@.len(),
            v@ == b@.subrange(0, i as int),
        decreases b@.len() - i,
    {
        v.push(b[i]);
        assert(b@.subrange(0, i + 1) =~= b@.subrange(0, i as int).push(b@[i as int]));
        i = i + 1;
    }
    assert(b@.subrange(0, b@.len() as int) =~= b@);
    v
}

/// `r` is an owned copy of the value `v`.
pub open spec fn value_copies(r: Value, v: ValueRef) -> bool {
    match v {
        ValueRef::Null => r is Null,
        ValueRef::Bool(x) => r == Value::Bool(x),
        ValueRef::Int(x) => r == Value::Int(x),
        ValueRef::Uint(x) => r == Value::Uint(x),
        ValueRef::Float(x) => r == Value::Float(x),
        ValueRef::String(s) => r matches Value::String(t) && t@ == s@,
        ValueRef::Binary(b) => r matches Value::Binary(c) && c@ == b@,
    }
}

/// `r` is an owned copy of the argument `a`.
pub open spec fn arg_copies(r: Arg, a: crate::document::Arg) -> bool {
    &&& a.name is None ==> r.name is None
    &&& a.name matches Some(n) ==> (r.name matches Some(m) && m@ == n@)
    &&& value_copies(r.value, a.value)
}

/// `r` is an owned copy of argument `j` of the document `b`.
pub open spec fn arg_copied_from(r: Arg, b: Seq<u8>, j: int) -> bool {
    exists|a: crate::document::Arg| crate::document::arg_reads_as(a, b, j) && arg_copies(r, a)
}

/// `r` is an owned copy of node `i` of the document `b`: its name and type,
/// each of its arguments in order, and recursively each of its children
/// in order.
pub open spec fn node_copies(r: Node, b: Seq<u8>, i: int) -> bool
    decreases r,
{
    let rec = crate::document::node_rec(b, i);
    &&& rec.name.len == 0 ==> r.name@.len() == 0
    &&& rec.name.len != 0 ==> vstd::utf8::encode_utf8(r.name@) == crate::raw::string_bytes(b, rec.name)
    &&& rec.ty.len == 0 ==> r.ty@.len() == 0
    &&& rec.ty.len != 0 ==> vstd::utf8::encode_utf8(r.ty@) == crate::raw::string_bytes(b, rec.ty)
    &&& r.args@.len() == rec.args.len
    &&& forall|j: int|
        0 <= j < r.args@.len() ==> #[trigger] arg_copied_from(r.args@[j], b, rec.args.start + j)
    &&& r.children@.len() == rec.children.len
    &&& forall|k: int|
        0 <= k < r.children@.len() ==> node_copies(
            #[trigger] r.children@[k],
            b,
            rec.children.start + k,
        )
}

impl Value {
    /// An owned copy of a value read from a document.
    pub fn from_document(value: ValueRef) -> (r: Value)
        ensures
            value_copies(r, value),
    {
        match value {
            ValueRef::Null => Value::Null,
            ValueRef::Bool(x) => Value::Bool(x),
            ValueRef::Int(x) => Value::Int(x),
            ValueRef::Uint(x) => Value::Uint(x),
            ValueRef::Float(x) => Value::Float(x),
            ValueRef::String(s) => Value::String(owned(s)),
            ValueRef::Binary(b) => Value::Binary(owned_bytes(b)),
        }
    }
}

impl Arg {
    /// An owned copy of an argument read from a document.
    pub fn from_document(arg: crate::document::Arg) -> (r: Arg)
        ensures
            arg_copies(r, arg),
    {
        let name = match arg.name {
            Some(n) => Some(owned(n)),
            None => None,
        };
        Arg { name, value: Value::from_document(arg.value) }
    }
}

impl Node {
    /// An owned copy of a node read from a document, with all its
    /// arguments and descendants.
    pub fn from_document(node: DocNode) -> (r: Node)
        ensures
            r.children@.len() == node.spec_record().children.len,
            r.args@.len() == node.spec_record().args.len,
            node.spec_record().name.len == 0 ==> r.name@.len() == 0,
            node.spec_record().name.len != 0 ==> vstd::utf8::encode_utf8(r.name@)
                == crate::raw::string_bytes(node.bytes(), node.spec_record().name),
            node.spec_record().ty.len == 0 ==> r.ty@.len() == 0,
            node.spec_record().ty.len != 0 ==> vstd::utf8::encode_utf8(r.ty@)
                == crate::raw::string_bytes(node.bytes(), node.spec_record().ty),
            node_copies(r, node.bytes(), node.position()),
        decreases crate::raw::nodes_len_of(node.bytes()) - node.position(),
    {
        // The position bounds the recursion: children come after their parent.
        let _position = node.raw_index();
        let name = match node.name() {
            Some(n) => owned(n),
            None => String::new(),
        };
        let ty = match node.ty() {
            Some(t) => owned(t),
            None => String::new(),
        };
        let args = node.args();
        let n_args = args.len();
        let mut out_args: Vec<Arg> = Vec::new();
        let mut j: usize = 0;
        while j < n_args
            invariant
                j <= n_args,
                n_args == args.range().len,
                args.bytes() == node.bytes(),
                args.range() == node.spec_record().args,
                out_args@.len() == j,
                forall|j2: int|
                    0 <= j2 < j ==> #[trigger] arg_copied_from(
                        out_args@[j2],
                        node.bytes(),
                        args.range().start + j2,
                    ),
            decreases n_args - j,
        {
            match args.get_by_index(j) {
                Some(a) => {
                    let copy = Arg::from_document(a);
                    let ghost prev = out_args@;
                    out_args.push(copy);
                    assert forall|j2: int| 0 <= j2 < j implies #[trigger] arg_copied_from(
                        out_args@[j2],
                        node.bytes(),
                        args.range().start + j2,
                    ) by {
                        assert(out_args@[j2] == prev[j2]);
                    }
                    assert(crate::document::arg_reads_as(a, node.bytes(), args.range().start + j)
                        && arg_copies(out_args@[j as int], a));
                    assert(arg_copied_from(out_args@[j as int], node.bytes(), args.range().start + j));
                },
                None => {},
            }
            j = j + 1;
        }
        let children = node.children();
        let n_children = children.len();
        let mut out_children: Vec<Node> = Vec::new();
        let mut k: usize = 0;
        while k < n_children
            invariant
                k <= n_children,
                n_children == children.range().len,
                children.bytes() == node.bytes(),
                children.range().len == 0 || children.range().start > node.position(),
                children.range().start + children.range().len <= crate::raw::nodes_len_of(
                    node.bytes(),
                ),
                children.range() == node.spec_record().children,
                out_children@.len() == k,
                forall|k2: int|
                    0 <= k2 < k ==> node_copies(
                        #[trigger] out_children@[k2],
                        node.bytes(),
                        children.range().start + k2,
                    ),
            decreases n_children - k,
        {
            match children.get_by_index(k) {
                Some(c) => out_children.push(Node::from_document(c)),
                None => {},
            }
            k = k + 1;
        }
        let r = Node { children: out_children, args: out_args, name, ty };
        assert(r.args@.len() == node.spec_record().args.len);
        assert(r.children@.len() == node.spec_record().children.len);
        assert(forall|k2: int|
            0 <= k2 < r.children@.len() ==> node_copies(
                #[trigger] r.children@[k2],
                node.bytes(),
                node.spec_record().children.start + k2,
            ));
        assert(node_copies(r, node.bytes(), node.position()));
        r
    }

    /// A node without name, type, arguments or children.
    pub fn empty() -> (r: Node)
        ensures
            r.children@.len() == 0,
            r.args@.len() == 0,
            r.name@.len() == 0,
            r.ty@.len() == 0,
    {
        Node { children: Vec::new(), args: Vec::new(), name: String::new(), ty: String::new() }
    }

    /// The node has no name, type, arguments or children.
    pub open spec fn spec_is_empty(&self) -> bool {
        self.children@.len() == 0 && self.args@.len() == 0 && self.name@.len() == 0
            && self.ty@.len() == 0
    }

    /// The node has no name, type, arguments or children.
    pub fn is_empty(&self) -> (r: bool)
        ensures
            r == self.spec_is_empty(),
    {
        self.children.len() == 0 && self.args.len() == 0 && self.name.as_str().is_empty()
            && self.ty.as_str().is_empty()
    }

    /// A node with the given arguments.
    pub fn from_args(args: Vec<Arg>) -> (r: Node)
        ensures
            r.args == args,
            r.children@.len() == 0,
            r.name@.len() == 0,
            r.ty@.len() == 0,
    {
        Node { children: Vec::new(), args, name: String::new(), ty: String::new() }
    }

    /// A node with the given children.
    pub fn from_children(children: Vec<Node>) -> (r: Node)
        ensures
            r.children == children,
            r.args@.len() == 0,
            r.name@.len() == 0,
            r.ty@.len() == 0,
    {
        Node { children, args: Vec::new(), name: String::new(), ty: String::new() }
    }

    /// The name; empty when the node has none.
    pub fn name(&self) -> (r: &str)
        ensures
            r@ == self.name@,
    {
        self.name.as_str()
    }

    /// The type tag; empty when the node has none.
    pub fn ty(&self) -> (r: &str)
        ensures
            r@ == self.ty@,
    {
        self.ty.as_str()
    }

    pub fn children(&self) -> (r: &Vec<Node>)
        ensures
            *r == self.children,
    {
        &self.children
    }

    pub fn args(&self) -> (r: &Vec<Arg>)
        ensures
            *r == self.args,
    {
        &self.args
    }

    /// Replace the children.
    pub fn set_children(&mut self, children: Vec<Node>)
        ensures
            final(self).children == children,
            final(self).args == old(self).args,
            final(self).name == old(self).name,
            final(self).ty == old(self).ty,
    {
        self.children = children;
    }

    /// Replace the arguments.
    pub fn set_args(&mut self, args: Vec<Arg>)
        ensures
            final(self).args == args,
            final(self).children == old(self).children,
            final(self).name == old(self).name,
            final(self).ty == old(self).ty,
    {
        self.args = args;
    }

    /// This node with the type tag `ty`.
    pub fn with_ty(self, ty: &str) -> (r: Node)
        ensures
            r.ty@ == ty@,
            r.name == self.name,
            r.args == self.args,
            r.children == self.children,
    {
        let mut node = self;
        node.set_ty(ty);
        node
    }

    /// Insert a child at position `index`.
    pub fn insert_child(&mut self, index: usize, child: Node)
        requires
            index <= old(self).children@.len(),
        ensures
            final(self).children@ == old(self).children@.insert(index as int, child),
            final(self).args == old(self).args,
            final(self).name == old(self).name,
            final(self).ty == old(self).ty,
    {
        self.children.insert(index, child);
    }

    pub fn set_name(&mut self, name: &str)
        ensures
            final(self).name@ == name@,
            final(self).ty == old(self).ty,
            final(self).args == old(self).args,
            final(self).children == old(self).children,
    {
        self.name = name.to_owned();
    }

    pub fn set_ty(&mut self, ty: &str)
        ensures
            final(self).ty@ == ty@,
            final(self).name == old(self).name,
            final(self).args == old(self).args,
            final(self).children == old(self).children,
    {
        self.ty = ty.to_owned();
    }

    /// Push an argument.
    pub fn push_arg(&mut self, arg: Arg)
        ensures
            final(self).args@ == old(self).args@.push(arg),
            final(self).children == old(self).children,
            final(self).name == old(self).name,
            final(self).ty == old(self).ty,
    {
        self.args.push(arg);
    }

    /// Push an unnamed argument.
    pub fn push_unnamed_arg(&mut self, value: Value)
        ensures
            final(self).args@.len() == old(self).args@.len() + 1,
            final(self).args@.drop_last() == old(self).args@,
            final(self).args@.last().name is None,
            final(self).args@.last().value == value,
            final(self).children == old(self).children,
            final(self).name == old(self).name,
            final(self).ty == old(self).ty,
    {
        self.push_arg(Arg::unnamed(value));
        assert(self.args@.drop_last() =~= old(self).args@);
    }

    /// Push a named argument.
    pub fn push_named_arg(&mut self, name: &str, value: Value)
        ensures
            final(self).args@.len() == old(self).args@.len() + 1,
            final(self).args@.drop_last() == old(self).args@,
            final(self).args@.last().name matches Some(n) && n@ == name@,
            final(self).args@.last().value == value,
            final(self).children == old(self).children,
            final(self).name == old(self).name,
            final(self).ty == old(self).ty,
    {
        self.push_arg(Arg::new(name, value));
        assert(self.args@.drop_last() =~= old(self).args@);
    }

    /// Push a child node.
    pub fn push_child(&mut self, child: Node)
        ensures
            final(self).children@ == old(self).children@.push(child),
            final(self).args == old(self).args,
            final(self).name == old(self).name,
            final(self).ty == old(self).ty,
    {
        self.children.push(child);
    }

    /// Push a key-value child: a node named `name` whose single unnamed
    /// argument is `value`.
    pub fn push_named(&mut self, name: &str, value: Value)
        ensures
            final(self).children@.len() == old(self).children@.len() + 1,
            final(self).children@.drop_last() == old(self).children@,
            final(self).children@.last().name@ == name@,
            final(self).children@.last().args@.len() == 1,
            final(self).children@.last().args@[0].value == value,
            final(self).children@.last().children@.len() == 0,
            final(self).args == old(self).args,
    {
        let child = Arg::new(name, value).into_key_value_node();
        self.push_child(child);
        assert(self.children@.drop_last() =~= old(self).children@);
    }

    /// Name `child` and push it.
    pub fn push_named_with(&mut self, name: &str, child: Node)
        ensures
            final(self).children@.len() == old(self).children@.len() + 1,
            final(self).children@.drop_last() == old(self).children@,
            final(self).children@.last().name@ == name@,
            final(self).children@.last().args == child.args,
            final(self).children@.last().children == child.children,
            final(self).children@.last().ty == child.ty,
            final(self).args == old(self).args,
    {
        let mut child = child;
        child.set_name(name);
        self.push_child(child);
        assert(self.children@.drop_last() =~= old(self).children@);
    }

    /// Push an unnamed value while keeping arguments and children in order:
    /// while the node has no child the value is pushed as an argument;
    /// otherwise the arguments become key-value children, in order, and the
    /// value follows them as a key-value child too.
    pub fn push_ordered_value(&mut self, value: Value)
        ensures
            final(self).name == old(self).name,
            final(self).ty == old(self).ty,
            old(self).children@.len() == 0 ==> final(self).args@ == old(self).args@.push(
                Arg { name: None, value },
            ) && final(self).children@.len() == 0,
            old(self).children@.len() != 0 ==> {
                &&& final(self).args@.len() == 0
                &&& args_became_children(old(self).children@, old(self).args@, final(self).children@.drop_last())
                &&& final(self).children@.len() == old(self).children@.len() + old(self).args@.len() + 1
                &&& key_value_node_of(final(self).children@.last(), Arg { name: None, value })
            },
    {
        if self.children.len() == 0 {
            self.push_arg(Arg { name: None, value });
        } else {
            self.args_to_children();
            let ghost before = self.children@;
            let arg = Arg { name: None, value };
            self.push_child(arg.into_key_value_node());
            assert(self.children@.drop_last() =~= before);
        }
    }

    /// Push a child while keeping arguments and children in order: the
    /// existing arguments become key-value children first, in order.
    pub fn push_ordered_child(&mut self, child: Node)
        ensures
            final(self).name == old(self).name,
            final(self).ty == old(self).ty,
            final(self).args@.len() == 0,
            args_became_children(old(self).children@, old(self).args@, final(self).children@.drop_last()),
            final(self).children@.len() == old(self).children@.len() + old(self).args@.len() + 1,
            final(self).children@.last() == child,
    {
        self.args_to_children();
        let ghost before = self.children@;
        self.push_child(child);
        assert(self.children@.drop_last() =~= before);
    }

    /// Turn every argument into a key-value child, in order.
    fn args_to_children(&mut self)
        ensures
            final(self).name == old(self).name,
            final(self).ty == old(self).ty,
            final(self).args@.len() == 0,
            args_became_children(old(self).children@, old(self).args@, final(self).children@),
    {
        let mut args: Vec<Arg> = Vec::new();
        core::mem::swap(&mut args, &mut self.args);
        let ghost old_args = args@;
        let n = args.len();
        let mut i: usize = 0;
        while i < n
            invariant
                n == args@.len(),
                n == old_args.len(),
                old_args == old(self).args@,
                i <= n,
                forall|k: int| i <= k < n ==> args@[k] == old_args[k],
                self.args@.len() == 0,
                self.name == old(self).name,
                self.ty == old(self).ty,
                self.children@.len() == old(self).children@.len() + i,
                forall|k: int| 0 <= k < old(self).children@.len() ==> self.children@[k] == old(self).children@[k],
                forall|k: int|
                    0 <= k < i ==> key_value_node_of(
                        #[trigger] self.children@[old(self).children@.len() + k],
                        old_args[k],
                    ),
            decreases n - i,
        {
            let mut arg = Arg { name: None, value: Value::Null };
            core::mem::swap(&mut arg, &mut args[i]);
            self.children.push(arg.into_key_value_node());
            i = i + 1;
        }
    }

    /// Whether some argument is named `name`.
    pub fn contains_named_argument(&self, name: &str) -> (r: bool)
        ensures
            r == exists|i: int|
                0 <= i < self.args@.len() && ((#[trigger] self.args@[i]).name matches Some(n)
                    && n@ == name@),
    {
        let mut i: usize = 0;
        while i < self.args.len()
            invariant
                i <= self.args@.len(),
                forall|k: int|
                    0 <= k < i ==> !((#[trigger] self.args@[k]).name matches Some(n) && n@
                        == name@),
            decreases self.args@.len() - i,
        {
            match &self.args[i].name {
                Some(n) => {
                    if str_eq(n.as_str(), name) {
                        return true;
                    }
                },
                None => {},
            }
            i = i + 1;
        }
        false
    }
}

/// Equality of two strings, by their bytes.
fn str_eq(a: &str, b: &str) -> (r: bool)
    ensures
        r == (a@ == b@),
{
    let x = a.as_bytes();
    let y = b.as_bytes();
    proof {
        vstd::utf8::encode_utf8_decode_utf8(a@);
        vstd::utf8::encode_utf8_decode_utf8(b@);
    }
    assert(x@ == vstd::utf8::encode_utf8(a@));
    assert(y@ == vstd::utf8::encode_utf8(b@));
    if x.len() != y.len() {
        return false;
    }
    let mut i: usize = 0;
    while i < x.len()
        invariant
            x@.len() == y@.len(),
            x@ == vstd::utf8::encode_utf8(a@),
            y@ == vstd::utf8::encode_utf8(b@),
            vstd::utf8::decode_utf8(vstd::utf8::encode_utf8(a@)) == a@,
            vstd::utf8::decode_utf8(vstd::utf8::encode_utf8(b@)) == b@,
            i <= x@.len(),
            forall|k: int| 0 <= k < i ==> x@[k] == y@[k],
        decreases x@.len() - i,
    {
        if x[i] != y[i] {
            assert(x@[i as int] != y@[i as int]);
            return false;
        }
        i = i + 1;
    }
    assert(x@ =~= y@);
    true
}

/// Builder of documents: a tree under construction and the interning limit
/// to build it with.
#[derive(Debug)]
pub struct Builder {
    root: Node,
    auto_intern_limit: usize,
}

/// Storage that repeated builds can share.
pub struct BuildCache {
    raw: RawBuilder,
}

impl BuildCache {
    /// The cache holds no nodes, arguments, strings or binary data.
    pub closed spec fn is_clear(&self) -> bool {
        &&& self.raw.spec_nodes().len() == 0
        &&& self.raw.spec_args().len() == 0
        &&& self.raw.spec_strings().buffer.len() == 0
        &&& self.raw.spec_binary().len() == 0
    }

    pub fn new() -> (r: BuildCache)
        ensures
            r.is_clear(),
    {
        BuildCache { raw: RawBuilder::new() }
    }

    /// Clear the contents, keeping the storage.
    pub fn reset(&mut self)
        ensures
            final(self).is_clear(),
    {
        self.raw.clear();
    }

    /// Release the storage.
    pub fn deallocate(&mut self)
        ensures
            final(self).is_clear(),
    {
        self.raw = RawBuilder::new();
    }
}

impl Builder {
    /// A builder with an empty tree; strings of up to 128 bytes are interned.
    pub fn new() -> (r: Builder)
        ensures
            r.spec_root().children@.len() == 0,
            r.spec_root().args@.len() == 0,
            r.spec_root().name@.len() == 0,
            r.spec_root().ty@.len() == 0,
            r.spec_auto_intern_limit() == 128,
    {
        Builder { root: Node::empty(), auto_intern_limit: 128 }
    }

    /// A builder holding an owned copy of a document's tree.
    pub fn from_document(doc: &Document) -> (r: Builder)
        ensures
            r.spec_auto_intern_limit() == 128,
            node_copies(r.spec_root(), doc.view(), crate::document::root_index(doc.view())),
    {
        let root = Node::from_document(doc.root());
        Builder { root, auto_intern_limit: 128 }
    }

    pub closed spec fn spec_root(&self) -> Node {
        self.root
    }

    pub closed spec fn spec_auto_intern_limit(&self) -> usize {
        self.auto_intern_limit
    }

    pub fn root(&self) -> (r: &Node)
        ensures
            *r == self.spec_root(),
    {
        &self.root
    }

    /// Replace the tree.
    pub fn set_root(&mut self, root: Node)
        ensures
            final(self).spec_root() == root,
            final(self).spec_auto_intern_limit() == old(self).spec_auto_intern_limit(),
    {
        self.root = root;
    }

    /// Empty the tree.
    pub fn clear(&mut self)
        ensures
            final(self).spec_root().children@.len() == 0,
            final(self).spec_root().args@.len() == 0,
            final(self).spec_root().name@.len() == 0,
            final(self).spec_root().ty@.len() == 0,
            final(self).spec_auto_intern_limit() == old(self).spec_auto_intern_limit(),
    {
        self.root = Node::empty();
    }

    pub fn auto_intern_limit(&self) -> (r: usize)
        ensures
            r == self.spec_auto_intern_limit(),
    {
        self.auto_intern_limit
    }

    /// Strings of at most `limit` bytes are shared.
    pub fn set_auto_intern_limit(&mut self, limit: usize)
        ensures
            final(self).spec_auto_intern_limit() == limit,
            final(self).spec_root() == old(self).spec_root(),
    {
        self.auto_intern_limit = limit;
    }

    /// Serialize the tree. An entirely empty tree is the empty document.
    /// The buffer needs no validation: it is valid by construction.
    pub fn build(&self) -> (r: Result<DocumentBuffer, BuildError>)
        ensures
            crate::codec::HEADER_SIZE + tree_size(self.spec_root()) <= u32::MAX ==> r is Ok,
            r matches Ok(d) ==> valid_document(d.view()),
            !self.spec_root().spec_is_empty() ==> (r matches Ok(d) ==> reads_back(
                d.view(),
                self.spec_root(),
            )),
            self.spec_root().children@.len() == 0 && self.spec_root().args@.len() == 0
                && self.spec_root().name@.len() == 0 && self.spec_root().ty@.len() == 0 ==> (
            r matches Ok(d) && d.view().len() == 0),
    {
        let mut cache = BuildCache::new();
        self.build_with_cache(&mut cache)
    }

    /// Serialize the tree, reusing the storage of `cache`.
    pub fn build_with_cache(&self, cache: &mut BuildCache) -> (r: Result<DocumentBuffer, BuildError>)
        ensures
            crate::codec::HEADER_SIZE + tree_size(self.spec_root()) <= u32::MAX ==> r is Ok,
            r matches Ok(d) ==> valid_document(d.view()),
            !self.spec_root().spec_is_empty() ==> (r matches Ok(d) ==> reads_back(
                d.view(),
                self.spec_root(),
            )),
            self.spec_root().children@.len() == 0 && self.spec_root().args@.len() == 0
                && self.spec_root().name@.len() == 0 && self.spec_root().ty@.len() == 0 ==> (
            r matches Ok(d) && d.view().len() == 0),
    {
        if self.root.is_empty() {
            return Ok(DocumentBuffer::empty());
        }
        cache.raw.set_limit(self.auto_intern_limit);
        match cache.raw.set_root(&self.root) {
            Err(e) => Err(e),
            Ok(()) => {
                proof {
                    if self.root.name@.len() > 0 {
                        lemma_encode_nonempty(self.root.name@);
                    }
                    if self.root.ty@.len() > 0 {
                        lemma_encode_nonempty(self.root.ty@);
                    }
                    assert(cache.raw.spec_nodes()[0] != crate::codec::spec_empty_node());
                }
                cache.raw.build()
            },
        }
    }
}

} // verus!
