use zdoc::builder::{Builder, Node, Value};
use zdoc::codec::{self, ArgRange, Header, NodeRange, StringRange};
use zdoc::{Entry, ValueRef};

#[test]
fn builder_empty() {
    let doc = Builder::new().build().unwrap();
    let doc = doc.as_document();
    assert!(doc.is_empty());
    assert!(doc.as_bytes().is_empty());
}

#[test]
fn serde_support_unit() {
    // The unit value is the empty tree: it serializes to no bytes at all.
    let doc = Builder::new().build().unwrap();
    let doc = doc.as_document();
    assert_eq!(doc.as_bytes().len(), 0);
    assert!(doc.is_empty());
}

#[test]
fn named_root() {
    let mut builder = Builder::new();
    let mut root = Node::empty();
    root.set_name("root");
    builder.set_root(root);
    let buffer = builder.build().unwrap();
    let doc = buffer.as_document();
    assert!(!doc.is_empty());
    let header_size = codec::HEADER_SIZE;
    let node_size = codec::NODE_SIZE;
    assert_eq!(
        doc.header(),
        Header {
            magic: codec::MAGIC,
            version: codec::VERSION,
            root_node_index: 0,
            size: (header_size + node_size + 4) as u32,
            nodes_offset: header_size as u32,
            nodes_len: 1,
            args_offset: (header_size + node_size) as u32,
            args_len: 0,
            strings_offset: (header_size + node_size) as u32,
            strings_len: 4,
            binary_offset: (header_size + node_size + 4) as u32,
            binary_len: 0,
            reserved1: 0,
            reserved2: 0,
            reserved3: 0,
        }
    );
    let bytes = doc.as_bytes();

    let nodes = doc.nodes();
    assert_eq!(nodes.len(), 1);
    assert_eq!(
        nodes[0],
        codec::Node {
            args: ArgRange::empty(),
            children: NodeRange::empty(),
            name: StringRange { start: 0, len: 4 },
            ty: StringRange::empty(),
        }
    );

    let strings_start = header_size + node_size;
    let strings_end = strings_start + 4;
    let strings = core::str::from_utf8(&bytes[strings_start..strings_end]).unwrap();

    assert_eq!(strings, "root");
    assert_eq!(doc.root().name(), Some("root"));
}

#[test]
fn dictionary() {
    let mut root = Node::empty();
    root.push_named("key1", Value::Int(123));
    let mut dict = Node::empty();
    dict.push_named("key", Value::Int(456));
    root.push_named_with("dict", dict);
    let mut list = Node::empty();
    list.push_unnamed_arg(Value::Int(789));
    list.push_unnamed_arg(Value::Int(0));
    root.push_named_with("list", list);
    let mut builder = Builder::new();
    builder.set_root(root);
    let buffer = builder.build().unwrap();
    let doc = buffer.as_document();

    let nodes = doc.nodes();
    assert_eq!(nodes.len(), 5);
    let root = doc.root();
    assert_eq!(root.raw_index(), 0);
    assert_eq!(root.children().len(), 3);
    assert!(root.is_dictionary_like());
    assert_eq!(root.name(), None);

    let key1 = root.get("key1").unwrap();
    assert_eq!(key1.name(), Some("key1"));
    assert_eq!(key1.value(), Some(ValueRef::Int(123)));

    let key1 = root.children().get_by_index(0).unwrap();
    assert_eq!(key1.name(), Some("key1"));
    assert_eq!(key1.value(), Some(ValueRef::Int(123)));

    let dict = root.children().get_by_name("dict").unwrap();
    assert_eq!(dict.name(), Some("dict"));
    assert_eq!(dict.children().len(), 1);
    assert_eq!(dict.value(), None);
    let dict_key = dict.get("key").unwrap();
    assert_eq!(dict_key.value(), Some(ValueRef::Int(456)));

    let list = root.children().get_by_name("list").unwrap();
    assert_eq!(list.children().len(), 0);
    assert_eq!(list.name(), Some("list"));
    assert_eq!(list.args().get_by_index(0).unwrap().value, ValueRef::Int(789));
    assert_eq!(list.args().get_by_index(1).unwrap().value, ValueRef::Int(0));
    assert!(matches!(root.get("dict"), Some(Entry::Child(_))));
}
