use zdoc::builder::{Arg, BuildError, Builder, Node, Value};
use zdoc::codec::{self, Header, RawValue, StringRange, Value as Encoded};
use zdoc::{ClassifyNode, Document, DocumentBuffer, Entry, IndexOrString, ValidationError, ValidationErrorKind, ValueRef};

fn build(root: Node) -> DocumentBuffer {
    let mut builder = Builder::new();
    builder.set_root(root);
    builder.build().unwrap()
}

fn sample_tree() -> Node {
    let mut root = Node::empty();
    root.set_ty("Root");
    root.push_named_arg("key", Value::String("value".to_string()));
    root.push_unnamed_arg(Value::Bool(true));
    root.push_unnamed_arg(Value::Uint(u64::MAX));
    root.push_unnamed_arg(Value::Float(1.5f64.to_bits()));
    root.push_unnamed_arg(Value::Binary(vec![1, 2, 3]));
    root.push_unnamed_arg(Value::Null);
    root.push_unnamed_arg(Value::Int(-7));
    let mut child = Node::empty();
    child.set_name("child");
    child.push_unnamed_arg(Value::Int(123));
    let mut grandchild = Node::empty();
    grandchild.set_ty("Leaf");
    child.push_child(grandchild);
    root.push_child(child);
    root
}

#[test]
fn round_trip_reads_back_the_tree() {
    let buffer = build(sample_tree());
    // The buffer passes validation on its own.
    let bytes = buffer.as_document().as_bytes().to_vec();
    let doc = Document::from_slice(&bytes).unwrap();
    let root = doc.root();
    assert_eq!(root.name(), None);
    assert_eq!(root.ty(), Some("Root"));
    let args = root.args();
    assert_eq!(args.len(), 7);
    let a0 = args.get_by_index(0).unwrap();
    assert_eq!(a0.name, Some("key"));
    assert_eq!(a0.value, ValueRef::String("value"));
    assert_eq!(args.get_by_index(1).unwrap().value, ValueRef::Bool(true));
    assert_eq!(args.get_by_index(2).unwrap().value, ValueRef::Uint(u64::MAX));
    assert_eq!(args.get_by_index(3).unwrap().value, ValueRef::Float(1.5f64.to_bits()));
    assert_eq!(args.get_by_index(4).unwrap().value, ValueRef::Binary(&[1, 2, 3]));
    assert_eq!(args.get_by_index(5).unwrap().value, ValueRef::Null);
    assert_eq!(args.get_by_index(6).unwrap().value, ValueRef::Int(-7));
    assert_eq!(args.get_by_index(6).unwrap().name, None);
    assert!(args.get_by_index(7).is_none());
    let children = root.children();
    assert_eq!(children.len(), 1);
    let child = children.get_by_index(0).unwrap();
    assert_eq!(child.name(), Some("child"));
    assert_eq!(child.value(), Some(ValueRef::Int(123)));
    let leaf = child.children().get_by_index(0).unwrap();
    assert_eq!(leaf.ty(), Some("Leaf"));
    assert_eq!(leaf.name(), None);
    assert!(leaf.is_empty());
}

#[test]
fn children_come_after_their_parent() {
    let buffer = build(sample_tree());
    let doc = buffer.as_document();
    for (index, node) in doc.nodes().iter().enumerate() {
        assert!(node.children.len == 0 || node.children.start as usize > index);
    }
}

#[test]
fn short_strings_are_interned() {
    let mut root = Node::empty();
    root.push_unnamed_arg(Value::String("same".to_string()));
    root.push_unnamed_arg(Value::String("same".to_string()));
    let buffer = build(root);
    let doc = buffer.as_document();
    assert_eq!(doc.header().strings_len, 4);
    let args = doc.args();
    assert_eq!(args[0].value, args[1].value);
}

#[test]
fn long_strings_are_copied() {
    let long = "x".repeat(129);
    let at_limit = "y".repeat(128);
    let mut root = Node::empty();
    root.push_unnamed_arg(Value::String(long.clone()));
    root.push_unnamed_arg(Value::String(long.clone()));
    root.push_unnamed_arg(Value::String(at_limit.clone()));
    root.push_unnamed_arg(Value::String(at_limit.clone()));
    let buffer = build(root);
    let doc = buffer.as_document();
    assert_eq!(doc.header().strings_len, 129 * 2 + 128);
    let args = doc.args();
    assert_ne!(args[0].value, args[1].value);
    assert_eq!(args[2].value, args[3].value);
    let root = doc.root();
    assert_eq!(root.args().get_by_index(1).unwrap().value, ValueRef::String(&long));
}

#[test]
fn interning_limit_is_configurable() {
    let mut root = Node::empty();
    root.push_unnamed_arg(Value::String("abc".to_string()));
    root.push_unnamed_arg(Value::String("abc".to_string()));
    let mut builder = Builder::new();
    assert_eq!(builder.auto_intern_limit(), 128);
    builder.set_auto_intern_limit(2);
    builder.set_root(root);
    let buffer = builder.build().unwrap();
    assert_eq!(buffer.as_document().header().strings_len, 6);
}

#[test]
fn zero_length_buffer_is_the_empty_document() {
    let doc = Document::from_slice(&[]).unwrap();
    assert!(doc.is_empty());
    assert_eq!(doc.header(), Header::default());
    let root = doc.root();
    assert_eq!(root.name(), None);
    assert!(root.is_empty());
    assert_eq!(root.classify(), ClassifyNode::Unit);
}

#[test]
fn short_buffer_is_a_size_error() {
    let err = Document::from_slice(&[1, 2, 3]).err();
    assert_eq!(err, Some(ValidationError { offset: 16, error: ValidationErrorKind::HeaderSize }));
}

#[test]
fn declared_size_must_match() {
    let buffer = build(sample_tree());
    let mut bytes = buffer.as_document().as_bytes().to_vec();
    bytes.push(0);
    let err = Document::from_slice(&bytes).err();
    assert_eq!(err, Some(ValidationError { offset: 16, error: ValidationErrorKind::HeaderSize }));
}

#[test]
fn corrupt_reserved_field() {
    let buffer = build(sample_tree());
    let mut bytes = buffer.as_document().as_bytes().to_vec();
    bytes[52] = 1;
    let err = Document::from_slice(&bytes).err();
    assert_eq!(
        err,
        Some(ValidationError { offset: 52, error: ValidationErrorKind::HeaderReservedFieldsMustBeZero })
    );
}

#[test]
fn corrupt_string_blob() {
    let mut root = Node::empty();
    root.set_name("root");
    let buffer = build(root);
    let mut bytes = buffer.as_document().as_bytes().to_vec();
    let strings_offset = buffer.as_document().header().strings_offset as usize;
    bytes[strings_offset + 1] = 0xFF;
    let err = Document::from_slice(&bytes).err();
    assert_eq!(
        err,
        Some(ValidationError { offset: strings_offset, error: ValidationErrorKind::InvalidUtf8 })
    );
}

#[test]
fn string_range_splitting_a_character_is_rejected() {
    let mut root = Node::empty();
    root.set_name("é");
    let buffer = build(root);
    let mut bytes = buffer.as_document().as_bytes().to_vec();
    // name length field of the root node: 2 bytes -> 1 byte
    bytes[64 + 20] = 1;
    let err = Document::from_slice(&bytes).err();
    assert_eq!(err, Some(ValidationError { offset: 64 + 16, error: ValidationErrorKind::InvalidUtf8 }));
}

#[test]
fn invalid_value_tag() {
    let mut root = Node::empty();
    root.push_unnamed_arg(Value::Int(5));
    let buffer = build(root);
    let mut bytes = buffer.as_document().as_bytes().to_vec();
    let args_offset = buffer.as_document().header().args_offset as usize;
    bytes[args_offset + 8] = 9;
    let err = Document::from_slice(&bytes).err();
    assert_eq!(
        err,
        Some(ValidationError { offset: args_offset + 8, error: ValidationErrorKind::InvalidArgumentType })
    );
}

#[test]
fn binary_out_of_bounds() {
    let mut root = Node::empty();
    root.push_unnamed_arg(Value::Binary(vec![1, 2]));
    let buffer = build(root);
    let mut bytes = buffer.as_document().as_bytes().to_vec();
    let args_offset = buffer.as_document().header().args_offset as usize;
    // binary length: 2 -> 3
    bytes[args_offset + 16] = 3;
    let err = Document::from_slice(&bytes).err();
    assert_eq!(
        err,
        Some(ValidationError { offset: args_offset + 12, error: ValidationErrorKind::BinaryOutOfBounds })
    );
}

#[test]
fn string_out_of_bounds() {
    let mut root = Node::empty();
    root.set_name("ab");
    let buffer = build(root);
    let mut bytes = buffer.as_document().as_bytes().to_vec();
    bytes[64 + 20] = 3;
    let err = Document::from_slice(&bytes).err();
    assert_eq!(err, Some(ValidationError { offset: 64 + 16, error: ValidationErrorKind::StringOutOfBounds }));
}

#[test]
fn last_duplicate_name_wins() {
    let mut root = Node::empty();
    root.push_named_arg("k", Value::Int(1));
    root.push_named_arg("k", Value::Int(2));
    root.push_named("c", Value::Int(3));
    root.push_named("c", Value::Int(4));
    let buffer = build(root);
    let doc = buffer.as_document();
    let root = doc.root();
    assert_eq!(root.args().get_by_name("k").unwrap().value, ValueRef::Int(2));
    assert_eq!(root.children().get_by_name("c").unwrap().value(), Some(ValueRef::Int(4)));
    assert_eq!(root.children().get(IndexOrString::String("c")).unwrap().raw_index(), 2);
    assert!(root.children().get_by_name("missing").is_none());
    assert!(root.args().get_by_name("").is_none());
    assert!(matches!(root.get("k"), Some(Entry::Arg(_))));
    assert!(root.get("nothing").is_none());
}

#[test]
fn classification_of_nodes() {
    let mut seq = Node::empty();
    seq.push_unnamed_arg(Value::Int(1));
    seq.push_unnamed_arg(Value::Int(2));
    let buffer = build(seq);
    assert_eq!(buffer.as_document().root().classify(), ClassifyNode::Sequence);
    assert!(buffer.as_document().root().is_list_like());

    let mut single = Node::empty();
    single.set_ty("T");
    single.push_unnamed_arg(Value::Int(1));
    let buffer = build(single);
    assert_eq!(buffer.as_document().root().classify(), ClassifyNode::ValueVariant);

    let mut mixed = Node::empty();
    mixed.push_named_arg("a", Value::Int(1));
    mixed.push_unnamed_arg(Value::Int(2));
    let buffer = build(mixed);
    assert!(buffer.as_document().root().is_mixed());
    assert!(ClassifyNode::Mixed.is_dictionary_like());
    assert!(!ClassifyNode::Struct.is_list_like());
    assert!(!ClassifyNode::Sequence.is_dictionary_like());
}

#[test]
fn get_string_checks_its_range() {
    let mut root = Node::empty();
    root.set_name("root");
    let buffer = build(root);
    let doc = buffer.as_document();
    assert_eq!(doc.get_string(StringRange { start: 1, len: 3 }), Some("oot"));
    assert_eq!(doc.get_string(StringRange { start: 2, len: 3 }), None);
}

#[test]
fn ordered_push_keeps_order() {
    let mut node = Node::empty();
    node.push_ordered_value(Value::Int(1));
    assert_eq!(node.args.len(), 1);
    node.push_ordered_child(Node::empty());
    assert_eq!(node.args.len(), 0);
    assert_eq!(node.children.len(), 2);
    node.push_ordered_value(Value::Int(2));
    assert_eq!(node.children.len(), 3);
    assert!(!node.contains_named_argument("a"));
    node.push_arg(Arg::new("a", Value::Null));
    assert!(node.contains_named_argument("a"));
}

#[test]
fn document_copied_back_into_a_builder_rebuilds_the_same_bytes() {
    let buffer = build(sample_tree());
    let doc = buffer.as_document();
    let copy = Builder::from_document(&doc);
    let rebuilt = copy.build().unwrap();
    assert_eq!(rebuilt.as_document().as_bytes(), doc.as_bytes());
    assert_eq!(copy.root().args().len(), 7);
    assert_eq!(copy.root().ty(), "Root");
}

#[test]
fn inserted_children_keep_their_positions() {
    // Building only fails for resource exhaustion; a small tree builds.
    let mut root = Node::empty();
    root.insert_child(0, Node::empty().with_ty("A"));
    root.insert_child(0, Node::from_args(vec![Arg::unnamed(Value::Int(1))]));
    let buffer = build(root);
    let doc = buffer.as_document();
    let root = doc.root();
    assert_eq!(root.children().get_by_index(0).unwrap().value(), Some(ValueRef::Int(1)));
    assert_eq!(root.children().get_by_index(1).unwrap().ty(), Some("A"));
    let result: Result<DocumentBuffer, BuildError> = Builder::new().build();
    assert!(result.is_ok());
}

#[test]
fn value_codec_round_trip() {
    let values = [
        RawValue::Null,
        RawValue::Bool(true),
        RawValue::Bool(false),
        RawValue::Int(-1),
        RawValue::Uint(7),
        RawValue::Float(2.5f64.to_bits()),
        RawValue::String(StringRange { start: 3, len: 9 }),
    ];
    for v in values {
        assert_eq!(RawValue::try_from_value(Encoded::from_raw(v)), Ok(v));
    }
    assert_eq!(
        RawValue::try_from_value(Encoded { ty: 7, payload: 0 }),
        Err(ValidationErrorKind::InvalidArgumentType)
    );
}

#[test]
fn iterators_yield_in_order_after_the_parent() {
    let buffer = build(sample_tree());
    let doc = buffer.as_document();
    let root = doc.root();
    let mut children = root.children().iter();
    assert_eq!(children.len(), 1);
    let child = children.next().unwrap();
    assert!(child.raw_index() > root.raw_index());
    assert!(children.next().is_none());
    let mut args = root.args().iter();
    assert_eq!(args.next_back().unwrap().value, ValueRef::Int(-7));
    assert_eq!(args.next().unwrap().name, Some("key"));
    assert_eq!(args.len(), 5);
    let mut entries = root.entries();
    assert_eq!(entries.len(), 8);
    for _ in 0..7 {
        assert!(matches!(entries.next(), Some(Entry::Arg(_))));
    }
    assert!(matches!(entries.next(), Some(Entry::Child(_))));
    assert!(entries.next().is_none());
}
