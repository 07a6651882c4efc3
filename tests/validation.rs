use zdoc::codec::{ArgRange, Header, Node, NodeRange, StringRange};
use zdoc::{Document, ValidationError, ValidationErrorKind};

fn header_bytes(h: Header) -> Vec<u8> {
    h.to_bytes()
}

fn with_header(h: Header, len: usize) -> Vec<u8> {
    let mut buf = vec![0u8; len];
    buf[..64].copy_from_slice(&h.to_bytes());
    buf
}

fn node_bytes(n: Node) -> Vec<u8> {
    let mut v = Vec::new();
    n.encode(&mut v);
    v
}

fn error_of(bytes: &[u8]) -> Option<ValidationError> {
    Document::from_slice(bytes).err()
}

fn at(offset: usize, error: ValidationErrorKind) -> Option<ValidationError> {
    Some(ValidationError { offset, error })
}

#[test]
fn validation_empty() {
    assert_eq!(Document::from_slice(b""), Ok(Document::empty()));
    let empty = [0u8; 64];
    assert_eq!(error_of(&empty), at(0, ValidationErrorKind::HeaderMagic));
}

#[test]
fn validate_header_magic() {
    let bytes = header_bytes(Header { magic: [0; 8], ..Header::default() });
    assert_eq!(error_of(&bytes), at(0, ValidationErrorKind::HeaderMagic));
}

#[test]
fn validate_header_version() {
    let bytes = header_bytes(Header { version: 0, ..Header::default() });
    assert_eq!(error_of(&bytes), at(8, ValidationErrorKind::HeaderVersion(0)));
}

#[test]
fn validate_header_size() {
    let bytes = header_bytes(Header { size: 0, ..Header::default() });
    assert_eq!(error_of(&bytes), at(16, ValidationErrorKind::HeaderSize));
}

#[test]
fn validate_header_root_node_index() {
    let bytes = header_bytes(Header { root_node_index: 1, ..Header::default() });
    assert_eq!(error_of(&bytes), at(12, ValidationErrorKind::HeaderRootNodeOutOfBounds));
}

#[test]
fn validate_header_nodes() {
    let bytes = header_bytes(Header { nodes_offset: 32, ..Header::default() });
    assert_eq!(error_of(&bytes), at(20, ValidationErrorKind::HeaderNodesOffset));

    let bytes = header_bytes(Header { nodes_offset: 65, ..Header::default() });
    assert_eq!(error_of(&bytes), at(20, ValidationErrorKind::HeaderNodesOffset));

    let bytes = header_bytes(Header { nodes_offset: 68, ..Header::default() });
    assert_eq!(error_of(&bytes), at(20, ValidationErrorKind::HeaderNodesOffset));

    let buf = with_header(Header { nodes_offset: 65, size: 96, ..Header::default() }, 96);
    assert_eq!(error_of(&buf), at(20, ValidationErrorKind::HeaderNodesOffset));

    let buf = with_header(
        Header { nodes_offset: 64, nodes_len: 2, size: 96, ..Header::default() },
        96,
    );
    assert_eq!(error_of(&buf), at(24, ValidationErrorKind::HeaderNodesLen));
}

#[test]
fn validate_header_args() {
    let bytes = header_bytes(Header { args_offset: 32, ..Header::default() });
    assert_eq!(error_of(&bytes), at(28, ValidationErrorKind::HeaderArgsOffset));

    let bytes = header_bytes(Header { args_offset: 65, ..Header::default() });
    assert_eq!(error_of(&bytes), at(28, ValidationErrorKind::HeaderArgsOffset));

    let bytes = header_bytes(Header { args_offset: 68, ..Header::default() });
    assert_eq!(error_of(&bytes), at(28, ValidationErrorKind::HeaderArgsOffset));

    let buf = with_header(Header { args_offset: 65, size: 80, ..Header::default() }, 80);
    assert_eq!(error_of(&buf), at(28, ValidationErrorKind::HeaderArgsOffset));

    let buf = with_header(
        Header { args_offset: 64, args_len: 2, size: 80, ..Header::default() },
        80,
    );
    assert_eq!(error_of(&buf), at(32, ValidationErrorKind::HeaderArgsLen));
}

#[test]
fn validate_header_overlap() {
    let buf = with_header(
        Header {
            nodes_offset: 64,
            nodes_len: 1,
            args_offset: 80,
            args_len: 1,
            size: 100,
            ..Header::default()
        },
        100,
    );
    assert_eq!(error_of(&buf), at(28, ValidationErrorKind::HeaderSectionsOverlap));

    let buf = with_header(
        Header {
            nodes_offset: 64,
            nodes_len: 1,
            strings_offset: 64,
            strings_len: 1,
            size: 96,
            ..Header::default()
        },
        96,
    );
    assert_eq!(error_of(&buf), at(36, ValidationErrorKind::HeaderSectionsOverlap));

    let buf = with_header(
        Header {
            nodes_offset: 64,
            nodes_len: 1,
            binary_offset: 64,
            binary_len: 1,
            size: 96,
            ..Header::default()
        },
        96,
    );
    assert_eq!(error_of(&buf), at(44, ValidationErrorKind::HeaderSectionsOverlap));

    let buf = with_header(
        Header {
            args_offset: 64,
            args_len: 1,
            strings_offset: 64,
            strings_len: 1,
            size: 84,
            ..Header::default()
        },
        84,
    );
    assert_eq!(error_of(&buf), at(36, ValidationErrorKind::HeaderSectionsOverlap));

    let buf = with_header(
        Header {
            args_offset: 64,
            args_len: 1,
            binary_offset: 64,
            binary_len: 1,
            size: 84,
            ..Header::default()
        },
        84,
    );
    assert_eq!(error_of(&buf), at(44, ValidationErrorKind::HeaderSectionsOverlap));

    let buf = with_header(
        Header {
            strings_offset: 64,
            strings_len: 1,
            binary_offset: 64,
            binary_len: 1,
            size: 65,
            ..Header::default()
        },
        65,
    );
    assert_eq!(error_of(&buf), at(44, ValidationErrorKind::HeaderSectionsOverlap));
}

#[test]
fn validate_header_reserved() {
    let bytes = header_bytes(Header { reserved1: 1, ..Header::default() });
    assert_eq!(error_of(&bytes), at(52, ValidationErrorKind::HeaderReservedFieldsMustBeZero));

    let bytes = header_bytes(Header { reserved2: 1, ..Header::default() });
    assert_eq!(error_of(&bytes), at(56, ValidationErrorKind::HeaderReservedFieldsMustBeZero));

    let bytes = header_bytes(Header { reserved3: 1, ..Header::default() });
    assert_eq!(error_of(&bytes), at(60, ValidationErrorKind::HeaderReservedFieldsMustBeZero));
}

#[test]
fn validate_header_strings() {
    let bytes = header_bytes(Header { strings_offset: 1, ..Header::default() });
    assert_eq!(error_of(&bytes), at(36, ValidationErrorKind::HeaderStringsOffset));

    let bytes = header_bytes(Header { strings_offset: 65, ..Header::default() });
    assert_eq!(error_of(&bytes), at(36, ValidationErrorKind::HeaderStringsOffset));

    let bytes = header_bytes(Header { strings_offset: 64, strings_len: 1, ..Header::default() });
    assert_eq!(error_of(&bytes), at(40, ValidationErrorKind::HeaderStringsLen));
}

#[test]
fn validate_header_binary() {
    let bytes = header_bytes(Header { binary_offset: 1, ..Header::default() });
    assert_eq!(error_of(&bytes), at(44, ValidationErrorKind::HeaderBinaryOffset));

    let bytes = header_bytes(Header { binary_offset: 65, ..Header::default() });
    assert_eq!(error_of(&bytes), at(44, ValidationErrorKind::HeaderBinaryOffset));

    let bytes = header_bytes(Header { binary_offset: 64, binary_len: 1, ..Header::default() });
    assert_eq!(error_of(&bytes), at(48, ValidationErrorKind::HeaderBinaryLen));

    let bytes = header_bytes(Header {
        binary_offset: 64,
        binary_len: u32::MAX - 63,
        ..Header::default()
    });
    assert_eq!(error_of(&bytes), at(48, ValidationErrorKind::HeaderBinaryLen));
}

#[test]
fn validate_strings() {
    let mut buf = with_header(
        Header { strings_offset: 64, strings_len: 1, size: 65, ..Header::default() },
        65,
    );
    buf[64] = 0xFF;
    assert_eq!(error_of(&buf), at(64, ValidationErrorKind::InvalidUtf8));
}

#[test]
fn validate_nodes() {
    let mut buf = with_header(
        Header { nodes_offset: 64, nodes_len: 1, size: 96, ..Header::default() },
        128,
    );

    // self-referential root
    buf[64..96].copy_from_slice(&node_bytes(Node {
        args: ArgRange::empty(),
        children: NodeRange { start: 0, len: 1 },
        name: StringRange::empty(),
        ty: StringRange::empty(),
    }));
    assert_eq!(error_of(&buf[..96]), at(72, ValidationErrorKind::ChildrenBeforeParent));

    // children start out of bounds
    buf[64..96].copy_from_slice(&node_bytes(Node {
        args: ArgRange::empty(),
        children: NodeRange { start: 1, len: 1 },
        name: StringRange::empty(),
        ty: StringRange::empty(),
    }));
    assert_eq!(error_of(&buf[..96]), at(72, ValidationErrorKind::ChildrenOutOfBounds));

    // children len out of bounds
    buf[..64].copy_from_slice(&header_bytes(Header {
        nodes_offset: 64,
        nodes_len: 2,
        size: 128,
        ..Header::default()
    }));
    buf[64..96].copy_from_slice(&node_bytes(Node {
        args: ArgRange::empty(),
        children: NodeRange { start: 1, len: 2 },
        name: StringRange::empty(),
        ty: StringRange::empty(),
    }));
    assert_eq!(error_of(&buf[..128]), at(72, ValidationErrorKind::ChildrenOutOfBounds));

    // children len overflow
    buf[64..96].copy_from_slice(&node_bytes(Node {
        args: ArgRange::empty(),
        children: NodeRange { start: 1, len: u32::MAX },
        name: StringRange::empty(),
        ty: StringRange::empty(),
    }));
    assert_eq!(error_of(&buf[..128]), at(72, ValidationErrorKind::LengthOverflow));

    // args start out of bounds
    buf[..64].copy_from_slice(&header_bytes(Header {
        nodes_offset: 64,
        nodes_len: 1,
        args_offset: 96,
        args_len: 1,
        size: 116,
        ..Header::default()
    }));
    buf[64..96].copy_from_slice(&node_bytes(Node {
        args: ArgRange { start: 1, len: 1 },
        children: NodeRange::empty(),
        name: StringRange::empty(),
        ty: StringRange::empty(),
    }));
    assert_eq!(error_of(&buf[..116]), at(64, ValidationErrorKind::ArgumentsOutOfBounds));

    // args len out of bounds
    buf[64..96].copy_from_slice(&node_bytes(Node {
        args: ArgRange { start: 0, len: 2 },
        children: NodeRange::empty(),
        name: StringRange::empty(),
        ty: StringRange::empty(),
    }));
    assert_eq!(error_of(&buf[..116]), at(64, ValidationErrorKind::ArgumentsOutOfBounds));
}

#[test]
fn non_empty_section_inside_header_is_rejected() {
    let buf = with_header(
        Header { binary_offset: 0, binary_len: 8, size: 72, ..Header::default() },
        72,
    );
    assert_eq!(error_of(&buf), at(44, ValidationErrorKind::HeaderBinaryOffset));
    let buf = with_header(
        Header { strings_offset: 0, strings_len: 4, size: 68, ..Header::default() },
        68,
    );
    assert_eq!(error_of(&buf), at(36, ValidationErrorKind::HeaderStringsOffset));
}

#[test]
fn empty_section_inside_another_is_no_overlap() {
    let buf = with_header(
        Header {
            nodes_offset: 64,
            nodes_len: 1,
            strings_offset: 80,
            strings_len: 0,
            size: 96,
            ..Header::default()
        },
        96,
    );
    assert_eq!(error_of(&buf), None);
}
