use vstd::prelude::*;

verus! {

/// Validation error when checking the integrity of the binary encoding of a
/// document.
#[derive(Clone, Copy, Debug, PartialEq, Eq)]
pub struct ValidationError {
    /// Byte offset in the buffer of the field where the error occurred.
    pub offset: usize,
    /// Kind of error that occurred.
    pub error: ValidationErrorKind,
}

/// What went wrong while validating a document.
#[derive(Clone, Copy, Debug, PartialEq, Eq)]
pub enum ValidationErrorKind {
    HeaderMagic,
    HeaderVersion(u32),
    HeaderSize,
    HeaderNodesOffset,
    HeaderNodesLen,
    HeaderArgsOffset,
    HeaderArgsLen,
    HeaderStringsOffset,
    HeaderStringsLen,
    HeaderBinaryOffset,
    HeaderBinaryLen,
    HeaderRootNodeOutOfBounds,
    HeaderReservedFieldsMustBeZero,
    HeaderSectionsOverlap,
    LengthOverflow,
    ChildrenOutOfBounds,
    ArgumentsOutOfBounds,
    StringOutOfBounds,
    BinaryOutOfBounds,
    InvalidUtf8,
    InvalidArgumentType,
    ChildrenBeforeParent,
}

impl ValidationErrorKind {
    /// Attach the byte offset of the offending field.
    pub fn at_offset(self, offset: usize) -> (r: ValidationError)
        ensures
            r == (ValidationError { offset, error: self }),
    {
        ValidationError { offset, error: self }
    }

    /// Human-readable description of the error.
    pub fn message(&self) -> (r: &'static str) {
        match self {
            ValidationErrorKind::HeaderMagic => "header magic bytes are invalid",
            ValidationErrorKind::HeaderVersion(_) => "header version field indicates an unsupported version",
            ValidationErrorKind::HeaderSize => "header size field does not match the actual size of the document",
            ValidationErrorKind::HeaderNodesOffset => "header nodes offset field is invalid",
            ValidationErrorKind::HeaderNodesLen => "header nodes length field is invalid",
            ValidationErrorKind::HeaderArgsOffset => "header args offset field is invalid",
            ValidationErrorKind::HeaderArgsLen => "header args length field is invalid",
            ValidationErrorKind::HeaderStringsOffset => "header strings offset field is invalid",
            ValidationErrorKind::HeaderStringsLen => "header strings length field is invalid",
            ValidationErrorKind::HeaderBinaryOffset => "header binary offset field is invalid",
            ValidationErrorKind::HeaderBinaryLen => "header binary length field is invalid",
            ValidationErrorKind::HeaderRootNodeOutOfBounds => "header root node index is out of bounds",
            ValidationErrorKind::HeaderReservedFieldsMustBeZero => "header reserved fields must be zero",
            ValidationErrorKind::HeaderSectionsOverlap => "header describes overlapping sections",
            ValidationErrorKind::LengthOverflow => "range length overflow",
            ValidationErrorKind::ChildrenOutOfBounds => "children node range out of bounds",
            ValidationErrorKind::ArgumentsOutOfBounds => "node argument range out of bounds",
            ValidationErrorKind::StringOutOfBounds => "string out of bounds",
            ValidationErrorKind::BinaryOutOfBounds => "binary out of bounds",
            ValidationErrorKind::InvalidUtf8 => "string blob contains invalid UTF-8",
            ValidationErrorKind::InvalidArgumentType => "invalid argument type",
            ValidationErrorKind::ChildrenBeforeParent => "children of node come before the node; all children of a node must come after the node itself",
        }
    }
}

} // verus!
