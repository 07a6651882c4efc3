//! Inferred shape of a node, from the naming of its entries.
use vstd::prelude::*;

verus! {

/// Inferred classification of a node.
///
/// Generic (de)serialization uses it to guess how a node should be read.
#[derive(Debug, Clone, Copy, PartialEq, Eq, PartialOrd, Ord, Hash)]
pub enum ClassifyNode {
    /// All children and arguments are named, and the node has no type.
    Struct,
    /// All children and arguments are named, and the node has a type.
    StructVariant,
    /// At least two entries, all unnamed, and no type.
    Sequence,
    /// At least two entries, all unnamed, and a type.
    SeqVariant,
    /// A single unnamed entry and no type.
    Value,
    /// A single unnamed entry and a type.
    ValueVariant,
    /// No entries and no type.
    Unit,
    /// No entries and a type.
    UnitVariant,
    /// Named and unnamed entries, no type.
    Mixed,
    /// Named and unnamed entries, and a type.
    MixedVariant,
}

/// The classification of a node with `named` named entries, `unnamed`
/// unnamed entries, and a type tag or not.
pub open spec fn classification(has_type: bool, named: nat, unnamed: nat) -> ClassifyNode {
    if named == 0 && unnamed == 0 {
        if has_type {
            ClassifyNode::UnitVariant
        } else {
            ClassifyNode::Unit
        }
    } else if unnamed == 0 {
        if has_type {
            ClassifyNode::StructVariant
        } else {
            ClassifyNode::Struct
        }
    } else if named == 0 {
        if unnamed == 1 {
            if has_type {
                ClassifyNode::ValueVariant
            } else {
                ClassifyNode::Value
            }
        } else if has_type {
            ClassifyNode::SeqVariant
        } else {
            ClassifyNode::Sequence
        }
    } else if has_type {
        ClassifyNode::MixedVariant
    } else {
        ClassifyNode::Mixed
    }
}

/// Classify from the counts of named and unnamed entries.
pub fn classify_counts(has_type: bool, named: u64, unnamed: u64) -> (r: ClassifyNode)
    ensures
        r == classification(has_type, named as nat, unnamed as nat),
{
    if named == 0 && unnamed == 0 {
        if has_type {
            ClassifyNode::UnitVariant
        } else {
            ClassifyNode::Unit
        }
    } else if unnamed == 0 {
        if has_type {
            ClassifyNode::StructVariant
        } else {
            ClassifyNode::Struct
        }
    } else if named == 0 {
        if unnamed == 1 {
            if has_type {
                ClassifyNode::ValueVariant
            } else {
                ClassifyNode::Value
            }
        } else if has_type {
            ClassifyNode::SeqVariant
        } else {
            ClassifyNode::Sequence
        }
    } else if has_type {
        ClassifyNode::MixedVariant
    } else {
        ClassifyNode::Mixed
    }
}

impl ClassifyNode {
    /// True if the node can be viewed as a list of unnamed items; empty and
    /// single-value nodes included.
    pub fn is_list_like(&self) -> (r: bool)
        ensures
            r == !(*self is Struct || *self is StructVariant),
    {
        match self {
            ClassifyNode::Struct | ClassifyNode::StructVariant => false,
            _ => true,
        }
    }

    /// True if the node can be viewed as a map of named items; empty nodes
    /// included.
    pub fn is_dictionary_like(&self) -> (r: bool)
        ensures
            r == (*self is Struct || *self is StructVariant || *self is Unit
                || *self is UnitVariant || *self is Mixed || *self is MixedVariant),
    {
        match self {
            ClassifyNode::Struct
            | ClassifyNode::StructVariant
            | ClassifyNode::Unit
            | ClassifyNode::UnitVariant
            | ClassifyNode::Mixed
            | ClassifyNode::MixedVariant => true,
            _ => false,
        }
    }
}

} // verus!
