//! Resolved data declarations of an execution plan.

use vstd::prelude::*;
use std::sync::Arc;
use crate::bound::BoundValueKind;
use crate::paths::ReferenceTarget;
use crate::types::LemmaType;
use crate::values::{copy_value, LiteralValue};

verus! {

/// A resolved data declaration.
#[derive(Debug)]
pub enum DataDefinition {
    /// Data holding a literal (from the spec or a `with` binding).
    Value {
        value: LiteralValue,
        resolved_type: Arc<LemmaType>,
    },
    /// Data whose type is known and whose value is supplied at run time. The declared
    /// suggestion and fill are hints only; an unbound input stays missing.
    TypeDeclaration {
        resolved_type: Arc<LemmaType>,
        declared_suggestion: Option<BoundValueKind>,
        declared_fill: Option<BoundValueKind>,
    },
    /// An imported spec (`uses`); its members are flattened onto the plan.
    Import {
        target_name: String,
    },
    /// A value copied from other data or from a rule result, checked against the
    /// merged `resolved_type`.
    Reference {
        target: ReferenceTarget,
        resolved_type: Arc<LemmaType>,
        local_suggestion: Option<BoundValueKind>,
        local_fill: Option<BoundValueKind>,
    },
}

/// The declared type of a data declaration; none for an import.
pub open spec fn spec_declared_type(d: DataDefinition) -> Option<Arc<LemmaType>> {
    match d {
        DataDefinition::Value { resolved_type, .. } => Some(resolved_type),
        DataDefinition::TypeDeclaration { resolved_type, .. } => Some(resolved_type),
        DataDefinition::Reference { resolved_type, .. } => Some(resolved_type),
        DataDefinition::Import { .. } => None,
    }
}

/// The fill of a type declaration or reference, with the unit it was written in.
pub open spec fn spec_fill(d: DataDefinition) -> Option<BoundValueKind> {
    match d {
        DataDefinition::TypeDeclaration { declared_fill, .. } => declared_fill,
        DataDefinition::Reference { local_fill, .. } => local_fill,
        _ => None,
    }
}

/// The suggestion of a type declaration or reference, with the unit it was written in.
pub open spec fn spec_suggestion(d: DataDefinition) -> Option<BoundValueKind> {
    match d {
        DataDefinition::TypeDeclaration { declared_suggestion, .. } => declared_suggestion,
        DataDefinition::Reference { local_suggestion, .. } => local_suggestion,
        _ => None,
    }
}

impl DataDefinition {
    /// The shared declared type; `None` for an import.
    pub fn resolved_type_arc(&self) -> (r: Option<&Arc<LemmaType>>)
        ensures
            match spec_declared_type(*self) {
                Some(t) => r is Some && *r->0 == t,
                None => r is None,
            },
    {
        match self {
            DataDefinition::Value { resolved_type, .. } => Some(resolved_type),
            DataDefinition::TypeDeclaration { resolved_type, .. } => Some(resolved_type),
            DataDefinition::Reference { resolved_type, .. } => Some(resolved_type),
            DataDefinition::Import { .. } => None,
        }
    }

    /// The declared type; `None` for an import.
    pub fn lemma_type(&self) -> (r: Option<&LemmaType>)
        ensures
            match spec_declared_type(*self) {
                Some(t) => r is Some && *r->0 == *t,
                None => r is None,
            },
    {
        match self.resolved_type_arc() {
            Some(t) => Some(&**t),
            None => None,
        }
    }

    /// The declared type (the same as [`Self::lemma_type`]).
    pub fn schema_type(&self) -> (r: Option<&LemmaType>)
        ensures
            match spec_declared_type(*self) {
                Some(t) => r is Some && *r->0 == *t,
                None => r is None,
            },
    {
        self.lemma_type()
    }

    /// The literal the data already holds: its value, or the fill of a type
    /// declaration or reference. A reference's copied value only exists at run time.
    pub fn value(&self) -> (r: Option<LiteralValue>)
        ensures
            match *self {
                DataDefinition::Value { value, .. } => r == Some(value),
                _ => match spec_fill(*self) {
                    Some(b) => r is Some && r->0.value == b.value,
                    None => r is None,
                },
            },
    {
        match self {
            DataDefinition::Value { value, .. } => Some(LiteralValue { value: copy_value(&value.value) }),
            DataDefinition::TypeDeclaration { declared_fill: Some(fill), .. } => Some(fill.to_literal()),
            DataDefinition::Reference { local_fill: Some(fill), .. } => Some(fill.to_literal()),
            _ => None,
        }
    }

    /// The fill with the unit it was written in.
    pub fn bound_fill(&self) -> (r: Option<&BoundValueKind>)
        ensures
            match spec_fill(*self) {
                Some(b) => r is Some && *r->0 == b,
                None => r is None,
            },
    {
        match self {
            DataDefinition::TypeDeclaration { declared_fill: Some(fill), .. } => Some(fill),
            DataDefinition::Reference { local_fill: Some(fill), .. } => Some(fill),
            _ => None,
        }
    }

    /// The suggestion with the unit it was written in.
    pub fn bound_suggestion(&self) -> (r: Option<&BoundValueKind>)
        ensures
            match spec_suggestion(*self) {
                Some(b) => r is Some && *r->0 == b,
                None => r is None,
            },
    {
        match self {
            DataDefinition::TypeDeclaration { declared_suggestion: Some(s), .. } => Some(s),
            DataDefinition::Reference { local_suggestion: Some(s), .. } => Some(s),
            _ => None,
        }
    }
}

} // verus!
