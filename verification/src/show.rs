//! Inspection views of resolved rule pieces.

use vstd::prelude::*;
use crate::types::PrimitiveKind;
use crate::typing::SemanticConversionTarget;

verus! {

/// Target of a unit conversion as shown for inspection: a primitive kind, or the name
/// of a unit (without its owning type).
#[derive(Debug, Clone, PartialEq, Eq)]
pub enum ShowConversionTarget {
    Type(PrimitiveKind),
    Unit {
        unit_name: String,
    },
}

/// The inspection view of a resolved conversion target.
pub fn conversion_target_from(target: &SemanticConversionTarget) -> (r: ShowConversionTarget)
    ensures
        match *target {
            SemanticConversionTarget::Type(kind) => r == ShowConversionTarget::Type(kind),
            SemanticConversionTarget::Unit { unit_name, .. } => r == (ShowConversionTarget::Unit { unit_name }),
        },
{
    match target {
        SemanticConversionTarget::Type(kind) => ShowConversionTarget::Type(*kind),
        SemanticConversionTarget::Unit { unit_name, .. } => ShowConversionTarget::Unit { unit_name: unit_name.clone() },
    }
}

} // verus!
