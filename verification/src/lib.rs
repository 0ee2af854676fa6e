//! Resolved planning semantics for the Lemma rule language: operators, unit
//! signatures, resolved types and literals, ordered dispatch tables and the
//! typing rules shared by validation and normalization.

pub mod comparison;
pub mod rational;
pub mod text;
pub mod signature;
pub mod units;
pub mod temporal;
pub mod types;
pub mod lemma_type;
pub mod values;
pub mod bound;
pub mod paths;
pub mod ordered_dispatch;
pub mod dispatch_build;
pub mod spec_set_id;
pub mod result_value;
pub mod equality;
pub mod typing;
pub mod snapshot;
pub mod unit_index;
pub mod range_bounds;
pub mod decomposition;
pub mod data_definition;
pub mod decimal;
pub mod show;
pub mod unit_constraints;
pub mod constraint_messages;
pub mod unit_family;
pub mod constraint_args;
