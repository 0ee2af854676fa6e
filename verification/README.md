# lemma_planning

Verified planning semantics for the Lemma rule language: the pieces of the planner
that decide types, units, ranges and dispatch tables, each with a Verus contract.

Layout of `src/`:

- `rational`, `decimal`, `text` — exact rationals (both parts divided by their gcd when built), their lift from
  `rust_decimal` decimals, and the text helpers (ordering, decimal and hex rendering,
  sorting) the messages are built with.
- `signature`, `units`, `unit_index`, `unit_constraints`, `unit_family` — unit signatures in
  canonical form, measure decompositions and unit tables, the units visible in a scope,
  signature factors, per-unit copies of bounds and suggestions, and the units of each
  family merged over its extensions.
- `types`, `lemma_type`, `equality`, `typing`, `decomposition` — resolved types, their
  predicates, structural equality, the typing rules of arithmetic and the other
  expression forms, and lookup of declared measure families by decomposition.
- `temporal`, `values`, `bound`, `data_definition` — dates and times (instants, display,
  order), literal values, suggestion and fill values, and resolved data declarations.
- `range_bounds`, `constraint_messages`, `constraint_args` — consistency checks of range
  declarations, the requirements measure traits put on unit tables, and how constraint
  command arguments (labels, unit expressions, literals) are read.
- `ordered_dispatch`, `dispatch_build` — breakpoint tables that replace `unless` chains
  over one scrutinee; the table agrees with the chain for every value.
- `comparison`, `paths`, `spec_set_id`, `result_value`, `show`, `snapshot` — operators,
  data and rule paths, spec-set identifiers, result-value failures, inspection views,
  and the checksummed snapshot frame.

Verify with Verus; the tests under `tests/` run the compiled library.
