use std::sync::Arc;

use lemma_planning::rational::rational_one;
use lemma_planning::types::{LemmaType, TypeExtends, TypeSpecification};
use lemma_planning::unit_family::{declared_bare_names_only, FamilyUnitCatalog};
use lemma_planning::unit_index::UnitIndex;
use lemma_planning::units::{BaseMeasureVector, MeasureUnit, MeasureUnits, RatioUnit, RatioUnits};

fn unit(name: &str) -> MeasureUnit {
    MeasureUnit {
        name: name.into(),
        factor: rational_one(),
        decomposition: BaseMeasureVector::new(),
        minimum: None,
        maximum: None,
        suggestion_magnitude: None,
    }
}

fn measure_spec(units: Vec<MeasureUnit>) -> TypeSpecification {
    TypeSpecification::Measure {
        units: MeasureUnits(units),
        decimals: None,
        traits: vec![],
        decomposition: None,
        minimum: None,
        maximum: None,
        help: String::new(),
    }
}

#[test]
fn family_unit_names_union_across_extensions() {
    let money = Arc::new(LemmaType::new(
        "money".into(),
        measure_spec(vec![unit("eur"), unit("usd")]),
        TypeExtends::Primitive,
    ));
    let price = Arc::new(LemmaType::new(
        "price".into(),
        measure_spec(vec![unit("gbp")]),
        TypeExtends::custom_local("money".to_string(), "money".to_string()),
    ));

    let mut index = UnitIndex::new();
    index.add_type(Arc::clone(&money));
    index.add_type(Arc::clone(&money));
    index.add_type(Arc::clone(&price));

    let catalog = FamilyUnitCatalog::build(&index);
    let names = catalog.ordered_bare_names_for_type(money.as_ref());
    assert_eq!(names.as_slice(), &["eur".to_string(), "usd".to_string(), "gbp".to_string()][..]);
    let show_type = catalog.rule_type_for_show(money.as_ref());
    let show_units: Vec<&str> = show_type.measure_unit_names().expect("measure units").into_iter().collect();
    assert_eq!(show_units, vec!["eur", "usd", "gbp"]);
}

#[test]
fn family_catalog_includes_percent_with_dual_import_owners() {
    let ratio = Arc::new(LemmaType::new(
        "rate".into(),
        TypeSpecification::Ratio {
            minimum: None,
            maximum: None,
            decimals: None,
            units: RatioUnits(vec![RatioUnit {
                name: "percent".into(),
                value: rational_one(),
                minimum: None,
                maximum: None,
                suggestion_magnitude: None,
            }]),
            help: String::new(),
        },
        TypeExtends::Primitive,
    ));
    let mut index = UnitIndex::new();
    index.add_type(Arc::clone(&ratio));
    index.add_type(Arc::clone(&ratio));
    assert!(index.unique_owner("percent").is_none(), "two owners leave percent without a unique owner");

    let catalog = FamilyUnitCatalog::build(&index);
    let entry = catalog.entry_for_type(ratio.as_ref()).expect("ratio family entry");
    let merged = entry.merged_ratio_units.as_ref().expect("merged ratio units");
    assert!(merged.get("percent").is_some());
    assert_eq!(entry.family_bare_names.as_slice(), &["percent".to_string()][..]);
}

#[test]
fn extensions_order_by_depth_then_name_and_keep_first_declarations() {
    // base (depth 0) declares kg; heavy (depth 1) redeclares kg and adds t; alpha (depth 1) adds g.
    let base = Arc::new(LemmaType::new("base".into(), measure_spec(vec![unit("kg")]), TypeExtends::Primitive));
    let heavy = Arc::new(LemmaType::new(
        "heavy".into(),
        measure_spec(vec![unit("kg"), unit("t")]),
        TypeExtends::custom_local("base".to_string(), "base".to_string()),
    ));
    let alpha = Arc::new(LemmaType::new(
        "alpha".into(),
        measure_spec(vec![unit("g")]),
        TypeExtends::custom_local("base".to_string(), "base".to_string()),
    ));
    let mut index = UnitIndex::new();
    index.add_type(Arc::clone(&heavy));
    index.add_type(Arc::clone(&alpha));
    index.add_type(Arc::clone(&base));
    let catalog = FamilyUnitCatalog::build(&index);
    assert_eq!(
        catalog.ordered_bare_names_for_type(heavy.as_ref()),
        vec!["kg".to_string(), "t".to_string(), "g".to_string()]
    );
    assert_eq!(catalog.ordered_bare_names_for_type(base.as_ref()), vec!["kg".to_string(), "g".to_string(), "t".to_string()]);
    assert_eq!(declared_bare_names_only(heavy.as_ref()), vec!["kg".to_string(), "t".to_string()]);
    let anonymous = LemmaType::primitive(measure_spec(vec![unit("t")]));
    assert_eq!(catalog.entry_for_type(&anonymous).map(|e| e.family.clone()), Some("base".to_string()));
}
