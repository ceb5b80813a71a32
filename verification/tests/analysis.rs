use cooklang::analysis::ast_walker::parse_ast;
use cooklang::analysis::{analyze_ast, AnalysisError, AnalysisWarning};
use cooklang::ast::{Number, Value};
use cooklang::convert::{PhysicalQuantity, UnitIndex};
use cooklang::model::{ComponentKind, Item, RecipeContent};
use cooklang::parser::parser::parse;
use cooklang::quantity::{IncompatibleUnits, Quantity, QuantityValue, UnitSide};
use cooklang::Extensions;

fn units() -> UnitIndex {
    let mut u = UnitIndex::empty();
    assert!(u.add("g".to_string(), PhysicalQuantity::Mass));
    assert!(u.add("kg".to_string(), PhysicalQuantity::Mass));
    assert!(u.add("l".to_string(), PhysicalQuantity::Volume));
    assert!(u.add("min".to_string(), PhysicalQuantity::Time));
    u
}

fn analyze(input: &str) -> (RecipeContent, Vec<AnalysisWarning>, Vec<AnalysisError>) {
    let (ast, _w, e) = parse(input, Extensions::all()).into_tuple();
    assert!(e.is_empty(), "parse errors: {e:?}");
    let u = units();
    let (content, warnings, errors) = parse_ast(ast.unwrap(), Extensions::all(), &u).into_tuple();
    (content.unwrap(), warnings, errors)
}

#[test]
fn reference_points_to_definition() {
    let (c, w, e) = analyze("Add @flour{100%g}, then @&flour{50%g}.");
    assert!(e.is_empty());
    assert!(w.is_empty());
    assert_eq!(c.ingredients.len(), 2);
    assert_eq!(c.ingredients[0].name, "flour");
    assert_eq!(c.ingredients[1].references_to, Some(0));
    assert_eq!(c.ingredients[0].referenced_from(), &[1]);
    assert!(c.ingredients[1].is_reference());
    assert!(!c.ingredients[0].is_reference());
    let all = c.ingredients[0].all_quantities(&c.ingredients);
    assert_eq!(all.len(), 2);
    assert_eq!(all[1].unit_text(), Some("g"));
}

#[test]
fn reference_ignores_letter_case() {
    let (c, _w, e) = analyze("@Salt{} and @&salt{}");
    assert!(e.is_empty());
    assert_eq!(c.ingredients[1].references_to, Some(0));
}

#[test]
fn missing_reference_is_an_error() {
    let (c, _w, e) = analyze("@&sugar{1%g}");
    assert_eq!(e.len(), 1);
    assert!(matches!(&e[0], AnalysisError::ReferenceNotFound { name, .. } if name == "sugar"));
    assert_eq!(c.ingredients[0].references_to, None);
}

#[test]
fn duplicate_names_refer_in_reference_mode() {
    let (c, w, e) = analyze(">> [duplicate]: reference\n@salt{} then @salt{}");
    assert!(e.is_empty());
    assert!(w.is_empty());
    assert_eq!(c.ingredients[1].references_to, Some(0));
    let (c, _, _) = analyze("@salt{} then @salt{}");
    assert_eq!(c.ingredients[1].references_to, None);
}

#[test]
fn forced_new_is_not_a_reference() {
    let (c, _w, e) = analyze(">> [duplicate]: reference\n@salt{} then @+salt{}");
    assert!(e.is_empty());
    assert_eq!(c.ingredients[1].references_to, None);
}

#[test]
fn reference_to_hidden_conflicts() {
    let (c, _w, e) = analyze("@-salt{} then @&salt{}");
    assert_eq!(e.len(), 1);
    assert!(matches!(e[0], AnalysisError::ConflictingModifiers { .. }));
    assert_eq!(c.ingredients[1].modifiers().bits(), 0);
    assert_eq!(c.ingredients[1].references_to, Some(0));
}

#[test]
fn quantities_of_list_definition_conflict() {
    let (_c, _w, e) = analyze(">> [mode]: components\n@flour{1%kg}\n>> [mode]: all\nUse @&flour{200%g}.");
    assert_eq!(e.len(), 1);
    assert!(matches!(&e[0], AnalysisError::ConflictingReferenceQuantities { ingredient_name, .. } if ingredient_name == "flour"));
}

#[test]
fn incompatible_units_in_reference() {
    let (_c, w, e) = analyze("@water{1%l} and @&water{2%kg}");
    assert!(e.is_empty());
    assert_eq!(w.len(), 1);
    assert!(matches!(
        &w[0],
        AnalysisWarning::IncompatibleUnits {
            source: IncompatibleUnits::DifferentPhysicalQuantities {
                a: PhysicalQuantity::Volume,
                b: PhysicalQuantity::Mass
            },
            ..
        }
    ));
}

#[test]
fn text_value_in_reference_is_a_warning() {
    let (_c, w, e) = analyze("@oil{1%l} and @&oil{some}");
    assert!(e.is_empty());
    assert!(w.iter().any(|w| matches!(w, AnalysisWarning::TextValueInReference { .. })));
}

#[test]
fn steps_mode_makes_references() {
    let (c, w, e) = analyze(">> [mode]: steps\n@egg{}");
    assert_eq!(e.len(), 1);
    assert!(matches!(e[0], AnalysisError::ReferenceNotFound { .. }));
    assert!(w.is_empty());
    assert!(c.ingredients[0].is_reference());
}

#[test]
fn components_mode_drops_steps_and_warns_of_text() {
    let (c, w, e) = analyze(">> [mode]: components\n@flour{1%kg} and sugar");
    assert!(e.is_empty());
    assert_eq!(c.ingredients.len(), 1);
    assert!(c.sections.is_empty());
    assert!(matches!(w[0], AnalysisWarning::TextDefiningIngredients { .. }));
    assert!(!c.ingredients[0].defined_in_step);
}

#[test]
fn text_mode_ignores_components() {
    let (c, w, _e) = analyze(">> [mode]: text\nAdd @salt{}.");
    assert!(c.ingredients.is_empty());
    assert!(matches!(w[0], AnalysisWarning::ComponentInTextMode { .. }));
    assert!(c.sections[0].steps[0].is_text);
}

#[test]
fn invalid_mode_value_is_an_error() {
    let (_c, _w, e) = analyze(">> [mode]: everything\nstep");
    match &e[0] {
        AnalysisError::InvalidSpecialMetadataValue { possible_values, .. } => {
            assert_eq!(possible_values, &vec!["all", "components", "steps", "text"]);
        }
        other => panic!("unexpected {other:?}"),
    }
    assert_eq!(
        e[0].help().as_deref(),
        Some("Possible values are: [\"all\", \"components\", \"steps\", \"text\"]")
    );
    assert_eq!(e[0].code(), Some("analysis"));
}

#[test]
fn unknown_special_key_is_a_warning() {
    let (_c, w, e) = analyze(">> [colour]: red\nstep");
    assert!(e.is_empty());
    assert!(matches!(&w[0], AnalysisWarning::UnknownSpecialMetadataKey { key } if key.as_str() == "[colour]"));
}

#[test]
fn metadata_goes_to_the_model() {
    let (c, w, _e) = analyze(">> servings: 4\n>> emoji: nothing\nstep");
    assert_eq!(c.metadata.servings, Some(4));
    assert_eq!(w.len(), 1);
    assert!(matches!(w[0], AnalysisWarning::InvalidMetadataValue { .. }));
}

#[test]
fn many_values_without_servings_is_an_error() {
    let (c, _w, e) = analyze("@flour{100|200%g}");
    match &e[0] {
        AnalysisError::ScalableValueManyConflict { servings, values, servings_meta_span, .. } => {
            assert_eq!(*servings, None);
            assert_eq!(*values, 2);
            assert_eq!(*servings_meta_span, None);
        }
        other => panic!("unexpected {other:?}"),
    }
    let q = c.ingredients[0].quantity.as_ref().unwrap();
    assert!(matches!(&q.value, QuantityValue::ByServings(v) if v.len() == 2));
}

#[test]
fn many_values_against_one_serving() {
    let (_c, _w, e) = analyze(">> servings: 2\n@flour{100|200%g}");
    match &e[0] {
        AnalysisError::ScalableValueManyConflict { servings, values, servings_meta_span, .. } => {
            assert_eq!(*servings, Some(1));
            assert_eq!(*values, 2);
            assert!(servings_meta_span.is_some());
        }
        other => panic!("unexpected {other:?}"),
    }
}

#[test]
fn auto_scale_makes_ingredients_linear() {
    let (c, w, e) = analyze(">> [auto scale]: true\n@water{1%l} and @salt{2*%g} for ~{3%min}");
    assert!(e.is_empty());
    assert!(matches!(c.ingredients[0].quantity.as_ref().unwrap().value, QuantityValue::Linear(_)));
    assert!(matches!(c.timers[0].quantity.value, QuantityValue::Fixed(_)));
    assert_eq!(w.len(), 1);
    assert!(matches!(w[0], AnalysisWarning::RedundantAutoScaleMarker { .. }));
}

#[test]
fn timer_units_are_checked() {
    let (c, _w, e) = analyze("~{5%min}");
    assert!(e.is_empty());
    assert_eq!(c.timers[0].quantity.unit_text(), Some("min"));
    let (_c, _w, e) = analyze("~{5%kg}");
    assert!(matches!(&e[0], AnalysisError::BadTimerUnit { physical_quantity: PhysicalQuantity::Mass, .. }));
    let (_c, _w, e) = analyze("~{5%fortnights}");
    assert!(matches!(&e[0], AnalysisError::UnknownTimerUnit { unit, .. } if unit == "fortnights"));
}

#[test]
fn sections_group_steps() {
    let (c, _w, e) = analyze("= Dough\nMix @flour{}.\n\n= Sauce\nStir #pot{}.");
    assert!(e.is_empty());
    assert_eq!(c.sections.len(), 2);
    assert_eq!(c.sections[0].name.as_deref(), Some("Dough"));
    assert_eq!(c.sections[1].name.as_deref(), Some("Sauce"));
    let items = &c.sections[1].steps[0].items;
    assert!(items.iter().any(|i| matches!(i, Item::Component(comp) if comp.kind == ComponentKind::Cookware && comp.index == 0)));
    assert_eq!(c.cookware[0].name, "pot");
}

#[test]
fn alias_and_note_are_trimmed() {
    let (c, _w, _e) = analyze("@flour|the flour{1%kg}( sifted )");
    assert_eq!(c.ingredients[0].alias.as_deref(), Some("the flour"));
    assert_eq!(c.ingredients[0].note.as_deref(), Some("sifted"));
    assert_eq!(c.ingredients[0].display_name(), "the flour");
}

#[test]
fn analyze_reports_errors() {
    let (ast, _w, _e) = parse("@&nothing{}", Extensions::all()).into_tuple();
    let u = units();
    let r = analyze_ast(ast.unwrap(), Extensions::all(), &u, false);
    assert!(r.is_err());
    let (ast, _w, _e) = parse("@water{1%l} and @&water{2%kg}", Extensions::all()).into_tuple();
    assert!(analyze_ast(ast.unwrap(), Extensions::all(), &u, true).is_err());
    let (ast, _w, _e) = parse("@water{1%l}", Extensions::all()).into_tuple();
    let (c, w) = analyze_ast(ast.unwrap(), Extensions::all(), &u, true).unwrap();
    assert!(w.is_empty());
    assert_eq!(c.ingredients.len(), 1);
}

#[test]
fn unit_index_knows_each_name_once() {
    let mut u = units();
    assert!(!u.add("g".to_string(), PhysicalQuantity::Volume));
    assert_eq!(u.get_unit("g"), Some(PhysicalQuantity::Mass));
    assert_eq!(u.get_unit("cup"), None);
}

#[test]
fn compatibility_of_units() {
    let u = units();
    let q = |unit: Option<&str>| {
        Quantity::new(QuantityValue::Fixed(Value::Number(Number::Int(1))), unit.map(str::to_string))
    };
    assert!(matches!(q(None).is_compatible(&q(None), &u), Ok(None)));
    assert!(matches!(
        q(None).is_compatible(&q(Some("g")), &u),
        Err(IncompatibleUnits::MissingUnit { found: UnitSide::Right(ref s) }) if s == "g"
    ));
    assert!(matches!(
        q(Some("g")).is_compatible(&q(None), &u),
        Err(IncompatibleUnits::MissingUnit { found: UnitSide::Left(ref s) }) if s == "g"
    ));
    match q(Some("kg")).is_compatible(&q(Some("g")), &u) {
        Ok(Some(k)) => {
            assert_eq!(k.key, "kg");
            assert_eq!(k.physical_quantity, PhysicalQuantity::Mass);
        }
        other => panic!("unexpected {other:?}"),
    }
    assert!(matches!(q(Some("pinch")).is_compatible(&q(Some("pinch")), &u), Ok(None)));
    assert!(matches!(
        q(Some("pinch")).is_compatible(&q(Some("dash")), &u),
        Err(IncompatibleUnits::UnknownDifferentUnits { .. })
    ));
}

#[test]
fn text_values_are_found() {
    let fixed = QuantityValue::Fixed(Value::Text("some".to_string()));
    assert!(fixed.contains_text_value());
    let many = QuantityValue::ByServings(vec![Value::Number(Number::Int(1)), Value::Text("a lot".to_string())]);
    assert!(many.contains_text_value());
    let none = QuantityValue::Linear(Value::Number(Number::Int(2)));
    assert!(!none.contains_text_value());
}

#[test]
fn parser_gives_a_named_recipe() {
    let r = cooklang::parse("Boil @water{1%l} in #pot{} for ~{10%min}.", "tea");
    let (recipe, _w, e) = r.into_tuple();
    let recipe = recipe.unwrap();
    assert_eq!(recipe.name, "tea");
    assert_eq!(recipe.ingredients.len(), 1);
    assert_eq!(recipe.cookware.len(), 1);
    assert_eq!(recipe.timers.len(), 1);
    // no unit is known by the default parser
    assert!(matches!(&e[0], cooklang::error::CooklangError::Analysis(AnalysisError::UnknownTimerUnit { .. })));
}

#[test]
fn parser_with_units_and_errors_of_both_passes() {
    let parser = cooklang::CooklangParser::new(Extensions::all(), units());
    let (recipe, _w, e) = parser.parse("~{10%min} and @&ghost{}", "r").into_tuple();
    assert!(recipe.is_some());
    assert_eq!(e.len(), 1);
    assert_eq!(e[0].code(), Some("analysis"));
    let (recipe, _w, e) = parser.parse("@salt{1%}", "r").into_tuple();
    assert!(recipe.is_none());
    assert!(matches!(&e[0], cooklang::error::CooklangError::Parser(_)));
    assert_eq!(e[0].code(), Some("parser"));
}

#[test]
fn unit_ids_and_unknown_units() {
    let u = units();
    assert_eq!(u.get_unit_id("kg"), Ok(1));
    assert_eq!(u.get_unit_id("cup"), Err(cooklang::convert::UnknownUnit("cup".to_string())));
    assert_eq!(cooklang::convert::System::default(), cooklang::convert::System::Metric);
}

#[test]
fn metadata_map_keeps_order_and_last_value() {
    let (c, _w, _e) = analyze(">> [mode]: all\n>> title: A\n>> servings: 2\n>> title: B\nstep");
    let entries: Vec<(&str, &str)> = c.metadata.map.iter().map(|(k, v)| (k.as_str(), v.as_str())).collect();
    assert_eq!(entries, vec![("title", "B"), ("servings", "2")]);
}

#[test]
fn recipe_references_are_checked() {
    let (ast, _w, _e) = parse("Serve with @@pesto{} and @@ghost sauce{}.", Extensions::all()).into_tuple();
    let u = units();
    let known = |name: &str| name == "pesto";
    let (c, w, e) =
        cooklang::analysis::ast_walker::parse_ast_with_recipe_ref_checker(ast.unwrap(), Extensions::all(), &u, Some(&known))
            .into_tuple();
    assert!(e.is_empty());
    assert_eq!(w.len(), 1);
    assert!(matches!(&w[0], AnalysisWarning::RecipeNotFound { name, .. } if name == "ghost sauce"));
    assert!(c.unwrap().ingredients[0].is_recipe());
    let parser = cooklang::CooklangParser::new(Extensions::all(), units());
    let (_r, w, _e) = parser.parse_with_recipe_ref_checker("@@pesto{}", "r", Some(&known)).into_tuple();
    assert!(w.is_empty());
}

#[test]
fn recipe_display_name_is_the_last_path_part() {
    let (c, _w, _e) = analyze("Serve with @@./sauces/pesto{}.");
    assert_eq!(c.ingredients[0].display_name(), "pesto");
}

#[test]
fn references_stay_consistent() {
    let (c, _w, _e) = analyze(
        ">> [duplicate]: reference\n@salt{1%g} @pepper{} @Salt{2%g} @+salt{} @salt{3%g}\n@&pepper{} @sugar{}",
    );
    for (i, igr) in c.ingredients.iter().enumerate() {
        if let Some(j) = igr.references_to {
            assert!(j < i);
            assert!(!c.ingredients[j].is_reference());
            assert_eq!(c.ingredients[j].name.to_lowercase(), igr.name.to_lowercase());
            assert!(c.ingredients[j].referenced_from().contains(&i));
        }
        for &k in igr.referenced_from() {
            assert_eq!(c.ingredients[k].references_to, Some(i));
        }
    }
    // the forced new salt is the one the last salt refers to
    assert_eq!(c.ingredients[4].references_to, Some(3));
    assert_eq!(c.ingredients[2].references_to, Some(0));
    assert_eq!(c.ingredients[5].references_to, Some(1));
    assert_eq!(c.ingredients[6].references_to, None);
}

#[test]
fn sections_follow_section_lines() {
    let (c, _w, e) = analyze(">> [mode]: components\n@flour{}\n>> [mode]: all\n= A\nstep one\n\nstep two\n= B\n= C\nlast step");
    assert!(e.is_empty());
    let shapes: Vec<(Option<&str>, usize)> = c.sections.iter().map(|s| (s.name.as_deref(), s.steps.len())).collect();
    assert_eq!(shapes, vec![(Some("A"), 2), (Some("B"), 0), (Some("C"), 1)]);
}

#[test]
fn components_of_text_steps_are_not_counted() {
    let (c, _w, e) = analyze(">> [mode]: text\n@a{} with #pot{}\n>> [mode]: all\n@b{} in #pan{} for ~{2%min}\n> @c{} stays text");
    assert!(e.is_empty());
    assert_eq!(c.ingredients.len(), 1);
    assert_eq!(c.ingredients[0].name, "b");
    assert_eq!(c.cookware.len(), 1);
    assert_eq!(c.timers.len(), 1);
}

#[test]
fn reference_goes_to_the_last_definition() {
    let r = cooklang::parse("@flour @flour @&flour", "r");
    assert!(!r.has_errors());
    let rec = r.into_output().unwrap();
    assert_eq!(rec.ingredients.len(), 3);
    assert!(rec.ingredients[2].is_reference());
    assert_eq!(rec.ingredients[2].references_to, Some(1));
    assert_eq!(rec.ingredients[1].referenced_from(), &[2]);
    assert!(rec.ingredients[0].referenced_from().is_empty());
}

#[test]
fn blank_and_comment_input_gives_nothing_to_report() {
    for input in ["", "   \n\n", "-- a comment\n[- block -]\n"] {
        let r = cooklang::parse(input, "r");
        assert!(!r.has_errors());
        assert!(!r.has_warnings());
        let rec = r.into_output().unwrap();
        assert!(rec.sections.iter().all(|s| s.steps.is_empty()));
    }
}

#[test]
fn without_modes_a_repeated_name_is_a_new_ingredient() {
    let ext = Extensions::all().difference(Extensions::modes());
    let (ast, _w, e) = parse(">> [duplicate]: reference\n@flour @flour", ext).into_tuple();
    assert!(e.is_empty());
    let u = units();
    let (content, _warnings, errors) = parse_ast(ast.unwrap(), ext, &u).into_tuple();
    assert!(errors.is_empty());
    let c = content.unwrap();
    assert_eq!(c.ingredients.len(), 2);
    assert!(c.ingredients.iter().all(|i| !i.is_reference() && i.references_to.is_none()));
}

#[test]
fn without_modes_references_follow_the_ampersand() {
    let ext = Extensions::all().difference(Extensions::modes());
    let (ast, _w, e) = parse("@flour @flour @&flour @&sugar", ext).into_tuple();
    assert!(e.is_empty());
    let u = units();
    let (content, _warnings, errors) = parse_ast(ast.unwrap(), ext, &u).into_tuple();
    let c = content.unwrap();
    assert_eq!(c.ingredients.len(), 4);
    assert!(!c.ingredients[0].is_reference() && !c.ingredients[1].is_reference());
    assert_eq!(c.ingredients[2].references_to, Some(1));
    assert_eq!(c.ingredients[3].references_to, None);
    assert_eq!(errors.len(), 1);
    assert!(matches!(&errors[0], AnalysisError::ReferenceNotFound { name, .. } if name == "sugar"));
}
