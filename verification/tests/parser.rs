use cooklang::ast::{Item, Line, Number, QuantityValue, Text, TextFragment, Value};
use cooklang::located::Located;
use cooklang::parser::metadata::metadata_entry;
use cooklang::parser::parser::{parse, LineParser};
use cooklang::parser::quantity::parse_quantity;
use cooklang::parser::section::section;
use cooklang::parser::token_stream::{Token, TokenStream};
use cooklang::parser::{ParserError, ParserWarning};
use cooklang::context::Context;
use cooklang::span::Span;
use cooklang::Extensions;

fn tokens(input: &str) -> Vec<Token> {
    let mut stream = TokenStream::new(input);
    let mut v = Vec::new();
    while let Some(t) = stream.next() {
        v.push(t);
    }
    v
}

fn text_at(s: &str, offset: usize) -> Text<'_> {
    let mut t = Text::empty(offset);
    t.append_fragment(TextFragment::new(s, offset));
    t
}

fn quantity(
    input: &str,
    extensions: Extensions,
) -> (cooklang::ast::Quantity<'_>, Option<Span>, Context<ParserError, ParserWarning>) {
    let tokens = tokens(input);
    let mut ctx = Context::new();
    let q = parse_quantity(&tokens, input, extensions, &mut ctx);
    (q.quantity.take(), q.unit_separator, ctx)
}

#[test]
fn the_test() {
    let (ast, warn, err) = parse("a test @step @salt{1%mg} more text", Extensions::all()).into_tuple();
    println!("{:#?}", ast);
    println!("{:#?}", warn);
    println!("{:#?}", err);
    let ast = ast.unwrap();
    assert_eq!(ast.lines.len(), 1);
    assert!(warn.is_empty());
    assert!(err.is_empty());
}

#[test]
fn basic_metadata_entry() {
    let input = ">> key: value";
    let tokens = tokens(input);
    let mut line = LineParser::new(0, &tokens, input, Extensions::all());
    let entry = metadata_entry(&mut line).unwrap();
    let context = line.finish();
    assert_eq!(entry.key.text(), " key");
    assert_eq!(entry.key.span(), Span::new(2, 6));
    assert_eq!(entry.value.text(), " value");
    assert_eq!(entry.value.span(), Span::new(7, 13));
    assert!(context.errors.is_empty());
    assert!(context.warnings.is_empty());
}

#[test]
fn no_key_metadata_entry() {
    let input = ">>: value";
    let tokens = tokens(input);
    let mut line = LineParser::new(0, &tokens, input, Extensions::all());
    let entry = metadata_entry(&mut line).unwrap();
    let context = line.finish();
    assert_eq!(entry.key.text(), "");
    assert_eq!(entry.key.span(), Span::pos(2));
    assert_eq!(entry.value.text_trimmed(), "value");
    assert_eq!(context.errors.len(), 1);
    assert!(context.warnings.is_empty());
}

#[test]
fn no_val_metadata_entry() {
    let input = ">> key:";
    let tokens = tokens(input);
    let mut line = LineParser::new(0, &tokens, input, Extensions::all());
    let entry = metadata_entry(&mut line).unwrap();
    let context = line.finish();
    assert_eq!(entry.key.text_trimmed(), "key");
    assert_eq!(entry.value.text(), "");
    assert_eq!(entry.value.span(), Span::pos(7));
    assert!(context.errors.is_empty());
    assert_eq!(context.warnings.len(), 1);

    let input = ">> key:  ";
    let tokens = self::tokens(input);
    let mut line = LineParser::new(0, &tokens, input, Extensions::all());
    let entry = metadata_entry(&mut line).unwrap();
    let context = line.finish();
    assert_eq!(entry.key.text_trimmed(), "key");
    assert_eq!(entry.value.text(), "  ");
    assert_eq!(entry.value.span(), Span::new(7, 9));
    assert!(context.errors.is_empty());
    assert_eq!(context.warnings.len(), 1);
}

#[test]
fn empty_metadata_entry() {
    let input = ">>:";
    let tokens = tokens(input);
    let mut line = LineParser::new(0, &tokens, input, Extensions::all());
    let entry = metadata_entry(&mut line).unwrap();
    let context = line.finish();
    assert!(entry.key.text().is_empty());
    assert_eq!(entry.key.span(), Span::pos(2));
    assert!(entry.value.text().is_empty());
    assert_eq!(entry.value.span(), Span::pos(3));
    assert_eq!(context.errors.len(), 1);
    assert!(context.warnings.is_empty());

    let input = ">> ";
    let tokens = self::tokens(input);
    let mut line = LineParser::new(0, &tokens, input, Extensions::all());
    assert!(metadata_entry(&mut line).is_err())
}

#[test]
fn basic_section() {
    let input = "= section";
    let tokens = tokens(input);
    let mut line = LineParser::new(0, &tokens, input, Extensions::all());
    let name = section(&mut line).unwrap().unwrap();
    let context = line.finish();
    assert_eq!(name.text(), " section");
    assert_eq!(name.span(), Span::new(1, 9));
    assert!(context.errors.is_empty());
    assert!(context.warnings.is_empty());

    let input = "== section ==";
    let tokens = self::tokens(input);
    let mut line = LineParser::new(0, &tokens, input, Extensions::all());
    let name = section(&mut line).unwrap().unwrap();
    let context = line.finish();
    assert_eq!(name.text(), " section ");
    assert_eq!(name.span(), Span::new(2, 11));
    assert!(context.errors.is_empty());
    assert!(context.warnings.is_empty());
}

#[test]
fn no_name_section() {
    let input = "====";
    let tokens = tokens(input);
    let mut line = LineParser::new(0, &tokens, input, Extensions::all());
    let name = section(&mut line).unwrap();
    let context = line.finish();
    assert!(name.is_none());
    assert!(context.errors.is_empty());
    assert!(context.warnings.is_empty());

    let input = "==   ==";
    let tokens = self::tokens(input);
    let mut line = LineParser::new(0, &tokens, input, Extensions::all());
    let name = section(&mut line).unwrap();
    let context = line.finish();
    assert!(name.is_none());
    assert!(context.errors.is_empty());
    assert!(context.warnings.is_empty());

    let input = "= =  ==";
    let tokens = self::tokens(input);
    let mut line = LineParser::new(0, &tokens, input, Extensions::all());
    assert!(section(&mut line).is_err());
}

#[test]
fn basic_quantity() {
    let (q, s, _) = quantity("100%ml", Extensions::all());
    assert_eq!(
        q.value,
        QuantityValue::Single {
            value: Located::new(Value::Number(Number::Int(100)), Span::new(0, 3)),
            auto_scale: None,
        }
    );
    assert_eq!(s, Some(Span::new(3, 4)));
    assert_eq!(q.unit.unwrap().text(), "ml");
}

#[test]
fn no_separator_ext() {
    let (q, s, ctx) = quantity("100 ml", Extensions::all());
    assert_eq!(
        q.value,
        QuantityValue::Single {
            value: Located::new(Value::Number(Number::Int(100)), Span::new(0, 3)),
            auto_scale: None
        }
    );
    assert_eq!(s, None);
    assert_eq!(q.unit.unwrap().text(), "ml");
    assert!(ctx.is_empty());

    let (q, s, ctx) = quantity("100 ml", Extensions::all().symmetric_difference(Extensions::advanced_units()));
    assert_eq!(
        q.value,
        QuantityValue::Single {
            value: Located::new(Value::Text("100 ml".to_string()), Span::new(0, 6)),
            auto_scale: None
        }
    );
    assert_eq!(s, None);
    assert_eq!(q.unit, None);
    assert!(ctx.is_empty());
}

#[test]
fn many_values() {
    let (q, s, ctx) = quantity("100|200|300%ml", Extensions::all());
    assert_eq!(
        q.value,
        QuantityValue::Many(vec![
            Located::new(Value::Number(Number::Int(100)), Span::new(0, 3)),
            Located::new(Value::Number(Number::Int(200)), Span::new(4, 7)),
            Located::new(Value::Number(Number::Int(300)), Span::new(8, 11)),
        ])
    );
    assert_eq!(s, Some(Span::new(11, 12)));
    assert_eq!(q.unit.unwrap(), text_at("ml", 12));
    assert!(ctx.is_empty());

    let (q, s, ctx) = quantity("100|2-3|str*%ml", Extensions::all());
    assert_eq!(
        q.value,
        QuantityValue::Many(vec![
            Located::new(Value::Number(Number::Int(100)), Span::new(0, 3)),
            Located::new(Value::Range(Number::Int(2), Number::Int(3)), Span::new(4, 7)),
            Located::new(Value::Text("str".to_string()), Span::new(8, 11)),
        ])
    );
    assert_eq!(s, Some(Span::new(12, 13)));
    assert_eq!(q.unit.unwrap(), text_at("ml", 13));
    assert_eq!(ctx.errors.len(), 1);
    assert!(ctx.warnings.is_empty());

    let (q, _, ctx) = quantity("100|", Extensions::all());
    assert_eq!(
        q.value,
        QuantityValue::Many(vec![
            Located::new(Value::Number(Number::Int(100)), Span::new(0, 3)),
            Located::new(Value::Text("".to_string()), Span::new(4, 4))
        ])
    );
    assert_eq!(ctx.errors.len(), 1);
    assert!(ctx.warnings.is_empty());
}

#[test]
fn range_value() {
    let (q, _, _) = quantity("2-3", Extensions::all());
    assert_eq!(
        q.value,
        QuantityValue::Single {
            value: Located::new(Value::Range(Number::Int(2), Number::Int(3)), Span::new(0, 3)),
            auto_scale: None
        }
    );
    assert_eq!(q.unit, None);
}

#[test]
fn numbers_keep_their_form() {
    let (q, _, ctx) = quantity("1 1/2", Extensions::all());
    assert_eq!(
        q.value,
        QuantityValue::Single {
            value: Located::new(Value::Number(Number::Mixed { whole: 1, num: 1, den: 2 }), Span::new(0, 5)),
            auto_scale: None
        }
    );
    assert!(ctx.is_empty());

    let (q, _, _) = quantity("3 / 4", Extensions::all());
    assert_eq!(
        q.value,
        QuantityValue::Single {
            value: Located::new(Value::Number(Number::Fraction { num: 3, den: 4 }), Span::new(0, 5)),
            auto_scale: None
        }
    );

    let (q, _, _) = quantity("0.5", Extensions::all());
    assert_eq!(
        q.value,
        QuantityValue::Single {
            value: Located::new(Value::Number(Number::Decimal("0.5".to_string())), Span::new(0, 3)),
            auto_scale: None
        }
    );
}

#[test]
fn integer_too_large_is_an_error() {
    let (q, _, ctx) = quantity("99999999999%g", Extensions::all());
    assert_eq!(
        q.value,
        QuantityValue::Single {
            value: Located::new(Value::Number(Number::Int(0)), Span::new(0, 11)),
            auto_scale: None
        }
    );
    // every form tried (mixed number, fraction, range, integer) reads the
    // integer again, and each keeps its error
    assert_eq!(ctx.errors.len(), 4);
    assert!(ctx.errors.iter().all(|e| matches!(e, ParserError::ParseInt { .. })));
}

#[test]
fn empty_unit_is_an_error() {
    let (q, s, ctx) = quantity("2% ", Extensions::all());
    assert_eq!(q.unit, None);
    assert_eq!(s, Some(Span::new(1, 2)));
    assert_eq!(ctx.errors.len(), 1);
    assert!(matches!(ctx.errors[0], ParserError::ComponentPartInvalid { .. }));
}

#[test]
fn auto_scale_mark() {
    let (q, _, ctx) = quantity("2*%kg", Extensions::all());
    assert_eq!(
        q.value,
        QuantityValue::Single {
            value: Located::new(Value::Number(Number::Int(2)), Span::new(0, 1)),
            auto_scale: Some(Span::new(1, 2))
        }
    );
    assert!(ctx.is_empty());
}

#[test]
fn recipe_lines() {
    let input = ">> servings: 2\n= Dough\nMix @flour{200%g} with #bowl{}.\n\nBake ~{10%min}.\n";
    let (ast, _warn, err) = parse(input, Extensions::all()).into_tuple();
    let ast = ast.unwrap();
    assert!(err.is_empty());
    assert_eq!(ast.lines.len(), 4);
    assert!(matches!(ast.lines[0], Line::Metadata { .. }));
    assert!(matches!(ast.lines[1], Line::Section { .. }));
    assert!(matches!(ast.lines[2], Line::Step { .. }));
    assert!(matches!(ast.lines[3], Line::Step { .. }));
    if let Line::Step { items, is_text } = &ast.lines[2] {
        assert!(!is_text);
        assert_eq!(items.len(), 5);
        assert!(matches!(items[1], Item::Component(_)));
        assert!(matches!(items[3], Item::Component(_)));
    }
}

#[test]
fn multiline_steps_join() {
    let input = "first line\nsecond line\n\nthird";
    let (ast, _, _) = parse(input, Extensions::all()).into_tuple();
    assert_eq!(ast.unwrap().lines.len(), 2);
    let (ast, _, _) = parse(input, Extensions::empty()).into_tuple();
    assert_eq!(ast.unwrap().lines.len(), 3);
}

#[test]
fn escaped_text_keeps_the_character() {
    let input = "a \\@b";
    let (ast, _, _) = parse(input, Extensions::all()).into_tuple();
    let ast = ast.unwrap();
    if let Line::Step { items, .. } = &ast.lines[0] {
        assert_eq!(items.len(), 1);
        if let Item::Text(t) = &items[0] {
            assert_eq!(t.text(), "a @b");
        } else {
            panic!("not a text");
        }
    } else {
        panic!("not a step");
    }
}

#[test]
fn timer_without_quantity_is_an_error() {
    let (_, _, err) = parse("wait ~rest", Extensions::all()).into_tuple();
    assert_eq!(err.len(), 1);
    assert!(matches!(err[0], ParserError::ComponentPartMissing { .. }));
}

#[test]
fn cookware_with_unit_is_an_error() {
    let (_, _, err) = parse("use #pan{2%l}", Extensions::all()).into_tuple();
    assert_eq!(err.len(), 1);
    assert!(matches!(err[0], ParserError::ComponentPartNotAllowed { .. }));
}

#[test]
fn repeated_modifier_is_an_error() {
    let (_, _, err) = parse("add @@@salt", Extensions::all()).into_tuple();
    assert_eq!(err.len(), 1);
    assert!(matches!(err[0], ParserError::InvalidModifiers { .. }));
}

#[test]
fn error_labels_and_help() {
    let e = ParserError::ComponentPartMissing {
        container: "timer",
        what: "quantity",
        expected_pos: Span::pos(4),
    };
    assert_eq!(e.labels(), vec![(Span::pos(4), Some("expected quantity".to_string()))]);
    assert_eq!(e.help(), None);
    assert_eq!(e.code(), Some("parser"));

    let e = ParserError::ExtensionNotEnabled {
        span: Span::new(1, 3),
        extension_name: "ingredient modifiers",
    };
    assert_eq!(e.labels(), vec![(Span::new(1, 3), Some("used here".to_string()))]);
    assert_eq!(
        e.help(),
        Some("Remove the usage or enable the ingredient modifiers extension".to_string())
    );

    let e = ParserError::ParseInt { bad_bit: Span::new(0, 2) };
    assert_eq!(e.labels(), vec![(Span::new(0, 2), None)]);

    let w = ParserWarning::ComponentPartIgnored {
        container: "cookware",
        what: "note",
        ignored: Span::new(5, 9),
        help: None,
    };
    assert_eq!(w.labels(), vec![(Span::new(5, 9), Some("this is ignored".to_string()))]);
    assert_eq!(w.code(), Some("parser"));
}

#[test]
fn ingredient_alias_and_note() {
    let (ast, _, err) = parse("add @salt|sea salt{1%tsp}(fine)", Extensions::all()).into_tuple();
    assert!(err.is_empty());
    let ast = ast.unwrap();
    if let Line::Step { items, .. } = &ast.lines[0] {
        if let Item::Component(c) = &items[1] {
            if let cooklang::ast::Component::Ingredient(i) = &***c {
                assert_eq!(i.name.text(), "salt");
                assert_eq!(i.alias.as_ref().unwrap().text(), "sea salt");
                assert_eq!(i.note.as_ref().unwrap().text(), "fine");
                assert!(i.quantity.is_some());
                return;
            }
        }
    }
    panic!("no ingredient");
}

#[test]
fn note_on_cookware_is_a_warning() {
    let (_, warn, err) = parse("use #pan(big)", Extensions::all()).into_tuple();
    assert!(err.is_empty());
    assert_eq!(warn.len(), 1);
    assert!(matches!(warn[0], ParserWarning::ComponentPartIgnored { .. }));
}

#[test]
fn fragments_equal_whatever_their_offset() {
    assert_eq!(TextFragment::new("flour", 0), TextFragment::new("flour", 12));
    assert_ne!(TextFragment::new("flour", 0), TextFragment::new("sugar", 0));
}

#[test]
fn metadata_and_sections_report_blank_keys_and_values() {
    let (ast, warnings, errors) = parse(">> key:\n>>: value\n== Section ==\n>> name: value\n", Extensions::all()).into_tuple();
    assert_eq!(ast.unwrap().lines.len(), 4);
    assert_eq!(errors.len(), 1);
    assert_eq!(warnings.len(), 1);
}

#[test]
fn comments_and_blank_lines_report_nothing() {
    let (ast, warnings, errors) = parse("-- note\n\n[- block -]\n   \n", Extensions::all()).into_tuple();
    assert!(ast.unwrap().lines.is_empty());
    assert!(errors.is_empty());
    assert!(warnings.is_empty());
}

#[test]
fn text_holds_as_many_bytes_as_it_spans() {
    let mut t = Text::empty(3);
    t.append_str("déjà ");
    t.append_str("vu");
    assert_eq!(t.text(), "déjà vu");
    assert_eq!(t.text().len(), t.span().len());
    assert_eq!(t.span().start(), 3);
}
