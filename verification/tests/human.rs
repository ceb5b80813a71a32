use cooklang::human::{decimal_chars, metadata_lines, step_ingredient_line, step_numbers};
use cooklang::metadata::{Metadata, NameAndUrl, RecipeTime};
use cooklang::scale::ScaleTarget;

fn recipe(input: &str) -> cooklang::model::Recipe {
    let r = cooklang::parse(input, "r");
    assert!(!r.has_errors());
    r.into_output().unwrap()
}

#[test]
fn ingredient_line_keeps_quantities_and_numbers_repeats() {
    let rec = recipe("Mix @a{1} @b @a{2} and @a with #pot{}.\n\n> Some text.\n\nThen @b{3}.");
    let first = &rec.sections[0].steps[0];
    assert_eq!(step_ingredient_line(first, &rec.ingredients), vec![(0, Some(1)), (1, None), (2, Some(2))]);
    let last = &rec.sections[0].steps[2];
    assert_eq!(step_ingredient_line(last, &rec.ingredients), vec![(4, None)]);
}

#[test]
fn ingredient_line_without_quantities_shows_the_first() {
    let rec = recipe("@salt and @salt again");
    let step = &rec.sections[0].steps[0];
    assert_eq!(step_ingredient_line(step, &rec.ingredients), vec![(0, None)]);
}

#[test]
fn text_steps_are_not_numbered() {
    let rec = recipe("One.\n\n> Text.\n\nTwo.");
    assert_eq!(step_numbers(&rec.sections[0]), vec![Some(1), None, Some(2)]);
}

#[test]
fn decimal_numbers() {
    assert_eq!(decimal_chars(0), vec!['0']);
    assert_eq!(decimal_chars(4096).into_iter().collect::<String>(), "4096");
}

#[test]
fn metadata_lines_show_author_time_and_servings() {
    let mut meta = Metadata::default();
    meta.author = Some(NameAndUrl { name: Some("Ann".to_string()), url: None });
    meta.source = Some(NameAndUrl { name: None, url: None });
    meta.time = Some(RecipeTime::Total(90));
    meta.servings = Some(4);
    let lines = metadata_lines(&meta, None);
    let pairs: Vec<(&str, &str)> = lines.iter().map(|(k, v)| (k.as_str(), v.as_str())).collect();
    assert_eq!(pairs, vec![("author", "Ann"), ("source", "-"), ("time", "1h 30m"), ("servings", "[4]")]);
    let scaled = metadata_lines(&meta, Some(ScaleTarget::new(4, 8, &[4])));
    assert_eq!(scaled.last().unwrap().1, "4 -> 8");
    let same = metadata_lines(&meta, Some(ScaleTarget::new(4, 4, &[4])));
    assert_eq!(same.last().unwrap().1, "[4]");
}

#[test]
fn composed_times_are_shown_apart() {
    let mut meta = Metadata::default();
    meta.time = Some(RecipeTime::Composed { prep_time: Some(15), cook_time: None });
    let lines = metadata_lines(&meta, None);
    assert_eq!(lines, vec![("prep time".to_string(), "15m".to_string())]);
}

#[test]
fn author_with_only_a_url_shows_the_url() {
    let mut meta = Metadata::default();
    meta.author = Some(NameAndUrl::new("https://example.com"));
    let lines = metadata_lines(&meta, None);
    assert_eq!(lines, vec![("author".to_string(), "https://example.com/".to_string())]);
}

#[test]
fn subscripts_turn_digits() {
    let mut b: Vec<char> = vec!['x'];
    cooklang::human::write_subscript(&mut b, "12a0");
    assert_eq!(b.into_iter().collect::<String>(), "x\u{2081}\u{2082}a\u{2080}");
}

#[test]
fn other_metadata_entries_follow() {
    let mut meta = Metadata::default();
    meta.insert("author", "Ann").unwrap();
    meta.insert("difficulty", "easy").unwrap();
    meta.insert("servings", "2").unwrap();
    let lines = metadata_lines(&meta, None);
    let pairs: Vec<(&str, &str)> = lines.iter().map(|(k, v)| (k.as_str(), v.as_str())).collect();
    assert_eq!(pairs, vec![("author", "Ann"), ("servings", "[2]"), ("difficulty", "easy")]);
}

#[test]
fn long_times_use_calendar_units() {
    let mut meta = Metadata::default();
    meta.time = Some(RecipeTime::Composed { prep_time: Some(1053360), cook_time: Some(525960) });
    let lines = metadata_lines(&meta, None);
    assert_eq!(
        lines,
        vec![
            ("prep time".to_string(), "2years 1day".to_string()),
            ("cook time".to_string(), "1year".to_string()),
        ]
    );
}
