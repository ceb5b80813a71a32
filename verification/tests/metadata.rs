use cooklang::metadata::{
    is_valid_tag, parse_time, slugify, split_commas, std_parse_u32, Metadata, MetadataError, NameAndUrl, RecipeTime,
};

#[test]
fn test_is_valid_tag() {
    assert!(is_valid_tag("uwu"));
    assert!(is_valid_tag("italian-food"));
    assert!(is_valid_tag("contains-number-1"));
    assert!(is_valid_tag("unicode-ñçá"));
    assert!(!is_valid_tag("ow"));
    assert!(!is_valid_tag("1ow"));
    assert!(!is_valid_tag("111"));
    assert!(!is_valid_tag("1starts-with-number"));
    assert!(!is_valid_tag("many---hyphens"));
    assert!(!is_valid_tag("other/characters"));
    assert!(!is_valid_tag("other@[]chara€cters"));
}

#[test]
fn test_slugify() {
    assert_eq!(slugify("text"), "text");
    assert_eq!(slugify("text with spaces"), "text-with-spaces");
    assert_eq!(slugify("text with      many\tspaces"), "text-with-many-spaces");
    assert_eq!(slugify("text with CAPS"), "text-with-caps");
    assert_eq!(slugify("text with CAPS"), "text-with-caps");
    assert_eq!(slugify("text_with_underscores"), "text-with-underscores");
    assert_eq!(slugify("WhATever_--thiS - - is"), "whatever-this-is");
    assert_eq!(slugify("Sensible recipe name"), "sensible-recipe-name");
}

#[test]
fn slug_edges() {
    assert_eq!(slugify(""), "");
    assert_eq!(slugify("  --a--  "), "a");
    assert_eq!(slugify("a/b"), "ab");
}

#[test]
fn split_like_str_split() {
    assert_eq!(split_commas("a,b"), vec!["a", "b"]);
    assert_eq!(split_commas(""), vec![""]);
    assert_eq!(split_commas("a,"), vec!["a", ""]);
    assert_eq!(split_commas("ñ,,é"), vec!["ñ", "", "é"]);
}

#[test]
fn times() {
    assert_eq!(parse_time("1h 30min").ok(), Some(90));
    assert_eq!(parse_time("90s").ok(), Some(2));
    assert_eq!(parse_time("29s").ok(), Some(0));
    assert_eq!(parse_time("45").ok(), Some(45));
    assert!(matches!(parse_time("soon"), Err(MetadataError::ParseIntError)));
}

#[test]
fn numbers_as_str_parse() {
    assert_eq!(std_parse_u32("+4"), Some(4));
    assert_eq!(std_parse_u32("4"), Some(4));
    assert_eq!(std_parse_u32("+"), None);
    assert_eq!(std_parse_u32("-4"), None);
    assert_eq!(std_parse_u32("4294967295"), Some(4294967295));
    assert_eq!(std_parse_u32("4294967296"), None);
}

#[test]
fn insert_values() {
    let mut m = Metadata::default();
    assert!(m.insert("servings", "4").is_ok());
    assert_eq!(m.servings, Some(4));
    assert!(m.insert("tags", "easy, quick-meal").is_ok());
    assert_eq!(m.tags, vec!["easy", "quick-meal"]);
    assert!(matches!(m.insert("tags", "ok, 1bad"), Err(MetadataError::InvalidTag { .. })));
    assert_eq!(m.tags, vec!["easy", "quick-meal"]);
    assert!(m.insert("prep time", "10 min").is_ok());
    assert!(m.insert("cook_time", "20 min").is_ok());
    assert_eq!(
        m.time,
        Some(RecipeTime::Composed {
            prep_time: Some(10),
            cook_time: Some(20)
        })
    );
    assert_eq!(m.time.unwrap().total(), 30);
    assert!(m.insert("slug", "My Recipe").is_ok());
    assert_eq!(m.slug.as_deref(), Some("my-recipe"));
    assert!(m.insert("emoji", "🍝").is_ok());
    assert_eq!(m.emoji.as_deref(), Some("🍝"));
    assert!(matches!(m.insert("emoji", "pasta"), Err(MetadataError::NotEmoji { .. })));
    assert!(m.insert("anything", "else").is_ok());
    assert_eq!(m.map.len(), 7);
    assert_eq!(m.map.get("anything").map(String::as_str), Some("else"));
}

#[test]
fn names_and_urls() {
    let a = NameAndUrl::new("Jane Doe <https://example.com>");
    assert_eq!(a.name.as_deref(), Some("Jane Doe"));
    assert!(a.url.is_some());
    let b = NameAndUrl::new("https://example.com/recipe");
    assert_eq!(b.name, None);
    assert!(b.url.is_some());
    let c = NameAndUrl::new("Grandma");
    assert_eq!(c.name.as_deref(), Some("Grandma"));
    assert!(c.url.is_none());
}

#[test]
fn huge_durations_are_not_read_as_durations() {
    assert!(parse_time("18446744073709551615s 1000000000ns").is_err());
    assert_eq!(parse_time("90min").ok(), Some(90));
    assert_eq!(parse_time("1h 30min").ok(), Some(90));
}

#[test]
fn urls_are_kept_as_parsed() {
    let a = NameAndUrl::new("Jane Doe <HTTPS://Example.com/a>");
    assert_eq!(a.name.as_deref(), Some("Jane Doe"));
    assert_eq!(a.url.as_deref(), Some("https://example.com/a"));
}

#[test]
fn leading_zeros_do_not_stop_a_duration() {
    assert_eq!(parse_time("000000000001h").ok(), Some(60));
    assert_eq!(parse_time("0000000000000030 min").ok(), Some(30));
}

#[test]
fn long_whole_second_durations_are_read() {
    assert_eq!(parse_time("100000000000s").ok(), Some(1666666667));
    assert_eq!(parse_time("6000000000000 s").ok(), Some(u32::MAX));
    assert!(parse_time("100000000000.5s").is_err());
}
