use cooklang::convert::builder::{ConverterBuilder, ConverterBuilderError};
use cooklang::convert::units_file::{
    BestUnits, Extend, PerPrefix, Precedence, QuantityGroup, UnitEntry, Units, UnitsFile, SI,
};
use cooklang::convert::{PhysicalQuantity, System};

fn strings(v: &[&str]) -> Vec<String> {
    v.iter().map(|s| s.to_string()).collect()
}

fn entry(names: &[&str], symbols: &[&str], expand_si: bool) -> UnitEntry {
    UnitEntry { names: strings(names), symbols: strings(symbols), aliases: Vec::new(), expand_si }
}

fn prefixes(v: [&str; 6]) -> PerPrefix<Vec<String>> {
    PerPrefix {
        kilo: strings(&[v[0]]),
        hecto: strings(&[v[1]]),
        deca: strings(&[v[2]]),
        deci: strings(&[v[3]]),
        centi: strings(&[v[4]]),
        milli: strings(&[v[5]]),
    }
}

fn group(q: PhysicalQuantity, best: &str, units: Vec<UnitEntry>) -> QuantityGroup {
    QuantityGroup { quantity: q, best: Some(BestUnits::Unified(strings(&[best]))), units: Units::Unified(units) }
}

fn file(extend: Option<Extend>) -> UnitsFile {
    UnitsFile {
        default_system: Some(System::Imperial),
        si: Some(SI {
            prefixes: Some(prefixes(["kilo", "hecto", "deca", "deci", "centi", "milli"])),
            symbol_prefixes: Some(prefixes(["k", "h", "da", "d", "c", "m"])),
            precedence: Precedence::Before,
        }),
        extend,
        quantity: vec![
            group(PhysicalQuantity::Mass, "g", vec![entry(&["gram"], &["g"], true)]),
            group(PhysicalQuantity::Volume, "l", vec![entry(&["litre"], &["l"], true)]),
            group(PhysicalQuantity::Length, "m", vec![entry(&["metre"], &["m"], false)]),
            group(PhysicalQuantity::Temperature, "C", vec![entry(&["celsius"], &["C"], false)]),
            group(PhysicalQuantity::Time, "min", vec![entry(&["minute"], &["min"], false)]),
        ],
    }
}

#[test]
fn units_expand_with_si_prefixes() {
    let mut b = ConverterBuilder::new();
    b.add_units_file(file(None)).unwrap();
    let c = b.finish().unwrap();
    assert_eq!(c.unit_count(), 5 + 12);
    assert_eq!(c.default_system(), System::Imperial);
    let kg = c.find_unit("kg").unwrap();
    assert_eq!(kg.names, strings(&["kilogram"]));
    assert_eq!(kg.physical_quantity, PhysicalQuantity::Mass);
    assert_eq!(c.find_unit("millilitre").unwrap().symbols, strings(&["ml"]));
    assert!(c.find_unit("kilometre").is_none());
    let g = c.find_unit("gram").unwrap();
    assert!(c.is_best_unit(g));
    assert!(!c.is_best_unit(kg));
}

#[test]
fn extensions_add_aliases_and_names() {
    let ext = Extend {
        precedence: Precedence::After,
        names: vec![("g".to_string(), strings(&["gramme"]))],
        symbols: Vec::new(),
        aliases: vec![("min".to_string(), strings(&["mins"]))],
    };
    let c = ConverterBuilder::new().with_units_file(file(Some(ext))).unwrap().finish().unwrap();
    assert_eq!(c.find_unit("mins").unwrap().names, strings(&["minute"]));
    assert_eq!(c.find_unit("gramme").unwrap().names, strings(&["gram", "gramme"]));
    assert_eq!(c.find_unit("kilogramme").unwrap().symbols, strings(&["kg"]));
}

#[test]
fn duplicate_keys_are_an_error() {
    let mut f = file(None);
    f.quantity.push(group(PhysicalQuantity::Mass, "g", vec![entry(&["grams"], &["g"], false)]));
    let r = ConverterBuilder::new().add_units_file(f);
    assert!(matches!(r, Err(ConverterBuilderError::DuplicateUnit { name }) if name == "g"));
}

#[test]
fn missing_best_units_is_an_error() {
    let mut f = file(None);
    f.quantity.pop();
    let mut b = ConverterBuilder::new();
    b.add_units_file(f).unwrap();
    let r = b.finish();
    assert!(matches!(
        r,
        Err(ConverterBuilderError::EmptyBest { reason: "no best units given", quantity: PhysicalQuantity::Time })
    ));
}

#[test]
fn unknown_key_in_extension_is_an_error() {
    let ext = Extend {
        precedence: Precedence::Before,
        names: Vec::new(),
        symbols: Vec::new(),
        aliases: vec![("ounce".to_string(), strings(&["oz"]))],
    };
    let r = ConverterBuilder::new().with_units_file(file(Some(ext))).unwrap().finish();
    assert!(matches!(r, Err(ConverterBuilderError::UnknownUnit(u)) if u.0 == "ounce"));
}

#[test]
fn colliding_expansions_are_a_duplicate() {
    let mut f = file(None);
    f.quantity[2] = group(
        PhysicalQuantity::Length,
        "m",
        vec![entry(&["metre"], &["m"], false), entry(&["kilogram"], &["x"], false)],
    );
    let mut b = ConverterBuilder::new();
    b.add_units_file(f).unwrap();
    let r = b.finish();
    assert!(matches!(r, Err(ConverterBuilderError::DuplicateUnit { name }) if name == "kilogram"));
}

#[test]
fn expansion_without_prefixes_is_an_error() {
    let mut f = file(None);
    f.si = None;
    let mut b = ConverterBuilder::new();
    b.add_units_file(f).unwrap();
    assert!(matches!(b.finish(), Err(ConverterBuilderError::EmptySIPrefixes)));
}
