//! The contents of a units file: groups of units by physical quantity, the
//! SI prefixes to expand units with, and extensions of units known from
//! earlier files. Conversion ratios are not held here: a unit is known by
//! its place among the units a file lists.
use vstd::prelude::*;

use super::{PhysicalQuantity, System};

verus! {

/// A prefix of the SI, in the order in which expansions are made.
#[derive(Debug, Clone, Copy, PartialEq, Eq, Structural)]
pub enum SIPrefix {
    Kilo,
    Hecto,
    Deca,
    Deci,
    Centi,
    Milli,
}

impl SIPrefix {
    /// The prefixes, in order.
    pub open spec fn all_spec() -> Seq<SIPrefix> {
        seq![
            SIPrefix::Kilo,
            SIPrefix::Hecto,
            SIPrefix::Deca,
            SIPrefix::Deci,
            SIPrefix::Centi,
            SIPrefix::Milli,
        ]
    }

    /// The prefixes, in order.
    pub fn all() -> (r: Vec<SIPrefix>)
        ensures
            r@ == Self::all_spec(),
    {
        vec![
            SIPrefix::Kilo,
            SIPrefix::Hecto,
            SIPrefix::Deca,
            SIPrefix::Deci,
            SIPrefix::Centi,
            SIPrefix::Milli,
        ]
    }
}

/// One value for each SI prefix.
#[verifier::ext_equal]
#[derive(Debug, Clone)]
pub struct PerPrefix<T> {
    pub kilo: T,
    pub hecto: T,
    pub deca: T,
    pub deci: T,
    pub centi: T,
    pub milli: T,
}

impl<T> PerPrefix<T> {
    /// The value for `p`.
    pub open spec fn at(&self, p: SIPrefix) -> T {
        match p {
            SIPrefix::Kilo => self.kilo,
            SIPrefix::Hecto => self.hecto,
            SIPrefix::Deca => self.deca,
            SIPrefix::Deci => self.deci,
            SIPrefix::Centi => self.centi,
            SIPrefix::Milli => self.milli,
        }
    }

    /// The value for `p`.
    pub fn get(&self, p: SIPrefix) -> (r: &T)
        ensures
            *r == self.at(p),
    {
        match p {
            SIPrefix::Kilo => &self.kilo,
            SIPrefix::Hecto => &self.hecto,
            SIPrefix::Deca => &self.deca,
            SIPrefix::Deci => &self.deci,
            SIPrefix::Centi => &self.centi,
            SIPrefix::Milli => &self.milli,
        }
    }

    /// Sets the value for `p`.
    pub fn set(&mut self, p: SIPrefix, v: T)
        ensures
            final(self).at(p) == v,
            forall|q: SIPrefix| q != p ==> #[trigger] final(self).at(q) == old(self).at(q),
    {
        match p {
            SIPrefix::Kilo => self.kilo = v,
            SIPrefix::Hecto => self.hecto = v,
            SIPrefix::Deca => self.deca = v,
            SIPrefix::Deci => self.deci = v,
            SIPrefix::Centi => self.centi = v,
            SIPrefix::Milli => self.milli = v,
        }
    }
}

/// Where the entries of a later file go among those known before.
#[derive(Debug, Clone, Copy, PartialEq, Eq, Structural)]
pub enum Precedence {
    Before,
    After,
    Override,
}

impl Default for Precedence {
    /// Before the known ones.
    fn default() -> (r: Self)
        ensures
            r == Precedence::Before,
    {
        Precedence::Before
    }
}

/// How units are expanded with the SI prefixes: the prefixes of names and
/// those of symbols, for each prefix.
#[derive(Debug, Clone)]
pub struct SI {
    pub prefixes: Option<PerPrefix<Vec<String>>>,
    pub symbol_prefixes: Option<PerPrefix<Vec<String>>>,
    pub precedence: Precedence,
}

impl Default for SI {
    /// No prefixes.
    fn default() -> (r: Self)
        ensures
            r.prefixes is None,
            r.symbol_prefixes is None,
            r.precedence == Precedence::Before,
    {
        SI { prefixes: None, symbol_prefixes: None, precedence: Precedence::Before }
    }
}

/// Names, symbols and aliases to add to units known from earlier files,
/// each list under a key of the unit it extends.
#[derive(Debug, Clone)]
pub struct Extend {
    pub precedence: Precedence,
    pub names: Vec<(String, Vec<String>)>,
    pub symbols: Vec<(String, Vec<String>)>,
    pub aliases: Vec<(String, Vec<String>)>,
}

/// The units a value may be shown in, by their keys: the same for every
/// system, or one list per system.
#[derive(Debug, Clone)]
pub enum BestUnits {
    Unified(Vec<String>),
    BySystem { metric: Vec<String>, imperial: Vec<String> },
}

/// A unit as a file lists it.
#[derive(Debug, Clone)]
pub struct UnitEntry {
    pub names: Vec<String>,
    pub symbols: Vec<String>,
    pub aliases: Vec<String>,
    pub expand_si: bool,
}

/// The units of a group: in no system, or by system.
#[derive(Debug, Clone)]
pub enum Units {
    Unified(Vec<UnitEntry>),
    BySystem { metric: Vec<UnitEntry>, imperial: Vec<UnitEntry>, unspecified: Vec<UnitEntry> },
}

/// The units of one physical quantity.
#[derive(Debug, Clone)]
pub struct QuantityGroup {
    pub quantity: PhysicalQuantity,
    pub best: Option<BestUnits>,
    pub units: Units,
}

/// A units file.
#[derive(Debug, Clone)]
pub struct UnitsFile {
    pub default_system: Option<System>,
    pub si: Option<SI>,
    pub extend: Option<Extend>,
    pub quantity: Vec<QuantityGroup>,
}

} // verus!
