//! What the library knows of units: the names units are known by, each
//! with the physical quantity it measures.
use vstd::prelude::*;

use crate::metadata::str_eq;
use self::units_file::PerPrefix;

pub mod builder;
pub mod units_file;

verus! {

/// A system of units.
#[derive(Debug, Clone, Copy, PartialEq, Eq, Structural)]
pub enum System {
    Metric,
    Imperial,
}

impl Default for System {
    /// The metric system.
    fn default() -> (r: Self)
        ensures
            r == System::Metric,
    {
        System::Metric
    }
}

/// "Unknown unit: '{0}'": no unit is known by this name.
#[derive(Debug, Clone, PartialEq)]
pub struct UnknownUnit(pub String);

/// What a unit measures.
#[derive(Debug, Clone, Copy, PartialEq, Eq, Structural)]
pub enum PhysicalQuantity {
    Volume,
    Mass,
    Length,
    Temperature,
    Time,
}

/// The characters of each string.
pub open spec fn views(v: Seq<String>) -> Seq<Seq<char>> {
    v.map_values(|s: String| s@)
}

/// A copy of the strings.
pub fn clone_strings(v: &Vec<String>) -> (r: Vec<String>)
    ensures
        r@ == v@,
{
    let mut r: Vec<String> = Vec::new();
    let mut i: usize = 0;
    while i < v.len()
        invariant
            0 <= i <= v@.len(),
            r@ == v@.take(i as int),
        decreases v@.len() - i,
    {
        r.push(v[i].clone());
        proof {
            assert(v@.take(i + 1) =~= v@.take(i as int).push(v@[i as int]));
        }
        i = i + 1;
    }
    proof {
        assert(v@.take(v@.len() as int) =~= v@);
    }
    r
}

/// A unit: the names, symbols and aliases it is known by, what it
/// measures and the system it belongs to, if any. A unit marked for it is
/// expanded with the SI prefixes into one unit for each prefix.
#[derive(Debug, Clone)]
pub struct Unit {
    /// The names the unit is written with in full.
    pub names: Vec<String>,
    /// The symbols (abbreviations) of the unit.
    pub symbols: Vec<String>,
    /// Other strings the unit is read from.
    pub aliases: Vec<String>,
    /// What the unit measures.
    pub physical_quantity: PhysicalQuantity,
    /// The system the unit belongs to, if any.
    pub system: Option<System>,
    /// Whether the unit is to be expanded with the SI prefixes.
    pub expand_si: bool,
    /// The units made from this one, one for each SI prefix, once expanded.
    pub expanded_units: Option<PerPrefix<usize>>,
}

impl Unit {
    /// Every key of the unit: its names, then its symbols, then its aliases.
    pub open spec fn keys(&self) -> Seq<Seq<char>> {
        views(self.names@) + views(self.symbols@) + views(self.aliases@)
    }

    /// The two units hold the same.
    pub open spec fn same(&self, other: &Unit) -> bool {
        &&& self.names@ == other.names@
        &&& self.symbols@ == other.symbols@
        &&& self.aliases@ == other.aliases@
        &&& self.physical_quantity == other.physical_quantity
        &&& self.system == other.system
        &&& self.expand_si == other.expand_si
        &&& self.expanded_units == other.expanded_units
    }

    /// A copy of the unit.
    pub fn duplicate(&self) -> (r: Unit)
        ensures
            r.same(self),
    {
        let expanded_units = match &self.expanded_units {
            Some(e) => Some(
                PerPrefix { kilo: e.kilo, hecto: e.hecto, deca: e.deca, deci: e.deci, centi: e.centi, milli: e.milli },
            ),
            None => None,
        };
        Unit {
            names: clone_strings(&self.names),
            symbols: clone_strings(&self.symbols),
            aliases: clone_strings(&self.aliases),
            physical_quantity: self.physical_quantity,
            system: self.system,
            expand_si: self.expand_si,
            expanded_units,
        }
    }

    /// The symbol the unit is shown with: its first symbol, else its first
    /// name, else its first alias.
    pub fn symbol(&self) -> (r: &str)
        requires
            self.keys().len() > 0,
        ensures
            r@ == (if self.symbols@.len() > 0 {
                self.symbols@[0]@
            } else if self.names@.len() > 0 {
                self.names@[0]@
            } else {
                self.aliases@[0]@
            }),
    {
        if self.symbols.len() > 0 {
            self.symbols[0].as_str()
        } else if self.names.len() > 0 {
            self.names[0].as_str()
        } else {
            self.aliases[0].as_str()
        }
    }
}

/// The value of `m` at `k`, if `k` is a key of it.
pub open spec fn lookup(m: Map<Seq<char>, usize>, k: Seq<char>) -> Option<usize> {
    if m.dom().contains(k) {
        Some(m[k])
    } else {
        None
    }
}

/// The keys units are known by, each with the place of its unit among all
/// the units.
pub struct KeyIndex {
    entries: Vec<(String, usize)>,
    keys: Ghost<Map<Seq<char>, usize>>,
}

impl KeyIndex {
    /// Each key with the place of its unit.
    pub closed spec fn map(&self) -> Map<Seq<char>, usize> {
        self.keys@
    }

    /// The entries hold each key of the map once, with its place.
    pub closed spec fn wf(&self) -> bool {
        &&& forall|i: int|
            0 <= i < self.entries@.len() ==> #[trigger] self.keys@.dom().contains(self.entries@[i].0@)
                && self.keys@[self.entries@[i].0@] == self.entries@[i].1
        &&& forall|k: Seq<char>|
            #[trigger] self.keys@.dom().contains(k) ==> exists|i: int|
                0 <= i < self.entries@.len() && #[trigger] self.entries@[i].0@ == k
        &&& forall|i: int, j: int|
            0 <= i < j < self.entries@.len() ==> (#[trigger] self.entries@[i]).0@ != (#[trigger] self.entries@[j]).0@
    }

    /// An index of no key.
    pub fn new() -> (r: Self)
        ensures
            r.wf(),
            r.map() == Map::<Seq<char>, usize>::empty(),
    {
        KeyIndex { entries: Vec::new(), keys: Ghost(Map::empty()) }
    }

    /// Where `key` is among the entries.
    fn position(&self, key: &str) -> (r: Option<usize>)
        requires
            self.wf(),
        ensures
            r matches Some(i) ==> i < self.entries@.len() && self.entries@[i as int].0@ == key@,
            r is None ==> !self.map().dom().contains(key@),
    {
        let mut i: usize = 0;
        while i < self.entries.len()
            invariant
                0 <= i <= self.entries@.len(),
                forall|k: int| 0 <= k < i ==> (#[trigger] self.entries@[k]).0@ != key@,
            decreases self.entries@.len() - i,
        {
            if str_eq(self.entries[i].0.as_str(), key) {
                return Some(i);
            }
            i = i + 1;
        }
        None
    }

    /// The place of the unit known by `key`, if any.
    pub fn get(&self, key: &str) -> (r: Option<usize>)
        requires
            self.wf(),
        ensures
            r == lookup(self.map(), key@),
    {
        match self.position(key) {
            Some(i) => Some(self.entries[i].1),
            None => None,
        }
    }

    /// The place of the unit known by `key`; an error naming the key when
    /// none is known by it.
    pub fn get_unit_id(&self, key: &str) -> (r: Result<usize, UnknownUnit>)
        requires
            self.wf(),
        ensures
            r matches Ok(i) ==> lookup(self.map(), key@) == Some(i),
            r matches Err(UnknownUnit(k)) ==> k@ == key@ && lookup(self.map(), key@) is None,
    {
        match self.get(key) {
            Some(i) => Ok(i),
            None => Err(UnknownUnit(key.to_owned())),
        }
    }

    /// Adds a key that is not known yet.
    pub fn insert_new(&mut self, key: String, id: usize)
        requires
            old(self).wf(),
            !old(self).map().dom().contains(key@),
        ensures
            final(self).wf(),
            final(self).map() == old(self).map().insert(key@, id),
    {
        let ghost k = key@;
        let ghost before = self.entries@;
        self.entries.push((key, id));
        self.keys = Ghost(self.keys@.insert(k, id));
        proof {
            assert forall|i: int| 0 <= i < self.entries@.len() implies #[trigger] self.keys@.dom().contains(
                self.entries@[i].0@,
            ) && self.keys@[self.entries@[i].0@] == self.entries@[i].1 by {
                if i < before.len() {
                    assert(self.entries@[i] == before[i]);
                }
            }
            assert forall|q: Seq<char>| #[trigger] self.keys@.dom().contains(q) implies exists|i: int|
                0 <= i < self.entries@.len() && #[trigger] self.entries@[i].0@ == q by {
                if q == k {
                    assert(self.entries@[before.len() as int].0@ == q);
                } else {
                    let i = choose|i: int| 0 <= i < before.len() && #[trigger] before[i].0@ == q;
                    assert(self.entries@[i] == before[i]);
                }
            }
            assert forall|i: int, j: int| 0 <= i < j < self.entries@.len() implies (
            #[trigger] self.entries@[i]).0@ != (#[trigger] self.entries@[j]).0@ by {
                assert(self.entries@[i] == before[i]);
                if j < before.len() {
                    assert(self.entries@[j] == before[j]);
                }
            }
        }
    }

    /// Removes `key`, if known.
    pub fn remove(&mut self, key: &str)
        requires
            old(self).wf(),
        ensures
            final(self).wf(),
            final(self).map() == old(self).map().remove(key@),
    {
        match self.position(key) {
            Some(p) => {
                let ghost before = self.entries@;
                self.entries.remove(p);
                self.keys = Ghost(self.keys@.remove(key@));
                proof {
                    assert forall|i: int| 0 <= i < self.entries@.len() implies #[trigger] self.keys@.dom().contains(
                        self.entries@[i].0@,
                    ) && self.keys@[self.entries@[i].0@] == self.entries@[i].1 by {
                        if i < p {
                            assert(self.entries@[i] == before[i]);
                        } else {
                            assert(self.entries@[i] == before[i + 1]);
                        }
                    }
                    assert forall|q: Seq<char>| #[trigger] self.keys@.dom().contains(q) implies exists|i: int|
                        0 <= i < self.entries@.len() && #[trigger] self.entries@[i].0@ == q by {
                        let i = choose|i: int| 0 <= i < before.len() && #[trigger] before[i].0@ == q;
                        if i < p {
                            assert(self.entries@[i] == before[i]);
                        } else {
                            assert(self.entries@[i - 1] == before[i]);
                        }
                    }
                    assert forall|i: int, j: int| 0 <= i < j < self.entries@.len() implies (
                    #[trigger] self.entries@[i]).0@ != (#[trigger] self.entries@[j]).0@ by {
                        let a = if i < p { i } else { i + 1 };
                        let b = if j < p { j } else { j + 1 };
                        assert(self.entries@[i] == before[a]);
                        assert(self.entries@[j] == before[b]);
                    }
                }
            },
            None => {
                proof {
                    assert(self.keys@.remove(key@) =~= self.keys@);
                }
            },
        }
    }
}

/// One value for each physical quantity.
#[derive(Debug, Clone)]
pub struct PerQuantity<T> {
    pub volume: T,
    pub mass: T,
    pub length: T,
    pub temperature: T,
    pub time: T,
}

impl<T> PerQuantity<T> {
    /// The value for `q`.
    pub open spec fn at(&self, q: PhysicalQuantity) -> T {
        match q {
            PhysicalQuantity::Volume => self.volume,
            PhysicalQuantity::Mass => self.mass,
            PhysicalQuantity::Length => self.length,
            PhysicalQuantity::Temperature => self.temperature,
            PhysicalQuantity::Time => self.time,
        }
    }

    /// The values, with `v` for `q`.
    pub open spec fn with(self, q: PhysicalQuantity, v: T) -> Self {
        match q {
            PhysicalQuantity::Volume => PerQuantity { volume: v, ..self },
            PhysicalQuantity::Mass => PerQuantity { mass: v, ..self },
            PhysicalQuantity::Length => PerQuantity { length: v, ..self },
            PhysicalQuantity::Temperature => PerQuantity { temperature: v, ..self },
            PhysicalQuantity::Time => PerQuantity { time: v, ..self },
        }
    }

    /// The value for `q`.
    pub fn get(&self, q: PhysicalQuantity) -> (r: &T)
        ensures
            *r == self.at(q),
    {
        match q {
            PhysicalQuantity::Volume => &self.volume,
            PhysicalQuantity::Mass => &self.mass,
            PhysicalQuantity::Length => &self.length,
            PhysicalQuantity::Temperature => &self.temperature,
            PhysicalQuantity::Time => &self.time,
        }
    }

    /// Sets the value for `q`.
    pub fn set(&mut self, q: PhysicalQuantity, v: T)
        ensures
            *final(self) == old(self).with(q, v),
    {
        match q {
            PhysicalQuantity::Volume => self.volume = v,
            PhysicalQuantity::Mass => self.mass = v,
            PhysicalQuantity::Length => self.length = v,
            PhysicalQuantity::Temperature => self.temperature = v,
            PhysicalQuantity::Time => self.time = v,
        }
    }
}

/// The physical quantities, in order.
pub open spec fn all_quantities() -> Seq<PhysicalQuantity> {
    seq![
        PhysicalQuantity::Volume,
        PhysicalQuantity::Mass,
        PhysicalQuantity::Length,
        PhysicalQuantity::Temperature,
        PhysicalQuantity::Time,
    ]
}

/// The places of the units that measure `q`, in order.
pub open spec fn ids_of(units: Seq<Unit>, q: PhysicalQuantity) -> Seq<usize>
    decreases units.len(),
{
    if units.len() == 0 {
        Seq::empty()
    } else if units.last().physical_quantity == q {
        ids_of(units.drop_last(), q).push((units.len() - 1) as usize)
    } else {
        ids_of(units.drop_last(), q)
    }
}

/// The best units of a physical quantity, by their places among all the
/// units, in the order they are listed.
#[derive(Debug, Clone)]
pub struct BestConversions(pub Vec<usize>);

/// The best units of a physical quantity: the same for every system, or
/// by system.
#[derive(Debug, Clone)]
pub enum BestConversionsStore {
    Unified(BestConversions),
    BySystem { metric: BestConversions, imperial: BestConversions },
}

/// Every place is below `n`.
pub open spec fn places_below(v: Seq<usize>, n: int) -> bool {
    forall|k: int| 0 <= k < v.len() ==> #[trigger] v[k] < n
}

/// Every best unit of the store is below `n`.
pub open spec fn store_below(s: BestConversionsStore, n: int) -> bool {
    match s {
        BestConversionsStore::Unified(b) => places_below(b.0@, n),
        BestConversionsStore::BySystem { metric, imperial } => places_below(metric.0@, n) && places_below(
            imperial.0@,
            n,
        ),
    }
}

/// What is known of units: each unit, the keys it is known by, the units
/// of each physical quantity, the best units of each and the default
/// system.
pub struct Converter {
    all_units: Vec<Unit>,
    unit_index: KeyIndex,
    quantity_index: PerQuantity<Vec<usize>>,
    best: PerQuantity<BestConversionsStore>,
    default_system: System,
}

impl Converter {
    /// The units.
    pub closed spec fn units(&self) -> Seq<Unit> {
        self.all_units@
    }

    /// Each key with the place of its unit.
    pub closed spec fn index(&self) -> Map<Seq<char>, usize> {
        self.unit_index.map()
    }

    /// The best units of each physical quantity.
    pub closed spec fn best_spec(&self) -> PerQuantity<BestConversionsStore> {
        self.best
    }

    /// The places of the units of each physical quantity.
    pub closed spec fn quantity_units(&self, q: PhysicalQuantity) -> Seq<usize> {
        self.quantity_index.at(q)@
    }

    /// The default system.
    pub closed spec fn default_system_spec(&self) -> System {
        self.default_system
    }

    /// Every key and best unit leads to a unit, and the units of each
    /// quantity are those that measure it.
    pub closed spec fn wf(&self) -> bool {
        &&& self.unit_index.wf()
        &&& forall|k: Seq<char>| #[trigger]
            self.unit_index.map().dom().contains(k) ==> self.unit_index.map()[k] < self.all_units@.len()
        &&& forall|q: PhysicalQuantity| #[trigger] self.quantity_index.at(q)@ == ids_of(self.all_units@, q)
        &&& forall|q: PhysicalQuantity| store_below(#[trigger] self.best.at(q), self.all_units@.len() as int)
    }

    /// Puts the parts together.
    pub(crate) fn from_parts(
        all_units: Vec<Unit>,
        unit_index: KeyIndex,
        quantity_index: PerQuantity<Vec<usize>>,
        best: PerQuantity<BestConversionsStore>,
        default_system: System,
    ) -> (r: Self)
        ensures
            r.units() == all_units@,
            r.index() == unit_index.map(),
            r.best_spec() == best,
            forall|q: PhysicalQuantity| #[trigger] r.quantity_units(q) == quantity_index.at(q)@,
            r.default_system_spec() == default_system,
            (unit_index.wf() && (forall|k: Seq<char>| #[trigger]
                unit_index.map().dom().contains(k) ==> unit_index.map()[k] < all_units@.len()) && (forall|
                q: PhysicalQuantity,
            | #[trigger] quantity_index.at(q)@ == ids_of(all_units@, q)) && (forall|q: PhysicalQuantity|
                store_below(#[trigger] best.at(q), all_units@.len() as int))) ==> r.wf(),
    {
        Converter { all_units, unit_index, quantity_index, best, default_system }
    }

    /// The default system.
    pub fn default_system(&self) -> (r: System)
        ensures
            r == self.default_system_spec(),
    {
        self.default_system
    }

    /// How many units are known (each name of a unit is not another).
    pub fn unit_count(&self) -> (r: usize)
        ensures
            r == self.units().len(),
    {
        self.all_units.len()
    }

    /// The units.
    pub fn all_units(&self) -> (r: &Vec<Unit>)
        ensures
            r@ == self.units(),
    {
        &self.all_units
    }

    /// The unit known by `key`, if any.
    pub fn find_unit(&self, key: &str) -> (r: Option<&Unit>)
        requires
            self.wf(),
        ensures
            match lookup(self.index(), key@) {
                Some(i) => r matches Some(u) && *u == self.units()[i as int],
                None => r is None,
            },
    {
        match self.unit_index.get(key) {
            Some(i) => Some(&self.all_units[i]),
            None => None,
        }
    }

    /// Whether `unit` is among the best units of its system (or of every
    /// system) for its physical quantity; a unit of no system is not, when
    /// the best units go by system. The unit is found by its symbol.
    #[verifier::loop_isolation(false)]
    pub fn is_best_unit(&self, unit: &Unit) -> (r: bool)
        requires
            self.wf(),
            unit.keys().len() > 0,
            lookup(
                self.index(),
                if unit.symbols@.len() > 0 {
                    unit.symbols@[0]@
                } else if unit.names@.len() > 0 {
                    unit.names@[0]@
                } else {
                    unit.aliases@[0]@
                },
            ) is Some,
        ensures
            ({
                let id = lookup(
                    self.index(),
                    if unit.symbols@.len() > 0 {
                        unit.symbols@[0]@
                    } else if unit.names@.len() > 0 {
                        unit.names@[0]@
                    } else {
                        unit.aliases@[0]@
                    },
                )->0;
                r == match self.best_spec().at(unit.physical_quantity) {
                    BestConversionsStore::Unified(b) => b.0@.contains(id),
                    BestConversionsStore::BySystem { metric, imperial } => match unit.system {
                        Some(System::Metric) => metric.0@.contains(id),
                        Some(System::Imperial) => imperial.0@.contains(id),
                        None => false,
                    },
                }
            }),
    {
        let id = match self.unit_index.get(unit.symbol()) {
            Some(i) => i,
            None => 0,
        };
        let list = match self.best.get(unit.physical_quantity) {
            BestConversionsStore::Unified(b) => &b.0,
            BestConversionsStore::BySystem { metric, imperial } => match unit.system {
                Some(System::Metric) => &metric.0,
                Some(System::Imperial) => &imperial.0,
                None => {
                    return false;
                },
            },
        };
        let ghost want = list@;
        let mut i: usize = 0;
        while i < list.len()
            invariant
                want == list@,
                0 <= i <= list@.len(),
                forall|k: int| 0 <= k < i ==> list@[k] != id,
            decreases list@.len() - i,
        {
            if list[i] == id {
                proof {
                    assert(want[i as int] == id);
                }
                return true;
            }
            i = i + 1;
        }
        false
    }

}

/// A name (or symbol, or alias) that a unit is known by, and what the
/// unit measures.
#[derive(Debug, Clone)]
pub struct KnownUnit {
    pub key: String,
    pub physical_quantity: PhysicalQuantity,
}

/// No name is known twice.
pub open spec fn keys_distinct(units: Seq<KnownUnit>) -> bool {
    forall|i: int, j: int| 0 <= i < j < units.len() ==> (#[trigger] units[i]).key@ != (#[trigger] units[j]).key@
}

/// What the unit known by `key` measures, if a unit is known by it.
pub open spec fn unit_of(units: Seq<KnownUnit>, key: Seq<char>) -> Option<PhysicalQuantity> {
    if exists|i: int| 0 <= i < units.len() && (#[trigger] units[i]).key@ == key {
        let i = choose|i: int| 0 <= i < units.len() && (#[trigger] units[i]).key@ == key;
        Some(units[i].physical_quantity)
    } else {
        None
    }
}

/// The known units, looked up by name; no name is known twice.
pub struct UnitIndex {
    units: Vec<KnownUnit>,
}

impl UnitIndex {
    /// The known units.
    pub closed spec fn units_spec(&self) -> Seq<KnownUnit> {
        self.units@
    }

    /// No name is known twice.
    #[verifier::type_invariant]
    spec fn distinct(self) -> bool {
        keys_distinct(self.units@)
    }

    /// An index that knows no unit.
    pub fn empty() -> (r: Self)
        ensures
            r.units_spec().len() == 0,
    {
        UnitIndex { units: Vec::new() }
    }

    /// Adds a unit known by `key`; `false`, and no change, when a unit is
    /// already known by that name.
    pub fn add(&mut self, key: String, physical_quantity: PhysicalQuantity) -> (r: bool)
        ensures
            r == (unit_of(old(self).units_spec(), key@) is None),
            r ==> final(self).units_spec() == old(self).units_spec().push(KnownUnit { key, physical_quantity }),
            !r ==> final(self).units_spec() == old(self).units_spec(),
    {
        proof {
            use_type_invariant(&*self);
        }
        if self.position(key.as_str()).is_some() {
            return false;
        }
        let ghost before = self.units@;
        let unit = KnownUnit { key, physical_quantity };
        let ghost after = before.push(unit);
        proof {
            assert forall|i: int, j: int| 0 <= i < j < after.len() implies (#[trigger] after[i]).key@
                != (#[trigger] after[j]).key@ by {
                if j == before.len() {
                    assert(after[i] == before[i]);
                }
            }
        }
        let mut units: Vec<KnownUnit> = Vec::new();
        std::mem::swap(&mut units, &mut self.units);
        units.push(unit);
        self.units = units;
        true
    }

    /// Where the unit known by `key` is.
    fn position(&self, key: &str) -> (r: Option<usize>)
        ensures
            r matches Some(i) ==> i < self.units_spec().len() && self.units_spec()[i as int].key@ == key@,
            r is None ==> forall|i: int| 0 <= i < self.units_spec().len() ==> (#[trigger] self.units_spec()[i]).key@ != key@,
    {
        let mut i: usize = 0;
        while i < self.units.len()
            invariant
                0 <= i <= self.units@.len(),
                forall|k: int| 0 <= k < i ==> (#[trigger] self.units@[k]).key@ != key@,
            decreases self.units@.len() - i,
        {
            if str_eq(self.units[i].key.as_str(), key) {
                return Some(i);
            }
            i = i + 1;
        }
        None
    }

    /// Where the unit known by `key` is among the known units; an error
    /// naming the key when no unit is known by it.
    pub fn get_unit_id(&self, key: &str) -> (r: Result<usize, UnknownUnit>)
        ensures
            r matches Ok(i) ==> i < self.units_spec().len() && self.units_spec()[i as int].key@ == key@,
            r matches Err(UnknownUnit(k)) ==> k@ == key@ && unit_of(self.units_spec(), key@) is None,
    {
        match self.position(key) {
            Some(i) => Ok(i),
            None => Err(UnknownUnit(key.to_owned())),
        }
    }

    /// What the unit known by `key` measures, if a unit is known by it.
    pub fn get_unit(&self, key: &str) -> (r: Option<PhysicalQuantity>)
        ensures
            r == unit_of(self.units_spec(), key@),
    {
        proof {
            use_type_invariant(self);
        }
        match self.position(key) {
            Some(i) => {
                proof {
                    let j = choose|j: int| 0 <= j < self.units@.len() && (#[trigger] self.units@[j]).key@ == key@;
                    if j != i {
                        if j < i {
                            assert(self.units@[j].key@ != self.units@[i as int].key@);
                        } else {
                            assert(self.units@[i as int].key@ != self.units@[j].key@);
                        }
                    }
                }
                Some(self.units[i].physical_quantity)
            },
            None => None,
        }
    }
}

} // verus!
