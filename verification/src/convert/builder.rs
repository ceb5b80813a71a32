//! Building the known units from units files: the units of each file are
//! added in order, then [ConverterBuilder::finish] expands units with the
//! SI prefixes, applies the extensions and resolves the best units.
use vstd::prelude::*;

use super::units_file::{BestUnits, Extend, PerPrefix, Precedence, QuantityGroup, SIPrefix, UnitEntry, Units, UnitsFile, SI};
use super::{
    clone_strings, ids_of, lookup, places_below, store_below, views, BestConversions, BestConversionsStore, Converter,
    KeyIndex, PerQuantity, PhysicalQuantity, System, Unit, UnknownUnit,
};
use crate::ast::{is_blank, lemma_trim_empty, str_trim};
use crate::encoding::str_chars;
use crate::metadata::string_from_chars;

verus! {

/// Why the units could not be built.
#[derive(Debug)]
pub enum ConverterBuilderError {
    /// "Duplicate unit: {name}": a key names two units.
    DuplicateUnit { name: String },
    /// A key names no unit.
    UnknownUnit(UnknownUnit),
    /// A unit has no name, symbol or alias.
    EmptyUnit { unit: Box<Unit> },
    /// A name, symbol or alias of a unit is blank.
    EmptyUnitKey { unit: Box<Unit> },
    /// The best units of a physical quantity are missing or empty.
    EmptyBest { reason: &'static str, quantity: PhysicalQuantity },
    /// A unit is to be expanded and no SI prefixes are known.
    EmptySIPrefixes,
    /// A best unit of one system belongs to another.
    IncorrectUnitSystem { unit: Box<Unit>, expected: System, got: System },
}

/// What is wrong with the keys of a unit.
pub enum KeyProblem {
    /// It has none.
    Empty,
    /// One is blank.
    Blank,
    /// One is known already.
    Duplicate(Seq<char>),
}

/// The first problem among the keys `ks`, added one by one to those
/// `known`: a blank key, or one known already.
pub open spec fn keys_problem(known: Set<Seq<char>>, ks: Seq<Seq<char>>) -> Option<KeyProblem>
    decreases ks.len(),
{
    if ks.len() == 0 {
        None
    } else if is_blank(ks[0]) {
        Some(KeyProblem::Blank)
    } else if known.contains(ks[0]) {
        Some(KeyProblem::Duplicate(ks[0]))
    } else {
        keys_problem(known.insert(ks[0]), ks.drop_first())
    }
}

/// `m` with each of `ks` leading to `id`.
pub open spec fn insert_keys(m: Map<Seq<char>, usize>, ks: Seq<Seq<char>>, id: usize) -> Map<Seq<char>, usize>
    decreases ks.len(),
{
    if ks.len() == 0 {
        m
    } else {
        insert_keys(m.insert(ks[0], id), ks.drop_first(), id)
    }
}

/// The index after adding the keys of `u` as those of unit `id`, or the
/// problem with them.
pub open spec fn unit_added(m: Map<Seq<char>, usize>, u: Unit, id: usize) -> Result<Map<Seq<char>, usize>, KeyProblem> {
    keys_added(m, u.keys(), id)
}

/// The index after adding units with the lists of keys `kss`, in order,
/// as units `n`, `n + 1`, ...; `None` when the keys of one have a problem.
pub open spec fn keys_chain(m: Map<Seq<char>, usize>, kss: Seq<Seq<Seq<char>>>, n: int) -> Option<
    Map<Seq<char>, usize>,
>
    decreases kss.len(),
{
    if kss.len() == 0 {
        Some(m)
    } else {
        match keys_added(m, kss[0], n as usize) {
            Ok(m2) => keys_chain(m2, kss.drop_first(), n + 1),
            Err(_) => None,
        }
    }
}

/// The error reports the problem.
pub open spec fn reports(e: ConverterBuilderError, p: KeyProblem) -> bool {
    match p {
        KeyProblem::Empty => e is EmptyUnit,
        KeyProblem::Blank => e is EmptyUnitKey,
        KeyProblem::Duplicate(k) => e matches ConverterBuilderError::DuplicateUnit { name } && name@ == k,
    }
}

/// The first of `ks` that is known already, added one by one to those
/// `known`.
pub open spec fn first_known(known: Set<Seq<char>>, ks: Seq<Seq<char>>) -> Option<Seq<char>>
    decreases ks.len(),
{
    if ks.len() == 0 {
        None
    } else if known.contains(ks[0]) {
        Some(ks[0])
    } else {
        first_known(known.insert(ks[0]), ks.drop_first())
    }
}

/// Every key of a unit: its names, then its symbols, then its aliases.
fn all_keys(unit: &Unit) -> (r: Vec<&str>)
    ensures
        r@.map_values(|s: &str| s@) == unit.keys(),
{
    let mut r: Vec<&str> = Vec::new();
    let ghost ks = unit.keys();
    let ghost a = unit.names@.len();
    let ghost b = a + unit.symbols@.len();
    let mut i: usize = 0;
    while i < unit.names.len()
        invariant
            ks == unit.keys(),
            a == unit.names@.len(),
            0 <= i <= unit.names@.len(),
            r@.len() == i,
            forall|k: int| 0 <= k < i ==> (#[trigger] r@[k])@ == ks[k],
        decreases unit.names@.len() - i,
    {
        r.push(unit.names[i].as_str());
        i = i + 1;
    }
    let mut i: usize = 0;
    while i < unit.symbols.len()
        invariant
            ks == unit.keys(),
            a == unit.names@.len(),
            b == a + unit.symbols@.len(),
            0 <= i <= unit.symbols@.len(),
            r@.len() == a + i,
            forall|k: int| 0 <= k < a + i ==> (#[trigger] r@[k])@ == ks[k],
        decreases unit.symbols@.len() - i,
    {
        r.push(unit.symbols[i].as_str());
        i = i + 1;
    }
    let mut i: usize = 0;
    while i < unit.aliases.len()
        invariant
            ks == unit.keys(),
            b == unit.names@.len() + unit.symbols@.len(),
            0 <= i <= unit.aliases@.len(),
            r@.len() == b + i,
            forall|k: int| 0 <= k < b + i ==> (#[trigger] r@[k])@ == ks[k],
        decreases unit.aliases@.len() - i,
    {
        r.push(unit.aliases[i].as_str());
        i = i + 1;
    }
    proof {
        assert(r@.map_values(|s: &str| s@) =~= ks);
    }
    r
}

impl KeyIndex {
    /// Adds the keys of `unit` as those of unit `id`: an error for the
    /// first key that is blank or known already, or when the unit has no
    /// key; else how many keys were added.
    pub fn add_unit(&mut self, unit: &Unit, id: usize) -> (r: Result<usize, ConverterBuilderError>)
        requires
            old(self).wf(),
        ensures
            final(self).wf(),
            match unit_added(old(self).map(), *unit, id) {
                Ok(m) => r matches Ok(n) && n == unit.keys().len() && final(self).map() == m,
                Err(p) => r matches Err(e) && reports(e, p),
            },
    {
        let keys = all_keys(unit);
        let ghost ks = unit.keys();
        let ghost m0 = self.map();
        proof {
            assert(ks.skip(0) =~= ks);
        }
        let mut i: usize = 0;
        while i < keys.len()
            invariant
                self.wf(),
                0 <= i <= keys@.len(),
                keys@.map_values(|s: &str| s@) == ks,
                m0 == old(self).map(),
                ks == unit.keys(),
                keys_problem(m0.dom(), ks) == keys_problem(self.map().dom(), ks.skip(i as int)),
                insert_keys(m0, ks, id) == insert_keys(self.map(), ks.skip(i as int), id),
            decreases keys@.len() - i,
        {
            let key = keys[i];
            proof {
                assert(ks.skip(i as int)[0] == key@);
                assert(ks.skip(i as int).drop_first() =~= ks.skip(i + 1));
            }
            let t = str_trim(key);
            proof {
                lemma_trim_empty(key@, t@);
            }
            if t.is_empty() {
                proof {
                    assert(is_blank(ks.skip(i as int)[0]));
                    assert(keys_problem(self.map().dom(), ks.skip(i as int)) == Some(KeyProblem::Blank));
                }
                return Err(ConverterBuilderError::EmptyUnitKey { unit: Box::new(unit.duplicate()) });
            }
            if self.get(key).is_some() {
                return Err(ConverterBuilderError::DuplicateUnit { name: key.to_owned() });
            }
            self.insert_new(key.to_owned(), id);
            i = i + 1;
        }
        proof {
            assert(ks.skip(keys@.len() as int) =~= Seq::<Seq<char>>::empty());
        }
        if keys.len() == 0 {
            return Err(ConverterBuilderError::EmptyUnit { unit: Box::new(unit.duplicate()) });
        }
        Ok(keys.len())
    }

    /// Adds `aliases` as keys of unit `id`: an error for the first that is
    /// known already.
    pub fn add_aliases(&mut self, unit_id: usize, aliases: &Vec<String>) -> (r: Result<(), ConverterBuilderError>)
        requires
            old(self).wf(),
        ensures
            final(self).wf(),
            match first_known(old(self).map().dom(), views(aliases@)) {
                None => r is Ok && final(self).map() == insert_keys(old(self).map(), views(aliases@), unit_id),
                Some(k) => r matches Err(ConverterBuilderError::DuplicateUnit { name }) && name@ == k,
            },
    {
        let ghost ks = views(aliases@);
        let ghost m0 = self.map();
        proof {
            assert(ks.skip(0) =~= ks);
        }
        let mut i: usize = 0;
        while i < aliases.len()
            invariant
                self.wf(),
                0 <= i <= aliases@.len(),
                ks == views(aliases@),
                m0 == old(self).map(),
                first_known(m0.dom(), ks) == first_known(self.map().dom(), ks.skip(i as int)),
                insert_keys(m0, ks, unit_id) == insert_keys(self.map(), ks.skip(i as int), unit_id),
            decreases aliases@.len() - i,
        {
            let alias = &aliases[i];
            proof {
                assert(ks.skip(i as int)[0] == alias@);
                assert(ks.skip(i as int).drop_first() =~= ks.skip(i + 1));
            }
            if self.get(alias.as_str()).is_some() {
                return Err(ConverterBuilderError::DuplicateUnit { name: alias.clone() });
            }
            self.insert_new(alias.clone(), unit_id);
            i = i + 1;
        }
        proof {
            assert(ks.skip(aliases@.len() as int) =~= Seq::<Seq<char>>::empty());
        }
        Ok(())
    }
}

/// A list of a unit joined with one from a later file: before it, after
/// it, or in its place.
pub open spec fn joined<T>(target: Seq<T>, src: Seq<T>, precedence: Precedence) -> Seq<T> {
    match precedence {
        Precedence::Before => src + target,
        Precedence::After => target + src,
        Precedence::Override => src,
    }
}

/// Joins `src` with the list `target`, as `precedence` says.
pub fn join_alias_vec(target: &mut Vec<String>, src: Vec<String>, precedence: Precedence)
    ensures
        final(target)@ == joined(old(target)@, src@, precedence),
{
    let mut src = src;
    match precedence {
        Precedence::Before => {
            src.append(target);
            *target = src;
        },
        Precedence::After => {
            target.append(&mut src);
        },
        Precedence::Override => {
            *target = src;
        },
    }
}

/// The lists of each prefix.
pub open spec fn prefix_lists(o: Option<PerPrefix<Vec<String>>>) -> Option<PerPrefix<Seq<String>>> {
    match o {
        Some(v) => Some(
            PerPrefix {
                kilo: v.kilo@,
                hecto: v.hecto@,
                deca: v.deca@,
                deci: v.deci@,
                centi: v.centi@,
                milli: v.milli@,
            },
        ),
        None => None,
    }
}

/// The prefixes known before (`a`) joined with those of a later file
/// (`b`): either alone when the other is missing, else each list of `b`
/// before or after that of `a`, or `b` in place of `a`.
pub open spec fn joined_prefixes(
    a: Option<PerPrefix<Seq<String>>>,
    b: Option<PerPrefix<Seq<String>>>,
    precedence: Precedence,
) -> Option<PerPrefix<Seq<String>>> {
    match (a, b) {
        (None, None) => None,
        (None, Some(v)) => Some(v),
        (Some(v), None) => Some(v),
        (Some(x), Some(y)) => match precedence {
            Precedence::Before => Some(
                PerPrefix {
                    kilo: y.kilo + x.kilo,
                    hecto: y.hecto + x.hecto,
                    deca: y.deca + x.deca,
                    deci: y.deci + x.deci,
                    centi: y.centi + x.centi,
                    milli: y.milli + x.milli,
                },
            ),
            Precedence::After => Some(
                PerPrefix {
                    kilo: x.kilo + y.kilo,
                    hecto: x.hecto + y.hecto,
                    deca: x.deca + y.deca,
                    deci: x.deci + y.deci,
                    centi: x.centi + y.centi,
                    milli: x.milli + y.milli,
                },
            ),
            Precedence::Override => Some(y),
        },
    }
}

/// Joins the prefixes of a later file (`b`) with those known (`a`).
pub fn join_prefixes(
    a: Option<PerPrefix<Vec<String>>>,
    b: Option<PerPrefix<Vec<String>>>,
    b_precedence: Precedence,
) -> (r: Option<PerPrefix<Vec<String>>>)
    ensures
        prefix_lists(r) == joined_prefixes(prefix_lists(a), prefix_lists(b), b_precedence),
{
    match (a, b) {
        (None, None) => None,
        (None, Some(v)) => Some(v),
        (Some(v), None) => Some(v),
        (Some(a), Some(b)) => match b_precedence {
            Precedence::Before => {
                let PerPrefix { kilo, hecto, deca, deci, centi, milli } = a;
                let mut r = b;
                join_alias_vec(&mut r.kilo, kilo, Precedence::After);
                join_alias_vec(&mut r.hecto, hecto, Precedence::After);
                join_alias_vec(&mut r.deca, deca, Precedence::After);
                join_alias_vec(&mut r.deci, deci, Precedence::After);
                join_alias_vec(&mut r.centi, centi, Precedence::After);
                join_alias_vec(&mut r.milli, milli, Precedence::After);
                Some(r)
            },
            Precedence::After => {
                let PerPrefix { kilo, hecto, deca, deci, centi, milli } = b;
                let mut r = a;
                join_alias_vec(&mut r.kilo, kilo, Precedence::After);
                join_alias_vec(&mut r.hecto, hecto, Precedence::After);
                join_alias_vec(&mut r.deca, deca, Precedence::After);
                join_alias_vec(&mut r.deci, deci, Precedence::After);
                join_alias_vec(&mut r.centi, centi, Precedence::After);
                join_alias_vec(&mut r.milli, milli, Precedence::After);
                Some(r)
            },
            Precedence::Override => Some(b),
        },
    }
}

/// Each of `ns` after each prefix of `ps`: all of `ns` after the first
/// prefix, then after the second, and so on.
pub open spec fn prefixed(ps: Seq<Seq<char>>, ns: Seq<Seq<char>>) -> Seq<Seq<char>>
    decreases ps.len(),
{
    if ps.len() == 0 {
        Seq::empty()
    } else {
        prefixed(ps.drop_last(), ns) + ns.map_values(|n: Seq<char>| ps.last() + n)
    }
}

/// `p` followed by `n`.
fn concat(p: &str, n: &str) -> (r: String)
    ensures
        r@ == p@ + n@,
{
    let mut cs = str_chars(p);
    let mut more = str_chars(n);
    cs.append(&mut more);
    string_from_chars(&cs)
}

/// Each of `names` after each of `prefixes`.
fn prefix_all(prefixes: &Vec<String>, names: &Vec<String>) -> (r: Vec<String>)
    ensures
        views(r@) == prefixed(views(prefixes@), views(names@)),
{
    let ghost ps = views(prefixes@);
    let ghost ns = views(names@);
    let mut r: Vec<String> = Vec::new();
    let mut i: usize = 0;
    while i < prefixes.len()
        invariant
            ps == views(prefixes@),
            ns == views(names@),
            0 <= i <= prefixes@.len(),
            views(r@) == prefixed(ps.take(i as int), ns),
        decreases prefixes@.len() - i,
    {
        let ghost before = views(r@);
        let mut j: usize = 0;
        while j < names.len()
            invariant
                ps == views(prefixes@),
                ns == views(names@),
                0 <= i < prefixes@.len(),
                0 <= j <= names@.len(),
                views(r@) == before + ns.take(j as int).map_values(|n: Seq<char>| ps[i as int] + n),
            decreases names@.len() - j,
        {
            let s = concat(prefixes[i].as_str(), names[j].as_str());
            let ghost old_r = r@;
            r.push(s);
            proof {
                assert(ps[i as int] == prefixes@[i as int]@);
                assert(ns[j as int] == names@[j as int]@);
                assert(views(r@) =~= views(old_r).push(s@));
                assert(ns.take(j + 1).map_values(|n: Seq<char>| ps[i as int] + n) =~= ns.take(j as int).map_values(
                    |n: Seq<char>| ps[i as int] + n,
                ).push(ps[i as int] + ns[j as int]));
                assert(views(r@) =~= before + ns.take(j + 1).map_values(|n: Seq<char>| ps[i as int] + n));
            }
            j = j + 1;
        }
        proof {
            assert(ps.take(i + 1).drop_last() =~= ps.take(i as int));
            assert(ns.take(names@.len() as int) =~= ns);
        }
        i = i + 1;
    }
    proof {
        assert(ps.take(prefixes@.len() as int) =~= ps);
    }
    r
}

/// The unit made from `unit` with prefix `p`: its names and symbols after
/// each prefix of `p`, no alias, the quantity and system of `unit`, and
/// itself not to be expanded.
pub open spec fn expanded_unit(unit: Unit, prefixes: PerPrefix<Vec<String>>, symbol_prefixes: PerPrefix<Vec<String>>, p: SIPrefix, e: Unit) -> bool {
    &&& views(e.names@) == prefixed(views(prefixes.at(p)@), views(unit.names@))
    &&& views(e.symbols@) == prefixed(views(symbol_prefixes.at(p)@), views(unit.symbols@))
    &&& e.aliases@.len() == 0
    &&& e.physical_quantity == unit.physical_quantity
    &&& e.system == unit.system
    &&& !e.expand_si
    &&& e.expanded_units is None
}

/// The keys of the unit made from `u` with the prefix `p`: its names with
/// the name prefixes and its symbols with the symbol prefixes.
pub open spec fn expansion_keys(u: Unit, ps: PerPrefix<Vec<String>>, ss: PerPrefix<Vec<String>>, p: SIPrefix) -> Seq<
    Seq<char>,
> {
    prefixed(views(ps.at(p)@), views(u.names@)) + prefixed(views(ss.at(p)@), views(u.symbols@))
}

/// The keys of the units made from `u`, prefix by prefix, from kilo to
/// milli.
pub open spec fn expansions_keys(u: Unit, ps: PerPrefix<Vec<String>>, ss: PerPrefix<Vec<String>>) -> Seq<
    Seq<Seq<char>>,
> {
    seq![
        expansion_keys(u, ps, ss, SIPrefix::Kilo),
        expansion_keys(u, ps, ss, SIPrefix::Hecto),
        expansion_keys(u, ps, ss, SIPrefix::Deca),
        expansion_keys(u, ps, ss, SIPrefix::Deci),
        expansion_keys(u, ps, ss, SIPrefix::Centi),
        expansion_keys(u, ps, ss, SIPrefix::Milli),
    ]
}

/// The index after expanding, from the `i`-th on and in order, each of
/// `units` that asks for SI prefixes into one unit per prefix, the units
/// made taking the places from `n` on; `None` when the keys of a unit made
/// are blank, none, or known already (to the index or to a unit made
/// before).
pub open spec fn expansions_added(
    units: Seq<Unit>,
    i: int,
    m: Map<Seq<char>, usize>,
    n: int,
    ps: PerPrefix<Vec<String>>,
    ss: PerPrefix<Vec<String>>,
) -> Option<Map<Seq<char>, usize>>
    decreases units.len() - i,
{
    if i < 0 || i >= units.len() {
        Some(m)
    } else if !units[i].expand_si {
        expansions_added(units, i + 1, m, n, ps, ss)
    } else {
        match keys_chain(m, expansions_keys(units[i], ps, ss), n) {
            Some(m2) => expansions_added(units, i + 1, m2, n + 6, ps, ss),
            None => None,
        }
    }
}

/// What the unit made from `u` with the prefix `p` holds.
pub open spec fn prefixed_view(u: Unit, ps: PerPrefix<Vec<String>>, ss: PerPrefix<Vec<String>>, p: SIPrefix) -> UnitView {
    UnitView {
        names: prefixed(views(ps.at(p)@), views(u.names@)),
        symbols: prefixed(views(ss.at(p)@), views(u.symbols@)),
        aliases: Seq::empty(),
        physical_quantity: u.physical_quantity,
        system: u.system,
        expand_si: false,
        expanded_units: None,
    }
}

/// What the units made from `u` hold, prefix by prefix, kilo to milli.
pub open spec fn prefixed_views(u: Unit, ps: PerPrefix<Vec<String>>, ss: PerPrefix<Vec<String>>) -> Seq<UnitView> {
    seq![
        prefixed_view(u, ps, ss, SIPrefix::Kilo),
        prefixed_view(u, ps, ss, SIPrefix::Hecto),
        prefixed_view(u, ps, ss, SIPrefix::Deca),
        prefixed_view(u, ps, ss, SIPrefix::Deci),
        prefixed_view(u, ps, ss, SIPrefix::Centi),
        prefixed_view(u, ps, ss, SIPrefix::Milli),
    ]
}

/// The places `n` to `n + 5`, prefix by prefix.
pub open spec fn places_from(n: int) -> PerPrefix<usize> {
    PerPrefix {
        kilo: n as usize,
        hecto: (n + 1) as usize,
        deca: (n + 2) as usize,
        deci: (n + 3) as usize,
        centi: (n + 4) as usize,
        milli: (n + 5) as usize,
    }
}

/// The unit table `acc` after expanding, from the `i`-th on and in order,
/// each of `units` that asks for SI prefixes: the units made go last, and
/// the unit expanded records their places.
pub open spec fn expanded_views(
    units: Seq<Unit>,
    i: int,
    acc: Seq<UnitView>,
    ps: PerPrefix<Vec<String>>,
    ss: PerPrefix<Vec<String>>,
) -> Seq<UnitView>
    decreases units.len() - i,
{
    if i < 0 || i >= units.len() {
        acc
    } else if !units[i].expand_si {
        expanded_views(units, i + 1, acc, ps, ss)
    } else {
        expanded_views(
            units,
            i + 1,
            acc.update(i, UnitView { expanded_units: Some(places_from(acc.len() as int)), ..acc[i] })
                + prefixed_views(units[i], ps, ss),
            ps,
            ss,
        )
    }
}

/// The unit table and index after expanding `units`, known by `m`, with
/// the SI prefixes of `si`: unchanged when no unit asks for them; none when
/// some unit does and prefixes are missing, or when a key of a unit made
/// has a problem.
#[verifier::opaque]
pub open spec fn expansion_done(units: Seq<Unit>, m: Map<Seq<char>, usize>, si: SI) -> Option<
    (Seq<UnitView>, Map<Seq<char>, usize>),
> {
    if forall|i: int| 0 <= i < units.len() ==> !(#[trigger] units[i]).expand_si {
        Some((uviews(units), m))
    } else if si.prefixes is None || si.symbol_prefixes is None {
        None
    } else {
        match expansions_added(units, 0, m, units.len() as int, si.prefixes->0, si.symbol_prefixes->0) {
            Some(m2) => Some(
                (expanded_views(units, 0, uviews(units), si.prefixes->0, si.symbol_prefixes->0), m2),
            ),
            None => None,
        }
    }
}

/// The units made from a unit, in order, hold what [prefixed_views]
/// lists.
pub proof fn lemma_prefixed_views_at(u: Unit, ps: PerPrefix<Vec<String>>, ss: PerPrefix<Vec<String>>, j: int)
    requires
        0 <= j < 6,
    ensures
        prefixed_views(u, ps, ss).len() == 6,
        prefixed_views(u, ps, ss)[j] == prefixed_view(u, ps, ss, prefix_at(j)),
{
}

/// One step of the expansion: the unit `id` of `o`, still as it was in
/// `before`, expanded into the units pushed after `before` (giving `mid`),
/// and recording their places (giving `after`), turns the table as
/// [expanded_views] says.
pub proof fn lemma_expansion_step(
    o: Seq<Unit>,
    id: int,
    before: Seq<Unit>,
    mid: Seq<Unit>,
    after: Seq<Unit>,
    ids: PerPrefix<usize>,
    new_units: PerPrefix<Unit>,
    ps: PerPrefix<Vec<String>>,
    ss: PerPrefix<Vec<String>>,
)
    requires
        0 <= id < o.len(),
        id < before.len(),
        before[id] == o[id],
        o[id].expand_si,
        forall|p: SIPrefix| #[trigger] expanded_unit(o[id], ps, ss, p, new_units.at(p)),
        mid.len() == before.len() + 6,
        forall|k: int| 0 <= k < before.len() ==> #[trigger] mid[k] == before[k],
        forall|p: SIPrefix|
            #![trigger ids.at(p)]
            ids.at(p) == before.len() + prefix_index(p) && mid[ids.at(p) as int] == new_units.at(p),
        after == mid.update(id, with_expansions(mid[id], Some(ids))),
    ensures
        expanded_views(o, id, uviews(before), ps, ss) == expanded_views(o, id + 1, uviews(after), ps, ss),
{
    let acc = uviews(before);
    let n = before.len() as int;
    assert(ids.at(SIPrefix::Kilo) == n);
    assert(ids.at(SIPrefix::Hecto) == n + 1);
    assert(ids.at(SIPrefix::Deca) == n + 2);
    assert(ids.at(SIPrefix::Deci) == n + 3);
    assert(ids.at(SIPrefix::Centi) == n + 4);
    assert(ids.at(SIPrefix::Milli) == n + 5);
    assert(ids == places_from(n));
    let expected = acc.update(id, UnitView { expanded_units: Some(places_from(acc.len() as int)), ..acc[id] })
        + prefixed_views(o[id], ps, ss);
    assert forall|k: int| 0 <= k < after.len() implies #[trigger] uviews(after)[k] == expected[k] by {
        if k < n {
            if k == id {
                assert(mid[k] == before[k]);
            } else {
                assert(mid[k] == before[k]);
            }
        } else {
            let j = k - n;
            let p = prefix_at(j);
            assert(prefix_index(p) == j);
            assert(ids.at(p) == k);
            assert(expanded_unit(o[id], ps, ss, p, new_units.at(p)));
            assert(views(new_units.at(p).aliases@) =~= Seq::<Seq<char>>::empty());
            lemma_prefixed_views_at(o[id], ps, ss, j);
        }
    }
    assert(uviews(after) =~= expected);
}

/// What [expansion_done] gives, when expanding succeeded as `expand_all`
/// states it.
pub proof fn lemma_expansion_done(units: Seq<Unit>, m: Map<Seq<char>, usize>, si: SI, us: Seq<Unit>, m2: Map<Seq<char>, usize>)
    requires
        (forall|i: int| 0 <= i < units.len() ==> !(#[trigger] units[i]).expand_si) ==> us == units && m2 == m,
        (si.prefixes is None || si.symbol_prefixes is None) ==> forall|i: int|
            0 <= i < units.len() ==> !(#[trigger] units[i]).expand_si,
        (si.prefixes is Some && si.symbol_prefixes is Some) ==> expansions_added(
            units,
            0,
            m,
            units.len() as int,
            si.prefixes->0,
            si.symbol_prefixes->0,
        ) == Some(m2) && uviews(us) == expanded_views(units, 0, uviews(units), si.prefixes->0, si.symbol_prefixes->0),
    ensures
        expansion_done(units, m, si) == Some((uviews(us), m2)),
{
    reveal(expansion_done);
}

/// When [expansion_done] gives a table, nothing is expanded, or the SI
/// prefixes are there and the keys of the units made have no problem.
pub proof fn lemma_expansion_done_some(units: Seq<Unit>, m: Map<Seq<char>, usize>, si: SI)
    requires
        expansion_done(units, m, si) is Some,
    ensures
        (forall|i: int| 0 <= i < units.len() ==> !(#[trigger] units[i]).expand_si) || (si.prefixes is Some
            && si.symbol_prefixes is Some && expansions_added(
            units,
            0,
            m,
            units.len() as int,
            si.prefixes->0,
            si.symbol_prefixes->0,
        ) is Some),
{
    reveal(expansion_done);
}

/// The unit tables hold the same, systems aside.
pub open spec fn same_but_systems(a: Seq<UnitView>, b: Seq<UnitView>) -> bool {
    &&& a.len() == b.len()
    &&& forall|i: int| 0 <= i < a.len() ==> #[trigger] a[i] == UnitView { system: a[i].system, ..b[i] }
}

/// Adding keys keeps the keys known before.
pub proof fn lemma_insert_keys_grow(m: Map<Seq<char>, usize>, ks: Seq<Seq<char>>, id: usize)
    ensures
        m.dom().subset_of(insert_keys(m, ks, id).dom()),
    decreases ks.len(),
{
    if ks.len() > 0 {
        lemma_insert_keys_grow(m.insert(ks[0], id), ks.drop_first(), id);
    }
}

/// Adding units keeps the keys known before.
pub proof fn lemma_keys_chain_grow(m: Map<Seq<char>, usize>, kss: Seq<Seq<Seq<char>>>, n: int)
    ensures
        keys_chain(m, kss, n) matches Some(m2) ==> m.dom().subset_of(m2.dom()),
    decreases kss.len(),
{
    if kss.len() > 0 {
        if let Ok(m2) = keys_added(m, kss[0], n as usize) {
            lemma_insert_keys_grow(m, kss[0], n as usize);
            lemma_keys_chain_grow(m2, kss.drop_first(), n + 1);
        }
    }
}

/// Expanding units keeps the keys known before.
pub proof fn lemma_expansions_grow(
    units: Seq<Unit>,
    i: int,
    m: Map<Seq<char>, usize>,
    n: int,
    ps: PerPrefix<Vec<String>>,
    ss: PerPrefix<Vec<String>>,
)
    ensures
        expansions_added(units, i, m, n, ps, ss) matches Some(m2) ==> m.dom().subset_of(m2.dom()),
    decreases units.len() - i,
{
    if 0 <= i < units.len() {
        if !units[i].expand_si {
            lemma_expansions_grow(units, i + 1, m, n, ps, ss);
        } else {
            lemma_keys_chain_grow(m, expansions_keys(units[i], ps, ss), n);
            if let Some(m2) = keys_chain(m, expansions_keys(units[i], ps, ss), n) {
                lemma_expansions_grow(units, i + 1, m2, n + 6, ps, ss);
            }
        }
    }
}

/// The units made from `u` for each prefix have the keys that
/// [expansions_keys] lists.
pub proof fn lemma_expansions_keys(u: Unit, ps: PerPrefix<Vec<String>>, ss: PerPrefix<Vec<String>>, us: PerPrefix<Unit>)
    requires
        forall|p: SIPrefix| #[trigger] expanded_unit(u, ps, ss, p, us.at(p)),
    ensures
        seq![us.kilo.keys(), us.hecto.keys(), us.deca.keys(), us.deci.keys(), us.centi.keys(), us.milli.keys()]
            == expansions_keys(u, ps, ss),
{
    assert forall|p: SIPrefix| #[trigger] us.at(p).keys() == expansion_keys(u, ps, ss, p) by {
        assert(expanded_unit(u, ps, ss, p, us.at(p)));
        assert(views(us.at(p).aliases@) =~= Seq::<Seq<char>>::empty());
    }
    assert(us.at(SIPrefix::Kilo).keys() == expansion_keys(u, ps, ss, SIPrefix::Kilo));
    assert(us.at(SIPrefix::Hecto).keys() == expansion_keys(u, ps, ss, SIPrefix::Hecto));
    assert(us.at(SIPrefix::Deca).keys() == expansion_keys(u, ps, ss, SIPrefix::Deca));
    assert(us.at(SIPrefix::Deci).keys() == expansion_keys(u, ps, ss, SIPrefix::Deci));
    assert(us.at(SIPrefix::Centi).keys() == expansion_keys(u, ps, ss, SIPrefix::Centi));
    assert(us.at(SIPrefix::Milli).keys() == expansion_keys(u, ps, ss, SIPrefix::Milli));
    assert(seq![us.kilo.keys(), us.hecto.keys(), us.deca.keys(), us.deci.keys(), us.centi.keys(), us.milli.keys()]
        =~= expansions_keys(u, ps, ss));
}

/// One unit of `unit` for each prefix, made from the prefixes of names and
/// symbols; an error when either is missing.
pub fn expand_si(unit: &Unit, si: &SI) -> (r: Result<PerPrefix<Unit>, ConverterBuilderError>)
    ensures
        match (si.prefixes, si.symbol_prefixes) {
            (Some(ps), Some(ss)) => r matches Ok(m) && forall|p: SIPrefix| #[trigger] expanded_unit(*unit, ps, ss, p, m.at(p)),
            _ => r matches Err(ConverterBuilderError::EmptySIPrefixes),
        },
{
    let (prefixes, symbol_prefixes) = match (&si.prefixes, &si.symbol_prefixes) {
        (Some(p), Some(s)) => (p, s),
        _ => {
            return Err(ConverterBuilderError::EmptySIPrefixes);
        },
    };
    let make = |p: SIPrefix| -> (e: Unit)
        ensures
            expanded_unit(*unit, *prefixes, *symbol_prefixes, p, e),
        {
            Unit {
                names: prefix_all(prefixes.get(p), &unit.names),
                symbols: prefix_all(symbol_prefixes.get(p), &unit.symbols),
                aliases: Vec::new(),
                physical_quantity: unit.physical_quantity,
                system: unit.system,
                expand_si: false,
                expanded_units: None,
            }
        };
    let m = PerPrefix {
        kilo: make(SIPrefix::Kilo),
        hecto: make(SIPrefix::Hecto),
        deca: make(SIPrefix::Deca),
        deci: make(SIPrefix::Deci),
        centi: make(SIPrefix::Centi),
        milli: make(SIPrefix::Milli),
    };
    Ok(m)
}

/// The elements of `v`, last first.
fn reversed<T>(v: Vec<T>) -> (r: Vec<T>)
    ensures
        r@.len() == v@.len(),
        forall|k: int| 0 <= k < r@.len() ==> #[trigger] r@[k] == v@[v@.len() - 1 - k],
{
    let ghost all = v@;
    let mut rest = v;
    let mut r: Vec<T> = Vec::new();
    while rest.len() > 0
        invariant
            rest@.len() + r@.len() == all.len(),
            rest@ == all.subrange(0, rest@.len() as int),
            forall|k: int| 0 <= k < r@.len() ==> #[trigger] r@[k] == all[all.len() - 1 - k],
        decreases rest@.len(),
    {
        let x = rest.pop().unwrap();
        r.push(x);
    }
    r
}

/// Every value of the map is below `n`.
pub open spec fn ids_below(m: Map<Seq<char>, usize>, n: int) -> bool {
    forall|k: Seq<char>| #[trigger] m.dom().contains(k) ==> m[k] < n
}

/// Inserting keys that lead to a unit below `n` keeps every value below it.
pub proof fn lemma_insert_keys_below(m: Map<Seq<char>, usize>, ks: Seq<Seq<char>>, id: usize, n: int)
    requires
        ids_below(m, n),
        id < n,
    ensures
        ids_below(insert_keys(m, ks, id), n),
    decreases ks.len(),
{
    if ks.len() > 0 {
        lemma_insert_keys_below(m.insert(ks[0], id), ks.drop_first(), id, n);
    }
}

/// The index and the units after adding `us` one by one after `units`,
/// or the first problem.
pub open spec fn units_added(m: Map<Seq<char>, usize>, units: Seq<Unit>, us: Seq<Unit>) -> Result<
    (Map<Seq<char>, usize>, Seq<Unit>),
    KeyProblem,
>
    decreases us.len(),
{
    if us.len() == 0 {
        Ok((m, units))
    } else {
        match unit_added(m, us[0], units.len() as usize) {
            Err(p) => Err(p),
            Ok(m2) => units_added(m2, units.push(us[0]), us.drop_first()),
        }
    }
}

/// The error is about the keys of a unit.
pub open spec fn key_error(e: ConverterBuilderError) -> bool {
    e is DuplicateUnit || e is EmptyUnit || e is EmptyUnitKey
}

/// The error may come of expanding units or applying extensions: about
/// keys, an unknown unit, or missing SI prefixes.
pub open spec fn phase_error(e: ConverterBuilderError, si: SI) -> bool {
    &&& !(e is EmptyBest)
    &&& !(e is IncorrectUnitSystem)
    &&& e is EmptySIPrefixes ==> si.prefixes is None || si.symbol_prefixes is None
}

/// Adds `unit` after the others, with its keys.
fn push_unit(all_units: &mut Vec<Unit>, index: &mut KeyIndex, unit: Unit) -> (r: Result<usize, ConverterBuilderError>)
    requires
        old(index).wf(),
    ensures
        final(index).wf(),
        match unit_added(old(index).map(), unit, old(all_units)@.len() as usize) {
            Ok(m) => r matches Ok(id) && id == old(all_units)@.len() && final(all_units)@ == old(all_units)@.push(unit)
                && final(index).map() == m,
            Err(p) => r matches Err(e) && reports(e, p),
        },
        r matches Err(e) ==> key_error(e),
        r is Ok && ids_below(old(index).map(), old(all_units)@.len() as int) ==> ids_below(
            final(index).map(),
            final(all_units)@.len() as int,
        ),
{
    let id = all_units.len();
    let ghost m0 = index.map();
    index.add_unit(&unit, id)?;
    all_units.push(unit);
    proof {
        if ids_below(m0, id as int) {
            lemma_insert_keys_below(m0, unit.keys(), id, all_units@.len() as int);
        }
    }
    Ok(id)
}

/// Adds the units `us` one by one.
fn push_units(all_units: &mut Vec<Unit>, index: &mut KeyIndex, us: Vec<Unit>) -> (r: Result<(), ConverterBuilderError>)
    requires
        old(index).wf(),
    ensures
        final(index).wf(),
        match units_added(old(index).map(), old(all_units)@, us@) {
            Ok((m, units)) => r is Ok && final(all_units)@ == units && final(index).map() == m,
            Err(p) => r matches Err(e) && reports(e, p),
        },
{
    let ghost all = us@;
    let ghost m0 = index.map();
    let ghost u0 = all_units@;
    let mut backwards = reversed(us);
    proof {
        assert(all.skip(0) =~= all);
    }
    while backwards.len() > 0
        invariant
            index.wf(),
            backwards@.len() <= all.len(),
            forall|k: int| 0 <= k < backwards@.len() ==> #[trigger] backwards@[k] == all[all.len() - 1 - k],
            m0 == old(index).map(),
            u0 == old(all_units)@,
            all == us@,
            units_added(m0, u0, all) == units_added(index.map(), all_units@, all.skip(all.len() - backwards@.len())),
        decreases backwards@.len(),
    {
        let ghost p = all.len() - backwards@.len();
        let unit = backwards.pop().unwrap();
        proof {
            assert(unit == all[p]);
            assert(all.skip(p)[0] == unit);
            assert(all.skip(p).drop_first() =~= all.skip(p + 1));
        }
        match push_unit(all_units, index, unit) {
            Ok(_) => {},
            Err(e) => {
                return Err(e);
            },
        }
    }
    proof {
        assert(all.skip(all.len() as int) =~= Seq::<Unit>::empty());
    }
    Ok(())
}

/// The unit a file's entry stands for, in the group of `quantity` and in
/// `system`.
pub open spec fn entry_unit(e: UnitEntry, quantity: PhysicalQuantity, system: Option<System>) -> Unit {
    Unit {
        names: e.names,
        symbols: e.symbols,
        aliases: e.aliases,
        physical_quantity: quantity,
        system,
        expand_si: e.expand_si,
        expanded_units: None,
    }
}

/// The units of the entries.
pub open spec fn entry_units(es: Seq<UnitEntry>, quantity: PhysicalQuantity, system: Option<System>) -> Seq<Unit> {
    es.map_values(|e: UnitEntry| entry_unit(e, quantity, system))
}

/// The units of a group: the metric ones, then the imperial ones, then
/// those of no system, when listed by system.
pub open spec fn group_units(quantity: PhysicalQuantity, units: Units) -> Seq<Unit> {
    match units {
        Units::Unified(es) => entry_units(es@, quantity, None),
        Units::BySystem { metric, imperial, unspecified } => entry_units(metric@, quantity, Some(System::Metric))
            + entry_units(imperial@, quantity, Some(System::Imperial)) + entry_units(unspecified@, quantity, None),
    }
}

/// The units of the entries.
fn units_of_entries(es: Vec<UnitEntry>, quantity: PhysicalQuantity, system: Option<System>, out: &mut Vec<Unit>)
    ensures
        final(out)@ == old(out)@ + entry_units(es@, quantity, system),
{
    let ghost all = es@;
    let ghost o = out@;
    let mut backwards = reversed(es);
    while backwards.len() > 0
        invariant
            backwards@.len() <= all.len(),
            forall|k: int| 0 <= k < backwards@.len() ==> #[trigger] backwards@[k] == all[all.len() - 1 - k],
            out@ == o + entry_units(all.take(all.len() - backwards@.len()), quantity, system),
        decreases backwards@.len(),
    {
        let ghost p = all.len() - backwards@.len();
        let e = backwards.pop().unwrap();
        proof {
            assert(e == all[p]);
        }
        let UnitEntry { names, symbols, aliases, expand_si } = e;
        out.push(Unit { names, symbols, aliases, physical_quantity: quantity, system, expand_si, expanded_units: None });
        proof {
            assert(entry_units(all.take(p + 1), quantity, system) =~= entry_units(all.take(p), quantity, system).push(
                entry_unit(all[p], quantity, system),
            ));
            assert(out@ =~= o + entry_units(all.take(p + 1), quantity, system));
        }
    }
    proof {
        assert(all.take(all.len() as int) =~= all);
    }
}

/// The units of a group.
fn group_units_of(quantity: PhysicalQuantity, units: Units) -> (r: Vec<Unit>)
    ensures
        r@ == group_units(quantity, units),
{
    let mut r: Vec<Unit> = Vec::new();
    match units {
        Units::Unified(es) => units_of_entries(es, quantity, None, &mut r),
        Units::BySystem { metric, imperial, unspecified } => {
            units_of_entries(metric, quantity, Some(System::Metric), &mut r);
            units_of_entries(imperial, quantity, Some(System::Imperial), &mut r);
            units_of_entries(unspecified, quantity, None, &mut r);
        },
    }
    proof {
        assert(r@ =~= group_units(quantity, units));
    }
    r
}

/// Adding units that lead the keys below the number of units keeps them
/// so, and puts the units after the others.
pub proof fn lemma_units_added(m: Map<Seq<char>, usize>, units: Seq<Unit>, us: Seq<Unit>)
    requires
        ids_below(m, units.len() as int),
    ensures
        units_added(m, units, us) matches Ok((m2, u2)) ==> ids_below(m2, u2.len() as int) && u2 == units + us,
    decreases us.len(),
{
    if us.len() > 0 {
        let n = units.len() as usize;
        if let Ok(m2) = unit_added(m, us[0], n) {
            lemma_insert_keys_below(m, us[0].keys(), n, units.len() + 1int);
            assert forall|k: Seq<char>| #[trigger] m.dom().contains(k) implies m[k] < units.len() + 1 by {}
            lemma_units_added(m2, units.push(us[0]), us.drop_first());
            assert(units.push(us[0]) + us.drop_first() =~= units + us);
        }
    } else {
        assert(units + us =~= units);
    }
}

/// What is wrong with a units file.
pub enum FileProblem {
    /// The keys of a unit.
    Key(KeyProblem),
    /// The best units of a physical quantity are empty.
    EmptyBest(PhysicalQuantity),
}

/// The list of best units (one of them, by system) is empty.
pub open spec fn best_empty(b: BestUnits) -> bool {
    match b {
        BestUnits::Unified(v) => v@.len() == 0,
        BestUnits::BySystem { metric, imperial } => metric@.len() == 0 || imperial@.len() == 0,
    }
}

/// Whether the list of best units (one of them, by system) is empty.
fn is_best_empty(b: &BestUnits) -> (r: bool)
    ensures
        r == best_empty(*b),
{
    match b {
        BestUnits::Unified(v) => v.len() == 0,
        BestUnits::BySystem { metric, imperial } => metric.len() == 0 || imperial.len() == 0,
    }
}

/// The index, the units and the best units after adding the groups `gs`
/// one by one: the units of each group, then its best units, which take
/// the place of those known for its quantity; or the first problem.
pub open spec fn groups_added(
    m: Map<Seq<char>, usize>,
    units: Seq<Unit>,
    best: PerQuantity<Option<BestUnits>>,
    gs: Seq<QuantityGroup>,
) -> Result<(Map<Seq<char>, usize>, Seq<Unit>, PerQuantity<Option<BestUnits>>), FileProblem>
    decreases gs.len(),
{
    if gs.len() == 0 {
        Ok((m, units, best))
    } else {
        let g = gs[0];
        match units_added(m, units, group_units(g.quantity, g.units)) {
            Err(p) => Err(FileProblem::Key(p)),
            Ok((m2, u2)) => match g.best {
                Some(b) => if best_empty(b) {
                    Err(FileProblem::EmptyBest(g.quantity))
                } else {
                    groups_added(m2, u2, best.with(g.quantity, Some(b)), gs.drop_first())
                },
                None => groups_added(m2, u2, best, gs.drop_first()),
            },
        }
    }
}

/// The SI settings after a file's: its prefixes joined with those known,
/// and its precedence.
pub open spec fn si_joined(a: SI, b: Option<SI>) -> (Option<PerPrefix<Seq<String>>>, Option<PerPrefix<Seq<String>>>, Precedence) {
    match b {
        Some(b) => (
            joined_prefixes(prefix_lists(a.prefixes), prefix_lists(b.prefixes), b.precedence),
            joined_prefixes(prefix_lists(a.symbol_prefixes), prefix_lists(b.symbol_prefixes), b.precedence),
            b.precedence,
        ),
        None => (prefix_lists(a.prefixes), prefix_lists(a.symbol_prefixes), a.precedence),
    }
}

/// The prefixes, the symbol prefixes and the precedence of SI settings.
pub open spec fn si_lists(si: SI) -> (Option<PerPrefix<Seq<String>>>, Option<PerPrefix<Seq<String>>>, Precedence) {
    (prefix_lists(si.prefixes), prefix_lists(si.symbol_prefixes), si.precedence)
}

/// Gathers the units of units files, to build the known units from.
pub struct ConverterBuilder {
    all_units: Vec<Unit>,
    unit_index: KeyIndex,
    extend: Vec<Extend>,
    si: SI,
    best_units: PerQuantity<Option<BestUnits>>,
    default_system: System,
}

impl ConverterBuilder {
    /// The units, in the order added.
    pub closed spec fn units(&self) -> Seq<Unit> {
        self.all_units@
    }

    /// Each key with the place of its unit.
    pub closed spec fn index(&self) -> Map<Seq<char>, usize> {
        self.unit_index.map()
    }

    /// The extensions, to apply when finishing.
    pub closed spec fn extends(&self) -> Seq<Extend> {
        self.extend@
    }

    /// The SI settings.
    pub closed spec fn si_spec(&self) -> SI {
        self.si
    }

    /// The best units of each physical quantity.
    pub closed spec fn best(&self) -> PerQuantity<Option<BestUnits>> {
        self.best_units
    }

    /// The default system.
    pub closed spec fn default_system_spec(&self) -> System {
        self.default_system
    }

    /// Every key leads to a unit, no unit is expanded yet, and no list of
    /// best units is empty.
    pub closed spec fn wf(&self) -> bool {
        &&& self.unit_index.wf()
        &&& ids_below(self.unit_index.map(), self.all_units@.len() as int)
        &&& forall|i: int| 0 <= i < self.all_units@.len() ==> (#[trigger] self.all_units@[i]).expanded_units is None
        &&& forall|q: PhysicalQuantity| #[trigger] self.best_units.at(q) matches Some(b) ==> !best_empty(b)
    }

    /// A builder of no unit.
    pub fn new() -> (r: Self)
        ensures
            r.wf(),
            r.units().len() == 0,
            r.index() == Map::<Seq<char>, usize>::empty(),
            r.extends().len() == 0,
            r.si_spec().prefixes is None,
            r.si_spec().symbol_prefixes is None,
            r.si_spec().precedence == Precedence::Before,
            forall|q: PhysicalQuantity| #[trigger] r.best().at(q) is None,
            r.default_system_spec() == System::Metric,
    {
        ConverterBuilder {
            all_units: Vec::new(),
            unit_index: KeyIndex::new(),
            extend: Vec::new(),
            si: SI::default(),
            best_units: PerQuantity { volume: None, mass: None, length: None, temperature: None, time: None },
            default_system: System::Metric,
        }
    }

    /// Adds the units of a file: the units of each group in order, with
    /// its best units; then keeps its extensions for the end, joins its SI
    /// settings and takes its default system. The first problem with the
    /// keys of a unit, or an empty list of best units, is an error.
    pub fn add_units_file(&mut self, units: UnitsFile) -> (r: Result<(), ConverterBuilderError>)
        requires
            old(self).wf(),
        ensures
            match groups_added(old(self).index(), old(self).units(), old(self).best(), units.quantity@) {
                Err(FileProblem::Key(p)) => r matches Err(e) && reports(e, p),
                Err(FileProblem::EmptyBest(q)) => r matches Err(ConverterBuilderError::EmptyBest { reason, quantity })
                    && quantity == q && reason@ == "empty list of units"@,
                Ok((m, us, b)) => r is Ok && final(self).wf() && final(self).index() == m && final(self).units() == us
                    && final(self).best() == b && final(self).extends() == (match units.extend {
                    Some(x) => old(self).extends().push(x),
                    None => old(self).extends(),
                }) && si_lists(final(self).si_spec()) == si_joined(old(self).si_spec(), units.si)
                    && final(self).default_system_spec() == (match units.default_system {
                    Some(s) => s,
                    None => old(self).default_system_spec(),
                }),
            },
    {
        let UnitsFile { default_system, si, extend, quantity } = units;
        let ghost all = quantity@;
        let ghost m0 = self.index();
        let ghost u0 = self.units();
        let ghost b0 = self.best();
        let mut backwards = reversed(quantity);
        proof {
            assert(all.skip(0) =~= all);
        }
        while backwards.len() > 0
            invariant
                self.wf(),
                all == units.quantity@,
                m0 == old(self).index(),
                u0 == old(self).units(),
                b0 == old(self).best(),
                self.extend@ == old(self).extends(),
                self.si == old(self).si_spec(),
                self.default_system == old(self).default_system_spec(),
                backwards@.len() <= all.len(),
                forall|k: int| 0 <= k < backwards@.len() ==> #[trigger] backwards@[k] == all[all.len() - 1 - k],
                groups_added(m0, u0, b0, all) == groups_added(
                    self.index(),
                    self.units(),
                    self.best(),
                    all.skip(all.len() - backwards@.len()),
                ),
            decreases backwards@.len(),
        {
            let ghost p = all.len() - backwards@.len();
            let group = backwards.pop().unwrap();
            proof {
                assert(group == all[p]);
                assert(all.skip(p)[0] == group);
                assert(all.skip(p).drop_first() =~= all.skip(p + 1));
            }
            let QuantityGroup { quantity, best, units: group_list } = group;
            let us = group_units_of(quantity, group_list);
            let ghost mb = self.index();
            let ghost ub = self.units();
            match push_units(&mut self.all_units, &mut self.unit_index, us) {
                Ok(()) => {},
                Err(e) => {
                    return Err(e);
                },
            }
            proof {
                lemma_units_added(mb, ub, group_units(quantity, group_list));
                assert forall|i: int| 0 <= i < self.all_units@.len() implies (
                #[trigger] self.all_units@[i]).expanded_units is None by {
                    if i >= ub.len() {
                        assert(self.all_units@[i] == group_units(quantity, group_list)[i - ub.len()]);
                    } else {
                        assert(self.all_units@[i] == ub[i]);
                    }
                }
            }
            match best {
                Some(b) => {
                    if is_best_empty(&b) {
                        return Err(ConverterBuilderError::EmptyBest { reason: "empty list of units", quantity });
                    }
                    let ghost bb = self.best_units;
                    self.best_units.set(quantity, Some(b));
                    proof {
                        assert forall|q: PhysicalQuantity| #[trigger] self.best_units.at(q) is Some implies !best_empty(
                            self.best_units.at(q)->0,
                        ) by {
                            if q != quantity {
                                assert(self.best_units.at(q) == bb.at(q));
                            }
                        }
                    }
                },
                None => {},
            }
            proof {
                assert(ids_below(self.unit_index.map(), self.all_units@.len() as int));
            }
        }
        proof {
            assert(all.skip(all.len() as int) =~= Seq::<QuantityGroup>::empty());
        }
        match extend {
            Some(x) => self.extend.push(x),
            None => {},
        }
        match si {
            Some(si) => {
                let SI { prefixes, symbol_prefixes, precedence } = si;
                let mut known = SI::default();
                std::mem::swap(&mut known, &mut self.si);
                let SI { prefixes: kp, symbol_prefixes: ks, precedence: _ } = known;
                self.si = SI {
                    prefixes: join_prefixes(kp, prefixes, precedence),
                    symbol_prefixes: join_prefixes(ks, symbol_prefixes, precedence),
                    precedence,
                };
            },
            None => {},
        }
        match default_system {
            Some(s) => self.default_system = s,
            None => {},
        }
        Ok(())
    }

    /// The builder with the units of a file added.
    pub fn with_units_file(self, units: UnitsFile) -> (r: Result<Self, ConverterBuilderError>)
        requires
            self.wf(),
        ensures
            match groups_added(self.index(), self.units(), self.best(), units.quantity@) {
                Err(FileProblem::Key(p)) => r matches Err(e) && reports(e, p),
                Err(FileProblem::EmptyBest(q)) => r matches Err(ConverterBuilderError::EmptyBest { reason, quantity })
                    && quantity == q && reason@ == "empty list of units"@,
                Ok((m, us, b)) => r matches Ok(n) && n.wf() && n.index() == m && n.units() == us && n.best() == b
                    && n.extends() == (match units.extend {
                    Some(x) => self.extends().push(x),
                    None => self.extends(),
                }) && si_lists(n.si_spec()) == si_joined(self.si_spec(), units.si) && n.default_system_spec() == (
                match units.default_system {
                    Some(s) => s,
                    None => self.default_system_spec(),
                }),
            },
    {
        let mut b = self;
        match b.add_units_file(units) {
            Ok(()) => Ok(b),
            Err(e) => Err(e),
        }
    }
}

/// Every expansion of a unit is a unit of the same quantity that is
/// neither expanded nor to be.
pub open spec fn expansions_ok(e: PerPrefix<usize>, units: Seq<Unit>, parent: Unit) -> bool {
    forall|p: SIPrefix|
        #![trigger e.at(p)]
        e.at(p) < units.len() && units[e.at(p) as int].expanded_units is None && !units[e.at(p) as int].expand_si
            && units[e.at(p) as int].physical_quantity == parent.physical_quantity && units[e.at(p) as int].system
            == parent.system
}

/// While finishing: every key leads to a unit, and every expansion is
/// sound.
pub open spec fn finishing(units: Seq<Unit>, m: Map<Seq<char>, usize>) -> bool {
    &&& ids_below(m, units.len() as int)
    &&& forall|i: int|
        0 <= i < units.len() ==> ((#[trigger] units[i]).expanded_units matches Some(e) ==> expansions_ok(
            e,
            units,
            units[i],
        ))
}

/// Every unit to be expanded is.
pub open spec fn all_expanded(units: Seq<Unit>) -> bool {
    forall|i: int| 0 <= i < units.len() ==> (#[trigger] units[i]).expand_si ==> units[i].expanded_units is Some
}

/// The unit with other expansions.
pub open spec fn with_expansions(u: Unit, e: Option<PerPrefix<usize>>) -> Unit {
    Unit { expanded_units: e, ..u }
}

/// The place of a prefix in the order of the prefixes.
pub open spec fn prefix_index(p: SIPrefix) -> int {
    match p {
        SIPrefix::Kilo => 0,
        SIPrefix::Hecto => 1,
        SIPrefix::Deca => 2,
        SIPrefix::Deci => 3,
        SIPrefix::Centi => 4,
        SIPrefix::Milli => 5,
    }
}

/// The prefix at a place of the order of the prefixes.
pub open spec fn prefix_at(k: int) -> SIPrefix {
    if k <= 0 {
        SIPrefix::Kilo
    } else if k == 1 {
        SIPrefix::Hecto
    } else if k == 2 {
        SIPrefix::Deca
    } else if k == 3 {
        SIPrefix::Deci
    } else if k == 4 {
        SIPrefix::Centi
    } else {
        SIPrefix::Milli
    }
}

/// Adds the units made with each prefix, in the order of the prefixes.
fn push_expansions(all_units: &mut Vec<Unit>, index: &mut KeyIndex, new_units: PerPrefix<Unit>) -> (r: Result<
    PerPrefix<usize>,
    ConverterBuilderError,
>)
    requires
        old(index).wf(),
        ids_below(old(index).map(), old(all_units)@.len() as int),
    ensures
        final(index).wf(),
        r matches Err(e) ==> key_error(e),
        match keys_chain(
            old(index).map(),
            seq![
                new_units.kilo.keys(),
                new_units.hecto.keys(),
                new_units.deca.keys(),
                new_units.deci.keys(),
                new_units.centi.keys(),
                new_units.milli.keys(),
            ],
            old(all_units)@.len() as int,
        ) {
            Some(m) => r is Ok && final(index).map() == m,
            None => r is Err,
        },
        r matches Ok(ids) ==> {
            &&& final(all_units)@.len() == old(all_units)@.len() + 6
            &&& final(all_units)@.take(old(all_units)@.len() as int) == old(all_units)@
            &&& ids_below(final(index).map(), final(all_units)@.len() as int)
            &&& forall|p: SIPrefix|
                #![trigger ids.at(p)]
                ids.at(p) == old(all_units)@.len() + prefix_index(p) && final(all_units)@[ids.at(p) as int]
                    == new_units.at(p)
        },
{
    let ghost o = all_units@;
    let ghost n = o.len() as int;
    let ghost kss = seq![
        new_units.kilo.keys(),
        new_units.hecto.keys(),
        new_units.deca.keys(),
        new_units.deci.keys(),
        new_units.centi.keys(),
        new_units.milli.keys(),
    ];
    let ghost m0 = index.map();
    let PerPrefix { kilo, hecto, deca, deci, centi, milli } = new_units;
    let ghost mb = index.map();
    proof {
        assert(kss.skip(0) =~= kss);
        assert(kss.skip(0)[0] == kilo.keys());
        assert(keys_chain(m0, kss, n) == keys_chain(mb, kss.skip(0), n + 0));
        assert(kss.skip(0).drop_first() =~= kss.skip(1));
    }
    let kilo = match push_unit(all_units, index, kilo) {
        Ok(i) => i,
        Err(e) => {
            return Err(e);
        },
    };
    let ghost mb = index.map();
    proof {
        assert(kss.skip(1)[0] == hecto.keys());
        assert(keys_chain(m0, kss, n) == keys_chain(mb, kss.skip(1), n + 1));
        assert(kss.skip(1).drop_first() =~= kss.skip(2));
    }
    let hecto = match push_unit(all_units, index, hecto) {
        Ok(i) => i,
        Err(e) => {
            return Err(e);
        },
    };
    let ghost mb = index.map();
    proof {
        assert(kss.skip(2)[0] == deca.keys());
        assert(keys_chain(m0, kss, n) == keys_chain(mb, kss.skip(2), n + 2));
        assert(kss.skip(2).drop_first() =~= kss.skip(3));
    }
    let deca = match push_unit(all_units, index, deca) {
        Ok(i) => i,
        Err(e) => {
            return Err(e);
        },
    };
    let ghost mb = index.map();
    proof {
        assert(kss.skip(3)[0] == deci.keys());
        assert(keys_chain(m0, kss, n) == keys_chain(mb, kss.skip(3), n + 3));
        assert(kss.skip(3).drop_first() =~= kss.skip(4));
    }
    let deci = match push_unit(all_units, index, deci) {
        Ok(i) => i,
        Err(e) => {
            return Err(e);
        },
    };
    let ghost mb = index.map();
    proof {
        assert(kss.skip(4)[0] == centi.keys());
        assert(keys_chain(m0, kss, n) == keys_chain(mb, kss.skip(4), n + 4));
        assert(kss.skip(4).drop_first() =~= kss.skip(5));
    }
    let centi = match push_unit(all_units, index, centi) {
        Ok(i) => i,
        Err(e) => {
            return Err(e);
        },
    };
    let ghost mb = index.map();
    proof {
        assert(kss.skip(5)[0] == milli.keys());
        assert(keys_chain(m0, kss, n) == keys_chain(mb, kss.skip(5), n + 5));
        assert(kss.skip(5).drop_first() =~= kss.skip(6));
    }
    let milli = match push_unit(all_units, index, milli) {
        Ok(i) => i,
        Err(e) => {
            return Err(e);
        },
    };
    proof {
        assert(kss.skip(6) =~= Seq::<Seq<Seq<char>>>::empty());
        assert(keys_chain(m0, kss, n) == keys_chain(index.map(), kss.skip(6), n + 6));
        assert(all_units@.take(o.len() as int) =~= o);
    }
    Ok(PerPrefix { kilo, hecto, deca, deci, centi, milli })
}

/// A unit with no key, to hold a place for a moment.
fn placeholder() -> (r: Unit)
    ensures
        r.names@.len() == 0,
        r.symbols@.len() == 0,
        r.aliases@.len() == 0,
        r.physical_quantity == PhysicalQuantity::Volume,
        r.system is None,
        !r.expand_si,
        r.expanded_units is None,
{
    Unit {
        names: Vec::new(),
        symbols: Vec::new(),
        aliases: Vec::new(),
        physical_quantity: PhysicalQuantity::Volume,
        system: None,
        expand_si: false,
        expanded_units: None,
    }
}

/// Records the expansions of unit `id`.
fn set_expansions(all_units: &mut Vec<Unit>, id: usize, e: Option<PerPrefix<usize>>)
    requires
        id < old(all_units)@.len(),
    ensures
        final(all_units)@ == old(all_units)@.update(id as int, with_expansions(old(all_units)@[id as int], e)),
{
    let mut u = placeholder();
    all_units.set_and_swap(id, &mut u);
    u.expanded_units = e;
    all_units.set(id, u);
}

/// Expands every unit marked for it (among those there before) with the
/// SI prefixes: the units made go after all others, each with its keys,
/// and the unit records where they are.
fn expand_all(all_units: &mut Vec<Unit>, index: &mut KeyIndex, si: &SI) -> (r: Result<(), ConverterBuilderError>)
    requires
        old(index).wf(),
        ids_below(old(index).map(), old(all_units)@.len() as int),
        forall|i: int| 0 <= i < old(all_units)@.len() ==> (#[trigger] old(all_units)@[i]).expanded_units is None,
    ensures
        final(index).wf(),
        r matches Err(e) ==> phase_error(e, *si) && !(e is UnknownUnit),
        (forall|i: int| 0 <= i < old(all_units)@.len() ==> !(#[trigger] old(all_units)@[i]).expand_si) ==> r is Ok
            && final(all_units)@ == old(all_units)@ && final(index).map() == old(index).map(),
        (si.prefixes is None || si.symbol_prefixes is None) ==> ((r is Err <==> exists|i: int|
            0 <= i < old(all_units)@.len() && (#[trigger] old(all_units)@[i]).expand_si) && (r matches Err(e)
            ==> e is EmptySIPrefixes)),
        (si.prefixes is Some && si.symbol_prefixes is Some) ==> match expansions_added(
            old(all_units)@,
            0,
            old(index).map(),
            old(all_units)@.len() as int,
            si.prefixes->0,
            si.symbol_prefixes->0,
        ) {
            Some(m) => r is Ok && final(index).map() == m,
            None => r is Err,
        },
        (si.prefixes is Some && si.symbol_prefixes is Some && r is Ok) ==> uviews(final(all_units)@) == expanded_views(
            old(all_units)@,
            0,
            uviews(old(all_units)@),
            si.prefixes->0,
            si.symbol_prefixes->0,
        ),
        r is Ok ==> {
            &&& finishing(final(all_units)@, final(index).map())
            &&& all_expanded(final(all_units)@)
            &&& final(all_units)@.len() >= old(all_units)@.len()
            &&& forall|i: int|
                0 <= i < old(all_units)@.len() ==> #[trigger] final(all_units)@[i] == with_expansions(
                    old(all_units)@[i],
                    final(all_units)@[i].expanded_units,
                )
            &&& forall|i: int|
                0 <= i < old(all_units)@.len() && (#[trigger] old(all_units)@[i]).expand_si ==> (
                final(all_units)@[i].expanded_units matches Some(e) && forall|p: SIPrefix| #[trigger]
                    expanded_unit(
                    old(all_units)@[i],
                    si.prefixes->0,
                    si.symbol_prefixes->0,
                    p,
                    final(all_units)@[e.at(p) as int],
                ))
        },
{
    let ghost o = all_units@;
    let n = all_units.len();
    let mut id: usize = 0;
    while id < n
        invariant
            o == old(all_units)@,
            n == o.len(),
            0 <= id <= n,
            index.wf(),
            all_units@.len() >= n,
            finishing(all_units@, index.map()),
            forall|i: int| 0 <= i < n ==> (#[trigger] o[i]).expanded_units is None,
            forall|i: int| n <= i < all_units@.len() ==> !(#[trigger] all_units@[i]).expand_si && all_units@[i].expanded_units is None,
            forall|i: int| id <= i < n ==> (#[trigger] all_units@[i]) == o[i],
            forall|i: int|
                0 <= i < id ==> #[trigger] all_units@[i] == with_expansions(o[i], all_units@[i].expanded_units),
            forall|i: int| 0 <= i < id ==> (#[trigger] o[i]).expand_si ==> all_units@[i].expanded_units is Some,
            forall|i: int| 0 <= i < id ==> !(#[trigger] o[i]).expand_si ==> all_units@[i].expanded_units is None,
            forall|i: int|
                0 <= i < id && (#[trigger] o[i]).expand_si ==> (all_units@[i].expanded_units matches Some(e)
                    && forall|p: SIPrefix| #[trigger]
                    expanded_unit(o[i], si.prefixes->0, si.symbol_prefixes->0, p, all_units@[e.at(p) as int])),
            (forall|i: int| 0 <= i < id ==> !(#[trigger] o[i]).expand_si) ==> all_units@ == o && index.map() == old(
                index,
            ).map(),
            (si.prefixes is None || si.symbol_prefixes is None) ==> forall|i: int| 0 <= i < id ==> !(#[trigger] o[i]).expand_si,
            (si.prefixes is Some && si.symbol_prefixes is Some) ==> expansions_added(
                o,
                0,
                old(index).map(),
                n as int,
                si.prefixes->0,
                si.symbol_prefixes->0,
            ) == expansions_added(o, id as int, index.map(), all_units@.len() as int, si.prefixes->0, si.symbol_prefixes->0),
            (si.prefixes is Some && si.symbol_prefixes is Some) ==> expanded_views(
                o,
                0,
                uviews(o),
                si.prefixes->0,
                si.symbol_prefixes->0,
            ) == expanded_views(o, id as int, uviews(all_units@), si.prefixes->0, si.symbol_prefixes->0),
        decreases n - id,
    {
        let ghost m_before = index.map();
        let ghost len_before = all_units@.len() as int;
        if all_units[id].expand_si {
            let new_units = match expand_si(&all_units[id], si) {
                Ok(m) => m,
                Err(e) => {
                    proof {
                        assert(o[id as int].expand_si);
                    }
                    return Err(e);
                },
            };
            proof {
                if si.prefixes is Some && si.symbol_prefixes is Some {
                    let ps = si.prefixes->0;
                    let ss = si.symbol_prefixes->0;
                    lemma_expansions_keys(o[id as int], ps, ss, new_units);
                }
            }
            let ghost before = all_units@;
            let ids = match push_expansions(all_units, index, new_units) {
                Ok(ids) => ids,
                Err(e) => {
                    return Err(e);
                },
            };
            let ghost mid = all_units@;
            proof {
                assert forall|k: int| 0 <= k < before.len() implies #[trigger] mid[k] == before[k] by {
                    assert(mid.take(before.len() as int)[k] == mid[k]);
                }
            }
            set_expansions(all_units, id, Some(ids));
            proof {
                if si.prefixes is Some && si.symbol_prefixes is Some {
                    lemma_expansion_step(o, id as int, before, mid, all_units@, ids, new_units, si.prefixes->0, si.symbol_prefixes->0);
                }
                assert forall|k: int| before.len() <= k < all_units@.len() implies !(#[trigger] all_units@[k]).expand_si
                    && all_units@[k].expanded_units is None by {
                    let p = prefix_at(k - before.len());
                    assert(prefix_index(p) == k - before.len());
                    assert(ids.at(p) == k);
                    assert(expanded_unit(o[id as int], si.prefixes->0, si.symbol_prefixes->0, p, new_units.at(p)));
                }
                assert forall|i: int|
                    0 <= i < all_units@.len() implies ((#[trigger] all_units@[i]).expanded_units matches Some(e)
                    ==> expansions_ok(e, all_units@, all_units@[i])) by {
                    if i != id {
                        if all_units@[i].expanded_units is Some {
                            let e = all_units@[i].expanded_units->0;
                            assert forall|p: SIPrefix| #![trigger e.at(p)] e.at(p) < all_units@.len()
                                && all_units@[e.at(p) as int].expanded_units is None
                                && !all_units@[e.at(p) as int].expand_si
                                && all_units@[e.at(p) as int].physical_quantity == all_units@[i].physical_quantity
                                && all_units@[e.at(p) as int].system == all_units@[i].system by {
                                if i < before.len() {
                                    assert(expansions_ok(e, before, before[i]));
                                    assert(mid[e.at(p) as int] == before[e.at(p) as int]);
                                }
                            }
                        }
                    } else {
                        assert forall|p: SIPrefix| #![trigger ids.at(p)] ids.at(p) < all_units@.len()
                            && all_units@[ids.at(p) as int].expanded_units is None
                            && !all_units@[ids.at(p) as int].expand_si
                            && all_units@[ids.at(p) as int].physical_quantity == all_units@[id as int].physical_quantity
                            && all_units@[ids.at(p) as int].system == all_units@[id as int].system by {
                            assert(expanded_unit(o[id as int], si.prefixes->0, si.symbol_prefixes->0, p, new_units.at(p)));
                        }
                    }
                }
                assert forall|i: int| 0 <= i < id + 1 && (#[trigger] o[i]).expand_si implies (
                all_units@[i].expanded_units matches Some(e) && forall|p: SIPrefix| #[trigger]
                    expanded_unit(o[i], si.prefixes->0, si.symbol_prefixes->0, p, all_units@[e.at(p) as int])) by {
                    if i < id {
                        let e = all_units@[i].expanded_units->0;
                        assert forall|p: SIPrefix| #[trigger]
                            expanded_unit(o[i], si.prefixes->0, si.symbol_prefixes->0, p, all_units@[e.at(p) as int]) by {
                            assert(expanded_unit(o[i], si.prefixes->0, si.symbol_prefixes->0, p, before[e.at(p) as int]));
                            assert(mid[e.at(p) as int] == before[e.at(p) as int]);
                        }
                    } else {
                        assert forall|p: SIPrefix| #[trigger]
                            expanded_unit(o[i], si.prefixes->0, si.symbol_prefixes->0, p, all_units@[ids.at(p) as int]) by {
                            assert(expanded_unit(o[id as int], si.prefixes->0, si.symbol_prefixes->0, p, new_units.at(p)));
                        }
                    }
                }
            }
        } else {
            proof {
                if si.prefixes is Some && si.symbol_prefixes is Some {
                    let ps = si.prefixes->0;
                    let ss = si.symbol_prefixes->0;
                    assert(expansions_added(o, id as int, m_before, len_before, ps, ss) == expansions_added(
                        o,
                        id + 1,
                        m_before,
                        len_before,
                        ps,
                        ss,
                    ));
                }
            }
        }
        id = id + 1;
    }
    proof {
        if si.prefixes is Some && si.symbol_prefixes is Some {
            let ps = si.prefixes->0;
            let ss = si.symbol_prefixes->0;
            assert(expansions_added(o, n as int, index.map(), all_units@.len() as int, ps, ss) == Some(index.map()));
        }
    }
    Ok(())
}

/// Every key of `a` is one of `b`, with the same place.
pub open spec fn within(a: Map<Seq<char>, usize>, b: Map<Seq<char>, usize>) -> bool {
    forall|k: Seq<char>| #[trigger] a.dom().contains(k) ==> b.dom().contains(k) && a[k] == b[k]
}

/// What a unit holds, its lists of keys as characters.
pub struct UnitView {
    pub names: Seq<Seq<char>>,
    pub symbols: Seq<Seq<char>>,
    pub aliases: Seq<Seq<char>>,
    pub physical_quantity: PhysicalQuantity,
    pub system: Option<System>,
    pub expand_si: bool,
    pub expanded_units: Option<PerPrefix<usize>>,
}

/// What the unit holds.
pub open spec fn uview(u: Unit) -> UnitView {
    UnitView {
        names: views(u.names@),
        symbols: views(u.symbols@),
        aliases: views(u.aliases@),
        physical_quantity: u.physical_quantity,
        system: u.system,
        expand_si: u.expand_si,
        expanded_units: u.expanded_units,
    }
}

/// What each unit holds.
pub open spec fn uviews(us: Seq<Unit>) -> Seq<UnitView> {
    us.map_values(|u: Unit| uview(u))
}

/// Every key of a unit: its names, then its symbols, then its aliases.
pub open spec fn view_keys(v: UnitView) -> Seq<Seq<char>> {
    v.names + v.symbols + v.aliases
}

/// The index after adding the keys `ks` as those of unit `id`, or the
/// problem with them.
pub open spec fn keys_added(m: Map<Seq<char>, usize>, ks: Seq<Seq<char>>, id: usize) -> Result<Map<Seq<char>, usize>, KeyProblem> {
    match keys_problem(m.dom(), ks) {
        Some(p) => Err(p),
        None => if ks.len() == 0 {
            Err(KeyProblem::Empty)
        } else {
            Ok(insert_keys(m, ks, id))
        },
    }
}

/// The index without the keys `ks`.
pub open spec fn without_keys(m: Map<Seq<char>, usize>, ks: Seq<Seq<char>>) -> Map<Seq<char>, usize> {
    Map::new(|k: Seq<char>| m.dom().contains(k) && !ks.contains(k), |k: Seq<char>| m[k])
}

/// The characters of a joined list are those of the lists joined.
pub proof fn lemma_views_joined(a: Seq<String>, b: Seq<String>, precedence: Precedence)
    ensures
        views(joined(a, b, precedence)) == joined(views(a), views(b), precedence),
{
    assert(views(a + b) =~= views(a) + views(b));
    assert(views(b + a) =~= views(b) + views(a));
}

/// Removes the keys of `unit` from the index.
fn remove_unit_keys(index: &mut KeyIndex, unit: &Unit)
    requires
        old(index).wf(),
    ensures
        final(index).wf(),
        within(final(index).map(), old(index).map()),
        forall|j: int| 0 <= j < unit.keys().len() ==> !final(index).map().dom().contains(#[trigger] unit.keys()[j]),
        final(index).map() == without_keys(old(index).map(), unit.keys()),
{
    let keys = all_keys(unit);
    let ghost ks = unit.keys();
    let mut i: usize = 0;
    while i < keys.len()
        invariant
            index.wf(),
            0 <= i <= keys@.len(),
            keys@.map_values(|s: &str| s@) == ks,
            ks == unit.keys(),
            within(index.map(), old(index).map()),
            forall|j: int| 0 <= j < i ==> !index.map().dom().contains(#[trigger] ks[j]),
            index.map() == without_keys(old(index).map(), ks.take(i as int)),
        decreases keys@.len() - i,
    {
        let key = keys[i];
        proof {
            assert(ks[i as int] == key@);
        }
        let ghost before = index.map();
        index.remove(key);
        proof {
            assert forall|k: Seq<char>| ks.take(i + 1).contains(k) <==> ks.take(i as int).contains(k) || k == ks[i as int] by {
                if ks.take(i + 1).contains(k) {
                    let j = choose|j: int| 0 <= j < i + 1 && #[trigger] ks.take(i + 1)[j] == k;
                    if j < i {
                        assert(ks.take(i as int)[j] == k);
                    }
                }
                if ks.take(i as int).contains(k) {
                    let j = choose|j: int| 0 <= j < i && #[trigger] ks.take(i as int)[j] == k;
                    assert(ks.take(i + 1)[j] == k);
                }
                if k == ks[i as int] {
                    assert(ks.take(i + 1)[i as int] == k);
                }
            }
            assert(index.map() =~= without_keys(old(index).map(), ks.take(i + 1)));
        }
        i = i + 1;
    }
    proof {
        assert(ks.take(keys@.len() as int) =~= ks);
    }
}

/// The units are the same but for their lists of keys.
pub open spec fn same_but_keys(a: Seq<Unit>, b: Seq<Unit>) -> bool {
    &&& a.len() == b.len()
    &&& forall|i: int|
        0 <= i < a.len() ==> (#[trigger] a[i]).physical_quantity == b[i].physical_quantity && a[i].system
            == b[i].system && a[i].expand_si == b[i].expand_si && a[i].expanded_units == b[i].expanded_units
}

/// Puts `unit` in place `eid`, with the aliases of the unit there, and
/// adds its keys.
fn replace_expansion(index: &mut KeyIndex, all_units: &mut Vec<Unit>, eid: usize, unit: Unit) -> (r: Result<
    (),
    ConverterBuilderError,
>)
    requires
        old(index).wf(),
        eid < old(all_units)@.len(),
        ids_below(old(index).map(), old(all_units)@.len() as int),
    ensures
        final(index).wf(),
        final(all_units)@.len() == old(all_units)@.len(),
        r is Ok ==> ids_below(final(index).map(), final(all_units)@.len() as int),
        r matches Err(e) ==> key_error(e),
        forall|i: int| 0 <= i < final(all_units)@.len() && i != eid ==> #[trigger] final(all_units)@[i] == old(all_units)@[i],
        final(all_units)@[eid as int] == (Unit { aliases: old(all_units)@[eid as int].aliases, ..unit }),
        match unit_added(old(index).map(), (Unit { aliases: old(all_units)@[eid as int].aliases, ..unit }), eid) {
            Ok(m) => r is Ok && final(index).map() == m,
            Err(_) => r is Err,
        },
{
    let mut previous = placeholder();
    all_units.set_and_swap(eid, &mut previous);
    let mut unit = unit;
    unit.aliases = previous.aliases;
    let ghost m0 = index.map();
    let r = index.add_unit(&unit, eid);
    proof {
        if r is Ok {
            lemma_insert_keys_below(m0, unit.keys(), eid, all_units@.len() as int);
        }
    }
    all_units.set(eid, unit);
    match r {
        Ok(_) => Ok(()),
        Err(e) => Err(e),
    }
}

/// The prefixes in order are those at each place.
pub proof fn lemma_all_prefixes(k: int)
    requires
        0 <= k < 6,
    ensures
        SIPrefix::all_spec()[k] == prefix_at(k),
        prefix_index(prefix_at(k)) == k,
{
}

/// The index without the keys of the expansions `e` of the prefixes
/// before place `k`, removed in the order of the prefixes.
pub open spec fn expansion_keys_removed(m: Map<Seq<char>, usize>, us: Seq<UnitView>, e: PerPrefix<usize>, k: int) -> Map<
    Seq<char>,
    usize,
>
    decreases k,
{
    if k <= 0 {
        m
    } else {
        without_keys(expansion_keys_removed(m, us, e, k - 1), view_keys(us[e.at(prefix_at(k - 1)) as int]))
    }
}

/// The unit made anew from `parent` with prefix `p`, with the aliases of
/// the unit it takes the place of.
pub open spec fn expansion_view(
    parent: UnitView,
    ps: PerPrefix<Vec<String>>,
    ss: PerPrefix<Vec<String>>,
    p: SIPrefix,
    old: UnitView,
) -> UnitView {
    UnitView {
        names: prefixed(views(ps.at(p)@), parent.names),
        symbols: prefixed(views(ss.at(p)@), parent.symbols),
        aliases: old.aliases,
        physical_quantity: parent.physical_quantity,
        system: parent.system,
        expand_si: false,
        expanded_units: None,
    }
}

/// The units and the index after the expansions of the prefixes from place
/// `k` on are made anew from `parent`, each with its keys; or `None` at
/// the first problem with them.
pub open spec fn expansions_replaced(
    us: Seq<UnitView>,
    m: Map<Seq<char>, usize>,
    e: PerPrefix<usize>,
    parent: UnitView,
    ps: PerPrefix<Vec<String>>,
    ss: PerPrefix<Vec<String>>,
    k: int,
) -> Option<(Seq<UnitView>, Map<Seq<char>, usize>)>
    decreases 6 - k,
{
    if k >= 6 {
        Some((us, m))
    } else {
        let p = prefix_at(k);
        let eid = e.at(p);
        let nv = expansion_view(parent, ps, ss, p, us[eid as int]);
        match keys_added(m, view_keys(nv), eid) {
            Err(_) => None,
            Ok(m2) => expansions_replaced(us.update(eid as int, nv), m2, e, parent, ps, ss, k + 1),
        }
    }
}

/// The units and the index after the expansions of unit `id` are made
/// anew: the keys of the unit and of its expansions leave the index, each
/// expansion is made again from the unit (keeping its aliases) with its
/// keys, and the keys of the unit go back; `None` when SI prefixes are
/// missing or at the first problem with keys.
pub open spec fn expansion_updated(us: Seq<UnitView>, m: Map<Seq<char>, usize>, id: usize, si: SI) -> Option<
    (Seq<UnitView>, Map<Seq<char>, usize>),
> {
    let u = us[id as int];
    match u.expanded_units {
        None => Some((us, m)),
        Some(e) => match (si.prefixes, si.symbol_prefixes) {
            (Some(ps), Some(ss)) => match expansions_replaced(
                us,
                expansion_keys_removed(without_keys(m, view_keys(u)), us, e, 6),
                e,
                u,
                ps,
                ss,
                0,
            ) {
                None => None,
                Some((us2, m2)) => match keys_added(m2, view_keys(us2[id as int]), id) {
                    Err(_) => None,
                    Ok(m3) => Some((us2, m3)),
                },
            },
            _ => None,
        },
    }
}

/// Makes anew the expansions of unit `id`, whose names or symbols changed:
/// its keys and those of its expansions leave the index, each expansion
/// is made again (keeping its aliases) and the keys of all of them go
/// back.
fn update_expanded_units(index: &mut KeyIndex, all_units: &mut Vec<Unit>, si: &SI, id: usize) -> (r: Result<
    (),
    ConverterBuilderError,
>)
    requires
        old(index).wf(),
        id < old(all_units)@.len(),
        old(all_units)@[id as int].expand_si,
        finishing(old(all_units)@, old(index).map()),
        all_expanded(old(all_units)@),
    ensures
        final(index).wf(),
        same_but_keys(final(all_units)@, old(all_units)@),
        r is Ok ==> finishing(final(all_units)@, final(index).map()),
        r matches Err(e) ==> phase_error(e, *si) && !(e is UnknownUnit),
        match expansion_updated(uviews(old(all_units)@), old(index).map(), id, *si) {
            Some((us, m)) => r is Ok && uviews(final(all_units)@) == us && final(index).map() == m,
            None => r is Err,
        },
{
    let ghost o = all_units@;
    let ghost m0 = index.map();
    let ghost uo = uviews(o);
    let e = match &all_units[id].expanded_units {
        Some(e) => PerPrefix { kilo: e.kilo, hecto: e.hecto, deca: e.deca, deci: e.deci, centi: e.centi, milli: e.milli },
        None => {
            return Ok(());
        },
    };
    proof {
        assert(expansions_ok(e, o, o[id as int]));
        assert(uo[id as int] == uview(o[id as int]));
    }
    remove_unit_keys(index, &all_units[id]);
    let ghost mk = index.map();
    let prefixes = SIPrefix::all();
    let mut k: usize = 0;
    while k < prefixes.len()
        invariant
            index.wf(),
            all_units@ == o,
            uo == uviews(o),
            prefixes@ == SIPrefix::all_spec(),
            0 <= k <= 6,
            within(index.map(), old(index).map()),
            finishing(o, old(index).map()),
            id < o.len(),
            expansions_ok(e, o, o[id as int]),
            index.map() == expansion_keys_removed(mk, uo, e, k as int),
        decreases 6 - k,
    {
        let p = prefixes[k];
        proof {
            lemma_all_prefixes(k as int);
            assert(uo[e.at(p) as int] == uview(o[e.at(p) as int]));
        }
        remove_unit_keys(index, &all_units[*e.get(p)]);
        k = k + 1;
    }
    let new_units = match expand_si(&all_units[id], si) {
        Ok(m) => m,
        Err(e) => {
            return Err(e);
        },
    };
    let ghost parent = all_units@[id as int];
    let ghost pu = uview(parent);
    let ghost ps = si.prefixes->0;
    let ghost ss = si.symbol_prefixes->0;
    let ghost m1 = index.map();
    let mut k: usize = 0;
    while k < prefixes.len()
        invariant
            index.wf(),
            prefixes@ == SIPrefix::all_spec(),
            0 <= k <= 6,
            o == old(all_units)@,
            uo == uviews(o),
            m0 == old(index).map(),
            si.prefixes == Some(ps),
            si.symbol_prefixes == Some(ss),
            parent == o[id as int],
            pu == uview(parent),
            parent.expand_si,
            expansions_ok(e, o, parent),
            id < o.len(),
            all_units@.len() == o.len(),
            ids_below(index.map(), o.len() as int),
            forall|p: SIPrefix| #[trigger] expanded_unit(parent, si.prefixes->0, si.symbol_prefixes->0, p, new_units.at(p)),
            forall|i: int|
                0 <= i < o.len() ==> (#[trigger] all_units@[i]).physical_quantity == o[i].physical_quantity
                    && all_units@[i].system == o[i].system && all_units@[i].expand_si == o[i].expand_si
                    && all_units@[i].expanded_units == o[i].expanded_units,
            all_units@[id as int] == parent,
            uo[id as int] == pu,
            pu.expanded_units == Some(e),
            m1 == expansion_keys_removed(without_keys(m0, view_keys(pu)), uo, e, 6),
            expansions_replaced(uo, m1, e, pu, ps, ss, 0) == expansions_replaced(
                uviews(all_units@),
                index.map(),
                e,
                pu,
                ps,
                ss,
                k as int,
            ),
        decreases 6 - k,
    {
        let p = prefixes[k];
        let eid = *e.get(p);
        let unit = new_units.get(p).duplicate();
        let ghost cur = all_units@;
        proof {
            lemma_all_prefixes(k as int);
            assert(expanded_unit(parent, si.prefixes->0, si.symbol_prefixes->0, p, new_units.at(p)));
            assert(eid != id) by {
                assert(!o[eid as int].expand_si);
            }
        }
        let ghost placed = Unit { aliases: cur[eid as int].aliases, ..unit };
        proof {
            assert(uviews(cur)[eid as int] == uview(cur[eid as int]));
            assert(uview(placed) == expansion_view(pu, ps, ss, p, uviews(cur)[eid as int]));
            assert(placed.keys() == view_keys(uview(placed)));
        }
        match replace_expansion(index, all_units, eid, unit) {
            Ok(()) => {},
            Err(e) => {
                return Err(e);
            },
        }
        proof {
            assert(uviews(all_units@) =~= uviews(cur).update(eid as int, uview(placed)));
        }
        k = k + 1;
    }
    let ghost m2 = index.map();
    let ghost cur = all_units@;
    let r = index.add_unit(&all_units[id], id);
    proof {
        assert(uviews(cur)[id as int] == uview(cur[id as int]));
        if r is Ok {
            lemma_insert_keys_below(m2, all_units@[id as int].keys(), id, all_units@.len() as int);
        }
        assert forall|i: int| 0 <= i < all_units@.len() implies ((#[trigger] all_units@[i]).expanded_units matches Some(
            x,
        ) ==> expansions_ok(x, all_units@, all_units@[i])) by {
            if all_units@[i].expanded_units is Some {
                let x = all_units@[i].expanded_units->0;
                assert(expansions_ok(x, o, o[i]));
                assert forall|p: SIPrefix| #![trigger x.at(p)] x.at(p) < all_units@.len()
                    && all_units@[x.at(p) as int].expanded_units is None
                    && !all_units@[x.at(p) as int].expand_si
                    && all_units@[x.at(p) as int].physical_quantity == all_units@[i].physical_quantity
                    && all_units@[x.at(p) as int].system == all_units@[i].system by {
                    assert(o[x.at(p) as int].physical_quantity == o[i].physical_quantity);
                }
            }
        }
    }
    match r {
        Ok(_) => Ok(()),
        Err(e) => Err(e),
    }
}

/// A list of the keys of a unit.
#[derive(Clone, Copy, PartialEq, Eq, Structural)]
enum KeyList {
    Names,
    Symbols,
    Aliases,
}

/// Joins `src` with a list of unit `id`, as `precedence` says.
fn join_into(all_units: &mut Vec<Unit>, id: usize, list: KeyList, src: Vec<String>, precedence: Precedence)
    requires
        id < old(all_units)@.len(),
    ensures
        final(all_units)@.len() == old(all_units)@.len(),
        forall|i: int| 0 <= i < final(all_units)@.len() && i != id ==> #[trigger] final(all_units)@[i] == old(all_units)@[i],
        ({
            let o = old(all_units)@[id as int];
            let n = final(all_units)@[id as int];
            &&& n.physical_quantity == o.physical_quantity
            &&& n.system == o.system
            &&& n.expand_si == o.expand_si
            &&& n.expanded_units == o.expanded_units
            &&& n.names@ == (if list == KeyList::Names {
                joined(o.names@, src@, precedence)
            } else {
                o.names@
            })
            &&& n.symbols@ == (if list == KeyList::Symbols {
                joined(o.symbols@, src@, precedence)
            } else {
                o.symbols@
            })
            &&& n.aliases@ == (if list == KeyList::Aliases {
                joined(o.aliases@, src@, precedence)
            } else {
                o.aliases@
            })
        }),
        uviews(final(all_units)@) == uviews(old(all_units)@).update(
            id as int,
            joined_view(uview(old(all_units)@[id as int]), list == KeyList::Names, list == KeyList::Symbols, views(src@), precedence),
        ),
{
    let ghost o = all_units@;
    let ghost sv = views(src@);
    proof {
        lemma_views_joined(o[id as int].names@, src@, precedence);
        lemma_views_joined(o[id as int].symbols@, src@, precedence);
        lemma_views_joined(o[id as int].aliases@, src@, precedence);
    }
    let mut u = placeholder();
    all_units.set_and_swap(id, &mut u);
    match list {
        KeyList::Names => join_alias_vec(&mut u.names, src, precedence),
        KeyList::Symbols => join_alias_vec(&mut u.symbols, src, precedence),
        KeyList::Aliases => join_alias_vec(&mut u.aliases, src, precedence),
    }
    all_units.set(id, u);
    proof {
        assert(uview(all_units@[id as int]) == joined_view(uview(o[id as int]), list == KeyList::Names, list == KeyList::Symbols, sv, precedence));
        assert(uviews(all_units@) =~= uviews(o).update(
            id as int,
            joined_view(uview(o[id as int]), list == KeyList::Names, list == KeyList::Symbols, sv, precedence),
        ));
    }
}

/// The unit with `src` joined with its names, its symbols, or else its
/// aliases.
pub open spec fn joined_view(v: UnitView, names: bool, symbols: bool, src: Seq<Seq<char>>, precedence: Precedence) -> UnitView {
    if names {
        UnitView { names: joined(v.names, src, precedence), ..v }
    } else if symbols {
        UnitView { symbols: joined(v.symbols, src, precedence), ..v }
    } else {
        UnitView { aliases: joined(v.aliases, src, precedence), ..v }
    }
}

/// The units and the index after the alias lists `es`: each joins the
/// aliases of the unit its key names, and goes into the index under that
/// unit; `None` for a key of no unit or an alias known already.
pub open spec fn aliases_applied(
    us: Seq<UnitView>,
    m: Map<Seq<char>, usize>,
    es: Seq<(String, Vec<String>)>,
    precedence: Precedence,
) -> Option<(Seq<UnitView>, Map<Seq<char>, usize>)>
    decreases es.len(),
{
    if es.len() == 0 {
        Some((us, m))
    } else {
        let als = views(es[0].1@);
        match lookup(m, es[0].0@) {
            None => None,
            Some(id) => match first_known(m.dom(), als) {
                Some(_) => None,
                None => aliases_applied(
                    us.update(id as int, joined_view(us[id as int], false, false, als, precedence)),
                    insert_keys(m, als, id),
                    es.drop_first(),
                    precedence,
                ),
            },
        }
    }
}

/// The units after the name lists (or symbol lists) `es`, each joined
/// with those of the unit its key names, and the units to expand anew:
/// `upd` and then, once each, those to be expanded whose lists changed;
/// `None` for a key of no unit.
pub open spec fn lists_applied(
    us: Seq<UnitView>,
    m: Map<Seq<char>, usize>,
    es: Seq<(String, Vec<String>)>,
    precedence: Precedence,
    symbols: bool,
    upd: Seq<usize>,
) -> Option<(Seq<UnitView>, Seq<usize>)>
    decreases es.len(),
{
    if es.len() == 0 {
        Some((us, upd))
    } else {
        match lookup(m, es[0].0@) {
            None => None,
            Some(id) => lists_applied(
                us.update(id as int, joined_view(us[id as int], !symbols, symbols, views(es[0].1@), precedence)),
                m,
                es.drop_first(),
                precedence,
                symbols,
                if us[id as int].expand_si && !upd.contains(id) {
                    upd.push(id)
                } else {
                    upd
                },
            ),
        }
    }
}

/// The units and the index after the units `ids` are expanded anew, in
/// order; `None` at the first that fails.
pub open spec fn updates_applied(us: Seq<UnitView>, m: Map<Seq<char>, usize>, ids: Seq<usize>, si: SI) -> Option<
    (Seq<UnitView>, Map<Seq<char>, usize>),
>
    decreases ids.len(),
{
    if ids.len() == 0 {
        Some((us, m))
    } else {
        match expansion_updated(us, m, ids[0], si) {
            None => None,
            Some((u2, m2)) => updates_applied(u2, m2, ids.drop_first(), si),
        }
    }
}

/// The units and the index after an extension: its aliases, then its
/// names, then its symbols, then the units to be expanded whose names or
/// symbols changed are expanded anew; `None` at the first failure.
pub open spec fn extend_applied(us: Seq<UnitView>, m: Map<Seq<char>, usize>, ext: Extend, si: SI) -> Option<
    (Seq<UnitView>, Map<Seq<char>, usize>),
> {
    match aliases_applied(us, m, ext.aliases@, ext.precedence) {
        None => None,
        Some((u1, m1)) => match lists_applied(u1, m1, ext.names@, ext.precedence, false, Seq::empty()) {
            None => None,
            Some((u2, upd)) => match lists_applied(u2, m1, ext.symbols@, ext.precedence, true, upd) {
                None => None,
                Some((u3, upd2)) => updates_applied(u3, m1, upd2, si),
            },
        },
    }
}

/// The units and the index after the extensions, in order.
pub open spec fn extends_applied(us: Seq<UnitView>, m: Map<Seq<char>, usize>, exts: Seq<Extend>, si: SI) -> Option<
    (Seq<UnitView>, Map<Seq<char>, usize>),
>
    decreases exts.len(),
{
    if exts.len() == 0 {
        Some((us, m))
    } else {
        match extend_applied(us, m, exts[0], si) {
            None => None,
            Some((u2, m2)) => extends_applied(u2, m2, exts.drop_first(), si),
        }
    }
}

/// The place of the unit known by `key`, or an error naming the key.
fn unit_id(index: &KeyIndex, key: &str) -> (r: Result<usize, ConverterBuilderError>)
    requires
        index.wf(),
    ensures
        r matches Ok(i) ==> lookup(index.map(), key@) == Some(i),
        r matches Err(e) ==> e matches ConverterBuilderError::UnknownUnit(UnknownUnit(k)) && k@ == key@ && lookup(
            index.map(),
            key@,
        ) is None,
{
    match index.get_unit_id(key) {
        Ok(i) => Ok(i),
        Err(e) => Err(ConverterBuilderError::UnknownUnit(e)),
    }
}

/// The units' lists after `a` are those of `b` with more keys joined in;
/// nothing else of the units changed.
pub open spec fn extended_from(a: Seq<Unit>, b: Seq<Unit>) -> bool {
    same_but_keys(a, b)
}

/// Applies one extension: its aliases join those of the units they name
/// (and the index), its names and symbols join theirs, and the units to
/// be expanded whose names or symbols changed are expanded anew.
fn apply_extend(index: &mut KeyIndex, all_units: &mut Vec<Unit>, si: &SI, ext: Extend) -> (r: Result<
    (),
    ConverterBuilderError,
>)
    requires
        old(index).wf(),
        finishing(old(all_units)@, old(index).map()),
        all_expanded(old(all_units)@),
    ensures
        final(index).wf(),
        same_but_keys(final(all_units)@, old(all_units)@),
        r is Ok ==> finishing(final(all_units)@, final(index).map()),
        r matches Err(e) ==> phase_error(e, *si),
        r matches Err(ConverterBuilderError::UnknownUnit(UnknownUnit(k))) ==> extension_key(ext, k@),
        match extend_applied(uviews(old(all_units)@), old(index).map(), ext, *si) {
            Some((us, m)) => r is Ok && uviews(final(all_units)@) == us && final(index).map() == m,
            None => r is Err,
        },
{
    let ghost o = all_units@;
    let ghost e0 = ext;
    let Extend { precedence, names, symbols, aliases } = ext;
    let ghost all = aliases@;
    let mut rest = reversed(aliases);
    proof {
        assert(all.skip(0) =~= all);
    }
    while rest.len() > 0
        invariant
            index.wf(),
            finishing(all_units@, index.map()),
            same_but_keys(all_units@, o),
            o == old(all_units)@,
            e0 == ext,
            all_expanded(o),
            all == e0.aliases@,
            precedence == e0.precedence,
            rest@.len() <= all.len(),
            forall|k: int| 0 <= k < rest@.len() ==> #[trigger] rest@[k] == all[all.len() - 1 - k],
            aliases_applied(uviews(o), old(index).map(), all, precedence) == aliases_applied(
                uviews(all_units@),
                index.map(),
                all.skip(all.len() - rest@.len()),
                precedence,
            ),
        decreases rest@.len(),
    {
        let ghost p = all.len() - rest@.len();
        let (key, list) = rest.pop().unwrap();
        proof {
            assert((key, list) == all[p]);
            assert(all.skip(p)[0] == all[p]);
            assert(all.skip(p).drop_first() =~= all.skip(p + 1));
        }
        let id = match unit_id(index, key.as_str()) {
            Ok(i) => i,
            Err(e) => {
                return Err(e);
            },
        };
        let ghost m0 = index.map();
        match index.add_aliases(id, &list) {
            Ok(()) => {},
            Err(e) => {
                return Err(e);
            },
        }
        proof {
            lemma_insert_keys_below(m0, views(list@), id, all_units@.len() as int);
        }
        let ghost before = all_units@;
        join_into(all_units, id, KeyList::Aliases, list, precedence);
        proof {
            assert(uviews(before)[id as int] == uview(before[id as int]));
            assert forall|i: int| 0 <= i < all_units@.len() implies ((#[trigger] all_units@[i]).expanded_units matches Some(
                x,
            ) ==> expansions_ok(x, all_units@, all_units@[i])) by {
                if all_units@[i].expanded_units is Some {
                    let x = all_units@[i].expanded_units->0;
                    assert(expansions_ok(x, before, before[i]));
                    assert forall|p: SIPrefix| #![trigger x.at(p)] x.at(p) < all_units@.len()
                        && all_units@[x.at(p) as int].expanded_units is None
                        && !all_units@[x.at(p) as int].expand_si
                        && all_units@[x.at(p) as int].physical_quantity == all_units@[i].physical_quantity
                        && all_units@[x.at(p) as int].system == all_units@[i].system by {
                        assert(before[x.at(p) as int].physical_quantity == before[i].physical_quantity);
                    }
                }
            }
        }
    }
    proof {
        assert(all.skip(all.len() as int) =~= Seq::<(String, Vec<String>)>::empty());
    }
    let ghost u1 = uviews(all_units@);
    let ghost m1 = index.map();
    let ghost alln = names@;
    let mut to_update: Vec<usize> = Vec::new();
    let mut rest = reversed(names);
    proof {
        assert(alln.skip(0) =~= alln);
    }
    while rest.len() > 0
        invariant
            index.wf(),
            index.map() == m1,
            finishing(all_units@, index.map()),
            same_but_keys(all_units@, o),
            o == old(all_units)@,
            e0 == ext,
            all_expanded(o),
            forall|k: int| 0 <= k < to_update@.len() ==> #[trigger] to_update@[k] < all_units@.len() && all_units@[to_update@[k] as int].expand_si,
            precedence == e0.precedence,
            alln == e0.names@,
            aliases_applied(uviews(o), old(index).map(), e0.aliases@, precedence) == Some((u1, m1)),
            rest@.len() <= alln.len(),
            forall|k: int| 0 <= k < rest@.len() ==> #[trigger] rest@[k] == alln[alln.len() - 1 - k],
            lists_applied(u1, m1, alln, precedence, false, Seq::empty()) == lists_applied(
                uviews(all_units@),
                m1,
                alln.skip(alln.len() - rest@.len()),
                precedence,
                false,
                to_update@,
            ),
        decreases rest@.len(),
    {
        let ghost p = alln.len() - rest@.len();
        let (key, list) = rest.pop().unwrap();
        proof {
            assert((key, list) == alln[p]);
            assert(alln.skip(p)[0] == alln[p]);
            assert(alln.skip(p).drop_first() =~= alln.skip(p + 1));
        }
        let id = match unit_id(index, key.as_str()) {
            Ok(i) => i,
            Err(e) => {
                return Err(e);
            },
        };
        let ghost before = all_units@;
        let ghost upd = to_update@;
        join_into(all_units, id, KeyList::Names, list, precedence);
        proof {
            assert(uviews(before)[id as int] == uview(before[id as int]));
            assert forall|i: int| 0 <= i < all_units@.len() implies ((#[trigger] all_units@[i]).expanded_units matches Some(
                x,
            ) ==> expansions_ok(x, all_units@, all_units@[i])) by {
                if all_units@[i].expanded_units is Some {
                    let x = all_units@[i].expanded_units->0;
                    assert(expansions_ok(x, before, before[i]));
                    assert forall|p: SIPrefix| #![trigger x.at(p)] x.at(p) < all_units@.len()
                        && all_units@[x.at(p) as int].expanded_units is None
                        && !all_units@[x.at(p) as int].expand_si
                        && all_units@[x.at(p) as int].physical_quantity == all_units@[i].physical_quantity
                        && all_units@[x.at(p) as int].system == all_units@[i].system by {
                        assert(before[x.at(p) as int].physical_quantity == before[i].physical_quantity);
                    }
                }
            }
        }
        if all_units[id].expand_si && !contains_id(&to_update, id) {
            to_update.push(id);
        }
    }
    proof {
        assert(alln.skip(alln.len() as int) =~= Seq::<(String, Vec<String>)>::empty());
    }
    let ghost u2 = uviews(all_units@);
    let ghost upd1 = to_update@;
    let ghost alls = symbols@;
    let mut rest = reversed(symbols);
    proof {
        assert(alls.skip(0) =~= alls);
    }
    while rest.len() > 0
        invariant
            index.wf(),
            index.map() == m1,
            finishing(all_units@, index.map()),
            same_but_keys(all_units@, o),
            o == old(all_units)@,
            e0 == ext,
            all_expanded(o),
            forall|k: int| 0 <= k < to_update@.len() ==> #[trigger] to_update@[k] < all_units@.len() && all_units@[to_update@[k] as int].expand_si,
            precedence == e0.precedence,
            alls == e0.symbols@,
            aliases_applied(uviews(o), old(index).map(), e0.aliases@, precedence) == Some((u1, m1)),
            lists_applied(u1, m1, e0.names@, precedence, false, Seq::empty()) == Some((u2, upd1)),
            rest@.len() <= alls.len(),
            forall|k: int| 0 <= k < rest@.len() ==> #[trigger] rest@[k] == alls[alls.len() - 1 - k],
            lists_applied(u2, m1, alls, precedence, true, upd1) == lists_applied(
                uviews(all_units@),
                m1,
                alls.skip(alls.len() - rest@.len()),
                precedence,
                true,
                to_update@,
            ),
        decreases rest@.len(),
    {
        let ghost p = alls.len() - rest@.len();
        let (key, list) = rest.pop().unwrap();
        proof {
            assert((key, list) == alls[p]);
            assert(alls.skip(p)[0] == alls[p]);
            assert(alls.skip(p).drop_first() =~= alls.skip(p + 1));
        }
        let id = match unit_id(index, key.as_str()) {
            Ok(i) => i,
            Err(e) => {
                return Err(e);
            },
        };
        let ghost before = all_units@;
        let ghost upd = to_update@;
        join_into(all_units, id, KeyList::Symbols, list, precedence);
        proof {
            assert(uviews(before)[id as int] == uview(before[id as int]));
            assert forall|i: int| 0 <= i < all_units@.len() implies ((#[trigger] all_units@[i]).expanded_units matches Some(
                x,
            ) ==> expansions_ok(x, all_units@, all_units@[i])) by {
                if all_units@[i].expanded_units is Some {
                    let x = all_units@[i].expanded_units->0;
                    assert(expansions_ok(x, before, before[i]));
                    assert forall|p: SIPrefix| #![trigger x.at(p)] x.at(p) < all_units@.len()
                        && all_units@[x.at(p) as int].expanded_units is None
                        && !all_units@[x.at(p) as int].expand_si
                        && all_units@[x.at(p) as int].physical_quantity == all_units@[i].physical_quantity
                        && all_units@[x.at(p) as int].system == all_units@[i].system by {
                        assert(before[x.at(p) as int].physical_quantity == before[i].physical_quantity);
                    }
                }
            }
        }
        if all_units[id].expand_si && !contains_id(&to_update, id) {
            to_update.push(id);
        }
    }
    proof {
        assert(alls.skip(alls.len() as int) =~= Seq::<(String, Vec<String>)>::empty());
    }
    let ghost u3 = uviews(all_units@);
    let ghost upd2 = to_update@;
    proof {
        assert(upd2.skip(0) =~= upd2);
    }
    let mut k: usize = 0;
    while k < to_update.len()
        invariant
            index.wf(),
            finishing(all_units@, index.map()),
            same_but_keys(all_units@, o),
            o == old(all_units)@,
            e0 == ext,
            all_expanded(o),
            forall|j: int| 0 <= j < to_update@.len() ==> #[trigger] to_update@[j] < all_units@.len() && all_units@[to_update@[j] as int].expand_si,
            to_update@ == upd2,
            0 <= k <= upd2.len(),
            extend_applied(uviews(o), old(index).map(), e0, *si) == updates_applied(u3, m1, upd2, *si),
            updates_applied(u3, m1, upd2, *si) == updates_applied(uviews(all_units@), index.map(), upd2.skip(k as int), *si),
        decreases to_update@.len() - k,
    {
        proof {
            assert(upd2.skip(k as int)[0] == upd2[k as int]);
            assert(upd2.skip(k as int).drop_first() =~= upd2.skip(k + 1));
        }
        match update_expanded_units(index, all_units, si, to_update[k]) {
            Ok(()) => {},
            Err(e) => {
                return Err(e);
            },
        }
        k = k + 1;
    }
    proof {
        assert(upd2.skip(upd2.len() as int) =~= Seq::<usize>::empty());
    }
    Ok(())
}

/// Whether `id` is among `ids`.
fn contains_id(ids: &Vec<usize>, id: usize) -> (r: bool)
    ensures
        r == ids@.contains(id),
{
    let mut i: usize = 0;
    while i < ids.len()
        invariant
            0 <= i <= ids@.len(),
            forall|k: int| 0 <= k < i ==> ids@[k] != id,
        decreases ids@.len() - i,
    {
        if ids[i] == id {
            proof {
                assert(ids@[i as int] == id);
            }
            return true;
        }
        i = i + 1;
    }
    false
}

/// Applies the extensions in order.
fn apply_extends(index: &mut KeyIndex, all_units: &mut Vec<Unit>, si: &SI, extends: Vec<Extend>) -> (r: Result<
    (),
    ConverterBuilderError,
>)
    requires
        old(index).wf(),
        finishing(old(all_units)@, old(index).map()),
        all_expanded(old(all_units)@),
    ensures
        final(index).wf(),
        same_but_keys(final(all_units)@, old(all_units)@),
        r is Ok ==> finishing(final(all_units)@, final(index).map()),
        r matches Err(e) ==> phase_error(e, *si),
        r matches Err(ConverterBuilderError::UnknownUnit(UnknownUnit(k))) ==> exists|j: int|
            0 <= j < extends@.len() && extension_key(#[trigger] extends@[j], k@),
        extends@.len() == 0 ==> r is Ok && final(all_units)@ == old(all_units)@ && final(index).map() == old(
            index,
        ).map(),
        match extends_applied(uviews(old(all_units)@), old(index).map(), extends@, *si) {
            Some((us, m)) => r is Ok && uviews(final(all_units)@) == us && final(index).map() == m,
            None => r is Err,
        },
{
    if extends.len() == 0 {
        return Ok(());
    }
    let ghost o = all_units@;
    let ghost all = extends@;
    let mut rest = reversed(extends);
    proof {
        assert(all.skip(0) =~= all);
    }
    while rest.len() > 0
        invariant
            extends@.len() > 0,
            all == extends@,
            index.wf(),
            o == old(all_units)@,
            finishing(all_units@, index.map()),
            same_but_keys(all_units@, o),
            all_expanded(o),
            rest@.len() <= all.len(),
            forall|k: int| 0 <= k < rest@.len() ==> #[trigger] rest@[k] == all[all.len() - 1 - k],
            extends_applied(uviews(o), old(index).map(), all, *si) == extends_applied(
                uviews(all_units@),
                index.map(),
                all.skip(all.len() - rest@.len()),
                *si,
            ),
        decreases rest@.len(),
    {
        let ghost p = all.len() - rest@.len();
        let ext = rest.pop().unwrap();
        proof {
            assert(ext == all[p]);
            assert(all.skip(p)[0] == all[p]);
            assert(all.skip(p).drop_first() =~= all.skip(p + 1));
        }
        match apply_extend(index, all_units, si, ext) {
            Ok(()) => {},
            Err(e) => {
                return Err(e);
            },
        }
    }
    proof {
        assert(all.skip(all.len() as int) =~= Seq::<Extend>::empty());
    }
    Ok(())
}

/// The unit of `units` with system `s`.
fn set_system(all_units: &mut Vec<Unit>, id: usize, s: System)
    requires
        id < old(all_units)@.len(),
    ensures
        final(all_units)@ == old(all_units)@.update(id as int, Unit { system: Some(s), ..old(all_units)@[id as int] }),
{
    let mut u = placeholder();
    all_units.set_and_swap(id, &mut u);
    u.system = Some(s);
    all_units.set(id, u);
}

/// The units are the same but for systems given to units of none.
pub open spec fn systems_given(a: Seq<Unit>, b: Seq<Unit>) -> bool {
    &&& a.len() == b.len()
    &&& forall|i: int|
        0 <= i < a.len() ==> (#[trigger] a[i]) == (Unit { system: a[i].system, ..b[i] }) && (b[i].system is Some
            ==> a[i].system == b[i].system)
}

/// The places of the units known by `names`, in order.
pub open spec fn resolved(m: Map<Seq<char>, usize>, names: Seq<String>, ids: Seq<usize>) -> bool {
    &&& ids.len() == names.len()
    &&& forall|k: int| 0 <= k < ids.len() ==> lookup(m, #[trigger] names[k]@) == Some(ids[k])
}

/// The best units of a list: the places of the units it names (an error
/// for the first name of no unit); with a system, each of them is given
/// that system when it has none, and one of another system is an error.
fn best_conversions(names: &Vec<String>, index: &KeyIndex, all_units: &mut Vec<Unit>, system: Option<System>) -> (r: Result<
    BestConversions,
    ConverterBuilderError,
>)
    requires
        index.wf(),
        ids_below(index.map(), old(all_units)@.len() as int),
    ensures
        systems_given(final(all_units)@, old(all_units)@),
        r matches Ok(b) ==> resolved(index.map(), names@, b.0@) && places_below(b.0@, final(all_units)@.len() as int)
            && (system matches Some(s) ==> forall|k: int|
            0 <= k < b.0@.len() ==> #[trigger] final(all_units)@[b.0@[k] as int].system == Some(s)),
        r matches Err(e) ==> e is UnknownUnit || e is IncorrectUnitSystem,
        r matches Err(ConverterBuilderError::IncorrectUnitSystem { expected, got, .. }) ==> system == Some(expected)
            && got != expected,
        r matches Err(ConverterBuilderError::UnknownUnit(UnknownUnit(k))) ==> exists|j: int|
            0 <= j < names@.len() && (#[trigger] names@[j])@ == k@ && lookup(index.map(), k@) is None,
        system is None && (forall|j: int| 0 <= j < names@.len() ==> lookup(index.map(), (#[trigger] names@[j])@) is Some)
            ==> r is Ok,
{
    let ghost o = all_units@;
    let mut ids: Vec<usize> = Vec::new();
    let mut i: usize = 0;
    while i < names.len()
        invariant
            index.wf(),
            ids_below(index.map(), o.len() as int),
            o == old(all_units)@,
            all_units@ == o,
            places_below(ids@, o.len() as int),
            0 <= i <= names@.len(),
            ids@.len() == i,
            forall|k: int| 0 <= k < i ==> lookup(index.map(), #[trigger] names@[k]@) == Some(ids@[k]),
        decreases names@.len() - i,
    {
        match unit_id(index, names[i].as_str()) {
            Ok(id) => ids.push(id),
            Err(e) => {
                return Err(e);
            },
        }
        i = i + 1;
    }
    if let Some(group_system) = system {
        let mut k: usize = 0;
        while k < ids.len()
            invariant
                o == old(all_units)@,
                system == Some(group_system),
                systems_given(all_units@, o),
                places_below(ids@, o.len() as int),
                0 <= k <= ids@.len(),
                forall|j: int| 0 <= j < k ==> #[trigger] all_units@[ids@[j] as int].system == Some(group_system),
            decreases ids@.len() - k,
        {
            let id = ids[k];
            match all_units[id].system {
                Some(unit_system) => {
                    if group_system != unit_system {
                        return Err(
                            ConverterBuilderError::IncorrectUnitSystem {
                                unit: Box::new(all_units[id].duplicate()),
                                expected: group_system,
                                got: unit_system,
                            },
                        );
                    }
                },
                None => set_system(all_units, id, group_system),
            }
            k = k + 1;
        }
    }
    Ok(BestConversions(ids))
}

/// The keys a list of best units names.
pub open spec fn best_names(b: BestUnits) -> Seq<Seq<char>> {
    match b {
        BestUnits::Unified(names) => views(names@),
        BestUnits::BySystem { metric, imperial } => views(metric@) + views(imperial@),
    }
}

/// Whether an extension names `k` as the key of a unit it extends.
pub open spec fn extension_key(ext: Extend, k: Seq<char>) -> bool {
    ||| exists|j: int| 0 <= j < ext.aliases@.len() && (#[trigger] ext.aliases@[j]).0@ == k
    ||| exists|j: int| 0 <= j < ext.names@.len() && (#[trigger] ext.names@[j]).0@ == k
    ||| exists|j: int| 0 <= j < ext.symbols@.len() && (#[trigger] ext.symbols@[j]).0@ == k
}

/// The best units of a quantity, as given.
pub open spec fn store_resolved(m: Map<Seq<char>, usize>, units: Seq<Unit>, s: BestConversionsStore, b: BestUnits) -> bool {
    match (s, b) {
        (BestConversionsStore::Unified(x), BestUnits::Unified(names)) => resolved(m, names@, x.0@),
        (BestConversionsStore::BySystem { metric: x, imperial: y }, BestUnits::BySystem { metric, imperial }) => {
            &&& resolved(m, metric@, x.0@)
            &&& resolved(m, imperial@, y.0@)
            &&& forall|k: int| 0 <= k < x.0@.len() ==> #[trigger] units[x.0@[k] as int].system == Some(System::Metric)
            &&& forall|k: int| 0 <= k < y.0@.len() ==> #[trigger] units[y.0@[k] as int].system == Some(System::Imperial)
        },
        _ => false,
    }
}

/// The best units of a quantity.
fn best_store(b: &BestUnits, index: &KeyIndex, all_units: &mut Vec<Unit>) -> (r: Result<BestConversionsStore, ConverterBuilderError>)
    requires
        index.wf(),
        ids_below(index.map(), old(all_units)@.len() as int),
    ensures
        systems_given(final(all_units)@, old(all_units)@),
        r matches Err(e) ==> e is UnknownUnit || e is IncorrectUnitSystem,
        r matches Err(ConverterBuilderError::UnknownUnit(UnknownUnit(k))) ==> best_names(*b).contains(k@),
        b matches BestUnits::Unified(names) && (forall|j: int|
            0 <= j < names@.len() ==> lookup(index.map(), (#[trigger] names@[j])@) is Some) ==> r is Ok,
        r matches Ok(s) ==> store_resolved(index.map(), final(all_units)@, s, *b) && store_below(s, final(all_units)@.len() as int),
{
    match b {
        BestUnits::Unified(names) => {
            let x = match best_conversions(names, index, all_units, None) {
                Ok(x) => x,
                Err(e) => {
                    proof {
                        if let ConverterBuilderError::UnknownUnit(UnknownUnit(k)) = &e {
                            let j = choose|j: int| 0 <= j < names@.len() && (#[trigger] names@[j])@ == k@ && lookup(index.map(), k@) is None;
                            assert(best_names(*b)[j] == k@);
                        }
                    }
                    return Err(e);
                },
            };
            Ok(BestConversionsStore::Unified(x))
        },
        BestUnits::BySystem { metric, imperial } => {
            let ghost o = all_units@;
            let x = match best_conversions(metric, index, all_units, Some(System::Metric)) {
                Ok(x) => x,
                Err(e) => {
                    proof {
                        if let ConverterBuilderError::UnknownUnit(UnknownUnit(k)) = &e {
                            let j = choose|j: int| 0 <= j < metric@.len() && (#[trigger] metric@[j])@ == k@ && lookup(index.map(), k@) is None;
                            assert(best_names(*b)[j] == k@);
                        }
                    }
                    return Err(e);
                },
            };
            let ghost mid = all_units@;
            let y = match best_conversions(imperial, index, all_units, Some(System::Imperial)) {
                Ok(y) => y,
                Err(e) => {
                    proof {
                        if let ConverterBuilderError::UnknownUnit(UnknownUnit(k)) = &e {
                            let j = choose|j: int| 0 <= j < imperial@.len() && (#[trigger] imperial@[j])@ == k@ && lookup(index.map(), k@) is None;
                            assert(best_names(*b)[metric@.len() + j] == k@);
                        }
                    }
                    return Err(e);
                },
            };
            proof {
                assert forall|k: int| 0 <= k < x.0@.len() implies #[trigger] all_units@[x.0@[k] as int].system == Some(
                    System::Metric,
                ) by {
                    assert(mid[x.0@[k] as int].system == Some(System::Metric));
                }
            }
            Ok(BestConversionsStore::BySystem { metric: x, imperial: y })
        },
    }
}

/// The best units of quantity `q`; an error when none were given.
fn store_for(
    q: PhysicalQuantity,
    best: &PerQuantity<Option<BestUnits>>,
    index: &KeyIndex,
    all_units: &mut Vec<Unit>,
) -> (r: Result<BestConversionsStore, ConverterBuilderError>)
    requires
        index.wf(),
        ids_below(index.map(), old(all_units)@.len() as int),
    ensures
        systems_given(final(all_units)@, old(all_units)@),
        r matches Ok(s) ==> best.at(q) matches Some(b) && store_resolved(index.map(), final(all_units)@, s, b)
            && store_below(s, final(all_units)@.len() as int),
        r matches Err(e) ==> e is UnknownUnit || e is IncorrectUnitSystem || e is EmptyBest,
        r matches Err(ConverterBuilderError::EmptyBest { reason, quantity }) ==> quantity == q && best.at(q) is None
            && reason@ == "no best units given"@,
        r matches Err(ConverterBuilderError::UnknownUnit(UnknownUnit(k))) ==> best.at(q) matches Some(b) && best_names(
            b,
        ).contains(k@),
        best.at(q) matches Some(BestUnits::Unified(names)) && (forall|j: int|
            0 <= j < names@.len() ==> lookup(index.map(), (#[trigger] names@[j])@) is Some) ==> r is Ok,
{
    match best.get(q) {
        Some(b) => best_store(b, index, all_units),
        None => Err(ConverterBuilderError::EmptyBest { reason: "no best units given", quantity: q }),
    }
}

/// The places of the units of each physical quantity.
fn quantity_index(all_units: &Vec<Unit>) -> (r: PerQuantity<Vec<usize>>)
    ensures
        forall|q: PhysicalQuantity| #[trigger] r.at(q)@ == ids_of(all_units@, q),
{
    let mut r: PerQuantity<Vec<usize>> = PerQuantity {
        volume: Vec::new(),
        mass: Vec::new(),
        length: Vec::new(),
        temperature: Vec::new(),
        time: Vec::new(),
    };
    let mut i: usize = 0;
    while i < all_units.len()
        invariant
            0 <= i <= all_units@.len(),
            forall|q: PhysicalQuantity| #[trigger] r.at(q)@ == ids_of(all_units@.take(i as int), q),
        decreases all_units@.len() - i,
    {
        let ghost before = r;
        match all_units[i].physical_quantity {
            PhysicalQuantity::Volume => r.volume.push(i),
            PhysicalQuantity::Mass => r.mass.push(i),
            PhysicalQuantity::Length => r.length.push(i),
            PhysicalQuantity::Temperature => r.temperature.push(i),
            PhysicalQuantity::Time => r.time.push(i),
        }
        proof {
            assert(all_units@.take(i + 1).drop_last() =~= all_units@.take(i as int));
            assert forall|q: PhysicalQuantity| #[trigger] r.at(q)@ == ids_of(all_units@.take(i + 1), q) by {
                assert(before.at(q)@ == ids_of(all_units@.take(i as int), q));
            }
        }
        i = i + 1;
    }
    proof {
        assert(all_units@.take(all_units@.len() as int) =~= all_units@);
    }
    r
}

/// The units of a list are the same as those of another but for the
/// systems given and expansions recorded, and the names and symbols of
/// each expansion are those of its unit after each prefix.
pub open spec fn expansions_made(c: Seq<Unit>, b: Seq<Unit>, si: SI) -> bool {
    forall|i: int|
        0 <= i < b.len() && (#[trigger] b[i]).expand_si ==> (c[i].expanded_units matches Some(e) && forall|p: SIPrefix|
            #[trigger] e.at(p) < c.len() && views(c[e.at(p) as int].names@) == prefixed(
                views(si.prefixes->0.at(p)@),
                views(b[i].names@),
            ) && views(c[e.at(p) as int].symbols@) == prefixed(
                views(si.symbol_prefixes->0.at(p)@),
                views(b[i].symbols@),
            ))
}

/// Giving systems twice is giving them once.
pub proof fn lemma_systems_given_trans(a: Seq<Unit>, b: Seq<Unit>, c: Seq<Unit>)
    requires
        systems_given(a, b),
        systems_given(b, c),
    ensures
        systems_given(a, c),
{
    assert forall|i: int| 0 <= i < a.len() implies (#[trigger] a[i]) == (Unit { system: a[i].system, ..c[i] }) && (
    c[i].system is Some ==> a[i].system == c[i].system) by {
        assert(b[i] == (Unit { system: b[i].system, ..c[i] }));
    }
}

/// Best units found stay so when systems are given.
pub proof fn lemma_store_kept(m: Map<Seq<char>, usize>, u: Seq<Unit>, u2: Seq<Unit>, s: BestConversionsStore, b: BestUnits)
    requires
        store_resolved(m, u, s, b),
        store_below(s, u.len() as int),
        systems_given(u2, u),
    ensures
        store_resolved(m, u2, s, b),
        store_below(s, u2.len() as int),
{
    if let (BestConversionsStore::BySystem { metric: x, imperial: y }, BestUnits::BySystem { .. }) = (s, b) {
        assert forall|k: int| 0 <= k < x.0@.len() implies #[trigger] u2[x.0@[k] as int].system == Some(System::Metric) by {
            assert(u[x.0@[k] as int].system == Some(System::Metric));
        }
        assert forall|k: int| 0 <= k < y.0@.len() implies #[trigger] u2[y.0@[k] as int].system == Some(System::Imperial) by {
            assert(u[y.0@[k] as int].system == Some(System::Imperial));
        }
    }
}

impl ConverterBuilder {
    /// The known units: each unit marked for it is expanded with the SI
    /// prefixes (the units made go after all others), the extensions are
    /// applied in order, and the best units of each physical quantity are
    /// found by their keys (a unit of no system takes that of the list
    /// naming it); the units of each physical quantity are listed.
    #[verifier::rlimit(100)]
    #[verifier::spinoff_prover]
    pub fn finish(self) -> (r: Result<Converter, ConverterBuilderError>)
        requires
            self.wf(),
        ensures
            r matches Ok(c) ==> {
                &&& c.wf()
                &&& c.default_system_spec() == self.default_system_spec()
                &&& c.units().len() >= self.units().len()
                &&& forall|i: int|
                    0 <= i < self.units().len() ==> (#[trigger] c.units()[i]).physical_quantity
                        == self.units()[i].physical_quantity && c.units()[i].expand_si == self.units()[i].expand_si
                &&& forall|q: PhysicalQuantity|
                    #[trigger] self.best().at(q) is Some && store_resolved(
                        c.index(),
                        c.units(),
                        c.best_spec().at(q),
                        self.best().at(q)->0,
                    )
                &&& self.extends().len() == 0 ==> expansions_made(c.units(), self.units(), self.si_spec())
            },
            r matches Ok(c) ==> (expansion_done(self.units(), self.index(), self.si_spec()) matches Some((vs, m))
                && extends_applied(vs, m, self.extends(), self.si_spec()) matches Some((ws, m2)) && c.index() == m2
                && same_but_systems(uviews(c.units()), ws)),
            r matches Err(ConverterBuilderError::EmptyBest { reason, quantity }) ==> self.best().at(quantity) is None
                && reason@ == "no best units given"@,
            r matches Err(ConverterBuilderError::EmptySIPrefixes) ==> self.si_spec().prefixes is None
                || self.si_spec().symbol_prefixes is None,
            r matches Err(e) && key_error(e) ==> (exists|i: int|
                0 <= i < self.units().len() && (#[trigger] self.units()[i]).expand_si) || self.extends().len() > 0,
            r matches Err(ConverterBuilderError::UnknownUnit(UnknownUnit(k))) ==> (exists|j: int|
                0 <= j < self.extends().len() && extension_key(#[trigger] self.extends()[j], k@)) || (exists|
                q: PhysicalQuantity,
            | #[trigger] self.best().at(q) matches Some(b) && best_names(b).contains(k@)),
            (exists|i: int| 0 <= i < self.units().len() && (#[trigger] self.units()[i]).expand_si) && (
            self.si_spec().prefixes is None || self.si_spec().symbol_prefixes is None) ==> r matches Err(
                ConverterBuilderError::EmptySIPrefixes,
            ),
            r matches Err(e) && key_error(e) && self.extends().len() == 0 ==> self.si_spec().prefixes is Some
                && self.si_spec().symbol_prefixes is Some && expansions_added(
                self.units(),
                0,
                self.index(),
                self.units().len() as int,
                self.si_spec().prefixes->0,
                self.si_spec().symbol_prefixes->0,
            ) is None,
            (expansion_done(self.units(), self.index(), self.si_spec()) matches Some((vs, m)) && extends_applied(
                vs,
                m,
                self.extends(),
                self.si_spec(),
            ) matches Some((ws, m2)) && (forall|q: PhysicalQuantity| #[trigger]
                self.best().at(q) matches Some(BestUnits::Unified(names)) && forall|j: int|
                    0 <= j < names@.len() ==> lookup(m2, (#[trigger] names@[j])@) is Some)) ==> r is Ok,
    {
        let ghost b0 = self.units();
        let ghost si0 = self.si;
        let ghost m_orig = self.index();
        proof {
            if expansion_done(b0, m_orig, si0) is Some {
                lemma_expansion_done_some(b0, m_orig, si0);
            }
        }
        let ConverterBuilder { all_units, unit_index, extend, si, best_units, default_system } = self;
        let mut all_units = all_units;
        let mut unit_index = unit_index;
        match expand_all(&mut all_units, &mut unit_index, &si) {
            Ok(()) => {},
            Err(e) => {
                return Err(e);
            },
        }
        let ghost expanded = all_units@;
        let ghost m_exp = unit_index.map();
        proof {
            lemma_expansion_done(b0, m_orig, si0, expanded, m_exp);
        }
        let ghost no_extends = extend@.len() == 0;
        let ghost ex = extend@;
        match apply_extends(&mut unit_index, &mut all_units, &si, extend) {
            Ok(()) => {},
            Err(e) => {
                proof {
                    if let ConverterBuilderError::UnknownUnit(UnknownUnit(k)) = &e {
                        let j = choose|j: int| 0 <= j < ex.len() && extension_key(#[trigger] ex[j], k@);
                        assert(extension_key(self.extends()[j], k@));
                    }
                }
                return Err(e);
            },
        }
        let ghost extended = all_units@;
        let ghost m_ext = unit_index.map();
        let volume = match store_for(PhysicalQuantity::Volume, &best_units, &unit_index, &mut all_units) {
            Ok(x) => x,
            Err(e) => {
                proof {
                    if let ConverterBuilderError::UnknownUnit(UnknownUnit(k)) = &e {
                        assert(self.best().at(PhysicalQuantity::Volume) matches Some(b) && best_names(b).contains(k@));
                    }
                }
                return Err(e);
            },
        };
        let ghost a1 = all_units@;
        let mass = match store_for(PhysicalQuantity::Mass, &best_units, &unit_index, &mut all_units) {
            Ok(x) => x,
            Err(e) => {
                proof {
                    if let ConverterBuilderError::UnknownUnit(UnknownUnit(k)) = &e {
                        assert(self.best().at(PhysicalQuantity::Mass) matches Some(b) && best_names(b).contains(k@));
                    }
                }
                return Err(e);
            },
        };
        let ghost a2 = all_units@;
        let length = match store_for(PhysicalQuantity::Length, &best_units, &unit_index, &mut all_units) {
            Ok(x) => x,
            Err(e) => {
                proof {
                    if let ConverterBuilderError::UnknownUnit(UnknownUnit(k)) = &e {
                        assert(self.best().at(PhysicalQuantity::Length) matches Some(b) && best_names(b).contains(k@));
                    }
                }
                return Err(e);
            },
        };
        let ghost a3 = all_units@;
        let temperature = match store_for(PhysicalQuantity::Temperature, &best_units, &unit_index, &mut all_units) {
            Ok(x) => x,
            Err(e) => {
                proof {
                    if let ConverterBuilderError::UnknownUnit(UnknownUnit(k)) = &e {
                        assert(self.best().at(PhysicalQuantity::Temperature) matches Some(b) && best_names(b).contains(k@));
                    }
                }
                return Err(e);
            },
        };
        let ghost a4 = all_units@;
        let time = match store_for(PhysicalQuantity::Time, &best_units, &unit_index, &mut all_units) {
            Ok(x) => x,
            Err(e) => {
                proof {
                    if let ConverterBuilderError::UnknownUnit(UnknownUnit(k)) = &e {
                        assert(self.best().at(PhysicalQuantity::Time) matches Some(b) && best_names(b).contains(k@));
                    }
                }
                return Err(e);
            },
        };
        proof {
            let a5 = all_units@;
            lemma_systems_given_trans(a5, a4, a3);
            lemma_systems_given_trans(a5, a3, a2);
            lemma_systems_given_trans(a5, a2, a1);
            lemma_systems_given_trans(a5, a1, extended);
            lemma_systems_given_trans(a4, a3, a2);
            lemma_systems_given_trans(a4, a2, a1);
            lemma_systems_given_trans(a3, a2, a1);
            let m = unit_index.map();
            lemma_store_kept(m, a1, a5, volume, best_units.at(PhysicalQuantity::Volume)->0);
            lemma_store_kept(m, a2, a5, mass, best_units.at(PhysicalQuantity::Mass)->0);
            lemma_store_kept(m, a3, a5, length, best_units.at(PhysicalQuantity::Length)->0);
            lemma_store_kept(m, a4, a5, temperature, best_units.at(PhysicalQuantity::Temperature)->0);
            assert(ids_below(m, a5.len() as int));
            assert forall|i: int| 0 <= i < b0.len() implies (#[trigger] a5[i]).physical_quantity == b0[i].physical_quantity
                && a5[i].expand_si == b0[i].expand_si by {
                assert(expanded[i] == with_expansions(b0[i], expanded[i].expanded_units));
                assert(a5[i] == (Unit { system: a5[i].system, ..extended[i] }));
            }
            if no_extends {
                assert forall|i: int| 0 <= i < b0.len() && (#[trigger] b0[i]).expand_si implies (
                a5[i].expanded_units matches Some(e) && forall|p: SIPrefix|
                    #[trigger] e.at(p) < a5.len() && views(a5[e.at(p) as int].names@) == prefixed(
                        views(si0.prefixes->0.at(p)@),
                        views(b0[i].names@),
                    ) && views(a5[e.at(p) as int].symbols@) == prefixed(
                        views(si0.symbol_prefixes->0.at(p)@),
                        views(b0[i].symbols@),
                    )) by {
                    let e = expanded[i].expanded_units->0;
                    assert(a5[i] == (Unit { system: a5[i].system, ..expanded[i] }));
                    assert forall|p: SIPrefix| #[trigger] e.at(p) < a5.len() && views(a5[e.at(p) as int].names@) == prefixed(
                        views(si0.prefixes->0.at(p)@),
                        views(b0[i].names@),
                    ) && views(a5[e.at(p) as int].symbols@) == prefixed(
                        views(si0.symbol_prefixes->0.at(p)@),
                        views(b0[i].symbols@),
                    ) by {
                        assert(expanded_unit(b0[i], si0.prefixes->0, si0.symbol_prefixes->0, p, expanded[e.at(p) as int]));
                        assert(finishing(expanded, m));
                        assert(expansions_ok(e, expanded, expanded[i]));
                        assert(a5[e.at(p) as int] == (Unit { system: a5[e.at(p) as int].system, ..expanded[e.at(p) as int] }));
                    }
                }
            }
        }
        proof {
            let a5 = all_units@;
            assert(extends_applied(uviews(expanded), m_exp, ex, si0) == Some((uviews(extended), m_ext)));
            assert forall|i: int| 0 <= i < a5.len() implies #[trigger] uviews(a5)[i] == UnitView {
                system: uviews(a5)[i].system,
                ..uviews(extended)[i]
            } by {
                assert(a5[i] == (Unit { system: a5[i].system, ..extended[i] }));
            }
            assert(same_but_systems(uviews(a5), uviews(extended)));
        }
        let best = PerQuantity { volume, mass, length, temperature, time };
        let quantity_index = quantity_index(&all_units);
        let c = Converter::from_parts(all_units, unit_index, quantity_index, best, default_system);
        Ok(c)
    }
}

} // verus!
