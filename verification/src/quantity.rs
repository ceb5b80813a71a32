//! Quantities of a recipe: a value that scales with the servings or not,
//! and an optional unit.
use vstd::prelude::*;

use crate::ast::{self, Value, ValueView};
use crate::convert::{unit_of, KnownUnit, PhysicalQuantity, UnitIndex};
use crate::metadata::str_eq;
use crate::parser::{opt_str_view, opt_view};

verus! {

/// A value that can or not be changed by scaling it.
#[derive(Debug, Clone, PartialEq)]
pub enum QuantityValue {
    /// Cannot be scaled.
    Fixed(Value),
    /// Scales linearly with the number of servings.
    Linear(Value),
    /// One value for each number of servings the recipe declares.
    ByServings(Vec<Value>),
}

/// A quantity value as contracts see it.
pub enum QuantityValueView {
    Fixed(ValueView),
    Linear(ValueView),
    ByServings(Seq<ValueView>),
}

impl View for QuantityValue {
    type V = QuantityValueView;

    open spec fn view(&self) -> QuantityValueView {
        match self {
            QuantityValue::Fixed(v) => QuantityValueView::Fixed(v@),
            QuantityValue::Linear(v) => QuantityValueView::Linear(v@),
            QuantityValue::ByServings(vs) => QuantityValueView::ByServings(vs@.map_values(|v: Value| v@)),
        }
    }
}

impl Value {
    /// Whether the value is text.
    pub fn is_text(&self) -> (r: bool)
        ensures
            r == (self is Text),
    {
        match self {
            Value::Text(_) => true,
            _ => false,
        }
    }
}

/// The model's value for a value of the syntax tree: one value marked to
/// scale is linear, one not marked is fixed, many are by servings.
pub open spec fn value_of_ast(v: ast::QuantityValue) -> QuantityValueView {
    match v {
        ast::QuantityValue::Single { value, auto_scale } => if auto_scale is Some {
            QuantityValueView::Linear(value.inner_spec()@)
        } else {
            QuantityValueView::Fixed(value.inner_spec()@)
        },
        ast::QuantityValue::Many(vs) => QuantityValueView::ByServings(
            vs@.map_values(|l: crate::located::Located<Value>| l.inner_spec()@),
        ),
    }
}

impl QuantityValue {
    /// Whether any of the possible values is text.
    pub open spec fn contains_text_spec(&self) -> bool {
        match self {
            QuantityValue::Fixed(v) => v is Text,
            QuantityValue::Linear(v) => v is Text,
            QuantityValue::ByServings(vs) => exists|i: int| 0 <= i < vs@.len() && (#[trigger] vs@[i]) is Text,
        }
    }

    /// Whether any of the possible values is text.
    pub fn contains_text_value(&self) -> (r: bool)
        ensures
            r == self.contains_text_spec(),
    {
        match self {
            QuantityValue::Fixed(v) => v.is_text(),
            QuantityValue::Linear(v) => v.is_text(),
            QuantityValue::ByServings(vs) => {
                let mut i: usize = 0;
                while i < vs.len()
                    invariant
                        0 <= i <= vs@.len(),
                        self matches QuantityValue::ByServings(w) && w@ == vs@,
                        forall|k: int| 0 <= k < i ==> !((#[trigger] vs@[k]) is Text),
                    decreases vs@.len() - i,
                {
                    if vs[i].is_text() {
                        assert(vs@[i as int] is Text);
                        return true;
                    }
                    i = i + 1;
                }
                false
            },
        }
    }

    /// The model's value for a value of the syntax tree.
    pub fn from_ast(value: ast::QuantityValue) -> (r: Self)
        ensures
            r@ == value_of_ast(value),
    {
        match value {
            ast::QuantityValue::Single { value, auto_scale } => {
                let is_linear = auto_scale.is_some();
                let v = value.take();
                if is_linear {
                    QuantityValue::Linear(v)
                } else {
                    QuantityValue::Fixed(v)
                }
            },
            ast::QuantityValue::Many(vs) => {
                let ghost all = vs@;
                let mut rest = vs;
                let mut backwards: Vec<Value> = Vec::new();
                while rest.len() > 0
                    invariant
                        rest@.len() + backwards@.len() == all.len(),
                        rest@ == all.subrange(0, rest@.len() as int),
                        forall|k: int|
                            0 <= k < backwards@.len() ==> (#[trigger] backwards@[k])@ == all[all.len() - 1 - k].inner_spec()@,
                    decreases rest@.len(),
                {
                    let l = rest.pop().unwrap();
                    backwards.push(l.take());
                }
                let mut out: Vec<Value> = Vec::new();
                while backwards.len() > 0
                    invariant
                        out@.len() + backwards@.len() == all.len(),
                        forall|k: int|
                            0 <= k < backwards@.len() ==> (#[trigger] backwards@[k])@ == all[all.len() - 1 - k].inner_spec()@,
                        forall|k: int| 0 <= k < out@.len() ==> (#[trigger] out@[k])@ == all[k].inner_spec()@,
                    decreases backwards@.len(),
                {
                    let v = backwards.pop().unwrap();
                    out.push(v);
                }
                proof {
                    assert(out@.map_values(|v: Value| v@) =~= all.map_values(
                        |l: crate::located::Located<Value>| l.inner_spec()@,
                    ));
                }
                QuantityValue::ByServings(out)
            },
        }
    }
}

/// Which of two quantities has the unit that the other lacks.
#[derive(Debug, Clone, PartialEq)]
pub enum UnitSide {
    /// The first one has it.
    Left(String),
    /// The second one has it.
    Right(String),
}

/// Why the units of two quantities cannot be added.
#[derive(Debug, Clone, PartialEq)]
pub enum IncompatibleUnits {
    /// One quantity has a unit and the other has none.
    MissingUnit { found: UnitSide },
    /// Both units are known and measure different things.
    DifferentPhysicalQuantities { a: PhysicalQuantity, b: PhysicalQuantity },
    /// A unit is not known and the texts differ.
    UnknownDifferentUnits { a: String, b: String },
}

/// Whether quantities with these units can be added: neither has one,
/// or both are known and measure the same, or the same unknown unit.
pub open spec fn units_compatible(a: Option<Seq<char>>, b: Option<Seq<char>>, units: Seq<KnownUnit>) -> bool {
    match (a, b) {
        (None, None) => true,
        (Some(a), Some(b)) => match (unit_of(units, a), unit_of(units, b)) {
            (Some(pa), Some(pb)) => pa == pb,
            _ => a == b,
        },
        _ => false,
    }
}

/// A value and an optional unit.
#[derive(Debug, Clone, PartialEq)]
pub struct Quantity {
    pub value: QuantityValue,
    pub(crate) unit: Option<String>,
}

impl Quantity {
    /// The value.
    pub closed spec fn value_spec(&self) -> QuantityValue {
        self.value
    }

    /// The unit's text.
    pub closed spec fn unit_spec(&self) -> Option<Seq<char>> {
        opt_view(self.unit)
    }

    /// A quantity of `value` in `unit`.
    pub fn new(value: QuantityValue, unit: Option<String>) -> (q: Self)
        ensures
            q.value_spec() == value,
            q.unit_spec() == opt_view(unit),
    {
        Quantity { value, unit }
    }

    /// The value.
    pub fn value(&self) -> (r: &QuantityValue)
        ensures
            *r == self.value_spec(),
    {
        &self.value
    }

    /// The unit's text.
    pub fn unit_text(&self) -> (r: Option<&str>)
        ensures
            opt_str_view(r) == self.unit_spec(),
    {
        match &self.unit {
            Some(u) => Some(u.as_str()),
            None => None,
        }
    }

    /// Whether the two can be added: both without unit, or both with
    /// known units of the same physical quantity (the first unit is the
    /// common one), or with the same unknown unit text.
    pub open spec fn compatible_spec(
        &self,
        rhs: &Self,
        units: Seq<KnownUnit>,
        r: Result<Option<KnownUnit>, IncompatibleUnits>,
    ) -> bool {
        match (self.unit_spec(), rhs.unit_spec()) {
            (None, None) => r matches Ok(None),
            (None, Some(u)) => r matches Err(IncompatibleUnits::MissingUnit { found: UnitSide::Right(f) }) && f@ == u,
            (Some(u), None) => r matches Err(IncompatibleUnits::MissingUnit { found: UnitSide::Left(f) }) && f@ == u,
            (Some(a), Some(b)) => match (unit_of(units, a), unit_of(units, b)) {
                (Some(pa), Some(pb)) => if pa != pb {
                    r == Err::<Option<KnownUnit>, IncompatibleUnits>(
                        IncompatibleUnits::DifferentPhysicalQuantities { a: pa, b: pb },
                    )
                } else {
                    r matches Ok(Some(k)) && k.key@ == a && k.physical_quantity == pa
                },
                _ => if a != b {
                    r matches Err(IncompatibleUnits::UnknownDifferentUnits { a: x, b: y }) && x@ == a && y@ == b
                } else {
                    r matches Ok(None)
                },
            },
        }
    }

    /// Checks whether the two can be added, and gives the common unit
    /// when both are known.
    pub fn is_compatible(&self, rhs: &Self, units: &UnitIndex) -> (r: Result<Option<KnownUnit>, IncompatibleUnits>)
        ensures
            self.compatible_spec(rhs, units.units_spec(), r),
            r is Ok <==> units_compatible(self.unit_spec(), rhs.unit_spec(), units.units_spec()),
    {
        match (&self.unit, &rhs.unit) {
            (None, None) => Ok(None),
            (None, Some(u)) => Err(IncompatibleUnits::MissingUnit { found: UnitSide::Right(u.as_str().to_owned()) }),
            (Some(u), None) => Err(IncompatibleUnits::MissingUnit { found: UnitSide::Left(u.as_str().to_owned()) }),
            (Some(a), Some(b)) => {
                match (units.get_unit(a.as_str()), units.get_unit(b.as_str())) {
                    (Some(pa), Some(pb)) => {
                        if pa != pb {
                            Err(IncompatibleUnits::DifferentPhysicalQuantities { a: pa, b: pb })
                        } else {
                            Ok(Some(KnownUnit { key: a.as_str().to_owned(), physical_quantity: pa }))
                        }
                    },
                    _ => {
                        if !str_eq(a.as_str(), b.as_str()) {
                            Err(
                                IncompatibleUnits::UnknownDifferentUnits {
                                    a: a.as_str().to_owned(),
                                    b: b.as_str().to_owned(),
                                },
                            )
                        } else {
                            Ok(None)
                        }
                    },
                }
            },
        }
    }
}

} // verus!
