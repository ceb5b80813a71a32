//! The walk over a recipe's syntax tree that builds its model.
use vstd::prelude::*;

use crate::analysis::{AnalysisError, AnalysisWarning};
use crate::ast::{self, trimmed, Modifiers, Text};
use crate::context::Context;
use crate::convert::{unit_of, PhysicalQuantity, UnitIndex};
use crate::encoding::str_chars;
use crate::extensions::Extensions;
use crate::located::Located;
use crate::metadata::{lowercase, str_eq, string_from_chars, to_lowercase, Metadata, MetadataError};
use crate::model::{Component, ComponentKind, Cookware, Ingredient, Item, RecipeContent, Section, Step, Timer};
use crate::quantity::{value_of_ast, Quantity, QuantityValue, QuantityValueView};
use crate::span::Span;

verus! {

/// How the components of steps are read, as the `[mode]` metadata key sets
/// it.
#[derive(Debug, Clone, Copy, PartialEq, Eq, Structural)]
pub enum DefineMode {
    /// Components define ingredients and steps hold them.
    All,
    /// Steps only define components; they are not kept as steps.
    Components,
    /// Every ingredient in a step refers to one defined before.
    Steps,
    /// Steps are text only.
    Text,
}

/// How an ingredient with a name used before is read, as the
/// `[duplicate]` metadata key sets it.
#[derive(Debug, Clone, Copy, PartialEq, Eq, Structural)]
pub enum DuplicateMode {
    /// It is a new ingredient.
    New,
    /// It refers to the earlier one.
    Reference,
}

/// Whether the flag `bit` is set.
pub open spec fn has_flag(m: Modifiers, bit: u32) -> bool {
    m.bits_spec() & bit == bit
}

/// The trimmed text with the text's span.
fn located_trimmed(t: &Text) -> (l: Located<String>)
    ensures
        l.inner_spec()@ == trimmed(t.chars_spec()),
        l.span_spec().start_spec() == t.span_spec().0,
        l.span_spec().end_spec() == crate::ast::clamp(t.span_spec().1),
{
    let l = t.located_string();
    proof {
        crate::ast::lemma_trimmed(t.chars_spec(), l.inner_spec()@);
    }
    l
}

/// Whether a character of `s` is alphabetic or numeric.
fn has_alphanumeric(s: &str) -> (r: bool)
    ensures
        r == exists|i: int| 0 <= i < s@.len() && crate::metadata::is_alphanumeric(#[trigger] s@[i]),
{
    let cs = str_chars(s);
    let mut i: usize = 0;
    while i < cs.len()
        invariant
            cs@ == s@,
            0 <= i <= cs@.len(),
            forall|k: int| 0 <= k < i ==> !crate::metadata::is_alphanumeric(#[trigger] cs@[k]),
        decreases cs@.len() - i,
    {
        if crate::metadata::char_is_alphanumeric(cs[i]) {
            return true;
        }
        i = i + 1;
    }
    false
}

/// The name between the brackets of a special key `[name]`.
pub open spec fn special_key(k: Seq<char>) -> Option<Seq<char>> {
    if k.len() >= 2 && k[0] == '[' && k[k.len() - 1] == ']' {
        Some(k.subrange(1, k.len() - 1))
    } else {
        None
    }
}

/// The define mode that a `[mode]` value names.
pub open spec fn define_mode_of(v: Seq<char>) -> Option<DefineMode> {
    if v == "all"@ || v == "default"@ {
        Some(DefineMode::All)
    } else if v == "components"@ || v == "ingredients"@ {
        Some(DefineMode::Components)
    } else if v == "steps"@ {
        Some(DefineMode::Steps)
    } else if v == "text"@ {
        Some(DefineMode::Text)
    } else {
        None
    }
}

/// The duplicate mode that a `[duplicate]` value names.
pub open spec fn duplicate_mode_of(v: Seq<char>) -> Option<DuplicateMode> {
    if v == "new"@ || v == "default"@ {
        Some(DuplicateMode::New)
    } else if v == "reference"@ || v == "ref"@ {
        Some(DuplicateMode::Reference)
    } else {
        None
    }
}

/// The auto scale setting that an `[auto scale]` value names.
pub open spec fn auto_scale_of(v: Seq<char>) -> Option<bool> {
    if v == "true"@ {
        Some(true)
    } else if v == "false"@ || v == "default"@ {
        Some(false)
    } else {
        None
    }
}

/// The value, turned linear when every ingredient scales.
pub open spec fn scaled_if(v: QuantityValueView, auto: bool) -> QuantityValueView {
    match v {
        QuantityValueView::Fixed(x) => if auto {
            QuantityValueView::Linear(x)
        } else {
            v
        },
        _ => v,
    }
}

/// The trimmed characters of an optional text.
pub open spec fn trimmed_opt(t: Option<Text>) -> Option<Seq<char>> {
    match t {
        Some(t) => Some(trimmed(t.chars_spec())),
        None => None,
    }
}

/// The characters of an optional string.
pub open spec fn string_opt(s: Option<String>) -> Option<Seq<char>> {
    match s {
        Some(s) => Some(s@),
        None => None,
    }
}

/// `x + 1`, or `x` when that does not fit.
pub open spec fn next_offset(x: usize) -> usize {
    if x < usize::MAX {
        (x + 1) as usize
    } else {
        x
    }
}

/// The end of the span of a single value, with its marker.
pub open spec fn single_end(value: Located<ast::Value>, auto_scale: Option<Span>) -> usize {
    match auto_scale {
        Some(m) => m.end_spec(),
        None => value.span_spec().end_spec(),
    }
}

/// The last ingredient among the first `n` that is not a reference and
/// whose name is `name`, letter case aside.
pub open spec fn last_same_name(ings: Seq<Ingredient>, name: Seq<char>, n: int) -> Option<int>
    decreases n,
{
    if n <= 0 {
        None
    } else if !has_flag(ings[n - 1].modifiers, 2) && lowercase(ings[n - 1].name@) == lowercase(name) {
        Some(n - 1)
    } else {
        last_same_name(ings, name, n - 1)
    }
}

/// What [last_same_name] finds is before `n`, not a reference, and has
/// the name, letter case aside.
pub proof fn lemma_last_same_name(ings: Seq<Ingredient>, name: Seq<char>, n: int)
    requires
        n <= ings.len(),
    ensures
        last_same_name(ings, name, n) matches Some(k) ==> 0 <= k < n && !has_flag(ings[k].modifiers, 2)
            && lowercase(ings[k].name@) == lowercase(name),
    decreases n,
{
    if n > 0 {
        lemma_last_same_name(ings, name, n - 1);
    }
}

/// References between ingredients are consistent: an ingredient refers
/// only to an earlier one that is not a reference and has the same name,
/// letter case aside, and each ingredient lists, in increasing order,
/// exactly the ingredients that refer to it.
pub open spec fn references_consistent(ings: Seq<Ingredient>) -> bool {
    &&& forall|i: int|
        #![trigger ings[i].references_to]
        0 <= i < ings.len() && ings[i].references_to is Some ==> {
            let j = ings[i].references_to->0 as int;
            &&& 0 <= j < i
            &&& !has_flag(ings[j].modifiers, 2)
            &&& lowercase(ings[j].name@) == lowercase(ings[i].name@)
            &&& ings[j].referenced_from@.contains(i as usize)
        }
    &&& forall|j: int, k: int|
        0 <= j < ings.len() && 0 <= k < ings[j].referenced_from@.len() ==> {
            let i = #[trigger] ings[j].referenced_from@[k] as int;
            &&& j < i < ings.len()
            &&& ings[i].references_to == Some(j as usize)
        }
    &&& forall|j: int, k1: int, k2: int|
        0 <= j < ings.len() && 0 <= k1 < k2 < ings[j].referenced_from@.len() ==> #[trigger] ings[j].referenced_from@[k1]
            < #[trigger] ings[j].referenced_from@[k2]
}

/// The place as an index.
pub open spec fn opt_index(o: Option<int>) -> Option<usize> {
    match o {
        Some(j) => Some(j as usize),
        None => None,
    }
}

/// Each reference points to the last ingredient before it with its name,
/// letter case aside, that is not a reference itself; and an ingredient
/// marked as a reference points to that one, or to none when there is
/// none.
pub open spec fn references_resolved(ings: Seq<Ingredient>) -> bool {
    forall|i: int|
        #![trigger ings[i]]
        0 <= i < ings.len() ==> {
            &&& ings[i].references_to matches Some(j) ==> last_same_name(ings, ings[i].name@, i) == Some(j as int)
            &&& has_flag(ings[i].modifiers, 2) ==> ings[i].references_to == opt_index(
                last_same_name(ings, ings[i].name@, i),
            )
        }
}

/// Whether the item is an ingredient written as a reference (with `&`).
pub open spec fn marks_reference(item: ast::Item) -> bool {
    match item {
        ast::Item::Component(c) => match c.inner_spec() {
            ast::Component::Ingredient(i) => has_flag(i.modifiers.inner_spec(), 2),
            _ => false,
        },
        _ => false,
    }
}

/// Whether an ingredient among the items is written as a reference.
pub open spec fn items_mark_reference(items: Seq<ast::Item>) -> bool {
    exists|j: int| 0 <= j < items.len() && marks_reference(#[trigger] items[j])
}

/// Whether a step among the lines has an ingredient written as a
/// reference.
pub open spec fn lines_mark_reference(lines: Seq<ast::Line>) -> bool {
    exists|l: int|
        0 <= l < lines.len() && (#[trigger] lines[l] matches ast::Line::Step { items, .. } && items_mark_reference(
            items@,
        ))
}

/// No ingredient is a reference, nor refers to another.
pub open spec fn no_references(ings: Seq<Ingredient>) -> bool {
    forall|i: int|
        #![trigger ings[i]]
        0 <= i < ings.len() ==> !has_flag(ings[i].modifiers, 2) && ings[i].references_to is None
}

/// The ingredients among the items, in order.
pub open spec fn ast_ingredients(items: Seq<ast::Item>) -> Seq<ast::Ingredient>
    decreases items.len(),
{
    if items.len() == 0 {
        Seq::empty()
    } else {
        let rest = ast_ingredients(items.drop_last());
        match items.last() {
            ast::Item::Component(c) => match c.inner_spec() {
                ast::Component::Ingredient(i) => rest.push(i),
                _ => rest,
            },
            _ => rest,
        }
    }
}

/// The cookware among the items, in order.
pub open spec fn ast_cookware(items: Seq<ast::Item>) -> Seq<ast::Cookware>
    decreases items.len(),
{
    if items.len() == 0 {
        Seq::empty()
    } else {
        let rest = ast_cookware(items.drop_last());
        match items.last() {
            ast::Item::Component(c) => match c.inner_spec() {
                ast::Component::Cookware(x) => rest.push(x),
                _ => rest,
            },
            _ => rest,
        }
    }
}

/// The timers among the items, in order.
pub open spec fn ast_timers(items: Seq<ast::Item>) -> Seq<ast::Timer>
    decreases items.len(),
{
    if items.len() == 0 {
        Seq::empty()
    } else {
        let rest = ast_timers(items.drop_last());
        match items.last() {
            ast::Item::Component(c) => match c.inner_spec() {
                ast::Component::Timer(x) => rest.push(x),
                _ => rest,
            },
            _ => rest,
        }
    }
}

/// The duplicate mode after the lines: a `[duplicate]` line with the modes
/// extension sets it to the mode that its value names; it starts new.
pub open spec fn duplicate_after(lines: Seq<ast::Line>, modes: bool) -> DuplicateMode
    decreases lines.len(),
{
    if lines.len() == 0 {
        DuplicateMode::New
    } else {
        let prev = duplicate_after(lines.drop_last(), modes);
        match lines.last() {
            ast::Line::Metadata { key, value } => {
                let k = trimmed(key.chars_spec());
                if modes && special_key(k) is Some && special_key(k)->0 == "duplicate"@ {
                    match duplicate_mode_of(trimmed(value.chars_spec())) {
                        Some(m) => m,
                        None => prev,
                    }
                } else {
                    prev
                }
            },
            _ => prev,
        }
    }
}

/// Whether every ingredient scales after the lines: an `[auto scale]` (or
/// `[auto_scale]`) line with the modes extension sets it; it starts off.
pub open spec fn auto_scale_after(lines: Seq<ast::Line>, modes: bool) -> bool
    decreases lines.len(),
{
    if lines.len() == 0 {
        false
    } else {
        let prev = auto_scale_after(lines.drop_last(), modes);
        match lines.last() {
            ast::Line::Metadata { key, value } => {
                let k = trimmed(key.chars_spec());
                if modes && special_key(k) is Some && (special_key(k)->0 == "auto scale"@ || special_key(k)->0
                    == "auto_scale"@) {
                    match auto_scale_of(trimmed(value.chars_spec())) {
                        Some(b) => b,
                        None => prev,
                    }
                } else {
                    prev
                }
            },
            _ => prev,
        }
    }
}

/// An ingredient as written, with the modes it is read in: how steps
/// define components, what a repeated name means, and whether every
/// ingredient scales.
pub type IngredientInModes<'a> = (ast::Ingredient<'a>, DefineMode, DuplicateMode, bool);

/// The ingredients, each with the modes `d`, `u` and `a`.
pub open spec fn in_modes(is: Seq<ast::Ingredient>, d: DefineMode, u: DuplicateMode, a: bool) -> Seq<
    IngredientInModes,
> {
    is.map_values(|i: ast::Ingredient| (i, d, u, a))
}

/// Whether a step line is read as text: written so, or every step is.
pub open spec fn text_step_line(lines: Seq<ast::Line>, modes: bool, is_text: bool) -> bool {
    is_text || define_after(lines, modes) == DefineMode::Text
}

/// The ingredients of the step lines among `lines`, in order, each with
/// the modes it is read in, leaving out text steps.
pub open spec fn lines_ingredients(lines: Seq<ast::Line>, modes: bool) -> Seq<IngredientInModes>
    decreases lines.len(),
{
    if lines.len() == 0 {
        Seq::empty()
    } else {
        lines_ingredients(lines.drop_last(), modes) + match lines.last() {
            ast::Line::Step { is_text, items } => if text_step_line(lines, modes, is_text) {
                Seq::<IngredientInModes>::empty()
            } else {
                in_modes(
                    ast_ingredients(items@),
                    define_after(lines, modes),
                    duplicate_after(lines, modes),
                    auto_scale_after(lines, modes),
                )
            },
            _ => Seq::<IngredientInModes>::empty(),
        }
    }
}

/// The cookware of the step lines among `lines`, in order, leaving out
/// text steps.
pub open spec fn lines_cookware(lines: Seq<ast::Line>, modes: bool) -> Seq<ast::Cookware>
    decreases lines.len(),
{
    if lines.len() == 0 {
        Seq::empty()
    } else {
        lines_cookware(lines.drop_last(), modes) + match lines.last() {
            ast::Line::Step { is_text, items } => if text_step_line(lines, modes, is_text) {
                Seq::<ast::Cookware>::empty()
            } else {
                ast_cookware(items@)
            },
            _ => Seq::<ast::Cookware>::empty(),
        }
    }
}

/// The timers of the step lines among `lines`, in order, leaving out text
/// steps.
pub open spec fn lines_timers(lines: Seq<ast::Line>, modes: bool) -> Seq<ast::Timer>
    decreases lines.len(),
{
    if lines.len() == 0 {
        Seq::empty()
    } else {
        lines_timers(lines.drop_last(), modes) + match lines.last() {
            ast::Line::Step { is_text, items } => if text_step_line(lines, modes, is_text) {
                Seq::<ast::Timer>::empty()
            } else {
                ast_timers(items@)
            },
            _ => Seq::<ast::Timer>::empty(),
        }
    }
}

/// Whether one of the errors says that no ingredient named `name` was
/// found to refer to.
pub open spec fn reports_not_found(errors: Seq<AnalysisError>, name: Seq<char>) -> bool {
    exists|k: int|
        0 <= k < errors.len() && (#[trigger] errors[k] matches AnalysisError::ReferenceNotFound { name: nm, .. }
            && nm@ == name)
}

/// Whether the ingredient written as `ing` is read as a reference, as the
/// `i`-th of `ings`, with define mode `d` and duplicate mode `u`: unless
/// forced new (`+`), when written with `&`, when steps only refer to
/// ingredients, or when its name was used before and duplicates are
/// references.
pub open spec fn read_as_reference(ings: Seq<Ingredient>, i: int, ing: ast::Ingredient, d: DefineMode, u: DuplicateMode) -> bool {
    let w = ing.modifiers.inner_spec();
    let same = last_same_name(ings, trimmed(ing.name.chars_spec()), i);
    !has_flag(w, 16) && (has_flag(w, 2) || d == DefineMode::Steps || (same is Some && u
        == DuplicateMode::Reference))
}

/// What the `i`-th ingredient of `ings` has from the ingredient `a.0` as
/// written, read in the modes of `a`: its name, alias and note, trimmed;
/// its quantity (linear when every ingredient scales); whether it was
/// defined in a step; and, read as a reference, that it refers to the last
/// earlier ingredient with its name, letter case aside, that is not a
/// reference itself (to none, with an error that reports it, when there
/// is none), and is marked a reference when neither it nor that one is
/// hidden or optional; read otherwise, that it is no reference.
pub open spec fn read_as_written(
    ings: Seq<Ingredient>,
    i: int,
    a: IngredientInModes,
    errors: Seq<AnalysisError>,
) -> bool {
    let (ing, d, u, auto) = a;
    let w = ing.modifiers.inner_spec();
    let name = trimmed(ing.name.chars_spec());
    let same = last_same_name(ings, name, i);
    let treat = read_as_reference(ings, i, ing, d, u);
    &&& ings[i].name@ == name
    &&& string_opt(ings[i].alias) == trimmed_opt(ing.alias)
    &&& string_opt(ings[i].note) == trimmed_opt(ing.note)
    &&& match ing.quantity {
        Some(q) => ings[i].quantity matches Some(x) && x.value_spec()@ == scaled_if(
            value_of_ast(q.inner_spec().value),
            auto,
        ) && x.unit_spec() == trimmed_opt(q.inner_spec().unit),
        None => ings[i].quantity is None,
    }
    &&& ings[i].defined_in_step == (d != DefineMode::Components)
    &&& !treat ==> !has_flag(ings[i].modifiers, 2) && ings[i].references_to is None
    &&& treat ==> ings[i].references_to == opt_index(same)
    &&& (treat && same is None) ==> reports_not_found(errors, name)
    &&& (treat && !has_flag(w, 4) && !has_flag(w, 8) && (same matches Some(j) ==> !has_flag(ings[j].modifiers, 4)
        && !has_flag(ings[j].modifiers, 8))) ==> has_flag(ings[i].modifiers, 2)
}

/// The ingredients of `ings` from `start` on are those of `asts`, read as
/// written, with `errors`.
pub open spec fn read_from(ings: Seq<Ingredient>, start: int, asts: Seq<IngredientInModes>, errors: Seq<AnalysisError>) -> bool {
    &&& ings.len() == start + asts.len()
    &&& forall|k: int| 0 <= k < asts.len() ==> read_as_written(ings, start + k, #[trigger] asts[k], errors)
}

/// A cookware item has what it is written with: its name, trimmed, and its
/// value.
pub open spec fn cookware_read(c: Cookware, a: ast::Cookware) -> bool {
    &&& c.name@ == trimmed(a.name.chars_spec())
    &&& match a.quantity {
        Some(q) => c.quantity matches Some(v) && v@ == value_of_ast(q.inner_spec()),
        None => c.quantity is None,
    }
}

/// The cookware of `cw` from `start` on is that of `asts`, read as
/// written.
pub open spec fn cookware_from(cw: Seq<Cookware>, start: int, asts: Seq<ast::Cookware>) -> bool {
    &&& cw.len() == start + asts.len()
    &&& forall|k: int| 0 <= k < asts.len() ==> cookware_read(cw[start + k], #[trigger] asts[k])
}

/// A timer has what it is written with: its name, trimmed, and its value
/// and unit.
pub open spec fn timer_read(t: Timer, a: ast::Timer) -> bool {
    &&& string_opt(t.name) == trimmed_opt(a.name)
    &&& t.quantity.value_spec()@ == value_of_ast(a.quantity.inner_spec().value)
    &&& t.quantity.unit_spec() == trimmed_opt(a.quantity.inner_spec().unit)
}

/// The timers of `ts` from `start` on are those of `asts`, read as
/// written.
pub open spec fn timers_from(ts: Seq<Timer>, start: int, asts: Seq<ast::Timer>) -> bool {
    &&& ts.len() == start + asts.len()
    &&& forall|k: int| 0 <= k < asts.len() ==> timer_read(ts[start + k], #[trigger] asts[k])
}

/// Cookware read as written, kept, and followed by more read as written,
/// is all read as written.
pub proof fn lemma_cookware_extend(
    old: Seq<Cookware>,
    new: Seq<Cookware>,
    start: int,
    a: Seq<ast::Cookware>,
    b: Seq<ast::Cookware>,
)
    requires
        0 <= start,
        cookware_from(old, start, a),
        old.is_prefix_of(new),
        cookware_from(new, old.len() as int, b),
    ensures
        cookware_from(new, start, a + b),
{
    assert forall|k: int| 0 <= k < (a + b).len() implies cookware_read(new[start + k], #[trigger] (a + b)[k]) by {
        if k < a.len() {
            assert((a + b)[k] == a[k]);
            assert(new[start + k] == new.subrange(0, old.len() as int)[start + k]);
        } else {
            assert((a + b)[k] == b[k - a.len()]);
            assert(cookware_read(new[old.len() + (k - a.len())], b[k - a.len()]));
        }
    }
}

/// Timers read as written, kept, and followed by more read as written, are
/// all read as written.
pub proof fn lemma_timers_extend(old: Seq<Timer>, new: Seq<Timer>, start: int, a: Seq<ast::Timer>, b: Seq<ast::Timer>)
    requires
        0 <= start,
        timers_from(old, start, a),
        old.is_prefix_of(new),
        timers_from(new, old.len() as int, b),
    ensures
        timers_from(new, start, a + b),
{
    assert forall|k: int| 0 <= k < (a + b).len() implies timer_read(new[start + k], #[trigger] (a + b)[k]) by {
        if k < a.len() {
            assert((a + b)[k] == a[k]);
            assert(new[start + k] == new.subrange(0, old.len() as int)[start + k]);
        } else {
            assert((a + b)[k] == b[k - a.len()]);
            assert(timer_read(new[old.len() + (k - a.len())], b[k - a.len()]));
        }
    }
}

/// A prefix of a prefix is a prefix.
pub proof fn lemma_prefix_trans<A>(a: Seq<A>, b: Seq<A>, c: Seq<A>)
    requires
        a.is_prefix_of(b),
        b.is_prefix_of(c),
    ensures
        a.is_prefix_of(c),
{
    assert forall|k: int| 0 <= k < a.len() implies a[k] == c.subrange(0, a.len() as int)[k] by {
        assert(a[k] == b.subrange(0, a.len() as int)[k]);
        assert(b[k] == c.subrange(0, b.len() as int)[k]);
    }
    assert(a =~= c.subrange(0, a.len() as int));
}

/// An error reported stays reported as errors are added.
pub proof fn lemma_reported_kept(oe: Seq<AnalysisError>, ne: Seq<AnalysisError>, name: Seq<char>)
    requires
        oe.is_prefix_of(ne),
        reports_not_found(oe, name),
    ensures
        reports_not_found(ne, name),
{
    let k = choose|k: int|
        0 <= k < oe.len() && (#[trigger] oe[k] matches AnalysisError::ReferenceNotFound { name: nm, .. } && nm@
            == name);
    assert(oe[k] == ne.subrange(0, oe.len() as int)[k]);
    assert(ne[k] == oe[k]);
}

/// The ingredients of `old` keep in `new`, which may have more, all but
/// the lists of those that refer to them.
pub open spec fn ingredients_kept(old: Seq<Ingredient>, new: Seq<Ingredient>) -> bool {
    &&& old.len() <= new.len()
    &&& forall|k: int|
        #![trigger new[k]]
        0 <= k < old.len() ==> {
            &&& new[k].name == old[k].name
            &&& new[k].alias == old[k].alias
            &&& new[k].note == old[k].note
            &&& new[k].quantity == old[k].quantity
            &&& new[k].modifiers == old[k].modifiers
            &&& new[k].references_to == old[k].references_to
            &&& new[k].defined_in_step == old[k].defined_in_step
        }
}

/// An ingredient read as written stays so while the ingredients are kept.
pub proof fn lemma_read_kept(
    old: Seq<Ingredient>,
    new: Seq<Ingredient>,
    i: int,
    a: IngredientInModes,
    oe: Seq<AnalysisError>,
    ne: Seq<AnalysisError>,
)
    requires
        ingredients_kept(old, new),
        oe.is_prefix_of(ne),
        0 <= i < old.len(),
        read_as_written(old, i, a, oe),
    ensures
        read_as_written(new, i, a, ne),
{
    let name = trimmed(a.0.name.chars_spec());
    assert(new[i].name == old[i].name);
    lemma_last_same_name_prefix(old, new, name, i);
    if last_same_name(old, name, i) is Some {
        lemma_last_same_name(old, name, i);
        let j = last_same_name(old, name, i)->0;
        assert(new[j].modifiers == old[j].modifiers);
    }
    if read_as_reference(old, i, a.0, a.1, a.2) && last_same_name(old, name, i) is None {
        lemma_reported_kept(oe, ne, name);
    }
}

/// Ingredients read as written from `start`, kept, and followed by more
/// read as written, are all read as written.
pub proof fn lemma_read_extend(
    old: Seq<Ingredient>,
    new: Seq<Ingredient>,
    start: int,
    a: Seq<IngredientInModes>,
    b: Seq<IngredientInModes>,
    oe: Seq<AnalysisError>,
    ne: Seq<AnalysisError>,
)
    requires
        0 <= start,
        read_from(old, start, a, oe),
        ingredients_kept(old, new),
        oe.is_prefix_of(ne),
        read_from(new, old.len() as int, b, ne),
    ensures
        read_from(new, start, a + b, ne),
{
    assert forall|k: int| 0 <= k < (a + b).len() implies read_as_written(new, start + k, #[trigger] (a + b)[k], ne) by {
        if k < a.len() {
            assert((a + b)[k] == a[k]);
            lemma_read_kept(old, new, start + k, a[k], oe, ne);
        } else {
            assert((a + b)[k] == b[k - a.len()]);
            assert(read_as_written(new, old.len() + (k - a.len()), b[k - a.len()], ne));
        }
    }
}

/// Keeping the ingredients is transitive.
pub proof fn lemma_kept_trans(a: Seq<Ingredient>, b: Seq<Ingredient>, c: Seq<Ingredient>)
    requires
        ingredients_kept(a, b),
        ingredients_kept(b, c),
    ensures
        ingredients_kept(a, c),
{
    assert forall|k: int| #![trigger c[k]] 0 <= k < a.len() implies {
        &&& c[k].name == a[k].name
        &&& c[k].alias == a[k].alias
        &&& c[k].note == a[k].note
        &&& c[k].quantity == a[k].quantity
        &&& c[k].modifiers == a[k].modifiers
        &&& c[k].references_to == a[k].references_to
        &&& c[k].defined_in_step == a[k].defined_in_step
    } by {
        assert(b[k].name == a[k].name);
    }
}

/// The search for a name before `n` reads only the names and modifiers
/// before `n`.
pub proof fn lemma_last_same_name_prefix(a: Seq<Ingredient>, b: Seq<Ingredient>, name: Seq<char>, n: int)
    requires
        n <= a.len(),
        n <= b.len(),
        forall|k: int| 0 <= k < n ==> #[trigger] a[k].name == b[k].name && a[k].modifiers == b[k].modifiers,
    ensures
        last_same_name(a, name, n) == last_same_name(b, name, n),
    decreases n,
{
    if n > 0 {
        assert(a[n - 1].name == b[n - 1].name && a[n - 1].modifiers == b[n - 1].modifiers);
        lemma_last_same_name_prefix(a, b, name, n - 1);
    }
}

/// Adding an ingredient that refers to `refs` (an earlier ingredient that
/// is not a reference and has its name, letter case aside), and recording
/// it in that one's list, keeps the references consistent.
pub proof fn lemma_add_ingredient(ings: Seq<Ingredient>, new: Seq<Ingredient>, refs: Option<usize>)
    requires
        references_consistent(ings),
        new.len() == ings.len() + 1,
        forall|i: int| 0 <= i < ings.len() && Some(i as usize) != refs ==> new[i] == ings[i],
        refs matches Some(j) ==> {
            &&& j < ings.len()
            &&& !has_flag(ings[j as int].modifiers, 2)
            &&& lowercase(ings[j as int].name@) == lowercase(new[ings.len() as int].name@)
            &&& new[j as int].name == ings[j as int].name
            &&& new[j as int].modifiers == ings[j as int].modifiers
            &&& new[j as int].references_to == ings[j as int].references_to
            &&& new[j as int].referenced_from@ == ings[j as int].referenced_from@.push(ings.len() as usize)
        },
        new[ings.len() as int].references_to == refs,
        new[ings.len() as int].referenced_from@.len() == 0,
        new.len() <= usize::MAX,
    ensures
        references_consistent(new),
{
    let n = ings.len() as int;
    assert forall|i: int|
        #![trigger new[i].references_to]
        0 <= i < new.len() && new[i].references_to is Some implies {
            let j = new[i].references_to->0 as int;
            &&& 0 <= j < i
            &&& !has_flag(new[j].modifiers, 2)
            &&& lowercase(new[j].name@) == lowercase(new[i].name@)
            &&& new[j].referenced_from@.contains(i as usize)
        } by {
        let j = new[i].references_to->0 as int;
        if i == n {
            assert(new[j].referenced_from@.last() == n as usize);
        } else {
            if Some(i as usize) != refs {
                assert(new[i] == ings[i]);
            } else {
                let jj = refs->0;
                assert(jj as int == i);
            }
            assert(new[i].references_to == ings[i].references_to);
            assert(new[i].name == ings[i].name);
            assert(ings[i].references_to is Some);
            if Some(j as usize) != refs {
                assert(new[j] == ings[j]);
            }
            let k = choose|k: int| 0 <= k < ings[j].referenced_from@.len() && ings[j].referenced_from@[k] == i as usize;
            if Some(j as usize) == refs {
                assert(new[j].referenced_from@[k] == i as usize);
            } else {
                assert(new[j] == ings[j]);
            }
        }
    }
    assert forall|j: int, k: int| 0 <= j < new.len() && 0 <= k < new[j].referenced_from@.len() implies {
        let i = #[trigger] new[j].referenced_from@[k] as int;
        &&& j < i < new.len()
        &&& new[i].references_to == Some(j as usize)
    } by {
        let i = new[j].referenced_from@[k] as int;
        if j == n {
        } else if Some(j as usize) == refs {
            if k < ings[j].referenced_from@.len() {
                assert(ings[j].referenced_from@[k] == i);
                assert(ings[i].references_to == Some(j as usize));
                if Some(i as usize) != refs {
                    assert(new[i] == ings[i]);
                }
            }
        } else {
            assert(new[j] == ings[j]);
            assert(ings[j].referenced_from@[k] == i);
            if Some(i as usize) != refs {
                assert(new[i] == ings[i]);
            } else {
                let jj = refs->0;
                assert(jj as int == i);
            }
        }
    }
    assert forall|j: int, k1: int, k2: int|
        0 <= j < new.len() && 0 <= k1 < k2 < new[j].referenced_from@.len() implies #[trigger] new[j].referenced_from@[k1]
        < #[trigger] new[j].referenced_from@[k2] by {
        if j == n {
        } else if Some(j as usize) == refs {
            if k2 < ings[j].referenced_from@.len() {
                assert(ings[j].referenced_from@[k1] < ings[j].referenced_from@[k2]);
            } else {
                assert(ings[j].referenced_from@[k1] < n);
            }
        } else {
            assert(new[j] == ings[j]);
            assert(ings[j].referenced_from@[k1] < ings[j].referenced_from@[k2]);
        }
    }
}

/// How many of the ingredients at `idxs` have a quantity whose unit
/// cannot be added to `unit`.
pub open spec fn incompatible_count(
    ings: Seq<Ingredient>,
    idxs: Seq<usize>,
    unit: Option<Seq<char>>,
    units: Seq<crate::convert::KnownUnit>,
) -> nat
    decreases idxs.len(),
{
    if idxs.len() == 0 {
        0
    } else {
        incompatible_count(ings, idxs.drop_last(), unit, units) + match ings[idxs.last() as int].quantity {
            Some(q) => if crate::quantity::units_compatible(q.unit_spec(), unit, units) {
                0nat
            } else {
                1nat
            },
            None => 0nat,
        }
    }
}

/// `new` holds the errors and warnings of `old`, and maybe more after them.
pub open spec fn ctx_extends(new: Context<AnalysisError, AnalysisWarning>, old: Context<AnalysisError, AnalysisWarning>) -> bool {
    old.errors@.is_prefix_of(new.errors@) && old.warnings@.is_prefix_of(new.warnings@)
}

/// The item points into lists of these lengths.
pub open spec fn item_points_in(it: Item, ni: nat, nc: nat, nt: nat, nq: nat) -> bool {
    match it {
        Item::Component(c) => match c.kind {
            ComponentKind::Ingredient => c.index < ni,
            ComponentKind::Cookware => c.index < nc,
            ComponentKind::Timer => c.index < nt,
        },
        Item::InlineQuantity(i) => i < nq,
        Item::Text(_) => true,
    }
}

/// Every item of the steps points into lists of these lengths.
pub open spec fn steps_point_in(steps: Seq<Step>, ni: nat, nc: nat, nt: nat, nq: nat) -> bool {
    forall|s: int, k: int|
        0 <= s < steps.len() && 0 <= k < steps[s].items@.len() ==> item_points_in(
            #[trigger] steps[s].items@[k],
            ni,
            nc,
            nt,
            nq,
        )
}

/// Every component and inline quantity of the content's steps points
/// into its lists.
pub open spec fn content_points_in(c: RecipeContent) -> bool {
    forall|i: int|
        0 <= i < c.sections@.len() ==> steps_point_in(
            (#[trigger] c.sections@[i]).steps@,
            c.ingredients@.len(),
            c.cookware@.len(),
            c.timers@.len(),
            c.inline_quantities@.len(),
        )
}

/// Pointing into lists stays true when the lists grow.
pub proof fn lemma_steps_point_grow(
    steps: Seq<Step>,
    ni: nat,
    nc: nat,
    nt: nat,
    nq: nat,
    mi: nat,
    mc: nat,
    mt: nat,
    mq: nat,
)
    requires
        steps_point_in(steps, ni, nc, nt, nq),
        ni <= mi,
        nc <= mc,
        nt <= mt,
        nq <= mq,
    ensures
        steps_point_in(steps, mi, mc, mt, mq),
{
    assert forall|s: int, k: int| 0 <= s < steps.len() && 0 <= k < steps[s].items@.len() implies item_points_in(
        #[trigger] steps[s].items@[k],
        mi,
        mc,
        mt,
        mq,
    ) by {
        assert(item_points_in(steps[s].items@[k], ni, nc, nt, nq));
    }
}

/// The shape of a step item: its text, or the kind of its component.
pub enum ItemShape {
    Text(Seq<char>),
    Component(ComponentKind),
    InlineQuantity,
}

/// The kind of a component of the syntax tree.
pub open spec fn kind_of(c: ast::Component) -> ComponentKind {
    match c {
        ast::Component::Ingredient(_) => ComponentKind::Ingredient,
        ast::Component::Cookware(_) => ComponentKind::Cookware,
        ast::Component::Timer(_) => ComponentKind::Timer,
    }
}

/// The shape of an item of the model.
pub open spec fn model_shape(it: Item) -> ItemShape {
    match it {
        Item::Text(s) => ItemShape::Text(s@),
        Item::Component(c) => ItemShape::Component(c.kind),
        Item::InlineQuantity(_) => ItemShape::InlineQuantity,
    }
}

/// The shapes of the items of the syntax tree that a step keeps: text
/// unless steps only define components, components unless the step is
/// text.
pub open spec fn kept_shapes(items: Seq<ast::Item>, components_mode: bool, text_step: bool) -> Seq<ItemShape>
    decreases items.len(),
{
    if items.len() == 0 {
        Seq::empty()
    } else {
        let rest = kept_shapes(items.drop_last(), components_mode, text_step);
        match items.last() {
            ast::Item::Text(t) => if components_mode {
                rest
            } else {
                rest.push(ItemShape::Text(t.chars_spec()))
            },
            ast::Item::Component(c) => if text_step {
                rest
            } else {
                rest.push(ItemShape::Component(kind_of(c.inner_spec())))
            },
        }
    }
}

/// How many of the items are components of `kind`.
pub open spec fn kind_count(items: Seq<Item>, kind: ComponentKind) -> nat
    decreases items.len(),
{
    if items.len() == 0 {
        0
    } else {
        kind_count(items.drop_last(), kind) + match items.last() {
            Item::Component(c) => if c.kind == kind {
                1nat
            } else {
                0nat
            },
            _ => 0nat,
        }
    }
}

/// The components of a kind before an item of that kind are fewer than
/// all of them.
pub proof fn lemma_kind_count_prefix(items: Seq<Item>, j: int, kind: ComponentKind)
    requires
        0 <= j < items.len(),
        items[j] matches Item::Component(c) && c.kind == kind,
    ensures
        kind_count(items.take(j), kind) < kind_count(items, kind),
    decreases items.len(),
{
    if j == items.len() - 1 {
        assert(items.drop_last() =~= items.take(j));
    } else {
        lemma_kind_count_prefix(items.drop_last(), j, kind);
        assert(items.drop_last().take(j) =~= items.take(j));
    }
}

/// A step keeps no inline quantity of the syntax tree: it has none.
pub proof fn lemma_no_inline(items: Seq<ast::Item>, components_mode: bool, text_step: bool)
    ensures
        !kept_shapes(items, components_mode, text_step).contains(ItemShape::InlineQuantity),
    decreases items.len(),
{
    if items.len() > 0 {
        lemma_no_inline(items.drop_last(), components_mode, text_step);
        let rest = kept_shapes(items.drop_last(), components_mode, text_step);
        assert forall|k: int| 0 <= k < kept_shapes(items, components_mode, text_step).len() implies kept_shapes(
            items,
            components_mode,
            text_step,
        )[k] != ItemShape::InlineQuantity by {
            if k < rest.len() {
                assert(kept_shapes(items, components_mode, text_step)[k] == rest[k]);
            }
        }
    }
}

/// The entries that the metadata lines among `lines` leave in the map of
/// metadata: each `key: value`, trimmed, in the order of the keys' first
/// lines, with the value of the last line of each key; with the modes
/// extension (`modes`), special keys `[name]` stay out.
pub open spec fn metadata_entries(lines: Seq<ast::Line>, modes: bool) -> Seq<(Seq<char>, Seq<char>)>
    decreases lines.len(),
{
    if lines.len() == 0 {
        Seq::empty()
    } else {
        let rest = metadata_entries(lines.drop_last(), modes);
        match lines.last() {
            ast::Line::Metadata { key, value } => {
                let k = trimmed(key.chars_spec());
                if modes && special_key(k) is Some {
                    rest
                } else {
                    crate::metadata::entries_insert(rest, k, trimmed(value.chars_spec()))
                }
            },
            _ => rest,
        }
    }
}

/// The define mode after the lines: the last valid `[mode]` (or
/// `[define]`) value among them, with the modes extension (`modes`).
pub open spec fn define_after(lines: Seq<ast::Line>, modes: bool) -> DefineMode
    decreases lines.len(),
{
    if lines.len() == 0 {
        DefineMode::All
    } else {
        let prev = define_after(lines.drop_last(), modes);
        match lines.last() {
            ast::Line::Metadata { key, value } => {
                let k = trimmed(key.chars_spec());
                if modes && special_key(k) is Some && (special_key(k)->0 == "define"@ || special_key(k)->0
                    == "mode"@) {
                    match define_mode_of(trimmed(value.chars_spec())) {
                        Some(m) => m,
                        None => prev,
                    }
                } else {
                    prev
                }
            },
            _ => prev,
        }
    }
}

/// How many of the shapes are components of `kind`.
pub open spec fn shape_count(shapes: Seq<ItemShape>, kind: ComponentKind) -> nat
    decreases shapes.len(),
{
    if shapes.len() == 0 {
        0
    } else {
        shape_count(shapes.drop_last(), kind) + if shapes.last() == ItemShape::Component(kind) {
            1nat
        } else {
            0nat
        }
    }
}

/// How many of the items of the syntax tree are components of `kind`.
pub open spec fn ast_kind_count(items: Seq<ast::Item>, kind: ComponentKind) -> nat
    decreases items.len(),
{
    if items.len() == 0 {
        0
    } else {
        ast_kind_count(items.drop_last(), kind) + match items.last() {
            ast::Item::Component(c) => if kind_of(c.inner_spec()) == kind {
                1nat
            } else {
                0nat
            },
            _ => 0nat,
        }
    }
}

/// How many components of `kind` the step lines among `lines` hold,
/// leaving out text steps (those written so, and every step while steps
/// are text).
pub open spec fn lines_kind_count(lines: Seq<ast::Line>, modes: bool, kind: ComponentKind) -> nat
    decreases lines.len(),
{
    if lines.len() == 0 {
        0
    } else {
        lines_kind_count(lines.drop_last(), modes, kind) + match lines.last() {
            ast::Line::Step { is_text, items } => if is_text || define_after(lines, modes) == DefineMode::Text {
                0nat
            } else {
                ast_kind_count(items@, kind)
            },
            _ => 0nat,
        }
    }
}

/// Counting components among items is counting them among their shapes.
pub proof fn lemma_kind_count_shapes(items: Seq<Item>, kind: ComponentKind)
    ensures
        kind_count(items, kind) == shape_count(items.map_values(|it: Item| model_shape(it)), kind),
    decreases items.len(),
{
    if items.len() > 0 {
        lemma_kind_count_shapes(items.drop_last(), kind);
        assert(items.drop_last().map_values(|it: Item| model_shape(it)) =~= items.map_values(
            |it: Item| model_shape(it),
        ).drop_last());
    }
}

/// A step keeps the components of its items unless it is text.
pub proof fn lemma_kept_count(items: Seq<ast::Item>, components_mode: bool, text_step: bool, kind: ComponentKind)
    ensures
        shape_count(kept_shapes(items, components_mode, text_step), kind) == if text_step {
            0
        } else {
            ast_kind_count(items, kind)
        },
    decreases items.len(),
{
    if items.len() > 0 {
        lemma_kept_count(items.drop_last(), components_mode, text_step, kind);
        let rest = kept_shapes(items.drop_last(), components_mode, text_step);
        match items.last() {
            ast::Item::Text(t) => {
                if !components_mode {
                    assert(rest.push(ItemShape::Text(t.chars_spec())).drop_last() =~= rest);
                }
            },
            ast::Item::Component(c) => {
                if !text_step {
                    assert(rest.push(ItemShape::Component(kind_of(c.inner_spec()))).drop_last() =~= rest);
                }
            },
        }
    }
}

/// What a step holds: whether it is text, and the shapes of its items.
pub open spec fn step_shape(s: Step) -> (bool, Seq<ItemShape>) {
    (s.is_text, s.items@.map_values(|it: Item| model_shape(it)))
}

/// The name of a section and what its steps hold.
pub open spec fn section_shape(s: Section) -> (Option<Seq<char>>, Seq<(bool, Seq<ItemShape>)>) {
    (string_opt(s.name), s.steps@.map_values(|st: Step| step_shape(st)))
}

/// What the step written with `items` holds, read in define mode `d`:
/// text when written so or every step is, and the items it keeps.
pub open spec fn ast_step_shape(is_text: bool, items: Seq<ast::Item>, d: DefineMode) -> (bool, Seq<ItemShape>) {
    let t = is_text || d == DefineMode::Text;
    (t, kept_shapes(items, d == DefineMode::Components, t))
}

/// Whether a section shape has neither a name nor a step.
pub open spec fn shape_empty(s: (Option<Seq<char>>, Seq<(bool, Seq<ItemShape>)>)) -> bool {
    s.0 is None && s.1.len() == 0
}

/// The sections that the lines close and the one left open, each as its
/// name and what its steps hold: a section line opens a new section with
/// its trimmed name (closing the open one unless it has neither a name nor
/// a step), and a step line adds a step to the open section unless steps
/// only define components.
pub open spec fn sections_walk(lines: Seq<ast::Line>, modes: bool) -> (
    Seq<(Option<Seq<char>>, Seq<(bool, Seq<ItemShape>)>)>,
    (Option<Seq<char>>, Seq<(bool, Seq<ItemShape>)>),
)
    decreases lines.len(),
{
    if lines.len() == 0 {
        (Seq::empty(), (None, Seq::empty()))
    } else {
        let (done, cur) = sections_walk(lines.drop_last(), modes);
        match lines.last() {
            ast::Line::Step { is_text, items } => if define_after(lines, modes) != DefineMode::Components {
                (done, (cur.0, cur.1.push(ast_step_shape(is_text, items@, define_after(lines, modes)))))
            } else {
                (done, cur)
            },
            ast::Line::Section { name } => {
                let opened = (trimmed_opt(name), Seq::<(bool, Seq<ItemShape>)>::empty());
                if shape_empty(cur) {
                    (done, opened)
                } else {
                    (done.push(cur), opened)
                }
            },
            _ => (done, cur),
        }
    }
}

/// The sections of the recipe that the lines make, each as its name and
/// what its steps hold.
pub open spec fn section_shapes(lines: Seq<ast::Line>, modes: bool) -> Seq<(Option<Seq<char>>, Seq<(bool, Seq<ItemShape>)>)> {
    let (done, cur) = sections_walk(lines, modes);
    if shape_empty(cur) {
        done
    } else {
        done.push(cur)
    }
}

/// Where an ingredient was written: the component, and the unit of its
/// quantity (or the quantity when it has no unit).
struct IngredientLocation {
    span: Span,
    unit_or_quantity: Option<Span>,
}

/// The state of the walk.
struct Walker<'u, F: Fn(&str) -> bool> {
    extensions: Extensions,
    units: &'u UnitIndex,
    checker: Option<&'u F>,
    content: RecipeContent,
    define_mode: DefineMode,
    duplicate_mode: DuplicateMode,
    auto_scale_ingredients: bool,
    context: Context<AnalysisError, AnalysisWarning>,
    locations: Vec<IngredientLocation>,
    servings_span: Option<Span>,
}

/// A copy of located modifiers.
fn copy_modifiers(m: &Located<Modifiers>) -> (r: Located<Modifiers>)
    ensures
        r == *m,
{
    let s = m.span();
    proof {
        Span::lemma_eq(s, m.span_spec());
    }
    let inner: Modifiers = **m;
    let r = Located::new(inner, s);
    proof {
        Located::lemma_eq(r, *m);
    }
    r
}

/// The name between the brackets of a special key `[name]`.
fn special_name(k: &str) -> (r: Option<String>)
    ensures
        string_opt(r) == special_key(k@),
{
    let cs = str_chars(k);
    let n = cs.len();
    if n >= 2 && cs[0] == '[' && cs[n - 1] == ']' {
        let mut out: Vec<char> = Vec::new();
        let mut i: usize = 1;
        while i < n - 1
            invariant
                cs@ == k@,
                n == cs@.len(),
                n >= 2,
                1 <= i <= n - 1,
                out@ == cs@.subrange(1, i as int),
            decreases n - 1 - i,
        {
            out.push(cs[i]);
            i = i + 1;
        }
        Some(string_from_chars(&out))
    } else {
        None
    }
}

/// The lists of two contents are the same.
pub open spec fn same_lists(a: RecipeContent, b: RecipeContent) -> bool {
    &&& a.sections == b.sections
    &&& a.ingredients == b.ingredients
    &&& a.cookware == b.cookware
    &&& a.timers == b.timers
    &&& a.inline_quantities == b.inline_quantities
}

/// The error for a special key's value that is not one of `possible`.
pub open spec fn is_invalid_special(e: AnalysisError, k: Seq<char>, v: Seq<char>, possible: Seq<Seq<char>>) -> bool {
    e matches AnalysisError::InvalidSpecialMetadataValue { key, value, possible_values } && key.inner_spec()@ == k
        && value.inner_spec()@ == v && crate::analysis::strs_view(possible_values@) == possible
}

impl<'u, F: Fn(&str) -> bool> Walker<'u, F> {
    /// Everything but the errors and warnings is the same in both.
    spec fn same_but_context(&self, other: &Self) -> bool {
        &&& self.checker == other.checker
        &&& self.extensions == other.extensions
        &&& self.units == other.units
        &&& self.content == other.content
        &&& self.define_mode == other.define_mode
        &&& self.duplicate_mode == other.duplicate_mode
        &&& self.auto_scale_ingredients == other.auto_scale_ingredients
        &&& self.locations == other.locations
        &&& self.servings_span == other.servings_span
    }

    /// How many errors reading the value adds: one when many values do
    /// not match the declared servings (one number, when declared).
    spec fn value_error_count(&self, value: ast::QuantityValue) -> int {
        match value {
            ast::QuantityValue::Many(vs) => if self.content.metadata.servings is None || vs@.len() != 1 {
                1
            } else {
                0
            },
            _ => 0,
        }
    }

    /// How many warnings reading the value adds: one for a scale marker
    /// when every ingredient scales anyway.
    spec fn value_warning_count(&self, value: ast::QuantityValue, is_ingredient: bool) -> int {
        match value {
            ast::QuantityValue::Single { auto_scale, .. } => if is_ingredient && self.auto_scale_ingredients
                && auto_scale is Some {
                1
            } else {
                0
            },
            _ => 0,
        }
    }

    /// What reading `value` adds to the errors and warnings of `self`, in
    /// `new`.
    spec fn value_effects(&self, new: &Self, value: ast::QuantityValue, is_ingredient: bool) -> bool {
        &&& new.same_but_context(self)
        &&& self.value_context(new.context, value, is_ingredient)
    }

    /// The errors and warnings of `new`: those of `self` and what reading
    /// `value` adds.
    spec fn value_context(
        &self,
        new: Context<AnalysisError, AnalysisWarning>,
        value: ast::QuantityValue,
        is_ingredient: bool,
    ) -> bool {
        let ne = self.context.errors@.len();
        let nw = self.context.warnings@.len();
        &&& new.errors@.len() == ne + self.value_error_count(value)
        &&& new.errors@.subrange(0, ne as int) == self.context.errors@
        &&& new.warnings@.len() == nw + self.value_warning_count(value, is_ingredient)
        &&& new.warnings@.subrange(0, nw as int) == self.context.warnings@
        &&& self.value_error_count(value) == 1 ==> match value {
            ast::QuantityValue::Many(vs) => new.errors@[ne as int] matches AnalysisError::ScalableValueManyConflict {
                servings,
                values,
                value_span,
                servings_meta_span,
            } && values == vs@.len() && servings == (if self.content.metadata.servings is Some {
                Some(1usize)
            } else {
                None
            }) && servings_meta_span == (if self.content.metadata.servings is Some {
                self.servings_span
            } else {
                None
            }) && (vs@.len() > 0 ==> value_span.start_spec() == vs@[0].span_spec().start_spec()
                && value_span.end_spec() == vs@.last().span_spec().end_spec()),
            _ => false,
        }
        &&& self.value_warning_count(value, is_ingredient) == 1 ==> match value {
            ast::QuantityValue::Single { value: v, auto_scale } => new.warnings@[nw as int] matches AnalysisWarning::RedundantAutoScaleMarker {
                quantity_span,
            } && quantity_span.start_spec() == single_end(v, auto_scale) && quantity_span.end_spec() == next_offset(
                single_end(v, auto_scale),
            ),
            _ => false,
        }
    }

    /// The model's value for `value`: linear when it is an ingredient's
    /// and every ingredient scales. Many values are checked against the
    /// declared servings, and a scale marker is redundant when every
    /// ingredient scales.
    fn value(&mut self, value: ast::QuantityValue, is_ingredient: bool) -> (r: QuantityValue)
        ensures
            r@ == scaled_if(value_of_ast(value), is_ingredient && old(self).auto_scale_ingredients),
            old(self).value_effects(final(self), value, is_ingredient),
    {
        let ghost old_self = *self;
        if let ast::QuantityValue::Many(v) = &value {
            let value_span = if v.len() > 0 {
                value.span()
            } else {
                Span::new(0, 0)
            };
            match &self.content.metadata.servings {
                Some(_) => {
                    if v.len() != 1 {
                        self.context.error(
                            AnalysisError::ScalableValueManyConflict {
                                servings: Some(1),
                                values: v.len(),
                                value_span,
                                servings_meta_span: self.servings_span,
                            },
                        );
                    }
                },
                None => {
                    self.context.error(
                        AnalysisError::ScalableValueManyConflict {
                            servings: None,
                            values: v.len(),
                            value_span,
                            servings_meta_span: None,
                        },
                    );
                },
            }
        }
        proof {
            assert(self.context.errors@.subrange(0, old_self.context.errors@.len() as int)
                =~= old_self.context.errors@);
            assert(self.context.warnings@ == old_self.context.warnings@);
        }
        let marker_end = match &value {
            ast::QuantityValue::Single { .. } => value.span().end(),
            _ => 0,
        };
        proof {
            if value is Single {
                assert(marker_end == single_end(value->value, value->auto_scale));
            }
        }
        let ghost mid = *self;
        let r = QuantityValue::from_ast(value);
        if is_ingredient && self.auto_scale_ingredients {
            match r {
                QuantityValue::Fixed(v) => {
                    proof {
                        assert(self.context.warnings@.subrange(0, old_self.context.warnings@.len() as int)
                            =~= old_self.context.warnings@);
                    }
                    return QuantityValue::Linear(v);
                },
                QuantityValue::Linear(v) => {
                    let end = if marker_end < usize::MAX {
                        marker_end + 1
                    } else {
                        marker_end
                    };
                    self.context.warn(
                        AnalysisWarning::RedundantAutoScaleMarker { quantity_span: Span::new(marker_end, end) },
                    );
                    proof {
                        assert(value is Single);
                        assert(mid.context.warnings@ == old_self.context.warnings@);
                        assert(self.context.warnings@.subrange(0, old_self.context.warnings@.len() as int)
                            =~= old_self.context.warnings@);
                    }
                    return QuantityValue::Linear(v);
                },
                _ => {
                    proof {
                        assert(self.context.warnings@.subrange(0, old_self.context.warnings@.len() as int)
                            =~= old_self.context.warnings@);
                    }
                    return r;
                },
            }
        }
        proof {
            assert(self.context.warnings@.subrange(0, old_self.context.warnings@.len() as int)
                =~= old_self.context.warnings@);
        }
        r
    }

    /// The model's quantity for `quantity`: its value as [Self::value]
    /// reads it and its trimmed unit.
    fn quantity(&mut self, quantity: Located<ast::Quantity>, is_ingredient: bool) -> (r: Quantity)
        ensures
            r.value_spec()@ == scaled_if(
                value_of_ast(quantity.inner_spec().value),
                is_ingredient && old(self).auto_scale_ingredients,
            ),
            r.unit_spec() == trimmed_opt(quantity.inner_spec().unit),
            old(self).value_effects(final(self), quantity.inner_spec().value, is_ingredient),
    {
        let q = quantity.take();
        let unit = match &q.unit {
            Some(t) => {
                let s = t.text_trimmed();
                proof {
                    crate::ast::lemma_trimmed(t.chars_spec(), s@);
                }
                Some(s)
            },
            None => None,
        };
        let value = self.value(q.value, is_ingredient);
        Quantity::new(value, unit)
    }

    /// Everything but the lists and the context is the same in both.
    spec fn same_but_lists(&self, other: &Self) -> bool {
        &&& self.checker == other.checker
        &&& self.extensions == other.extensions
        &&& self.units == other.units
        &&& self.content.metadata == other.content.metadata
        &&& self.define_mode == other.define_mode
        &&& self.duplicate_mode == other.duplicate_mode
        &&& self.auto_scale_ingredients == other.auto_scale_ingredients
        &&& self.servings_span == other.servings_span
    }

    /// A cookware item: its trimmed name and its value, added to the list.
    fn cookware(&mut self, cookware: ast::Cookware) -> (r: usize)
        ensures
            final(self).same_but_lists(old(self)),
            final(self).locations == old(self).locations,
            final(self).content.sections == old(self).content.sections,
            final(self).content.ingredients == old(self).content.ingredients,
            final(self).content.timers == old(self).content.timers,
            final(self).content.inline_quantities == old(self).content.inline_quantities,
            r == old(self).content.cookware@.len(),
            final(self).content.cookware@.len() == r + 1,
            final(self).content.cookware@.subrange(0, r as int) == old(self).content.cookware@,
            final(self).content.cookware@[r as int].name@ == trimmed(cookware.name.chars_spec()),
            ctx_extends(final(self).context, old(self).context),
            match cookware.quantity {
                Some(q) => (final(self).content.cookware@[r as int].quantity matches Some(v) && v@ == value_of_ast(
                    q.inner_spec(),
                )) && old(self).value_context(final(self).context, q.inner_spec(), false),
                None => final(self).content.cookware@[r as int].quantity is None && final(self).context
                    == old(self).context,
            },
    {
        let name = cookware.name.text_trimmed();
        proof {
            crate::ast::lemma_trimmed(cookware.name.chars_spec(), name@);
        }
        let quantity = match cookware.quantity {
            Some(q) => Some(self.value(q.take(), false)),
            None => None,
        };
        let ghost before = self.content.cookware@;
        self.content.cookware.push(Cookware { name, quantity });
        proof {
            assert(self.content.cookware@.subrange(0, before.len() as int) =~= before);
        }
        self.content.cookware.len() - 1
    }

    /// A timer: its trimmed name and its quantity, added to the list. With
    /// the advanced units extension, a unit must be a known unit of time.
    fn timer(&mut self, timer: ast::Timer, span: Span) -> (r: usize)
        ensures
            final(self).same_but_lists(old(self)),
            final(self).locations == old(self).locations,
            final(self).content.sections == old(self).content.sections,
            final(self).content.ingredients == old(self).content.ingredients,
            final(self).content.cookware == old(self).content.cookware,
            final(self).content.inline_quantities == old(self).content.inline_quantities,
            r == old(self).content.timers@.len(),
            final(self).content.timers@.len() == r + 1,
            final(self).content.timers@.subrange(0, r as int) == old(self).content.timers@,
            ctx_extends(final(self).context, old(self).context),
            ({
                let t = final(self).content.timers@[r as int];
                let q = timer.quantity.inner_spec();
                &&& string_opt(t.name) == trimmed_opt(timer.name)
                &&& t.quantity.value_spec()@ == value_of_ast(q.value)
                &&& t.quantity.unit_spec() == trimmed_opt(q.unit)
                &&& exists|c: Context<AnalysisError, AnalysisWarning>|
                    #![trigger old(self).value_context(c, q.value, false)]
                    old(self).value_context(c, q.value, false) && final(self).context.warnings@ == c.warnings@
                        && match (old(self).extensions.has_bit(32), trimmed_opt(q.unit)) {
                        (true, Some(u)) => match unit_of(old(self).units.units_spec(), u) {
                            Some(pq) => if pq != PhysicalQuantity::Time {
                                final(self).context.errors@.len() == c.errors@.len() + 1
                                    && final(self).context.errors@.subrange(0, c.errors@.len() as int) == c.errors@
                                    && (final(self).context.errors@.last() matches AnalysisError::BadTimerUnit {
                                    unit,
                                    physical_quantity,
                                    timer_span,
                                } && unit@ == u && physical_quantity == pq && (q.unit matches Some(ut)
                                    && timer_span.start_spec() == ut.span_spec().0 && timer_span.end_spec()
                                    == crate::ast::clamp(ut.span_spec().1)))
                            } else {
                                final(self).context.errors@ == c.errors@
                            },
                            None => final(self).context.errors@.len() == c.errors@.len() + 1
                                && final(self).context.errors@.subrange(0, c.errors@.len() as int) == c.errors@
                                && (final(self).context.errors@.last() matches AnalysisError::UnknownTimerUnit {
                                unit,
                                timer_span,
                            } && unit@ == u && timer_span == span),
                        },
                        _ => final(self).context.errors@ == c.errors@,
                    }
            }),
    {
        let ghost q = timer.quantity.inner_spec();
        let unit_span = match &timer.quantity.unit {
            Some(t) => Some(t.span()),
            None => None,
        };
        let name = match &timer.name {
            Some(t) => {
                let s = t.text_trimmed();
                proof {
                    crate::ast::lemma_trimmed(t.chars_spec(), s@);
                }
                Some(s)
            },
            None => None,
        };
        let quantity = self.quantity(timer.quantity, false);
        let ghost c = self.context;
        if self.extensions.contains(Extensions::advanced_units()) {
            if let Some(unit) = quantity.unit_text() {
                match self.units.get_unit(unit) {
                    Some(pq) => {
                        if pq != PhysicalQuantity::Time {
                            let ts = match unit_span {
                                Some(s) => s,
                                None => span,
                            };
                            self.context.error(
                                AnalysisError::BadTimerUnit {
                                    unit: unit.to_owned(),
                                    physical_quantity: pq,
                                    timer_span: ts,
                                },
                            );
                        }
                    },
                    None => {
                        self.context.error(AnalysisError::UnknownTimerUnit { unit: unit.to_owned(), timer_span: span });
                    },
                }
            }
        }
        proof {
            assert(self.context.errors@.subrange(0, c.errors@.len() as int) =~= c.errors@);
        }
        let ghost before = self.content.timers@;
        self.content.timers.push(Timer { name, quantity });
        proof {
            assert(self.content.timers@.subrange(0, before.len() as int) =~= before);
        }
        self.content.timers.len() - 1
    }

    /// The walk's own invariant: a location for each ingredient, with a
    /// quantity span exactly when the ingredient has a quantity, and
    /// consistent references.
    spec fn wf(&self) -> bool {
        &&& self.checker matches Some(f) ==> forall|x: &str| f.requires((x,))
        &&& self.locations@.len() == self.content.ingredients@.len()
        &&& forall|i: int|
            0 <= i < self.locations@.len() ==> ((#[trigger] self.locations@[i]).unit_or_quantity is Some
                <==> self.content.ingredients@[i].quantity is Some)
        &&& references_consistent(self.content.ingredients@)
        &&& references_resolved(self.content.ingredients@)
    }

    /// The last ingredient so far that is not a reference and whose name
    /// is `name`, letter case aside.
    fn same_name(&self, name: &str) -> (r: Option<usize>)
        ensures
            r matches Some(i) ==> last_same_name(
                self.content.ingredients@,
                name@,
                self.content.ingredients@.len() as int,
            ) == Some(i as int),
            r is None ==> last_same_name(
                self.content.ingredients@,
                name@,
                self.content.ingredients@.len() as int,
            ) is None,
    {
        let lname = to_lowercase(name);
        let mut i: usize = self.content.ingredients.len();
        while i > 0
            invariant
                i <= self.content.ingredients@.len(),
                lname@ == lowercase(name@),
                last_same_name(self.content.ingredients@, name@, self.content.ingredients@.len() as int)
                    == last_same_name(self.content.ingredients@, name@, i as int),
            decreases i,
        {
            let igr = &self.content.ingredients[i - 1];
            if !igr.modifiers.contains(Modifiers::reference()) {
                let l = to_lowercase(igr.name.as_str());
                if str_eq(l.as_str(), lname.as_str()) {
                    return Some(i - 1);
                }
            }
            i = i - 1;
        }
        None
    }

    /// Warns of each quantity of ingredient `j` and of the ingredients
    /// that refer to it whose unit cannot be added to that of `new_q`.
    fn check_reference_units(&mut self, j: usize, new_q: &Quantity, b: Span)
        requires
            old(self).wf(),
            j < old(self).content.ingredients@.len(),
        ensures
            final(self).same_but_context(old(self)),
            final(self).context.errors@ == old(self).context.errors@,
            ({
                let ings = old(self).content.ingredients@;
                let idxs = seq![j] + ings[j as int].referenced_from@;
                let nw = old(self).context.warnings@.len();
                let cnt = incompatible_count(ings, idxs, new_q.unit_spec(), old(self).units.units_spec());
                &&& final(self).context.warnings@.len() == nw + cnt
                &&& final(self).context.warnings@.subrange(0, nw as int) == old(self).context.warnings@
                &&& forall|k: int|
                    nw <= k < nw + cnt ==> ((#[trigger] final(self).context.warnings@[k]) matches AnalysisWarning::IncompatibleUnits {
                        b: bb,
                        ..
                    } && bb == b)
            }),
    {
        let ghost o = *self;
        let ghost ings = self.content.ingredients@;
        let ghost units = self.units.units_spec();
        let ghost unit = new_q.unit_spec();
        let ghost refs = ings[j as int].referenced_from@;
        let ghost nw = self.context.warnings@.len();
        let ghost w_before = self.context.warnings@;
        self.check_one_unit(j, new_q, b);
        proof {
            let t1 = (seq![j] + refs).take(1);
            assert(t1.drop_last() =~= Seq::<usize>::empty());
            assert(t1.last() == j);
            assert(incompatible_count(ings, t1.drop_last(), unit, units) == 0);
            assert(incompatible_count(ings, t1, unit, units) == incompatible_count(ings, t1.drop_last(), unit, units)
                + match ings[j as int].quantity {
                Some(q) => if crate::quantity::units_compatible(q.unit_spec(), unit, units) {
                    0nat
                } else {
                    1nat
                },
                None => 0nat,
            });
            assert forall|k: int|
                nw <= k < self.context.warnings@.len() implies ((#[trigger] self.context.warnings@[k]) matches AnalysisWarning::IncompatibleUnits {
                    b: bb,
                    ..
                } && bb == b) by {
                assert(k == nw);
            }
            assert(self.context.warnings@.subrange(0, nw as int) =~= o.context.warnings@) by {
                if self.context.warnings@.len() > nw {
                    assert(self.context.warnings@.subrange(0, nw as int) =~= self.context.warnings@.subrange(
                        0,
                        nw as int,
                    ));
                }
            }
        }
        let n_refs = self.content.ingredients[j].referenced_from.len();
        let mut i: usize = 0;
        while i < n_refs
            invariant
                self.same_but_context(&o),
                self.context.errors@ == o.context.errors@,
                ings == self.content.ingredients@,
                o.wf(),
                self.wf(),
                j < ings.len(),
                refs == ings[j as int].referenced_from@,
                n_refs == refs.len(),
                units == self.units.units_spec(),
                unit == new_q.unit_spec(),
                nw == o.context.warnings@.len(),
                0 <= i <= n_refs,
                self.context.warnings@.len() == nw + incompatible_count(ings, (seq![j] + refs).take(i + 1), unit, units),
                self.context.warnings@.subrange(0, nw as int) == o.context.warnings@,
                forall|k: int|
                    nw <= k < self.context.warnings@.len() ==> ((#[trigger] self.context.warnings@[k]) matches AnalysisWarning::IncompatibleUnits {
                        b: bb,
                        ..
                    } && bb == b),
            decreases n_refs - i,
        {
            let index = self.content.ingredients[j].referenced_from[i];
            proof {
                let idxs = seq![j] + refs;
                assert(idxs[i + 1] == index);
                assert(index < ings.len());
                assert(idxs.take(i + 2).drop_last() =~= idxs.take(i + 1));
                assert(idxs.take(i + 2).last() == index);
            }
            let ghost before = self.context.warnings@;
            self.check_one_unit(index, new_q, b);
            proof {
                let t = (seq![j] + refs).take(i + 2);
                assert(incompatible_count(ings, t, unit, units) == incompatible_count(ings, t.drop_last(), unit, units)
                    + match ings[index as int].quantity {
                    Some(q) => if crate::quantity::units_compatible(q.unit_spec(), unit, units) {
                        0nat
                    } else {
                        1nat
                    },
                    None => 0nat,
                });
                assert forall|k: int| 0 <= k < before.len() implies self.context.warnings@[k] == before[k] by {
                    if self.context.warnings@.len() > before.len() {
                        assert(self.context.warnings@.subrange(0, before.len() as int)[k] == before[k]);
                    }
                }
                assert forall|k: int|
                    nw <= k < self.context.warnings@.len() implies ((#[trigger] self.context.warnings@[k]) matches AnalysisWarning::IncompatibleUnits {
                        b: bb,
                        ..
                    } && bb == b) by {
                    if k < before.len() {
                        assert(self.context.warnings@[k] == before[k]);
                    }
                }
                assert(self.context.warnings@.subrange(0, nw as int) =~= before.subrange(0, nw as int));
                assert(t.drop_last() =~= (seq![j] + refs).take(i + 1));
                assert(before.len() == nw + incompatible_count(ings, (seq![j] + refs).take(i + 1), unit, units));
                assert(self.context.warnings@.len() == nw + incompatible_count(ings, t, unit, units));
            }
            i = i + 1;
        }
        proof {
            assert((seq![j] + refs).take(n_refs + 1) =~= seq![j] + refs);
        }
    }

    /// Warns when ingredient `index` has a quantity whose unit cannot be
    /// added to that of `new_q`.
    fn check_one_unit(&mut self, index: usize, new_q: &Quantity, b: Span)
        requires
            old(self).wf(),
            index < old(self).content.ingredients@.len(),
        ensures
            final(self).same_but_context(old(self)),
            final(self).context.errors@ == old(self).context.errors@,
            ({
                let q = old(self).content.ingredients@[index as int].quantity;
                let bad = q is Some && !crate::quantity::units_compatible(
                    q->0.unit_spec(),
                    new_q.unit_spec(),
                    old(self).units.units_spec(),
                );
                let nw = old(self).context.warnings@.len();
                &&& !bad ==> final(self).context.warnings@ == old(self).context.warnings@
                &&& bad ==> final(self).context.warnings@.len() == nw + 1 && final(self).context.warnings@.subrange(
                    0,
                    nw as int,
                ) == old(self).context.warnings@ && (final(self).context.warnings@[nw as int] matches AnalysisWarning::IncompatibleUnits {
                    a,
                    b: bb,
                    ..
                } && bb == b && Some(a) == old(self).locations@[index as int].unit_or_quantity)
            }),
    {
        let checked = match &self.content.ingredients[index].quantity {
            Some(q) => Some(q.is_compatible(new_q, self.units)),
            None => None,
        };
        let ghost before = self.context.warnings@;
        match checked {
            Some(Err(e)) => {
                let a = match self.locations[index].unit_or_quantity {
                    Some(s) => s,
                    None => b,
                };
                self.context.warn(AnalysisWarning::IncompatibleUnits { a, b, source: e });
                proof {
                    assert(self.context.warnings@.subrange(0, before.len() as int) =~= before);
                }
            },
            _ => {},
        }
    }

    /// What ingredient `ing` names, trimmed.
    spec fn ing_name(ing: ast::Ingredient) -> Seq<char> {
        trimmed(ing.name.chars_spec())
    }

    /// The ingredient that `ing` would refer to.
    spec fn ing_same(&self, ing: ast::Ingredient) -> Option<int> {
        last_same_name(self.content.ingredients@, Self::ing_name(ing), self.content.ingredients@.len() as int)
    }

    /// Whether `ing` is read as a reference: it is not forced new, and it
    /// is marked as a reference, or every ingredient in a step is one, or
    /// its name was used before and duplicates are references.
    spec fn ing_treat(&self, ing: ast::Ingredient) -> bool {
        let w = ing.modifiers.inner_spec();
        !has_flag(w, 16) && (has_flag(w, 2) || self.define_mode == DefineMode::Steps || (self.ing_same(ing) is Some
            && self.duplicate_mode == DuplicateMode::Reference))
    }

    /// The modifiers of `ing` before the check for conflicts: as written,
    /// and for a reference also marked as one, with the hidden and optional
    /// flags of the ingredient it refers to.
    spec fn ing_bits(&self, ing: ast::Ingredient) -> u32 {
        let w = ing.modifiers.inner_spec().bits_spec();
        if self.ing_treat(ing) {
            match self.ing_same(ing) {
                Some(j) => (w | 2u32) | (self.content.ingredients@[j].modifiers.bits_spec() & (4u32 | 8u32)),
                None => w | 2u32,
            }
        } else {
            w
        }
    }

    /// Whether the modifiers of `ing` conflict: a reference that is new,
    /// hidden or optional.
    spec fn ing_conflict(&self, ing: ast::Ingredient) -> bool {
        let b = self.ing_bits(ing);
        b & 2u32 == 2u32 && b & ((16u32 | 4u32) | 8u32) != 0
    }

    /// How many incompatible units the reference `ing` is warned of.
    spec fn ing_incompatible(&self, ing: ast::Ingredient) -> nat {
        match (self.ing_treat(ing), self.ing_same(ing), ing.quantity) {
            (true, Some(j), Some(q)) => if self.extensions.has_bit(32) {
                incompatible_count(
                    self.content.ingredients@,
                    seq![j as usize] + self.content.ingredients@[j].referenced_from@,
                    trimmed_opt(q.inner_spec().unit),
                    self.units.units_spec(),
                )
            } else {
                0
            },
            _ => 0,
        }
    }

    /// What adding the ingredient `ing`, written at `location`, does to
    /// `self`, giving `new` and the index `r`.
    spec fn ingredient_added(&self, new: &Self, ing: ast::Ingredient, location: Span, r: usize) -> bool {
        let ings = self.content.ingredients@;
        let n = ings.len();
        let name = Self::ing_name(ing);
        let same = self.ing_same(ing);
        let treat = self.ing_treat(ing);
        let written = ing.modifiers.inner_spec();
        let igr = new.content.ingredients@[n as int];
        let c2 = treat && same is Some && ings[same->0].quantity is Some && ing.quantity is Some
            && !ings[same->0].defined_in_step;
        let c3 = treat && same is None;
        let c4 = self.ing_conflict(ing);
        let w3 = (self.duplicate_mode == DuplicateMode::Reference || self.define_mode == DefineMode::Steps)
            && has_flag(written, 2);
        let cnt = self.ing_incompatible(ing);
        let w5 = treat && same is Some && has_flag(ings[same->0].modifiers, 1) && self.ing_bits(ing) & 1u32
            != 1u32;
        let w6 = treat && ing.quantity is Some && igr.quantity is Some && igr.quantity->0.value.contains_text_spec();
        &&& r == n
        &&& new.same_but_lists(self)
        &&& new.content.sections == self.content.sections
        &&& new.content.cookware == self.content.cookware
        &&& new.content.timers == self.content.timers
        &&& new.content.inline_quantities == self.content.inline_quantities
        &&& new.content.ingredients@.len() == n + 1
        &&& forall|i: int| 0 <= i < n && Some(i) != same ==> new.content.ingredients@[i] == ings[i]
        &&& forall|i: int| 0 <= i < n && Some(i) == same && !treat ==> new.content.ingredients@[i] == ings[i]
        &&& (treat && same is Some) ==> {
            let j = same->0;
            let old_j = ings[j];
            let new_j = new.content.ingredients@[j];
            &&& new_j.name == old_j.name
            &&& new_j.alias == old_j.alias
            &&& new_j.quantity == old_j.quantity
            &&& new_j.note == old_j.note
            &&& new_j.modifiers == old_j.modifiers
            &&& new_j.references_to == old_j.references_to
            &&& new_j.defined_in_step == old_j.defined_in_step
            &&& new_j.referenced_from@ == old_j.referenced_from@.push(n as usize)
        }
        &&& igr.name@ == name
        &&& string_opt(igr.alias) == trimmed_opt(ing.alias)
        &&& string_opt(igr.note) == trimmed_opt(ing.note)
        &&& match ing.quantity {
            Some(q) => igr.quantity matches Some(x) && x.value_spec()@ == scaled_if(
                value_of_ast(q.inner_spec().value),
                self.auto_scale_ingredients,
            ) && x.unit_spec() == trimmed_opt(q.inner_spec().unit),
            None => igr.quantity is None,
        }
        &&& igr.modifiers.bits_spec() == (if c4 {
            0u32
        } else {
            self.ing_bits(ing)
        })
        &&& igr.references_to == (if treat {
            match same {
                Some(j) => Some(j as usize),
                None => None,
            }
        } else {
            None
        })
        &&& igr.referenced_from@.len() == 0
        &&& igr.defined_in_step == (self.define_mode != DefineMode::Components)
        &&& new.locations@.len() == n + 1
        &&& new.locations@.subrange(0, n as int) == self.locations@
        &&& new.locations@[n as int].span == location
        &&& self.ingredient_context(new, ing, location)
    }

    /// The errors and warnings that adding the ingredient `ing`, written
    /// at `location`, leaves in `new`: those of reading its quantity, then
    /// those of resolving it.
    spec fn ingredient_context(&self, new: &Self, ing: ast::Ingredient, location: Span) -> bool {
        let ings = self.content.ingredients@;
        let n = ings.len();
        let name = Self::ing_name(ing);
        let same = self.ing_same(ing);
        let treat = self.ing_treat(ing);
        let written = ing.modifiers.inner_spec();
        let igr = new.content.ingredients@[n as int];
        let c2 = treat && same is Some && ings[same->0].quantity is Some && ing.quantity is Some
            && !ings[same->0].defined_in_step;
        let c3 = treat && same is None;
        let c4 = self.ing_conflict(ing);
        let w3 = (self.duplicate_mode == DuplicateMode::Reference || self.define_mode == DefineMode::Steps)
            && has_flag(written, 2);
        let cnt = self.ing_incompatible(ing);
        let w5 = treat && same is Some && has_flag(ings[same->0].modifiers, 1) && self.ing_bits(ing) & 1u32
            != 1u32;
        let w6 = treat && ing.quantity is Some && igr.quantity is Some && igr.quantity->0.value.contains_text_spec();
        exists|c: Context<AnalysisError, AnalysisWarning>, g1: bool|
            #![trigger c.errors@.len(), c.warnings@.len(), self.recipe_check(ing, g1)]
            {
                &&& self.recipe_check(ing, g1)
                &&& match ing.quantity {
                    Some(q) => self.value_context(c, q.inner_spec().value, true),
                    None => c == self.context,
                }
                &&& {
                    let e0 = c.errors@.len();
                    let e = new.context.errors@;
                    &&& e.len() == e0 + (if c2 {
                        1int
                    } else {
                        0
                    }) + (if c3 {
                        1int
                    } else {
                        0
                    }) + (if c4 {
                        1int
                    } else {
                        0
                    })
                    &&& e.subrange(0, e0 as int) == c.errors@
                    &&& c2 ==> (e[e0 as int] matches AnalysisError::ConflictingReferenceQuantities {
                        ingredient_name,
                        definition_span,
                        reference_span,
                    } && ingredient_name@ == name && definition_span == self.locations@[same->0].span
                        && reference_span == location)
                    &&& c3 ==> (e[e0 as int] matches AnalysisError::ReferenceNotFound { name: nm, reference_span }
                        && nm@ == name && reference_span == location)
                    &&& c4 ==> (e.last() matches AnalysisError::ConflictingModifiers { modifiers }
                        && modifiers == ing.modifiers)
                }
                &&& {
                    let w0 = c.warnings@.len();
                    let w = new.context.warnings@;
                    let a1 = if g1 {
                        1int
                    } else {
                        0
                    };
                    let a3 = a1 + if w3 {
                        1int
                    } else {
                        0
                    };
                    let a5 = if w5 {
                        1int
                    } else {
                        0
                    };
                    let a6 = if w6 {
                        1int
                    } else {
                        0
                    };
                    &&& w.len() == w0 + a3 + cnt + a5 + a6
                    &&& w.subrange(0, w0 as int) == c.warnings@
                    &&& g1 ==> (w[w0 as int] matches AnalysisWarning::RecipeNotFound { ref_span, name: nm }
                        && ref_span == location && nm@ == name)
                    &&& w3 ==> (w[w0 + a1] matches AnalysisWarning::RedundantReferenceModifier { modifiers }
                        && modifiers == ing.modifiers)
                    &&& forall|k: int|
                        w0 + a3 <= k < w0 + a3 + cnt ==> (#[trigger] w[k]) is IncompatibleUnits
                    &&& w5 ==> (w[w0 + a3 + cnt] matches AnalysisWarning::ReferenceToRecipeMissing {
                        modifiers,
                        ingredient_span,
                        referenced_span,
                    } && modifiers == ing.modifiers && ingredient_span == location && referenced_span
                        == self.locations@[same->0].span)
                    &&& w6 ==> (w[w0 + a3 + cnt + a5] matches AnalysisWarning::TextValueInReference {
                        quantity_span,
                    } && ing.quantity matches Some(q) && quantity_span == q.span_spec())
                }
            }
    }

    /// Whether the check of recipes could have found (`!g1`) or not found
    /// (`g1`) the recipe that `ing` names; with no check, or when `ing` is
    /// not a recipe, nothing is reported.
    spec fn recipe_check(&self, ing: ast::Ingredient, g1: bool) -> bool {
        if has_flag(ing.modifiers.inner_spec(), 1) && self.checker is Some {
            exists|x: &str, found: bool|
                x@ == Self::ing_name(ing) && found == !g1 && #[trigger] self.checker->0.ensures((x,), found)
        } else {
            !g1
        }
    }

    /// What resolving `ing` (written at `location`, with the model's
    /// `quantity`) adds to the errors and warnings of `base`, giving
    /// `after`: `ae` and `aw`, under the conditions `flags` and with
    /// `n_units` warnings of incompatible units.
    spec fn resolution(
        &self,
        base: Context<AnalysisError, AnalysisWarning>,
        after: Context<AnalysisError, AnalysisWarning>,
        ing: ast::Ingredient,
        location: Span,
        quantity: Option<Quantity>,
        ae: Seq<AnalysisError>,
        aw: Seq<AnalysisWarning>,
        g1: bool,
        flags: (bool, bool, bool, bool, bool, bool),
        n_units: nat,
    ) -> bool {
        &&& after.errors@ == base.errors@ + ae
        &&& self.recipe_check(ing, g1)
        &&& after.warnings@ == base.warnings@ + aw
        &&& {
            let ings = self.content.ingredients@;
            let same = self.ing_same(ing);
            let treat = self.ing_treat(ing);
            let (g2, g3, g4, gw3, gw5, gw6) = flags;
            &&& g2 == (treat && same is Some && ings[same->0].quantity is Some && ing.quantity is Some
                && !ings[same->0].defined_in_step)
            &&& g3 == (treat && same is None)
            &&& g4 == self.ing_conflict(ing)
            &&& gw3 == ((self.duplicate_mode == DuplicateMode::Reference || self.define_mode == DefineMode::Steps)
                && has_flag(ing.modifiers.inner_spec(), 2))
            &&& n_units == self.ing_incompatible(ing)
            &&& gw5 == (treat && same is Some && has_flag(ings[same->0].modifiers, 1) && self.ing_bits(ing) & 1u32
                != 1u32)
            &&& gw6 == (treat && ing.quantity is Some && quantity is Some
                && quantity->0.value.contains_text_spec())
            &&& ae.len() == (if g2 { 1int } else { 0 }) + (if g3 { 1int } else { 0 }) + (if g4 { 1int } else { 0 })
            &&& g2 ==> (ae[0] matches AnalysisError::ConflictingReferenceQuantities {
                ingredient_name,
                definition_span,
                reference_span,
            } && ingredient_name@ == Self::ing_name(ing) && definition_span == self.locations@[same->0].span
                && reference_span == location)
            &&& g3 ==> (ae[0] matches AnalysisError::ReferenceNotFound { name: nm, reference_span } && nm@
                == Self::ing_name(ing) && reference_span == location)
            &&& g4 ==> (ae.last() matches AnalysisError::ConflictingModifiers { modifiers } && modifiers
                == ing.modifiers)
            &&& {
                let a1 = if g1 { 1int } else { 0 };
                let a3 = a1 + if gw3 { 1int } else { 0 };
                let a5 = if gw5 { 1int } else { 0 };
                let a6 = if gw6 { 1int } else { 0 };
                &&& aw.len() == a3 + n_units + a5 + a6
                &&& g1 ==> (aw[0] matches AnalysisWarning::RecipeNotFound { ref_span, name: nm } && ref_span
                    == location && nm@ == Self::ing_name(ing))
                &&& gw3 ==> (aw[a1] matches AnalysisWarning::RedundantReferenceModifier { modifiers }
                    && modifiers == ing.modifiers)
                &&& forall|k: int| a3 <= k < a3 + n_units ==> (#[trigger] aw[k]) is IncompatibleUnits
                &&& gw5 ==> (aw[a3 + n_units] matches AnalysisWarning::ReferenceToRecipeMissing {
                    modifiers,
                    ingredient_span,
                    referenced_span,
                } && modifiers == ing.modifiers && ingredient_span == location && referenced_span
                    == self.locations@[same->0].span)
                &&& gw6 ==> (aw[a3 + n_units + a5] matches AnalysisWarning::TextValueInReference {
                    quantity_span,
                } && ing.quantity matches Some(q) && quantity_span == q.span_spec())
            }
        }
    }

    /// The errors and warnings that adding `ing` leaves, from the context
    /// `c` after its quantity was read and what was added after that.
    proof fn lemma_context(
        &self,
        new: &Self,
        ing: ast::Ingredient,
        location: Span,
        c: Context<AnalysisError, AnalysisWarning>,
        ae: Seq<AnalysisError>,
        aw: Seq<AnalysisWarning>,
        g1: bool,
        flags: (bool, bool, bool, bool, bool, bool),
        n_units: nat,
    )
        requires
            match ing.quantity {
                Some(q) => self.value_context(c, q.inner_spec().value, true),
                None => c == self.context,
            },
            self.resolution(
                c,
                new.context,
                ing,
                location,
                new.content.ingredients@[self.content.ingredients@.len() as int].quantity,
                ae,
                aw,
                g1,
                flags,
                n_units,
            ),
        ensures
            self.ingredient_context(new, ing, location),
    {
        let (g2, g3, g4, gw3, gw5, gw6) = flags;
        let e0 = c.errors@.len() as int;
        let w0 = c.warnings@.len() as int;
        let e = new.context.errors@;
        let w = new.context.warnings@;
        assert(e.subrange(0, e0) =~= c.errors@);
        assert(w.subrange(0, w0) =~= c.warnings@);
        if g2 || g3 {
            assert(e[e0] == ae[0]);
        }
        if g4 {
            assert(e.last() == ae.last());
        }
        let a1 = if g1 { 1int } else { 0 };
        let a3 = a1 + if gw3 { 1int } else { 0 };
        let a5 = if gw5 { 1int } else { 0 };
        if g1 {
            assert(w[w0] == aw[0]);
        }
        if gw3 {
            assert(w[w0 + a1] == aw[a1]);
        }
        assert forall|k: int| w0 + a3 <= k < w0 + a3 + n_units implies (#[trigger] w[k]) is IncompatibleUnits by {
            assert(w[k] == aw[k - w0]);
        }
        if gw5 {
            assert(w[w0 + a3 + n_units] == aw[a3 + n_units]);
        }
        if gw6 {
            assert(w[w0 + a3 + n_units + a5] == aw[a3 + n_units + a5]);
        }
        assert(self.recipe_check(ing, g1));
    }

    /// Resolves a reference to ingredient `j`: the new modifiers take its
    /// hidden and optional flags. The quantities conflict when both have
    /// one and `j` was not defined in a step; with the advanced units
    /// extension, each earlier quantity of `j` and of its references is
    /// checked against the new one; and a reference to a recipe should
    /// say so.
    fn resolve_reference(
        &mut self,
        j: usize,
        written: &Located<Modifiers>,
        modifiers: Modifiers,
        name: &str,
        quantity: &Option<Quantity>,
        unit_or_quantity: Option<Span>,
        location: Span,
    ) -> (m: Modifiers)
        requires
            old(self).wf(),
            j < old(self).content.ingredients@.len(),
        ensures
            final(self).same_but_context(old(self)),
            ({
                let o = *old(self);
                let f = *final(self);
                let rj = o.content.ingredients@[j as int];
                let c2 = rj.quantity is Some && quantity is Some && !rj.defined_in_step;
                let k: nat = if o.extensions.has_bit(32) && quantity is Some {
                    incompatible_count(
                        o.content.ingredients@,
                        seq![j] + rj.referenced_from@,
                        quantity->0.unit_spec(),
                        o.units.units_spec(),
                    )
                } else {
                    0
                };
                let w5 = has_flag(rj.modifiers, 1) && m.bits_spec() & 1u32 != 1u32;
                let ne = o.context.errors@.len();
                let nw = o.context.warnings@.len();
                &&& m.bits_spec() == modifiers.bits_spec() | (rj.modifiers.bits_spec() & (4u32 | 8u32))
                &&& f.context.errors@.len() == ne + (if c2 { 1int } else { 0 })
                &&& f.context.errors@.subrange(0, ne as int) == o.context.errors@
                &&& c2 ==> (f.context.errors@[ne as int] matches AnalysisError::ConflictingReferenceQuantities {
                    ingredient_name,
                    definition_span,
                    reference_span,
                } && ingredient_name@ == name@ && definition_span == o.locations@[j as int].span && reference_span
                    == location)
                &&& f.context.warnings@.len() == nw + k + (if w5 { 1int } else { 0 })
                &&& f.context.warnings@.subrange(0, nw as int) == o.context.warnings@
                &&& forall|i: int| nw <= i < nw + k ==> (#[trigger] f.context.warnings@[i]) is IncompatibleUnits
                &&& w5 ==> (f.context.warnings@[(nw + k) as int] matches AnalysisWarning::ReferenceToRecipeMissing {
                    modifiers: wm,
                    ingredient_span,
                    referenced_span,
                } && wm == *written && ingredient_span == location && referenced_span == o.locations@[j as int].span)
            }),
    {
        let ghost o = *self;
        let ref_mods = self.content.ingredients[j].modifiers;
        let ref_has_quantity = self.content.ingredients[j].quantity.is_some();
        let ref_in_step = self.content.ingredients[j].defined_in_step;
        let m = modifiers.union(ref_mods.intersection(Modifiers::hidden().union(Modifiers::optional())));
        if ref_has_quantity && quantity.is_some() && !ref_in_step {
            let definition_span = self.locations[j].span;
            self.context.error(
                AnalysisError::ConflictingReferenceQuantities {
                    ingredient_name: name.to_owned(),
                    definition_span,
                    reference_span: location,
                },
            );
        }
        proof {
            assert(self.context.errors@.subrange(0, o.context.errors@.len() as int) =~= o.context.errors@);
        }
        let ghost cu = self.context;
        if self.extensions.contains(Extensions::advanced_units()) {
            if let Some(nq) = quantity {
                let b = match unit_or_quantity {
                    Some(sp) => sp,
                    None => location,
                };
                self.check_reference_units(j, nq, b);
            }
        }
        let ghost cr = self.context;
        proof {
            assert(cr.warnings@.subrange(0, o.context.warnings@.len() as int) =~= o.context.warnings@);
        }
        if ref_mods.contains(Modifiers::recipe()) && !m.contains(Modifiers::recipe()) {
            let referenced_span = self.locations[j].span;
            self.context.warn(
                AnalysisWarning::ReferenceToRecipeMissing {
                    modifiers: copy_modifiers(written),
                    ingredient_span: location,
                    referenced_span,
                },
            );
            proof {
                assert(self.context.warnings@.subrange(0, cr.warnings@.len() as int) =~= cr.warnings@);
                assert forall|i: int| 0 <= i < cr.warnings@.len() implies self.context.warnings@[i] == cr.warnings@[i] by {
                    assert(self.context.warnings@.subrange(0, cr.warnings@.len() as int)[i] == cr.warnings@[i]);
                }
            }
        }
        proof {
            assert(self.context.warnings@.subrange(0, o.context.warnings@.len() as int) =~= o.context.warnings@);
        }
        m
    }

    /// Adds `igr`, written at `location`, to the list, and records it in
    /// the list of the ingredient it refers to.
    fn push_ingredient(&mut self, igr: Ingredient, location: IngredientLocation) -> (r: usize)
        requires
            old(self).wf(),
            igr.referenced_from@.len() == 0,
            location.unit_or_quantity is Some <==> igr.quantity is Some,
            igr.references_to matches Some(j) ==> last_same_name(
                old(self).content.ingredients@,
                igr.name@,
                old(self).content.ingredients@.len() as int,
            ) == Some(j as int),
            has_flag(igr.modifiers, 2) ==> igr.references_to == opt_index(
                last_same_name(old(self).content.ingredients@, igr.name@, old(self).content.ingredients@.len() as int),
            ),
            igr.references_to matches Some(j) ==> {
                let ings = old(self).content.ingredients@;
                &&& j < ings.len()
                &&& !has_flag(ings[j as int].modifiers, 2)
                &&& lowercase(ings[j as int].name@) == lowercase(igr.name@)
            },
        ensures
            final(self).wf(),
            final(self).same_but_lists(old(self)),
            final(self).context == old(self).context,
            final(self).content.sections == old(self).content.sections,
            final(self).content.cookware == old(self).content.cookware,
            final(self).content.timers == old(self).content.timers,
            final(self).content.inline_quantities == old(self).content.inline_quantities,
            r == old(self).content.ingredients@.len(),
            final(self).locations@ == old(self).locations@.push(location),
            ({
                let ings = old(self).content.ingredients@;
                let new = final(self).content.ingredients@;
                &&& new.len() == ings.len() + 1
                &&& new[ings.len() as int] == igr
                &&& forall|i: int| 0 <= i < ings.len() && Some(i as usize) != igr.references_to ==> new[i] == ings[i]
                &&& igr.references_to matches Some(j) ==> {
                    let old_j = ings[j as int];
                    let new_j = new[j as int];
                    &&& new_j.name == old_j.name
                    &&& new_j.alias == old_j.alias
                    &&& new_j.quantity == old_j.quantity
                    &&& new_j.note == old_j.note
                    &&& new_j.modifiers == old_j.modifiers
                    &&& new_j.references_to == old_j.references_to
                    &&& new_j.defined_in_step == old_j.defined_in_step
                    &&& new_j.referenced_from@ == old_j.referenced_from@.push(ings.len() as usize)
                }
            }),
    {
        let ghost o = *self;
        let ghost ings = self.content.ingredients@;
        let ghost n = ings.len();
        let references_to = igr.references_to;
        self.locations.push(location);
        let new_index = self.content.ingredients.len();
        if let Some(j) = references_to {
            self.content.ingredients[j].referenced_from.push(new_index);
        }
        let ghost ings_mid = self.content.ingredients@;
        self.content.ingredients.push(igr);
        proof {
            let newi = self.content.ingredients@;
            assert forall|i: int| 0 <= i < n && Some(i as usize) != references_to implies newi[i] == ings[i] by {
                assert(newi[i] == ings_mid[i]);
            }
            vstd::std_specs::vec::axiom_spec_len(&self.content.ingredients);
            lemma_add_ingredient(ings, newi, references_to);
            assert forall|k: int| 0 <= k < n implies #[trigger] newi[k].name == ings[k].name && newi[k].modifiers
                == ings[k].modifiers by {
                if Some(k as usize) != references_to {
                    assert(newi[k] == ings[k]);
                }
            }
            assert forall|i: int| #![trigger newi[i]] 0 <= i < newi.len() implies {
                &&& newi[i].references_to matches Some(j) ==> last_same_name(newi, newi[i].name@, i) == Some(j as int)
                &&& has_flag(newi[i].modifiers, 2) ==> newi[i].references_to == opt_index(
                    last_same_name(newi, newi[i].name@, i),
                )
            } by {
                lemma_last_same_name_prefix(newi, ings, newi[i].name@, i);
                if i < n {
                    if Some(i as usize) != references_to {
                        assert(newi[i] == ings[i]);
                    }
                    assert(ings[i] == ings[i]);
                }
            }
            assert forall|i: int|
                0 <= i < self.locations@.len() implies ((#[trigger] self.locations@[i]).unit_or_quantity is Some
                <==> self.content.ingredients@[i].quantity is Some) by {
                if i < n {
                    assert(self.locations@[i] == o.locations@[i]);
                    if Some(i as usize) != references_to {
                        assert(newi[i] == ings[i]);
                    }
                }
            }
        }
        new_index
    }

    /// For a recipe ingredient, asks the check of recipes whether the
    /// recipe it names exists, and warns when it says no; the ghost result
    /// tells whether it warned.
    fn check_recipe(&mut self, Ghost(ing): Ghost<ast::Ingredient>, modifiers: Modifiers, name: &String, location: Span) -> (r: Ghost<bool>)
        requires
            old(self).wf(),
            modifiers == ing.modifiers.inner_spec(),
            name@ == Self::ing_name(ing),
        ensures
            final(self).same_but_context(old(self)),
            final(self).context.errors@ == old(self).context.errors@,
            old(self).recipe_check(ing, r@),
            !r@ ==> final(self).context.warnings@ == old(self).context.warnings@,
            r@ ==> final(self).context.warnings@ == old(self).context.warnings@.push(
                final(self).context.warnings@.last(),
            ) && (final(self).context.warnings@.last() matches AnalysisWarning::RecipeNotFound { ref_span, name: nm }
                && ref_span == location && nm@ == name@),
    {
        let ghost o = *self;
        if modifiers.contains(Modifiers::recipe()) {
            if let Some(f) = self.checker {
                let name_str: &str = name.as_str();
                let found = f(name_str);
                proof {
                    assert(o.recipe_check(ing, !found)) by {
                        assert(f.ensures((name_str,), found));
                    }
                }
                if !found {
                    self.context.warn(
                        AnalysisWarning::RecipeNotFound { ref_span: location, name: name.as_str().to_owned() },
                    );
                    return Ghost(true);
                }
                return Ghost(false);
            }
        }
        Ghost(false)
    }

    /// Reads `ing` as a reference: it refers to the ingredient that
    /// `same_name` found, which is resolved, or, when there is none, that
    /// is an error; a text value in its quantity is a warning. Gives the
    /// modifiers, the ingredient referred to, and (as ghost values) the
    /// errors and warnings added, the conditions under which they were,
    /// and how many incompatible units were found.
    fn treat_reference(
        &mut self,
        Ghost(ing): Ghost<ast::Ingredient>,
        written: &Located<Modifiers>,
        modifiers: Modifiers,
        name: &String,
        same_name: Option<usize>,
        quantity: &Option<Quantity>,
        quantity_span: Option<Span>,
        unit_or_quantity: Option<Span>,
        location: Span,
    ) -> (r: (
        Modifiers,
        Option<usize>,
        Ghost<(Seq<AnalysisError>, Seq<AnalysisWarning>, bool, bool, bool, bool, nat)>,
    ))
        requires
            old(self).wf(),
            old(self).ing_treat(ing),
            *written == ing.modifiers,
            modifiers == ing.modifiers.inner_spec(),
            name@ == Self::ing_name(ing),
            same_name matches Some(j) ==> old(self).ing_same(ing) == Some(j as int),
            same_name is None ==> old(self).ing_same(ing) is None,
            quantity is Some <==> ing.quantity is Some,
            ing.quantity matches Some(q) ==> quantity_span == Some(q.span_spec()) && quantity->0.unit_spec()
                == trimmed_opt(q.inner_spec().unit),
        ensures
            final(self).same_but_context(old(self)),
            r.1 == match old(self).ing_same(ing) {
                Some(j) => Some(j as usize),
                None => None,
            },
            r.0.bits_spec() == old(self).ing_bits(ing),
            ({
                let o = *old(self);
                let f = *final(self);
                let ings = o.content.ingredients@;
                let same = o.ing_same(ing);
                let (ae, aw, g2, g3, gw5, gw6, n_units) = r.2@;
                let a5 = if gw5 { 1int } else { 0 };
                let a6 = if gw6 { 1int } else { 0 };
                &&& f.context.errors@ == o.context.errors@ + ae
                &&& f.context.warnings@ == o.context.warnings@ + aw
                &&& g2 == (same is Some && ings[same->0].quantity is Some && ing.quantity is Some
                    && !ings[same->0].defined_in_step)
                &&& g3 == (same is None)
                &&& n_units == o.ing_incompatible(ing)
                &&& gw5 == (same is Some && has_flag(ings[same->0].modifiers, 1) && o.ing_bits(ing) & 1u32 != 1u32)
                &&& gw6 == (ing.quantity is Some && quantity is Some && quantity->0.value.contains_text_spec())
                &&& ae.len() == (if g2 { 1int } else { 0 }) + (if g3 { 1int } else { 0 })
                &&& g2 ==> (ae[0] matches AnalysisError::ConflictingReferenceQuantities {
                    ingredient_name,
                    definition_span,
                    reference_span,
                } && ingredient_name@ == Self::ing_name(ing) && definition_span == o.locations@[same->0].span
                    && reference_span == location)
                &&& g3 ==> (ae[0] matches AnalysisError::ReferenceNotFound { name: nm, reference_span } && nm@
                    == Self::ing_name(ing) && reference_span == location)
                &&& aw.len() == n_units + a5 + a6
                &&& forall|k: int| 0 <= k < n_units ==> (#[trigger] aw[k]) is IncompatibleUnits
                &&& gw5 ==> (aw[n_units as int] matches AnalysisWarning::ReferenceToRecipeMissing {
                    modifiers,
                    ingredient_span,
                    referenced_span,
                } && modifiers == ing.modifiers && ingredient_span == location && referenced_span
                    == o.locations@[same->0].span)
                &&& gw6 ==> (aw[n_units + a5] matches AnalysisWarning::TextValueInReference { quantity_span }
                    && ing.quantity matches Some(q) && quantity_span == q.span_spec())
            }),
    {
        proof {
            if let Some(j) = same_name {
                lemma_last_same_name(self.content.ingredients@, name@, self.content.ingredients@.len() as int);
            }
        }
        let ghost c1 = self.context;
        let ghost o = *self;
        let ghost ings = self.content.ingredients@;
        let ghost mut ae: Seq<AnalysisError> = Seq::empty();
        let ghost mut aw: Seq<AnalysisWarning> = Seq::empty();
        let ghost mut n_units: nat = 0;
        let ghost mut g2 = false;
        let ghost mut g3 = false;
        let ghost mut gw5 = false;
        let ghost mut gw6 = false;
        let ghost a3: int = 0;
        proof {
            assert(self.context.errors@ =~= c1.errors@ + ae);
            assert(self.context.warnings@ =~= c1.warnings@ + aw);
        }
        let mut modifiers = modifiers;
        let mut references_to: Option<usize> = None;
        modifiers = modifiers.union(Modifiers::reference());
        match same_name {
            Some(j) => {
                let ghost before = self.context;
                modifiers = self.resolve_reference(
                    j,
                    written,
                    modifiers,
                    name.as_str(),
                    quantity,
                    unit_or_quantity,
                    location,
                );
                proof {
                    let fe = self.context.errors@;
                    let fw = self.context.warnings@;
                    let added_e = fe.subrange(before.errors@.len() as int, fe.len() as int);
                    let added_w = fw.subrange(before.warnings@.len() as int, fw.len() as int);
                    assert(fe =~= before.errors@ + added_e);
                    assert(fw =~= before.warnings@ + added_w);
                    g2 = added_e.len() == 1;
                    if g2 {
                        assert(added_e[0] == fe[before.errors@.len() as int]);
                    }
                    n_units = if o.extensions.has_bit(32) && quantity is Some {
                        incompatible_count(ings, seq![j] + ings[j as int].referenced_from@, quantity->0.unit_spec(), o.units.units_spec())
                    } else {
                        0
                    };
                    gw5 = added_w.len() == n_units + 1;
                    assert forall|k: int| 0 <= k < n_units implies (#[trigger] added_w[k]) is IncompatibleUnits by {
                        assert(added_w[k] == fw[before.warnings@.len() + k]);
                    }
                    if gw5 {
                        assert(added_w[n_units as int] == fw[(before.warnings@.len() + n_units) as int]);
                    }
                    ae = ae + added_e;
                    aw = aw + added_w;
                    assert(self.context.errors@ =~= c1.errors@ + ae);
                    assert(self.context.warnings@ =~= c1.warnings@ + aw);
                    assert forall|k: int| a3 <= k < a3 + n_units implies (#[trigger] aw[k]) is IncompatibleUnits by {
                        assert(aw[k] == added_w[k - a3]);
                    }
                }
                references_to = Some(j);
            },
            None => {
                let e = AnalysisError::ReferenceNotFound { name: name.as_str().to_owned(), reference_span: location };
                let ghost ge = e;
                self.context.error(e);
                proof {
                    ae = ae.push(ge);
                    g3 = true;
                    assert(self.context.errors@ =~= c1.errors@ + ae);
                }
            },
        }
        if let Some(q) = quantity {
            if q.value.contains_text_value() {
                let qs = match quantity_span {
                    Some(sp) => sp,
                    None => location,
                };
                let w = AnalysisWarning::TextValueInReference { quantity_span: qs };
                let ghost gw = w;
                let ghost a5: int = if gw5 { 1 } else { 0 };
                proof {
                    assert(aw.len() == a3 + n_units + a5);
                }
                self.context.warn(w);
                proof {
                    aw = aw.push(gw);
                    gw6 = true;
                    assert(self.context.warnings@ =~= c1.warnings@ + aw);
                }
            }
        }

        (modifiers, references_to, Ghost((ae, aw, g2, g3, gw5, gw6, n_units)))
    }

    /// Warns of a reference modifier written where every ingredient with
    /// a known name is a reference anyway; the ghost result tells whether
    /// it warned.
    fn warn_redundant_reference(&mut self, written: &Located<Modifiers>) -> (r: Ghost<bool>)
        ensures
            final(self).same_but_context(old(self)),
            final(self).context.errors@ == old(self).context.errors@,
            r@ == ((old(self).duplicate_mode == DuplicateMode::Reference || old(self).define_mode == DefineMode::Steps)
                && has_flag(written.inner_spec(), 2)),
            !r@ ==> final(self).context.warnings@ == old(self).context.warnings@,
            r@ ==> final(self).context.warnings@ == old(self).context.warnings@.push(
                final(self).context.warnings@.last(),
            ) && (final(self).context.warnings@.last() matches AnalysisWarning::RedundantReferenceModifier {
                modifiers,
            } && modifiers == *written),
    {
        let m: Modifiers = **written;
        if (self.duplicate_mode == DuplicateMode::Reference || self.define_mode == DefineMode::Steps) && m.contains(
            Modifiers::reference(),
        ) {
            self.context.warn(AnalysisWarning::RedundantReferenceModifier { modifiers: copy_modifiers(written) });
            return Ghost(true);
        }
        Ghost(false)
    }

    /// A reference that is also new, hidden or optional is an error, and
    /// then has no modifier; the ghost result tells whether it was.
    fn check_conflict(&mut self, written: &Located<Modifiers>, modifiers: Modifiers) -> (r: (Modifiers, Ghost<bool>))
        ensures
            final(self).same_but_context(old(self)),
            final(self).context.warnings@ == old(self).context.warnings@,
            r.1@ == (modifiers.bits_spec() & 2u32 == 2u32 && modifiers.bits_spec() & ((16u32 | 4u32) | 8u32) != 0),
            r.1@ ==> r.0.bits_spec() == 0,
            !r.1@ ==> r.0 == modifiers,
            !r.1@ ==> final(self).context.errors@ == old(self).context.errors@,
            r.1@ ==> final(self).context.errors@ == old(self).context.errors@.push(final(self).context.errors@.last())
                && (final(self).context.errors@.last() matches AnalysisError::ConflictingModifiers { modifiers: m }
                && m == *written),
    {
        if modifiers.contains(Modifiers::reference()) && modifiers.intersects(
            Modifiers::forced_new().union(Modifiers::hidden()).union(Modifiers::optional()),
        ) {
            self.context.error(AnalysisError::ConflictingModifiers { modifiers: copy_modifiers(written) });
            return (Modifiers::empty(), Ghost(true));
        }
        (modifiers, Ghost(false))
    }

    /// Reads `ing` as a reference or not, and checks its modifiers: the
    /// modifiers it ends with, the ingredient it refers to, and (as ghost
    /// values) the errors and warnings added, the conditions under which
    /// they were, and how many incompatible units were found.
    #[verifier::rlimit(60)]
    #[verifier::spinoff_prover]
    fn resolve_all(
        &mut self,
        Ghost(ing): Ghost<ast::Ingredient>,
        written: &Located<Modifiers>,
        name: &String,
        same_name: Option<usize>,
        quantity: &Option<Quantity>,
        quantity_span: Option<Span>,
        unit_or_quantity: Option<Span>,
        location: Span,
    ) -> (r: (
        Modifiers,
        Option<usize>,
        Ghost<(Seq<AnalysisError>, Seq<AnalysisWarning>, bool, (bool, bool, bool, bool, bool, bool), nat)>,
    ))
        requires
            old(self).wf(),
            *written == ing.modifiers,
            name@ == Self::ing_name(ing),
            same_name matches Some(j) ==> old(self).ing_same(ing) == Some(j as int),
            same_name is None ==> old(self).ing_same(ing) is None,
            quantity is Some <==> ing.quantity is Some,
            ing.quantity matches Some(q) ==> quantity_span == Some(q.span_spec()) && quantity->0.unit_spec()
                == trimmed_opt(q.inner_spec().unit),
        ensures
            final(self).same_but_context(old(self)),
            old(self).resolution(
                old(self).context,
                final(self).context,
                ing,
                location,
                *quantity,
                r.2@.0,
                r.2@.1,
                r.2@.2,
                r.2@.3,
                r.2@.4,
            ),
            r.1 == (if old(self).ing_treat(ing) {
                match old(self).ing_same(ing) {
                    Some(j) => Some(j as usize),
                    None => None,
                }
            } else {
                None
            }),
            r.0.bits_spec() == (if old(self).ing_conflict(ing) {
                0u32
            } else {
                old(self).ing_bits(ing)
            }),
    {
        proof {
            if let Some(j) = same_name {
                lemma_last_same_name(self.content.ingredients@, name@, self.content.ingredients@.len() as int);
            }
        }
        let ghost c1 = self.context;
        let ghost o = *self;
        let ghost ings = self.content.ingredients@;
        let ghost mut ae: Seq<AnalysisError> = Seq::empty();
        let ghost mut aw: Seq<AnalysisWarning> = Seq::empty();
        let ghost mut n_units: nat = 0;
        let ghost mut g2 = false;
        let ghost mut g3 = false;
        let ghost mut g4 = false;
        let ghost mut gw3 = false;
        let ghost mut gw5 = false;
        let ghost mut gw6 = false;
        let ghost mut g1 = false;
        proof {
            assert(self.context.errors@ =~= c1.errors@ + ae);
            assert(self.context.warnings@ =~= c1.warnings@ + aw);
        }
        let mut modifiers: Modifiers = **written;
        let ghost before_check = self.context.warnings@;
        let Ghost(found_none) = self.check_recipe(Ghost(ing), modifiers, name, location);
        proof {
            g1 = found_none;
            if g1 {
                aw = aw.push(self.context.warnings@.last());
            }
            assert(self.context.warnings@ =~= c1.warnings@ + aw);
        }
        let Ghost(redundant) = self.warn_redundant_reference(written);
        proof {
            gw3 = redundant;
            if gw3 {
                aw = aw.push(self.context.warnings@.last());
            }
            assert(self.context.warnings@ =~= c1.warnings@ + aw);
        }
        let ghost a3: int = aw.len() as int;
        let treat = !modifiers.contains(Modifiers::forced_new()) && (modifiers.contains(Modifiers::reference())
            || self.define_mode == DefineMode::Steps || (same_name.is_some() && self.duplicate_mode
            == DuplicateMode::Reference));
        proof {
            assert(treat == o.ing_treat(ing));
        }
        let mut references_to: Option<usize> = None;
        if treat {
            let ghost before = self.context;
            let (m, refs, Ghost(t)) = self.treat_reference(
                Ghost(ing),
                written,
                modifiers,
                name,
                same_name,
                quantity,
                quantity_span,
                unit_or_quantity,
                location,
            );
            modifiers = m;
            references_to = refs;
            proof {
                let (tae, taw, tg2, tg3, tgw5, tgw6, tn) = t;
                g2 = tg2;
                g3 = tg3;
                gw5 = tgw5;
                gw6 = tgw6;
                n_units = tn;
                ae = ae + tae;
                aw = aw + taw;
                assert(self.context.errors@ =~= c1.errors@ + ae);
                assert(self.context.warnings@ =~= c1.warnings@ + aw);
                let a5: int = if gw5 { 1 } else { 0 };
                assert forall|k: int| a3 <= k < a3 + n_units implies (#[trigger] aw[k]) is IncompatibleUnits by {
                    assert(aw[k] == taw[k - a3]);
                }
                if gw5 {
                    assert(aw[a3 + n_units] == taw[n_units as int]);
                }
                if gw6 {
                    assert(aw[a3 + n_units + a5] == taw[n_units + a5]);
                }
                if g2 || g3 {
                    assert(ae[0] == tae[0]);
                }
            }
        }
        proof {
            assert(modifiers.bits_spec() == o.ing_bits(ing));
        }
        let (m, Ghost(conflict)) = self.check_conflict(written, modifiers);
        proof {
            g4 = conflict;
            if g4 {
                ae = ae.push(self.context.errors@.last());
            }
            assert(self.context.errors@ =~= c1.errors@ + ae);
        }
        (m, references_to, Ghost((ae, aw, g1, (g2, g3, g4, gw3, gw5, gw6), n_units)))
    }

    /// An ingredient, added to the list. It is read as a reference when it
    /// is marked as one, or every ingredient in a step is one, or its name
    /// was used before and duplicates are references, unless it is forced
    /// new. A reference refers to the last earlier ingredient with its
    /// name, letter case aside, that is not a reference itself, and is
    /// hidden or optional as that one is.
    #[verifier::rlimit(40)]
    #[verifier::spinoff_prover]
    fn ingredient(&mut self, ingredient: ast::Ingredient, location: Span) -> (r: usize)
        requires
            old(self).wf(),
        ensures
            final(self).wf(),
            old(self).ingredient_added(final(self), ingredient, location, r),
            ctx_extends(final(self).context, old(self).context),
    {
        let ghost o = *self;
        let ghost ing = ingredient;
        let ghost ings = self.content.ingredients@;
        let ghost n = ings.len();
        let name = ingredient.name.text_trimmed();
        proof {
            crate::ast::lemma_trimmed(ingredient.name.chars_spec(), name@);
        }
        let same_name = self.same_name(name.as_str());
        proof {
            lemma_last_same_name(ings, name@, n as int);
        }
        let written = copy_modifiers(&ingredient.modifiers);
        let alias = match &ingredient.alias {
            Some(t) => {
                let s = t.text_trimmed();
                proof {
                    crate::ast::lemma_trimmed(t.chars_spec(), s@);
                }
                Some(s)
            },
            None => None,
        };
        let note = match &ingredient.note {
            Some(t) => {
                let s = t.text_trimmed();
                proof {
                    crate::ast::lemma_trimmed(t.chars_spec(), s@);
                }
                Some(s)
            },
            None => None,
        };
        let quantity_span = match &ingredient.quantity {
            Some(q) => {
                let sp = q.span();
                proof {
                    Span::lemma_eq(sp, q.span_spec());
                }
                Some(sp)
            },
            None => None,
        };
        let unit_or_quantity = match &ingredient.quantity {
            Some(q) => {
                let inner: &ast::Quantity = &**q;
                match &inner.unit {
                    Some(u) => Some(u.span()),
                    None => Some(q.span()),
                }
            },
            None => None,
        };
        let quantity = match ingredient.quantity {
            Some(q) => Some(self.quantity(q, true)),
            None => None,
        };
        let ghost c1 = self.context;
        let ghost mid = *self;
        let defined_in_step = self.define_mode != DefineMode::Components;
        let (modifiers, references_to, Ghost(gs)) = self.resolve_all(
            Ghost(ing),
            &ingredient.modifiers,
            &name,
            same_name,
            &quantity,
            quantity_span,
            unit_or_quantity,
            location,
        );
        let ghost (ae, aw, g1, flags, n_units) = gs;
        proof {
            assert(self.content.ingredients@ == ings);
            assert(self.locations@ == o.locations@);
            assert(references_to matches Some(j) ==> same_name == Some(j));
            let w = ing.modifiers.inner_spec().bits_spec();
            assert((w & 2u32 == 2u32 && w & 16u32 == 16u32) ==> (w & 2u32 == 2u32 && w & ((16u32 | 4u32) | 8u32)
                != 0u32)) by (bit_vector);
            assert(0u32 & 2u32 != 2u32) by (bit_vector);
            assert(o.ing_same(ing) == last_same_name(ings, name@, n as int));
        }
        let ghost before_push = *self;
        let new_index = self.push_ingredient(
            Ingredient {
                name,
                alias,
                quantity,
                note,
                modifiers,
                references_to,
                referenced_from: Vec::new(),
                defined_in_step,
            },
            IngredientLocation { span: location, unit_or_quantity },
        );
        proof {
            assert(self.locations@.subrange(0, n as int) =~= o.locations@);
            o.lemma_context(self, ing, location, c1, ae, aw, g1, flags, n_units);
        }
        new_index
    }

    /// How many items the list of `kind` holds.
    spec fn len_of(&self, kind: ComponentKind) -> nat {
        match kind {
            ComponentKind::Ingredient => self.content.ingredients@.len(),
            ComponentKind::Cookware => self.content.cookware@.len(),
            ComponentKind::Timer => self.content.timers@.len(),
        }
    }

    /// Adding a component keeps the earlier ingredients; while duplicates
    /// are new and every ingredient is defined as written, an ingredient
    /// added is read as written.
    proof fn lemma_ingredient_read(old_w: Self, new_w: Self, component: ast::Component, location: Span, r: usize)
        requires
            match component {
                ast::Component::Ingredient(i) => old_w.ingredient_added(&new_w, i, location, r),
                _ => new_w.content.ingredients == old_w.content.ingredients,
            },
        ensures
            ingredients_kept(old_w.content.ingredients@, new_w.content.ingredients@),
            read_from(
                new_w.content.ingredients@,
                old_w.content.ingredients@.len() as int,
                match component {
                    ast::Component::Ingredient(i) => seq![
                        (i, old_w.define_mode, old_w.duplicate_mode, old_w.auto_scale_ingredients),
                    ],
                    _ => Seq::<IngredientInModes>::empty(),
                },
                new_w.context.errors@,
            ),
    {
        match component {
            ast::Component::Ingredient(i) => {
                let ings = old_w.content.ingredients@;
                let new = new_w.content.ingredients@;
                let n = ings.len();
                let same = old_w.ing_same(i);
                assert forall|k: int| #![trigger new[k]] 0 <= k < n implies {
                    &&& new[k].name == ings[k].name
                    &&& new[k].alias == ings[k].alias
                    &&& new[k].note == ings[k].note
                    &&& new[k].quantity == ings[k].quantity
                    &&& new[k].modifiers == ings[k].modifiers
                    &&& new[k].references_to == ings[k].references_to
                    &&& new[k].defined_in_step == ings[k].defined_in_step
                } by {
                    if Some(k) != same || !old_w.ing_treat(i) {
                        assert(new[k] == ings[k]);
                    }
                }
                let a = (i, old_w.define_mode, old_w.duplicate_mode, old_w.auto_scale_ingredients);
                let w = i.modifiers.inner_spec();
                let wb = w.bits_spec();
                lemma_last_same_name_prefix(ings, new, Self::ing_name(i), n as int);
                lemma_last_same_name(ings, Self::ing_name(i), n as int);
                assert(seq![a][0] == a);
                assert(read_as_reference(new, n as int, i, a.1, a.2) == old_w.ing_treat(i));
                assert(0u32 & 2u32 == 0u32) by (bit_vector);
                assert(wb & 16u32 == 16u32 ==> wb & ((16u32 | 4u32) | 8u32) != 0u32) by (bit_vector);
                if old_w.ing_treat(i) {
                    if same is None {
                        assert(old_w.ingredient_context(&new_w, i, location));
                        assert(reports_not_found(new_w.context.errors@, new[n as int].name@));
                    }
                    if !has_flag(w, 4) && !has_flag(w, 8) {
                        match same {
                            Some(j) => {
                                let jb = ings[j].modifiers.bits_spec();
                                if !has_flag(ings[j].modifiers, 4) && !has_flag(ings[j].modifiers, 8) {
                                    assert((wb & 16u32 != 16u32 && wb & 4u32 != 4u32 && wb & 8u32 != 8u32 && jb & 4u32
                                        != 4u32 && jb & 8u32 != 8u32) ==> (((wb | 2u32) | (jb & (4u32 | 8u32))) & 2u32
                                        == 2u32 && ((wb | 2u32) | (jb & (4u32 | 8u32))) & ((16u32 | 4u32) | 8u32)
                                        == 0u32)) by (bit_vector);
                                }
                            },
                            None => {
                                assert((wb & 16u32 != 16u32 && wb & 4u32 != 4u32 && wb & 8u32 != 8u32) ==> ((wb
                                    | 2u32) & 2u32 == 2u32 && (wb | 2u32) & ((16u32 | 4u32) | 8u32) == 0u32))
                                    by (bit_vector);
                            },
                        }
                    }
                }
                assert(read_as_written(new, n as int + 0, a, new_w.context.errors@));
            },
            _ => {
                assert(old_w.content.ingredients@ == new_w.content.ingredients@);
            },
        }
    }

    /// While duplicates are new ingredients and not every ingredient is a
    /// reference, a component that is not an ingredient written with `&`
    /// adds no reference.
    proof fn lemma_plain_ingredient_added(
        old_w: Self,
        new_w: Self,
        component: ast::Component,
        location: Span,
        r: usize,
    )
        requires
            old_w.duplicate_mode == DuplicateMode::New,
            old_w.define_mode != DefineMode::Steps,
            no_references(old_w.content.ingredients@),
            match component {
                ast::Component::Ingredient(i) => !has_flag(i.modifiers.inner_spec(), 2) && old_w.ingredient_added(
                    &new_w,
                    i,
                    location,
                    r,
                ),
                _ => new_w.content.ingredients == old_w.content.ingredients,
            },
        ensures
            no_references(new_w.content.ingredients@),
    {
        match component {
            ast::Component::Ingredient(i) => {
                let ings = old_w.content.ingredients@;
                let n = ings.len();
                assert(!old_w.ing_treat(i));
                assert(0u32 & 2u32 == 0u32) by (bit_vector);
                assert forall|k: int| #![trigger new_w.content.ingredients@[k]]
                    0 <= k < new_w.content.ingredients@.len() implies !has_flag(
                    new_w.content.ingredients@[k].modifiers,
                    2,
                ) && new_w.content.ingredients@[k].references_to is None by {
                    if k < n {
                        assert(new_w.content.ingredients@[k] == ings[k]);
                    }
                }
            },
            _ => {},
        }
    }

    /// A component of a step, added to the list of its kind.
    fn component(&mut self, component: Located<ast::Component>) -> (r: Component)
        requires
            old(self).wf(),
        ensures
            final(self).wf(),
            ctx_extends(final(self).context, old(self).context),
            final(self).same_but_lists(old(self)),
            final(self).content.sections == old(self).content.sections,
            final(self).content.inline_quantities == old(self).content.inline_quantities,
            r.kind == kind_of(component.inner_spec()),
            r.index == old(self).len_of(r.kind),
            forall|k: ComponentKind| #[trigger] final(self).len_of(k) == old(self).len_of(k) + (if k == r.kind {
                1nat
            } else {
                0nat
            }),
            match component.inner_spec() {
                ast::Component::Ingredient(i) => old(self).ingredient_added(
                    final(self),
                    i,
                    component.span_spec(),
                    r.index,
                ),
                ast::Component::Cookware(c) => {
                    &&& final(self).content.ingredients == old(self).content.ingredients
                    &&& final(self).content.timers == old(self).content.timers
                    &&& final(self).content.cookware@.len() == old(self).content.cookware@.len() + 1
                    &&& old(self).content.cookware@.is_prefix_of(final(self).content.cookware@)
                    &&& cookware_read(final(self).content.cookware@.last(), c)
                },
                ast::Component::Timer(t) => {
                    &&& final(self).content.ingredients == old(self).content.ingredients
                    &&& final(self).content.cookware == old(self).content.cookware
                    &&& final(self).content.timers@.len() == old(self).content.timers@.len() + 1
                    &&& old(self).content.timers@.is_prefix_of(final(self).content.timers@)
                    &&& timer_read(final(self).content.timers@.last(), t)
                },
            },
    {
        let (inner, span) = component.take_pair();
        match inner {
            ast::Component::Ingredient(i) => Component { kind: ComponentKind::Ingredient, index: self.ingredient(i, span) },
            ast::Component::Cookware(c) => Component { kind: ComponentKind::Cookware, index: self.cookware(c) },
            ast::Component::Timer(t) => Component { kind: ComponentKind::Timer, index: self.timer(t, span) },
        }
    }

    /// A step: its text, and its components added to their lists. A step
    /// is text when it is written so or every step is text; then its
    /// components are ignored with a warning. When steps only define
    /// components, text is dropped, with a warning when it holds a letter
    /// or digit. The components of a kind get the next indices of its list,
    /// in order.
    #[verifier::rlimit(100)]
    #[verifier::spinoff_prover]
    fn step(&mut self, is_text: bool, items: Vec<ast::Item>) -> (r: Step)
        requires
            old(self).wf(),
        ensures
            final(self).wf(),
            ctx_extends(final(self).context, old(self).context),
            final(self).same_but_lists(old(self)),
            final(self).content.sections == old(self).content.sections,
            final(self).content.inline_quantities == old(self).content.inline_quantities,
            r.is_text == (is_text || old(self).define_mode == DefineMode::Text),
            r.items@.map_values(|it: Item| model_shape(it)) == kept_shapes(
                items@,
                old(self).define_mode == DefineMode::Components,
                r.is_text,
            ),
            forall|k: ComponentKind| #[trigger] final(self).len_of(k) == old(self).len_of(k) + kind_count(r.items@, k),
            final(self).content.ingredients@.len() >= old(self).content.ingredients@.len(),
            final(self).content.cookware@.len() >= old(self).content.cookware@.len(),
            final(self).content.timers@.len() >= old(self).content.timers@.len(),
            forall|j: int|
                0 <= j < r.items@.len() ==> item_points_in(
                    #[trigger] r.items@[j],
                    final(self).content.ingredients@.len(),
                    final(self).content.cookware@.len(),
                    final(self).content.timers@.len(),
                    final(self).content.inline_quantities@.len(),
                ),
            forall|j: int|
                0 <= j < r.items@.len() && #[trigger] r.items@[j] is Component ==> {
                    let c = r.items@[j]->Component_0;
                    c.index == old(self).len_of(c.kind) + kind_count(r.items@.take(j), c.kind)
                },
            (old(self).duplicate_mode == DuplicateMode::New && old(self).define_mode != DefineMode::Steps
                && !items_mark_reference(items@) && no_references(old(self).content.ingredients@)) ==> no_references(
                final(self).content.ingredients@,
            ),
            ingredients_kept(old(self).content.ingredients@, final(self).content.ingredients@),
            read_from(
                final(self).content.ingredients@,
                old(self).content.ingredients@.len() as int,
                if is_text || old(self).define_mode == DefineMode::Text {
                    Seq::<IngredientInModes>::empty()
                } else {
                    in_modes(
                        ast_ingredients(items@),
                        old(self).define_mode,
                        old(self).duplicate_mode,
                        old(self).auto_scale_ingredients,
                    )
                },
                final(self).context.errors@,
            ),
            old(self).content.cookware@.is_prefix_of(final(self).content.cookware@),
            cookware_from(
                final(self).content.cookware@,
                old(self).content.cookware@.len() as int,
                if is_text || old(self).define_mode == DefineMode::Text {
                    Seq::<ast::Cookware>::empty()
                } else {
                    ast_cookware(items@)
                },
            ),
            old(self).content.timers@.is_prefix_of(final(self).content.timers@),
            timers_from(
                final(self).content.timers@,
                old(self).content.timers@.len() as int,
                if is_text || old(self).define_mode == DefineMode::Text {
                    Seq::<ast::Timer>::empty()
                } else {
                    ast_timers(items@)
                },
            ),
    {
        let ghost o = *self;
        let ghost plain = o.duplicate_mode == DuplicateMode::New && o.define_mode != DefineMode::Steps
            && !items_mark_reference(items@) && no_references(o.content.ingredients@);
        let is_text = is_text || self.define_mode == DefineMode::Text;
        let ghost cm = self.define_mode == DefineMode::Components;
        let ghost all = items@;
        let mut rest = items;
        let mut backwards: Vec<ast::Item> = Vec::new();
        while rest.len() > 0
            invariant
                rest@.len() + backwards@.len() == all.len(),
                rest@ == all.subrange(0, rest@.len() as int),
                forall|k: int| 0 <= k < backwards@.len() ==> #[trigger] backwards@[k] == all[all.len() - 1 - k],
            decreases rest@.len(),
        {
            let it = rest.pop().unwrap();
            backwards.push(it);
        }
        let mut new_items: Vec<Item> = Vec::new();
        proof {
            assert(all.take(0) =~= Seq::<ast::Item>::empty());
            assert(o.content.cookware@ =~= o.content.cookware@.subrange(0, o.content.cookware@.len() as int));
            assert(o.content.timers@ =~= o.content.timers@.subrange(0, o.content.timers@.len() as int));
            assert(in_modes(ast_ingredients(all.take(0)), o.define_mode, o.duplicate_mode, o.auto_scale_ingredients)
                =~= Seq::<IngredientInModes>::empty());
            assert(new_items@.map_values(|it: Item| model_shape(it)) =~= Seq::<ItemShape>::empty());
        }
        while backwards.len() > 0
            invariant
                self.wf(),
                ctx_extends(self.context, o.context),
                self.same_but_lists(&o),
                self.define_mode == o.define_mode,
                cm == (o.define_mode == DefineMode::Components),
                self.content.sections == o.content.sections,
                self.content.inline_quantities == o.content.inline_quantities,
                backwards@.len() <= all.len(),
                forall|k: int| 0 <= k < backwards@.len() ==> #[trigger] backwards@[k] == all[all.len() - 1 - k],
                new_items@.map_values(|it: Item| model_shape(it)) == kept_shapes(
                    all.take(all.len() - backwards@.len()),
                    cm,
                    is_text,
                ),
                forall|k: ComponentKind| #[trigger] self.len_of(k) == o.len_of(k) + kind_count(new_items@, k),
                forall|j: int|
                    0 <= j < new_items@.len() && #[trigger] new_items@[j] is Component ==> {
                        let c = new_items@[j]->Component_0;
                        c.index == o.len_of(c.kind) + kind_count(new_items@.take(j), c.kind)
                    },
                plain == (o.duplicate_mode == DuplicateMode::New && o.define_mode != DefineMode::Steps
                    && !items_mark_reference(all) && no_references(o.content.ingredients@)),
                plain ==> no_references(self.content.ingredients@),
                ingredients_kept(o.content.ingredients@, self.content.ingredients@),
                !is_text ==> read_from(
                    self.content.ingredients@,
                    o.content.ingredients@.len() as int,
                    in_modes(
                        ast_ingredients(all.take(all.len() - backwards@.len())),
                        o.define_mode,
                        o.duplicate_mode,
                        o.auto_scale_ingredients,
                    ),
                    self.context.errors@,
                ),
                o.content.cookware@.is_prefix_of(self.content.cookware@),
                !is_text ==> cookware_from(
                    self.content.cookware@,
                    o.content.cookware@.len() as int,
                    ast_cookware(all.take(all.len() - backwards@.len())),
                ),
                o.content.timers@.is_prefix_of(self.content.timers@),
                is_text ==> self.content.ingredients == o.content.ingredients && self.content.cookware
                    == o.content.cookware && self.content.timers == o.content.timers,
                !is_text ==> timers_from(
                    self.content.timers@,
                    o.content.timers@.len() as int,
                    ast_timers(all.take(all.len() - backwards@.len())),
                ),
            decreases backwards@.len(),
        {
            let ghost p = all.len() - backwards@.len();
            let it = backwards.pop().unwrap();
            proof {
                assert(it == all[p]);
                assert(all.take(p + 1).drop_last() =~= all.take(p));
                assert(all.take(p + 1).last() == all[p]);
                assert(ast_ingredients(all.take(p + 1)) == match all[p] {
                    ast::Item::Component(c) => match c.inner_spec() {
                        ast::Component::Ingredient(i) => ast_ingredients(all.take(p)).push(i),
                        _ => ast_ingredients(all.take(p)),
                    },
                    _ => ast_ingredients(all.take(p)),
                });
                assert(ast_cookware(all.take(p + 1)) == match all[p] {
                    ast::Item::Component(c) => match c.inner_spec() {
                        ast::Component::Cookware(x) => ast_cookware(all.take(p)).push(x),
                        _ => ast_cookware(all.take(p)),
                    },
                    _ => ast_cookware(all.take(p)),
                });
                assert(ast_timers(all.take(p + 1)) == match all[p] {
                    ast::Item::Component(c) => match c.inner_spec() {
                        ast::Component::Timer(x) => ast_timers(all.take(p)).push(x),
                        _ => ast_timers(all.take(p)),
                    },
                    _ => ast_timers(all.take(p)),
                });
            }
            let ghost before = *self;
            let ghost items_before = new_items@;
            match it {
                ast::Item::Text(text) => {
                    if self.define_mode == DefineMode::Components {
                        let t = text.text();
                        if has_alphanumeric(t.as_str()) {
                            self.context.warn(AnalysisWarning::TextDefiningIngredients { text_span: text.span() });
                        }
                        proof {
                            assert(forall|k: ComponentKind| #[trigger] self.len_of(k) == before.len_of(k));
                        }
                    } else {
                        let s = text.text();
                        new_items.push(Item::Text(s));
                        proof {
                            assert(new_items@.map_values(|it: Item| model_shape(it)) =~= items_before.map_values(
                                |it: Item| model_shape(it),
                            ).push(ItemShape::Text(s@)));
                            assert(new_items@.drop_last() =~= items_before);
                            assert forall|k: ComponentKind| #[trigger] kind_count(new_items@, k) == kind_count(items_before, k) by {
                            }
                            assert forall|j: int|
                                0 <= j < new_items@.len() && #[trigger] new_items@[j] is Component implies {
                                    let c = new_items@[j]->Component_0;
                                    c.index == o.len_of(c.kind) + kind_count(new_items@.take(j), c.kind)
                                } by {
                                assert(new_items@.take(j) =~= items_before.take(j));
                                assert(new_items@[j] == items_before[j]);
                            }
                        }
                    }
                },
                ast::Item::Component(c) => {
                    if is_text {
                        let component_span = c.span();
                        self.context.warn(AnalysisWarning::ComponentInTextMode { component_span });
                        proof {
                            assert(forall|k: ComponentKind| #[trigger] self.len_of(k) == before.len_of(k));
                        }
                    } else {
                        let comp = self.component(*c);
                        new_items.push(Item::Component(comp));
                        proof {
                            Self::lemma_ingredient_read(before, *self, c.inner_spec(), c.span_spec(), comp.index);
                            lemma_kept_trans(o.content.ingredients@, before.content.ingredients@, self.content.ingredients@);
                            let x = match c.inner_spec() {
                                ast::Component::Ingredient(i) => seq![
                                    (i, o.define_mode, o.duplicate_mode, o.auto_scale_ingredients),
                                ],
                                _ => Seq::<IngredientInModes>::empty(),
                            };
                            lemma_read_extend(
                                before.content.ingredients@,
                                self.content.ingredients@,
                                o.content.ingredients@.len() as int,
                                in_modes(ast_ingredients(all.take(p)), o.define_mode, o.duplicate_mode, o.auto_scale_ingredients),
                                x,
                                before.context.errors@,
                                self.context.errors@,
                            );
                            assert(in_modes(ast_ingredients(all.take(p)), o.define_mode, o.duplicate_mode, o.auto_scale_ingredients)
                                + x =~= in_modes(
                                ast_ingredients(all.take(p + 1)),
                                o.define_mode,
                                o.duplicate_mode,
                                o.auto_scale_ingredients,
                            ));
                            let y = match c.inner_spec() {
                                ast::Component::Cookware(k) => seq![k],
                                _ => Seq::<ast::Cookware>::empty(),
                            };
                            let z = match c.inner_spec() {
                                ast::Component::Timer(k) => seq![k],
                                _ => Seq::<ast::Timer>::empty(),
                            };
                            assert(cookware_from(self.content.cookware@, before.content.cookware@.len() as int, y)) by {
                                if y.len() > 0 {
                                    assert(y[0] == c.inner_spec()->Cookware_0);
                                }
                            }
                            assert(timers_from(self.content.timers@, before.content.timers@.len() as int, z)) by {
                                if z.len() > 0 {
                                    assert(z[0] == c.inner_spec()->Timer_0);
                                }
                            }
                            assert(before.content.cookware@.is_prefix_of(self.content.cookware@)) by {
                                assert(before.content.cookware@ =~= self.content.cookware@.subrange(0, before.content.cookware@.len() as int));
                            }
                            assert(before.content.timers@.is_prefix_of(self.content.timers@)) by {
                                assert(before.content.timers@ =~= self.content.timers@.subrange(0, before.content.timers@.len() as int));
                            }
                            lemma_prefix_trans(o.content.cookware@, before.content.cookware@, self.content.cookware@);
                            lemma_prefix_trans(o.content.timers@, before.content.timers@, self.content.timers@);
                            lemma_cookware_extend(
                                before.content.cookware@,
                                self.content.cookware@,
                                o.content.cookware@.len() as int,
                                ast_cookware(all.take(p)),
                                y,
                            );
                            assert(ast_cookware(all.take(p)) + y =~= ast_cookware(all.take(p + 1)));
                            lemma_timers_extend(
                                before.content.timers@,
                                self.content.timers@,
                                o.content.timers@.len() as int,
                                ast_timers(all.take(p)),
                                z,
                            );
                            assert(ast_timers(all.take(p)) + z =~= ast_timers(all.take(p + 1)));
                            if plain {
                                assert(!marks_reference(all[p]));
                                Self::lemma_plain_ingredient_added(before, *self, c.inner_spec(), c.span_spec(), comp.index);
                            }
                            assert(new_items@.map_values(|it: Item| model_shape(it)) =~= items_before.map_values(
                                |it: Item| model_shape(it),
                            ).push(ItemShape::Component(comp.kind)));
                            assert(new_items@.drop_last() =~= items_before);
                            assert forall|k: ComponentKind| #[trigger] self.len_of(k) == o.len_of(k) + kind_count(new_items@, k) by {
                                assert(before.len_of(k) == o.len_of(k) + kind_count(items_before, k));
                            }
                            assert forall|j: int|
                                0 <= j < new_items@.len() && #[trigger] new_items@[j] is Component implies {
                                    let c = new_items@[j]->Component_0;
                                    c.index == o.len_of(c.kind) + kind_count(new_items@.take(j), c.kind)
                                } by {
                                if j < items_before.len() {
                                    assert(new_items@.take(j) =~= items_before.take(j));
                                    assert(new_items@[j] == items_before[j]);
                                } else {
                                    assert(new_items@.take(j) =~= items_before);
                                    assert(before.len_of(comp.kind) == o.len_of(comp.kind) + kind_count(items_before, comp.kind));
                                }
                            }
                        }
                    }
                },
            }
        }
        proof {
            assert(all.take(all.len() as int) =~= all);
            assert(self.len_of(ComponentKind::Ingredient) >= o.len_of(ComponentKind::Ingredient));
            assert(self.len_of(ComponentKind::Cookware) >= o.len_of(ComponentKind::Cookware));
            assert(self.len_of(ComponentKind::Timer) >= o.len_of(ComponentKind::Timer));
            assert forall|j: int| 0 <= j < new_items@.len() implies item_points_in(
                #[trigger] new_items@[j],
                self.content.ingredients@.len(),
                self.content.cookware@.len(),
                self.content.timers@.len(),
                self.content.inline_quantities@.len(),
            ) by {
                if new_items@[j] is Component {
                    let c = new_items@[j]->Component_0;
                    lemma_kind_count_prefix(new_items@, j, c.kind);
                    assert(self.len_of(c.kind) == o.len_of(c.kind) + kind_count(new_items@, c.kind));
                } else if new_items@[j] is InlineQuantity {
                    assert(kept_shapes(all, cm, is_text).contains(ItemShape::InlineQuantity)) by {
                        assert(new_items@.map_values(|it: Item| model_shape(it))[j] == ItemShape::InlineQuantity);
                    }
                    lemma_no_inline(all, cm, is_text);
                }
            }
        }
        Step { items: new_items, is_text }
    }

    /// Walks the lines: metadata, steps (grouped into sections) and
    /// section names. A section is kept when it has a name or a step.
    fn walk(&mut self, ast: ast::Ast)
        requires
            old(self).wf(),
            old(self).define_mode == DefineMode::All,
            old(self).duplicate_mode == DuplicateMode::New,
            !old(self).auto_scale_ingredients,
            old(self).content.sections@.len() == 0,
            forall|k: ComponentKind| #[trigger] old(self).len_of(k) == 0,
            content_points_in(old(self).content),
            crate::metadata::map_entries(old(self).content.metadata.map) == Seq::<(Seq<char>, Seq<char>)>::empty(),
        ensures
            final(self).wf(),
            content_points_in(final(self).content),
            ctx_extends(final(self).context, old(self).context),
            crate::metadata::map_entries(final(self).content.metadata.map) == metadata_entries(
                ast.lines@,
                old(self).extensions.has_bit(64),
            ),
            final(self).content.sections@.map_values(|s: Section| section_shape(s)) == section_shapes(
                ast.lines@,
                old(self).extensions.has_bit(64),
            ),
            forall|k: ComponentKind| #[trigger] final(self).len_of(k) == lines_kind_count(
                ast.lines@,
                old(self).extensions.has_bit(64),
                k,
            ),
            ast.lines@.len() == 0 ==> final(self).context == old(self).context,
            (!old(self).extensions.has_bit(64) && !lines_mark_reference(ast.lines@)) ==> no_references(
                final(self).content.ingredients@,
            ),
            read_from(
                final(self).content.ingredients@,
                0,
                lines_ingredients(ast.lines@, old(self).extensions.has_bit(64)),
                final(self).context.errors@,
            ),
            cookware_from(final(self).content.cookware@, 0, lines_cookware(ast.lines@, old(self).extensions.has_bit(64))),
            timers_from(final(self).content.timers@, 0, lines_timers(ast.lines@, old(self).extensions.has_bit(64))),
    {
        let ghost o = *self;
        let ghost all = ast.lines@;
        let mut rest = ast.lines;
        let mut backwards: Vec<ast::Line> = Vec::new();
        while rest.len() > 0
            invariant
                rest@.len() + backwards@.len() == all.len(),
                rest@ == all.subrange(0, rest@.len() as int),
                forall|k: int| 0 <= k < backwards@.len() ==> #[trigger] backwards@[k] == all[all.len() - 1 - k],
            decreases rest@.len(),
        {
            let l = rest.pop().unwrap();
            backwards.push(l);
        }
        let mut current = Section::new(None);
        let ghost modes = o.extensions.has_bit(64);
        proof {
            assert(all.take(0) =~= Seq::<ast::Line>::empty());
            assert(self.len_of(ComponentKind::Ingredient) == 0);
            assert(self.len_of(ComponentKind::Cookware) == 0);
            assert(self.len_of(ComponentKind::Timer) == 0);
        }
        while backwards.len() > 0
            invariant
                self.wf(),
                content_points_in(self.content),
                ctx_extends(self.context, o.context),
                self.extensions == o.extensions,
                modes == o.extensions.has_bit(64),
                backwards@.len() <= all.len(),
                forall|k: int| 0 <= k < backwards@.len() ==> #[trigger] backwards@[k] == all[all.len() - 1 - k],
                crate::metadata::map_entries(self.content.metadata.map) == metadata_entries(
                    all.take(all.len() - backwards@.len()),
                    modes,
                ),
                self.define_mode == define_after(all.take(all.len() - backwards@.len()), modes),
                self.content.sections@.map_values(|s: Section| section_shape(s)) == sections_walk(
                    all.take(all.len() - backwards@.len()),
                    modes,
                ).0,
                section_shape(current) == sections_walk(all.take(all.len() - backwards@.len()), modes).1,
                all.len() == 0 ==> self.context == o.context,
                !modes ==> self.define_mode == DefineMode::All && self.duplicate_mode == DuplicateMode::New,
                (!modes && !lines_mark_reference(all)) ==> no_references(self.content.ingredients@),
                self.duplicate_mode == duplicate_after(all.take(all.len() - backwards@.len()), modes),
                self.auto_scale_ingredients == auto_scale_after(all.take(all.len() - backwards@.len()), modes),
                read_from(
                    self.content.ingredients@,
                    0,
                    lines_ingredients(all.take(all.len() - backwards@.len()), modes),
                    self.context.errors@,
                ),
                cookware_from(self.content.cookware@, 0, lines_cookware(all.take(all.len() - backwards@.len()), modes)),
                timers_from(self.content.timers@, 0, lines_timers(all.take(all.len() - backwards@.len()), modes)),
                forall|k: ComponentKind| #[trigger] self.len_of(k) == lines_kind_count(
                    all.take(all.len() - backwards@.len()),
                    modes,
                    k,
                ),
                steps_point_in(
                    current.steps@,
                    self.content.ingredients@.len(),
                    self.content.cookware@.len(),
                    self.content.timers@.len(),
                    self.content.inline_quantities@.len(),
                ),
            decreases backwards@.len(),
        {
            let ghost p = all.len() - backwards@.len();
            let line = backwards.pop().unwrap();
            proof {
                assert(line == all[p]);
                assert(all.take(p + 1).drop_last() =~= all.take(p));
                assert(all.take(p + 1).last() == all[p]);
                if !(all[p] is Step) {
                    assert(lines_ingredients(all.take(p + 1), modes) =~= lines_ingredients(all.take(p), modes));
                    assert(lines_cookware(all.take(p + 1), modes) =~= lines_cookware(all.take(p), modes));
                    assert(lines_timers(all.take(p + 1), modes) =~= lines_timers(all.take(p), modes));
                }
            }
            let ghost before = *self;
            match line {
                ast::Line::Metadata { key, value } => {
                    self.metadata(&key, &value);
                    proof {
                        let k = trimmed(key.chars_spec());
                        if !(modes && special_key(k) is Some) {
                            let r = choose|r: Result<(), MetadataError>| #[trigger]
                                before.content.metadata.insert_spec(&self.content.metadata, k, trimmed(value.chars_spec()), r);
                        }
                        assert forall|k: ComponentKind| #[trigger] self.len_of(k) == lines_kind_count(
                            all.take(p + 1),
                            modes,
                            k,
                        ) by {
                            assert(self.len_of(k) == before.len_of(k));
                            assert(lines_kind_count(all.take(p + 1), modes, k) == lines_kind_count(all.take(p), modes, k));
                        }
                    }
                },
                ast::Line::Step { is_text, items } => {
                    let ghost ast_items = items@;
                    proof {
                        if !modes && !lines_mark_reference(all) && items_mark_reference(ast_items) {
                            assert(all[p] matches ast::Line::Step { items, .. } && items_mark_reference(items@));
                        }
                    }
                    let new_step = self.step(is_text, items);
                    proof {
                        {
                            let tx = is_text || before.define_mode == DefineMode::Text;
                            let st = if tx {
                                Seq::<IngredientInModes>::empty()
                            } else {
                                in_modes(
                                    ast_ingredients(ast_items),
                                    before.define_mode,
                                    before.duplicate_mode,
                                    before.auto_scale_ingredients,
                                )
                            };
                            assert(define_after(all.take(p + 1), modes) == define_after(all.take(p), modes));
                            assert(duplicate_after(all.take(p + 1), modes) == duplicate_after(all.take(p), modes));
                            assert(auto_scale_after(all.take(p + 1), modes) == auto_scale_after(all.take(p), modes));
                            lemma_read_extend(
                                before.content.ingredients@,
                                self.content.ingredients@,
                                0,
                                lines_ingredients(all.take(p), modes),
                                st,
                                before.context.errors@,
                                self.context.errors@,
                            );
                            assert(lines_ingredients(all.take(p), modes) + st =~= lines_ingredients(all.take(p + 1), modes));
                            let sc = if tx {
                                Seq::<ast::Cookware>::empty()
                            } else {
                                ast_cookware(ast_items)
                            };
                            lemma_cookware_extend(
                                before.content.cookware@,
                                self.content.cookware@,
                                0,
                                lines_cookware(all.take(p), modes),
                                sc,
                            );
                            assert(lines_cookware(all.take(p), modes) + sc =~= lines_cookware(all.take(p + 1), modes));
                            let sz = if tx {
                                Seq::<ast::Timer>::empty()
                            } else {
                                ast_timers(ast_items)
                            };
                            lemma_timers_extend(before.content.timers@, self.content.timers@, 0, lines_timers(all.take(p), modes), sz);
                            assert(lines_timers(all.take(p), modes) + sz =~= lines_timers(all.take(p + 1), modes));
                        }
                    }
                    proof {
                        assert forall|k: ComponentKind| #[trigger] self.len_of(k) == lines_kind_count(
                            all.take(p + 1),
                            modes,
                            k,
                        ) by {
                            lemma_kind_count_shapes(new_step.items@, k);
                            lemma_kept_count(ast_items, before.define_mode == DefineMode::Components, new_step.is_text, k);
                            assert(define_after(all.take(p + 1), modes) == define_after(all.take(p), modes));
                            assert(lines_kind_count(all.take(p + 1), modes, k) == lines_kind_count(all.take(p), modes, k)
                                + if new_step.is_text {
                                0nat
                            } else {
                                ast_kind_count(ast_items, k)
                            });
                        }
                        lemma_steps_point_grow(
                            current.steps@,
                            before.content.ingredients@.len(),
                            before.content.cookware@.len(),
                            before.content.timers@.len(),
                            before.content.inline_quantities@.len(),
                            self.content.ingredients@.len(),
                            self.content.cookware@.len(),
                            self.content.timers@.len(),
                            self.content.inline_quantities@.len(),
                        );
                        assert forall|i: int| 0 <= i < self.content.sections@.len() implies steps_point_in(
                            (#[trigger] self.content.sections@[i]).steps@,
                            self.content.ingredients@.len(),
                            self.content.cookware@.len(),
                            self.content.timers@.len(),
                            self.content.inline_quantities@.len(),
                        ) by {
                            lemma_steps_point_grow(
                                self.content.sections@[i].steps@,
                                before.content.ingredients@.len(),
                                before.content.cookware@.len(),
                                before.content.timers@.len(),
                                before.content.inline_quantities@.len(),
                                self.content.ingredients@.len(),
                                self.content.cookware@.len(),
                                self.content.timers@.len(),
                                self.content.inline_quantities@.len(),
                            );
                        }
                    }
                    if self.define_mode != DefineMode::Components {
                        let ghost steps_before = current.steps@;
                        current.steps.push(new_step);
                        proof {
                            assert forall|s: int, k: int|
                                0 <= s < current.steps@.len() && 0 <= k < current.steps@[s].items@.len() implies item_points_in(
                                #[trigger] current.steps@[s].items@[k],
                                self.content.ingredients@.len(),
                                self.content.cookware@.len(),
                                self.content.timers@.len(),
                                self.content.inline_quantities@.len(),
                            ) by {
                                if s < steps_before.len() {
                                    assert(current.steps@[s] == steps_before[s]);
                                }
                            }
                        }
                    }
                },
                ast::Line::Section { name } => {
                    let name = match &name {
                        Some(t) => Some(t.text_trimmed()),
                        None => None,
                    };
                    if !current.is_empty() {
                        let ghost secs = self.content.sections@;
                        let mut finished = Section::new(name);
                        std::mem::swap(&mut finished, &mut current);
                        self.content.sections.push(finished);
                        proof {
                            assert forall|i: int| 0 <= i < self.content.sections@.len() implies steps_point_in(
                                (#[trigger] self.content.sections@[i]).steps@,
                                self.content.ingredients@.len(),
                                self.content.cookware@.len(),
                                self.content.timers@.len(),
                                self.content.inline_quantities@.len(),
                            ) by {
                                if i < secs.len() {
                                    assert(self.content.sections@[i] == secs[i]);
                                }
                            }
                        }
                    } else {
                        current = Section::new(name);
                    }
                    proof {
                        assert forall|k: ComponentKind| #[trigger] self.len_of(k) == lines_kind_count(
                            all.take(p + 1),
                            modes,
                            k,
                        ) by {
                            assert(self.len_of(k) == before.len_of(k));
                            assert(lines_kind_count(all.take(p + 1), modes, k) == lines_kind_count(all.take(p), modes, k));
                        }
                    }
                },
            }
        }
        proof {
            assert(all.take(all.len() as int) =~= all);
        }
        let ghost lists = *self;
        if !current.is_empty() {
            let ghost secs = self.content.sections@;
            self.content.sections.push(current);
            proof {
                assert forall|i: int| 0 <= i < self.content.sections@.len() implies steps_point_in(
                    (#[trigger] self.content.sections@[i]).steps@,
                    self.content.ingredients@.len(),
                    self.content.cookware@.len(),
                    self.content.timers@.len(),
                    self.content.inline_quantities@.len(),
                ) by {
                    if i < secs.len() {
                        assert(self.content.sections@[i] == secs[i]);
                    }
                }
            }
        }
        proof {
            assert forall|k: ComponentKind| #[trigger] self.len_of(k) == lines_kind_count(all, modes, k) by {
                assert(self.len_of(k) == lists.len_of(k));
            }
        }
    }

    /// Everything but the modes, the metadata, the servings span and the
    /// context is the same in both.
    spec fn same_for_metadata(&self, other: &Self) -> bool {
        &&& self.checker == other.checker
        &&& self.extensions == other.extensions
        &&& self.units == other.units
        &&& same_lists(self.content, other.content)
        &&& self.locations == other.locations
    }

    /// A metadata line. With the modes extension, a key `[name]` sets how
    /// the rest of the recipe is read: `[mode]` (or `[define]`),
    /// `[duplicate]` and `[auto scale]` (or `[auto_scale]`); another name
    /// is a warning and a value that the key does not know an error. Any
    /// other key goes to the metadata, and a value that does not fit its
    /// key is a warning.
    fn metadata(&mut self, key: &Text, value: &Text)
        ensures
            final(self).same_for_metadata(old(self)),
            ctx_extends(final(self).context, old(self).context),
            ({
                let k = trimmed(key.chars_spec());
                let v = trimmed(value.chars_spec());
                let o = *old(self);
                let n = *final(self);
                let ne = o.context.errors@.len();
                let nw = o.context.warnings@.len();
                &&& k == "servings"@ ==> (n.servings_span matches Some(sp) && sp.start_spec() == value.span_spec().0
                    && sp.end_spec() == crate::ast::clamp(value.span_spec().1))
                &&& k != "servings"@ ==> n.servings_span == o.servings_span
                &&& (o.extensions.has_bit(64) && special_key(k) is Some) ==> {
                    let sk = special_key(k)->0;
                    &&& n.content.metadata == o.content.metadata
                    &&& (sk == "define"@ || sk == "mode"@) ==> {
                        &&& n.duplicate_mode == o.duplicate_mode
                        &&& n.auto_scale_ingredients == o.auto_scale_ingredients
                        &&& n.context.warnings@ == o.context.warnings@
                        &&& define_mode_of(v) matches Some(m) ==> n.define_mode == m && n.context.errors@
                            == o.context.errors@
                        &&& define_mode_of(v) is None ==> n.define_mode == o.define_mode && n.context.errors@.len()
                            == ne + 1 && n.context.errors@.subrange(0, ne as int) == o.context.errors@
                            && is_invalid_special(
                            n.context.errors@[ne as int],
                            k,
                            v,
                            seq!["all"@, "components"@, "steps"@, "text"@],
                        )
                    }
                    &&& sk == "duplicate"@ ==> {
                        &&& n.define_mode == o.define_mode
                        &&& n.auto_scale_ingredients == o.auto_scale_ingredients
                        &&& n.context.warnings@ == o.context.warnings@
                        &&& duplicate_mode_of(v) matches Some(m) ==> n.duplicate_mode == m && n.context.errors@
                            == o.context.errors@
                        &&& duplicate_mode_of(v) is None ==> n.duplicate_mode == o.duplicate_mode
                            && n.context.errors@.len() == ne + 1 && n.context.errors@.subrange(0, ne as int)
                            == o.context.errors@ && is_invalid_special(
                            n.context.errors@[ne as int],
                            k,
                            v,
                            seq!["new"@, "reference"@],
                        )
                    }
                    &&& (sk == "auto scale"@ || sk == "auto_scale"@) ==> {
                        &&& n.define_mode == o.define_mode
                        &&& n.duplicate_mode == o.duplicate_mode
                        &&& n.context.warnings@ == o.context.warnings@
                        &&& auto_scale_of(v) matches Some(b) ==> n.auto_scale_ingredients == b && n.context.errors@
                            == o.context.errors@
                        &&& auto_scale_of(v) is None ==> n.auto_scale_ingredients == o.auto_scale_ingredients
                            && n.context.errors@.len() == ne + 1 && n.context.errors@.subrange(0, ne as int)
                            == o.context.errors@ && is_invalid_special(
                            n.context.errors@[ne as int],
                            k,
                            v,
                            seq!["true"@, "false"@],
                        )
                    }
                    &&& !(sk == "define"@ || sk == "mode"@ || sk == "duplicate"@ || sk == "auto scale"@ || sk
                        == "auto_scale"@) ==> {
                        &&& n.define_mode == o.define_mode
                        &&& n.duplicate_mode == o.duplicate_mode
                        &&& n.auto_scale_ingredients == o.auto_scale_ingredients
                        &&& n.context.errors@ == o.context.errors@
                        &&& n.context.warnings@.len() == nw + 1
                        &&& n.context.warnings@.subrange(0, nw as int) == o.context.warnings@
                        &&& (n.context.warnings@[nw as int] matches AnalysisWarning::UnknownSpecialMetadataKey {
                            key: lk,
                        } && lk.inner_spec()@ == k)
                    }
                }
                &&& !(o.extensions.has_bit(64) && special_key(k) is Some) ==> {
                    &&& n.define_mode == o.define_mode
                    &&& n.duplicate_mode == o.duplicate_mode
                    &&& n.auto_scale_ingredients == o.auto_scale_ingredients
                    &&& n.context.errors@ == o.context.errors@
                    &&& exists|r: Result<(), MetadataError>| #[trigger]
                        o.content.metadata.insert_spec(&n.content.metadata, k, v, r) && match r {
                            Ok(_) => n.context.warnings@ == o.context.warnings@,
                            Err(e) => n.context.warnings@.len() == nw + 1 && n.context.warnings@.subrange(
                                0,
                                nw as int,
                            ) == o.context.warnings@ && (n.context.warnings@[nw as int] matches AnalysisWarning::InvalidMetadataValue {
                                key: lk,
                                value: lv,
                                source,
                            } && lk.inner_spec()@ == k && lv.inner_spec()@ == v && source == e),
                        }
                }
            }),
    {
        let ghost o = *self;
        let key_t = key.text_trimmed();
        let value_t = value.text_trimmed();
        proof {
            crate::ast::lemma_trimmed(key.chars_spec(), key_t@);
            crate::ast::lemma_trimmed(value.chars_spec(), value_t@);
        }
        if str_eq(key_t.as_str(), "servings") {
            self.servings_span = Some(value.span());
        }
        let special = if self.extensions.contains(Extensions::modes()) {
            special_name(key_t.as_str())
        } else {
            None
        };
        proof {
            reveal_strlit("define");
            reveal_strlit("mode");
            reveal_strlit("duplicate");
            reveal_strlit("auto scale");
            reveal_strlit("auto_scale");
            assert("define"@.len() == 6 && "mode"@.len() == 4 && "duplicate"@.len() == 9);
            assert("auto scale"@.len() == 10 && "auto_scale"@.len() == 10);
        }
        match special {
            Some(sk) => {
                let sk = sk.as_str();
                let v = value_t.as_str();
                if str_eq(sk, "define") || str_eq(sk, "mode") {
                    if str_eq(v, "all") || str_eq(v, "default") {
                        self.define_mode = DefineMode::All;
                    } else if str_eq(v, "components") || str_eq(v, "ingredients") {
                        self.define_mode = DefineMode::Components;
                    } else if str_eq(v, "steps") {
                        self.define_mode = DefineMode::Steps;
                    } else if str_eq(v, "text") {
                        self.define_mode = DefineMode::Text;
                    } else {
                        let e = AnalysisError::InvalidSpecialMetadataValue {
                            key: located_trimmed(key),
                            value: located_trimmed(value),
                            possible_values: vec!["all", "components", "steps", "text"],
                        };
                        proof {
                            assert(crate::analysis::strs_view(seq!["all", "components", "steps", "text"]) =~= seq![
                                "all"@,
                                "components"@,
                                "steps"@,
                                "text"@,
                            ]);
                        }
                        self.context.error(e);
                    }
                } else if str_eq(sk, "duplicate") {
                    if str_eq(v, "new") || str_eq(v, "default") {
                        self.duplicate_mode = DuplicateMode::New;
                    } else if str_eq(v, "reference") || str_eq(v, "ref") {
                        self.duplicate_mode = DuplicateMode::Reference;
                    } else {
                        let e = AnalysisError::InvalidSpecialMetadataValue {
                            key: located_trimmed(key),
                            value: located_trimmed(value),
                            possible_values: vec!["new", "reference"],
                        };
                        proof {
                            assert(crate::analysis::strs_view(seq!["new", "reference"]) =~= seq![
                                "new"@,
                                "reference"@,
                            ]);
                        }
                        self.context.error(e);
                    }
                } else if str_eq(sk, "auto scale") || str_eq(sk, "auto_scale") {
                    if str_eq(v, "true") {
                        self.auto_scale_ingredients = true;
                    } else if str_eq(v, "false") || str_eq(v, "default") {
                        self.auto_scale_ingredients = false;
                    } else {
                        let e = AnalysisError::InvalidSpecialMetadataValue {
                            key: located_trimmed(key),
                            value: located_trimmed(value),
                            possible_values: vec!["true", "false"],
                        };
                        proof {
                            assert(crate::analysis::strs_view(seq!["true", "false"]) =~= seq!["true"@, "false"@]);
                        }
                        self.context.error(e);
                    }
                } else {
                    self.context.warn(AnalysisWarning::UnknownSpecialMetadataKey { key: located_trimmed(key) });
                }
            },
            None => {
                let _ = crate::ast::str_byte_len(value_t.as_str());
                let ghost before = self.content.metadata;
                match self.content.metadata.insert(key_t.as_str(), value_t.as_str()) {
                    Ok(()) => {
                        proof {
                            assert(before.insert_spec(&self.content.metadata, key_t@, value_t@, Ok(())));
                        }
                    },
                    Err(e) => {
                        let ghost r: Result<(), MetadataError> = Err(e);
                        proof {
                            assert(before.insert_spec(&self.content.metadata, key_t@, value_t@, r));
                        }
                        self.context.warn(
                            AnalysisWarning::InvalidMetadataValue {
                                key: located_trimmed(key),
                                value: located_trimmed(value),
                                source: e,
                            },
                        );
                    },
                }
            },
        }
    }
}

/// What the model `c` holds, built from the lines of a syntax tree (with
/// the modes extension when `modes`), with `errors` the errors found:
/// consistent and resolved references, components that point into its
/// lists, the metadata map of the metadata lines that are not special keys,
/// the sections that section lines open with the steps that follow them
/// (each step with its texts and the kinds of its components, in order),
/// and the ingredients, cookware and timers of the steps that are not
/// text, in order, each read as written.
pub open spec fn content_of(lines: Seq<ast::Line>, modes: bool, c: RecipeContent, errors: Seq<AnalysisError>) -> bool {
    &&& references_consistent(c.ingredients@)
    &&& references_resolved(c.ingredients@)
    &&& content_points_in(c)
    &&& crate::metadata::map_entries(c.metadata.map) == metadata_entries(lines, modes)
    &&& c.sections@.map_values(|s: Section| section_shape(s)) == section_shapes(lines, modes)
    &&& c.ingredients@.len() == lines_kind_count(lines, modes, ComponentKind::Ingredient)
    &&& c.cookware@.len() == lines_kind_count(lines, modes, ComponentKind::Cookware)
    &&& c.timers@.len() == lines_kind_count(lines, modes, ComponentKind::Timer)
    &&& read_from(c.ingredients@, 0, lines_ingredients(lines, modes), errors)
    &&& cookware_from(c.cookware@, 0, lines_cookware(lines, modes))
    &&& timers_from(c.timers@, 0, lines_timers(lines, modes))
}

/// What the analysis of the syntax tree `ast` with `extensions` gives: a
/// model that holds what [content_of] says, with its errors; no errors or
/// warnings for a tree without lines; and, without the modes extension and
/// without `&` in any step, no references.
pub open spec fn analysis_result(ast: ast::Ast, extensions: Extensions, r: crate::error::PassResult<
    RecipeContent,
    AnalysisError,
    AnalysisWarning,
>) -> bool {
    let modes = extensions.has_bit(64);
    &&& r.output_spec() matches Some(c) && content_of(ast.lines@, modes, c, r.errors_spec())
    &&& ast.lines@.len() == 0 ==> r.errors_spec().len() == 0 && r.warnings_spec().len() == 0
    &&& (!modes && !lines_mark_reference(ast.lines@)) ==> (r.output_spec() matches Some(c) && no_references(
        c.ingredients@,
    ))
}

/// Builds the model of a recipe from its syntax tree, with `units` as the
/// known units, and `checker`, when given, telling whether a recipe named
/// by a recipe ingredient exists (a warning when it says no). The model
/// always comes out, with the errors and warnings found; its references
/// between ingredients are consistent, every component of its steps points
/// into its lists, its metadata map holds the metadata lines that are not
/// special keys, and its sections are those that the section lines open,
/// with the steps that follow them. Without the modes extension its
/// ingredients are those of the steps that are not text, in order: each
/// has the name it is written with, is a reference only when written with
/// `&`, and, written with `&` and not `+`, refers to the last earlier
/// ingredient with its name, letter case aside, that is not a reference,
/// or, when there is none, to none, with an error that says so.
pub fn parse_ast_with_recipe_ref_checker<F: Fn(&str) -> bool>(
    ast: ast::Ast,
    extensions: Extensions,
    units: &UnitIndex,
    checker: Option<&F>,
) -> (r: crate::error::PassResult<RecipeContent, AnalysisError, AnalysisWarning>)
    requires
        checker matches Some(f) ==> forall|x: &str| f.requires((x,)),
    ensures
        analysis_result(ast, extensions, r),
{
    let mut walker = Walker {
        extensions,
        units,
        checker,
        content: RecipeContent {
            metadata: Metadata::default(),
            sections: Vec::new(),
            ingredients: Vec::new(),
            cookware: Vec::new(),
            timers: Vec::new(),
            inline_quantities: Vec::new(),
        },
        define_mode: DefineMode::All,
        duplicate_mode: DuplicateMode::New,
        auto_scale_ingredients: false,
        context: Context::new(),
        locations: Vec::new(),
        servings_span: None,
    };
    walker.walk(ast);
    proof {
        assert(walker.len_of(ComponentKind::Ingredient) == walker.content.ingredients@.len());
        assert(walker.len_of(ComponentKind::Cookware) == walker.content.cookware@.len());
        assert(walker.len_of(ComponentKind::Timer) == walker.content.timers@.len());
    }
    walker.context.finish(Some(walker.content))
}

/// [parse_ast_with_recipe_ref_checker] with no check of recipes.
pub fn parse_ast(ast: ast::Ast, extensions: Extensions, units: &UnitIndex) -> (r: crate::error::PassResult<
    RecipeContent,
    AnalysisError,
    AnalysisWarning,
>)
    ensures
        analysis_result(ast, extensions, r),
{
    let any = |_name: &str| -> (found: bool)
        ensures
            found,
        { true };
    let no_checker = if true {
        None
    } else {
        Some(&any)
    };
    parse_ast_with_recipe_ref_checker(ast, extensions, units, no_checker)
}

} // verus!
