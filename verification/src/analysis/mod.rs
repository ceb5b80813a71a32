//! Turns the syntax tree of a recipe into its model: the lists of
//! ingredients, cookware and timers, with references between ingredients
//! resolved, and the steps that point into them.
use vstd::prelude::*;

use crate::ast::Modifiers;
use crate::convert::PhysicalQuantity;
use crate::located::Located;
use crate::metadata::MetadataError;
use crate::parser::{bare, labels_view, opt_view, with_message};
use crate::quantity::IncompatibleUnits;
use crate::error::Report;
use crate::extensions::Extensions;
use crate::model::{ComponentKind, RecipeContent};
use crate::span::Span;

pub mod ast_walker;

verus! {

/// Errors found while analysing a recipe.
#[derive(Debug)]
pub enum AnalysisError {
    /// "Invalid value for '{key}': {value}"
    InvalidSpecialMetadataValue { key: Located<String>, value: Located<String>, possible_values: Vec<&'static str> },
    /// "Reference not found: {name}"
    ReferenceNotFound { name: String, reference_span: Span },
    /// "Conflicting ingredient reference quantities: {ingredient_name}"
    ConflictingReferenceQuantities { ingredient_name: String, definition_span: Span, reference_span: Span },
    /// "Unknown timer unit: {unit}"
    UnknownTimerUnit { unit: String, timer_span: Span },
    /// "Bad timer unit. Expecting time, got: {physical_quantity}"
    BadTimerUnit { unit: String, physical_quantity: PhysicalQuantity, timer_span: Span },
    /// The modifiers of a reference include new, hidden or optional.
    ConflictingModifiers { modifiers: Located<Modifiers> },
    /// "Quantity scaling error": a quantity with many values does not
    /// match the servings of the recipe; `servings` is how many the
    /// metadata declares, if it declares them.
    ScalableValueManyConflict {
        servings: Option<usize>,
        values: usize,
        value_span: Span,
        servings_meta_span: Option<Span>,
    },
}

/// Warnings found while analysing a recipe.
#[derive(Debug)]
pub enum AnalysisWarning {
    /// "Ignoring unknown special metadata key: {key}"
    UnknownSpecialMetadataKey { key: Located<String> },
    /// "Ignoring text in define ingredients mode"
    TextDefiningIngredients { text_span: Span },
    /// "Text value in reference prevents calculating total amount"
    TextValueInReference { quantity_span: Span },
    /// "Incompatible units in reference prevents calculating total amount"
    IncompatibleUnits { a: Span, b: Span, source: IncompatibleUnits },
    /// "Invalid value for key: {key}. Treating it as a regular metadata key."
    InvalidMetadataValue { key: Located<String>, value: Located<String>, source: MetadataError },
    /// "Component found in text mode"
    ComponentInTextMode { component_span: Span },
    /// "Redundant auto scale marker"
    RedundantAutoScaleMarker { quantity_span: Span },
    /// No recipe is known by the name of a recipe ingredient.
    RecipeNotFound { ref_span: Span, name: String },
    /// The reference modifier is written where every ingredient with a
    /// known name is a reference anyway.
    RedundantReferenceModifier { modifiers: Located<Modifiers> },
    /// The reference refers to a recipe ingredient without the recipe
    /// modifier.
    ReferenceToRecipeMissing { modifiers: Located<Modifiers>, ingredient_span: Span, referenced_span: Span },
}

/// The possible values, each in quotes, between commas.
pub open spec fn quoted_list(vs: Seq<Seq<char>>) -> Seq<char>
    decreases vs.len(),
{
    if vs.len() == 0 {
        Seq::empty()
    } else if vs.len() == 1 {
        "\""@ + vs[0] + "\""@
    } else {
        quoted_list(vs.drop_last()) + ", \""@ + vs.last() + "\""@
    }
}

/// The characters of each string.
pub open spec fn strs_view(vs: Seq<&'static str>) -> Seq<Seq<char>> {
    vs.map_values(|v: &'static str| v@)
}

/// Two labels, in order.
fn two_labels(a: (Span, Option<String>), b: (Span, Option<String>)) -> (r: Vec<(Span, Option<String>)>)
    ensures
        labels_view(r@) == seq![(a.0, opt_view(a.1)), (b.0, opt_view(b.1))],
{
    let ghost (sa, ma) = (a.0, opt_view(a.1));
    let ghost (sb, mb) = (b.0, opt_view(b.1));
    let mut v = Vec::new();
    v.push(a);
    v.push(b);
    proof {
        assert(labels_view(v@) =~= seq![(sa, ma), (sb, mb)]);
    }
    v
}

/// "Possible values are: " and the values as a list.
fn possible_values_help(vs: &Vec<&'static str>) -> (r: String)
    ensures
        r@ == "Possible values are: ["@ + quoted_list(strs_view(vs@)) + "]"@,
{
    let mut list = String::new();
    let mut i: usize = 0;
    while i < vs.len()
        invariant
            0 <= i <= vs@.len(),
            list@ == quoted_list(strs_view(vs@.take(i as int))),
        decreases vs@.len() - i,
    {
        proof {
            assert(strs_view(vs@.take(i + 1)).drop_last() =~= strs_view(vs@.take(i as int)));
            assert(strs_view(vs@.take(i + 1)).last() == vs@[i as int]@);
        }
        if i == 0 {
            list.append("\"");
        } else {
            list.append(", \"");
        }
        list.append(vs[i]);
        list.append("\"");
        proof {
            if i == 0 {
                assert(quoted_list(strs_view(vs@.take(0))) =~= Seq::<char>::empty());
                assert(list@ =~= "\""@ + vs@[0]@ + "\""@);
            }
        }
        i = i + 1;
    }
    proof {
        assert(vs@.take(i as int) =~= vs@);
    }
    let mut r = "Possible values are: [".to_owned();
    r.append(list.as_str());
    r.append("]");
    r
}

impl AnalysisError {
    /// The spans that the error points at, with their messages.
    pub open spec fn labels_spec(&self) -> Seq<(Span, Option<Seq<char>>)> {
        match self {
            AnalysisError::InvalidSpecialMetadataValue { key, value, .. } => seq![
                (key.span_spec(), Some("this key"@)),
                (value.span_spec(), Some("does not support this value"@)),
            ],
            AnalysisError::ReferenceNotFound { reference_span, .. } => seq![(*reference_span, None)],
            AnalysisError::ConflictingReferenceQuantities { definition_span, reference_span, .. } => seq![
                (*definition_span, Some("defined outside step here"@)),
                (*reference_span, Some("referenced here"@)),
            ],
            AnalysisError::UnknownTimerUnit { timer_span, .. } => seq![(*timer_span, None)],
            AnalysisError::BadTimerUnit { timer_span, .. } => seq![(*timer_span, None)],
            AnalysisError::ConflictingModifiers { modifiers } => seq![(modifiers.span_spec(), None)],
            AnalysisError::ScalableValueManyConflict { value_span, servings_meta_span, .. } => match servings_meta_span {
                Some(s) => seq![(*value_span, None), (*s, None)],
                None => seq![(*value_span, None)],
            },
        }
    }

    /// The spans that the error points at, with their messages.
    pub fn labels(&self) -> (r: Vec<(Span, Option<String>)>)
        ensures
            labels_view(r@) == self.labels_spec(),
    {
        match self {
            AnalysisError::InvalidSpecialMetadataValue { key, value, .. } => {
                let a = key.span();
                let b = value.span();
                proof {
                    Span::lemma_eq(a, key.span_spec());
                    Span::lemma_eq(b, value.span_spec());
                }
                two_labels((a, Some("this key".to_owned())), (b, Some("does not support this value".to_owned())))
            },
            AnalysisError::ReferenceNotFound { reference_span, .. } => bare(*reference_span),
            AnalysisError::ConflictingReferenceQuantities { definition_span, reference_span, .. } => two_labels(
                (*definition_span, Some("defined outside step here".to_owned())),
                (*reference_span, Some("referenced here".to_owned())),
            ),
            AnalysisError::UnknownTimerUnit { timer_span, .. } => bare(*timer_span),
            AnalysisError::BadTimerUnit { timer_span, .. } => bare(*timer_span),
            AnalysisError::ConflictingModifiers { modifiers } => {
                let s = modifiers.span();
                proof {
                    Span::lemma_eq(s, modifiers.span_spec());
                }
                bare(s)
            },
            AnalysisError::ScalableValueManyConflict { value_span, servings_meta_span, .. } => match servings_meta_span {
                Some(s) => two_labels((*value_span, None), (*s, None)),
                None => bare(*value_span),
            },
        }
    }

    /// A hint on how to fix the error, when there is one.
    pub open spec fn help_spec(&self) -> Option<Seq<char>> {
        match self {
            AnalysisError::InvalidSpecialMetadataValue { possible_values, .. } => Some(
                "Possible values are: ["@ + quoted_list(strs_view(possible_values@)) + "]"@,
            ),
            AnalysisError::ReferenceNotFound { .. } => Some(
                "A non reference ingredient with the same name defined before cannot be found"@,
            ),
            AnalysisError::ConflictingReferenceQuantities { .. } => Some(
                "If the ingredient is not defined in a step, its references cannot have a quantity"@,
            ),
            AnalysisError::UnknownTimerUnit { .. } => Some(
                "With the ADVANCED_UNITS extensions, timers are required to have a time unit"@,
            ),
            _ => None,
        }
    }

    /// A hint on how to fix the error, when there is one.
    pub fn help(&self) -> (r: Option<String>)
        ensures
            opt_view(r) == self.help_spec(),
    {
        match self {
            AnalysisError::InvalidSpecialMetadataValue { possible_values, .. } => Some(
                possible_values_help(possible_values),
            ),
            AnalysisError::ReferenceNotFound { .. } => Some(
                "A non reference ingredient with the same name defined before cannot be found".to_owned(),
            ),
            AnalysisError::ConflictingReferenceQuantities { .. } => Some(
                "If the ingredient is not defined in a step, its references cannot have a quantity".to_owned(),
            ),
            AnalysisError::UnknownTimerUnit { .. } => Some(
                "With the ADVANCED_UNITS extensions, timers are required to have a time unit".to_owned(),
            ),
            _ => None,
        }
    }

    /// The code of the pass that found the error.
    pub fn code(&self) -> (r: Option<&'static str>)
        ensures
            crate::parser::opt_str_view(r) == Some("analysis"@),
    {
        Some("analysis")
    }
}

impl AnalysisWarning {
    /// The spans that the warning points at, with their messages.
    pub open spec fn labels_spec(&self) -> Seq<(Span, Option<Seq<char>>)> {
        match self {
            AnalysisWarning::UnknownSpecialMetadataKey { key } => seq![(key.span_spec(), None)],
            AnalysisWarning::TextDefiningIngredients { text_span } => seq![(*text_span, None)],
            AnalysisWarning::TextValueInReference { quantity_span } => seq![(*quantity_span, None)],
            AnalysisWarning::IncompatibleUnits { a, b, .. } => seq![(*a, None), (*b, None)],
            AnalysisWarning::InvalidMetadataValue { key, value, .. } => seq![
                (key.span_spec(), Some("this key"@)),
                (value.span_spec(), Some("does not understand this value"@)),
            ],
            AnalysisWarning::ComponentInTextMode { component_span } => seq![
                (*component_span, Some("this will be ignored"@)),
            ],
            AnalysisWarning::RedundantAutoScaleMarker { quantity_span } => seq![(*quantity_span, None)],
            AnalysisWarning::RecipeNotFound { ref_span, .. } => seq![(*ref_span, None)],
            AnalysisWarning::RedundantReferenceModifier { modifiers } => seq![(modifiers.span_spec(), None)],
            AnalysisWarning::ReferenceToRecipeMissing { ingredient_span, referenced_span, .. } => seq![
                (*ingredient_span, None),
                (*referenced_span, None),
            ],
        }
    }

    /// The spans that the warning points at, with their messages.
    pub fn labels(&self) -> (r: Vec<(Span, Option<String>)>)
        ensures
            labels_view(r@) == self.labels_spec(),
    {
        match self {
            AnalysisWarning::UnknownSpecialMetadataKey { key } => {
                let s = key.span();
                proof {
                    Span::lemma_eq(s, key.span_spec());
                }
                bare(s)
            },
            AnalysisWarning::TextDefiningIngredients { text_span } => bare(*text_span),
            AnalysisWarning::TextValueInReference { quantity_span } => bare(*quantity_span),
            AnalysisWarning::IncompatibleUnits { a, b, .. } => two_labels((*a, None), (*b, None)),
            AnalysisWarning::InvalidMetadataValue { key, value, .. } => {
                let a = key.span();
                let b = value.span();
                proof {
                    Span::lemma_eq(a, key.span_spec());
                    Span::lemma_eq(b, value.span_spec());
                }
                two_labels((a, Some("this key".to_owned())), (b, Some("does not understand this value".to_owned())))
            },
            AnalysisWarning::ComponentInTextMode { component_span } => with_message(
                *component_span,
                "this will be ignored".to_owned(),
            ),
            AnalysisWarning::RedundantAutoScaleMarker { quantity_span } => bare(*quantity_span),
            AnalysisWarning::RecipeNotFound { ref_span, .. } => bare(*ref_span),
            AnalysisWarning::RedundantReferenceModifier { modifiers } => {
                let s = modifiers.span();
                proof {
                    Span::lemma_eq(s, modifiers.span_spec());
                }
                bare(s)
            },
            AnalysisWarning::ReferenceToRecipeMissing { ingredient_span, referenced_span, .. } => two_labels(
                (*ingredient_span, None),
                (*referenced_span, None),
            ),
        }
    }

    /// A hint on how to fix the warning, when there is one.
    pub open spec fn help_spec(&self) -> Option<Seq<char>> {
        match self {
            AnalysisWarning::UnknownSpecialMetadataKey { .. } => Some(
                "Possible values are 'duplicate' and 'reference'"@,
            ),
            AnalysisWarning::InvalidMetadataValue { .. } => Some(
                "Rich information for this metadata will not be available"@,
            ),
            AnalysisWarning::RedundantAutoScaleMarker { .. } => Some(
                "Be careful as every ingredient is already marked to auto scale"@,
            ),
            _ => None,
        }
    }

    /// A hint on how to fix the warning, when there is one.
    pub fn help(&self) -> (r: Option<String>)
        ensures
            opt_view(r) == self.help_spec(),
    {
        match self {
            AnalysisWarning::UnknownSpecialMetadataKey { .. } => Some(
                "Possible values are 'duplicate' and 'reference'".to_owned(),
            ),
            AnalysisWarning::InvalidMetadataValue { .. } => Some(
                "Rich information for this metadata will not be available".to_owned(),
            ),
            AnalysisWarning::RedundantAutoScaleMarker { .. } => Some(
                "Be careful as every ingredient is already marked to auto scale".to_owned(),
            ),
            _ => None,
        }
    }

    /// The code of the pass that found the warning.
    pub fn code(&self) -> (r: Option<&'static str>)
        ensures
            crate::parser::opt_str_view(r) == Some("analysis"@),
    {
        Some("analysis")
    }
}

/// The errors and warnings of an analysis.
pub type AnalysisReport = Report<AnalysisError, AnalysisWarning>;

/// Analyses a syntax tree: the model and its warnings, or the report when
/// there are errors, or warnings that count as errors.
pub fn analyze_ast(
    ast: crate::ast::Ast,
    extensions: Extensions,
    units: &crate::convert::UnitIndex,
    warnings_as_errors: bool,
) -> (r: Result<(RecipeContent, Vec<AnalysisWarning>), AnalysisReport>)
    ensures
        r matches Ok((c, _)) ==> ast_walker::references_consistent(c.ingredients@) && ast_walker::references_resolved(
            c.ingredients@,
        ) && ast_walker::content_points_in(c)
            && crate::metadata::map_entries(c.metadata.map) == ast_walker::metadata_entries(
            ast.lines@,
            extensions.has_bit(64),
        ) && c.sections@.map_values(|s: crate::model::Section| ast_walker::section_shape(s))
            == ast_walker::section_shapes(ast.lines@, extensions.has_bit(64)) && c.ingredients@.len()
            == ast_walker::lines_kind_count(ast.lines@, extensions.has_bit(64), ComponentKind::Ingredient)
            && c.cookware@.len() == ast_walker::lines_kind_count(
            ast.lines@,
            extensions.has_bit(64),
            ComponentKind::Cookware,
        ) && c.timers@.len() == ast_walker::lines_kind_count(ast.lines@, extensions.has_bit(64), ComponentKind::Timer),
        r matches Ok((_, w)) ==> !warnings_as_errors || w@.len() == 0,
        r matches Err(report) ==> report.errors_spec().len() > 0 || (warnings_as_errors
            && report.warnings_spec().len() > 0),
{
    let result = ast_walker::parse_ast(ast, extensions, units);
    let (output, warnings, errors) = result.into_tuple();
    if errors.len() > 0 || (warnings_as_errors && warnings.len() > 0) {
        return Err(Report::new(errors, warnings));
    }
    match output {
        Some(content) => Ok((content, warnings)),
        None => Err(Report::new(errors, warnings)),
    }
}

} // verus!
