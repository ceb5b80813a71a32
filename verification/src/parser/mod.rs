//! Turns tokens into the abstract syntax tree of a recipe.
use vstd::prelude::*;

use crate::located::Located;
use crate::span::Span;

pub mod metadata;
pub mod parser;
pub mod quantity;
pub mod section;
pub mod step;
pub mod token_stream;

verus! {

/// Errors found while parsing.
#[derive(Debug)]
pub enum ParserError {
    /// "Error parsing input: {message}"
    Parse { span: Span, message: String },
    /// "A {container} is missing: {what}"
    ComponentPartMissing { container: &'static str, what: &'static str, expected_pos: Span },
    /// "A {container} cannot have: {what}"
    ComponentPartNotAllowed {
        container: &'static str,
        what: &'static str,
        to_remove: Span,
        help: Option<&'static str>,
    },
    /// "Invalid {container} {what}: {reason}"
    ComponentPartInvalid {
        container: &'static str,
        what: &'static str,
        reason: &'static str,
        labels: Vec<(Span, Option<String>)>,
        help: Option<&'static str>,
    },
    /// "Tried to use a disabled extension: {extension_name}"
    ExtensionNotEnabled { span: Span, extension_name: &'static str },
    /// "Invalid ingredient modifiers: {reason}"
    InvalidModifiers { modifiers_span: Span, reason: String, help: Option<&'static str> },
    /// "Error parsing integer number"
    ParseInt { bad_bit: Span },
    /// "Error parsing decimal number"
    ParseFloat { bad_bit: Span },
    /// "Division by zero"
    DivisionByZero { bad_bit: Span },
    /// "Quantity scaling conflict"
    QuantityScalingConflict { bad_bit: Span },
}

/// Warnings found while parsing.
#[derive(Debug)]
pub enum ParserWarning {
    /// "Empty metadata value for key: {key}"
    EmptyMetadataValue { key: Located<String> },
    /// "A {container} cannot have {what}, it will be ignored"
    ComponentPartIgnored { container: &'static str, what: &'static str, ignored: Span, help: Option<&'static str> },
}

/// An error "Invalid {container} {what}: {reason}".
pub open spec fn is_part_invalid(e: ParserError, container: Seq<char>, what: Seq<char>, reason: Seq<char>) -> bool {
    match e {
        ParserError::ComponentPartInvalid { container: c, what: w, reason: r, .. } => {
            c@ == container && w@ == what && r@ == reason
        },
        _ => false,
    }
}

/// An error "A {container} cannot have: {what}".
pub open spec fn is_part_not_allowed_at(e: ParserError, container: Seq<char>, what: Seq<char>) -> bool {
    match e {
        ParserError::ComponentPartNotAllowed { container: c, what: w, .. } => c@ == container && w@ == what,
        _ => false,
    }
}

/// An error "A {container} is missing: {what}".
pub open spec fn is_part_missing_at(e: ParserError, container: Seq<char>, what: Seq<char>) -> bool {
    match e {
        ParserError::ComponentPartMissing { container: c, what: w, .. } => c@ == container && w@ == what,
        _ => false,
    }
}

/// The characters of the labels of an error: spans and messages.
pub open spec fn labels_view(ls: Seq<(Span, Option<String>)>) -> Seq<(Span, Option<Seq<char>>)> {
    ls.map_values(|l: (Span, Option<String>)| (l.0, opt_view(l.1)))
}

/// The characters of an optional string.
pub open spec fn opt_view(s: Option<String>) -> Option<Seq<char>> {
    match s {
        Some(s) => Some(s@),
        None => None,
    }
}

/// The characters of an optional string.
pub open spec fn opt_str_view(s: Option<&str>) -> Option<Seq<char>> {
    match s {
        Some(s) => Some(s@),
        None => None,
    }
}

/// A label without a message.
pub(crate) fn bare(span: Span) -> (r: Vec<(Span, Option<String>)>)
    ensures
        labels_view(r@) == seq![(span, None::<Seq<char>>)],
{
    let mut v = Vec::new();
    v.push((span, None));
    proof {
        assert(labels_view(v@) =~= seq![(span, None::<Seq<char>>)]);
    }
    v
}

/// A label with a message.
pub(crate) fn with_message(span: Span, message: String) -> (r: Vec<(Span, Option<String>)>)
    ensures
        labels_view(r@) == seq![(span, Some(message@))],
{
    let ghost m = message@;
    let mut v = Vec::new();
    v.push((span, Some(message)));
    proof {
        assert(labels_view(v@) =~= seq![(span, Some(m))]);
    }
    v
}

/// An owned copy of an optional message.
pub(crate) fn own(s: Option<&'static str>) -> (r: Option<String>)
    ensures
        opt_view(r) == opt_str_view(s),
{
    match s {
        Some(s) => Some(s.to_owned()),
        None => None,
    }
}

impl ParserError {
    /// The spans that the error points at, with their messages.
    pub open spec fn labels_spec(&self) -> Seq<(Span, Option<Seq<char>>)> {
        match self {
            ParserError::Parse { span, .. } => seq![(*span, None)],
            ParserError::ComponentPartMissing { expected_pos, what, .. } => seq![
                (*expected_pos, Some("expected "@ + what@)),
            ],
            ParserError::ComponentPartNotAllowed { to_remove, .. } => seq![(*to_remove, Some("remove this"@))],
            ParserError::ComponentPartInvalid { labels, .. } => labels_view(labels@),
            ParserError::ExtensionNotEnabled { span, .. } => seq![(*span, Some("used here"@))],
            ParserError::InvalidModifiers { modifiers_span, .. } => seq![(*modifiers_span, None)],
            ParserError::ParseInt { bad_bit } => seq![(*bad_bit, None)],
            ParserError::ParseFloat { bad_bit } => seq![(*bad_bit, None)],
            ParserError::DivisionByZero { bad_bit } => seq![(*bad_bit, None)],
            ParserError::QuantityScalingConflict { bad_bit } => seq![(*bad_bit, None)],
        }
    }

    /// The spans that the error points at, with their messages.
    pub fn labels(&self) -> (r: Vec<(Span, Option<String>)>)
        ensures
            labels_view(r@) == self.labels_spec(),
    {
        match self {
            ParserError::Parse { span, .. } => bare(*span),
            ParserError::ComponentPartMissing { expected_pos, what, .. } => {
                let mut m = "expected ".to_owned();
                m.append(what);
                with_message(*expected_pos, m)
            },
            ParserError::ComponentPartNotAllowed { to_remove, .. } => with_message(*to_remove, "remove this".to_owned()),
            ParserError::ComponentPartInvalid { labels, .. } => {
                let mut v: Vec<(Span, Option<String>)> = Vec::new();
                let mut i: usize = 0;
                while i < labels.len()
                    invariant
                        0 <= i <= labels@.len(),
                        labels_view(v@) == labels_view(labels@.take(i as int)),
                    decreases labels@.len() - i,
                {
                    let span = labels[i].0;
                    let m = match &labels[i].1 {
                        Some(m) => Some(m.clone()),
                        None => None,
                    };
                    let ghost before = v@;
                    v.push((span, m));
                    proof {
                        assert(opt_view(m) == opt_view(labels@[i as int].1));
                        assert(labels@.take(i + 1) =~= labels@.take(i as int).push(labels@[i as int]));
                        assert(labels_view(v@) =~= labels_view(before).push((span, opt_view(m))));
                        assert(labels_view(labels@.take(i + 1)) =~= labels_view(labels@.take(i as int)).push(
                            (labels@[i as int].0, opt_view(labels@[i as int].1)),
                        ));
                    }
                    i = i + 1;
                }
                proof {
                    assert(labels@.take(i as int) =~= labels@);
                }
                v
            },
            ParserError::ExtensionNotEnabled { span, .. } => with_message(*span, "used here".to_owned()),
            ParserError::InvalidModifiers { modifiers_span, .. } => bare(*modifiers_span),
            ParserError::ParseInt { bad_bit } => bare(*bad_bit),
            ParserError::ParseFloat { bad_bit } => bare(*bad_bit),
            ParserError::DivisionByZero { bad_bit } => bare(*bad_bit),
            ParserError::QuantityScalingConflict { bad_bit } => bare(*bad_bit),
        }
    }

    /// A hint on how to fix the error, when there is one.
    pub open spec fn help_spec(&self) -> Option<Seq<char>> {
        match self {
            ParserError::ComponentPartNotAllowed { help, .. } => opt_str_view(*help),
            ParserError::ExtensionNotEnabled { extension_name, .. } => Some(
                "Remove the usage or enable the "@ + extension_name@ + " extension"@,
            ),
            ParserError::InvalidModifiers { help, .. } => opt_str_view(*help),
            ParserError::DivisionByZero { .. } => Some("Change this please, we don't want an infinite amount of anything"@),
            ParserError::QuantityScalingConflict { .. } => Some(
                "A quantity cannot have the auto scaling marker (*) and have fixed values at the same time"@,
            ),
            _ => None,
        }
    }

    /// A hint on how to fix the error, when there is one.
    pub fn help(&self) -> (r: Option<String>)
        ensures
            opt_view(r) == self.help_spec(),
    {
        match self {
            ParserError::ComponentPartNotAllowed { help, .. } => own(*help),
            ParserError::ExtensionNotEnabled { extension_name, .. } => {
                let mut m = "Remove the usage or enable the ".to_owned();
                m.append(extension_name);
                m.append(" extension");
                Some(m)
            },
            ParserError::InvalidModifiers { help, .. } => own(*help),
            ParserError::DivisionByZero { .. } => Some(
                "Change this please, we don't want an infinite amount of anything".to_owned(),
            ),
            ParserError::QuantityScalingConflict { .. } => Some(
                "A quantity cannot have the auto scaling marker (*) and have fixed values at the same time".to_owned(),
            ),
            _ => None,
        }
    }

    /// The code of the pass that found the error.
    pub fn code(&self) -> (r: Option<&'static str>)
        ensures
            opt_str_view(r) == Some("parser"@),
    {
        Some("parser")
    }
}

impl ParserWarning {
    /// The spans that the warning points at, with their messages.
    pub open spec fn labels_spec(&self) -> Seq<(Span, Option<Seq<char>>)> {
        match self {
            ParserWarning::EmptyMetadataValue { key } => seq![(key.span_spec(), None)],
            ParserWarning::ComponentPartIgnored { ignored, .. } => seq![(*ignored, Some("this is ignored"@))],
        }
    }

    /// The spans that the warning points at, with their messages.
    pub fn labels(&self) -> (r: Vec<(Span, Option<String>)>)
        ensures
            labels_view(r@) == self.labels_spec(),
    {
        match self {
            ParserWarning::EmptyMetadataValue { key } => {
                let s = key.span();
                proof {
                    Span::lemma_eq(s, key.span_spec());
                }
                bare(s)
            },
            ParserWarning::ComponentPartIgnored { ignored, .. } => with_message(*ignored, "this is ignored".to_owned()),
        }
    }

    /// The code of the pass that found the warning.
    pub fn code(&self) -> (r: Option<&'static str>)
        ensures
            opt_str_view(r) == Some("parser"@),
    {
        Some("parser")
    }
}

} // verus!
