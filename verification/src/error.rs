//! The result of a pass: an output, if any, with its errors and warnings,
//! and the errors and warnings of the whole library.
use vstd::prelude::*;

use crate::analysis::{AnalysisError, AnalysisWarning};
use crate::parser::{labels_view, opt_str_view, opt_view, ParserError, ParserWarning};
use crate::span::Span;

verus! {

/// The errors and warnings of a pass.
#[derive(Debug, Clone)]
pub struct Report<E, W> {
    pub(crate) errors: Vec<E>,
    pub(crate) warnings: Vec<W>,
}

impl<E, W> Report<E, W> {
    /// The errors, in order.
    pub closed spec fn errors_spec(&self) -> Seq<E> {
        self.errors@
    }

    /// The warnings, in order.
    pub closed spec fn warnings_spec(&self) -> Seq<W> {
        self.warnings@
    }

    /// A report with the given errors and warnings.
    pub fn new(errors: Vec<E>, warnings: Vec<W>) -> (r: Self)
        ensures
            r.errors_spec() == errors@,
            r.warnings_spec() == warnings@,
    {
        Self { errors, warnings }
    }

    /// A report with one error.
    pub fn from_err(error: E) -> (r: Self)
        ensures
            r.errors_spec() == seq![error],
            r.warnings_spec() == Seq::<W>::empty(),
    {
        let mut errors = Vec::new();
        errors.push(error);
        Self { errors, warnings: Vec::new() }
    }

    /// A report with one warning.
    pub fn from_warning(warning: W) -> (r: Self)
        ensures
            r.errors_spec() == Seq::<E>::empty(),
            r.warnings_spec() == seq![warning],
    {
        let mut warnings = Vec::new();
        warnings.push(warning);
        Self { errors: Vec::new(), warnings }
    }

    /// Converts the errors and warnings of `other`, one by one and in order.
    pub fn from_report<E2, W2>(other: Report<E2, W2>) -> (r: Self)
        where
            E2: Into<E>,
            W2: Into<W>,
        ensures
            r.errors_spec().len() == other.errors_spec().len(),
            forall|k: int| 0 <= k < r.errors_spec().len() ==> call_ensures(E2::into, (other.errors_spec()[k],), #[trigger] r.errors_spec()[k]),
            r.warnings_spec().len() == other.warnings_spec().len(),
            forall|k: int| 0 <= k < r.warnings_spec().len() ==> call_ensures(W2::into, (other.warnings_spec()[k],), #[trigger] r.warnings_spec()[k]),
    {
        Self { errors: convert_all(other.errors), warnings: convert_all(other.warnings) }
    }

    /// Whether there is any error.
    pub fn has_errors(&self) -> (r: bool)
        ensures
            r == (self.errors_spec().len() > 0),
    {
        !self.errors.is_empty()
    }

    /// Whether there is any warning.
    pub fn has_warnings(&self) -> (r: bool)
        ensures
            r == (self.warnings_spec().len() > 0),
    {
        !self.warnings.is_empty()
    }

    /// Whether there are no errors and no warnings.
    pub fn is_empty(&self) -> (r: bool)
        ensures
            r == (self.errors_spec().len() == 0 && self.warnings_spec().len() == 0),
    {
        self.errors.is_empty() && self.warnings.is_empty()
    }
}

/// Converts each element of `v` with `Into`, in order.
fn convert_all<A: Into<B>, B>(v: Vec<A>) -> (r: Vec<B>)
    ensures
        r@.len() == v@.len(),
        forall|k: int| 0 <= k < r@.len() ==> call_ensures(A::into, (v@[k],), #[trigger] r@[k]),
{
    let ghost orig = v@;
    let mut v = v;
    let mut rev: Vec<B> = Vec::new();
    while v.len() > 0
        invariant
            v@.len() + rev@.len() == orig.len(),
            v@ == orig.take(v@.len() as int),
            forall|k: int| 0 <= k < rev@.len() ==> call_ensures(A::into, (orig[orig.len() - 1 - k],), #[trigger] rev@[k]),
        decreases v@.len(),
    {
        let a = v.pop().unwrap();
        let b = a.into();
        rev.push(b);
    }
    let mut r: Vec<B> = Vec::new();
    while rev.len() > 0
        invariant
            rev@.len() + r@.len() == orig.len(),
            forall|k: int| 0 <= k < rev@.len() ==> call_ensures(A::into, (orig[orig.len() - 1 - k],), #[trigger] rev@[k]),
            forall|k: int| 0 <= k < r@.len() ==> call_ensures(A::into, (orig[k],), #[trigger] r@[k]),
        decreases rev@.len(),
    {
        let b = rev.pop().unwrap();
        r.push(b);
    }
    r
}

/// The result of a pass: an output, if any, with the warnings and errors found.
#[derive(Debug)]
pub struct PassResult<T, E, W> {
    output: Option<T>,
    warnings: Vec<W>,
    errors: Vec<E>,
}

impl<T, E, W> PassResult<T, E, W> {
    /// The output.
    pub closed spec fn output_spec(&self) -> Option<T> {
        self.output
    }

    /// The warnings, in order.
    pub closed spec fn warnings_spec(&self) -> Seq<W> {
        self.warnings@
    }

    /// The errors, in order.
    pub closed spec fn errors_spec(&self) -> Seq<E> {
        self.errors@
    }

    /// A result with the given parts.
    pub fn new(output: Option<T>, warnings: Vec<W>, errors: Vec<E>) -> (r: Self)
        ensures
            r.output_spec() == output,
            r.warnings_spec() == warnings@,
            r.errors_spec() == errors@,
    {
        Self { output, warnings, errors }
    }

    /// A result with no output and one error.
    pub fn from_error(error: E) -> (r: Self)
        ensures
            r.output_spec().is_none(),
            r.warnings_spec() == Seq::<W>::empty(),
            r.errors_spec() == seq![error],
    {
        let mut errors = Vec::new();
        errors.push(error);
        Self { output: None, warnings: Vec::new(), errors }
    }

    /// Whether there is an output.
    pub fn has_output(&self) -> (r: bool)
        ensures
            r == self.output_spec().is_some(),
    {
        self.output.is_some()
    }

    /// Whether there is any error.
    pub fn has_errors(&self) -> (r: bool)
        ensures
            r == (self.errors_spec().len() > 0),
    {
        !self.errors.is_empty()
    }

    /// Whether there is any warning.
    pub fn has_warnings(&self) -> (r: bool)
        ensures
            r == (self.warnings_spec().len() > 0),
    {
        !self.warnings.is_empty()
    }

    /// Whether the output cannot be used: there are errors or there is no output.
    pub fn invalid(&self) -> (r: bool)
        ensures
            r == (self.errors_spec().len() > 0 || self.output_spec().is_none()),
    {
        self.has_errors() || !self.has_output()
    }

    /// The output, if any.
    pub fn output(&self) -> (r: Option<&T>)
        ensures
            r == match self.output_spec() {
                Some(o) => Some(&o),
                None => None::<&T>,
            },
    {
        self.output.as_ref()
    }

    /// The warnings.
    pub fn warnings(&self) -> (r: &[W])
        ensures
            r@ == self.warnings_spec(),
    {
        self.warnings.as_slice()
    }

    /// The errors.
    pub fn errors(&self) -> (r: &[E])
        ensures
            r@ == self.errors_spec(),
    {
        self.errors.as_slice()
    }

    /// The output and the report when there is an output and no error;
    /// otherwise the report alone.
    pub fn into_result(self) -> (r: Result<(T, Report<E, W>), Report<E, W>>)
        ensures
            match r {
                Ok((o, rep)) => {
                    &&& self.output_spec() == Some(o)
                    &&& self.errors_spec().len() == 0
                    &&& rep.errors_spec() == self.errors_spec()
                    &&& rep.warnings_spec() == self.warnings_spec()
                },
                Err(rep) => {
                    &&& (self.output_spec().is_none() || self.errors_spec().len() > 0)
                    &&& rep.errors_spec() == self.errors_spec()
                    &&& rep.warnings_spec() == self.warnings_spec()
                },
            },
    {
        let mut s = self;
        if let Some(o) = s.output.take() {
            if s.errors.is_empty() {
                return Ok((o, s.into_report()));
            }
        }
        Err(s.into_report())
    }

    /// The errors and warnings.
    pub fn into_report(self) -> (r: Report<E, W>)
        ensures
            r.errors_spec() == self.errors_spec(),
            r.warnings_spec() == self.warnings_spec(),
    {
        Report { errors: self.errors, warnings: self.warnings }
    }

    /// Takes the output out, leaving none.
    pub fn take_output(&mut self) -> (r: Option<T>)
        ensures
            r == old(self).output_spec(),
            final(self).output_spec().is_none(),
            final(self).errors_spec() == old(self).errors_spec(),
            final(self).warnings_spec() == old(self).warnings_spec(),
    {
        self.output.take()
    }

    /// The output.
    pub fn into_output(self) -> (r: Option<T>)
        ensures
            r == self.output_spec(),
    {
        self.output
    }

    /// The errors.
    pub fn into_errors(self) -> (r: Vec<E>)
        ensures
            r@ == self.errors_spec(),
    {
        self.errors
    }

    /// The warnings.
    pub fn into_warnings(self) -> (r: Vec<W>)
        ensures
            r@ == self.warnings_spec(),
    {
        self.warnings
    }

    /// Output, warnings and errors.
    pub fn into_tuple(self) -> (r: (Option<T>, Vec<W>, Vec<E>))
        ensures
            r.0 == self.output_spec(),
            r.1@ == self.warnings_spec(),
            r.2@ == self.errors_spec(),
    {
        (self.output, self.warnings, self.errors)
    }

    /// Converts each error and warning with `From`, in order.
    pub fn into_context_result<E2, W2>(self) -> (r: PassResult<T, E2, W2>)
        where
            E2: From<E>,
            W2: From<W>,
        ensures
            r.output_spec() == self.output_spec(),
            r.errors_spec().len() == self.errors_spec().len(),
            forall|k: int| 0 <= k < r.errors_spec().len() ==> call_ensures(E::into, (self.errors_spec()[k],), #[trigger] r.errors_spec()[k]),
            r.warnings_spec().len() == self.warnings_spec().len(),
            forall|k: int| 0 <= k < r.warnings_spec().len() ==> call_ensures(W::into, (self.warnings_spec()[k],), #[trigger] r.warnings_spec()[k]),
    {
        PassResult {
            output: self.output,
            errors: convert_all(self.errors),
            warnings: convert_all(self.warnings),
        }
    }

    /// Drops the output and keeps errors and warnings.
    pub fn discard_output<T2>(self) -> (r: PassResult<T2, E, W>)
        ensures
            r.output_spec().is_none(),
            r.errors_spec() == self.errors_spec(),
            r.warnings_spec() == self.warnings_spec(),
    {
        PassResult { output: None, warnings: self.warnings, errors: self.errors }
    }

    /// Keeps this output, with the errors and warnings of `other` before
    /// these.
    pub fn merge<T2>(self, other: PassResult<T2, E, W>) -> (r: Self)
        ensures
            r.output_spec() == self.output_spec(),
            r.errors_spec() == other.errors_spec() + self.errors_spec(),
            r.warnings_spec() == other.warnings_spec() + self.warnings_spec(),
    {
        let mut s = self;
        let mut other = other;
        other.errors.append(&mut s.errors);
        other.warnings.append(&mut s.warnings);
        s.errors = other.errors;
        s.warnings = other.warnings;
        s
    }

    /// Applies `f` to the output, if any.
    pub fn map<F, O>(self, f: F) -> (r: PassResult<O, E, W>)
        where
            F: FnOnce(T) -> O,
        requires
            self.output_spec() is Some ==> f.requires((self.output_spec()->0,)),
        ensures
            self.output_spec() is None ==> r.output_spec() is None,
            self.output_spec() is Some ==> r.output_spec() is Some && f.ensures((self.output_spec()->0,), r.output_spec()->0),
            r.errors_spec() == self.errors_spec(),
            r.warnings_spec() == self.warnings_spec(),
    {
        let output = match self.output {
            Some(o) => Some(f(o)),
            None => None,
        };
        PassResult { output, warnings: self.warnings, errors: self.errors }
    }

    /// Applies the fallible `f` to the output, if any; its error ends the
    /// pass.
    pub fn try_map<F, O, E2>(self, f: F) -> (r: Result<PassResult<O, E, W>, E2>)
        where
            F: FnOnce(T) -> Result<O, E2>,
        requires
            self.output_spec() is Some ==> f.requires((self.output_spec()->0,)),
        ensures
            self.output_spec() is None ==> (r matches Ok(p) && p.output_spec() is None
                && p.errors_spec() == self.errors_spec() && p.warnings_spec() == self.warnings_spec()),
            self.output_spec() is Some ==> exists|res: Result<O, E2>| #[trigger] f.ensures((self.output_spec()->0,), res) && match res {
                Ok(o) => (r matches Ok(p) && p.output_spec() == Some(o)
                    && p.errors_spec() == self.errors_spec() && p.warnings_spec() == self.warnings_spec()),
                Err(e) => r == Err::<PassResult<O, E, W>, E2>(e),
            },
    {
        let output = match self.output {
            Some(o) => match f(o) {
                Ok(v) => Some(v),
                Err(e) => {
                    return Err(e);
                },
            },
            None => None,
        };
        Ok(PassResult { output, warnings: self.warnings, errors: self.errors })
    }
}

/// [`std::io::Error`], carried through the library as it is.
#[verifier::external_type_specification]
#[verifier::external_body]
pub struct ExIoError(std::io::Error);

/// [`std::path::PathBuf`], carried through the library as it is.
#[verifier::external_type_specification]
#[verifier::external_body]
pub struct ExPathBuf(std::path::PathBuf);

/// An error of any pass.
#[derive(Debug)]
pub enum CooklangError {
    Parser(ParserError),
    Analysis(AnalysisError),
    Io(std::io::Error),
    /// "No file name in path: '{path}'"
    NoFilename { path: std::path::PathBuf },
}

/// A warning of any pass.
#[derive(Debug)]
pub enum CooklangWarning {
    Parser(ParserWarning),
    Analysis(AnalysisWarning),
}

impl From<ParserError> for CooklangError {
    fn from(e: ParserError) -> (r: Self) {
        CooklangError::Parser(e)
    }
}

impl vstd::std_specs::convert::FromSpecImpl<ParserError> for CooklangError {
    open spec fn obeys_from_spec() -> bool {
        true
    }

    open spec fn from_spec(e: ParserError) -> Self {
        CooklangError::Parser(e)
    }
}

impl From<AnalysisError> for CooklangError {
    fn from(e: AnalysisError) -> (r: Self) {
        CooklangError::Analysis(e)
    }
}

impl vstd::std_specs::convert::FromSpecImpl<AnalysisError> for CooklangError {
    open spec fn obeys_from_spec() -> bool {
        true
    }

    open spec fn from_spec(e: AnalysisError) -> Self {
        CooklangError::Analysis(e)
    }
}

impl From<ParserWarning> for CooklangWarning {
    fn from(w: ParserWarning) -> (r: Self) {
        CooklangWarning::Parser(w)
    }
}

impl vstd::std_specs::convert::FromSpecImpl<ParserWarning> for CooklangWarning {
    open spec fn obeys_from_spec() -> bool {
        true
    }

    open spec fn from_spec(w: ParserWarning) -> Self {
        CooklangWarning::Parser(w)
    }
}

impl From<AnalysisWarning> for CooklangWarning {
    fn from(w: AnalysisWarning) -> (r: Self) {
        CooklangWarning::Analysis(w)
    }
}

impl vstd::std_specs::convert::FromSpecImpl<AnalysisWarning> for CooklangWarning {
    open spec fn obeys_from_spec() -> bool {
        true
    }

    open spec fn from_spec(w: AnalysisWarning) -> Self {
        CooklangWarning::Analysis(w)
    }
}

impl CooklangError {
    /// The spans that the error points at, with their messages.
    pub open spec fn labels_spec(&self) -> Seq<(Span, Option<Seq<char>>)> {
        match self {
            CooklangError::Parser(e) => e.labels_spec(),
            CooklangError::Analysis(e) => e.labels_spec(),
            _ => Seq::empty(),
        }
    }

    /// The spans that the error points at, with their messages.
    pub fn labels(&self) -> (r: Vec<(Span, Option<String>)>)
        ensures
            labels_view(r@) == self.labels_spec(),
    {
        match self {
            CooklangError::Parser(e) => e.labels(),
            CooklangError::Analysis(e) => e.labels(),
            _ => {
                let v: Vec<(Span, Option<String>)> = Vec::new();
                proof {
                    assert(labels_view(v@) =~= Seq::empty());
                }
                v
            },
        }
    }

    /// A hint on how to fix the error, when there is one.
    pub open spec fn help_spec(&self) -> Option<Seq<char>> {
        match self {
            CooklangError::Parser(e) => e.help_spec(),
            CooklangError::Analysis(e) => e.help_spec(),
            CooklangError::Io(_) => None,
            CooklangError::NoFilename { .. } => Some("The recipe name is needed and comes from the file name"@),
        }
    }

    /// A hint on how to fix the error, when there is one.
    pub fn help(&self) -> (r: Option<String>)
        ensures
            opt_view(r) == self.help_spec(),
    {
        match self {
            CooklangError::Parser(e) => e.help(),
            CooklangError::Analysis(e) => e.help(),
            CooklangError::Io(_) => None,
            CooklangError::NoFilename { .. } => Some(
                "The recipe name is needed and comes from the file name".to_owned(),
            ),
        }
    }

    /// The code of the pass that found the error.
    pub fn code(&self) -> (r: Option<&'static str>)
        ensures
            opt_str_view(r) == match self {
                CooklangError::Parser(_) => Some("parser"@),
                CooklangError::Analysis(_) => Some("analysis"@),
                CooklangError::Io(_) => Some("io"@),
                CooklangError::NoFilename { .. } => Some("no_file_name"@),
            },
    {
        match self {
            CooklangError::Parser(e) => e.code(),
            CooklangError::Analysis(e) => e.code(),
            CooklangError::Io(_) => Some("io"),
            CooklangError::NoFilename { .. } => Some("no_file_name"),
        }
    }
}

impl CooklangWarning {
    /// The spans that the warning points at, with their messages.
    pub open spec fn labels_spec(&self) -> Seq<(Span, Option<Seq<char>>)> {
        match self {
            CooklangWarning::Parser(w) => w.labels_spec(),
            CooklangWarning::Analysis(w) => w.labels_spec(),
        }
    }

    /// The spans that the warning points at, with their messages.
    pub fn labels(&self) -> (r: Vec<(Span, Option<String>)>)
        ensures
            labels_view(r@) == self.labels_spec(),
    {
        match self {
            CooklangWarning::Parser(w) => w.labels(),
            CooklangWarning::Analysis(w) => w.labels(),
        }
    }

    /// A hint on how to fix the warning, when there is one.
    pub open spec fn help_spec(&self) -> Option<Seq<char>> {
        match self {
            CooklangWarning::Parser(_) => None,
            CooklangWarning::Analysis(w) => w.help_spec(),
        }
    }

    /// A hint on how to fix the warning, when there is one.
    pub fn help(&self) -> (r: Option<String>)
        ensures
            opt_view(r) == self.help_spec(),
    {
        match self {
            CooklangWarning::Parser(_) => None,
            CooklangWarning::Analysis(w) => w.help(),
        }
    }

    /// The code of the pass that found the warning.
    pub fn code(&self) -> (r: Option<&'static str>)
        ensures
            opt_str_view(r) == match self {
                CooklangWarning::Parser(_) => Some("parser"@),
                CooklangWarning::Analysis(_) => Some("analysis"@),
            },
    {
        match self {
            CooklangWarning::Parser(w) => w.code(),
            CooklangWarning::Analysis(w) => w.code(),
        }
    }
}

} // verus!
