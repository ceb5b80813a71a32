//! A parser for the cooklang recipe markup language with opt-in extensions.
//!
//! The library turns recipe text into tokens ([lexer]), tokens into an
//! abstract syntax tree ([parser]), and the tree into a recipe ([analysis],
//! [model]): its steps, ingredients (with references between them
//! resolved), cookware, timers and metadata, with the errors and warnings
//! found on the way.
pub mod encoding;
pub mod span;
pub mod analysis;
pub mod ast;
pub mod context;
pub mod cooklang_text;
pub mod convert;
pub mod error;
pub mod extensions;
pub mod human;
pub mod images;
pub mod lexer;
pub mod located;
pub mod metadata;
pub mod model;
pub mod parser;
pub mod parser2;
pub mod quantity;
pub mod scale;

pub use extensions::Extensions;

use vstd::prelude::*;

use crate::analysis::ast_walker::{
    analysis_result, parse_ast_with_recipe_ref_checker, references_consistent, references_resolved,
};
use crate::analysis::{AnalysisError, AnalysisWarning};
use crate::parser::parser::{blank_text, parse_result};
use crate::parser::{ParserError, ParserWarning};
use crate::convert::UnitIndex;
use crate::encoding::byte_len;
use crate::error::{CooklangError, CooklangWarning, PassResult};
use crate::model::{Recipe, RecipeContent};

verus! {

/// A recipe parser: the extensions it reads and the units it knows.
pub struct CooklangParser {
    extensions: Extensions,
    units: UnitIndex,
}

/// What parsing a recipe gives.
pub type RecipeResult = PassResult<Recipe, CooklangError, CooklangWarning>;

/// The errors of the line parser, as errors of parsing a recipe.
pub open spec fn parser_errors(es: Seq<ParserError>) -> Seq<CooklangError> {
    es.map_values(|e: ParserError| CooklangError::Parser(e))
}

/// The warnings of the line parser, as warnings of parsing a recipe.
pub open spec fn parser_warnings(ws: Seq<ParserWarning>) -> Seq<CooklangWarning> {
    ws.map_values(|w: ParserWarning| CooklangWarning::Parser(w))
}

/// The errors of the analysis, as errors of parsing a recipe.
pub open spec fn analysis_errors(es: Seq<AnalysisError>) -> Seq<CooklangError> {
    es.map_values(|e: AnalysisError| CooklangError::Analysis(e))
}

/// The warnings of the analysis, as warnings of parsing a recipe.
pub open spec fn analysis_warnings(ws: Seq<AnalysisWarning>) -> Seq<CooklangWarning> {
    ws.map_values(|w: AnalysisWarning| CooklangWarning::Analysis(w))
}

/// Whether `recipe` is the recipe named `name` with the model `c`.
pub open spec fn recipe_with(recipe: Recipe, name: Seq<char>, c: RecipeContent) -> bool {
    &&& recipe.name@ == name
    &&& recipe.metadata == c.metadata
    &&& recipe.sections == c.sections
    &&& recipe.ingredients == c.ingredients
    &&& recipe.cookware == c.cookware
    &&& recipe.timers == c.timers
    &&& recipe.inline_quantities == c.inline_quantities
}

/// What parsing `input` with `extensions` as a recipe named `name` gives in
/// `r`, where `p` is what the line parser gives for the text and `a` what
/// the analysis gives for its syntax tree: when the line parser reports
/// errors, no recipe and its errors and warnings; otherwise the recipe
/// named `name` with the analysis' model, the line parser's warnings, and
/// the analysis' errors and warnings after them.
pub open spec fn recipe_from_passes(
    input: Seq<char>,
    extensions: Extensions,
    name: Seq<char>,
    p: PassResult<crate::ast::Ast, ParserError, ParserWarning>,
    a: PassResult<RecipeContent, AnalysisError, AnalysisWarning>,
    r: RecipeResult,
) -> bool {
    &&& parse_result(input, extensions, p)
    &&& if p.errors_spec().len() > 0 {
        &&& r.output_spec() is None
        &&& r.errors_spec() == parser_errors(p.errors_spec())
        &&& r.warnings_spec() == parser_warnings(p.warnings_spec())
    } else {
        &&& analysis_result(p.output_spec()->0, extensions, a)
        &&& r.errors_spec() == analysis_errors(a.errors_spec())
        &&& r.warnings_spec() == parser_warnings(p.warnings_spec()) + analysis_warnings(a.warnings_spec())
        &&& (r.output_spec() matches Some(recipe) && a.output_spec() matches Some(c) && recipe_with(recipe, name, c))
    }
}

/// The recipe named `name` with `content`.
fn recipe_of(name: &str, content: RecipeContent) -> (r: Recipe)
    ensures
        r.name@ == name@,
        r.metadata == content.metadata,
        r.sections == content.sections,
        r.ingredients == content.ingredients,
        r.cookware == content.cookware,
        r.timers == content.timers,
        r.inline_quantities == content.inline_quantities,
{
    Recipe::from_content(name.to_owned(), content)
}

impl CooklangParser {
    /// The extensions it reads.
    pub closed spec fn extensions_spec(&self) -> Extensions {
        self.extensions
    }

    /// The units it knows.
    pub closed spec fn units_spec(&self) -> Seq<crate::convert::KnownUnit> {
        self.units.units_spec()
    }

    /// A parser for `extensions` that knows `units`.
    pub fn new(extensions: Extensions, units: UnitIndex) -> (p: Self)
        ensures
            p.extensions_spec() == extensions,
            p.units_spec() == units.units_spec(),
    {
        CooklangParser { extensions, units }
    }

    /// The extensions it reads.
    pub fn extensions(&self) -> (r: Extensions)
        ensures
            r == self.extensions_spec(),
    {
        self.extensions
    }

    /// The units it knows.
    pub fn units(&self) -> (r: &UnitIndex)
        ensures
            r.units_spec() == self.units_spec(),
    {
        &self.units
    }

    /// Parses a recipe named `recipe_name`. When the text cannot be parsed
    /// without errors there is no recipe, only the parser's errors and
    /// warnings; otherwise the recipe comes with the parser's warnings and
    /// then the analysis' errors and warnings.
    pub fn parse(&self, input: &str, recipe_name: &str) -> (r: RecipeResult)
        requires
            byte_len(input@) <= u32::MAX,
        ensures
            exists|
                p: PassResult<crate::ast::Ast, ParserError, ParserWarning>,
                a: PassResult<RecipeContent, AnalysisError, AnalysisWarning>,
            | #[trigger] recipe_from_passes(input@, self.extensions_spec(), recipe_name@, p, a, r),
            r.errors_spec().len() == 0 ==> r.output_spec() is Some,
            r.output_spec() is Some <==> forall|k: int|
                0 <= k < r.errors_spec().len() ==> !((#[trigger] r.errors_spec()[k]) is Parser),
            r.output_spec() matches Some(recipe) ==> recipe.name@ == recipe_name@ && references_consistent(
                recipe.ingredients@,
            ) && references_resolved(recipe.ingredients@),
            blank_text(input@) ==> r.output_spec() is Some && r.errors_spec().len() == 0 && r.warnings_spec().len()
                == 0,
            forall|k: int|
                0 <= k < r.errors_spec().len() ==> (#[trigger] r.errors_spec()[k]) is Parser
                    || r.errors_spec()[k] is Analysis,
            forall|k: int|
                0 <= k < r.warnings_spec().len() ==> (#[trigger] r.warnings_spec()[k]) is Parser
                    || r.warnings_spec()[k] is Analysis,
    {
        let any = |_name: &str| -> (found: bool)
            ensures
                found,
            { true };
        let no_checker = if true {
            None
        } else {
            Some(&any)
        };
        self.parse_with_recipe_ref_checker(input, recipe_name, no_checker)
    }

    /// [Self::parse], with `recipe_ref_checker`, when given, telling
    /// whether a recipe named by a recipe ingredient exists; when it says
    /// no, that is a warning.
    pub fn parse_with_recipe_ref_checker<F: Fn(&str) -> bool>(
        &self,
        input: &str,
        recipe_name: &str,
        recipe_ref_checker: Option<&F>,
    ) -> (r: RecipeResult)
        requires
            byte_len(input@) <= u32::MAX,
            recipe_ref_checker matches Some(f) ==> forall|x: &str| f.requires((x,)),
        ensures
            exists|
                p: PassResult<crate::ast::Ast, ParserError, ParserWarning>,
                a: PassResult<RecipeContent, AnalysisError, AnalysisWarning>,
            | #[trigger] recipe_from_passes(input@, self.extensions_spec(), recipe_name@, p, a, r),
            r.errors_spec().len() == 0 ==> r.output_spec() is Some,
            r.output_spec() is Some <==> forall|k: int|
                0 <= k < r.errors_spec().len() ==> !((#[trigger] r.errors_spec()[k]) is Parser),
            r.output_spec() matches Some(recipe) ==> recipe.name@ == recipe_name@ && references_consistent(
                recipe.ingredients@,
            ) && references_resolved(recipe.ingredients@),
            blank_text(input@) ==> r.output_spec() is Some && r.errors_spec().len() == 0 && r.warnings_spec().len()
                == 0,
            forall|k: int|
                0 <= k < r.errors_spec().len() ==> (#[trigger] r.errors_spec()[k]) is Parser
                    || r.errors_spec()[k] is Analysis,
            forall|k: int|
                0 <= k < r.warnings_spec().len() ==> (#[trigger] r.warnings_spec()[k]) is Parser
                    || r.warnings_spec()[k] is Analysis,
    {
        let p0 = crate::parser::parser::parse(input, self.extensions);
        let ghost gp = p0;
        let mut pr: PassResult<crate::ast::Ast, CooklangError, CooklangWarning> = p0.into_context_result();
        proof {
            assert(pr.errors_spec() =~= parser_errors(gp.errors_spec()));
            assert(pr.warnings_spec() =~= parser_warnings(gp.warnings_spec()));
        }
        if pr.invalid() {
            proof {
                assert(pr.errors_spec()[0] is Parser || pr.errors_spec()[0] is Analysis);
            }
            let r: RecipeResult = pr.discard_output();
            proof {
                let ga: PassResult<RecipeContent, AnalysisError, AnalysisWarning> = vstd::pervasive::arbitrary();
                assert(recipe_from_passes(input@, self.extensions_spec(), recipe_name@, gp, ga, r));
            }
            return r;
        }
        let ast = pr.take_output().unwrap();
        let a0 = parse_ast_with_recipe_ref_checker(ast, self.extensions, &self.units, recipe_ref_checker);
        let ghost ga = a0;
        let ar: PassResult<RecipeContent, CooklangError, CooklangWarning> = a0.into_context_result();
        proof {
            assert(ar.errors_spec() =~= analysis_errors(ga.errors_spec()));
            assert(ar.warnings_spec() =~= analysis_warnings(ga.warnings_spec()));
        }
        let merged = ar.merge(pr);
        let (output, warnings, errors) = merged.into_tuple();
        let recipe = match output {
            Some(c) => Some(recipe_of(recipe_name, c)),
            None => None,
        };
        let r = PassResult::new(recipe, warnings, errors);
        proof {
            assert(r.errors_spec() =~= analysis_errors(ga.errors_spec()));
            assert(recipe_from_passes(input@, self.extensions_spec(), recipe_name@, gp, ga, r));
        }
        r
    }
}

/// Parses a recipe named `recipe_name` with every extension and no known
/// unit.
pub fn parse(input: &str, recipe_name: &str) -> (r: RecipeResult)
    requires
        byte_len(input@) <= u32::MAX,
    ensures
        exists|
            p: PassResult<crate::ast::Ast, ParserError, ParserWarning>,
            a: PassResult<RecipeContent, AnalysisError, AnalysisWarning>,
        | #[trigger] recipe_from_passes(input@, Extensions::all_spec(), recipe_name@, p, a, r),
        r.errors_spec().len() == 0 ==> r.output_spec() is Some,
        r.output_spec() is Some <==> forall|k: int|
            0 <= k < r.errors_spec().len() ==> !((#[trigger] r.errors_spec()[k]) is Parser),
        r.output_spec() matches Some(recipe) ==> recipe.name@ == recipe_name@ && references_consistent(
            recipe.ingredients@,
        ) && references_resolved(recipe.ingredients@),
        blank_text(input@) ==> r.output_spec() is Some && r.errors_spec().len() == 0 && r.warnings_spec().len() == 0,
{
    let parser = CooklangParser::new(Extensions::all(), UnitIndex::empty());
    parser.parse(input, recipe_name)
}

} // verus!
