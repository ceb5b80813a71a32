//! A recipe as the analysis leaves it: sections of steps, and the lists of
//! ingredients, cookware, timers and inline quantities that the steps
//! point into.
use vstd::prelude::*;

use crate::ast::Modifiers;
use crate::metadata::Metadata;
use crate::parser::opt_view;
use crate::quantity::{Quantity, QuantityValue};

verus! {

/// A section holding steps.
#[derive(Debug)]
pub struct Section {
    /// Name of the section.
    pub name: Option<String>,
    /// Steps inside.
    pub steps: Vec<Step>,
}

impl Section {
    /// A section named `name`, without steps.
    pub fn new(name: Option<String>) -> (s: Section)
        ensures
            s.name == name,
            s.steps@.len() == 0,
    {
        Section { name, steps: Vec::new() }
    }

    /// Whether it has neither a name nor a step.
    pub fn is_empty(&self) -> (r: bool)
        ensures
            r == (self.name is None && self.steps@.len() == 0),
    {
        self.name.is_none() && self.steps.len() == 0
    }
}

/// A step holding items.
#[derive(Debug)]
pub struct Step {
    /// Items inside.
    pub items: Vec<Item>,
    /// A text step does not count as a step, and holds only text.
    pub is_text: bool,
}

/// A step item.
#[derive(Debug)]
pub enum Item {
    /// Plain text.
    Text(String),
    /// A component.
    Component(Component),
    /// An inline quantity: an index into the recipe's inline quantities.
    InlineQuantity(usize),
}

/// A recipe ingredient.
#[derive(Debug, Clone)]
pub struct Ingredient {
    /// Name; the path of a recipe when the ingredient refers to one.
    pub name: String,
    /// Alias.
    pub alias: Option<String>,
    /// Quantity.
    pub quantity: Option<Quantity>,
    /// Note.
    pub note: Option<String>,
    /// Modifiers.
    pub modifiers: Modifiers,
    /// The ingredient it refers to, an index into the ingredient list.
    pub references_to: Option<usize>,
    /// The ingredients that refer to it, indices into the ingredient list.
    pub referenced_from: Vec<usize>,
    /// Whether it was defined in a step (and not in a list of ingredients).
    pub defined_in_step: bool,
}

/// `std::path::is_separator`: `/` separates on every platform, `\\` on
/// some (Windows), and no other character on any.
#[verifier::external_body]
fn is_path_separator(c: char) -> (r: bool)
    ensures
        c == '/' ==> r,
        c != '/' && c != '\\' ==> !r,
{
    std::path::is_separator(c)
}

/// Where the part of `s` after its last `/` starts (0 when there is no
/// `/`).
pub open spec fn after_last_slash(s: Seq<char>) -> int
    decreases s.len(),
{
    if s.len() == 0 {
        0
    } else if s.last() == '/' {
        s.len() as int
    } else {
        after_last_slash(s.drop_last())
    }
}

/// The part after the last `/` starts at or before any `k` after which
/// there is no `/`, and at `k` when a `/` is just before it.
pub proof fn lemma_after_last_slash(s: Seq<char>, k: int)
    requires
        0 <= k <= s.len(),
        forall|j: int| k <= j < s.len() ==> s[j] != '/',
    ensures
        0 <= after_last_slash(s) <= k,
        k > 0 && s[k - 1] == '/' ==> after_last_slash(s) == k,
    decreases s.len(),
{
    if s.len() > k {
        assert forall|j: int| k <= j < s.drop_last().len() implies s.drop_last()[j] != '/' by {
            assert(s.drop_last()[j] == s[j]);
        }
        lemma_after_last_slash(s.drop_last(), k);
        if k > 0 {
            assert(s.drop_last()[k - 1] == s[k - 1]);
        }
    } else if s.len() > 0 {
        if s.last() != '/' {
            assert forall|j: int| k <= j < s.drop_last().len() implies s.drop_last()[j] != '/' by {
            }
            lemma_after_last_slash(s.drop_last(), s.len() - 1);
        }
    }
}

impl Ingredient {
    /// The modifiers.
    pub fn modifiers(&self) -> (r: Modifiers)
        ensures
            r == self.modifiers,
    {
        self.modifiers
    }

    /// Whether it is hidden from the ingredient list.
    pub fn is_hidden(&self) -> (r: bool)
        ensures
            r == (self.modifiers.bits_spec() & 4 == 4),
    {
        self.modifiers.contains(Modifiers::hidden())
    }

    /// Whether it is optional.
    pub fn is_optional(&self) -> (r: bool)
        ensures
            r == (self.modifiers.bits_spec() & 8 == 8),
    {
        self.modifiers.contains(Modifiers::optional())
    }

    /// Whether it refers to a recipe.
    pub fn is_recipe(&self) -> (r: bool)
        ensures
            r == (self.modifiers.bits_spec() & 1 == 1),
    {
        self.modifiers.contains(Modifiers::recipe())
    }

    /// Whether it refers to an earlier ingredient.
    pub fn is_reference(&self) -> (r: bool)
        ensures
            r == (self.modifiers.bits_spec() & 2 == 2),
    {
        self.modifiers.contains(Modifiers::reference())
    }

    /// The ingredients that refer to it, indices into the ingredient list.
    pub fn referenced_from(&self) -> (r: &[usize])
        ensures
            r@ == self.referenced_from@,
    {
        self.referenced_from.as_slice()
    }

    /// The name to show: the alias if there is one, else the name, or for
    /// a recipe the part of its path after the last separator.
    pub fn display_name(&self) -> (r: String)
        ensures
            self.alias matches Some(a) ==> r@ == a@,
            self.alias is None && self.modifiers.bits_spec() & 1 != 1 ==> r@ == self.name@,
            self.alias is None && self.modifiers.bits_spec() & 1 == 1 ==> exists|k: int|
                after_last_slash(self.name@) <= k <= self.name@.len() && r@ == self.name@.subrange(
                    k,
                    self.name@.len() as int,
                ) && (k == after_last_slash(self.name@) || self.name@[k - 1] == '\\'),
            self.alias is None && self.modifiers.bits_spec() & 1 == 1 && !self.name@.contains('\\') ==> r@
                == self.name@.subrange(after_last_slash(self.name@), self.name@.len() as int),
    {
        if let Some(a) = &self.alias {
            return a.as_str().to_owned();
        }
        if !self.is_recipe() {
            return self.name.as_str().to_owned();
        }
        let cs = crate::encoding::str_chars(self.name.as_str());
        let mut i: usize = cs.len();
        let mut stop = false;
        while i > 0 && !stop
            invariant
                cs@ == self.name@,
                0 <= i <= cs@.len(),
                forall|k: int| i <= k < cs@.len() ==> cs@[k] != '/',
                stop ==> i > 0 && (cs@[i - 1] == '/' || cs@[i - 1] == '\\'),
            decreases i + (if stop {
                0int
            } else {
                1int
            }),
        {
            if is_path_separator(cs[i - 1]) {
                stop = true;
            } else {
                i = i - 1;
            }
        }
        let mut out: Vec<char> = Vec::new();
        let mut j: usize = i;
        while j < cs.len()
            invariant
                cs@ == self.name@,
                0 <= i <= j <= cs@.len(),
                out@ == cs@.subrange(i as int, j as int),
            decreases cs@.len() - j,
        {
            out.push(cs[j]);
            j = j + 1;
        }
        let r = crate::metadata::string_from_chars(&out);
        proof {
            assert(r@ == self.name@.subrange(i as int, self.name@.len() as int));
            lemma_after_last_slash(self.name@, i as int);
            if i > 0 {
                assert(cs@[i - 1] == '/' || cs@[i - 1] == '\\');
                if !self.name@.contains('\\') {
                    assert(cs@[i - 1] != '\\');
                }
            }
            let k = i as int;
            assert(after_last_slash(self.name@) <= k <= self.name@.len() && r@ == self.name@.subrange(
                k,
                self.name@.len() as int,
            ) && (k == after_last_slash(self.name@) || self.name@[k - 1] == '\\'));
        }
        r
    }

    /// Its own quantity, if any, then the quantities of the ingredients
    /// that refer to it, in their order, leaving out those without one.
    pub fn all_quantities<'s>(&'s self, all_ingredients: &'s [Ingredient]) -> (r: Vec<&'s Quantity>)
        requires
            forall|k: int|
                0 <= k < self.referenced_from@.len() ==> #[trigger] self.referenced_from@[k]
                    < all_ingredients@.len(),
        ensures
            r@.map_values(|q: &Quantity| *q) == quantities_of(self.quantity, all_ingredients@, self.referenced_from@),
    {
        let mut r: Vec<&Quantity> = Vec::new();
        if let Some(q) = &self.quantity {
            r.push(q);
        }
        proof {
            assert(self.referenced_from@.take(0) =~= Seq::<usize>::empty());
            assert(r@.map_values(|q: &Quantity| *q) =~= quantities_of(self.quantity, all_ingredients@, Seq::empty()));
        }
        let mut i: usize = 0;
        while i < self.referenced_from.len()
            invariant
                0 <= i <= self.referenced_from@.len(),
                forall|k: int|
                    0 <= k < self.referenced_from@.len() ==> #[trigger] self.referenced_from@[k]
                        < all_ingredients@.len(),
                r@.map_values(|q: &Quantity| *q) == quantities_of(self.quantity, all_ingredients@, self.referenced_from@.take(i as int)),
            decreases self.referenced_from@.len() - i,
        {
            let idx = self.referenced_from[i];
            proof {
                assert(self.referenced_from@.take(i + 1).drop_last() =~= self.referenced_from@.take(i as int));
            }
            let ghost before = r@;
            if let Some(q) = &all_ingredients[idx].quantity {
                r.push(q);
                proof {
                    assert(r@.map_values(|q: &Quantity| *q) =~= before.map_values(|q: &Quantity| *q).push(*q));
                }
            }
            i = i + 1;
        }
        proof {
            assert(self.referenced_from@.take(i as int) =~= self.referenced_from@);
        }
        r
    }
}

/// The quantities present among `own` and those of the ingredients at
/// `refs`, in that order.
pub open spec fn quantities_of(own: Option<Quantity>, all: Seq<Ingredient>, refs: Seq<usize>) -> Seq<Quantity>
    decreases refs.len(),
{
    if refs.len() == 0 {
        match own {
            Some(q) => seq![q],
            None => Seq::empty(),
        }
    } else {
        let rest = quantities_of(own, all, refs.drop_last());
        match all[refs.last() as int].quantity {
            Some(q) => rest.push(q),
            None => rest,
        }
    }
}

/// A recipe cookware item.
#[derive(Debug, Clone)]
pub struct Cookware {
    /// Name.
    pub name: String,
    /// Amount needed; a value, without unit.
    pub quantity: Option<QuantityValue>,
}

/// A recipe timer.
#[derive(Debug, Clone)]
pub struct Timer {
    /// Name.
    pub name: Option<String>,
    /// How long.
    pub quantity: Quantity,
}

/// A component in a step: its kind and its index in the list of its kind.
#[derive(Debug, Clone, Copy, PartialEq, Eq, Structural)]
pub struct Component {
    /// What kind of component it is.
    pub kind: ComponentKind,
    /// The index in the recipe's list of that kind.
    pub index: usize,
}

/// The kind of a [Component].
#[derive(Debug, Clone, Copy, PartialEq, Eq, Structural)]
pub enum ComponentKind {
    Ingredient,
    Cookware,
    Timer,
}

/// What the analysis makes of a recipe's syntax tree.
#[derive(Debug)]
pub struct RecipeContent {
    pub metadata: Metadata,
    pub sections: Vec<Section>,
    pub ingredients: Vec<Ingredient>,
    pub cookware: Vec<Cookware>,
    pub timers: Vec<Timer>,
    pub inline_quantities: Vec<Quantity>,
}

/// A complete recipe: its name and content.
#[derive(Debug)]
pub struct Recipe {
    pub name: String,
    pub metadata: Metadata,
    pub sections: Vec<Section>,
    pub ingredients: Vec<Ingredient>,
    pub cookware: Vec<Cookware>,
    pub timers: Vec<Timer>,
    pub inline_quantities: Vec<Quantity>,
}

impl Recipe {
    /// The recipe named `name` with the analysed `content`.
    pub fn from_content(name: String, content: RecipeContent) -> (r: Recipe)
        ensures
            r.name == name,
            r.metadata == content.metadata,
            r.sections == content.sections,
            r.ingredients == content.ingredients,
            r.cookware == content.cookware,
            r.timers == content.timers,
            r.inline_quantities == content.inline_quantities,
    {
        Recipe {
            name,
            metadata: content.metadata,
            sections: content.sections,
            ingredients: content.ingredients,
            cookware: content.cookware,
            timers: content.timers,
            inline_quantities: content.inline_quantities,
        }
    }
}

} // verus!
