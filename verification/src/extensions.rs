//! Flags that turn the extensions of the cooklang language on and off.
use vstd::prelude::*;

verus! {

/// A set of enabled extensions.
#[derive(Debug, Clone, Copy, PartialEq, Eq, Structural)]
pub struct Extensions {
    bits: u32,
}

/// Every extension bit.
pub open spec fn all_bits() -> u32 {
    0b11_1111_1111
}

impl Extensions {
    /// The bits of the enabled extensions.
    pub closed spec fn bits_spec(&self) -> u32 {
        self.bits
    }

    /// Whether every extension of `other` is enabled in `self`.
    pub open spec fn contains_spec(&self, other: Extensions) -> bool {
        self.bits_spec() & other.bits_spec() == other.bits_spec()
    }

    /// Whether the extension with the bit `bit` is enabled.
    pub open spec fn has_bit(&self, bit: u32) -> bool {
        self.bits_spec() & bit == bit
    }

    /// Steps may continue on the next line.
    pub fn multiline_steps() -> (e: Self)
        ensures
            e.bits_spec() == 1,
    {
        Extensions { bits: 1 }
    }

    /// Ingredients may have modifiers.
    pub fn ingredient_modifiers() -> (e: Self)
        ensures
            e.bits_spec() == 2,
    {
        Extensions { bits: 2 }
    }

    /// Ingredients may have a note.
    pub fn ingredient_note() -> (e: Self)
        ensures
            e.bits_spec() == 4,
    {
        Extensions { bits: 4 }
    }

    /// Ingredients may have an alias.
    pub fn ingredient_alias() -> (e: Self)
        ensures
            e.bits_spec() == 8,
    {
        Extensions { bits: 8 }
    }

    /// Recipes may have sections.
    pub fn sections() -> (e: Self)
        ensures
            e.bits_spec() == 16,
    {
        Extensions { bits: 16 }
    }

    /// Quantities may give a unit after a space, without "%".
    pub fn advanced_units() -> (e: Self)
        ensures
            e.bits_spec() == 32,
    {
        Extensions { bits: 32 }
    }

    /// Special metadata keys change how the recipe is read.
    pub fn modes() -> (e: Self)
        ensures
            e.bits_spec() == 64,
    {
        Extensions { bits: 64 }
    }

    /// Temperatures are detected in text.
    pub fn temperature() -> (e: Self)
        ensures
            e.bits_spec() == 128,
    {
        Extensions { bits: 128 }
    }

    /// Steps that start with ">" are text only.
    pub fn text_steps() -> (e: Self)
        ensures
            e.bits_spec() == 256,
    {
        Extensions { bits: 256 }
    }

    /// Values may be ranges.
    pub fn range_values() -> (e: Self)
        ensures
            e.bits_spec() == 512,
    {
        Extensions { bits: 512 }
    }

    /// Modifiers, note and alias of ingredients.
    pub fn ingredient_all() -> (e: Self)
        ensures
            e.bits_spec() == 14,
    {
        Extensions { bits: 14 }
    }

    /// Every extension, as a value.
    pub closed spec fn all_spec() -> Self {
        Extensions { bits: all_bits() }
    }

    /// Every extension.
    pub fn all() -> (e: Self)
        ensures
            e.bits_spec() == all_bits(),
            e == Self::all_spec(),
    {
        Extensions { bits: 0b11_1111_1111 }
    }

    /// No extension.
    pub fn empty() -> (e: Self)
        ensures
            e.bits_spec() == 0,
    {
        Extensions { bits: 0 }
    }

    /// The extensions whose bits are set in `bits`, unknown bits dropped.
    pub fn from_bits_truncate(bits: u32) -> (e: Self)
        ensures
            e.bits_spec() == bits & all_bits(),
    {
        Extensions { bits: bits & 0b11_1111_1111 }
    }

    /// The bits of the enabled extensions.
    pub fn bits(&self) -> (r: u32)
        ensures
            r == self.bits_spec(),
    {
        self.bits
    }

    /// Whether every extension of `other` is enabled in `self`.
    pub fn contains(&self, other: Extensions) -> (r: bool)
        ensures
            r == self.contains_spec(other),
    {
        self.bits & other.bits == other.bits
    }

    /// The extensions enabled in one of the two, not both.
    pub fn symmetric_difference(self, other: Extensions) -> (r: Extensions)
        ensures
            r.bits_spec() == self.bits_spec() ^ other.bits_spec(),
    {
        Extensions { bits: self.bits ^ other.bits }
    }

    /// The extensions enabled in `self` but not in `other`.
    pub fn difference(self, other: Extensions) -> (r: Extensions)
        ensures
            r.bits_spec() == self.bits_spec() & !other.bits_spec(),
    {
        Extensions { bits: self.bits & !other.bits }
    }
}

impl Default for Extensions {
    /// Every extension is enabled by default.
    fn default() -> (e: Self)
        ensures
            e.bits_spec() == all_bits(),
    {
        Self::all()
    }
}

} // verus!
