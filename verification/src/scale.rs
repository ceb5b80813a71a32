//! Configuration of recipe scaling.
use vstd::prelude::*;

verus! {

/// Configures the scaling: the servings a recipe was written for, the
/// servings wanted, and where these are among the declared servings.
#[derive(Debug, Clone, Copy)]
pub struct ScaleTarget {
    base: u32,
    target: u32,
    index: Option<usize>,
}

/// Index of the first element of `s` equal to `x` at or after `i`, if any.
pub open spec fn first_index_from(s: Seq<u32>, i: int, x: u32) -> Option<usize>
    decreases s.len() - i,
{
    if i < 0 || i >= s.len() {
        None
    } else if s[i] == x {
        Some(i as usize)
    } else {
        first_index_from(s, i + 1, x)
    }
}

/// Index of the first element of `s` equal to `x`, if any.
pub open spec fn first_index_of(s: Seq<u32>, x: u32) -> Option<usize> {
    first_index_from(s, 0, x)
}

impl ScaleTarget {
    /// Servings the recipe was written for.
    pub closed spec fn base_spec(&self) -> u32 {
        self.base
    }

    /// Servings wanted.
    pub closed spec fn target_spec(&self) -> u32 {
        self.target
    }

    /// Index of the wanted servings among the declared ones.
    pub closed spec fn index_spec(&self) -> Option<usize> {
        self.index
    }

    /// Creates a new [ScaleTarget].
    /// - `base` is the number of servings the recipe was initially written for.
    /// - `target` is the wanted number of servings.
    /// - `declared_servings` are all the servings of the recipe metadata.
    ///
    /// Invalid parameters don't error here, but may do so in the scaling process.
    pub fn new(base: u32, target: u32, declared_servings: &[u32]) -> (t: Self)
        ensures
            t.base_spec() == base,
            t.target_spec() == target,
            t.index_spec() == first_index_of(declared_servings@, target),
    {
        let mut i: usize = 0;
        let mut index: Option<usize> = None;
        while i < declared_servings.len()
            invariant_except_break
                0 <= i <= declared_servings@.len(),
                index.is_none(),
                first_index_of(declared_servings@, target) == first_index_from(declared_servings@, i as int, target),
            ensures
                index == first_index_of(declared_servings@, target),
            decreases declared_servings@.len() - i,
        {
            if declared_servings[i] == target {
                index = Some(i);
                break;
            }
            i = i + 1;
        }
        ScaleTarget { base, target, index }
    }

    /// Index of the wanted servings among the declared ones.
    pub fn index(&self) -> (r: Option<usize>)
        ensures
            r == self.index_spec(),
    {
        self.index
    }

    /// The wanted servings.
    pub fn target_servings(&self) -> (r: u32)
        ensures
            r == self.target_spec(),
    {
        self.target
    }

    /// The servings the recipe was written for.
    pub fn base_servings(&self) -> (r: u32)
        ensures
            r == self.base_spec(),
    {
        self.base
    }
}

} // verus!
