//! Images of a recipe: files named after the recipe, optionally with the
//! section and step they show, such as `Recipe.jpg`, `Recipe.3.jpg` (step 3)
//! or `Recipe.1.3.jpg` (section 1, step 3).
use vstd::prelude::*;

use crate::encoding::str_chars;
use crate::metadata::{std_u32_spec, str_eq};
use crate::parser::quantity::digits_u32;

verus! {

/// The section and step that an image shows.
#[derive(Debug, Clone, Copy, PartialEq, Eq, PartialOrd, Ord, Structural)]
pub struct ImageIndexes {
    pub section: u16,
    pub step: u16,
}

/// Whether `ext` is one of the image extensions: jpeg, jpg, png, heic, gif
/// and webp.
pub open spec fn is_image_ext(ext: Seq<char>) -> bool {
    ext == "jpeg"@ || ext == "jpg"@ || ext == "png"@ || ext == "heic"@ || ext == "gif"@ || ext == "webp"@
}

/// Whether `ext` is one of the image extensions.
pub fn is_image_extension(ext: &str) -> (r: bool)
    ensures
        r == is_image_ext(ext@),
{
    str_eq(ext, "jpeg") || str_eq(ext, "jpg") || str_eq(ext, "png") || str_eq(ext, "heic") || str_eq(ext, "gif")
        || str_eq(ext, "webp")
}

/// The last `.` before position `j`, or -1.
pub open spec fn last_dot_before(s: Seq<char>, j: int) -> int
    decreases j,
{
    if j <= 0 || j > s.len() {
        -1
    } else if s[j - 1] == '.' {
        j - 1
    } else {
        last_dot_before(s, j - 1)
    }
}

/// `s` read as a `u16` the way `str::parse` reads one.
pub open spec fn std_u16_spec(s: Seq<char>) -> Option<u16> {
    match std_u32_spec(s) {
        Some(n) => if n <= u16::MAX {
            Some(n as u16)
        } else {
            None
        },
        None => None,
    }
}

/// What the file name `f` says of an image of the recipe `name`: not an
/// image of it (`None`); an image of the whole recipe (`Some(None)`); or
/// an image of a step, in a section (`Some(Some(..))`). The name is split
/// at its last three dots at most, as `rsplitn(4, '.')` splits it.
pub open spec fn image_spec(name: Seq<char>, f: Seq<char>) -> Option<Option<ImageIndexes>> {
    let d1 = last_dot_before(f, f.len() as int);
    let d2 = last_dot_before(f, d1);
    let d3 = last_dot_before(f, d2);
    if d1 < 0 {
        None
    } else {
        let ext = f.subrange(d1 + 1, f.len() as int);
        let stem_end = if d2 < 0 {
            d1
        } else if d3 < 0 {
            d2
        } else {
            d3
        };
        if f.subrange(0, stem_end) != name || !is_image_ext(ext) {
            None
        } else if d2 < 0 {
            Some(None)
        } else if d3 < 0 {
            match std_u16_spec(f.subrange(d2 + 1, d1)) {
                Some(step) => Some(Some(ImageIndexes { section: 0, step })),
                None => None,
            }
        } else {
            match (std_u16_spec(f.subrange(d3 + 1, d2)), std_u16_spec(f.subrange(d2 + 1, d1))) {
                (Some(section), Some(step)) => Some(Some(ImageIndexes { section, step })),
                _ => None,
            }
        }
    }
}

/// The last `.` before position `j`, or -1.
fn find_last_dot(cs: &Vec<char>, j: usize) -> (r: i64)
    requires
        j <= cs@.len(),
        cs@.len() < i64::MAX,
    ensures
        r == last_dot_before(cs@, j as int),
{
    let mut k = j;
    while k > 0
        invariant
            k <= j <= cs@.len(),
            cs@.len() < i64::MAX,
            last_dot_before(cs@, j as int) == last_dot_before(cs@, k as int),
        decreases k,
    {
        if cs[k - 1] == '.' {
            return (k - 1) as i64;
        }
        k = k - 1;
    }
    -1
}

/// The characters `cs[a..b]` read as a `u16` the way `str::parse` reads one.
fn parse_u16_chars(cs: &Vec<char>, a: usize, b: usize) -> (r: Option<u16>)
    requires
        a <= b <= cs@.len(),
    ensures
        r == std_u16_spec(cs@.subrange(a as int, b as int)),
{
    let mut piece: Vec<char> = Vec::new();
    let mut k = a;
    while k < b
        invariant
            a <= k <= b,
            b <= cs@.len(),
            piece@ == cs@.subrange(a as int, k as int),
        decreases b - k,
    {
        piece.push(cs[k]);
        proof {
            assert(piece@ =~= cs@.subrange(a as int, k + 1));
        }
        k = k + 1;
    }
    let n = if piece.len() > 0 && piece[0] == '+' {
        let (_, rest) = piece.as_slice().split_at(1);
        proof {
            assert(rest@ =~= piece@.drop_first());
        }
        digits_u32(rest)
    } else {
        digits_u32(piece.as_slice())
    };
    match n {
        Some(n) => if n <= 65535 {
            Some(n as u16)
        } else {
            None
        },
        None => None,
    }
}

/// Whether `cs[a..b]` holds the characters of `name`.
fn chars_are(cs: &Vec<char>, a: usize, b: usize, name: &Vec<char>) -> (r: bool)
    requires
        a <= b <= cs@.len(),
    ensures
        r == (cs@.subrange(a as int, b as int) == name@),
{
    if b - a != name.len() {
        proof {
            assert(cs@.subrange(a as int, b as int).len() != name@.len());
        }
        return false;
    }
    let mut k: usize = 0;
    while k < name.len()
        invariant
            a <= b <= cs@.len(),
            b - a == name@.len(),
            0 <= k <= name@.len(),
            forall|i: int| 0 <= i < k ==> cs@[a + i] == name@[i],
        decreases name@.len() - k,
    {
        if cs[a + k] != name[k] {
            proof {
                assert(cs@.subrange(a as int, b as int)[k as int] != name@[k as int]);
            }
            return false;
        }
        k = k + 1;
    }
    proof {
        assert(cs@.subrange(a as int, b as int) =~= name@);
    }
    true
}

/// What the file name `file_name` says of an image of the recipe
/// `recipe_name`: not an image of it, an image of the whole recipe, or an
/// image of a step in a section.
pub fn image_indexes(recipe_name: &str, file_name: &str) -> (r: Option<Option<ImageIndexes>>)
    requires
        file_name@.len() < i64::MAX,
    ensures
        r == image_spec(recipe_name@, file_name@),
{
    let f = str_chars(file_name);
    let name = str_chars(recipe_name);
    proof {
        lemma_last_dot_bounds(f@, f@.len() as int);
    }
    let d1 = find_last_dot(&f, f.len());
    if d1 < 0 {
        return None;
    }
    let d1 = d1 as usize;
    proof {
        lemma_last_dot_bounds(f@, d1 as int);
    }
    let d2 = find_last_dot(&f, d1);
    let d3 = if d2 < 0 {
        -1
    } else {
        proof {
            lemma_last_dot_bounds(f@, d2 as int);
        }
        find_last_dot(&f, d2 as usize)
    };
    let stem_end = if d2 < 0 {
        d1
    } else if d3 < 0 {
        d2 as usize
    } else {
        d3 as usize
    };
    let mut ext: Vec<char> = Vec::new();
    let mut k = d1 + 1;
    while k < f.len()
        invariant
            d1 + 1 <= k <= f@.len(),
            ext@ == f@.subrange(d1 + 1, k as int),
        decreases f@.len() - k,
    {
        ext.push(f[k]);
        proof {
            assert(ext@ =~= f@.subrange(d1 + 1, k + 1));
        }
        k = k + 1;
    }
    let ext_s = crate::metadata::string_from_chars(&ext);
    if !chars_are(&f, 0, stem_end, &name) || !is_image_extension(ext_s.as_str()) {
        return None;
    }
    if d2 < 0 {
        return Some(None);
    }
    let d2 = d2 as usize;
    if d3 < 0 {
        return match parse_u16_chars(&f, d2 + 1, d1) {
            Some(step) => Some(Some(ImageIndexes { section: 0, step })),
            None => None,
        };
    }
    let d3 = d3 as usize;
    match (parse_u16_chars(&f, d3 + 1, d2), parse_u16_chars(&f, d2 + 1, d1)) {
        (Some(section), Some(step)) => Some(Some(ImageIndexes { section, step })),
        _ => None,
    }
}

/// The last `.` before `j` is before `j`.
proof fn lemma_last_dot_bounds(s: Seq<char>, j: int)
    requires
        0 <= j <= s.len(),
    ensures
        -1 <= last_dot_before(s, j) < j,
        last_dot_before(s, j) >= 0 ==> s[last_dot_before(s, j)] == '.',
    decreases j,
{
    if j > 0 && s[j - 1] != '.' {
        lemma_last_dot_bounds(s, j - 1);
    }
}

} // verus!
