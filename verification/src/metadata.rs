//! Recipe metadata: the values of `>> key: value` lines that the library
//! understands, and the map of all of them.
use vstd::prelude::*;

use indexmap::IndexMap;
use url::Url;

use crate::ast::{is_unicode_white_space, str_trim, trimmed};
use crate::encoding::str_chars;
use crate::parser::quantity::{digits_u32, parse_u32_spec};

verus! {

/// [`IndexMap`], carried through the library as it is.
#[verifier::external_type_specification]
#[verifier::external_body]
#[verifier::reject_recursive_types(K)]
#[verifier::reject_recursive_types(V)]
#[verifier::reject_recursive_types(S)]
pub struct ExIndexMap<K, V, S>(IndexMap<K, V, S>);

/// The entries of a map of metadata, in their order: key and value.
pub uninterp spec fn map_entries(m: IndexMap<String, String>) -> Seq<(Seq<char>, Seq<char>)>;

/// The entries after inserting `key` with `value`: an entry with the key
/// keeps its place and takes the value, else the pair goes last.
pub open spec fn entries_insert(es: Seq<(Seq<char>, Seq<char>)>, key: Seq<char>, value: Seq<char>) -> Seq<
    (Seq<char>, Seq<char>),
> {
    if exists|i: int| 0 <= i < es.len() && #[trigger] es[i].0 == key {
        let i = choose|i: int| 0 <= i < es.len() && #[trigger] es[i].0 == key;
        es.update(i, (key, value))
    } else {
        es.push((key, value))
    }
}

/// No key appears twice among the entries.
pub open spec fn keys_unique(es: Seq<(Seq<char>, Seq<char>)>) -> bool {
    forall|i: int, j: int| 0 <= i < j < es.len() ==> #[trigger] es[i].0 != #[trigger] es[j].0
}

/// Inserting into entries without repeated keys keeps them so: the key is
/// there once, with the new value, and every other entry keeps its place
/// and value.
pub proof fn lemma_entries_insert(es: Seq<(Seq<char>, Seq<char>)>, key: Seq<char>, value: Seq<char>)
    requires
        keys_unique(es),
    ensures
        keys_unique(entries_insert(es, key, value)),
        exists|i: int|
            0 <= i < entries_insert(es, key, value).len() && #[trigger] entries_insert(es, key, value)[i] == (key, value),
        forall|i: int| 0 <= i < es.len() && es[i].0 != key ==> #[trigger] entries_insert(es, key, value)[i] == es[i],
        entries_insert(es, key, value).len() == es.len() || entries_insert(es, key, value).len() == es.len() + 1,
{
    let r = entries_insert(es, key, value);
    if exists|i: int| 0 <= i < es.len() && #[trigger] es[i].0 == key {
        let i = choose|i: int| 0 <= i < es.len() && #[trigger] es[i].0 == key;
        assert(r[i] == (key, value));
        assert forall|a: int, b: int| 0 <= a < b < r.len() implies #[trigger] r[a].0 != #[trigger] r[b].0 by {
            if a == i {
                assert(es[b].0 != es[i].0);
            } else if b == i {
                assert(es[a].0 != es[i].0);
            }
        }
    } else {
        assert(r[es.len() as int] == (key, value));
        assert forall|a: int, b: int| 0 <= a < b < r.len() implies #[trigger] r[a].0 != #[trigger] r[b].0 by {
            if b == es.len() {
                assert(es[a].0 != key);
            }
        }
    }
}

/// `IndexMap::new`: an empty map.
#[verifier::external_body]
fn map_new() -> (m: IndexMap<String, String>)
    ensures
        map_entries(m) == Seq::<(Seq<char>, Seq<char>)>::empty(),
{
    IndexMap::new()
}

/// `IndexMap::insert`: a key already there keeps its place and takes the
/// new value; a new key goes last.
#[verifier::external_body]
fn map_insert(m: &mut IndexMap<String, String>, key: &str, value: &str)
    ensures
        map_entries(*final(m)) == entries_insert(map_entries(*old(m)), key@, value@),
{
    m.insert(key.to_owned(), value.to_owned());
}

/// `IndexMap::iter`, each key and value copied: the entries of the map, in
/// their order.
#[verifier::external_body]
pub(crate) fn map_pairs(m: &IndexMap<String, String>) -> (r: Vec<(String, String)>)
    ensures
        r@.map_values(|p: (String, String)| (p.0@, p.1@)) == map_entries(*m),
{
    m.iter().map(|(k, v)| (k.clone(), v.clone())).collect()
}

/// Whether `s` is an emoji that `emojis::get` knows.
pub uninterp spec fn is_emoji(s: Seq<char>) -> bool;

/// `emojis::get(s).is_some()`: a lookup in the crate's fixed table of
/// emojis.
#[verifier::external_body]
fn emoji_exists(s: &str) -> (r: bool)
    ensures
        r == is_emoji(s@),
{
    emojis::get(s).is_some()
}

/// The duration that `humantime::parse_duration` reads in `s`: whole
/// seconds and nanoseconds, or `None` when it reads none.
pub uninterp spec fn duration_of(s: Seq<char>) -> Option<(u64, u32)>;

/// How many digits of `s` make up the size of the numbers that humantime
/// reads in it: a number runs over digits and white space, and its digits
/// count from its first digit other than `0` on (`started` when such a
/// digit came already).
pub open spec fn value_digits(s: Seq<char>, started: bool) -> nat
    decreases s.len(),
{
    if s.len() == 0 {
        0
    } else {
        let c = s[0];
        if '0' <= c && c <= '9' {
            if started || c != '0' {
                1 + value_digits(s.drop_first(), true)
            } else {
                value_digits(s.drop_first(), false)
            }
        } else if is_unicode_white_space(c) {
            value_digits(s.drop_first(), started)
        } else {
            value_digits(s.drop_first(), false)
        }
    }
}

/// The most digits a time may hold, leading zeros of its numbers aside, to
/// be read as a duration. With no more the seconds that humantime adds up
/// stay far below `u64::MAX` (the numbers are under 10^11, a fraction adds
/// less than one unit, and a unit is at most 31_557_600 seconds), where
/// its last step could otherwise overflow and panic.
pub const MAX_DURATION_DIGITS: usize = 11;

/// How many digits of `s` make up the size of its numbers.
pub fn count_value_digits(s: &str) -> (r: usize)
    ensures
        r == value_digits(s@, false),
{
    let cs = str_chars(s);
    let mut n: usize = 0;
    let mut started = false;
    let mut i: usize = 0;
    proof {
        assert(cs@.skip(0) =~= cs@);
    }
    while i < cs.len()
        invariant
            cs@ == s@,
            0 <= i <= cs@.len(),
            n + value_digits(cs@.skip(i as int), started) == value_digits(cs@, false),
            n <= i,
        decreases cs@.len() - i,
    {
        proof {
            assert(cs@.skip(i as int)[0] == cs@[i as int]);
            assert(cs@.skip(i as int).drop_first() =~= cs@.skip(i + 1));
        }
        let c = cs[i];
        if '0' <= c && c <= '9' {
            if started || c != '0' {
                n = n + 1;
                started = true;
            }
        } else if !char_is_whitespace(c) {
            started = false;
        }
        i = i + 1;
    }
    proof {
        assert(cs@.skip(cs@.len() as int) =~= Seq::<char>::empty());
    }
    n
}

/// Whether every unit that humantime could read in `s` counts whole
/// seconds: no fraction (`.`), and no letter of the names of nanoseconds,
/// microseconds or milliseconds (`n`, `u`, `µ`, `l`, or `m` right before
/// `s`). Then no span adds nanoseconds.
pub open spec fn whole_seconds(s: Seq<char>) -> bool {
    forall|i: int| 0 <= i < s.len() ==> !#[trigger] subsecond_at(s, i)
}

/// Whether the character at `i` of `s` may start the name of a unit below
/// a second, or a fraction.
pub open spec fn subsecond_at(s: Seq<char>, i: int) -> bool {
    s[i] == '.' || s[i] == 'n' || s[i] == 'u' || s[i] == 'µ' || s[i] == 'l' || (s[i] == 'm' && i
        + 1 < s.len() && s[i + 1] == 's')
}

/// Whether humantime may be asked for the duration in `s`: its numbers
/// have few digits, or it adds no nanoseconds, so that its last step,
/// `Duration::new`, never carries a second past `u64::MAX`.
pub open spec fn duration_readable(s: Seq<char>) -> bool {
    value_digits(s, false) <= MAX_DURATION_DIGITS || whole_seconds(s)
}

/// Whether `s` counts whole seconds only, as [whole_seconds] says.
pub fn has_whole_seconds(s: &str) -> (r: bool)
    ensures
        r == whole_seconds(s@),
{
    let cs = str_chars(s);
    let mut i: usize = 0;
    while i < cs.len()
        invariant
            cs@ == s@,
            0 <= i <= cs@.len(),
            forall|j: int| 0 <= j < i ==> !#[trigger] subsecond_at(cs@, j),
        decreases cs@.len() - i,
    {
        let c = cs[i];
        if c == '.' || c == 'n' || c == 'u' || c == 'µ' || c == 'l' {
            assert(subsecond_at(s@, i as int));
            return false;
        }
        if c == 'm' && i + 1 < cs.len() && cs[i + 1] == 's' {
            assert(subsecond_at(s@, i as int));
            return false;
        }
        i = i + 1;
    }
    true
}

/// `humantime::parse_duration`, as seconds and nanoseconds. A `Duration`
/// keeps its nanoseconds under one second. The call is made only on
/// strings that [duration_readable] admits: humantime's last step,
/// `Duration::new`, panics when the seconds it adds reach `u64::MAX` with a
/// carry of nanoseconds.
#[verifier::external_body]
fn parse_duration(s: &str) -> (r: Option<(u64, u32)>)
    requires
        duration_readable(s@),
    ensures
        r == duration_of(s@),
        r matches Some((_, n)) ==> n < 1_000_000_000,
{
    match humantime::parse_duration(s) {
        Ok(d) => Some((d.as_secs(), d.subsec_nanos())),
        Err(_) => None,
    }
}

/// Whether `Url::parse` accepts `s`.
pub uninterp spec fn url_parses(s: Seq<char>) -> bool;

/// The text of the URL that `Url::parse` reads from `s` (`Url::as_str`),
/// when it reads one: the URL in its serialized form.
pub uninterp spec fn url_serialization(s: Seq<char>) -> Seq<char>;

/// `Url::parse`, then `Url::as_str`: the text of the URL, when `s` is one.
#[verifier::external_body]
fn url_parse(s: &str) -> (r: Option<String>)
    ensures
        r is Some <==> url_parses(s@),
        r matches Some(t) ==> t@ == url_serialization(s@),
{
    match Url::parse(s) {
        Ok(u) => Some(u.as_str().to_owned()),
        Err(_) => None,
    }
}

/// Whether `regex::Regex::new` accepts the pattern.
pub uninterp spec fn regex_valid(pattern: Seq<char>) -> bool;

/// Whether the compiled pattern matches somewhere in `text`.
pub uninterp spec fn regex_match(pattern: Seq<char>, text: Seq<char>) -> bool;

/// `text` with every match of the pattern replaced by `rep`.
pub uninterp spec fn regex_replaced(pattern: Seq<char>, text: Seq<char>, rep: Seq<char>) -> Seq<char>;

/// The first two groups of the first match of the pattern in `text`, when
/// it matches.
pub uninterp spec fn regex_groups(pattern: Seq<char>, text: Seq<char>) -> Option<(Option<Seq<char>>, Option<Seq<char>>)>;

/// `Regex::new(pattern)` then `is_match(text)`; `None` when the pattern
/// does not compile.
#[verifier::external_body]
fn regex_is_match(pattern: &str, text: &str) -> (r: Option<bool>)
    ensures
        r is Some <==> regex_valid(pattern@),
        r matches Some(b) ==> b == regex_match(pattern@, text@),
{
    match regex::Regex::new(pattern) {
        Ok(re) => Some(re.is_match(text)),
        Err(_) => None,
    }
}

/// `Regex::new(pattern)` then `replace_all(text, rep)`; `None` when the
/// pattern does not compile.
#[verifier::external_body]
fn regex_replace_all(pattern: &str, text: &str, rep: &str) -> (r: Option<String>)
    ensures
        r is Some <==> regex_valid(pattern@),
        r matches Some(s) ==> s@ == regex_replaced(pattern@, text@, rep@),
{
    match regex::Regex::new(pattern) {
        Ok(re) => Some(re.replace_all(text, rep).into_owned()),
        Err(_) => None,
    }
}

/// `Regex::new(pattern)` then `captures(text)`, keeping the first two
/// groups; `None` when the pattern does not compile.
#[verifier::external_body]
fn regex_captures(pattern: &str, text: &str) -> (r: Option<Option<(Option<String>, Option<String>)>>)
    ensures
        r is Some <==> regex_valid(pattern@),
        r matches Some(c) ==> match (c, regex_groups(pattern@, text@)) {
            (None, None) => true,
            (Some((a, b)), Some((x, y))) => (a matches Some(a) ==> x == Some(a@)) && (a is None ==> x is None)
                && (b matches Some(b) ==> y == Some(b@)) && (b is None ==> y is None),
            _ => false,
        },
{
    match regex::Regex::new(pattern) {
        Ok(re) => Some(
            re.captures(text).map(
                |c| (c.get(1).map(|m| m.as_str().to_owned()), c.get(2).map(|m| m.as_str().to_owned())),
            ),
        ),
        Err(_) => None,
    }
}

/// `s` in lower case, as `str::to_lowercase` maps it.
pub uninterp spec fn lowercase(s: Seq<char>) -> Seq<char>;

/// `str::to_lowercase`.
#[verifier::external_body]
pub(crate) fn to_lowercase(s: &str) -> (r: String)
    ensures
        r@ == lowercase(s@),
{
    s.to_lowercase()
}

/// Whether `c` is alphabetic or numeric, as `char::is_alphanumeric` says.
pub uninterp spec fn is_alphanumeric(c: char) -> bool;

/// `char::is_alphanumeric`.
#[verifier::external_body]
pub(crate) fn char_is_alphanumeric(c: char) -> (r: bool)
    ensures
        r == is_alphanumeric(c),
{
    c.is_alphanumeric()
}

/// Whether `c` is white space: the Unicode White_Space property, as
/// `char::is_whitespace` documents it.
fn char_is_whitespace(c: char) -> (r: bool)
    ensures
        r == is_unicode_white_space(c),
{
    ('\u{9}' <= c && c <= '\u{d}') || c == ' ' || c == '\u{85}' || c == '\u{a0}' || c == '\u{1680}' || (
    '\u{2000}' <= c && c <= '\u{200a}') || c == '\u{2028}' || c == '\u{2029}' || c == '\u{202f}' || c
        == '\u{205f}' || c == '\u{3000}'
}

/// `String::from_iter` over characters: the string of these characters.
#[verifier::external_body]
pub(crate) fn string_from_chars(cs: &Vec<char>) -> (r: String)
    ensures
        r@ == cs@,
{
    cs.iter().collect()
}

/// How long a recipe takes, in minutes.
#[derive(Debug, PartialEq, Eq, Clone, Copy, Structural)]
pub enum RecipeTime {
    /// A total time.
    Total(u32),
    /// Preparation and cooking times, each of them optional.
    Composed { prep_time: Option<u32>, cook_time: Option<u32> },
}

/// Minutes in an optional time, 0 when absent.
pub open spec fn opt_minutes(t: Option<u32>) -> int {
    match t {
        Some(m) => m as int,
        None => 0,
    }
}

impl RecipeTime {
    /// The total time: itself, or the sum of the times present.
    pub open spec fn total_spec(self) -> int {
        match self {
            RecipeTime::Total(t) => t as int,
            RecipeTime::Composed { prep_time, cook_time } => opt_minutes(prep_time) + opt_minutes(cook_time),
        }
    }

    /// The total time in minutes.
    pub fn total(self) -> (r: u32)
        requires
            self.total_spec() <= u32::MAX,
        ensures
            r == self.total_spec(),
    {
        match self {
            RecipeTime::Total(t) => t,
            RecipeTime::Composed { prep_time, cook_time } => {
                let p = match prep_time {
                    Some(m) => m,
                    None => 0,
                };
                let c = match cook_time {
                    Some(m) => m,
                    None => 0,
                };
                p + c
            },
        }
    }
}

/// Errors in metadata values.
#[derive(Debug)]
pub enum MetadataError {
    /// The value is not an emoji.
    NotEmoji { value: String },
    /// A tag is not valid.
    InvalidTag { tag: String },
    /// A number could not be read.
    ParseIntError,
}

/// Whether two strings hold the same characters.
pub fn str_eq(a: &str, b: &str) -> (r: bool)
    ensures
        r == (a@ == b@),
{
    let x = str_chars(a);
    let y = str_chars(b);
    if x.len() != y.len() {
        return false;
    }
    let mut i: usize = 0;
    while i < x.len()
        invariant
            x@ == a@,
            y@ == b@,
            x@.len() == y@.len(),
            0 <= i <= x@.len(),
            forall|k: int| 0 <= k < i ==> x@[k] == y@[k],
        decreases x@.len() - i,
    {
        if x[i] != y[i] {
            return false;
        }
        i = i + 1;
    }
    proof {
        assert(a@ =~= b@);
    }
    true
}

/// `s` read as a `u32` the way `str::parse` reads one: digits, with an
/// optional `+` before them.
pub open spec fn std_u32_spec(s: Seq<char>) -> Option<u32> {
    if s.len() > 0 && s[0] == '+' {
        parse_u32_spec(s.drop_first())
    } else {
        parse_u32_spec(s)
    }
}

/// Reads `s` as a `u32` the way `str::parse` reads one.
pub fn std_parse_u32(s: &str) -> (r: Option<u32>)
    ensures
        r == std_u32_spec(s@),
{
    let cs = str_chars(s);
    if cs.len() > 0 && cs[0] == '+' {
        let (_, rest) = cs.as_slice().split_at(1);
        proof {
            assert(rest@ =~= s@.drop_first());
        }
        digits_u32(rest)
    } else {
        digits_u32(cs.as_slice())
    }
}

/// Whole minutes in `secs` seconds and `nanos` nanoseconds, rounded to the
/// nearest with halves up, at most the largest `u32`.
pub open spec fn minutes_of(secs: u64, nanos: u32) -> int {
    let m = (secs * 1_000_000_000 + nanos + 30_000_000_000) / 60_000_000_000;
    if m > u32::MAX {
        u32::MAX as int
    } else {
        m
    }
}

/// Whole minutes in a duration, rounded to the nearest with halves up, at
/// most the largest `u32`.
pub fn minutes(secs: u64, nanos: u32) -> (r: u32)
    ensures
        r == minutes_of(secs, nanos),
{
    let total: u128 = (secs as u128) * 1_000_000_000 + (nanos as u128);
    let m = (total + 30_000_000_000) / 60_000_000_000;
    if m > (u32::MAX as u128) {
        u32::MAX
    } else {
        m as u32
    }
}

/// The minutes that `s` gives as a time: a duration that humantime reads,
/// else a number of minutes.
pub open spec fn time_spec(s: Seq<char>) -> Option<u32> {
    if duration_readable(s) {
        match duration_of(s) {
            Some((secs, nanos)) => Some(minutes_of(secs, nanos) as u32),
            None => std_u32_spec(s),
        }
    } else {
        std_u32_spec(s)
    }
}

/// Reads a time in minutes: a duration such as "1h 30min", rounded to whole
/// minutes, or else a plain number of minutes. A time whose numbers hold
/// more than [MAX_DURATION_DIGITS] digits, leading zeros aside, and that
/// may add nanoseconds (a fraction, or nanoseconds, microseconds or
/// milliseconds) is read as a plain number only.
pub fn parse_time(s: &str) -> (r: Result<u32, MetadataError>)
    ensures
        r is Ok <==> time_spec(s@) is Some,
        r matches Ok(m) ==> Some(m) == time_spec(s@),
        r matches Err(e) ==> e is ParseIntError,
{
    let d = if count_value_digits(s) <= MAX_DURATION_DIGITS || has_whole_seconds(s) {
        parse_duration(s)
    } else {
        None
    };
    match d {
        Some((secs, nanos)) => Ok(minutes(secs, nanos)),
        None => match std_parse_u32(s) {
            Some(n) => Ok(n),
            None => Err(MetadataError::ParseIntError),
        },
    }
}

/// What a character of a trimmed text becomes in a slug: white space and
/// `_` become `-`, letters, digits and `-` stay, the rest goes.
pub open spec fn slug_char(c: char) -> Seq<char> {
    if is_unicode_white_space(c) || c == '_' {
        seq!['-']
    } else if is_alphanumeric(c) || c == '-' {
        seq![c]
    } else {
        seq![]
    }
}

/// The characters of `cs` made slug characters, in order.
pub open spec fn slug_chars(cs: Seq<char>) -> Seq<char>
    decreases cs.len(),
{
    if cs.len() == 0 {
        Seq::empty()
    } else {
        slug_chars(cs.drop_last()) + slug_char(cs.last())
    }
}

/// The first position from `i` on that is not a `-`.
pub open spec fn first_non_hyphen(cs: Seq<char>, i: int) -> int
    decreases cs.len() - i,
{
    if i < 0 || i >= cs.len() {
        cs.len() as int
    } else if cs[i] != '-' {
        i
    } else {
        first_non_hyphen(cs, i + 1)
    }
}

/// One past the last position before `j` that is not a `-`, or 0.
pub open spec fn last_non_hyphen_end(cs: Seq<char>, j: int) -> int
    decreases j,
{
    if j <= 0 || j > cs.len() {
        0
    } else if cs[j - 1] != '-' {
        j
    } else {
        last_non_hyphen_end(cs, j - 1)
    }
}

/// `cs` without `-` at either end.
pub open spec fn trim_hyphens(cs: Seq<char>) -> Seq<char> {
    let i = first_non_hyphen(cs, 0);
    let j = last_non_hyphen_end(cs, cs.len() as int);
    if i < j {
        cs.subrange(i, j)
    } else {
        Seq::empty()
    }
}

/// The pattern of runs of `-`.
pub open spec fn hyphen_runs() -> Seq<char> {
    seq!['-', '-', '+']
}

/// The slug of a trimmed text: slug characters, no `-` at the ends, lower
/// case, runs of `-` made one.
pub open spec fn slug_of(t: Seq<char>) -> Seq<char> {
    let lower = lowercase(trim_hyphens(slug_chars(t)));
    if regex_valid(hyphen_runs()) {
        regex_replaced(hyphen_runs(), lower, seq!['-'])
    } else {
        lower
    }
}

/// Before a position that only `-` precede, nothing ends.
proof fn lemma_all_hyphens(cs: Seq<char>, i: int)
    requires
        0 <= i <= cs.len(),
        forall|k: int| 0 <= k < i ==> cs[k] == '-',
    ensures
        last_non_hyphen_end(cs, i) == 0,
    decreases i,
{
    if i > 0 {
        lemma_all_hyphens(cs, i - 1);
    }
}

/// `cs` without `-` at either end.
fn trim_hyphen_chars(cs: &Vec<char>) -> (r: Vec<char>)
    ensures
        r@ == trim_hyphens(cs@),
{
    let mut i: usize = 0;
    while i < cs.len() && cs[i] == '-'
        invariant
            0 <= i <= cs@.len(),
            first_non_hyphen(cs@, 0) == first_non_hyphen(cs@, i as int),
            forall|k: int| 0 <= k < i ==> cs@[k] == '-',
        decreases cs@.len() - i,
    {
        i = i + 1;
    }
    proof {
        lemma_all_hyphens(cs@, i as int);
    }
    let mut j: usize = cs.len();
    while j > i && cs[j - 1] == '-'
        invariant
            i <= j <= cs@.len(),
            last_non_hyphen_end(cs@, cs@.len() as int) == last_non_hyphen_end(cs@, j as int),
            i < cs@.len() ==> cs@[i as int] != '-',
            last_non_hyphen_end(cs@, i as int) == 0,
            first_non_hyphen(cs@, 0) == i,
        decreases j,
    {
        j = j - 1;
    }
    let mut r: Vec<char> = Vec::new();
    let mut k: usize = i;
    while k < j
        invariant
            i <= k <= j,
            j <= cs@.len(),
            r@ == cs@.subrange(i as int, k as int),
        decreases j - k,
    {
        r.push(cs[k]);
        proof {
            assert(r@ =~= cs@.subrange(i as int, k + 1));
        }
        k = k + 1;
    }
    r
}

/// The slug of a text: trimmed, white space and `_` made `-`, characters
/// other than letters, digits and `-` removed, `-` trimmed from the ends,
/// lower case, and each run of `-` made one.
pub fn slugify(text: &str) -> (r: String)
    ensures
        r@ == slug_of(trimmed(text@)),
{
    let t = str_trim(text);
    proof {
        crate::ast::lemma_trimmed(text@, t@);
    }
    let cs = str_chars(t);
    let mut a: Vec<char> = Vec::new();
    let mut i: usize = 0;
    while i < cs.len()
        invariant
            0 <= i <= cs@.len(),
            a@ == slug_chars(cs@.take(i as int)),
        decreases cs@.len() - i,
    {
        let c = cs[i];
        proof {
            assert(cs@.take(i + 1).drop_last() =~= cs@.take(i as int));
        }
        if char_is_whitespace(c) || c == '_' {
            a.push('-');
        } else if char_is_alphanumeric(c) || c == '-' {
            a.push(c);
        }
        proof {
            assert(a@ =~= slug_chars(cs@.take(i + 1)));
        }
        i = i + 1;
    }
    proof {
        assert(cs@.take(i as int) =~= cs@);
    }
    let b = trim_hyphen_chars(&a);
    let lower = to_lowercase(string_from_chars(&b).as_str());
    match regex_replace_all("--+", lower.as_str(), "-") {
        Some(s) => {
            proof {
                reveal_strlit("--+");
                reveal_strlit("-");
                assert("--+"@ =~= hyphen_runs());
                assert("-"@ =~= seq!['-']);
            }
            s
        },
        None => {
            proof {
                reveal_strlit("--+");
                assert("--+"@ =~= hyphen_runs());
            }
            lower
        },
    }
}

/// The pattern that a tag matches: lower case letters and digits in words
/// joined by single `-`, starting with a letter.
pub open spec fn tag_pattern() -> Seq<char> {
    "^\\p{Ll}[\\p{Ll}\\d]*(-[\\p{Ll}\\d]+)*$"@
}

/// Whether `tag` is a valid tag: 3 to 32 characters that match the tag
/// pattern.
pub open spec fn tag_ok(tag: Seq<char>) -> bool {
    3 <= tag.len() <= 32 && regex_valid(tag_pattern()) && regex_match(tag_pattern(), tag)
}

/// Whether `tag` is a valid tag: 3 to 32 characters, lower case letters and
/// digits in words joined by single `-`, starting with a letter.
pub fn is_valid_tag(tag: &str) -> (r: bool)
    ensures
        r == tag_ok(tag@),
{
    let m = regex_is_match("^\\p{Ll}[\\p{Ll}\\d]*(-[\\p{Ll}\\d]+)*$", tag);
    let n = str_chars(tag).len();
    3 <= n && n <= 32 && match m {
        Some(b) => b,
        None => false,
    }
}

/// The first `,` from `i` on, or the end.
pub open spec fn next_comma(s: Seq<char>, i: int) -> int
    decreases s.len() - i,
{
    if i < 0 || i >= s.len() {
        s.len() as int
    } else if s[i] == ',' {
        i
    } else {
        next_comma(s, i + 1)
    }
}

/// The pieces of `s` from `i` on between commas, as `str::split(',')`
/// gives them: one more than there are commas.
pub open spec fn split_from(s: Seq<char>, i: int) -> Seq<Seq<char>>
    decreases s.len() - i,
{
    let j = next_comma(s, i);
    if 0 <= i <= j && j < s.len() {
        seq![s.subrange(i, j)] + split_from(s, j + 1)
    } else if 0 <= i <= s.len() {
        seq![s.subrange(i, s.len() as int)]
    } else {
        seq![]
    }
}

/// `next_comma` lies between `i` and the end, with no comma before it.
proof fn lemma_next_comma(s: Seq<char>, i: int)
    requires
        0 <= i <= s.len(),
    ensures
        i <= next_comma(s, i) <= s.len(),
        next_comma(s, i) < s.len() ==> s[next_comma(s, i)] == ',',
        forall|k: int| i <= k < next_comma(s, i) ==> s[k] != ',',
    decreases s.len() - i,
{
    if i < s.len() && s[i] != ',' {
        lemma_next_comma(s, i + 1);
    }
}

/// Pieces joined again, with a `,` between two of them.
pub open spec fn commas_joined(ps: Seq<Seq<char>>) -> Seq<char>
    decreases ps.len(),
{
    if ps.len() == 0 {
        Seq::empty()
    } else if ps.len() == 1 {
        ps[0]
    } else {
        ps[0] + seq![','] + commas_joined(ps.drop_first())
    }
}

/// Splitting at the commas loses nothing: there is always at least one
/// piece, no piece holds a comma, and the pieces joined with commas give
/// back the text they came from.
pub proof fn lemma_split_rejoins(s: Seq<char>, i: int)
    requires
        0 <= i <= s.len(),
    ensures
        split_from(s, i).len() >= 1,
        forall|k: int, m: int|
            0 <= k < split_from(s, i).len() && 0 <= m < split_from(s, i)[k].len() ==> #[trigger] split_from(
                s,
                i,
            )[k][m] != ',',
        commas_joined(split_from(s, i)) == s.subrange(i, s.len() as int),
    decreases s.len() - i,
{
    lemma_next_comma(s, i);
    let j = next_comma(s, i);
    let ps = split_from(s, i);
    if j < s.len() {
        lemma_split_rejoins(s, j + 1);
        let rest = split_from(s, j + 1);
        assert(ps =~= seq![s.subrange(i, j)] + rest);
        assert(ps.drop_first() =~= rest);
        assert(ps[0] == s.subrange(i, j));
        assert(commas_joined(ps) == ps[0] + seq![','] + commas_joined(rest));
        assert(s.subrange(i, j) + seq![','] + s.subrange(j + 1, s.len() as int) =~= s.subrange(i, s.len() as int));
        assert forall|k: int, m: int| 0 <= k < ps.len() && 0 <= m < ps[k].len() implies #[trigger] ps[k][m] != ',' by {
            if k > 0 {
                assert(ps[k] == rest[k - 1]);
            } else {
                assert(ps[0][m] == s[i + m]);
            }
        }
    } else {
        assert(ps =~= seq![s.subrange(i, s.len() as int)]);
        assert forall|k: int, m: int| 0 <= k < ps.len() && 0 <= m < ps[k].len() implies #[trigger] ps[k][m] != ',' by {
            assert(ps[0][m] == s[i + m]);
        }
    }
}

/// The pieces of `s` between commas, as `str::split(',')` gives them.
pub fn split_commas(s: &str) -> (r: Vec<&str>)
    requires
        crate::encoding::byte_len(s@) <= usize::MAX,
    ensures
        r@.len() == split_from(s@, 0).len(),
        forall|k: int| 0 <= k < r@.len() ==> (#[trigger] r@[k])@ == split_from(s@, 0)[k],
{
    let ghost v = s@;
    let cs = str_chars(s);
    let mut r: Vec<&str> = Vec::new();
    let mut start_c: usize = 0;
    let mut start_b: usize = 0;
    let mut i: usize = 0;
    let mut b: usize = 0;
    let ghost mut done: Seq<Seq<char>> = Seq::empty();
    proof {
        assert(v.take(0) =~= Seq::<char>::empty());
        lemma_next_comma(v, 0);
        assert(done + split_from(v, 0) =~= split_from(v, 0));
    }
    while i < cs.len()
        invariant
            cs@ == v,
            v == s@,
            crate::encoding::byte_len(v) <= usize::MAX,
            0 <= start_c <= i <= v.len(),
            b == crate::encoding::byte_pos(v, i as int),
            start_b == crate::encoding::byte_pos(v, start_c as int),
            next_comma(v, start_c as int) == next_comma(v, i as int),
            r@.len() == done.len(),
            forall|k: int| 0 <= k < r@.len() ==> (#[trigger] r@[k])@ == done[k],
            done + split_from(v, start_c as int) == split_from(v, 0),
        decreases v.len() - i,
    {
        let c = cs[i];
        let w = crate::encoding::char_len_utf8(c);
        proof {
            crate::encoding::lemma_byte_pos_next(v, i as int);
            crate::encoding::lemma_byte_pos_mono(v, i + 1, v.len() as int);
            assert(v.take(v.len() as int) =~= v);
        }
        if c == ',' {
            proof {
                crate::encoding::lemma_byte_pos_mono(v, start_c as int, i as int);
            }
            let piece = crate::encoding::str_slice(s, start_b, b, Ghost(start_c as int), Ghost(i as int));
            r.push(piece);
            proof {
                lemma_next_comma(v, start_c as int);
                let old_done = done;
                done = done.push(v.subrange(start_c as int, i as int));
                assert(split_from(v, start_c as int) == seq![v.subrange(start_c as int, i as int)] + split_from(v, i + 1));
                assert(done + split_from(v, i + 1) =~= old_done + split_from(v, start_c as int));
                assert forall|k: int| 0 <= k < r@.len() implies (#[trigger] r@[k])@ == done[k] by {
                    if k < old_done.len() {
                        assert(r@[k] == r@.drop_last()[k]);
                    }
                }
            }
            start_c = i + 1;
            start_b = b + w;
        }
        i = i + 1;
        b = b + w;
    }
    proof {
        crate::encoding::lemma_byte_pos_mono(v, start_c as int, i as int);
        lemma_next_comma(v, start_c as int);
    }
    let piece = crate::encoding::str_slice(s, start_b, b, Ghost(start_c as int), Ghost(i as int));
    r.push(piece);
    proof {
        let old_done = done;
        done = done.push(v.subrange(start_c as int, i as int));
        assert(split_from(v, start_c as int) == seq![v.subrange(start_c as int, v.len() as int)]);
        assert(done =~= old_done + split_from(v, start_c as int));
        assert forall|k: int| 0 <= k < r@.len() implies (#[trigger] r@[k])@ == done[k] by {
            if k < old_done.len() {
                assert(r@[k] == r@.drop_last()[k]);
            }
        }
    }
    r
}

/// The pattern of "name <url>".
pub open spec fn name_url_pattern() -> Seq<char> {
    "^(\\w+(?:\\s\\w+)*)\\s+<([^>]+)>$"@
}

/// A name, a URL, or both. The URL is kept as the text of the parsed URL.
#[derive(Debug, Clone, PartialEq)]
pub struct NameAndUrl {
    pub name: Option<String>,
    pub url: Option<String>,
}

/// Whether `s` is written "name <url>" with a URL that parses, and then the
/// name.
pub open spec fn name_with_url(s: Seq<char>) -> Option<Seq<char>> {
    if regex_valid(name_url_pattern()) {
        match regex_groups(name_url_pattern(), s) {
            Some((Some(name), Some(url))) => if url_parses(trimmed(url)) {
                Some(name)
            } else {
                None
            },
            _ => None,
        }
    } else {
        None
    }
}

impl NameAndUrl {
    /// `self` is what "name <url>", a URL alone, or a name alone in `s`
    /// gives.
    pub open spec fn is_read_from(&self, s: Seq<char>) -> bool {
        &&& name_with_url(s) matches Some(n) ==> (self.name matches Some(x) && x@ == n) && (self.url matches Some(
            u,
        ) && regex_groups(name_url_pattern(), s) matches Some((_, Some(t))) && u@ == url_serialization(trimmed(t)))
        &&& name_with_url(s) is None && url_parses(s) ==> self.name is None && (self.url matches Some(u) && u@
            == url_serialization(s))
        &&& name_with_url(s) is None && !url_parses(s) ==> (self.name matches Some(x) && x@ == s) && self.url is None
    }

    /// Reads "name <url>" into both; else a URL alone; else a name alone.
    pub fn new(s: &str) -> (r: NameAndUrl)
        ensures
            r.is_read_from(s@),
    {
        let caps = regex_captures("^(\\w+(?:\\s\\w+)*)\\s+<([^>]+)>$", s);
        if let Some(Some((Some(name), Some(url_text)))) = caps {
            let t = str_trim(url_text.as_str());
            proof {
                crate::ast::lemma_trimmed(url_text@, t@);
            }
            if let Some(url) = url_parse(t) {
                return NameAndUrl { name: Some(name), url: Some(url) };
            }
        }
        match url_parse(s) {
            Some(url) => NameAndUrl { name: None, url: Some(url) },
            None => NameAndUrl { name: Some(s.to_owned()), url: None },
        }
    }
}

/// The keys that the library understands.
#[derive(Debug, Clone, Copy, PartialEq, Eq, Structural)]
pub enum MetadataKey {
    Slug,
    Description,
    Tags,
    Emoji,
    Author,
    Source,
    Time,
    PrepTime,
    CookTime,
    Servings,
    Other,
}

/// Which key `k` is.
pub open spec fn key_of(k: Seq<char>) -> MetadataKey {
    if k == "slug"@ {
        MetadataKey::Slug
    } else if k == "description"@ {
        MetadataKey::Description
    } else if k == "tag"@ || k == "tags"@ {
        MetadataKey::Tags
    } else if k == "emoji"@ {
        MetadataKey::Emoji
    } else if k == "author"@ {
        MetadataKey::Author
    } else if k == "source"@ {
        MetadataKey::Source
    } else if k == "time"@ {
        MetadataKey::Time
    } else if k == "prep_time"@ || k == "prep time"@ {
        MetadataKey::PrepTime
    } else if k == "cook_time"@ || k == "cook time"@ {
        MetadataKey::CookTime
    } else if k == "servings"@ {
        MetadataKey::Servings
    } else {
        MetadataKey::Other
    }
}

/// Which key `k` is.
pub fn key_kind(k: &str) -> (r: MetadataKey)
    ensures
        r == key_of(k@),
{
    if str_eq(k, "slug") {
        MetadataKey::Slug
    } else if str_eq(k, "description") {
        MetadataKey::Description
    } else if str_eq(k, "tag") || str_eq(k, "tags") {
        MetadataKey::Tags
    } else if str_eq(k, "emoji") {
        MetadataKey::Emoji
    } else if str_eq(k, "author") {
        MetadataKey::Author
    } else if str_eq(k, "source") {
        MetadataKey::Source
    } else if str_eq(k, "time") {
        MetadataKey::Time
    } else if str_eq(k, "prep_time") || str_eq(k, "prep time") {
        MetadataKey::PrepTime
    } else if str_eq(k, "cook_time") || str_eq(k, "cook time") {
        MetadataKey::CookTime
    } else if str_eq(k, "servings") {
        MetadataKey::Servings
    } else {
        MetadataKey::Other
    }
}

/// The metadata of a recipe: the values of the keys that the library
/// understands, and every key and value in the order they came.
#[derive(Debug)]
pub struct Metadata {
    pub slug: Option<String>,
    pub description: Option<String>,
    pub tags: Vec<String>,
    pub emoji: Option<String>,
    pub author: Option<NameAndUrl>,
    pub source: Option<NameAndUrl>,
    pub time: Option<RecipeTime>,
    pub servings: Option<u32>,
    pub map: IndexMap<String, String>,
}

impl Default for Metadata {
    /// No value and no entry.
    fn default() -> (m: Self)
        ensures
            m.slug is None,
            m.description is None,
            m.tags@.len() == 0,
            m.emoji is None,
            m.author is None,
            m.source is None,
            m.time is None,
            m.servings is None,
            map_entries(m.map) == Seq::<(Seq<char>, Seq<char>)>::empty(),
    {
        Metadata {
            slug: None,
            description: None,
            tags: Vec::new(),
            emoji: None,
            author: None,
            source: None,
            time: None,
            servings: None,
            map: map_new(),
        }
    }
}

/// The cooking time in a time, when it is made of parts.
pub open spec fn cook_of(t: Option<RecipeTime>) -> Option<u32> {
    match t {
        Some(RecipeTime::Composed { cook_time, .. }) => cook_time,
        _ => None,
    }
}

/// The preparation time in a time, when it is made of parts.
pub open spec fn prep_of(t: Option<RecipeTime>) -> Option<u32> {
    match t {
        Some(RecipeTime::Composed { prep_time, .. }) => prep_time,
        _ => None,
    }
}

/// The tags that `value` gives: its pieces between commas, trimmed.
pub open spec fn tags_of(value: Seq<char>) -> Seq<Seq<char>> {
    split_from(value, 0).map_values(|p: Seq<char>| trimmed(p))
}

/// The time from a cooking time `m` and an earlier time.
fn composed_time(old_time: Option<RecipeTime>, prep: Option<u32>, cook: Option<u32>) -> (r: RecipeTime)
    ensures
        r == (RecipeTime::Composed { prep_time: prep, cook_time: cook }),
{
    RecipeTime::Composed { prep_time: prep, cook_time: cook }
}

impl Metadata {
    /// Every field but the map is the same in both.
    pub open spec fn same_values(&self, other: &Self) -> bool {
        &&& self.slug == other.slug
        &&& self.description == other.description
        &&& self.tags@ == other.tags@
        &&& self.emoji == other.emoji
        &&& self.author == other.author
        &&& self.source == other.source
        &&& self.time == other.time
        &&& self.servings == other.servings
    }

    /// The values are the same but for the one that key `k` sets (the
    /// time for any of the time keys).
    pub open spec fn same_values_but(&self, other: &Self, k: MetadataKey) -> bool {
        &&& k != MetadataKey::Slug ==> self.slug == other.slug
        &&& k != MetadataKey::Description ==> self.description == other.description
        &&& k != MetadataKey::Tags ==> self.tags@ == other.tags@
        &&& k != MetadataKey::Emoji ==> self.emoji == other.emoji
        &&& k != MetadataKey::Author ==> self.author == other.author
        &&& k != MetadataKey::Source ==> self.source == other.source
        &&& !(k == MetadataKey::Time || k == MetadataKey::PrepTime || k == MetadataKey::CookTime) ==> self.time
            == other.time
        &&& k != MetadataKey::Servings ==> self.servings == other.servings
    }

    /// What inserting `key: value` does: `new` is the metadata after it,
    /// `r` what it answers. The map gets the entry, and the keys that the
    /// library understands set their value; a value that does not fit its
    /// key is an error, with the entry kept in the map.
    pub open spec fn insert_spec(&self, new: &Self, key: Seq<char>, value: Seq<char>, r: Result<(), MetadataError>) -> bool {
        &&& (map_entries(new.map) == entries_insert(map_entries(self.map), key, value))
        &&& new.same_values_but(self, key_of(key))
        &&& (key_of(key) == MetadataKey::Slug ==> r is Ok && (new.slug matches Some(x) && x@ == slug_of(trimmed(value))))
        &&& (key_of(key) == MetadataKey::Description ==> r is Ok && (new.description matches Some(d) && d@ == value))
        &&& (key_of(key) == MetadataKey::Tags ==> {
            let ts = tags_of(value);
            &&& (forall|k: int| 0 <= k < ts.len() ==> tag_ok(#[trigger] ts[k])) ==> {
                &&& r is Ok
                &&& new.tags@.len() == self.tags@.len() + ts.len()
                &&& new.tags@.subrange(0, self.tags@.len() as int) == self.tags@
                &&& forall|k: int| 0 <= k < ts.len() ==> (#[trigger] new.tags@[self.tags@.len() + k])@ == ts[k]
            }
            &&& !(forall|k: int| 0 <= k < ts.len() ==> tag_ok(#[trigger] ts[k])) ==> {
                &&& (r matches Err(MetadataError::InvalidTag { tag }) && tag@ == value)
                &&& new.tags@ == self.tags@
            }
        })
        &&& (key_of(key) == MetadataKey::Emoji ==> {
            &&& is_emoji(value) ==> r is Ok && (new.emoji matches Some(e) && e@ == value)
            &&& !is_emoji(value) ==> (r matches Err(MetadataError::NotEmoji { value: v }) && v@ == value)
                && new.emoji == self.emoji
        })
        &&& (key_of(key) == MetadataKey::Author ==> r is Ok && (new.author matches Some(a) && a.is_read_from(value)))
        &&& (key_of(key) == MetadataKey::Source ==> r is Ok && (new.source matches Some(a) && a.is_read_from(value)))
        &&& (key_of(key) == MetadataKey::Time ==> {
            &&& time_spec(value) matches Some(m) ==> r is Ok && new.time == Some(RecipeTime::Total(m))
            &&& time_spec(value) is None ==> (r matches Err(MetadataError::ParseIntError)) && new.time == self.time
        })
        &&& (key_of(key) == MetadataKey::PrepTime ==> {
            &&& time_spec(value) matches Some(m) ==> r is Ok && new.time == Some(
                RecipeTime::Composed { prep_time: Some(m), cook_time: cook_of(self.time) },
            )
            &&& time_spec(value) is None ==> (r matches Err(MetadataError::ParseIntError)) && new.time == self.time
        })
        &&& (key_of(key) == MetadataKey::CookTime ==> {
            &&& time_spec(value) matches Some(m) ==> r is Ok && new.time == Some(
                RecipeTime::Composed { prep_time: prep_of(self.time), cook_time: Some(m) },
            )
            &&& time_spec(value) is None ==> (r matches Err(MetadataError::ParseIntError)) && new.time == self.time
        })
        &&& (key_of(key) == MetadataKey::Servings ==> {
            &&& std_u32_spec(value) matches Some(n) ==> r is Ok && new.servings == Some(n)
            &&& std_u32_spec(value) is None ==> (r matches Err(MetadataError::ParseIntError))
                && new.servings == self.servings
        })
        &&& (key_of(key) == MetadataKey::Other ==> r is Ok
            && new.same_values(self))
    }

    /// Records `key: value`: the map gets the entry, and the keys that the
    /// library understands set their value. A value that does not fit its
    /// key is an error, with the entry kept in the map.
    pub fn insert(&mut self, key: &str, value: &str) -> (r: Result<(), MetadataError>)
        requires
            crate::encoding::byte_len(value@) <= usize::MAX,
        ensures
            old(self).insert_spec(final(self), key@, value@, r),
    {
        map_insert(&mut self.map, key, value);
        match key_kind(key) {
            MetadataKey::Slug => {
                self.slug = Some(slugify(value));
            },
            MetadataKey::Description => {
                self.description = Some(value.to_owned());
            },
            MetadataKey::Tags => {
                return self.add_tags(value);
            },
            MetadataKey::Emoji => {
                if emoji_exists(value) {
                    self.emoji = Some(value.to_owned());
                } else {
                    return Err(MetadataError::NotEmoji { value: value.to_owned() });
                }
            },
            MetadataKey::Author => {
                self.author = Some(NameAndUrl::new(value));
            },
            MetadataKey::Source => {
                self.source = Some(NameAndUrl::new(value));
            },
            MetadataKey::Time => {
                let t = parse_time(value)?;
                self.time = Some(RecipeTime::Total(t));
            },
            MetadataKey::PrepTime => {
                let cook_time = match self.time {
                    Some(RecipeTime::Composed { cook_time, .. }) => cook_time,
                    _ => None,
                };
                let t = parse_time(value)?;
                self.time = Some(composed_time(self.time, Some(t), cook_time));
            },
            MetadataKey::CookTime => {
                let prep_time = match self.time {
                    Some(RecipeTime::Composed { prep_time, .. }) => prep_time,
                    _ => None,
                };
                let t = parse_time(value)?;
                self.time = Some(composed_time(self.time, prep_time, Some(t)));
            },
            MetadataKey::Servings => {
                match std_parse_u32(value) {
                    Some(n) => {
                        self.servings = Some(n);
                    },
                    None => {
                        return Err(MetadataError::ParseIntError);
                    },
                }
            },
            MetadataKey::Other => {},
        }
        Ok(())
    }

    /// Adds the tags of `value`, its pieces between commas, trimmed, when
    /// they are all valid; else an error and no tag.
    fn add_tags(&mut self, value: &str) -> (r: Result<(), MetadataError>)
        requires
            crate::encoding::byte_len(value@) <= usize::MAX,
        ensures
            map_entries(final(self).map) == map_entries(old(self).map),
            final(self).slug == old(self).slug,
            final(self).description == old(self).description,
            final(self).emoji == old(self).emoji,
            final(self).author == old(self).author,
            final(self).source == old(self).source,
            final(self).time == old(self).time,
            final(self).servings == old(self).servings,
            ({
                let ts = tags_of(value@);
                &&& (forall|k: int| 0 <= k < ts.len() ==> tag_ok(#[trigger] ts[k])) ==> {
                    &&& r is Ok
                    &&& final(self).tags@.len() == old(self).tags@.len() + ts.len()
                    &&& final(self).tags@.subrange(0, old(self).tags@.len() as int) == old(self).tags@
                    &&& forall|k: int| 0 <= k < ts.len() ==> (#[trigger] final(self).tags@[old(self).tags@.len() + k])@ == ts[k]
                }
                &&& !(forall|k: int| 0 <= k < ts.len() ==> tag_ok(#[trigger] ts[k])) ==> {
                    &&& (r matches Err(MetadataError::InvalidTag { tag }) && tag@ == value@)
                    &&& final(self).tags@ == old(self).tags@
                }
            }),
    {
        let pieces = split_commas(value);
        let ghost ts = tags_of(value@);
        let mut new_tags: Vec<String> = Vec::new();
        let mut i: usize = 0;
        while i < pieces.len()
            invariant
                0 <= i <= pieces@.len(),
                pieces@.len() == split_from(value@, 0).len(),
                forall|k: int| 0 <= k < pieces@.len() ==> (#[trigger] pieces@[k])@ == split_from(value@, 0)[k],
                ts == tags_of(value@),
                new_tags@.len() == i,
                forall|k: int| 0 <= k < i ==> (#[trigger] new_tags@[k])@ == ts[k],
                forall|k: int| 0 <= k < i ==> tag_ok(#[trigger] ts[k]),
            decreases pieces@.len() - i,
        {
            let t = str_trim(pieces[i]);
            proof {
                crate::ast::lemma_trimmed(pieces@[i as int]@, t@);
            }
            proof {
                assert(ts[i as int] == trimmed(split_from(value@, 0)[i as int]));
                assert(ts[i as int] == t@);
            }
            if !is_valid_tag(t) {
                return Err(MetadataError::InvalidTag { tag: value.to_owned() });
            }
            new_tags.push(t.to_owned());
            i = i + 1;
        }
        let ghost before = self.tags@;
        let ghost added = new_tags@;
        self.tags.append(&mut new_tags);
        proof {
            assert(self.tags@ == before + added);
            assert(self.tags@.subrange(0, before.len() as int) =~= before);
            assert forall|k: int| 0 <= k < ts.len() implies (#[trigger] self.tags@[before.len() + k])@ == ts[k] by {
                assert(self.tags@[before.len() + k] == added[k]);
            }
        }
        Ok(())
    }
}

/// The names of the keys that the library understands, each spelling:
/// `slug`, `description`, `tag` and `tags`, `emoji`, `author`, `source`,
/// `time`, `prep_time` and `prep time`, `cook_time` and `cook time`, and
/// `servings`. Any other key is kept in the map only.
pub proof fn lemma_key_names()
    ensures
        key_of("slug"@) == MetadataKey::Slug,
        key_of("description"@) == MetadataKey::Description,
        key_of("tag"@) == MetadataKey::Tags,
        key_of("tags"@) == MetadataKey::Tags,
        key_of("emoji"@) == MetadataKey::Emoji,
        key_of("author"@) == MetadataKey::Author,
        key_of("source"@) == MetadataKey::Source,
        key_of("time"@) == MetadataKey::Time,
        key_of("prep_time"@) == MetadataKey::PrepTime,
        key_of("prep time"@) == MetadataKey::PrepTime,
        key_of("cook_time"@) == MetadataKey::CookTime,
        key_of("cook time"@) == MetadataKey::CookTime,
        key_of("servings"@) == MetadataKey::Servings,
{
    reveal_strlit("slug");
    reveal_strlit("description");
    reveal_strlit("tag");
    reveal_strlit("tags");
    reveal_strlit("emoji");
    reveal_strlit("author");
    reveal_strlit("source");
    reveal_strlit("time");
    reveal_strlit("prep_time");
    reveal_strlit("prep time");
    reveal_strlit("cook_time");
    reveal_strlit("cook time");
    reveal_strlit("servings");
    assert("tag"@.len() == 3 && "slug"@.len() == 4 && "description"@.len() == 11);
    assert("emoji"@.len() == 5 && "tags"@.len() == 4 && "author"@.len() == 6 && "source"@.len() == 6);
    assert("time"@.len() == 4 && "prep_time"@.len() == 9 && "prep time"@.len() == 9);
    assert("cook_time"@.len() == 9 && "cook time"@.len() == 9 && "servings"@.len() == 8);
    assert("slug"@[0] != "tags"@[0]);
    assert("time"@[0] != "slug"@[0] && "time"@[1] != "tags"@[1]);
    assert("source"@[0] != "author"@[0]);
    assert("cook time"@[0] != "prep time"@[0] && "cook time"@[0] != "prep_time"@[0]);
    assert("cook_time"@[0] != "prep time"@[0] && "cook_time"@[0] != "prep_time"@[0]);
    assert("prep time"@[4] != "prep_time"@[4]);
}

/// Each spelling of a time key sets its part of the time when the value
/// reads as a time: `cook time` and `cook_time` the cooking time, keeping
/// the preparation time; `prep time` and `prep_time` the preparation time,
/// keeping the cooking time; `time` the total time.
pub proof fn lemma_time_keys(
    m: Metadata,
    new: Metadata,
    key: Seq<char>,
    value: Seq<char>,
    r: Result<(), MetadataError>,
)
    requires
        m.insert_spec(&new, key, value, r),
        time_spec(value) is Some,
    ensures
        key == "cook time"@ || key == "cook_time"@ ==> r is Ok && new.time == Some(
            RecipeTime::Composed { prep_time: prep_of(m.time), cook_time: time_spec(value) },
        ),
        key == "prep time"@ || key == "prep_time"@ ==> r is Ok && new.time == Some(
            RecipeTime::Composed { prep_time: time_spec(value), cook_time: cook_of(m.time) },
        ),
        key == "time"@ ==> r is Ok && new.time == Some(RecipeTime::Total(time_spec(value).unwrap())),
{
    reveal_strlit("slug");
    reveal_strlit("description");
    reveal_strlit("tag");
    reveal_strlit("tags");
    reveal_strlit("emoji");
    reveal_strlit("author");
    reveal_strlit("source");
    reveal_strlit("time");
    reveal_strlit("prep_time");
    reveal_strlit("prep time");
    reveal_strlit("cook_time");
    reveal_strlit("cook time");
    assert("cook time"@[0] != "prep time"@[0] && "cook time"@[0] != "prep_time"@[0]);
    assert("cook_time"@[0] != "prep time"@[0] && "cook_time"@[0] != "prep_time"@[0]);
    assert("time"@[0] != "slug"@[0] && "time"@[1] != "tags"@[1]);
    assert(key_of("time"@) == MetadataKey::Time);
    assert(key_of("cook time"@) == MetadataKey::CookTime);
    assert(key_of("cook_time"@) == MetadataKey::CookTime);
    assert(key_of("prep time"@) == MetadataKey::PrepTime);
    assert(key_of("prep_time"@) == MetadataKey::PrepTime);
}

} // verus!
