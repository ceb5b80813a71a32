//! What a recipe shows when it is written for people to read: the line of
//! ingredients under each step, the numbers of the steps and the lines of
//! metadata.
use vstd::prelude::*;


use crate::encoding::str_chars;
use crate::metadata::{
    key_kind, key_of, map_entries, map_pairs, string_from_chars, Metadata, MetadataKey, NameAndUrl, RecipeTime,
};
use crate::scale::ScaleTarget;

use crate::metadata::str_eq;
use crate::model::{ComponentKind, Ingredient, Item, Section, Step};

verus! {

/// The indices of the ingredients the items name, in order.
pub open spec fn ingredient_ids(items: Seq<Item>) -> Seq<usize>
    decreases items.len(),
{
    if items.len() == 0 {
        Seq::empty()
    } else {
        let rest = ingredient_ids(items.drop_last());
        match items.last() {
            Item::Component(c) => if c.kind == ComponentKind::Ingredient {
                rest.push(c.index)
            } else {
                rest
            },
            _ => rest,
        }
    }
}

/// Those of `ids` whose ingredient is named `name`, in order.
pub open spec fn named_ids(ids: Seq<usize>, ings: Seq<Ingredient>, name: Seq<char>) -> Seq<usize>
    decreases ids.len(),
{
    if ids.len() == 0 {
        Seq::empty()
    } else {
        let rest = named_ids(ids.drop_last(), ings, name);
        if ings[ids.last() as int].name@ == name {
            rest.push(ids.last())
        } else {
            rest
        }
    }
}

/// Those of `ids` whose ingredient has a quantity, in order.
pub open spec fn ids_with_quantity(ids: Seq<usize>, ings: Seq<Ingredient>) -> Seq<usize>
    decreases ids.len(),
{
    if ids.len() == 0 {
        Seq::empty()
    } else {
        let rest = ids_with_quantity(ids.drop_last(), ings);
        if ings[ids.last() as int].quantity is Some {
            rest.push(ids.last())
        } else {
            rest
        }
    }
}

/// The ingredients of a step named `name` that its line shows: those with
/// a quantity, or else the first of them.
pub open spec fn shown_ids(ids: Seq<usize>, ings: Seq<Ingredient>, name: Seq<char>) -> Seq<usize> {
    let g = named_ids(ids, ings, name);
    let q = ids_with_quantity(g, ings);
    if q.len() > 0 {
        q
    } else if g.len() > 0 {
        g.take(1)
    } else {
        g
    }
}

/// The first place of `x` in `s`, if any.
pub open spec fn first_place(s: Seq<usize>, x: usize) -> Option<int>
    decreases s.len(),
{
    if s.len() == 0 {
        None
    } else {
        match first_place(s.drop_last(), x) {
            Some(k) => Some(k),
            None => if s.last() == x {
                Some(s.len() - 1)
            } else {
                None
            },
        }
    }
}

/// The number written under ingredient `i` named `name`: its place among
/// those shown, counted from 1, when more than one is shown.
pub open spec fn subscript(ids: Seq<usize>, ings: Seq<Ingredient>, name: Seq<char>, i: usize) -> Option<usize> {
    let shown = shown_ids(ids, ings, name);
    if shown.len() <= 1 {
        None
    } else {
        match first_place(shown, i) {
            Some(k) => Some((k + 1) as usize),
            None => None,
        }
    }
}

/// The line under a step, for the first `m` ingredients it names (`ids`):
/// each that is shown, with its subscript.
pub open spec fn line_of(ids: Seq<usize>, ings: Seq<Ingredient>, m: int) -> Seq<(usize, Option<usize>)>
    decreases m,
{
    if m <= 0 {
        Seq::empty()
    } else {
        let rest = line_of(ids, ings, m - 1);
        let i = ids[m - 1];
        let name = ings[i as int].name@;
        if shown_ids(ids, ings, name).contains(i) {
            rest.push((i, subscript(ids, ings, name, i)))
        } else {
            rest
        }
    }
}

/// Every ingredient the items name is among `n` ingredients.
pub open spec fn ingredients_below(items: Seq<Item>, n: int) -> bool {
    forall|k: int|
        0 <= k < items.len() ==> (#[trigger] items[k] matches Item::Component(c) ==> (c.kind == ComponentKind::Ingredient
            ==> c.index < n))
}

/// The indices of the ingredients the items name, in order.
fn step_ingredient_ids(items: &Vec<Item>) -> (r: Vec<usize>)
    ensures
        r@ == ingredient_ids(items@),
{
    let mut r: Vec<usize> = Vec::new();
    let mut k: usize = 0;
    while k < items.len()
        invariant
            0 <= k <= items@.len(),
            r@ == ingredient_ids(items@.take(k as int)),
        decreases items@.len() - k,
    {
        proof {
            assert(items@.take(k + 1).drop_last() =~= items@.take(k as int));
        }
        match &items[k] {
            Item::Component(c) => {
                if c.kind == ComponentKind::Ingredient {
                    r.push(c.index);
                }
            },
            _ => {},
        }
        k = k + 1;
    }
    proof {
        assert(items@.take(items@.len() as int) =~= items@);
    }
    r
}

/// The indices are all below `n`.
pub open spec fn all_below(ids: Seq<usize>, n: int) -> bool {
    forall|k: int| 0 <= k < ids.len() ==> #[trigger] ids[k] < n
}

/// The ingredients the items name are among them.
proof fn lemma_ids_below(items: Seq<Item>, n: int)
    requires
        ingredients_below(items, n),
    ensures
        all_below(ingredient_ids(items), n),
    decreases items.len(),
{
    if items.len() > 0 {
        assert(ingredients_below(items.drop_last(), n)) by {
            assert forall|k: int| 0 <= k < items.drop_last().len() implies (#[trigger] items.drop_last()[k] matches Item::Component(c)
                ==> (c.kind == ComponentKind::Ingredient ==> c.index < n)) by {
                assert(items.drop_last()[k] == items[k]);
            }
        }
        lemma_ids_below(items.drop_last(), n);
        assert(items.last() == items[items.len() - 1]);
    }
}

/// The ingredients of a step named `name` that its line shows.
fn shown(ids: &Vec<usize>, ings: &Vec<Ingredient>, name: &str) -> (r: Vec<usize>)
    requires
        all_below(ids@, ings@.len() as int),
    ensures
        r@ == shown_ids(ids@, ings@, name@),
{
    let mut g: Vec<usize> = Vec::new();
    let mut k: usize = 0;
    while k < ids.len()
        invariant
            all_below(ids@, ings@.len() as int),
            0 <= k <= ids@.len(),
            g@ == named_ids(ids@.take(k as int), ings@, name@),
        decreases ids@.len() - k,
    {
        proof {
            assert(ids@.take(k + 1).drop_last() =~= ids@.take(k as int));
        }
        let i = ids[k];
        if str_eq(ings[i].name.as_str(), name) {
            g.push(i);
        }
        k = k + 1;
    }
    proof {
        assert(ids@.take(ids@.len() as int) =~= ids@);
    }
    let mut q: Vec<usize> = Vec::new();
    let mut k: usize = 0;
    proof {
        lemma_named_below(ids@, ings@, name@);
    }
    while k < g.len()
        invariant
            all_below(g@, ings@.len() as int),
            0 <= k <= g@.len(),
            q@ == ids_with_quantity(g@.take(k as int), ings@),
        decreases g@.len() - k,
    {
        proof {
            assert(g@.take(k + 1).drop_last() =~= g@.take(k as int));
        }
        let i = g[k];
        if ings[i].quantity.is_some() {
            q.push(i);
        }
        k = k + 1;
    }
    proof {
        assert(g@.take(g@.len() as int) =~= g@);
    }
    if q.len() > 0 {
        q
    } else {
        let mut first: Vec<usize> = Vec::new();
        if g.len() > 0 {
            first.push(g[0]);
        }
        proof {
            if g@.len() > 0 {
                assert(first@ =~= g@.take(1));
            } else {
                assert(first@ =~= g@);
            }
        }
        first
    }
}

/// The ingredients of a name are among all those named.
proof fn lemma_named_below(ids: Seq<usize>, ings: Seq<Ingredient>, name: Seq<char>)
    requires
        all_below(ids, ings.len() as int),
    ensures
        all_below(named_ids(ids, ings, name), ings.len() as int),
    decreases ids.len(),
{
    if ids.len() > 0 {
        lemma_named_below(ids.drop_last(), ings, name);
    }
}

/// The first place of `x` in `s`, if any.
fn place_of(s: &Vec<usize>, x: usize) -> (r: Option<usize>)
    ensures
        match first_place(s@, x) {
            Some(k) => r == Some(k as usize),
            None => r is None,
        },
{
    let mut k: usize = 0;
    while k < s.len()
        invariant
            0 <= k <= s@.len(),
            first_place(s@.take(k as int), x) is None,
        decreases s@.len() - k,
    {
        proof {
            assert(s@.take(k + 1).drop_last() =~= s@.take(k as int));
        }
        if s[k] == x {
            proof {
                lemma_first_place_prefix(s@, x, k as int);
            }
            return Some(k);
        }
        k = k + 1;
    }
    proof {
        assert(s@.take(s@.len() as int) =~= s@);
    }
    None
}

/// When `x` is first found at `k`, that is its first place in the whole.
proof fn lemma_first_place_prefix(s: Seq<usize>, x: usize, k: int)
    requires
        0 <= k < s.len(),
        s[k] == x,
        first_place(s.take(k), x) is None,
    ensures
        first_place(s, x) == Some(k),
    decreases s.len(),
{
    assert(s.take(k + 1).drop_last() =~= s.take(k));
    if k + 1 < s.len() {
        assert(s.drop_last().take(k) =~= s.take(k));
        lemma_first_place_prefix(s.drop_last(), x, k);
    } else {
        assert(s.take(k + 1) =~= s);
    }
}

/// The line under a step that lists its ingredients: each ingredient the
/// step names, in order, when it is shown (of the ingredients of a name,
/// those with a quantity, or else the first), with its place among those
/// of its name that are shown, counted from 1, when there is more than
/// one.
pub fn step_ingredient_line(step: &Step, ingredients: &Vec<Ingredient>) -> (r: Vec<(usize, Option<usize>)>)
    requires
        ingredients_below(step.items@, ingredients@.len() as int),
    ensures
        r@ == line_of(
            ingredient_ids(step.items@),
            ingredients@,
            ingredient_ids(step.items@).len() as int,
        ),
{
    let ids = step_ingredient_ids(&step.items);
    proof {
        lemma_ids_below(step.items@, ingredients@.len() as int);
    }
    let mut r: Vec<(usize, Option<usize>)> = Vec::new();
    let mut k: usize = 0;
    while k < ids.len()
        invariant
            ids@ == ingredient_ids(step.items@),
            all_below(ids@, ingredients@.len() as int),
            0 <= k <= ids@.len(),
            r@ == line_of(ids@, ingredients@, k as int),
        decreases ids@.len() - k,
    {
        let i = ids[k];
        let name = ingredients[i].name.as_str();
        let shown_here = shown(&ids, ingredients, name);
        let place = place_of(&shown_here, i);
        proof {
            lemma_first_place_found(shown_here@, i);
        }
        match place {
            Some(p) => {
                let sub = if shown_here.len() <= 1 {
                    None
                } else {
                    Some(p + 1)
                };
                proof {
                    assert(shown_here@[p as int] == i);
                    assert(shown_here@.contains(i));
                }
                r.push((i, sub));
            },
            None => {
                proof {
                    lemma_first_place_missing(shown_here@, i);
                }
            },
        }
        k = k + 1;
    }
    r
}

/// The first place of `x` holds `x`.
proof fn lemma_first_place_found(s: Seq<usize>, x: usize)
    ensures
        first_place(s, x) matches Some(k) ==> 0 <= k < s.len() && s[k] == x,
    decreases s.len(),
{
    if s.len() > 0 {
        lemma_first_place_found(s.drop_last(), x);
    }
}

/// What has no first place is not there.
proof fn lemma_first_place_missing(s: Seq<usize>, x: usize)
    requires
        first_place(s, x) is None,
    ensures
        !s.contains(x),
    decreases s.len(),
{
    if s.len() > 0 {
        lemma_first_place_missing(s.drop_last(), x);
        assert forall|k: int| 0 <= k < s.len() implies s[k] != x by {
            if k < s.len() - 1 {
                assert(s.drop_last()[k] == s[k]);
            }
        }
    }
}

/// How many of the steps are not text steps.
pub open spec fn counted_steps(steps: Seq<Step>) -> nat
    decreases steps.len(),
{
    if steps.len() == 0 {
        0
    } else {
        counted_steps(steps.drop_last()) + if steps.last().is_text {
            0nat
        } else {
            1nat
        }
    }
}

/// A step has no more steps before it than its place.
proof fn lemma_counted_below(steps: Seq<Step>)
    ensures
        counted_steps(steps) <= steps.len(),
    decreases steps.len(),
{
    if steps.len() > 0 {
        lemma_counted_below(steps.drop_last());
    }
}

/// The number shown before each step of a section: none for a text step,
/// else its place among the steps that are not text, counted from 1.
pub fn step_numbers(section: &Section) -> (r: Vec<Option<usize>>)
    ensures
        r@.len() == section.steps@.len(),
        forall|k: int|
            0 <= k < r@.len() ==> #[trigger] r@[k] == (if section.steps@[k].is_text {
                None
            } else {
                Some((counted_steps(section.steps@.take(k + 1))) as usize)
            }),
{
    let mut r: Vec<Option<usize>> = Vec::new();
    let mut counter: usize = 0;
    let mut k: usize = 0;
    while k < section.steps.len()
        invariant
            0 <= k <= section.steps@.len(),
            r@.len() == k,
            counter == counted_steps(section.steps@.take(k as int)),
            forall|j: int|
                0 <= j < k ==> #[trigger] r@[j] == (if section.steps@[j].is_text {
                    None
                } else {
                    Some((counted_steps(section.steps@.take(j + 1))) as usize)
                }),
        decreases section.steps@.len() - k,
    {
        proof {
            assert(section.steps@.take(k + 1).drop_last() =~= section.steps@.take(k as int));
            lemma_counted_below(section.steps@.take(k as int));
        }
        if section.steps[k].is_text {
            r.push(None);
        } else {
            counter = counter + 1;
            r.push(Some(counter));
        }
        k = k + 1;
    }
    r
}

/// The decimal digit `d`.
pub open spec fn digit_char(d: nat) -> char {
    if d == 0 {
        '0'
    } else if d == 1 {
        '1'
    } else if d == 2 {
        '2'
    } else if d == 3 {
        '3'
    } else if d == 4 {
        '4'
    } else if d == 5 {
        '5'
    } else if d == 6 {
        '6'
    } else if d == 7 {
        '7'
    } else if d == 8 {
        '8'
    } else {
        '9'
    }
}

/// `n` written in decimal.
pub open spec fn decimal(n: nat) -> Seq<char>
    decreases n,
{
    if n < 10 {
        seq![digit_char(n)]
    } else {
        decimal(n / 10).push(digit_char(n % 10))
    }
}

/// The character written for `c` in a subscript: a digit becomes the
/// subscript digit (U+2080 to U+2089), anything else stays.
pub open spec fn subscript_char(c: char) -> char {
    if c == '0' {
        '\u{2080}'
    } else if c == '1' {
        '\u{2081}'
    } else if c == '2' {
        '\u{2082}'
    } else if c == '3' {
        '\u{2083}'
    } else if c == '4' {
        '\u{2084}'
    } else if c == '5' {
        '\u{2085}'
    } else if c == '6' {
        '\u{2086}'
    } else if c == '7' {
        '\u{2087}'
    } else if c == '8' {
        '\u{2088}'
    } else if c == '9' {
        '\u{2089}'
    } else {
        c
    }
}

/// A digit's subscript is the subscript digit of the same value, from
/// U+2080 on; any other character is left as it is.
pub proof fn lemma_subscript_digits(c: char)
    ensures
        '0' <= c <= '9' ==> subscript_char(c) as int == 0x2080 + (c as int - '0' as int),
        !('0' <= c <= '9') ==> subscript_char(c) == c,
{
}

/// The subscript form of `c`.
fn subscript_of(c: char) -> (r: char)
    ensures
        r == subscript_char(c),
{
    match c {
        '0' => '\u{2080}',
        '1' => '\u{2081}',
        '2' => '\u{2082}',
        '3' => '\u{2083}',
        '4' => '\u{2084}',
        '5' => '\u{2085}',
        '6' => '\u{2086}',
        '7' => '\u{2087}',
        '8' => '\u{2088}',
        '9' => '\u{2089}',
        _ => c,
    }
}

/// Writes `s` after `buffer` as a subscript: each digit as the subscript
/// digit, every other character as it is.
pub fn write_subscript(buffer: &mut Vec<char>, s: &str)
    ensures
        final(buffer)@ == old(buffer)@ + s@.map_values(|c: char| subscript_char(c)),
{
    let cs = str_chars(s);
    let ghost start = buffer@;
    let mut i: usize = 0;
    while i < cs.len()
        invariant
            cs@ == s@,
            0 <= i <= cs@.len(),
            buffer@ == start + cs@.take(i as int).map_values(|c: char| subscript_char(c)),
        decreases cs@.len() - i,
    {
        buffer.push(subscript_of(cs[i]));
        proof {
            assert(cs@.take(i + 1).map_values(|c: char| subscript_char(c)) =~= cs@.take(i as int).map_values(
                |c: char| subscript_char(c),
            ).push(subscript_char(cs@[i as int])));
        }
        i = i + 1;
    }
    proof {
        assert(cs@.take(cs@.len() as int) =~= cs@);
    }
}

/// The decimal digit `d`.
fn digit(d: u32) -> (c: char)
    requires
        d < 10,
    ensures
        c == digit_char(d as nat),
{
    if d == 0 {
        '0'
    } else if d == 1 {
        '1'
    } else if d == 2 {
        '2'
    } else if d == 3 {
        '3'
    } else if d == 4 {
        '4'
    } else if d == 5 {
        '5'
    } else if d == 6 {
        '6'
    } else if d == 7 {
        '7'
    } else if d == 8 {
        '8'
    } else {
        '9'
    }
}

/// `n` written in decimal.
pub fn decimal_chars(n: u32) -> (r: Vec<char>)
    ensures
        r@ == decimal(n as nat),
{
    let mut m = n;
    let mut rev: Vec<char> = Vec::new();
    while m >= 10
        invariant
            decimal(n as nat) == decimal(m as nat) + rev@.reverse(),
        decreases m,
    {
        let d = digit(m % 10);
        let ghost before = rev@;
        rev.push(d);
        proof {
            assert(rev@.reverse() =~= seq![d] + before.reverse());
            assert(decimal(m as nat) == decimal((m / 10) as nat).push(digit_char((m % 10) as nat)));
            assert(decimal(m as nat) + before.reverse() =~= decimal((m / 10) as nat) + rev@.reverse());
        }
        m = m / 10;
    }
    let ghost before = rev@;
    rev.push(digit(m));
    proof {
        assert(rev@.reverse() =~= seq![digit_char(m as nat)] + before.reverse());
        assert(decimal(n as nat) =~= rev@.reverse());
    }
    let mut r: Vec<char> = Vec::new();
    let mut k: usize = rev.len();
    while k > 0
        invariant
            0 <= k <= rev@.len(),
            r@ == rev@.reverse().take(rev@.len() - k),
        decreases k,
    {
        k = k - 1;
        r.push(rev[k]);
        proof {
            assert(r@ =~= rev@.reverse().take(rev@.len() - k));
        }
    }
    proof {
        assert(rev@.reverse().take(rev@.len() as int) =~= rev@.reverse());
    }
    r
}

/// One part of the text of a duration: `value` in decimal and the unit's
/// `name`, with an `s` after a calendar unit's name when `value` is more
/// than one; no part at all when `value` is 0.
pub open spec fn duration_part(value: nat, name: Seq<char>, plural: bool) -> Seq<Seq<char>> {
    if value == 0 {
        Seq::empty()
    } else if plural && value > 1 {
        seq![decimal(value) + name + seq!['s']]
    } else {
        seq![decimal(value) + name]
    }
}

/// The parts, one space between two of them.
pub open spec fn joined_by_spaces(parts: Seq<Seq<char>>) -> Seq<char>
    decreases parts.len(),
{
    if parts.len() == 0 {
        Seq::empty()
    } else if parts.len() == 1 {
        parts[0]
    } else {
        joined_by_spaces(parts.drop_last()) + seq![' '] + parts.last()
    }
}

/// The text of a duration of `seconds` whole seconds, as
/// `humantime::format_duration` writes it: `0s` for none, else the years
/// (365.25 days), months (30.44 days), days, hours, minutes and seconds
/// that are not 0, largest first.
#[verifier::opaque]
pub open spec fn duration_text(seconds: u64) -> Seq<char> {
    if seconds == 0 {
        seq!['0', 's']
    } else {
        let ydays = seconds % 31_557_600;
        let mdays = ydays % 2_630_016;
        let day_secs = mdays % 86400;
        joined_by_spaces(
            duration_part((seconds / 31_557_600) as nat, seq!['y', 'e', 'a', 'r'], true)
                + duration_part((ydays / 2_630_016) as nat, seq!['m', 'o', 'n', 't', 'h'], true)
                + duration_part((mdays / 86400) as nat, seq!['d', 'a', 'y'], true)
                + duration_part((day_secs / 3600) as nat, seq!['h'], false)
                + duration_part((day_secs % 3600 / 60) as nat, seq!['m'], false)
                + duration_part((day_secs % 60) as nat, seq!['s'], false),
        )
    }
}

/// The seconds in `minutes` minutes.
pub open spec fn minutes_in_seconds(minutes: u32) -> u64 {
    (minutes * 60) as u64
}

/// `humantime::format_duration` of a number of seconds, as text: the
/// `Display` of its `FormattedDuration`, which for whole seconds writes
/// the parts that [duration_text] lists.
#[verifier::external_body]
fn format_seconds(seconds: u64) -> (r: String)
    ensures
        r@ == duration_text(seconds),
{
    format!("{}", humantime::format_duration(std::time::Duration::from_secs(seconds)))
}

/// The text of a duration of `minutes` minutes.
fn format_minutes(minutes: u32) -> (r: String)
    ensures
        r@ == duration_text(minutes_in_seconds(minutes)),
{
    let seconds: u64 = minutes as u64 * 60;
    format_seconds(seconds)
}

/// Who wrote a recipe or where it comes from, as shown: the name, else the
/// text of the URL, else `-`.
pub open spec fn who_text(a: NameAndUrl) -> Seq<char> {
    match a.name {
        Some(n) => n@,
        None => match a.url {
            Some(u) => u@,
            None => seq!['-'],
        },
    }
}

/// The servings as shown: marked with brackets when they are those the
/// recipe is scaled to (always when it is not scaled), and followed by
/// `-> target` when it is scaled to other servings.
pub open spec fn servings_text(s: u32, target: Option<ScaleTarget>) -> Seq<char> {
    let index = match target {
        Some(t) => t.index_spec(),
        None => Some(0usize),
    };
    let base = if index == Some(0usize) {
        seq!['['] + decimal(s as nat) + seq![']']
    } else {
        decimal(s as nat)
    };
    match target {
        Some(t) => if t.index_spec() is None {
            base + seq![' ', '-', '>', ' '] + decimal(t.target_spec() as nat)
        } else {
            base
        },
        None => base,
    }
}

/// The entries whose keys the library does not read into a field of its
/// own, in their order.
pub open spec fn other_entries(es: Seq<(Seq<char>, Seq<char>)>) -> Seq<(Seq<char>, Seq<char>)>
    decreases es.len(),
{
    if es.len() == 0 {
        Seq::empty()
    } else {
        let rest = other_entries(es.drop_last());
        if key_of(es.last().0) == MetadataKey::Other {
            rest.push(es.last())
        } else {
            rest
        }
    }
}

/// The lines of metadata shown for a recipe, key and value: the author,
/// the source, the time (or the preparation and cooking times) and the
/// servings, each when there is one, then the other entries of the map.
pub open spec fn metadata_view(meta: Metadata, target: Option<ScaleTarget>) -> Seq<(Seq<char>, Seq<char>)> {
    let a = match meta.author {
        Some(x) => seq![("author"@, who_text(x))],
        None => Seq::empty(),
    };
    let s = match meta.source {
        Some(x) => seq![("source"@, who_text(x))],
        None => Seq::empty(),
    };
    let t = match meta.time {
        Some(RecipeTime::Total(m)) => seq![("time"@, duration_text(minutes_in_seconds(m)))],
        Some(RecipeTime::Composed { prep_time, cook_time }) => (match prep_time {
            Some(p) => seq![("prep time"@, duration_text(minutes_in_seconds(p)))],
            None => Seq::empty(),
        }) + (match cook_time {
            Some(c) => seq![("cook time"@, duration_text(minutes_in_seconds(c)))],
            None => Seq::empty(),
        }),
        None => Seq::empty(),
    };
    let v = match meta.servings {
        Some(n) => seq![("servings"@, servings_text(n, target))],
        None => Seq::empty(),
    };
    a + s + t + v + other_entries(map_entries(meta.map))
}

/// The key and value of each line.
pub open spec fn pairs_view(v: Seq<(String, String)>) -> Seq<(Seq<char>, Seq<char>)> {
    v.map_values(|p: (String, String)| (p.0@, p.1@))
}

/// Who wrote a recipe or where it comes from, as shown.
fn who(a: &NameAndUrl) -> (r: String)
    ensures
        r@ == who_text(*a),
{
    match &a.name {
        Some(n) => n.clone(),
        None => match &a.url {
            Some(u) => u.clone(),
            None => {
                let r = string_from_chars(&vec!['-']);
                proof {
                    assert(r@ =~= who_text(*a));
                }
                r
            },
        },
    }
}

/// `a` followed by `b`.
fn append(a: Vec<char>, b: Vec<char>) -> (r: Vec<char>)
    ensures
        r@ == a@ + b@,
{
    let mut a = a;
    let mut b = b;
    a.append(&mut b);
    a
}

/// The servings as shown.
fn servings_line(s: u32, target: &Option<ScaleTarget>) -> (r: String)
    ensures
        r@ == servings_text(s, *target),
{
    let index = match target {
        Some(t) => t.index(),
        None => Some(0),
    };
    let base = if index == Some(0) {
        append(append(vec!['['], decimal_chars(s)), vec![']'])
    } else {
        decimal_chars(s)
    };
    let all = match target {
        Some(t) => {
            if t.index().is_none() {
                append(append(base, vec![' ', '-', '>', ' ']), decimal_chars(t.target_servings()))
            } else {
                base
            }
        },
        None => base,
    };
    proof {
        assert(all@ =~= servings_text(s, *target));
    }
    string_from_chars(&all)
}

/// The lines of metadata shown for a recipe scaled to `target` (or not
/// scaled): key and value for its author and source (name, else URL,
/// else `-`), its time or its preparation and cooking times (as humantime
/// writes a duration) and its servings.
pub fn metadata_lines(meta: &Metadata, target: Option<ScaleTarget>) -> (r: Vec<(String, String)>)
    ensures
        pairs_view(r@) == metadata_view(*meta, target),
{
    let mut r: Vec<(String, String)> = Vec::new();
    if let Some(a) = &meta.author {
        let t = who(a);
        r.push(("author".to_owned(), t));
    }
    if let Some(a) = &meta.source {
        let t = who(a);
        r.push(("source".to_owned(), t));
    }
    match &meta.time {
        Some(RecipeTime::Total(m)) => r.push(("time".to_owned(), format_minutes(*m))),
        Some(RecipeTime::Composed { prep_time, cook_time }) => {
            if let Some(p) = prep_time {
                r.push(("prep time".to_owned(), format_minutes(*p)));
            }
            if let Some(c) = cook_time {
                r.push(("cook time".to_owned(), format_minutes(*c)));
            }
        },
        None => {},
    }
    if let Some(n) = meta.servings {
        r.push(("servings".to_owned(), servings_line(n, &target)));
    }
    let ghost head = pairs_view(r@);
    let pairs = map_pairs(&meta.map);
    let ghost es = map_entries(meta.map);
    let mut i: usize = 0;
    proof {
        assert(es.take(0) =~= Seq::<(Seq<char>, Seq<char>)>::empty());
        assert(pairs_view(r@) =~= head + other_entries(es.take(0)));
    }
    while i < pairs.len()
        invariant
            0 <= i <= pairs@.len(),
            pairs@.map_values(|p: (String, String)| (p.0@, p.1@)) == es,
            pairs_view(r@) == head + other_entries(es.take(i as int)),
        decreases pairs@.len() - i,
    {
        let (k, v) = &pairs[i];
        proof {
            assert(es[i as int] == (k@, v@));
            assert(es.take(i + 1).drop_last() =~= es.take(i as int));
            assert(es.take(i + 1).last() == es[i as int]);
        }
        let ghost before = r@;
        if key_kind(k.as_str()) == MetadataKey::Other {
            r.push((k.clone(), v.clone()));
            proof {
                assert(pairs_view(r@) =~= pairs_view(before).push((k@, v@)));
            }
        }
        i = i + 1;
    }
    proof {
        assert(es.take(pairs@.len() as int) =~= es);
        assert(pairs_view(r@) =~= metadata_view(*meta, target));
    }
    r
}

/// After the lines of who wrote the recipe and where it comes from come
/// the times: the total time as `time`, or the preparation time as `prep
/// time` before the cooking time as `cook time`, each as the duration of
/// its minutes; then the servings.
pub proof fn lemma_time_lines(meta: Metadata, target: Option<ScaleTarget>)
    ensures
        ({
            let v = metadata_view(meta, target);
            let s = (if meta.author is Some { 1int } else { 0int }) + (if meta.source is Some { 1int } else { 0int });
            let after = match meta.time {
                Some(RecipeTime::Total(_)) => s + 1,
                Some(RecipeTime::Composed { prep_time, cook_time }) => s + (if prep_time is Some { 1int } else { 0int })
                    + (if cook_time is Some { 1int } else { 0int }),
                None => s,
            };
            &&& meta.time matches Some(RecipeTime::Total(m)) ==> v[s] == ("time"@, duration_text(
                minutes_in_seconds(m),
            ))
            &&& meta.time matches Some(RecipeTime::Composed { prep_time: Some(p), .. }) ==> v[s] == (
                "prep time"@,
                duration_text(minutes_in_seconds(p)),
            )
            &&& meta.time matches Some(RecipeTime::Composed { prep_time, cook_time: Some(c) }) ==> v[s + (if prep_time
                is Some { 1int } else { 0int })] == ("cook time"@, duration_text(minutes_in_seconds(c)))
            &&& meta.servings matches Some(n) ==> v[after] == ("servings"@, servings_text(n, target))
        }),
{
}

/// The first lines show who wrote the recipe and where it comes from: the
/// author's line comes first when there is an author, then the source's;
/// each shows the name whenever there is one, the URL only when there is
/// no name, and `-` when there is neither.
pub proof fn lemma_who_lines(meta: Metadata, target: Option<ScaleTarget>)
    ensures
        ({
            let v = metadata_view(meta, target);
            let s = if meta.author is Some { 1int } else { 0int };
            &&& meta.author matches Some(a) ==> {
                &&& v[0].0 == "author"@
                &&& a.name matches Some(n) ==> v[0].1 == n@
                &&& a.name is None ==> (a.url matches Some(u) ==> v[0].1 == u@)
                &&& a.name is None && a.url is None ==> v[0].1 == seq!['-']
            }
            &&& meta.source matches Some(a) ==> {
                &&& v[s].0 == "source"@
                &&& a.name matches Some(n) ==> v[s].1 == n@
                &&& a.name is None ==> (a.url matches Some(u) ==> v[s].1 == u@)
                &&& a.name is None && a.url is None ==> v[s].1 == seq!['-']
            }
        }),
{
}

} // verus!
