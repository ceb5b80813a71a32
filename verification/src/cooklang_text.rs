//! A recipe's steps written back as Cooklang text: each component with its
//! sigil, modifiers, name, alias, quantity and note.
use vstd::prelude::*;

use crate::ast::{lemma_trimmed, str_trim, trimmed, Number, NumberView, Value, ValueView};
use crate::encoding::str_chars;
use crate::human::{decimal, decimal_chars, digit_char};
use crate::parser::quantity::{digits_value, is_digits, parse_u32_spec};
use crate::metadata::{char_is_alphanumeric, is_alphanumeric, string_from_chars};
use crate::model::{ComponentKind, Item, RecipeContent, Step};
use crate::quantity::{Quantity, QuantityValue, QuantityValueView};

verus! {

/// A number as written: an integer, the digits of a decimal, `a/b` or
/// `w a/b`.
pub open spec fn number_text(n: NumberView) -> Seq<char> {
    match n {
        NumberView::Int(i) => decimal(i as nat),
        NumberView::Decimal(s) => s,
        NumberView::Fraction { num, den } => decimal(num as nat) + seq!['/'] + decimal(den as nat),
        NumberView::Mixed { whole, num, den } => decimal(whole as nat) + seq![' '] + decimal(num as nat) + seq!['/']
            + decimal(den as nat),
    }
}

/// A value as written: a number, a range `a-b`, or text.
pub open spec fn value_text(v: ValueView) -> Seq<char> {
    match v {
        ValueView::Number(n) => number_text(n),
        ValueView::Range(a, b) => number_text(a) + seq!['-'] + number_text(b),
        ValueView::Text(s) => s,
    }
}

/// A decimal digit is worth its number.
proof fn lemma_digit_char_value(d: nat)
    requires
        d < 10,
    ensures
        '0' <= digit_char(d) <= '9',
        digit_char(d) as int - '0' as int == d,
{
}

/// The decimal text of `n` is one or more digits that read back as `n`.
pub proof fn lemma_decimal_reads_back(n: nat)
    ensures
        is_digits(decimal(n)),
        digits_value(decimal(n)) == n,
    decreases n,
{
    lemma_digit_char_value(n % 10);
    if n < 10 {
        assert(decimal(n).drop_last() =~= Seq::<char>::empty());
        assert(digits_value(decimal(n)) == digits_value(decimal(n).drop_last()) * 10 + (decimal(n).last() as int
            - '0' as int));
    } else {
        lemma_decimal_reads_back(n / 10);
        assert(decimal(n).drop_last() =~= decimal(n / 10));
        assert(decimal(n).last() == digit_char(n % 10));
        assert(digits_value(decimal(n)) == digits_value(decimal(n).drop_last()) * 10 + (decimal(n).last() as int
            - '0' as int));
        assert((n / 10) * 10 + n % 10 == n);
        assert forall|k: int| 0 <= k < decimal(n).len() implies '0' <= #[trigger] decimal(n)[k] && decimal(n)[k] <= '9' by {
            if k < decimal(n).len() - 1 {
                assert(decimal(n)[k] == decimal(n / 10)[k]);
            }
        }
    }
}

/// A range is written as its start, a `-` and its end, each as the number
/// alone is written.
pub proof fn lemma_range_text(a: NumberView, b: NumberView)
    ensures
        value_text(ValueView::Range(a, b)) == value_text(ValueView::Number(a)) + seq!['-'] + value_text(
            ValueView::Number(b),
        ),
{
}

/// The text of a range of integers reads back as that range: the digits
/// before its `-` are the start, those after it the end.
pub proof fn lemma_int_range_reads_back(a: u32, b: u32)
    ensures
        ({
            let t = value_text(ValueView::Range(NumberView::Int(a), NumberView::Int(b)));
            exists|k: int|
                0 <= k < t.len() && t[k] == '-' && parse_u32_spec(#[trigger] t.take(k)) == Some(a) && parse_u32_spec(
                    t.skip(k + 1),
                ) == Some(b)
        }),
{
    lemma_decimal_reads_back(a as nat);
    lemma_decimal_reads_back(b as nat);
    let da = decimal(a as nat);
    let db = decimal(b as nat);
    let t = value_text(ValueView::Range(NumberView::Int(a), NumberView::Int(b)));
    let k = da.len() as int;
    assert(t.take(k) =~= da);
    assert(t.skip(k + 1) =~= db);
    assert(t[k] == '-');
}

/// The text of a fraction reads back as that fraction: the digits before
/// its `/` are the numerator, those after it the denominator.
pub proof fn lemma_fraction_reads_back(num: u32, den: u32)
    ensures
        ({
            let t = value_text(ValueView::Number(NumberView::Fraction { num, den }));
            exists|k: int|
                0 <= k < t.len() && t[k] == '/' && parse_u32_spec(#[trigger] t.take(k)) == Some(num)
                    && parse_u32_spec(t.skip(k + 1)) == Some(den)
        }),
{
    lemma_decimal_reads_back(num as nat);
    lemma_decimal_reads_back(den as nat);
    let t = value_text(ValueView::Number(NumberView::Fraction { num, den }));
    let k = decimal(num as nat).len() as int;
    assert(t.take(k) =~= decimal(num as nat));
    assert(t.skip(k + 1) =~= decimal(den as nat));
    assert(t[k] == '/');
}

/// The text of a mixed number reads back as that number: the whole part,
/// a space, then the fraction, each part in digits.
pub proof fn lemma_mixed_reads_back(whole: u32, num: u32, den: u32)
    ensures
        ({
            let t = value_text(ValueView::Number(NumberView::Mixed { whole, num, den }));
            exists|k: int, l: int|
                0 <= k < l < t.len() && t[k] == ' ' && t[l] == '/' && parse_u32_spec(#[trigger] t.take(k)) == Some(
                    whole,
                ) && parse_u32_spec(#[trigger] t.subrange(k + 1, l)) == Some(num) && parse_u32_spec(t.skip(l + 1))
                    == Some(den)
        }),
{
    lemma_decimal_reads_back(whole as nat);
    lemma_decimal_reads_back(num as nat);
    lemma_decimal_reads_back(den as nat);
    let t = value_text(ValueView::Number(NumberView::Mixed { whole, num, den }));
    let k = decimal(whole as nat).len() as int;
    let l = k + 1 + decimal(num as nat).len();
    assert(t.take(k) =~= decimal(whole as nat));
    assert(t.subrange(k + 1, l) =~= decimal(num as nat));
    assert(t.skip(l + 1) =~= decimal(den as nat));
    assert(t[k] == ' ');
    assert(t[l] == '/');
}

/// Values written one after the other, with `|` between them.
pub open spec fn values_joined(vs: Seq<ValueView>) -> Seq<char>
    decreases vs.len(),
{
    if vs.len() == 0 {
        Seq::empty()
    } else if vs.len() == 1 {
        value_text(vs[0])
    } else {
        values_joined(vs.drop_last()) + seq!['|'] + value_text(vs.last())
    }
}

/// A quantity's value as written.
pub open spec fn qvalue_text(q: QuantityValueView) -> Seq<char> {
    match q {
        QuantityValueView::Fixed(v) => value_text(v),
        QuantityValueView::Linear(v) => value_text(v),
        QuantityValueView::ByServings(vs) => values_joined(vs),
    }
}

/// The modifiers as written: `@` for a recipe, `&` for a reference, `-`
/// for hidden, `?` for optional and `+` for new, in that order.
pub open spec fn modifiers_text(bits: u32) -> Seq<char> {
    (if bits & 1u32 == 1u32 {
        seq!['@']
    } else {
        Seq::empty()
    }) + (if bits & 2u32 == 2u32 {
        seq!['&']
    } else {
        Seq::empty()
    }) + (if bits & 4u32 == 4u32 {
        seq!['-']
    } else {
        Seq::empty()
    }) + (if bits & 8u32 == 8u32 {
        seq!['?']
    } else {
        Seq::empty()
    }) + (if bits & 16u32 == 16u32 {
        seq!['+']
    } else {
        Seq::empty()
    })
}

/// Each modifier is written with its own character, once, exactly when
/// its flag is set: `@` for a recipe, `&` for a reference, `-` for hidden,
/// `?` for optional and `+` for new.
pub proof fn lemma_modifiers_written(bits: u32)
    ensures
        modifiers_text(bits).contains('@') <==> bits & 1u32 == 1u32,
        modifiers_text(bits).contains('&') <==> bits & 2u32 == 2u32,
        modifiers_text(bits).contains('-') <==> bits & 4u32 == 4u32,
        modifiers_text(bits).contains('?') <==> bits & 8u32 == 8u32,
        modifiers_text(bits).contains('+') <==> bits & 16u32 == 16u32,
{
    let p1: Seq<char> = if bits & 1u32 == 1u32 { seq!['@'] } else { Seq::empty() };
    let p2: Seq<char> = if bits & 2u32 == 2u32 { seq!['&'] } else { Seq::empty() };
    let p3: Seq<char> = if bits & 4u32 == 4u32 { seq!['-'] } else { Seq::empty() };
    let p4: Seq<char> = if bits & 8u32 == 8u32 { seq!['?'] } else { Seq::empty() };
    let p5: Seq<char> = if bits & 16u32 == 16u32 { seq!['+'] } else { Seq::empty() };
    let t = modifiers_text(bits);
    assert(t =~= p1 + p2 + p3 + p4 + p5);
    let l1 = p1.len() as int;
    let l2 = l1 + p2.len();
    let l3 = l2 + p3.len();
    let l4 = l3 + p4.len();
    assert forall|k: int| 0 <= k < t.len() implies (k < l1 ==> t[k] == '@') && (l1 <= k < l2 ==> t[k] == '&') && (l2
        <= k < l3 ==> t[k] == '-') && (l3 <= k < l4 ==> t[k] == '?') && (l4 <= k ==> t[k] == '+') by {
        if k < l1 {
            assert(t[k] == p1[k]);
        } else if k < l2 {
            assert(t[k] == p2[k - l1]);
        } else if k < l3 {
            assert(t[k] == p3[k - l2]);
        } else if k < l4 {
            assert(t[k] == p4[k - l3]);
        } else {
            assert(t[k] == p5[k - l4]);
        }
    }
    if bits & 1u32 == 1u32 {
        assert(t[0] == '@');
    }
    if bits & 2u32 == 2u32 {
        assert(t[l1] == '&');
    }
    if bits & 4u32 == 4u32 {
        assert(t[l2] == '-');
    }
    if bits & 8u32 == 8u32 {
        assert(t[l3] == '?');
    }
    if bits & 16u32 == 16u32 {
        assert(t[l4] == '+');
    }
}

/// A name that needs braces after it: one with a character that is not a
/// letter or a digit, or one with an alias.
pub open spec fn multi_word(name: Seq<char>, alias: Option<Seq<char>>) -> bool {
    alias is Some || exists|k: int| 0 <= k < name.len() && !is_alphanumeric(#[trigger] name[k])
}

/// The name of a component as written, with `|alias`.
pub open spec fn name_part(name: Option<Seq<char>>, alias: Option<Seq<char>>) -> Seq<char> {
    match name {
        Some(n) => n + match alias {
            Some(a) => seq!['|'] + a,
            None => Seq::empty(),
        },
        None => Seq::empty(),
    }
}

/// The quantity of a component as written: `{value%unit}`, or `{}` after
/// a name that needs braces.
pub open spec fn quantity_part(
    name: Option<Seq<char>>,
    alias: Option<Seq<char>>,
    quantity: Option<(Seq<char>, Option<Seq<char>>)>,
) -> Seq<char> {
    match quantity {
        Some((v, u)) => seq!['{'] + v + match u {
            Some(u) => seq!['%'] + u,
            None => Seq::empty(),
        } + seq!['}'],
        None => if (match name {
            Some(n) => multi_word(n, alias),
            None => false,
        }) {
            seq!['{', '}']
        } else {
            Seq::empty()
        },
    }
}

/// The note of a component as written, in parentheses.
pub open spec fn note_part(note: Option<Seq<char>>) -> Seq<char> {
    match note {
        Some(n) => seq!['('] + n + seq![')'],
        None => Seq::empty(),
    }
}

/// A component as written: its sigil, its modifiers, its name (with
/// `|alias`), its quantity in braces (`{value%unit}`, or `{}` after a name
/// that needs them) and its note in parentheses.
pub open spec fn component_text(
    sigil: char,
    bits: u32,
    name: Option<Seq<char>>,
    alias: Option<Seq<char>>,
    quantity: Option<(Seq<char>, Option<Seq<char>>)>,
    note: Option<Seq<char>>,
) -> Seq<char> {
    seq![sigil] + modifiers_text(bits) + name_part(name, alias) + quantity_part(name, alias, quantity) + note_part(
        note,
    )
}

/// The characters of an optional string.
pub open spec fn opt_chars(s: Option<String>) -> Option<Seq<char>> {
    match s {
        Some(x) => Some(x@),
        None => None,
    }
}

/// A quantity's value and unit, as written.
pub open spec fn quantity_parts(q: Quantity) -> (Seq<char>, Option<Seq<char>>) {
    (qvalue_text(q.value_spec()@), q.unit_spec())
}

/// An item of a step as written.
pub open spec fn item_text(it: Item, content: RecipeContent) -> Seq<char> {
    match it {
        Item::Text(s) => s@,
        Item::Component(c) => match c.kind {
            ComponentKind::Ingredient => {
                let i = content.ingredients@[c.index as int];
                component_text(
                    '@',
                    i.modifiers.bits_spec(),
                    Some(i.name@),
                    opt_chars(i.alias),
                    match i.quantity {
                        Some(q) => Some(quantity_parts(q)),
                        None => None,
                    },
                    opt_chars(i.note),
                )
            },
            ComponentKind::Cookware => {
                let w = content.cookware@[c.index as int];
                component_text(
                    '#',
                    0,
                    Some(w.name@),
                    None,
                    match w.quantity {
                        Some(v) => Some((qvalue_text(v@), None)),
                        None => None,
                    },
                    None,
                )
            },
            ComponentKind::Timer => {
                let t = content.timers@[c.index as int];
                component_text('~', 0, opt_chars(t.name), None, Some(quantity_parts(t.quantity)), None)
            },
        },
        Item::InlineQuantity(k) => {
            let q = content.inline_quantities@[k as int];
            qvalue_text(q.value_spec()@) + match q.unit_spec() {
                Some(u) => u,
                None => Seq::empty(),
            }
        },
    }
}

/// A component is written starting with its sigil, its modifiers right
/// after it: `@` for an ingredient, `#` for cookware, `~` for a timer.
pub proof fn lemma_component_sigils(it: Item, content: RecipeContent)
    requires
        it is Component,
    ensures
        ({
            let t = item_text(it, content);
            let c = it->Component_0;
            &&& c.kind == ComponentKind::Ingredient ==> t[0] == '@' && t.subrange(
                1,
                1 + modifiers_text(content.ingredients@[c.index as int].modifiers.bits_spec()).len() as int,
            ) == modifiers_text(content.ingredients@[c.index as int].modifiers.bits_spec())
            &&& c.kind == ComponentKind::Cookware ==> t[0] == '#'
            &&& c.kind == ComponentKind::Timer ==> t[0] == '~'
        }),
{
    let c = it->Component_0;
    if c.kind == ComponentKind::Ingredient {
        let i = content.ingredients@[c.index as int];
        let m = modifiers_text(i.modifiers.bits_spec());
        let t = item_text(it, content);
        let rest = name_part(Some(i.name@), opt_chars(i.alias)) + quantity_part(
            Some(i.name@),
            opt_chars(i.alias),
            match i.quantity {
                Some(q) => Some(quantity_parts(q)),
                None => None,
            },
        ) + note_part(opt_chars(i.note));
        assert(t =~= seq!['@'] + m + rest);
        assert(t.subrange(1, 1 + m.len() as int) =~= m);
    }
}

/// The items of a step as written, one after the other.
pub open spec fn items_text(items: Seq<Item>, content: RecipeContent) -> Seq<char>
    decreases items.len(),
{
    if items.len() == 0 {
        Seq::empty()
    } else {
        items_text(items.drop_last(), content) + item_text(items.last(), content)
    }
}

/// Every item of the step points into the lists of the recipe.
pub open spec fn items_in(items: Seq<Item>, content: RecipeContent) -> bool {
    forall|k: int|
        0 <= k < items.len() ==> match #[trigger] items[k] {
            Item::Component(c) => match c.kind {
                ComponentKind::Ingredient => c.index < content.ingredients@.len(),
                ComponentKind::Cookware => c.index < content.cookware@.len(),
                ComponentKind::Timer => c.index < content.timers@.len(),
            },
            Item::InlineQuantity(i) => i < content.inline_quantities@.len(),
            Item::Text(_) => true,
        }
}

/// The step as Cooklang text: its items written one after the other and
/// trimmed, after `> ` for a text step.
pub open spec fn cooklang_step_text(step: Step, content: RecipeContent) -> Seq<char> {
    (if step.is_text {
        seq!['>', ' ']
    } else {
        Seq::empty()
    }) + trimmed(items_text(step.items@, content))
}

/// `out` followed by the characters of `s`.
fn push_str(out: &mut Vec<char>, s: &str)
    ensures
        final(out)@ == old(out)@ + s@,
{
    let mut cs = str_chars(s);
    out.append(&mut cs);
}

/// `out` followed by `c`.
fn push_char(out: &mut Vec<char>, c: char)
    ensures
        final(out)@ == old(out)@ + seq![c],
{
    out.push(c);
    proof {
        assert(final(out)@ =~= old(out)@ + seq![c]);
    }
}

/// Writes a number.
fn write_number(out: &mut Vec<char>, n: &Number)
    ensures
        final(out)@ == old(out)@ + number_text(n@),
{
    match n {
        Number::Int(i) => {
            let mut d = decimal_chars(*i);
            out.append(&mut d);
        },
        Number::Decimal(s) => push_str(out, s.as_str()),
        Number::Fraction { num, den } => {
            let mut a = decimal_chars(*num);
            out.append(&mut a);
            push_char(out, '/');
            let mut b = decimal_chars(*den);
            out.append(&mut b);
        },
        Number::Mixed { whole, num, den } => {
            let mut w = decimal_chars(*whole);
            out.append(&mut w);
            push_char(out, ' ');
            let mut a = decimal_chars(*num);
            out.append(&mut a);
            push_char(out, '/');
            let mut b = decimal_chars(*den);
            out.append(&mut b);
        },
    }
    proof {
        assert(final(out)@ =~= old(out)@ + number_text(n@));
    }
}

/// Writes a value.
fn write_value(out: &mut Vec<char>, v: &Value)
    ensures
        final(out)@ == old(out)@ + value_text(v@),
{
    match v {
        Value::Number(n) => write_number(out, n),
        Value::Range(a, b) => {
            write_number(out, a);
            push_char(out, '-');
            write_number(out, b);
        },
        Value::Text(s) => push_str(out, s.as_str()),
    }
    proof {
        assert(final(out)@ =~= old(out)@ + value_text(v@));
    }
}

/// Writes a quantity's value.
fn write_qvalue(out: &mut Vec<char>, q: &QuantityValue)
    ensures
        final(out)@ == old(out)@ + qvalue_text(q@),
{
    match q {
        QuantityValue::Fixed(v) => write_value(out, v),
        QuantityValue::Linear(v) => write_value(out, v),
        QuantityValue::ByServings(vs) => {
            let ghost o = out@;
            let ghost all = vs@.map_values(|v: Value| v@);
            let mut k: usize = 0;
            while k < vs.len()
                invariant
                    all == vs@.map_values(|v: Value| v@),
                    0 <= k <= vs@.len(),
                    out@ == o + values_joined(all.take(k as int)),
                decreases vs@.len() - k,
            {
                proof {
                    assert(all.take(k + 1).drop_last() =~= all.take(k as int));
                    assert(all.take(k + 1).last() == vs@[k as int]@);
                }
                if k > 0 {
                    push_char(out, '|');
                }
                write_value(out, &vs[k]);
                proof {
                    if k == 0 {
                        assert(all.take(1) =~= seq![all[0]]);
                    }
                    assert(out@ =~= o + values_joined(all.take(k + 1)));
                }
                k = k + 1;
            }
            proof {
                assert(all.take(vs@.len() as int) =~= all);
            }
        },
    }
}

/// Whether the name needs braces after it.
fn needs_braces(name: &str, has_alias: bool) -> (r: bool)
    ensures
        r == multi_word(name@, if has_alias { Some(Seq::<char>::empty()) } else { None }),
{
    if has_alias {
        return true;
    }
    let cs = str_chars(name);
    let mut k: usize = 0;
    while k < cs.len()
        invariant
            cs@ == name@,
            0 <= k <= cs@.len(),
            forall|j: int| 0 <= j < k ==> is_alphanumeric(#[trigger] cs@[j]),
        decreases cs@.len() - k,
    {
        if !char_is_alphanumeric(cs[k]) {
            return true;
        }
        k = k + 1;
    }
    false
}

/// The characters of an optional string.
pub open spec fn opt_str(s: Option<&str>) -> Option<Seq<char>> {
    match s {
        Some(x) => Some(x@),
        None => None,
    }
}

/// Writes the sigil and modifiers of a component.
fn write_modifiers(out: &mut Vec<char>, sigil: char, bits: u32)
    ensures
        final(out)@ == old(out)@ + seq![sigil] + modifiers_text(bits),
{
    let ghost o = out@;
    push_char(out, sigil);
    if bits & 1 == 1 {
        push_char(out, '@');
    }
    if bits & 2 == 2 {
        push_char(out, '&');
    }
    if bits & 4 == 4 {
        push_char(out, '-');
    }
    if bits & 8 == 8 {
        push_char(out, '?');
    }
    if bits & 16 == 16 {
        push_char(out, '+');
    }
    proof {
        assert(out@ =~= o + seq![sigil] + modifiers_text(bits));
    }
}

/// Writes the name of a component, with `|alias`.
fn write_name(out: &mut Vec<char>, name: Option<&str>, alias: Option<&str>)
    ensures
        final(out)@ == old(out)@ + name_part(opt_str(name), opt_str(alias)),
{
    let ghost o = out@;
    if let Some(n) = name {
        push_str(out, n);
        if let Some(a) = alias {
            push_char(out, '|');
            push_str(out, a);
        }
    }
    proof {
        assert(out@ =~= o + name_part(opt_str(name), opt_str(alias)));
    }
}

/// The value and unit of a quantity, as written.
pub open spec fn opt_quantity(quantity: Option<(&QuantityValue, Option<&str>)>) -> Option<(Seq<char>, Option<Seq<char>>)> {
    match quantity {
        Some((v, u)) => Some((qvalue_text(v@), opt_str(u))),
        None => None,
    }
}

/// Writes the quantity of a component.
fn write_quantity(out: &mut Vec<char>, name: Option<&str>, alias: Option<&str>, quantity: Option<(&QuantityValue, Option<&str>)>)
    ensures
        final(out)@ == old(out)@ + quantity_part(opt_str(name), opt_str(alias), opt_quantity(quantity)),
{
    let ghost o = out@;
    match quantity {
        Some((v, u)) => {
            push_char(out, '{');
            write_qvalue(out, v);
            if let Some(u) = u {
                push_char(out, '%');
                push_str(out, u);
            }
            push_char(out, '}');
        },
        None => {
            let mw = match name {
                Some(n) => needs_braces(n, alias.is_some()),
                None => false,
            };
            if mw {
                push_char(out, '{');
                push_char(out, '}');
            }
        },
    }
    proof {
        assert(out@ =~= o + quantity_part(opt_str(name), opt_str(alias), opt_quantity(quantity)));
    }
}

/// Writes a component.
fn write_component(
    out: &mut Vec<char>,
    sigil: char,
    bits: u32,
    name: Option<&str>,
    alias: Option<&str>,
    quantity: Option<(&QuantityValue, Option<&str>)>,
    note: Option<&str>,
)
    ensures
        final(out)@ == old(out)@ + component_text(
            sigil,
            bits,
            opt_str(name),
            opt_str(alias),
            opt_quantity(quantity),
            opt_str(note),
        ),
{
    let ghost o = out@;
    write_modifiers(out, sigil, bits);
    write_name(out, name, alias);
    write_quantity(out, name, alias, quantity);
    let ghost q = out@;
    if let Some(n) = note {
        push_char(out, '(');
        push_str(out, n);
        push_char(out, ')');
    }
    proof {
        assert(out@ =~= q + note_part(opt_str(note)));
        assert(out@ =~= o + component_text(sigil, bits, opt_str(name), opt_str(alias), opt_quantity(quantity), opt_str(note)));
    }
}

/// The characters of an optional string, borrowed.
fn opt_as_str(s: &Option<String>) -> (r: Option<&str>)
    ensures
        opt_str(r) == opt_chars(*s),
{
    match s {
        Some(x) => Some(x.as_str()),
        None => None,
    }
}

/// Writes an item of a step.
fn write_item(out: &mut Vec<char>, it: &Item, content: &RecipeContent)
    requires
        items_in(seq![*it], *content),
    ensures
        final(out)@ == old(out)@ + item_text(*it, *content),
{
    proof {
        assert(seq![*it][0] == *it);
    }
    match it {
        Item::Text(t) => push_str(out, t.as_str()),
        Item::Component(c) => match c.kind {
            ComponentKind::Ingredient => {
                let i = &content.ingredients[c.index];
                let quantity = match &i.quantity {
                    Some(q) => Some((q.value(), q.unit_text())),
                    None => None,
                };
                write_component(
                    out,
                    '@',
                    i.modifiers.bits(),
                    Some(i.name.as_str()),
                    opt_as_str(&i.alias),
                    quantity,
                    opt_as_str(&i.note),
                );
            },
            ComponentKind::Cookware => {
                let w = &content.cookware[c.index];
                let quantity = match &w.quantity {
                    Some(v) => Some((v, None)),
                    None => None,
                };
                write_component(out, '#', 0, Some(w.name.as_str()), None, quantity, None);
            },
            ComponentKind::Timer => {
                let t = &content.timers[c.index];
                write_component(
                    out,
                    '~',
                    0,
                    opt_as_str(&t.name),
                    None,
                    Some((t.quantity.value(), t.quantity.unit_text())),
                    None,
                );
            },
        },
        Item::InlineQuantity(k) => {
            let q = &content.inline_quantities[*k];
            write_qvalue(out, q.value());
            if let Some(u) = q.unit_text() {
                push_str(out, u);
            }
            proof {
                assert(final(out)@ =~= old(out)@ + item_text(*it, *content));
            }
        },
    }
}

/// A step written back as Cooklang: its text and components one after the
/// other, trimmed, after `> ` for a text step.
pub fn step_to_cooklang(step: &Step, content: &RecipeContent) -> (r: String)
    requires
        items_in(step.items@, *content),
    ensures
        r@ == cooklang_step_text(*step, *content),
{
    let mut out: Vec<char> = Vec::new();
    let mut k: usize = 0;
    while k < step.items.len()
        invariant
            items_in(step.items@, *content),
            0 <= k <= step.items@.len(),
            out@ == items_text(step.items@.take(k as int), *content),
        decreases step.items@.len() - k,
    {
        proof {
            assert(step.items@.take(k + 1).drop_last() =~= step.items@.take(k as int));
            assert(items_in(seq![step.items@[k as int]], *content)) by {
                assert(seq![step.items@[k as int]][0] == step.items@[k as int]);
            }
        }
        write_item(&mut out, &step.items[k], content);
        k = k + 1;
    }
    proof {
        assert(step.items@.take(step.items@.len() as int) =~= step.items@);
    }
    let text = string_from_chars(&out);
    let t = str_trim(text.as_str());
    proof {
        lemma_trimmed(text@, t@);
    }
    let mut r: Vec<char> = Vec::new();
    if step.is_text {
        r.push('>');
        r.push(' ');
    }
    push_str(&mut r, t);
    proof {
        assert(r@ =~= cooklang_step_text(*step, *content));
    }
    string_from_chars(&r)
}

} // verus!
