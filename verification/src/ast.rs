//! The abstract syntax tree of a recipe: lines of metadata, sections and
//! steps, and the texts, components and quantities inside them.
use vstd::prelude::*;

use crate::encoding::byte_len;
use crate::context::Recover;
use crate::located::Located;
use crate::span::Span;

verus! {

/// A parsed recipe: its lines.
#[derive(Debug)]
pub struct Ast<'a> {
    pub lines: Vec<Line<'a>>,
}

/// A line of a recipe.
#[derive(Debug)]
pub enum Line<'a> {
    /// ">> key: value"
    Metadata { key: Text<'a>, value: Text<'a> },
    /// A step, made of text and components.
    Step { is_text: bool, items: Vec<Item<'a>> },
    /// "= name ="
    Section { name: Option<Text<'a>> },
}

/// A part of a step.
#[derive(Debug)]
pub enum Item<'a> {
    Text(Text<'a>),
    Component(Box<Located<Component<'a>>>),
}

/// A component of a step.
#[derive(Debug)]
pub enum Component<'a> {
    Ingredient(Ingredient<'a>),
    Cookware(Cookware<'a>),
    Timer(Timer<'a>),
}

/// "@name|alias{quantity}(note)"
#[derive(Debug)]
pub struct Ingredient<'a> {
    pub modifiers: Located<Modifiers>,
    pub name: Text<'a>,
    pub alias: Option<Text<'a>>,
    pub quantity: Option<Located<Quantity<'a>>>,
    pub note: Option<Text<'a>>,
}

/// "#name{quantity}"
#[derive(Debug)]
pub struct Cookware<'a> {
    pub name: Text<'a>,
    pub quantity: Option<Located<QuantityValue>>,
}

/// "~name{quantity}"
#[derive(Debug)]
pub struct Timer<'a> {
    pub name: Option<Text<'a>>,
    pub quantity: Located<Quantity<'a>>,
}

/// A value and an optional unit.
#[derive(Debug)]
pub struct Quantity<'a> {
    pub value: QuantityValue,
    pub unit: Option<Text<'a>>,
}

/// One value, possibly marked to scale, or many values.
#[derive(Debug, Clone, PartialEq)]
pub enum QuantityValue {
    Single { value: Located<Value>, auto_scale: Option<Span> },
    Many(Vec<Located<Value>>),
}

/// A number as it is written in a quantity.
#[derive(Debug, Clone, PartialEq)]
pub enum Number {
    /// An integer, "14".
    Int(u32),
    /// A decimal number with the digits as written, "3.14" or ".5".
    Decimal(String),
    /// "a / b"
    Fraction { num: u32, den: u32 },
    /// "a b / c"
    Mixed { whole: u32, num: u32, den: u32 },
}

/// The value of a quantity.
#[derive(Debug, Clone, PartialEq)]
pub enum Value {
    Number(Number),
    /// "a - b"
    Range(Number, Number),
    Text(String),
}

/// A number as contracts see it: a decimal's digits as characters.
pub enum NumberView {
    Int(u32),
    Decimal(Seq<char>),
    Fraction { num: u32, den: u32 },
    Mixed { whole: u32, num: u32, den: u32 },
}

/// A value as contracts see it.
pub enum ValueView {
    Number(NumberView),
    Range(NumberView, NumberView),
    Text(Seq<char>),
}

impl View for Number {
    type V = NumberView;

    open spec fn view(&self) -> NumberView {
        match self {
            Number::Int(n) => NumberView::Int(*n),
            Number::Decimal(s) => NumberView::Decimal(s@),
            Number::Fraction { num, den } => NumberView::Fraction { num: *num, den: *den },
            Number::Mixed { whole, num, den } => NumberView::Mixed { whole: *whole, num: *num, den: *den },
        }
    }
}

impl View for Value {
    type V = ValueView;

    open spec fn view(&self) -> ValueView {
        match self {
            Value::Number(n) => ValueView::Number(n@),
            Value::Range(a, b) => ValueView::Range(a@, b@),
            Value::Text(s) => ValueView::Text(s@),
        }
    }
}

/// Whether `c` has the Unicode White_Space property: tab, line feed,
/// vertical tab, form feed, carriage return, space, next line, no-break
/// space, Ogham space mark, the spaces from en quad to hair space, line
/// separator, paragraph separator, narrow no-break space, medium
/// mathematical space and ideographic space.
pub open spec fn is_unicode_white_space(c: char) -> bool {
    ||| ('\u{9}' <= c && c <= '\u{d}')
    ||| c == ' '
    ||| c == '\u{85}'
    ||| c == '\u{a0}'
    ||| c == '\u{1680}'
    ||| ('\u{2000}' <= c && c <= '\u{200a}')
    ||| c == '\u{2028}'
    ||| c == '\u{2029}'
    ||| c == '\u{202f}'
    ||| c == '\u{205f}'
    ||| c == '\u{3000}'
}

/// Whether `s` is `t` with white space removed from both ends.
pub open spec fn is_trim_of(s: Seq<char>, t: Seq<char>) -> bool {
    exists|i: int, j: int|
        0 <= i <= j <= s.len() && t == s.subrange(i, j)
            && (forall|k: int| 0 <= k < i ==> is_unicode_white_space(#[trigger] s[k]))
            && (forall|k: int| j <= k < s.len() ==> is_unicode_white_space(#[trigger] s[k]))
            && (i < j ==> !is_unicode_white_space(s[i]) && !is_unicode_white_space(s[j - 1]))
}

/// Whether every character of `s` is white space.
pub open spec fn is_blank(s: Seq<char>) -> bool {
    forall|k: int| 0 <= k < s.len() ==> is_unicode_white_space(#[trigger] s[k])
}

/// `str::trim`: the slice of `s` without leading and trailing white space,
/// "white space" as the Unicode White_Space property defines it. The
/// contract says that and names the property.
#[verifier::external_body]
pub fn str_trim(s: &str) -> (r: &str)
    ensures
        is_trim_of(s@, r@),
        r@.len() > 0 ==> !is_unicode_white_space(r@[0]) && !is_unicode_white_space(r@.last()),
{
    s.trim()
}

/// `s` with white space removed from both ends.
pub open spec fn trimmed(s: Seq<char>) -> Seq<char> {
    choose|t: Seq<char>| is_trim_of(s, t)
}

/// A string has one trim only.
pub proof fn lemma_trim_unique(s: Seq<char>, t: Seq<char>, u: Seq<char>)
    requires
        is_trim_of(s, t),
        is_trim_of(s, u),
    ensures
        t == u,
{
    let (i, j) = choose|i: int, j: int|
        0 <= i <= j <= s.len() && t == s.subrange(i, j)
            && (forall|k: int| 0 <= k < i ==> is_unicode_white_space(#[trigger] s[k]))
            && (forall|k: int| j <= k < s.len() ==> is_unicode_white_space(#[trigger] s[k]))
            && (i < j ==> !is_unicode_white_space(s[i]) && !is_unicode_white_space(s[j - 1]));
    let (a, b) = choose|a: int, b: int|
        0 <= a <= b <= s.len() && u == s.subrange(a, b)
            && (forall|k: int| 0 <= k < a ==> is_unicode_white_space(#[trigger] s[k]))
            && (forall|k: int| b <= k < s.len() ==> is_unicode_white_space(#[trigger] s[k]))
            && (a < b ==> !is_unicode_white_space(s[a]) && !is_unicode_white_space(s[b - 1]));
    if i < j && a < b {
        assert(!(i < a)) by {
            if i < a {
                assert(is_unicode_white_space(s[i]));
            }
        }
        assert(!(a < i)) by {
            if a < i {
                assert(is_unicode_white_space(s[a]));
            }
        }
        assert(!(j < b)) by {
            if j < b {
                assert(is_unicode_white_space(s[b - 1]));
            }
        }
        assert(!(b < j)) by {
            if b < j {
                assert(is_unicode_white_space(s[j - 1]));
            }
        }
    } else if i < j {
        assert(a == b);
        assert(is_unicode_white_space(s[i])) by {
            if i < a {
            } else {
                assert(i >= b);
            }
        }
    } else if a < b {
        assert(i == j);
        assert(is_unicode_white_space(s[a])) by {
            if a < i {
            } else {
                assert(a >= j);
            }
        }
    }
    assert(t =~= u);
}

/// The trim that [str_trim] gives is [trimmed].
pub proof fn lemma_trimmed(s: Seq<char>, t: Seq<char>)
    requires
        is_trim_of(s, t),
    ensures
        trimmed(s) == t,
{
    lemma_trim_unique(s, trimmed(s), t);
}

/// The trim of a string is empty exactly when the string is blank.
pub proof fn lemma_trim_empty(s: Seq<char>, t: Seq<char>)
    requires
        is_trim_of(s, t),
    ensures
        t.len() == 0 <==> is_blank(s),
{
    let (i, j) = choose|i: int, j: int|
        0 <= i <= j <= s.len() && t == s.subrange(i, j)
            && (forall|k: int| 0 <= k < i ==> is_unicode_white_space(#[trigger] s[k]))
            && (forall|k: int| j <= k < s.len() ==> is_unicode_white_space(#[trigger] s[k]))
            && (i < j ==> !is_unicode_white_space(s[i]) && !is_unicode_white_space(s[j - 1]));
    if t.len() == 0 {
        assert forall|k: int| 0 <= k < s.len() implies is_unicode_white_space(#[trigger] s[k]) by {
            if k >= i {
                assert(k >= j);
            }
        }
    } else {
        assert(!is_unicode_white_space(s[i]));
    }
}

/// A piece of source text: a slice of the input and the byte offset where it
/// starts.
#[derive(Debug, Clone, Copy)]
pub struct TextFragment<'a> {
    pub text: &'a str,
    offset: usize,
}

impl<'a> TextFragment<'a> {
    /// Byte offset where the fragment starts.
    pub closed spec fn offset_spec(&self) -> usize {
        self.offset
    }

    /// The slice of source.
    pub closed spec fn text_spec(&self) -> &'a str {
        self.text
    }

    /// The characters of the fragment.
    pub open spec fn chars_spec(&self) -> Seq<char> {
        self.text_spec()@
    }

    /// One past the last byte of the fragment.
    pub open spec fn end_spec(&self) -> int {
        self.offset_spec() + byte_len(self.chars_spec())
    }

    /// The fragment's end fits in memory.
    pub open spec fn wf(&self) -> bool {
        self.end_spec() <= usize::MAX
    }

    /// The fragment `text` at `offset`.
    pub fn new(text: &'a str, offset: usize) -> (f: Self)
        ensures
            f.text_spec() == text,
            f.offset_spec() == offset,
    {
        Self { text, offset }
    }

    /// The span of the fragment.
    pub fn span(&self) -> (s: Span)
        ensures
            s.start_spec() == self.offset_spec(),
            s.end_spec() == clamp(self.end_spec()),
            self.wf() ==> s.end_spec() == self.end_spec(),
    {
        Span::new(self.start(), self.end())
    }

    /// Byte offset where the fragment starts.
    pub fn start(&self) -> (r: usize)
        ensures
            r == self.offset_spec(),
    {
        self.offset
    }

    /// One past the last byte of the fragment; the largest offset when
    /// that does not fit in memory.
    pub fn end(&self) -> (r: usize)
        ensures
            r == clamp(self.end_spec()),
            self.wf() ==> r == self.end_spec(),
    {
        let n = str_byte_len(self.text);
        self.offset.saturating_add(n)
    }
}

/// `x`, or the largest offset when `x` is larger.
pub open spec fn clamp(x: int) -> usize {
    if x <= usize::MAX {
        x as usize
    } else {
        usize::MAX
    }
}

/// The byte length of `s`.
pub fn str_byte_len(s: &str) -> (n: usize)
    ensures
        n == byte_len(s@),
{
    proof {
        crate::encoding::lemma_byte_len_encode(s@);
    }
    let bytes = s.as_bytes();
    proof {
        vstd::slice::axiom_spec_len(bytes);
    }
    bytes.len()
}

/// Concatenation of the characters of fragments.
pub open spec fn frags_chars(frags: Seq<TextFragment>) -> Seq<char>
    decreases frags.len(),
{
    if frags.len() == 0 {
        Seq::empty()
    } else {
        frags_chars(frags.drop_last()) + frags.last().chars_spec()
    }
}

/// Fragments that follow each other from `off` on hold as many bytes as
/// they span.
pub proof fn lemma_frags_byte_len(fs: Seq<TextFragment>, off: int)
    requires
        fs.len() > 0 ==> fs[0].offset_spec() == off,
        forall|j: int, k: int| 0 <= j && k == j + 1 && k < fs.len() ==> #[trigger] fs[j].end_spec() == #[trigger] fs[k].offset_spec(),
    ensures
        byte_len(frags_chars(fs)) == if fs.len() == 0 {
            0
        } else {
            fs.last().end_spec() - off
        },
    decreases fs.len(),
{
    if fs.len() > 0 {
        let init = fs.drop_last();
        assert forall|j: int, k: int| 0 <= j && k == j + 1 && k < init.len() implies #[trigger] init[j].end_spec()
            == #[trigger] init[k].offset_spec() by {
            assert(fs[j].end_spec() == fs[k].offset_spec());
        }
        lemma_frags_byte_len(init, off);
        crate::encoding::lemma_byte_len_concat(frags_chars(init), fs.last().chars_spec());
        if init.len() > 0 {
            assert(fs[init.len() - 1].end_spec() == fs[init.len() as int].offset_spec());
        }
    }
}

impl<'a> Text<'a> {
    /// A text holds as many bytes as its span covers: its fragments follow
    /// each other from its offset on.
    pub proof fn lemma_text_byte_len(&self)
        requires
            self.wf(),
        ensures
            byte_len(self.chars_spec()) == self.span_spec().1 - self.span_spec().0,
    {
        lemma_frags_byte_len(self.fragments_spec(), self.offset_spec() as int);
    }
}

impl<'a> PartialEq for TextFragment<'a> {
    /// Fragments are equal when their texts are, wherever they start.
    fn eq(&self, other: &Self) -> (r: bool) {
        crate::metadata::str_eq(self.text, other.text)
    }
}

impl<'a> vstd::std_specs::cmp::PartialEqSpecImpl for TextFragment<'a> {
    open spec fn obeys_eq_spec() -> bool {
        true
    }

    open spec fn eq_spec(&self, other: &Self) -> bool {
        self.chars_spec() == other.chars_spec()
    }
}

/// The fragments have equal texts, one by one.
pub open spec fn same_fragments(a: Seq<TextFragment>, b: Seq<TextFragment>) -> bool {
    &&& a.len() == b.len()
    &&& forall|k: int| 0 <= k < a.len() ==> (#[trigger] a[k]).chars_spec() == b[k].chars_spec()
}

/// A text made of fragments of source; the pieces of source between
/// fragments (comments, escape backslashes) are not part of it.
#[derive(Debug, Clone)]
pub struct Text<'a> {
    offset: usize,
    fragments: Vec<TextFragment<'a>>,
}

impl<'a> PartialEq for Text<'a> {
    /// Texts are equal when their fragments are, one by one: the same
    /// pieces of text, wherever they start.
    fn eq(&self, other: &Self) -> (r: bool) {
        if self.fragments.len() != other.fragments.len() {
            return false;
        }
        let mut k: usize = 0;
        while k < self.fragments.len()
            invariant
                self.fragments@.len() == other.fragments@.len(),
                0 <= k <= self.fragments@.len(),
                forall|j: int| 0 <= j < k ==> (#[trigger] self.fragments@[j]).chars_spec() == other.fragments@[j].chars_spec(),
            decreases self.fragments@.len() - k,
        {
            if !crate::metadata::str_eq(self.fragments[k].text, other.fragments[k].text) {
                return false;
            }
            k = k + 1;
        }
        true
    }
}

impl<'a> vstd::std_specs::cmp::PartialEqSpecImpl for Text<'a> {
    open spec fn obeys_eq_spec() -> bool {
        true
    }

    open spec fn eq_spec(&self, other: &Self) -> bool {
        same_fragments(self.fragments_spec(), other.fragments_spec())
    }
}

impl<'a> Text<'a> {
    /// Byte offset where the text starts.
    pub closed spec fn offset_spec(&self) -> usize {
        self.offset
    }

    /// The fragments, in order.
    pub closed spec fn fragments_spec(&self) -> Seq<TextFragment<'a>> {
        self.fragments@
    }

    /// Fragments are non-empty, fit in memory, and follow each other from
    /// the text's offset on.
    pub open spec fn wf(&self) -> bool {
        let fs = self.fragments_spec();
        &&& forall|k: int| 0 <= k < fs.len() ==> (#[trigger] fs[k]).wf() && fs[k].chars_spec().len() > 0
        &&& forall|j: int, k: int| 0 <= j && k == j + 1 && k < fs.len() ==> #[trigger] fs[j].end_spec() == #[trigger] fs[k].offset_spec()
        &&& fs.len() > 0 ==> self.offset_spec() == fs[0].offset_spec()
    }

    /// The characters of the text.
    pub open spec fn chars_spec(&self) -> Seq<char> {
        frags_chars(self.fragments_spec())
    }

    /// Start and end of the text's span.
    pub open spec fn span_spec(&self) -> (int, int) {
        let fs = self.fragments_spec();
        if fs.len() == 0 {
            (self.offset_spec() as int, self.offset_spec() as int)
        } else {
            (self.offset_spec() as int, fs.last().end_spec())
        }
    }

    /// An empty text at `offset`.
    pub fn empty(offset: usize) -> (t: Self)
        ensures
            t.offset_spec() == offset,
            t.fragments_spec() == Seq::<TextFragment<'a>>::empty(),
            t.wf(),
    {
        Self { fragments: Vec::new(), offset }
    }

    /// Adds a fragment that starts where the text ends; an empty fragment
    /// adds nothing.
    pub fn append_fragment(&mut self, fragment: TextFragment<'a>)
        requires
            old(self).wf(),
            fragment.wf(),
            old(self).span_spec().1 == fragment.offset_spec(),
        ensures
            final(self).wf(),
            final(self).offset_spec() == old(self).offset_spec(),
            fragment.chars_spec().len() == 0 ==> final(self).fragments_spec() == old(self).fragments_spec(),
            fragment.chars_spec().len() > 0 ==> final(self).fragments_spec() == old(self).fragments_spec().push(fragment),
    {
        if !fragment.text.is_empty() {
            self.fragments.push(fragment);
        }
    }

    /// Adds `s` as a fragment where the text ends.
    pub fn append_str(&mut self, s: &'a str)
        requires
            old(self).wf(),
            old(self).span_spec().1 + byte_len(s@) <= usize::MAX,
        ensures
            final(self).wf(),
            final(self).offset_spec() == old(self).offset_spec(),
            s@.len() == 0 ==> final(self).fragments_spec() == old(self).fragments_spec(),
            s@.len() > 0 ==> final(self).fragments_spec() == old(self).fragments_spec().push(TextFragment::new_spec(s, old(self).span_spec().1 as usize)),
            s@.len() > 0 ==> final(self).fragments_spec().last().chars_spec() == s@,
            final(self).span_spec().1 == old(self).span_spec().1 + byte_len(s@),
    {
        let end = self.span().end();
        let f = TextFragment::new(s, end);
        proof {
            assert(f == TextFragment::new_spec(s, end));
        }
        self.append_fragment(f)
    }

    /// The span of the text: from its offset to the end of its last
    /// fragment, or empty at its offset.
    pub fn span(&self) -> (s: Span)
        ensures
            s.start_spec() == self.span_spec().0,
            s.end_spec() == clamp(self.span_spec().1),
            self.wf() ==> s.end_spec() == self.span_spec().1,
    {
        if self.fragments.is_empty() {
            return Span::pos(self.offset);
        }
        let start = self.offset;
        let last = self.fragments.len() - 1;
        let end = self.fragments[last].end();
        Span::new(start, end)
    }

    /// The characters of all fragments.
    pub fn text(&self) -> (s: String)
        ensures
            s@ == self.chars_spec(),
    {
        let mut s = String::new();
        let mut i: usize = 0;
        while i < self.fragments.len()
            invariant
                0 <= i <= self.fragments@.len(),
                s@ == frags_chars(self.fragments@.take(i as int)),
            decreases self.fragments@.len() - i,
        {
            proof {
                assert(self.fragments@.take(i as int + 1).drop_last() =~= self.fragments@.take(i as int));
            }
            s.append(self.fragments[i].text);
            i = i + 1;
        }
        proof {
            assert(self.fragments@.take(i as int) =~= self.fragments@);
        }
        s
    }

    /// The characters of all fragments, white space trimmed at both ends.
    pub fn text_trimmed(&self) -> (s: String)
        ensures
            is_trim_of(self.chars_spec(), s@),
    {
        let t = self.text();
        let r = str_trim(t.as_str());
        r.to_owned()
    }

    /// Whether every fragment is white space only.
    pub fn is_text_empty(&self) -> (r: bool)
        ensures
            r == is_blank(self.chars_spec()),
    {
        let mut i: usize = 0;
        while i < self.fragments.len()
            invariant
                0 <= i <= self.fragments@.len(),
                is_blank(frags_chars(self.fragments@.take(i as int))),
            decreases self.fragments@.len() - i,
        {
            let f = self.fragments[i].text;
            let t = str_trim(f);
            proof {
                lemma_trim_empty(f@, t@);
                assert(self.fragments@.take(i as int + 1).drop_last() =~= self.fragments@.take(i as int));
            }
            if !t.is_empty() {
                proof {
                    lemma_blank_concat(frags_chars(self.fragments@.take(i as int)), f@, self.fragments@, i as int);
                }
                return false;
            }
            proof {
                let a = frags_chars(self.fragments@.take(i as int));
                assert forall|k: int| 0 <= k < (a + f@).len() implies is_unicode_white_space(#[trigger] (a + f@)[k]) by {
                    if k < a.len() {
                        assert((a + f@)[k] == a[k]);
                    } else {
                        assert((a + f@)[k] == f@[k - a.len()]);
                    }
                }
            }
            i = i + 1;
        }
        proof {
            assert(self.fragments@.take(i as int) =~= self.fragments@);
        }
        true
    }

    /// The fragments.
    pub fn fragments(&self) -> (r: &[TextFragment<'a>])
        ensures
            r@ == self.fragments_spec(),
    {
        self.fragments.as_slice()
    }

    /// The trimmed text with the text's span.
    pub fn located_str(&self) -> (l: Located<String>)
        ensures
            is_trim_of(self.chars_spec(), l.inner_spec()@),
            l.span_spec().start_spec() == self.span_spec().0,
            l.span_spec().end_spec() == clamp(self.span_spec().1),
            self.wf() ==> l.span_spec().end_spec() == self.span_spec().1,
    {
        Located::new(self.text_trimmed(), self.span())
    }

    /// The trimmed text with the text's span.
    pub fn located_string(&self) -> (l: Located<String>)
        ensures
            is_trim_of(self.chars_spec(), l.inner_spec()@),
            l.span_spec().start_spec() == self.span_spec().0,
            l.span_spec().end_spec() == clamp(self.span_spec().1),
            self.wf() ==> l.span_spec().end_spec() == self.span_spec().1,
    {
        self.located_str()
    }
}

impl<'a> TextFragment<'a> {
    /// The fragment `text` at `offset`.
    pub closed spec fn new_spec(text: &'a str, offset: usize) -> Self {
        TextFragment { text, offset }
    }
}

/// A text that holds a character that is not white space is not blank.
proof fn lemma_blank_concat(a: Seq<char>, f: Seq<char>, fs: Seq<TextFragment>, i: int)
    requires
        !is_blank(f),
        0 <= i < fs.len(),
        f == fs[i].chars_spec(),
        a == frags_chars(fs.take(i)),
    ensures
        !is_blank(frags_chars(fs)),
{
    let k = choose|k: int| 0 <= k < f.len() && !is_unicode_white_space(f[k]);
    lemma_frags_chars_prefix(fs, i + 1);
    assert(fs.take(i + 1).drop_last() =~= fs.take(i));
    let whole = frags_chars(fs);
    let pre = frags_chars(fs.take(i + 1));
    assert(pre == a + f);
    assert(pre[a.len() + k] == f[k]);
    assert(whole[a.len() + k] == f[k]);
}

/// The characters of a prefix of fragments are a prefix of all their characters.
proof fn lemma_frags_chars_prefix(fs: Seq<TextFragment>, n: int)
    requires
        0 <= n <= fs.len(),
    ensures
        frags_chars(fs.take(n)).len() <= frags_chars(fs).len(),
        forall|k: int| 0 <= k < frags_chars(fs.take(n)).len() ==> frags_chars(fs)[k] == #[trigger] frags_chars(fs.take(n))[k],
    decreases fs.len() - n,
{
    if n < fs.len() {
        lemma_frags_chars_prefix(fs, n + 1);
        assert(fs.take(n + 1).drop_last() =~= fs.take(n));
        let small = frags_chars(fs.take(n));
        let big = frags_chars(fs.take(n + 1));
        assert(big == small + fs.take(n + 1).last().chars_spec());
        assert forall|k: int| 0 <= k < small.len() implies frags_chars(fs)[k] == #[trigger] small[k] by {
            assert(big[k] == small[k]);
        }
    } else {
        assert(fs.take(n) =~= fs);
    }
}

/// Flags that change what an ingredient means.
#[derive(Debug, Clone, Copy, PartialEq, Eq, Structural)]
pub struct Modifiers {
    bits: u32,
}

impl Modifiers {
    /// Refers to a recipe with the same name (`RECIPE`).
    pub fn recipe() -> (m: Self)
        ensures
            m.bits_spec() == 1,
    {
        Modifiers { bits: 0b00001 }
    }

    /// References another ingredient with the same name; if an amount is
    /// given it adds up (`REF`).
    pub fn reference() -> (m: Self)
        ensures
            m.bits_spec() == 2,
    {
        Modifiers { bits: 0b00010 }
    }

    /// Not shown in the ingredient list, only inline (`HIDDEN`).
    pub fn hidden() -> (m: Self)
        ensures
            m.bits_spec() == 4,
    {
        Modifiers { bits: 0b00100 }
    }

    /// Marks the ingredient optional (`OPT`).
    pub fn optional() -> (m: Self)
        ensures
            m.bits_spec() == 8,
    {
        Modifiers { bits: 0b01000 }
    }

    /// Forces a new ingredient (`NEW`).
    pub fn forced_new() -> (m: Self)
        ensures
            m.bits_spec() == 16,
    {
        Modifiers { bits: 0b10000 }
    }

    /// The bits of the flags.
    pub closed spec fn bits_spec(&self) -> u32 {
        self.bits
    }

    /// No flag.
    pub fn empty() -> (m: Self)
        ensures
            m.bits_spec() == 0,
    {
        Modifiers { bits: 0 }
    }

    /// The bits of the flags.
    pub fn bits(&self) -> (r: u32)
        ensures
            r == self.bits_spec(),
    {
        self.bits
    }

    /// Whether every flag of `other` is set in `self`.
    pub fn contains(&self, other: Modifiers) -> (r: bool)
        ensures
            r == (self.bits_spec() & other.bits_spec() == other.bits_spec()),
    {
        self.bits & other.bits == other.bits
    }

    /// Whether some flag of `other` is set in `self`.
    pub fn intersects(&self, other: Modifiers) -> (r: bool)
        ensures
            r == (self.bits_spec() & other.bits_spec() != 0),
    {
        self.bits & other.bits != 0
    }

    /// The flags of both.
    pub fn union(self, other: Modifiers) -> (r: Modifiers)
        ensures
            r.bits_spec() == self.bits_spec() | other.bits_spec(),
    {
        Modifiers { bits: self.bits | other.bits }
    }

    /// The flags set in both.
    pub fn intersection(self, other: Modifiers) -> (r: Modifiers)
        ensures
            r.bits_spec() == self.bits_spec() & other.bits_spec(),
    {
        Modifiers { bits: self.bits & other.bits }
    }

    /// The character that writes the single flag `self`.
    pub fn as_char(self) -> (c: char)
        requires
            self.bits_spec() == 1 || self.bits_spec() == 2 || self.bits_spec() == 4
                || self.bits_spec() == 8 || self.bits_spec() == 16,
        ensures
            self.bits_spec() == 1 ==> c == '@',
            self.bits_spec() == 2 ==> c == '&',
            self.bits_spec() == 4 ==> c == '-',
            self.bits_spec() == 8 ==> c == '?',
            self.bits_spec() == 16 ==> c == '+',
    {
        if self.bits == 1 {
            '@'
        } else if self.bits == 4 {
            '-'
        } else if self.bits == 8 {
            '?'
        } else if self.bits == 2 {
            '&'
        } else {
            '+'
        }
    }
}

impl<'a> Recover for Text<'a> {
    /// An empty text at the start of the input.
    fn recover() -> (r: Self)
        ensures
            r.offset_spec() == 0,
            r.fragments_spec().len() == 0,
            r.wf(),
    {
        Self::empty(0)
    }
}

impl Recover for Value {
    /// The number 1.
    fn recover() -> (r: Self)
        ensures
            r@ == ValueView::Number(NumberView::Int(1)),
    {
        Value::Number(Number::Int(1))
    }
}

impl<T: Recover> Recover for Located<T> {
    /// The value to go on with, at the start of the input.
    fn recover() -> (r: Self)
        ensures
            call_ensures(T::recover, (), r.inner_spec()),
            r.span_spec().start_spec() == 0,
            r.span_spec().end_spec() == 0,
    {
        Located::new(T::recover(), Span::new(0, 0))
    }
}

impl Recover for QuantityValue {
    /// The single value 1, not marked to scale.
    fn recover() -> (r: Self)
        ensures
            r matches QuantityValue::Single { value, auto_scale } && auto_scale is None
                && value.inner_spec()@ == ValueView::Number(NumberView::Int(1)),
    {
        QuantityValue::Single { value: Located::new(Value::recover(), Span::new(0, 0)), auto_scale: None }
    }
}

impl<'a> Recover for Quantity<'a> {
    /// The value 1 without a unit.
    fn recover() -> (r: Self)
        ensures
            r.unit is None,
            r.value matches QuantityValue::Single { value, auto_scale } && auto_scale is None
                && value.inner_spec()@ == ValueView::Number(NumberView::Int(1)),
    {
        Quantity { value: QuantityValue::recover(), unit: None }
    }
}

impl QuantityValue {
    /// The span of the value, with its auto scale marker if it has one, or
    /// from the first value to the last.
    pub fn span(&self) -> (s: Span)
        requires
            self matches QuantityValue::Many(vs) ==> vs@.len() > 0,
        ensures
            self matches QuantityValue::Single { value, auto_scale } ==> s.start_spec() == value.span_spec().start_spec()
                && s.end_spec() == match auto_scale {
                    Some(m) => m.end_spec(),
                    None => value.span_spec().end_spec(),
                },
            self matches QuantityValue::Many(vs) ==> s.start_spec() == vs@[0].span_spec().start_spec()
                && s.end_spec() == vs@.last().span_spec().end_spec(),
    {
        match self {
            QuantityValue::Single { value, auto_scale } => {
                let v = value.span();
                match auto_scale {
                    Some(m) => Span::new(v.start(), m.end()),
                    None => v,
                }
            },
            QuantityValue::Many(v) => {
                let start = v[0].span().start();
                let end = v[v.len() - 1].span().end();
                Span::new(start, end)
            },
        }
    }
}

} // verus!
