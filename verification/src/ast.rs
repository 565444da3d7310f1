//! The element model: the parse tree of a prompt string.
//!
//! Each executable type has a ghost counterpart (`GElem` and friends) over
//! `Seq<char>`, which the grammar and renderer specifications speak of.

use vstd::prelude::*;

verus! {

/// A no-argument escape code, `%<code>`.
#[derive(Debug, PartialEq, Eq)]
pub struct Escape(pub char);

/// An escape with an optional signed numeric argument, `%[-]N?<code>`.
#[derive(Debug, PartialEq, Eq)]
pub struct NumericEscape(pub Option<i64>, pub char);

/// A date format directive, `%D{...}`; the format is opaque.
#[derive(Debug, PartialEq, Eq)]
pub struct DateFormat(pub String);

/// A named color directive, `%[-]N?{F|K}{name}`.
#[derive(Debug, PartialEq, Eq)]
pub struct NamedColor {
    /// Optional numeric argument.
    pub num: Option<i64>,
    /// `'F'` (foreground) or `'K'` (background).
    pub code: char,
    /// The color name between the braces.
    pub name: String,
}

/// A directory-abbreviation directive, `%[-]N?{d|/}{<delim><pairs>}`.
#[derive(Debug, PartialEq, Eq)]
pub struct PathPrefix {
    /// Optional numeric argument selecting component trimming.
    pub num: Option<i64>,
    /// `'d'` or `'/'`.
    pub code: char,
    /// The caller-chosen delimiter character.
    pub delim: char,
    /// Ordered (alias, prefix) substitution pairs, raw text.
    pub prefix_subs: Vec<(String, String)>,
}

/// A literal block, `%{...%}`; the content is never re-parsed.
#[derive(Debug, PartialEq, Eq)]
pub struct EscapeLiteral(pub String);

/// A two-armed conditional, `%[-]N?(<pred><delim><true><delim><false>)`.
#[derive(Debug, PartialEq, Eq)]
pub struct Conditional {
    /// Optional numeric argument for the predicate.
    pub num: Option<i64>,
    /// The predicate code.
    pub code: char,
    /// The caller-chosen delimiter character.
    pub delim: char,
    /// Elements rendered when the predicate holds.
    pub true_branch: Vec<Element>,
    /// Elements rendered when the predicate does not hold.
    pub false_branch: Vec<Element>,
}

/// A multi-armed conditional, `%({o|p|q|x}<delim><branch>...)`, selected by an
/// integer index; the final branch is the default.
#[derive(Debug, PartialEq, Eq)]
pub struct AdvancedConditional {
    /// The predicate code, one of `o`, `p`, `q`, `x`.
    pub code: char,
    /// The caller-chosen delimiter character.
    pub delim: char,
    /// The branches, in order.
    pub conditions: Vec<Vec<Element>>,
}

/// A truncation directive, `%[-]N?{<|>}<text>{<|>}`.
#[derive(Debug, PartialEq, Eq)]
pub struct Truncation {
    /// Optional numeric argument.
    pub num: Option<i64>,
    /// `'<'` or `'>'`.
    pub code: char,
    /// The replacement text, raw (backslash escapes kept).
    pub replacement: String,
}

/// One indivisible rendering unit of a parsed prompt.
#[derive(Debug, PartialEq, Eq)]
pub enum Element {
    /// A single character not consumed by any more specific rule.
    Character(char),
    /// A plain escape.
    Escape(Escape),
    /// A numeric escape.
    NumericEscape(NumericEscape),
    /// A date format directive.
    DateFormat(DateFormat),
    /// A named color directive.
    NamedColor(NamedColor),
    /// A literal block.
    EscapeLiteral(EscapeLiteral),
    /// A two-armed conditional.
    Conditional(Conditional),
    /// A multi-armed conditional.
    AdvancedConditional(AdvancedConditional),
    /// A truncation directive.
    Truncation(Truncation),
    /// A directory-abbreviation directive.
    PathPrefix(PathPrefix),
}

/// Ghost counterpart of [`Element`], over mathematical sequences.
pub ghost enum GElem {
    /// A single character.
    Character(char),
    /// A plain escape.
    Escape(char),
    /// A numeric escape.
    NumericEscape(Option<i64>, char),
    /// A date format directive.
    DateFormat(Seq<char>),
    /// A named color directive.
    NamedColor { num: Option<i64>, code: char, name: Seq<char> },
    /// A literal block.
    EscapeLiteral(Seq<char>),
    /// A two-armed conditional.
    Conditional {
        num: Option<i64>,
        code: char,
        delim: char,
        true_branch: Seq<GElem>,
        false_branch: Seq<GElem>,
    },
    /// A multi-armed conditional.
    AdvancedConditional { code: char, delim: char, conditions: Seq<Seq<GElem>> },
    /// A truncation directive.
    Truncation { num: Option<i64>, code: char, replacement: Seq<char> },
    /// A directory-abbreviation directive.
    PathPrefix {
        num: Option<i64>,
        code: char,
        delim: char,
        prefix_subs: Seq<(Seq<char>, Seq<char>)>,
    },
}

/// The ghost value of one substitution pair.
pub open spec fn sub_view(p: (String, String)) -> (Seq<char>, Seq<char>) {
    (p.0@, p.1@)
}

/// The ghost value of a substitution pair list.
pub open spec fn subs_view(v: Seq<(String, String)>) -> Seq<(Seq<char>, Seq<char>)> {
    v.map(|i: int, p: (String, String)| sub_view(p))
}

/// The ghost value of one element.
pub open spec fn elem_view(e: Element) -> GElem
    decreases e, 0int,
{
    match e {
        Element::Character(c) => GElem::Character(c),
        Element::Escape(Escape(c)) => GElem::Escape(c),
        Element::NumericEscape(NumericEscape(num, c)) => GElem::NumericEscape(num, c),
        Element::DateFormat(DateFormat(s)) => GElem::DateFormat(s@),
        Element::NamedColor(nc) => GElem::NamedColor {
            num: nc.num,
            code: nc.code,
            name: nc.name@,
        },
        Element::EscapeLiteral(EscapeLiteral(s)) => GElem::EscapeLiteral(s@),
        Element::Conditional(c) => GElem::Conditional {
            num: c.num,
            code: c.code,
            delim: c.delim,
            true_branch: elems_view(c.true_branch@),
            false_branch: elems_view(c.false_branch@),
        },
        Element::AdvancedConditional(a) => GElem::AdvancedConditional {
            code: a.code,
            delim: a.delim,
            conditions: branches_view(a.conditions@),
        },
        Element::Truncation(t) => GElem::Truncation {
            num: t.num,
            code: t.code,
            replacement: t.replacement@,
        },
        Element::PathPrefix(p) => GElem::PathPrefix {
            num: p.num,
            code: p.code,
            delim: p.delim,
            prefix_subs: subs_view(p.prefix_subs@),
        },
    }
}

/// The ghost value of a sequence of elements.
pub open spec fn elems_view(v: Seq<Element>) -> Seq<GElem>
    decreases v, 1int,
{
    if v.len() == 0 {
        Seq::empty()
    } else {
        seq![elem_view(v[0])] + elems_view(v.drop_first())
    }
}

/// The ghost value of a list of branches.
pub open spec fn branches_view(v: Seq<Vec<Element>>) -> Seq<Seq<GElem>>
    decreases v, 2int,
{
    if v.len() == 0 {
        Seq::empty()
    } else {
        seq![elems_view(v[0]@)] + branches_view(v.drop_first())
    }
}

/// The view equations of [`elem_view`], one per variant.
pub proof fn lemma_elem_view(e: Element)
    ensures
        elem_view(e) == (match e {
            Element::Character(c) => GElem::Character(c),
            Element::Escape(Escape(c)) => GElem::Escape(c),
            Element::NumericEscape(NumericEscape(num, c)) => GElem::NumericEscape(num, c),
            Element::DateFormat(DateFormat(s)) => GElem::DateFormat(s@),
            Element::NamedColor(nc) => GElem::NamedColor {
                num: nc.num,
                code: nc.code,
                name: nc.name@,
            },
            Element::EscapeLiteral(EscapeLiteral(s)) => GElem::EscapeLiteral(s@),
            Element::Conditional(c) => GElem::Conditional {
                num: c.num,
                code: c.code,
                delim: c.delim,
                true_branch: elems_view(c.true_branch@),
                false_branch: elems_view(c.false_branch@),
            },
            Element::AdvancedConditional(a) => GElem::AdvancedConditional {
                code: a.code,
                delim: a.delim,
                conditions: branches_view(a.conditions@),
            },
            Element::Truncation(t) => GElem::Truncation {
                num: t.num,
                code: t.code,
                replacement: t.replacement@,
            },
            Element::PathPrefix(p) => GElem::PathPrefix {
                num: p.num,
                code: p.code,
                delim: p.delim,
                prefix_subs: subs_view(p.prefix_subs@),
            },
        }),
{
}

/// `elems_view` of an empty sequence is empty.
pub proof fn lemma_elems_view_empty()
    ensures
        elems_view(Seq::empty()) == Seq::<GElem>::empty(),
{
}

/// `elems_view` of a sequence with a first element.
pub proof fn lemma_elems_view_cons(e: Element, rest: Seq<Element>)
    ensures
        elems_view(seq![e] + rest) == seq![elem_view(e)] + elems_view(rest),
{
    assert((seq![e] + rest).drop_first() =~= rest);
    assert(elems_view(seq![e] + rest) =~= seq![elem_view(e)] + elems_view(rest));
}

/// `branches_view` of an empty sequence is empty.
pub proof fn lemma_branches_view_empty()
    ensures
        branches_view(Seq::empty()) == Seq::<Seq<GElem>>::empty(),
{
}

/// `branches_view` of a sequence with a first branch.
pub proof fn lemma_branches_view_cons(b: Vec<Element>, rest: Seq<Vec<Element>>)
    ensures
        branches_view(seq![b] + rest) == seq![elems_view(b@)] + branches_view(rest),
{
    assert((seq![b] + rest).drop_first() =~= rest);
    assert(branches_view(seq![b] + rest) =~= seq![elems_view(b@)] + branches_view(rest));
}

/// `elems_view` looks at each position independently.
pub proof fn lemma_elems_view_index(v: Seq<Element>, k: int)
    requires
        0 <= k < v.len(),
    ensures
        elems_view(v).len() == v.len(),
        elems_view(v)[k] == elem_view(v[k]),
    decreases v.len(),
{
    lemma_elems_view_len(v);
    if k > 0 {
        lemma_elems_view_index(v.drop_first(), k - 1);
    }
}

/// `elems_view` keeps the length.
pub proof fn lemma_elems_view_len(v: Seq<Element>)
    ensures
        elems_view(v).len() == v.len(),
    decreases v.len(),
{
    if v.len() > 0 {
        lemma_elems_view_len(v.drop_first());
    }
}

/// Appending one element commutes with taking views.
pub proof fn lemma_elems_view_push(v: Seq<Element>, e: Element)
    ensures
        elems_view(v.push(e)) == elems_view(v).push(elem_view(e)),
    decreases v.len(),
{
    if v.len() == 0 {
        assert(v.push(e).drop_first() =~= v);
        assert(elems_view(v.push(e)) =~= elems_view(v).push(elem_view(e)));
    } else {
        assert(v.push(e).drop_first() =~= v.drop_first().push(e));
        lemma_elems_view_push(v.drop_first(), e);
        assert(elems_view(v.push(e)) =~= elems_view(v).push(elem_view(e)));
    }
}

/// `branches_view` looks at each position independently.
pub proof fn lemma_branches_view_index(v: Seq<Vec<Element>>, k: int)
    requires
        0 <= k < v.len(),
    ensures
        branches_view(v).len() == v.len(),
        branches_view(v)[k] == elems_view(v[k]@),
    decreases v.len(),
{
    lemma_branches_view_len(v);
    if k > 0 {
        lemma_branches_view_index(v.drop_first(), k - 1);
    }
}

/// `branches_view` keeps the length.
pub proof fn lemma_branches_view_len(v: Seq<Vec<Element>>)
    ensures
        branches_view(v).len() == v.len(),
    decreases v.len(),
{
    if v.len() > 0 {
        lemma_branches_view_len(v.drop_first());
    }
}

/// Appending one branch commutes with taking views.
pub proof fn lemma_branches_view_push(v: Seq<Vec<Element>>, b: Vec<Element>)
    ensures
        branches_view(v.push(b)) == branches_view(v).push(elems_view(b@)),
    decreases v.len(),
{
    if v.len() == 0 {
        assert(v.push(b).drop_first() =~= v);
        assert(branches_view(v.push(b)) =~= branches_view(v).push(elems_view(b@)));
    } else {
        assert(v.push(b).drop_first() =~= v.drop_first().push(b));
        lemma_branches_view_push(v.drop_first(), b);
        assert(branches_view(v.push(b)) =~= branches_view(v).push(elems_view(b@)));
    }
}

/// Appending one pair commutes with taking views.
pub proof fn lemma_subs_view_push(v: Seq<(String, String)>, p: (String, String))
    ensures
        subs_view(v.push(p)) == subs_view(v).push(sub_view(p)),
{
    assert(subs_view(v.push(p)) =~= subs_view(v).push(sub_view(p)));
}

} // verus!
