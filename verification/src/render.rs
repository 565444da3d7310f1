//! The renderer: emits each element, querying the provider for the
//! extension escapes and conditionals and reconstructing everything else.

use vstd::prelude::*;
use crate::ast::{
    Element, Escape, GElem, NumericEscape, branches_view, elem_view, elems_view,
    lemma_branches_view_index, lemma_elem_view, lemma_elems_view_index, lemma_elems_view_len,
};
use crate::chars::push_chars;
use crate::digits::{dec_int, dec_nat, push_dec_i64, push_dec_u64};
use crate::pathsub::{render_path, spec_render_path};
use crate::provider::{Domain, Info, InfoModel, domain_index, domain_index_exec};

verus! {

/// Escape codes with extension semantics.
pub open spec fn is_ext_escape(c: char) -> bool {
    c == 'r' || c == 'p' || c == 'q' || c == 'x'
}

/// Conditional predicate codes with extension semantics.
pub open spec fn is_ext_cond(c: char) -> bool {
    c == 'G' || c == 'y' || c == 'm' || c == 's' || c == 'o' || c == 'p' || c == 'q' || c == 'x'
}

fn is_ext_cond_exec(c: char) -> (r: bool)
    ensures
        r == is_ext_cond(c),
{
    match c {
        'G' | 'y' | 'm' | 's' | 'o' | 'p' | 'q' | 'x' => true,
        _ => false,
    }
}

/// The text of an optional numeric argument.
pub open spec fn num_text(num: Option<i64>) -> Seq<char> {
    match num {
        None => Seq::empty(),
        Some(v) => dec_int(v as int),
    }
}

/// The value of an optional numeric argument, defaulting to zero.
pub open spec fn num_val(num: Option<i64>) -> int {
    match num {
        None => 0,
        Some(v) => v as int,
    }
}

/// Whether an extension conditional predicate holds of the model.
pub open spec fn cond_holds(code: char, n: int, m: InfoModel) -> bool {
    if code == 'G' {
        m.exists
    } else if code == 'y' {
        m.dirty
    } else if code == 'm' {
        m.modified
    } else if code == 's' {
        m.staged
    } else if code == 'o' {
        domain_index(m.domain) == n
    } else if code == 'p' {
        m.ahead as int >= n
    } else if code == 'q' {
        m.behind as int >= n
    } else if code == 'x' {
        m.stashes as int >= n
    } else {
        false
    }
}

/// The branch index a multi-armed conditional reads from the model.
pub open spec fn adv_index(code: char, m: InfoModel) -> int {
    if code == 'o' {
        domain_index(m.domain)
    } else if code == 'p' {
        m.ahead as int
    } else if code == 'q' {
        m.behind as int
    } else if code == 'x' {
        m.stashes as int
    } else {
        0
    }
}

/// The rendering of one element against the model.
///
/// Elements without extension semantics reconstruct their source syntax;
/// a conditional with an extension predicate renders only the selected
/// branch; a multi-armed conditional renders the indexed branch, or the last
/// one when the index is out of range, and nothing at all when it has no
/// branches (which the grammar produces only for a delimiter equal to the
/// terminator, as in `%(o)`).
pub open spec fn spec_render_elem(e: GElem, m: InfoModel) -> Seq<char>
    decreases e, 0int,
{
    match e {
        GElem::Character(c) => seq![c],
        GElem::Escape(c) => {
            if c == 'r' {
                m.branch
            } else if c == 'p' {
                dec_nat(m.ahead as nat)
            } else if c == 'q' {
                dec_nat(m.behind as nat)
            } else if c == 'x' {
                dec_nat(m.stashes as nat)
            } else {
                seq!['%', c]
            }
        },
        GElem::NumericEscape(num, c) => seq!['%'] + num_text(num) + seq![c],
        GElem::DateFormat(d) => seq!['%', 'D', '{'] + d + seq!['}'],
        GElem::NamedColor { num, code, name } => seq!['%'] + num_text(num) + seq![code, '{']
            + name + seq!['}'],
        GElem::EscapeLiteral(l) => seq!['%', '{'] + l + seq!['%', '}'],
        GElem::Truncation { num, code, replacement } => seq!['%'] + num_text(num) + seq![code]
            + replacement + seq![code],
        GElem::PathPrefix { num, code, delim, prefix_subs } => spec_render_path(
            m.path,
            prefix_subs,
            num_val(num),
        ),
        GElem::Conditional { num, code, delim, true_branch, false_branch } => {
            if is_ext_cond(code) {
                if cond_holds(code, num_val(num), m) {
                    spec_render_seq(true_branch, m)
                } else {
                    spec_render_seq(false_branch, m)
                }
            } else {
                seq!['%'] + num_text(num) + seq!['(', code, delim] + spec_render_seq(
                    true_branch,
                    m,
                ) + seq![delim] + spec_render_seq(false_branch, m) + seq![')']
            }
        },
        GElem::AdvancedConditional { code, delim, conditions } => {
            if conditions.len() == 0 {
                Seq::empty()
            } else {
                let ind = adv_index(code, m);
                let sel: int = if ind < conditions.len() {
                    ind
                } else {
                    conditions.len() - 1
                };
                spec_render_seq(conditions[sel], m)
            }
        },
    }
}

/// The rendering of an element sequence against the model.
pub open spec fn spec_render_seq(es: Seq<GElem>, m: InfoModel) -> Seq<char>
    decreases es, 1int,
{
    if es.len() == 0 {
        Seq::empty()
    } else {
        spec_render_elem(es[0], m) + spec_render_seq(es.drop_first(), m)
    }
}

/// The expansion of a whole prompt string against the model.
pub open spec fn spec_expand(s: Seq<char>, m: InfoModel) -> Seq<char> {
    spec_render_seq(crate::grammar::spec_parse(s), m)
}

/// Appending one element commutes with rendering.
pub proof fn lemma_render_seq_push(es: Seq<GElem>, e: GElem, m: InfoModel)
    ensures
        spec_render_seq(es.push(e), m) == spec_render_seq(es, m) + spec_render_elem(e, m),
    decreases es.len(),
{
    if es.len() == 0 {
        assert(es.push(e).drop_first() =~= es);
        assert(spec_render_seq(es.push(e), m) =~= spec_render_seq(es, m) + spec_render_elem(
            e,
            m,
        ));
    } else {
        assert(es.push(e).drop_first() =~= es.drop_first().push(e));
        lemma_render_seq_push(es.drop_first(), e, m);
        assert(spec_render_seq(es.push(e), m) =~= spec_render_seq(es, m) + spec_render_elem(
            e,
            m,
        ));
    }
}

/// Append the text of an optional numeric argument.
fn push_opt_num(out: &mut Vec<char>, num: &Option<i64>)
    ensures
        final(out)@ == old(out)@ + num_text(*num),
{
    match num {
        None => {
            proof {
                assert(out@ =~= old(out)@ + num_text(*num));
            }
        },
        Some(v) => {
            push_dec_i64(out, *v);
        },
    }
}

/// Evaluate an extension conditional predicate against the provider.
fn eval_cond<I: Info>(code: char, n: i64, info: &mut I) -> (r: bool)
    requires
        is_ext_cond(code),
    ensures
        final(info).model() == old(info).model(),
        r == cond_holds(code, n as int, old(info).model()),
{
    match code {
        'G' => info.git_exists(),
        'y' => info.git_dirty(),
        'm' => info.git_modified(),
        's' => info.git_staged(),
        'o' => {
            let d = domain_index_exec(info.git_remote_domain());
            d as i64 == n
        },
        'p' => {
            let a = info.git_remote_ahead();
            n <= 0 || (a as u64) >= (n as u64)
        },
        'q' => {
            let b = info.git_remote_behind();
            n <= 0 || (b as u64) >= (n as u64)
        },
        _ => {
            let s = info.git_stashes();
            n <= 0 || (s as u64) >= (n as u64)
        },
    }
}

/// Render one element, appending its text to `out`.
fn render_elem<I: Info>(e: &Element, info: &mut I, out: &mut Vec<char>)
    ensures
        final(info).model() == old(info).model(),
        final(out)@ == old(out)@ + spec_render_elem(elem_view(*e), old(info).model()),
    decreases *e, 0int,
{
    proof {
        lemma_elem_view(*e);
    }
    match e {
        Element::Character(c) => {
            out.push(*c);
            proof {
                assert(out@ =~= old(out)@ + seq![*c]);
            }
        },
        Element::Escape(Escape(c)) => {
            if *c == 'r' {
                let b = info.git_branch();
                crate::chars::push_str_chars(out, b.as_str());
            } else if *c == 'p' {
                let a = info.git_remote_ahead();
                push_dec_u64(out, a as u64);
            } else if *c == 'q' {
                let b = info.git_remote_behind();
                push_dec_u64(out, b as u64);
            } else if *c == 'x' {
                let s = info.git_stashes();
                push_dec_u64(out, s as u64);
            } else {
                out.push('%');
                out.push(*c);
                proof {
                    assert(out@ =~= old(out)@ + seq!['%', *c]);
                }
            }
        },
        Element::NumericEscape(NumericEscape(num, c)) => {
            out.push('%');
            push_opt_num(out, num);
            out.push(*c);
            proof {
                assert(out@ =~= old(out)@ + (seq!['%'] + num_text(*num) + seq![*c]));
            }
        },
        Element::DateFormat(d) => {
            out.push('%');
            out.push('D');
            out.push('{');
            crate::chars::push_str_chars(out, d.0.as_str());
            out.push('}');
            proof {
                assert(out@ =~= old(out)@ + (seq!['%', 'D', '{'] + d.0@ + seq!['}']));
            }
        },
        Element::NamedColor(nc) => {
            out.push('%');
            push_opt_num(out, &nc.num);
            out.push(nc.code);
            out.push('{');
            crate::chars::push_str_chars(out, nc.name.as_str());
            out.push('}');
            proof {
                assert(out@ =~= old(out)@ + (seq!['%'] + num_text(nc.num) + seq![nc.code, '{']
                    + nc.name@ + seq!['}']));
            }
        },
        Element::EscapeLiteral(l) => {
            out.push('%');
            out.push('{');
            crate::chars::push_str_chars(out, l.0.as_str());
            out.push('%');
            out.push('}');
            proof {
                assert(out@ =~= old(out)@ + (seq!['%', '{'] + l.0@ + seq!['%', '}']));
            }
        },
        Element::Truncation(t) => {
            out.push('%');
            push_opt_num(out, &t.num);
            out.push(t.code);
            crate::chars::push_str_chars(out, t.replacement.as_str());
            out.push(t.code);
            proof {
                assert(out@ =~= old(out)@ + (seq!['%'] + num_text(t.num) + seq![t.code]
                    + t.replacement@ + seq![t.code]));
            }
        },
        Element::PathPrefix(p) => {
            let path = info.current_path();
            let nv: i64 = match &p.num {
                Some(v) => *v,
                None => 0,
            };
            let rendered = render_path(&path, &p.prefix_subs, nv);
            push_chars(out, &rendered);
        },
        Element::Conditional(c) => {
            if is_ext_cond_exec(c.code) {
                let nv: i64 = match &c.num {
                    Some(v) => *v,
                    None => 0,
                };
                let sel = eval_cond(c.code, nv, info);
                if sel {
                    render_elems(&c.true_branch, info, out);
                } else {
                    render_elems(&c.false_branch, info, out);
                }
            } else {
                let ghost m = info.model();
                out.push('%');
                push_opt_num(out, &c.num);
                out.push('(');
                out.push(c.code);
                out.push(c.delim);
                let ghost mid1 = out@;
                proof {
                    assert(mid1 =~= old(out)@ + (seq!['%'] + num_text(c.num) + seq![
                        '(',
                        c.code,
                        c.delim,
                    ]));
                }
                render_elems(&c.true_branch, info, out);
                out.push(c.delim);
                let ghost mid2 = out@;
                render_elems(&c.false_branch, info, out);
                out.push(')');
                proof {
                    assert(out@ =~= old(out)@ + (seq!['%'] + num_text(c.num) + seq![
                        '(',
                        c.code,
                        c.delim,
                    ] + spec_render_seq(elems_view(c.true_branch@), m) + seq![c.delim]
                        + spec_render_seq(elems_view(c.false_branch@), m) + seq![')']));
                }
            }
        },
        Element::AdvancedConditional(a) => {
            if a.conditions.len() == 0 {
                proof {
                    assert(out@ =~= old(out)@ + Seq::<char>::empty());
                }
            } else {
                let ind: usize = match a.code {
                    'o' => domain_index_exec(info.git_remote_domain()),
                    'p' => info.git_remote_ahead(),
                    'q' => info.git_remote_behind(),
                    'x' => info.git_stashes(),
                    _ => 0,
                };
                let sel: usize = if ind < a.conditions.len() {
                    ind
                } else {
                    a.conditions.len() - 1
                };
                proof {
                    lemma_branches_view_index(a.conditions@, sel as int);
                }
                render_elems(&a.conditions[sel], info, out);
            }
        },
    }
}

/// Render an element sequence, appending its text to `out`.
fn render_elems<I: Info>(es: &Vec<Element>, info: &mut I, out: &mut Vec<char>)
    ensures
        final(info).model() == old(info).model(),
        final(out)@ == old(out)@ + spec_render_seq(elems_view(es@), old(info).model()),
    decreases es@, 1int,
{
    let ghost m = info.model();
    let ghost base = out@;
    let mut k: usize = 0;
    proof {
        lemma_elems_view_len(es@);
        assert(elems_view(es@).subrange(0, 0) =~= Seq::<GElem>::empty());
        assert(base + spec_render_seq(elems_view(es@).subrange(0, 0), m) =~= base);
    }
    while k < es.len()
        invariant
            k <= es@.len(),
            elems_view(es@).len() == es@.len(),
            info.model() == m,
            out@ == base + spec_render_seq(elems_view(es@).subrange(0, k as int), m),
        decreases es@.len() - k,
    {
        let ghost pre = elems_view(es@).subrange(0, k as int);
        render_elem(&es[k], info, out);
        proof {
            lemma_elems_view_index(es@, k as int);
            lemma_render_seq_push(pre, elem_view(es@[k as int]), m);
            assert(elems_view(es@).subrange(0, k + 1) =~= pre.push(elem_view(es@[k as int])));
        }
        k = k + 1;
    }
    proof {
        assert(elems_view(es@).subrange(0, es@.len() as int) =~= elems_view(es@));
    }
}

/// Whether an element carries no extension semantics: rendering such an
/// element never consults the provider.
pub open spec fn is_pass_through(e: GElem) -> bool
    decreases e, 0int,
{
    match e {
        GElem::Character(c) => true,
        GElem::Escape(c) => !is_ext_escape(c),
        GElem::NumericEscape(num, c) => true,
        GElem::DateFormat(d) => true,
        GElem::NamedColor { num, code, name } => true,
        GElem::EscapeLiteral(l) => true,
        GElem::Truncation { num, code, replacement } => true,
        GElem::PathPrefix { num, code, delim, prefix_subs } => false,
        GElem::AdvancedConditional { code, delim, conditions } => false,
        GElem::Conditional { num, code, delim, true_branch, false_branch } => !is_ext_cond(code)
            && all_pass_through(true_branch) && all_pass_through(false_branch),
    }
}

/// Whether every element of the sequence is pass-through.
pub open spec fn all_pass_through(es: Seq<GElem>) -> bool
    decreases es, 1int,
{
    es.len() == 0 || (is_pass_through(es[0]) && all_pass_through(es.drop_first()))
}

/// The substitution pairs after the first, each preceded by the delimiter,
/// as they stood in the source.
pub open spec fn recon_pairs_more(subs: Seq<(Seq<char>, Seq<char>)>, d: char) -> Seq<char>
    decreases subs.len(),
{
    if subs.len() == 0 {
        Seq::empty()
    } else {
        seq![d] + subs[0].0 + seq![d] + subs[0].1 + recon_pairs_more(subs.drop_first(), d)
    }
}

/// The substitution pair list as it stood in the source.
pub open spec fn recon_pairs(subs: Seq<(Seq<char>, Seq<char>)>, d: char) -> Seq<char> {
    if subs.len() == 0 {
        Seq::empty()
    } else {
        subs[0].0 + seq![d] + subs[0].1 + recon_pairs_more(subs.drop_first(), d)
    }
}

/// The verbatim reconstruction of an element: the text it parsed from, up
/// to canonical respelling of numeric arguments.  For pass-through elements
/// it is also exactly what the renderer emits.
pub open spec fn spec_reconstruct_elem(e: GElem) -> Seq<char>
    decreases e, 0int,
{
    match e {
        GElem::Character(c) => seq![c],
        GElem::Escape(c) => seq!['%', c],
        GElem::NumericEscape(num, c) => seq!['%'] + num_text(num) + seq![c],
        GElem::DateFormat(d) => seq!['%', 'D', '{'] + d + seq!['}'],
        GElem::NamedColor { num, code, name } => seq!['%'] + num_text(num) + seq![code, '{']
            + name + seq!['}'],
        GElem::EscapeLiteral(l) => seq!['%', '{'] + l + seq!['%', '}'],
        GElem::Truncation { num, code, replacement } => seq!['%'] + num_text(num) + seq![code]
            + replacement + seq![code],
        GElem::Conditional { num, code, delim, true_branch, false_branch } => seq!['%']
            + num_text(num) + seq!['(', code, delim] + spec_reconstruct_seq(true_branch) + seq![
            delim,
        ] + spec_reconstruct_seq(false_branch) + seq![')'],
        GElem::PathPrefix { num, code, delim, prefix_subs } => seq!['%'] + num_text(num) + seq![
            code,
            '{',
            delim,
        ] + recon_pairs(prefix_subs, delim) + seq!['}'],
        GElem::AdvancedConditional { code, delim, conditions } => seq!['%', '(', code, delim]
            + recon_branches(conditions, delim),
    }
}

/// The verbatim reconstruction of an element sequence.
pub open spec fn spec_reconstruct_seq(es: Seq<GElem>) -> Seq<char>
    decreases es, 1int,
{
    if es.len() == 0 {
        Seq::empty()
    } else {
        spec_reconstruct_elem(es[0]) + spec_reconstruct_seq(es.drop_first())
    }
}

/// The branch list of a multi-armed conditional as it stood in the source:
/// branches separated by the delimiter, the last closed by the terminator.
/// An empty list stands for a delimiter equal to the terminator, which
/// closed the element by itself.
pub open spec fn recon_branches(conds: Seq<Seq<GElem>>, d: char) -> Seq<char>
    decreases conds, 2int,
{
    if conds.len() == 0 {
        Seq::empty()
    } else if conds.len() == 1 {
        spec_reconstruct_seq(conds[0]) + seq![')']
    } else {
        spec_reconstruct_seq(conds[0]) + seq![d] + recon_branches(conds.drop_first(), d)
    }
}

/// A pass-through element renders as its reconstruction, whatever the
/// provider's model: rendering it reads nothing from the provider.
pub proof fn lemma_render_elem_pass_through(e: GElem, m: InfoModel)
    requires
        is_pass_through(e),
    ensures
        spec_render_elem(e, m) == spec_reconstruct_elem(e),
    decreases e, 0int,
{
    match e {
        GElem::Conditional { num, code, delim, true_branch, false_branch } => {
            lemma_render_seq_pass_through(true_branch, m);
            lemma_render_seq_pass_through(false_branch, m);
        },
        _ => {},
    }
}

/// A sequence of pass-through elements renders as its reconstruction.
pub proof fn lemma_render_seq_pass_through(es: Seq<GElem>, m: InfoModel)
    requires
        all_pass_through(es),
    ensures
        spec_render_seq(es, m) == spec_reconstruct_seq(es),
    decreases es, 1int,
{
    if es.len() > 0 {
        lemma_render_elem_pass_through(es[0], m);
        lemma_render_seq_pass_through(es.drop_first(), m);
    }
}

/// Identity on non-extension escapes: a prompt whose parse holds only
/// pass-through elements, and whose reconstruction is the prompt itself (the
/// prompt spells its numeric arguments the way the renderer prints them),
/// expands to itself under every provider.
pub proof fn lemma_expand_identity(s: Seq<char>, m: InfoModel)
    requires
        all_pass_through(crate::grammar::spec_parse(s)),
        spec_reconstruct_seq(crate::grammar::spec_parse(s)) == s,
    ensures
        spec_expand(s, m) == s,
{
    lemma_render_seq_pass_through(crate::grammar::spec_parse(s), m);
}

/// Selection in a multi-armed conditional with at least one branch: an index
/// within range renders that branch -- the last branch is selected by the
/// index one less than the branch count, not by falling through -- and any
/// index at or past the branch count renders the last branch.
pub proof fn lemma_multi_conditional_selection(
    code: char,
    delim: char,
    conditions: Seq<Seq<GElem>>,
    m: InfoModel,
)
    requires
        conditions.len() > 0,
    ensures
        adv_index(code, m) < conditions.len() ==> spec_render_elem(
            (GElem::AdvancedConditional { code, delim, conditions }),
            m,
        ) == spec_render_seq(conditions[adv_index(code, m)], m),
        adv_index(code, m) >= conditions.len() ==> spec_render_elem(
            (GElem::AdvancedConditional { code, delim, conditions }),
            m,
        ) == spec_render_seq(conditions[conditions.len() - 1], m),
{
}

/// Whether every numeric argument position of `s` spells its number the way
/// the renderer prints it: no plus sign, no leading zeros, no negative zero.
/// Numeric arguments are looked for after each `%`.
pub open spec fn nums_canonical(s: Seq<char>) -> bool {
    forall|i: int|
        0 <= i < s.len() && #[trigger] s[i] == '%' ==> (match crate::grammar::spec_parse_num_at(
            s,
            i + 1,
        ) {
            Some((v, k)) => s.subrange(i + 1, k) == dec_int(v as int),
            None => true,
        })
}

proof fn lemma_commit_num(s: Seq<char>, i: int)
    requires
        nums_canonical(s),
        0 <= i < s.len(),
        s[i] == '%',
    ensures
        ({
            let after0: int = match crate::grammar::spec_parse_num_at(s, i + 1) {
                Some((v, k)) => k,
                None => i + 1,
            };
            let nt: Seq<char> = match crate::grammar::spec_parse_num_at(s, i + 1) {
                Some((v, k)) => num_text(Some(v)),
                None => num_text(None::<i64>),
            };
            &&& i < after0 <= s.len()
            &&& crate::grammar::clamp_ix(after0, i + 1, s.len() as int) == after0
            &&& seq!['%'] + nt == s.subrange(i, after0)
        }),
{
    crate::grammar::lemma_parse_num_bounds(s, i + 1);
    match crate::grammar::spec_parse_num_at(s, i + 1) {
        Some((v, k)) => {
            assert(s.subrange(i + 1, k) == dec_int(v as int));
            assert(seq!['%'] + num_text(Some(v)) =~= s.subrange(i, k));
        },
        None => {
            assert(seq!['%'] + num_text(None::<i64>) =~= s.subrange(i, i + 1));
        },
    }
}

#[verifier::rlimit(60)]
proof fn lemma_truncation_recon(s: Seq<char>, i: int)
    requires
        nums_canonical(s),
        0 <= i < s.len(),
    ensures
        match crate::grammar::spec_truncation(s, i) {
            Some((e, j)) => i < j <= s.len() && spec_reconstruct_elem(e) == s.subrange(i, j),
            None => true,
        },
{
    if s[i] == '%' {
        crate::grammar::lemma_parse_num_bounds(s, i + 1);
        match crate::grammar::spec_truncation(s, i) {
            None => {},
            Some((e, j)) => {
                let after0: int = match crate::grammar::spec_parse_num_at(s, i + 1) {
                    Some((v, k)) => k,
                    None => i + 1,
                };
                let after = crate::grammar::clamp_ix(after0, i + 1, s.len() as int);
                let code = s[after];
                crate::grammar::lemma_escaped_scan_bounds(s, after + 1, code, code);
                assert(spec_reconstruct_elem(e) =~= s.subrange(i, j));
            },
        }
    }
}

proof fn lemma_date_recon(s: Seq<char>, i: int)
    requires
        0 <= i < s.len(),
    ensures
        match crate::grammar::spec_date(s, i) {
            Some((e, j)) => i < j <= s.len() && spec_reconstruct_elem(e) == s.subrange(i, j),
            None => true,
        },
{
    match crate::grammar::spec_date(s, i) {
        None => {},
        Some((e, j)) => {
            let r = crate::grammar::run_not(s, i + 3, '}');
            crate::grammar::lemma_run_not_bounds(s, i + 3, '}');
            assert(s[i + 3 + r] == '}');
            assert(spec_reconstruct_elem(e) =~= s.subrange(i, j));
        },
    }
}

#[verifier::rlimit(60)]
proof fn lemma_named_color_recon(s: Seq<char>, i: int)
    requires
        nums_canonical(s),
        0 <= i < s.len(),
    ensures
        match crate::grammar::spec_named_color(s, i) {
            Some((e, j)) => i < j <= s.len() && spec_reconstruct_elem(e) == s.subrange(i, j),
            None => true,
        },
{
    if s[i] == '%' {
        match crate::grammar::spec_named_color(s, i) {
            None => {},
            Some((e, j)) => {
                lemma_commit_num(s, i);
                let after0: int = match crate::grammar::spec_parse_num_at(s, i + 1) {
                    Some((v, k)) => k,
                    None => i + 1,
                };
                let nt: Seq<char> = match crate::grammar::spec_parse_num_at(s, i + 1) {
                    Some((v, k)) => num_text(Some(v)),
                    None => num_text(None::<i64>),
                };
                let after = crate::grammar::clamp_ix(after0, i + 1, s.len() as int);
                let r = crate::grammar::run_not(s, after + 2, '}');
                crate::grammar::lemma_run_not_bounds(s, after + 2, '}');
                assert(s[after + 2 + r] == '}');
                assert(seq!['%'] + nt + seq![s[after], '{'] =~= s.subrange(i, after + 2));
                assert(seq!['%'] + nt + seq![s[after], '{'] + s.subrange(after + 2, after + 2 + r)
                    + seq!['}'] =~= s.subrange(i, j));
                assert(spec_reconstruct_elem(e) == seq!['%'] + nt + seq![s[after], '{']
                    + s.subrange(after + 2, after + 2 + r) + seq!['}']);
            },
        }
    }
}

proof fn lemma_escape_literal_recon(s: Seq<char>, i: int)
    requires
        0 <= i < s.len(),
    ensures
        match crate::grammar::spec_escape_literal(s, i) {
            Some((e, j)) => i < j <= s.len() && spec_reconstruct_elem(e) == s.subrange(i, j),
            None => true,
        },
{
    match crate::grammar::spec_escape_literal(s, i) {
        None => {},
        Some((e, j)) => {
            crate::grammar::lemma_find_lit_bounds(s, i + 2);
            assert(spec_reconstruct_elem(e) =~= s.subrange(i, j));
        },
    }
}

proof fn lemma_numeric_escape_recon(s: Seq<char>, i: int)
    requires
        nums_canonical(s),
        0 <= i < s.len(),
    ensures
        match crate::grammar::spec_numeric_escape(s, i) {
            Some((e, j)) => i < j <= s.len() && spec_reconstruct_elem(e) == s.subrange(i, j),
            None => true,
        },
{
    if s[i] == '%' {
        crate::grammar::lemma_parse_num_bounds(s, i + 1);
        match crate::grammar::spec_numeric_escape(s, i) {
            None => {},
            Some((e, j)) => {
                assert(spec_reconstruct_elem(e) =~= s.subrange(i, j));
            },
        }
    }
}

proof fn lemma_escape_recon(s: Seq<char>, i: int)
    requires
        0 <= i < s.len(),
    ensures
        match crate::grammar::spec_escape(s, i) {
            Some((e, j)) => i < j <= s.len() && spec_reconstruct_elem(e) == s.subrange(i, j),
            None => true,
        },
{
    match crate::grammar::spec_escape(s, i) {
        None => {},
        Some((e, j)) => {
            assert(spec_reconstruct_elem(e) =~= s.subrange(i, j));
        },
    }
}

proof fn lemma_pairs_more_recon(s: Seq<char>, i: int, d: char)
    requires
        0 <= i <= s.len(),
    ensures
        ({
            let (subs, j) = crate::grammar::spec_pairs_more(s, i, d);
            i <= j <= s.len() && recon_pairs_more(subs, d) == s.subrange(i, j)
        }),
    decreases s.len() - i,
{
    let (subs, j) = crate::grammar::spec_pairs_more(s, i, d);
    if i < s.len() && s[i] == d {
        crate::grammar::lemma_pair_one_recon(s, i + 1, d);
        match crate::grammar::spec_pair_one(s, i + 1, d) {
            None => {
                assert(recon_pairs_more(subs, d) =~= s.subrange(i, j));
            },
            Some((a, p, j2)) => {
                lemma_pairs_more_recon(s, j2, d);
                let (rest, k) = crate::grammar::spec_pairs_more(s, j2, d);
                assert((seq![(a, p)] + rest).drop_first() =~= rest);
                assert((seq![(a, p)] + rest)[0] == (a, p));
                assert(seq![d] + a + seq![d] + p =~= seq![d] + (a + seq![d] + p));
                assert(seq![d] + (a + seq![d] + p) =~= s.subrange(i, j2));
                assert(recon_pairs_more(subs, d) == seq![d] + a + seq![d] + p
                    + recon_pairs_more(rest, d));
                assert(seq![d] + a + seq![d] + p + recon_pairs_more(rest, d) =~= s.subrange(
                    i,
                    j,
                ));
            },
        }
    } else {
        assert(recon_pairs_more(subs, d) =~= s.subrange(i, j));
    }
}

proof fn lemma_pairs_recon(s: Seq<char>, i: int, d: char)
    requires
        0 <= i <= s.len(),
    ensures
        ({
            let (subs, j) = crate::grammar::spec_pairs(s, i, d);
            i <= j <= s.len() && recon_pairs(subs, d) == s.subrange(i, j)
        }),
{
    let (subs, j) = crate::grammar::spec_pairs(s, i, d);
    crate::grammar::lemma_pair_one_recon(s, i, d);
    match crate::grammar::spec_pair_one(s, i, d) {
        None => {
            assert(recon_pairs(subs, d) =~= s.subrange(i, j));
        },
        Some((a, p, j2)) => {
            lemma_pairs_more_recon(s, j2, d);
            let (rest, k) = crate::grammar::spec_pairs_more(s, j2, d);
            assert((seq![(a, p)] + rest).drop_first() =~= rest);
            assert((seq![(a, p)] + rest)[0] == (a, p));
            assert(recon_pairs(subs, d) == a + seq![d] + p + recon_pairs_more(rest, d));
            assert(a + seq![d] + p + recon_pairs_more(rest, d) =~= s.subrange(i, j));
        },
    }
}

proof fn lemma_subrange_glue(s: Seq<char>, i: int, mid: int, j: int, x: Seq<char>, y: Seq<char>)
    requires
        0 <= i <= mid <= j <= s.len(),
        x == s.subrange(i, mid),
        y == s.subrange(mid, j),
    ensures
        x + y == s.subrange(i, j),
{
    assert(x + y =~= s.subrange(i, j));
}

proof fn lemma_path_prefix_recon(s: Seq<char>, i: int)
    requires
        nums_canonical(s),
        0 <= i < s.len(),
    ensures
        match crate::grammar::spec_path_prefix(s, i) {
            Some((e, j)) => i < j <= s.len() && spec_reconstruct_elem(e) == s.subrange(i, j),
            None => true,
        },
{
    if s[i] == '%' {
        match crate::grammar::spec_path_prefix(s, i) {
            None => {},
            Some((e, j)) => {
                lemma_commit_num(s, i);
                let after0: int = match crate::grammar::spec_parse_num_at(s, i + 1) {
                    Some((v, k)) => k,
                    None => i + 1,
                };
                let nt: Seq<char> = match crate::grammar::spec_parse_num_at(s, i + 1) {
                    Some((v, k)) => num_text(Some(v)),
                    None => num_text(None::<i64>),
                };
                let after = crate::grammar::clamp_ix(after0, i + 1, s.len() as int);
                let delim = s[after + 2];
                lemma_pairs_recon(s, after + 3, delim);
                let (subs, jp) = crate::grammar::spec_pairs(s, after + 3, delim);
                assert(seq![s[after], '{', delim] =~= s.subrange(after, after + 3));
                lemma_subrange_glue(
                    s,
                    i,
                    after,
                    after + 3,
                    seq!['%'] + nt,
                    seq![s[after], '{', delim],
                );
                let header = seq!['%'] + nt + seq![s[after], '{', delim];
                assert(header == s.subrange(i, after + 3));
                lemma_subrange_glue(s, i, after + 3, jp, header, recon_pairs(subs, delim));
                assert(seq!['}'] =~= s.subrange(jp, jp + 1));
                lemma_subrange_glue(s, i, jp, jp + 1, header + recon_pairs(subs, delim), seq!['}']);
                assert(spec_reconstruct_elem(e) == header + recon_pairs(subs, delim)
                    + seq!['}']);
            },
        }
    }
}

#[verifier::rlimit(80)]
proof fn lemma_conditional_recon(s: Seq<char>, i: int)
    requires
        nums_canonical(s),
        0 <= i < s.len(),
    ensures
        match crate::grammar::spec_conditional(s, i) {
            Some((e, j)) => i < j <= s.len() && spec_reconstruct_elem(e) == s.subrange(i, j),
            None => true,
        },
    decreases s.len() - i, 0int,
{
    if s[i] == '%' {
        match crate::grammar::spec_conditional(s, i) {
            None => {},
            Some((e, j)) => {
                lemma_commit_num(s, i);
                let after0: int = match crate::grammar::spec_parse_num_at(s, i + 1) {
                    Some((v, k)) => k,
                    None => i + 1,
                };
                let nt: Seq<char> = match crate::grammar::spec_parse_num_at(s, i + 1) {
                    Some((v, k)) => num_text(Some(v)),
                    None => num_text(None::<i64>),
                };
                let after = crate::grammar::clamp_ix(after0, i + 1, s.len() as int);
                let code = s[after + 1];
                let delim = s[after + 2];
                lemma_elements_until_recon(s, after + 3, delim, delim);
                match crate::grammar::spec_elements_until(s, after + 3, delim, delim) {
                    None => {},
                    Some((tb, f1, j2)) => {
                        lemma_elements_until_recon(s, j2, ')', ')');
                        match crate::grammar::spec_elements_until(s, j2, ')', ')') {
                            None => {},
                            Some((fb, f2, j3)) => {
                                let header = seq!['%'] + nt + seq!['(', code, delim];
                                assert(header =~= s.subrange(i, after + 3));
                                assert(header + (spec_reconstruct_seq(tb) + seq![f1])
                                    =~= s.subrange(i, j2));
                                assert(header + (spec_reconstruct_seq(tb) + seq![f1])
                                    + (spec_reconstruct_seq(fb) + seq![f2]) =~= s.subrange(
                                    i,
                                    j3,
                                ));
                                assert(spec_reconstruct_elem(e) =~= header
                                    + (spec_reconstruct_seq(tb) + seq![f1])
                                    + (spec_reconstruct_seq(fb) + seq![f2]));
                            },
                        }
                    },
                }
            },
        }
    }
}

proof fn lemma_advanced_recon(s: Seq<char>, i: int)
    requires
        nums_canonical(s),
        0 <= i < s.len(),
    ensures
        match crate::grammar::spec_advanced(s, i) {
            Some((e, j)) => i < j <= s.len() && spec_reconstruct_elem(e) == s.subrange(i, j),
            None => true,
        },
    decreases s.len() - i, 0int,
{
    match crate::grammar::spec_advanced(s, i) {
        None => {},
        Some((e, j)) => {
            let code = s[i + 2];
            let delim = s[i + 3];
            if delim == ')' {
                assert(seq!['%', '(', code, delim] + recon_branches(
                    Seq::<Seq<GElem>>::empty(),
                    delim,
                ) =~= s.subrange(i, i + 4));
            } else {
                lemma_adv_branches_recon(s, i + 4, delim);
                match crate::grammar::spec_adv_branches(s, i + 4, delim) {
                    None => {},
                    Some((conds, jb)) => {
                        assert(seq!['%', '(', code, delim] + recon_branches(conds, delim)
                            =~= s.subrange(i, jb));
                    },
                }
            }
        },
    }
}

proof fn lemma_element_recon(s: Seq<char>, i: int)
    requires
        nums_canonical(s),
        0 <= i < s.len(),
    ensures
        ({
            let (e, j) = crate::grammar::spec_element(s, i);
            i < j <= s.len() && spec_reconstruct_elem(e) == s.subrange(i, j)
        }),
    decreases s.len() - i, 1int,
{
    lemma_truncation_recon(s, i);
    lemma_advanced_recon(s, i);
    lemma_conditional_recon(s, i);
    lemma_date_recon(s, i);
    lemma_named_color_recon(s, i);
    lemma_path_prefix_recon(s, i);
    lemma_escape_literal_recon(s, i);
    lemma_numeric_escape_recon(s, i);
    lemma_escape_recon(s, i);
    assert(seq![s[i]] =~= s.subrange(i, i + 1));
}

#[verifier::rlimit(60)]
proof fn lemma_elements_until_recon(s: Seq<char>, i: int, stop1: char, stop2: char)
    requires
        nums_canonical(s),
        0 <= i,
    ensures
        match crate::grammar::spec_elements_until(s, i, stop1, stop2) {
            Some((es, f, j)) => i < j <= s.len() && (f == stop1 || f == stop2)
                && spec_reconstruct_seq(es) + seq![f] == s.subrange(i, j),
            None => true,
        },
    decreases s.len() - i, 2int,
{
    if i < s.len() {
        lemma_element_recon(s, i);
        let (e, j0) = crate::grammar::spec_element(s, i);
        match crate::grammar::spec_elements_until(s, i, stop1, stop2) {
            None => {},
            Some((es, f, j)) => {
                match e {
                    GElem::Character(c) if c == stop1 || c == stop2 => {
                        assert(spec_reconstruct_elem(e) == seq![c]);
                        assert(j0 == i + 1);
                        assert(spec_reconstruct_seq(Seq::<GElem>::empty()) + seq![c]
                            =~= s.subrange(i, j0));
                    },
                    _ => {
                        lemma_elements_until_recon(s, j0, stop1, stop2);
                        match crate::grammar::spec_elements_until(s, j0, stop1, stop2) {
                            None => {},
                            Some((rest, f2, k)) => {
                                assert((seq![e] + rest).drop_first() =~= rest);
                                assert((seq![e] + rest)[0] == e);
                                assert(spec_reconstruct_seq(seq![e] + rest)
                                    == spec_reconstruct_elem(e) + spec_reconstruct_seq(rest));
                                assert(spec_reconstruct_elem(e) + (spec_reconstruct_seq(
                                    rest,
                                ) + seq![f2]) =~= s.subrange(i, k));
                                assert(spec_reconstruct_elem(e) + spec_reconstruct_seq(rest)
                                    + seq![f2] =~= spec_reconstruct_elem(e)
                                    + (spec_reconstruct_seq(rest) + seq![f2]));
                            },
                        }
                    },
                }
            },
        }
    }
}

proof fn lemma_adv_branches_recon(s: Seq<char>, i: int, delim: char)
    requires
        nums_canonical(s),
        0 <= i,
    ensures
        match crate::grammar::spec_adv_branches(s, i, delim) {
            Some((conds, j)) => i < j <= s.len() && conds.len() >= 1 && recon_branches(
                conds,
                delim,
            ) == s.subrange(i, j),
            None => true,
        },
    decreases s.len() - i, 3int,
{
    if i < s.len() {
        lemma_elements_until_recon(s, i, delim, ')');
        match crate::grammar::spec_elements_until(s, i, delim, ')') {
            None => {},
            Some((elems, found, j0)) => {
                if found == ')' {
                    assert(recon_branches(seq![elems], delim) == spec_reconstruct_seq(
                        seq![elems][0],
                    ) + seq![')']);
                    assert(seq![elems][0] == elems);
                } else {
                    lemma_adv_branches_recon(s, j0, delim);
                    match crate::grammar::spec_adv_branches(s, j0, delim) {
                        None => {},
                        Some((rest, k)) => {
                            let conds = seq![elems] + rest;
                            assert(conds.drop_first() =~= rest);
                            assert(conds[0] == elems);
                            assert(conds.len() >= 2);
                            assert(recon_branches(conds, delim) == spec_reconstruct_seq(elems)
                                + seq![delim] + recon_branches(rest, delim));
                            assert(spec_reconstruct_seq(elems) + seq![delim] + recon_branches(
                                rest,
                                delim,
                            ) =~= s.subrange(i, k));
                        },
                    }
                }
            },
        }
    }
}

proof fn lemma_parse_from_recon(s: Seq<char>, i: int)
    requires
        nums_canonical(s),
        0 <= i <= s.len(),
    ensures
        spec_reconstruct_seq(crate::grammar::spec_parse_from(s, i)) == s.subrange(
            i,
            s.len() as int,
        ),
    decreases s.len() - i,
{
    if i < s.len() {
        lemma_element_recon(s, i);
        let (e, j0) = crate::grammar::spec_element(s, i);
        lemma_parse_from_recon(s, j0);
        let rest = crate::grammar::spec_parse_from(s, j0);
        assert((seq![e] + rest).drop_first() =~= rest);
        assert((seq![e] + rest)[0] == e);
        assert(spec_reconstruct_seq(seq![e] + rest) == spec_reconstruct_elem(e)
            + spec_reconstruct_seq(rest));
        assert(spec_reconstruct_elem(e) + spec_reconstruct_seq(rest) =~= s.subrange(
            i,
            s.len() as int,
        ));
    } else {
        assert(spec_reconstruct_seq(crate::grammar::spec_parse_from(s, i)) =~= s.subrange(
            i,
            s.len() as int,
        ));
    }
}

/// Parsing is lossless: for a prompt whose numeric arguments are spelled
/// canonically, reconstructing the parsed elements gives back the prompt,
/// character for character -- nothing is dropped or duplicated.
pub proof fn lemma_parse_reconstruct(s: Seq<char>)
    requires
        nums_canonical(s),
    ensures
        spec_reconstruct_seq(crate::grammar::spec_parse(s)) == s,
{
    lemma_parse_from_recon(s, 0);
    assert(s.subrange(0, s.len() as int) =~= s);
}

/// Identity on non-extension escapes, syntactically: a prompt that parses
/// into pass-through elements only and spells its numeric arguments
/// canonically expands to itself under every provider.
pub proof fn lemma_expand_identity_canonical(s: Seq<char>, m: InfoModel)
    requires
        all_pass_through(crate::grammar::spec_parse(s)),
        nums_canonical(s),
    ensures
        spec_expand(s, m) == s,
{
    lemma_parse_reconstruct(s);
    lemma_expand_identity(s, m);
}

/// Render a parsed element sequence against a provider.
pub fn render<I: Info>(es: &Vec<Element>, info: &mut I) -> (r: Vec<char>)
    ensures
        final(info).model() == old(info).model(),
        r@ == spec_render_seq(elems_view(es@), old(info).model()),
{
    let mut out: Vec<char> = Vec::new();
    proof {
        assert(out@ =~= Seq::<char>::empty());
    }
    render_elems(es, info, &mut out);
    proof {
        assert(out@ =~= spec_render_seq(elems_view(es@), old(info).model()));
    }
    out
}

} // verus!
