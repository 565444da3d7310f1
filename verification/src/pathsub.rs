//! Working-directory abbreviation: the evaluation of a path-prefix
//! directive.
//!
//! A path is modeled as components: an absolute path is the root component
//! `/` followed by its nonempty segments.  Repeated separators collapse and
//! a trailing separator drops, so rendering a component list never ends in a
//! separator unless the whole result is exactly the root.

use vstd::prelude::*;
use crate::chars::{chars_range_to_vec, chars_eq, clone_chars, push_chars, str_to_chars};
use crate::grammar::run_not;
use crate::parser::p_run_not;

verus! {

/// The ghost value of a component list.
pub open spec fn comps_view(v: Seq<Vec<char>>) -> Seq<Seq<char>>
    decreases v.len(),
{
    if v.len() == 0 {
        Seq::empty()
    } else {
        seq![v[0]@] + comps_view(v.drop_first())
    }
}

/// `comps_view` keeps the length.
pub proof fn lemma_comps_view_len(v: Seq<Vec<char>>)
    ensures
        comps_view(v).len() == v.len(),
    decreases v.len(),
{
    if v.len() > 0 {
        lemma_comps_view_len(v.drop_first());
    }
}

/// `comps_view` looks at each position independently.
pub proof fn lemma_comps_view_index(v: Seq<Vec<char>>, k: int)
    requires
        0 <= k < v.len(),
    ensures
        comps_view(v).len() == v.len(),
        comps_view(v)[k] == v[k]@,
    decreases v.len(),
{
    lemma_comps_view_len(v);
    if k > 0 {
        lemma_comps_view_index(v.drop_first(), k - 1);
    }
}

/// The segments of `p` from position `i` on: runs of non-separator
/// characters, with separators in between skipped.
pub open spec fn split_segs(p: Seq<char>, i: int) -> Seq<Seq<char>>
    decreases p.len() - i,
{
    if i < 0 || i >= p.len() {
        Seq::empty()
    } else if p[i] == '/' {
        split_segs(p, i + 1)
    } else {
        let r = run_not(p, i, '/');
        let r2: int = if i + r > p.len() {
            p.len() - i
        } else {
            r as int
        };
        seq![p.subrange(i, i + r2)] + split_segs(p, i + r2)
    }
}

/// The components of a path: the root component first when absolute, then
/// the segments.
pub open spec fn path_components(p: Seq<char>) -> Seq<Seq<char>> {
    if p.len() > 0 && p[0] == '/' {
        seq![seq!['/']] + split_segs(p, 1)
    } else {
        split_segs(p, 0)
    }
}

/// Whether `pre` is a leading run of `comps`.
pub open spec fn is_comp_prefix(pre: Seq<Seq<char>>, comps: Seq<Seq<char>>) -> bool {
    pre.len() <= comps.len() && (forall|k: int| 0 <= k < pre.len() ==> comps[k] == pre[k])
}

/// The substituted components: the first pair whose prefix leads `comps`
/// replaces that lead with its alias components, and no later pair is tried
/// (first match wins).
pub open spec fn apply_subs(comps: Seq<Seq<char>>, subs: Seq<(Seq<char>, Seq<char>)>) -> Seq<
    Seq<char>,
>
    decreases subs.len(),
{
    if subs.len() == 0 {
        comps
    } else {
        let pc = path_components(subs[0].1);
        if is_comp_prefix(pc, comps) {
            path_components(subs[0].0) + comps.skip(pc.len() as int)
        } else {
            apply_subs(comps, subs.drop_first())
        }
    }
}

/// The trimmed components: `n == 0` keeps all, `n > 0` keeps the last `n`,
/// `n < 0` keeps the first `-n`.
pub open spec fn trim_comps(comps: Seq<Seq<char>>, n: int) -> Seq<Seq<char>> {
    if n == 0 {
        comps
    } else if n > 0 {
        if comps.len() <= n {
            comps
        } else {
            comps.skip(comps.len() - n)
        }
    } else {
        if comps.len() <= -n {
            comps
        } else {
            comps.take(-n)
        }
    }
}

/// One component joined onto a path under construction: a separator stands
/// between components, and none follows the bare root.
pub open spec fn join_step(acc: Seq<char>, c: Seq<char>) -> Seq<char> {
    if acc.len() == 0 {
        c
    } else if acc == seq!['/'] {
        acc + c
    } else {
        acc + seq!['/'] + c
    }
}

/// The components from `i` on, joined onto `acc`.
pub open spec fn join_from(comps: Seq<Seq<char>>, i: int, acc: Seq<char>) -> Seq<char>
    decreases comps.len() - i,
{
    if i < 0 || i >= comps.len() {
        acc
    } else {
        join_from(comps, i + 1, join_step(acc, comps[i]))
    }
}

/// A component list rendered as a path string.
pub open spec fn join_components(comps: Seq<Seq<char>>) -> Seq<char> {
    join_from(comps, 0, Seq::empty())
}

/// The rendering of a path-prefix directive against working directory
/// `path`, substitution pairs `subs` and trimming argument `n`.
pub open spec fn spec_render_path(path: Seq<char>, subs: Seq<(Seq<char>, Seq<char>)>, n: int)
    -> Seq<char> {
    join_components(trim_comps(apply_subs(path_components(path), subs), n))
}

/// Split a character vector into its path components.
pub fn components_of(p: &Vec<char>) -> (r: Vec<Vec<char>>)
    ensures
        comps_view(r@) == path_components(p@),
{
    let ghost s = p@;
    let n: usize = p.len();
    let mut acc: Vec<Vec<char>> = Vec::new();
    let mut cur: usize;
    if n > 0 && p[0] == '/' {
        let mut root: Vec<char> = Vec::new();
        root.push('/');
        proof {
            assert(root@ =~= seq!['/']);
            lemma_comps_view_push(acc@, root);
            assert(comps_view(acc@) =~= Seq::<Seq<char>>::empty());
        }
        acc.push(root);
        cur = 1;
        proof {
            assert(comps_view(acc@) =~= seq![seq!['/']]);
            assert(comps_view(acc@) + split_segs(s, 1) =~= path_components(s));
        }
    } else {
        cur = 0;
        proof {
            assert(comps_view(acc@) =~= Seq::<Seq<char>>::empty());
            assert(comps_view(acc@) + split_segs(s, 0) =~= path_components(s));
        }
    }
    while cur < n
        invariant
            cur <= n,
            n == s.len(),
            p@ == s,
            path_components(s) == comps_view(acc@) + split_segs(s, cur as int),
        decreases n - cur,
    {
        if p[cur] == '/' {
            cur = cur + 1;
        } else {
            let r = p_run_not(p, cur, '/');
            proof {
                assert(r >= 1);
            }
            let seg = chars_range_to_vec(p, cur, cur + r);
            proof {
                lemma_comps_view_push(acc@, seg);
                assert(split_segs(s, cur as int) =~= seq![s.subrange(cur as int, cur + r)]
                    + split_segs(s, cur + r));
                assert(comps_view(acc@.push(seg)) + split_segs(s, cur + r) =~= comps_view(acc@)
                    + split_segs(s, cur as int));
            }
            acc.push(seg);
            cur = cur + r;
        }
    }
    proof {
        assert(split_segs(s, cur as int) =~= Seq::<Seq<char>>::empty());
        assert(comps_view(acc@) =~= path_components(s));
    }
    acc
}

/// Appending one component commutes with taking views.
pub proof fn lemma_comps_view_push(v: Seq<Vec<char>>, c: Vec<char>)
    ensures
        comps_view(v.push(c)) == comps_view(v).push(c@),
    decreases v.len(),
{
    if v.len() == 0 {
        assert(v.push(c).drop_first() =~= v);
        assert(comps_view(v.push(c)) =~= comps_view(v).push(c@));
    } else {
        assert(v.push(c).drop_first() =~= v.drop_first().push(c));
        lemma_comps_view_push(v.drop_first(), c);
        assert(comps_view(v.push(c)) =~= comps_view(v).push(c@));
    }
}

/// Whether the components of `pre` lead the components of `comps`.
fn comp_prefix_exec(pre: &Vec<Vec<char>>, comps: &Vec<Vec<char>>) -> (r: bool)
    ensures
        r == is_comp_prefix(comps_view(pre@), comps_view(comps@)),
{
    proof {
        lemma_comps_view_len(pre@);
        lemma_comps_view_len(comps@);
    }
    if pre.len() > comps.len() {
        return false;
    }
    let mut k: usize = 0;
    while k < pre.len()
        invariant
            k <= pre@.len() <= comps@.len(),
            forall|m: int| 0 <= m < k ==> pre@[m]@ == comps@[m]@,
        decreases pre@.len() - k,
    {
        if !chars_eq(&pre[k], &comps[k]) {
            proof {
                lemma_comps_view_index(pre@, k as int);
                lemma_comps_view_index(comps@, k as int);
            }
            return false;
        }
        k = k + 1;
    }
    proof {
        assert forall|m: int| 0 <= m < comps_view(pre@).len() implies comps_view(comps@)[m]
            == comps_view(pre@)[m] by {
            lemma_comps_view_index(pre@, m);
            lemma_comps_view_index(comps@, m);
        }
    }
    true
}

/// Take a suffix of a component list, from `start` on.
fn comps_suffix(comps: &Vec<Vec<char>>, start: usize) -> (r: Vec<Vec<char>>)
    requires
        start <= comps@.len(),
    ensures
        comps_view(r@) == comps_view(comps@).skip(start as int),
{
    let mut out: Vec<Vec<char>> = Vec::new();
    let mut k: usize = start;
    while k < comps.len()
        invariant
            start <= k <= comps@.len(),
            out@.len() == k - start,
            forall|m: int| 0 <= m < out@.len() ==> out@[m]@ == comps@[start + m]@,
        decreases comps@.len() - k,
    {
        out.push(clone_chars(&comps[k]));
        k = k + 1;
    }
    proof {
        lemma_comps_view_len(out@);
        lemma_comps_view_len(comps@);
        assert forall|m: int| 0 <= m < comps_view(out@).len() implies comps_view(out@)[m]
            == comps_view(comps@).skip(start as int)[m] by {
            lemma_comps_view_index(out@, m);
            lemma_comps_view_index(comps@, start + m);
        }
        assert(comps_view(out@) =~= comps_view(comps@).skip(start as int));
    }
    out
}

/// Take a prefix of a component list, up to `end`.
fn comps_prefix(comps: &Vec<Vec<char>>, end: usize) -> (r: Vec<Vec<char>>)
    requires
        end <= comps@.len(),
    ensures
        comps_view(r@) == comps_view(comps@).take(end as int),
{
    let mut out: Vec<Vec<char>> = Vec::new();
    let mut k: usize = 0;
    while k < end
        invariant
            k <= end <= comps@.len(),
            out@.len() == k,
            forall|m: int| 0 <= m < out@.len() ==> out@[m]@ == comps@[m]@,
        decreases end - k,
    {
        out.push(clone_chars(&comps[k]));
        k = k + 1;
    }
    proof {
        lemma_comps_view_len(out@);
        lemma_comps_view_len(comps@);
        assert forall|m: int| 0 <= m < comps_view(out@).len() implies comps_view(out@)[m]
            == comps_view(comps@).take(end as int)[m] by {
            lemma_comps_view_index(out@, m);
            lemma_comps_view_index(comps@, m);
        }
        assert(comps_view(out@) =~= comps_view(comps@).take(end as int));
    }
    out
}

/// Apply the substitution pairs from index `k` on, first match wins.
fn apply_subs_exec(comps: Vec<Vec<char>>, subs: &Vec<(String, String)>, k: usize) -> (r: Vec<
    Vec<char>,
>)
    requires
        k <= subs@.len(),
    ensures
        comps_view(r@) == apply_subs(
            comps_view(comps@),
            crate::ast::subs_view(subs@).skip(k as int),
        ),
    decreases subs@.len() - k,
{
    let ghost tail = crate::ast::subs_view(subs@).skip(k as int);
    proof {
        assert(tail.len() == subs@.len() - k);
    }
    if k >= subs.len() {
        return comps;
    }
    proof {
        assert(tail[0] == (subs@[k as int].0@, subs@[k as int].1@));
    }
    let prefix_chars = str_to_chars(subs[k].1.as_str());
    let pc = components_of(&prefix_chars);
    if comp_prefix_exec(&pc, &comps) {
        let alias_chars = str_to_chars(subs[k].0.as_str());
        let mut result = components_of(&alias_chars);
        proof {
            lemma_comps_view_len(pc@);
            lemma_comps_view_len(comps@);
        }
        let rest = comps_suffix(&comps, pc.len());
        let ghost before = result@;
        let mut m: usize = 0;
        while m < rest.len()
            invariant
                m <= rest@.len(),
                result@.len() == before.len() + m,
                forall|i: int| 0 <= i < before.len() ==> result@[i] == before[i],
                forall|i: int| 0 <= i < m ==> result@[before.len() + i]@ == rest@[i]@,
            decreases rest@.len() - m,
        {
            result.push(clone_chars(&rest[m]));
            m = m + 1;
        }
        proof {
            lemma_comps_view_len(result@);
            lemma_comps_view_len(before);
            lemma_comps_view_len(rest@);
            assert forall|i: int| 0 <= i < comps_view(result@).len() implies comps_view(
                result@,
            )[i] == (comps_view(before) + comps_view(rest@))[i] by {
                lemma_comps_view_index(result@, i);
                if i < before.len() {
                    lemma_comps_view_index(before, i);
                } else {
                    lemma_comps_view_index(rest@, i - before.len());
                }
            }
            assert(comps_view(result@) =~= comps_view(before) + comps_view(rest@));
        }
        result
    } else {
        let r = apply_subs_exec(comps, subs, k + 1);
        proof {
            assert(tail.drop_first() =~= crate::ast::subs_view(subs@).skip(k as int + 1));
        }
        r
    }
}

/// Trim the component list by the numeric argument.
fn trim_comps_exec(comps: Vec<Vec<char>>, n: i64) -> (r: Vec<Vec<char>>)
    ensures
        comps_view(r@) == trim_comps(comps_view(comps@), n as int),
{
    proof {
        lemma_comps_view_len(comps@);
    }
    if n == 0 {
        comps
    } else if n > 0 {
        if comps.len() as u64 <= n as u64 {
            comps
        } else {
            let start: usize = comps.len() - (n as usize);
            comps_suffix(&comps, start)
        }
    } else {
        let mag: u64 = if n == i64::MIN {
            9223372036854775808u64
        } else {
            (-n) as u64
        };
        proof {
            assert(mag as int == -(n as int));
        }
        if comps.len() as u64 <= mag {
            comps
        } else {
            let end: usize = mag as usize;
            comps_prefix(&comps, end)
        }
    }
}

/// Join a component list into a path string.
fn join_comps(comps: &Vec<Vec<char>>) -> (r: Vec<char>)
    ensures
        r@ == join_components(comps_view(comps@)),
{
    let ghost cv = comps_view(comps@);
    proof {
        lemma_comps_view_len(comps@);
    }
    let mut acc: Vec<char> = Vec::new();
    let mut k: usize = 0;
    proof {
        assert(acc@ =~= Seq::<char>::empty());
    }
    while k < comps.len()
        invariant
            k <= comps@.len(),
            cv == comps_view(comps@),
            cv.len() == comps@.len(),
            join_components(cv) == join_from(cv, k as int, acc@),
        decreases comps@.len() - k,
    {
        proof {
            lemma_comps_view_index(comps@, k as int);
        }
        let is_root_only: bool = acc.len() == 1 && acc[0] == '/';
        proof {
            if acc@.len() == 1 && acc@[0] == '/' {
                assert(acc@ =~= seq!['/']);
            }
        }
        if acc.len() == 0 {
            let na = clone_chars(&comps[k]);
            proof {
                assert(na@ =~= join_step(acc@, cv[k as int]));
            }
            acc = na;
        } else if is_root_only {
            let ghost before = acc@;
            push_chars(&mut acc, &comps[k]);
            proof {
                assert(acc@ =~= join_step(before, cv[k as int]));
            }
        } else {
            let ghost before = acc@;
            acc.push('/');
            push_chars(&mut acc, &comps[k]);
            proof {
                assert(acc@ =~= join_step(before, cv[k as int]));
            }
        }
        k = k + 1;
    }
    acc
}

/// First match wins: when pair `k` is the first whose prefix leads the
/// component list, substitution uses exactly that pair, and no later pair is
/// consulted.
pub proof fn lemma_apply_subs_first_match(
    comps: Seq<Seq<char>>,
    subs: Seq<(Seq<char>, Seq<char>)>,
    k: int,
)
    requires
        0 <= k < subs.len(),
        is_comp_prefix(path_components(subs[k].1), comps),
        forall|j: int| 0 <= j < k ==> !is_comp_prefix(path_components(#[trigger] subs[j].1), comps),
    ensures
        apply_subs(comps, subs) == path_components(subs[k].0) + comps.skip(
            path_components(subs[k].1).len() as int,
        ),
    decreases k,
{
    if k > 0 {
        assert(subs.drop_first()[k - 1] == subs[k]);
        assert forall|j: int| 0 <= j < k - 1 implies !is_comp_prefix(
            path_components(#[trigger] subs.drop_first()[j].1),
            comps,
        ) by {
            assert(subs.drop_first()[j] == subs[j + 1]);
        }
        lemma_apply_subs_first_match(comps, subs.drop_first(), k - 1);
    }
}

proof fn lemma_join_from_tail(comps: Seq<Seq<char>>, i: int, acc: Seq<char>)
    requires
        forall|k: int| i <= k < comps.len() ==> (#[trigger] comps[k]).len() > 0 && !comps[k]
            .contains('/'),
        acc.len() == 0 || acc == seq!['/'] || acc[acc.len() - 1] != '/',
    ensures
        join_from(comps, i, acc).len() == 0 || join_from(comps, i, acc) == seq!['/'] || join_from(
            comps,
            i,
            acc,
        )[join_from(comps, i, acc).len() - 1] != '/',
    decreases comps.len() - i,
{
    if 0 <= i < comps.len() {
        let c = comps[i];
        let acc2 = join_step(acc, c);
        assert(c[c.len() - 1] != '/') by {
            if c[c.len() - 1] == '/' {
                assert(c.contains('/'));
            }
        }
        assert(acc2.len() > 0 && acc2[acc2.len() - 1] == c[c.len() - 1]);
        lemma_join_from_tail(comps, i + 1, acc2);
    }
}

/// A joined component list never ends in a separator: the result is empty,
/// exactly the root, or ends in some other character.  This holds of every
/// component list in which only a leading root component involves the
/// separator, which is the shape substitution and trimming produce.
pub proof fn lemma_join_no_trailing_sep(comps: Seq<Seq<char>>)
    requires
        forall|k: int| 0 <= k < comps.len() ==> (#[trigger] comps[k]).len() > 0,
        forall|k: int| 0 <= k < comps.len() ==> (comps[k] == seq!['/'] ==> k == 0),
        forall|k: int| 0 <= k < comps.len() ==> (#[trigger] comps[k] == seq!['/'] || !comps[k]
            .contains('/')),
    ensures
        join_components(comps).len() == 0 || join_components(comps) == seq!['/']
            || join_components(comps)[join_components(comps).len() - 1] != '/',
{
    if comps.len() == 0 {
    } else {
        let first = comps[0];
        let acc1 = join_step(Seq::empty(), first);
        assert(acc1 == first);
        assert forall|k: int| 1 <= k < comps.len() implies (#[trigger] comps[k]).len() > 0
            && !comps[k].contains('/') by {
            assert(comps[k] == seq!['/'] ==> k == 0);
        }
        if first == seq!['/'] {
            lemma_join_from_tail(comps, 1, acc1);
        } else {
            assert(!first.contains('/'));
            assert(first[first.len() - 1] != '/') by {
                if first[first.len() - 1] == '/' {
                    assert(first.contains('/'));
                }
            }
            lemma_join_from_tail(comps, 1, acc1);
        }
    }
}

/// Render a path-prefix directive: substitute, trim, join.
pub fn render_path(path: &String, subs: &Vec<(String, String)>, n: i64) -> (r: Vec<char>)
    ensures
        r@ == spec_render_path(path@, crate::ast::subs_view(subs@), n as int),
{
    let pchars = str_to_chars(path.as_str());
    let comps = components_of(&pchars);
    let substituted = apply_subs_exec(comps, subs, 0);
    proof {
        assert(crate::ast::subs_view(subs@).skip(0) =~= crate::ast::subs_view(subs@));
    }
    let trimmed = trim_comps_exec(substituted, n);
    join_comps(&trimmed)
}

} // verus!
