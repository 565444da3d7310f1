//! The executable parser, proven to return exactly what the grammar
//! specification describes.

use vstd::prelude::*;
use crate::ast::{
    AdvancedConditional, Conditional, DateFormat, Element, Escape, EscapeLiteral, GElem,
    NamedColor, NumericEscape, PathPrefix, Truncation, branches_view, elem_view, elems_view,
    lemma_branches_view_cons, lemma_branches_view_empty, lemma_branches_view_push,
    lemma_elem_view, lemma_elems_view_cons, lemma_elems_view_empty, lemma_elems_view_push,
    lemma_subs_view_push, subs_view,
};
use crate::chars::{chars_range_to_string, str_to_chars};
use crate::grammar::{
    digit_run, digit_val, digits_value, find_lit_end, is_adv_code, is_cond_code,
    is_digit, is_escape_code, is_numeric_code, run_not, spec_adv_branches, spec_advanced,
    spec_conditional, spec_date, spec_element, spec_elements_until, spec_escape,
    spec_escape_literal, spec_escaped_full, spec_escaped_scan, spec_named_color,
    spec_numeric_escape, spec_pair_one, spec_pairs, spec_pairs_more, spec_parse,
    spec_parse_from, spec_parse_num_at, spec_path_prefix, spec_truncation,
};

verus! {

fn is_escape_code_exec(c: char) -> (r: bool)
    ensures
        r == is_escape_code(c),
{
    match c {
        '%' | ')' | 'l' | 'M' | 'n' | 'y' | '#' | '?' | 'e' | 'h' | '!' | 'i' | 'I' | 'j' | 'L'
            | 'T' | 't' | '@' | '*' | 'w' | 'W' | 'B' | 'b' | 'E' | 'U' | 'u' | 'S' | 's' | 'D'
            | 'r' | 'p' | 'q' | 'x' => true,
        _ => false,
    }
}

fn is_numeric_code_exec(c: char) -> (r: bool)
    ensures
        r == is_numeric_code(c),
{
    match c {
        'm' | '_' | '^' | 'd' | '/' | '~' | 'N' | 'c' | '.' | 'C' | 'v' | 'F' | 'f' | 'K' | 'k'
            | 'G' => true,
        _ => false,
    }
}

fn is_cond_code_exec(c: char) -> (r: bool)
    ensures
        r == is_cond_code(c),
{
    match c {
        '!' | '#' | '?' | '_' | 'C' | '/' | 'c' | '.' | '~' | 'D' | 'd' | 'e' | 'g' | 'j' | 'L'
            | 'l' | 'S' | 'T' | 't' | 'v' | 'V' | 'w' | 'G' | 'y' | 'm' | 's' | 'o' | 'p' | 'q'
            | 'x' => true,
        _ => false,
    }
}

fn is_adv_code_exec(c: char) -> (r: bool)
    ensures
        r == is_adv_code(c),
{
    match c {
        'o' | 'p' | 'q' | 'x' => true,
        _ => false,
    }
}

fn is_digit_exec(c: char) -> (r: bool)
    ensures
        r == is_digit(c),
{
    match c {
        '0' | '1' | '2' | '3' | '4' | '5' | '6' | '7' | '8' | '9' => true,
        _ => false,
    }
}

fn digit_val_exec(c: char) -> (r: u64)
    ensures
        r as int == digit_val(c),
        r < 10,
{
    match c {
        '0' => 0,
        '1' => 1,
        '2' => 2,
        '3' => 3,
        '4' => 4,
        '5' => 5,
        '6' => 6,
        '7' => 7,
        '8' => 8,
        '9' => 9,
        _ => 0,
    }
}

proof fn lemma_digits_value_nonneg(s: Seq<char>, i: int, n: nat)
    ensures
        digits_value(s, i, n) >= 0,
    decreases n,
{
    if n > 0 {
        lemma_digits_value_nonneg(s, i, (n - 1) as nat);
    }
}

proof fn lemma_digits_value_mono(s: Seq<char>, i: int, m: nat, n: nat)
    requires
        m <= n,
    ensures
        digits_value(s, i, m) <= digits_value(s, i, n),
    decreases n,
{
    if m < n {
        lemma_digits_value_mono(s, i, m, (n - 1) as nat);
        lemma_digits_value_nonneg(s, i, (n - 1) as nat);
    }
}

proof fn lemma_digit_run_digits(s: Seq<char>, i: int, k: int)
    requires
        0 <= k < digit_run(s, i),
    ensures
        is_digit(s[i + k]),
    decreases k,
{
    if k > 0 {
        lemma_digit_run_digits(s, i + 1, k - 1);
    }
}

/// Count the digits starting at `i`.
fn p_digit_run(inp: &Vec<char>, i: usize) -> (r: usize)
    requires
        i <= inp@.len(),
    ensures
        r == digit_run(inp@, i as int),
        i + r <= inp@.len(),
{
    let n: usize = inp.len();
    let mut cur: usize = i;
    while cur < n && is_digit_exec(inp[cur])
        invariant
            i <= cur <= n,
            n == inp@.len(),
            digit_run(inp@, i as int) == cur - i + digit_run(inp@, cur as int),
        decreases n - cur,
    {
        cur = cur + 1;
    }
    cur - i
}

/// The optional signed number with commit semantics: on success the value
/// and the position past it; on failure the starting position.
fn p_opt_num(inp: &Vec<char>, i: usize) -> (r: (Option<i64>, usize))
    requires
        i <= inp@.len(),
    ensures
        match spec_parse_num_at(inp@, i as int) {
            Some((v, j)) => r.0 == Some(v) && r.1 as int == j && i < r.1 <= inp@.len(),
            None => r.0 == (None::<i64>) && r.1 == i,
        },
{
    let n: usize = inp.len();
    let ghost s = inp@;
    let (sl, neg): (usize, bool) = if i < n && inp[i] == '-' {
        (1, true)
    } else if i < n && inp[i] == '+' {
        (1, false)
    } else {
        (0, false)
    };
    let d0: usize = i + sl;
    let run: usize = p_digit_run(inp, d0);
    if run == 0 {
        return (None, i);
    }
    let limit: u64 = if neg {
        9223372036854775808u64
    } else {
        9223372036854775807u64
    };
    let mut mag: u64 = 0;
    let mut k: usize = 0;
    while k < run
        invariant
            k <= run,
            i <= d0 <= n,
            d0 + run <= n,
            n == s.len(),
            inp@ == s,
            run >= 1,
            run == digit_run(s, d0 as int),
            d0 as int == i + (if 0 <= i < s.len() && s[i as int] == '-' {
                1int
            } else if 0 <= i < s.len() && s[i as int] == '+' {
                1int
            } else {
                0int
            }),
            neg == (0 <= i < s.len() && s[i as int] == '-'),
            mag as int == digits_value(s, d0 as int, k as nat),
            mag <= limit,
            limit == if neg {
                9223372036854775808u64
            } else {
                9223372036854775807u64
            },
        decreases run - k,
    {
        proof {
            lemma_digit_run_digits(s, d0 as int, k as int);
        }
        let d: u64 = digit_val_exec(inp[d0 + k]);
        if mag > limit / 10 || (mag == limit / 10 && d > limit % 10) {
            proof {
                assert(digits_value(s, d0 as int, (k + 1) as nat) > limit);
                lemma_digits_value_mono(s, d0 as int, (k + 1) as nat, run as nat);
                assert(digits_value(s, d0 as int, run as nat) > limit);
                assert(spec_parse_num_at(s, i as int) is None);
            }
            return (None, i);
        }
        mag = mag * 10 + d;
        k = k + 1;
    }
    let v: i64 = if neg {
        if mag == 9223372036854775808u64 {
            i64::MIN
        } else {
            -(mag as i64)
        }
    } else {
        mag as i64
    };
    (Some(v), d0 + run)
}

/// The greedy backslash-escaped scan; `None` on a trailing backslash.
fn p_escaped_scan(inp: &Vec<char>, i: usize, stop1: char, stop2: char) -> (r: Option<usize>)
    requires
        i <= inp@.len(),
    ensures
        match r {
            Some(j) => i <= j <= inp@.len() && spec_escaped_scan(inp@, i as int, stop1, stop2)
                == Some(j as int),
            None => spec_escaped_scan(inp@, i as int, stop1, stop2) is None,
        },
{
    let n: usize = inp.len();
    let mut pos: usize = i;
    while pos < n
        invariant
            i <= pos <= n,
            n == inp@.len(),
            spec_escaped_scan(inp@, i as int, stop1, stop2) == spec_escaped_scan(
                inp@,
                pos as int,
                stop1,
                stop2,
            ),
        decreases n - pos,
    {
        let c = inp[pos];
        if c == '\\' {
            if pos + 1 >= n {
                return None;
            }
            pos = pos + 2;
        } else if c == stop1 || c == stop2 {
            return Some(pos);
        } else {
            pos = pos + 1;
        }
    }
    Some(pos)
}

/// The escaped-span rule: an empty match only at the end of the input.
fn p_escaped_full(inp: &Vec<char>, i: usize, stop1: char, stop2: char) -> (r: Option<usize>)
    requires
        i <= inp@.len(),
    ensures
        match r {
            Some(j) => i <= j <= inp@.len() && spec_escaped_full(inp@, i as int, stop1, stop2)
                == Some(j as int),
            None => spec_escaped_full(inp@, i as int, stop1, stop2) is None,
        },
{
    match p_escaped_scan(inp, i, stop1, stop2) {
        None => None,
        Some(j) => {
            if j == i && i < inp.len() {
                None
            } else {
                Some(j)
            }
        },
    }
}

/// Length of the run of characters differing from `stop`.
pub(crate) fn p_run_not(inp: &Vec<char>, i: usize, stop: char) -> (r: usize)
    requires
        i <= inp@.len(),
    ensures
        r == run_not(inp@, i as int, stop),
        i + r <= inp@.len(),
{
    let n: usize = inp.len();
    let mut cur: usize = i;
    while cur < n && inp[cur] != stop
        invariant
            i <= cur <= n,
            n == inp@.len(),
            run_not(inp@, i as int, stop) == cur - i + run_not(inp@, cur as int, stop),
        decreases n - cur,
    {
        cur = cur + 1;
    }
    cur - i
}

/// First position at or after `i` where `%}` begins.
fn p_find_lit(inp: &Vec<char>, i: usize) -> (r: Option<usize>)
    requires
        i <= inp@.len(),
    ensures
        match r {
            Some(k) => i <= k && k + 1 < inp@.len() && find_lit_end(inp@, i as int) == Some(
                k as int,
            ),
            None => find_lit_end(inp@, i as int) is None,
        },
{
    let n: usize = inp.len();
    let mut pos: usize = i;
    while pos < n
        invariant
            i <= pos,
            pos <= n,
            n == inp@.len(),
            find_lit_end(inp@, i as int) == find_lit_end(inp@, pos as int),
        decreases n - pos,
    {
        if pos + 1 >= n {
            return None;
        }
        if inp[pos] == '%' && inp[pos + 1] == '}' {
            return Some(pos);
        }
        pos = pos + 1;
    }
    None
}

/// The truncation rule.
fn p_truncation(inp: &Vec<char>, i: usize) -> (r: Option<(Truncation, usize)>)
    requires
        i < inp@.len(),
    ensures
        match r {
            Some((t, j)) => i < j <= inp@.len() && spec_truncation(inp@, i as int) == Some(
                (
                    (GElem::Truncation { num: t.num, code: t.code, replacement: t.replacement@ }),
                    j as int,
                ),
            ),
            None => spec_truncation(inp@, i as int) is None,
        },
{
    let n: usize = inp.len();
    if inp[i] != '%' {
        return None;
    }
    let (num, after) = p_opt_num(inp, i + 1);
    if !(after < n && (inp[after] == '<' || inp[after] == '>')) {
        return None;
    }
    let code = inp[after];
    let rend: usize = match p_escaped_full(inp, after + 1, code, code) {
        None => after + 1,
        Some(j) => j,
    };
    if rend < n && inp[rend] == code {
        let t = Truncation { num, code, replacement: chars_range_to_string(inp, after + 1, rend) };
        Some((t, rend + 1))
    } else {
        None
    }
}

/// The date format rule.
fn p_date(inp: &Vec<char>, i: usize) -> (r: Option<(DateFormat, usize)>)
    requires
        i < inp@.len(),
    ensures
        match r {
            Some((d, j)) => i < j <= inp@.len() && spec_date(inp@, i as int) == Some(
                ((GElem::DateFormat(d.0@)), j as int),
            ),
            None => spec_date(inp@, i as int) is None,
        },
{
    let n: usize = inp.len();
    if !(i + 1 < n && i + 2 < n && inp[i] == '%' && inp[i + 1] == 'D' && inp[i + 2] == '{') {
        return None;
    }
    let r = p_run_not(inp, i + 3, '}');
    if r >= 1 && i + 3 + r < n {
        Some((DateFormat(chars_range_to_string(inp, i + 3, i + 3 + r)), i + 4 + r))
    } else {
        None
    }
}

/// The named color rule.
fn p_named_color(inp: &Vec<char>, i: usize) -> (r: Option<(NamedColor, usize)>)
    requires
        i < inp@.len(),
    ensures
        match r {
            Some((c, j)) => i < j <= inp@.len() && spec_named_color(inp@, i as int) == Some(
                ((GElem::NamedColor { num: c.num, code: c.code, name: c.name@ }), j as int),
            ),
            None => spec_named_color(inp@, i as int) is None,
        },
{
    let n: usize = inp.len();
    if inp[i] != '%' {
        return None;
    }
    let (num, after) = p_opt_num(inp, i + 1);
    if !(after < n && after + 1 < n && (inp[after] == 'F' || inp[after] == 'K') && inp[after + 1]
        == '{') {
        return None;
    }
    let r = p_run_not(inp, after + 2, '}');
    if r >= 1 && after + 2 + r < n {
        let nc = NamedColor {
            num,
            code: inp[after],
            name: chars_range_to_string(inp, after + 2, after + 2 + r),
        };
        Some((nc, after + 3 + r))
    } else {
        None
    }
}

/// One substitution pair.
fn p_pair_one(inp: &Vec<char>, i: usize, delim: char) -> (r: Option<(String, String, usize)>)
    requires
        i <= inp@.len(),
    ensures
        match r {
            Some((a, p, j)) => i < j <= inp@.len() && spec_pair_one(inp@, i as int, delim)
                == Some((a@, p@, j as int)),
            None => spec_pair_one(inp@, i as int, delim) is None,
        },
{
    let n: usize = inp.len();
    let a_end: usize = match p_escaped_full(inp, i, delim, '}') {
        None => i,
        Some(j) => j,
    };
    if !(a_end < n && inp[a_end] == delim) {
        return None;
    }
    match p_escaped_full(inp, a_end + 1, delim, '}') {
        None => None,
        Some(p_end) => {
            let a = chars_range_to_string(inp, i, a_end);
            let p = chars_range_to_string(inp, a_end + 1, p_end);
            Some((a, p, p_end))
        },
    }
}

/// The delimiter-separated pair list.
fn p_pairs(inp: &Vec<char>, i: usize, delim: char) -> (r: (Vec<(String, String)>, usize))
    requires
        i <= inp@.len(),
    ensures
        ({
            let (subs, j) = spec_pairs(inp@, i as int, delim);
            subs_view(r.0@) == subs && r.1 as int == j && i <= r.1 <= inp@.len()
        }),
{
    let ghost s = inp@;
    let n: usize = inp.len();
    let mut acc: Vec<(String, String)> = Vec::new();
    let mut cur: usize;
    match p_pair_one(inp, i, delim) {
        None => {
            proof {
                assert(subs_view(acc@) =~= spec_pairs(s, i as int, delim).0);
            }
            return (acc, i);
        },
        Some((a, p, j)) => {
            proof {
                lemma_subs_view_push(acc@, (a, p));
            }
            acc.push((a, p));
            cur = j;
        },
    }
    proof {
        assert(subs_view(acc@) =~= seq![(acc@[0].0@, acc@[0].1@)]);
    }
    while cur < n && inp[cur] == delim
        invariant_except_break
            i <= cur <= n,
            n == s.len(),
            inp@ == s,
            ({
                let (allsubs, fin) = spec_pairs(s, i as int, delim);
                let (more, fin2) = spec_pairs_more(s, cur as int, delim);
                allsubs == subs_view(acc@) + more && fin == fin2
            }),
        ensures
            ({
                let (allsubs, fin) = spec_pairs(s, i as int, delim);
                allsubs == subs_view(acc@) && fin == cur as int && i <= cur <= n
            }),
        decreases n - cur,
    {
        match p_pair_one(inp, cur + 1, delim) {
            None => {
                break ;
            },
            Some((a2, p2, j2)) => {
                proof {
                    lemma_subs_view_push(acc@, (a2, p2));
                    let (allsubs, fin) = spec_pairs(s, i as int, delim);
                    let (more, fin2) = spec_pairs_more(s, cur as int, delim);
                    let (more2, fin3) = spec_pairs_more(s, j2 as int, delim);
                    assert(more == seq![(a2@, p2@)] + more2 && fin2 == fin3);
                    assert(subs_view(acc@.push((a2, p2))) + more2 =~= subs_view(acc@) + more);
                }
                acc.push((a2, p2));
                cur = j2;
            },
        }
    }
    (acc, cur)
}

/// The directory-abbreviation rule.
fn p_path_prefix(inp: &Vec<char>, i: usize) -> (r: Option<(PathPrefix, usize)>)
    requires
        i < inp@.len(),
    ensures
        match r {
            Some((p, j)) => i < j <= inp@.len() && spec_path_prefix(inp@, i as int) == Some(
                (
                    (GElem::PathPrefix {
                        num: p.num,
                        code: p.code,
                        delim: p.delim,
                        prefix_subs: subs_view(p.prefix_subs@),
                    }),
                    j as int,
                ),
            ),
            None => spec_path_prefix(inp@, i as int) is None,
        },
{
    let n: usize = inp.len();
    if inp[i] != '%' {
        return None;
    }
    let (num, after) = p_opt_num(inp, i + 1);
    if !(after < n && after + 1 < n && after + 2 < n && (inp[after] == 'd' || inp[after] == '/')
        && inp[after + 1] == '{') {
        return None;
    }
    let delim = inp[after + 2];
    let (subs, j) = p_pairs(inp, after + 3, delim);
    if j < n && inp[j] == '}' {
        let p = PathPrefix { num, code: inp[after], delim, prefix_subs: subs };
        Some((p, j + 1))
    } else {
        None
    }
}

/// The literal block rule.
fn p_escape_literal(inp: &Vec<char>, i: usize) -> (r: Option<(EscapeLiteral, usize)>)
    requires
        i < inp@.len(),
    ensures
        match r {
            Some((l, j)) => i < j <= inp@.len() && spec_escape_literal(inp@, i as int) == Some(
                ((GElem::EscapeLiteral(l.0@)), j as int),
            ),
            None => spec_escape_literal(inp@, i as int) is None,
        },
{
    let n: usize = inp.len();
    if !(i + 1 < n && inp[i] == '%' && inp[i + 1] == '{') {
        return None;
    }
    match p_find_lit(inp, i + 2) {
        None => None,
        Some(k) => Some((EscapeLiteral(chars_range_to_string(inp, i + 2, k)), k + 2)),
    }
}

/// The numeric escape rule.
fn p_numeric_escape(inp: &Vec<char>, i: usize) -> (r: Option<(NumericEscape, usize)>)
    requires
        i < inp@.len(),
    ensures
        match r {
            Some((e, j)) => i < j <= inp@.len() && spec_numeric_escape(inp@, i as int) == Some(
                ((GElem::NumericEscape(e.0, e.1)), j as int),
            ),
            None => spec_numeric_escape(inp@, i as int) is None,
        },
{
    let n: usize = inp.len();
    if inp[i] != '%' {
        return None;
    }
    let (num, after) = p_opt_num(inp, i + 1);
    match num {
        Some(v) => {
            if after < n && is_numeric_code_exec(inp[after]) {
                Some((NumericEscape(Some(v), inp[after]), after + 1))
            } else {
                None
            }
        },
        None => {
            if i + 1 < n && is_numeric_code_exec(inp[i + 1]) {
                Some((NumericEscape(None, inp[i + 1]), i + 2))
            } else {
                None
            }
        },
    }
}

/// The two-armed conditional rule.
fn p_conditional(inp: &Vec<char>, i: usize) -> (r: Option<(Conditional, usize)>)
    requires
        i < inp@.len(),
    ensures
        match r {
            Some((c, j)) => i < j <= inp@.len() && spec_conditional(inp@, i as int) == Some(
                (
                    (GElem::Conditional {
                        num: c.num,
                        code: c.code,
                        delim: c.delim,
                        true_branch: elems_view(c.true_branch@),
                        false_branch: elems_view(c.false_branch@),
                    }),
                    j as int,
                ),
            ),
            None => spec_conditional(inp@, i as int) is None,
        },
    decreases inp@.len() - i, 0int,
{
    let n: usize = inp.len();
    if inp[i] != '%' {
        return None;
    }
    let (num, after) = p_opt_num(inp, i + 1);
    if !(after < n && after + 1 < n && after + 2 < n && inp[after] == '(' && is_cond_code_exec(
        inp[after + 1],
    )) {
        return None;
    }
    let code = inp[after + 1];
    let delim = inp[after + 2];
    match p_elements_until(inp, after + 3, delim, delim) {
        None => None,
        Some((tb, _f, j2)) => match p_elements_until(inp, j2, ')', ')') {
            None => None,
            Some((fb, _f2, j3)) => Some(
                (Conditional { num, code, delim, true_branch: tb, false_branch: fb }, j3),
            ),
        },
    }
}

/// The multi-armed conditional rule.
fn p_advanced(inp: &Vec<char>, i: usize) -> (r: Option<(AdvancedConditional, usize)>)
    requires
        i < inp@.len(),
    ensures
        match r {
            Some((a, j)) => i < j <= inp@.len() && spec_advanced(inp@, i as int) == Some(
                (
                    (GElem::AdvancedConditional {
                        code: a.code,
                        delim: a.delim,
                        conditions: branches_view(a.conditions@),
                    }),
                    j as int,
                ),
            ),
            None => spec_advanced(inp@, i as int) is None,
        },
    decreases inp@.len() - i, 0int,
{
    let n: usize = inp.len();
    if !(i + 1 < n && i + 2 < n && i + 3 < n && inp[i] == '%' && inp[i + 1] == '('
        && is_adv_code_exec(inp[i + 2])) {
        return None;
    }
    let code = inp[i + 2];
    let delim = inp[i + 3];
    if delim == ')' {
        let conds: Vec<Vec<Element>> = Vec::new();
        proof {
            assert(branches_view(conds@) =~= Seq::<Seq<GElem>>::empty());
        }
        Some((AdvancedConditional { code, delim, conditions: conds }, i + 4))
    } else {
        match p_adv_branches(inp, i + 4, delim) {
            None => None,
            Some((conds, j)) => Some((AdvancedConditional { code, delim, conditions: conds }, j)),
        }
    }
}

/// One parsed element, with the position just past it.
fn p_element(inp: &Vec<char>, i: usize) -> (r: (Element, usize))
    requires
        i < inp@.len(),
    ensures
        i < r.1 <= inp@.len(),
        spec_element(inp@, i as int) == (elem_view(r.0), r.1 as int),
    decreases inp@.len() - i, 1int,
{
    let n: usize = inp.len();
    match p_truncation(inp, i) {
        Some((t, j)) => {
            let e = Element::Truncation(t);
            proof {
                lemma_elem_view(e);
            }
            return (e, j);
        },
        None => {},
    }
    match p_advanced(inp, i) {
        Some((a, j)) => {
            let e = Element::AdvancedConditional(a);
            proof {
                lemma_elem_view(e);
            }
            return (e, j);
        },
        None => {},
    }
    match p_conditional(inp, i) {
        Some((c, j)) => {
            let e = Element::Conditional(c);
            proof {
                lemma_elem_view(e);
            }
            return (e, j);
        },
        None => {},
    }
    match p_date(inp, i) {
        Some((d, j)) => {
            let e = Element::DateFormat(d);
            proof {
                lemma_elem_view(e);
            }
            return (e, j);
        },
        None => {},
    }
    match p_named_color(inp, i) {
        Some((c, j)) => {
            let e = Element::NamedColor(c);
            proof {
                lemma_elem_view(e);
            }
            return (e, j);
        },
        None => {},
    }
    match p_path_prefix(inp, i) {
        Some((p, j)) => {
            let e = Element::PathPrefix(p);
            proof {
                lemma_elem_view(e);
            }
            return (e, j);
        },
        None => {},
    }
    match p_escape_literal(inp, i) {
        Some((l, j)) => {
            let e = Element::EscapeLiteral(l);
            proof {
                lemma_elem_view(e);
            }
            return (e, j);
        },
        None => {},
    }
    match p_numeric_escape(inp, i) {
        Some((ne, j)) => {
            let e = Element::NumericEscape(ne);
            proof {
                lemma_elem_view(e);
            }
            return (e, j);
        },
        None => {},
    }
    match p_escape(inp, i) {
        Some((es, j)) => {
            let e = Element::Escape(es);
            proof {
                lemma_elem_view(e);
            }
            return (e, j);
        },
        None => {},
    }
    proof {
        assert(i < n);
    }
    let e = Element::Character(inp[i]);
    proof {
        lemma_elem_view(e);
        assert(spec_element(inp@, i as int) == (GElem::Character(inp@[i as int]), i as int + 1));
    }
    (e, i + 1)
}

/// Elements up to the first plain character in the stop set.
fn p_elements_until(inp: &Vec<char>, i: usize, stop1: char, stop2: char) -> (r: Option<
    (Vec<Element>, char, usize),
>)
    requires
        i <= inp@.len(),
    ensures
        match r {
            Some((es, f, j)) => i < j <= inp@.len() && spec_elements_until(
                inp@,
                i as int,
                stop1,
                stop2,
            ) == Some((elems_view(es@), f, j as int)),
            None => spec_elements_until(inp@, i as int, stop1, stop2) is None,
        },
    decreases inp@.len() - i, 2int,
{
    if i >= inp.len() {
        return None;
    }
    let (e, j) = p_element(inp, i);
    proof {
        lemma_elem_view(e);
    }
    let stop_c: Option<char> = match &e {
        Element::Character(c) => if *c == stop1 || *c == stop2 {
            Some(*c)
        } else {
            None
        },
        _ => None,
    };
    match stop_c {
        Some(c) => {
            let es: Vec<Element> = Vec::new();
            proof {
                assert(es@ =~= Seq::<Element>::empty());
                lemma_elems_view_empty();
            }
            Some((es, c, j))
        },
        None => {
            match p_elements_until(inp, j, stop1, stop2) {
                None => None,
                Some((mut rest, f, k)) => {
                    let ghost old_rest = rest@;
                    let ghost ev = e;
                    proof {
                        lemma_elems_view_cons(e, old_rest);
                    }
                    rest.insert(0, e);
                    proof {
                        assert(rest@ =~= seq![ev] + old_rest);
                    }
                    Some((rest, f, k))
                },
            }
        },
    }
}

/// Branch list of a multi-armed conditional.
fn p_adv_branches(inp: &Vec<char>, i: usize, delim: char) -> (r: Option<(Vec<Vec<Element>>, usize)>)
    requires
        i <= inp@.len(),
    ensures
        match r {
            Some((bs, j)) => i < j <= inp@.len() && spec_adv_branches(inp@, i as int, delim)
                == Some((branches_view(bs@), j as int)),
            None => spec_adv_branches(inp@, i as int, delim) is None,
        },
    decreases inp@.len() - i, 3int,
{
    if i >= inp.len() {
        return None;
    }
    match p_elements_until(inp, i, delim, ')') {
        None => None,
        Some((elems, found, j)) => {
            if found == ')' {
                let mut bs: Vec<Vec<Element>> = Vec::new();
                proof {
                    assert(bs@ =~= Seq::<Vec<Element>>::empty());
                    lemma_branches_view_empty();
                    lemma_branches_view_push(bs@, elems);
                }
                bs.push(elems);
                proof {
                    assert(branches_view(Seq::<Vec<Element>>::empty()).push(
                        elems_view(bs@[0]@),
                    ) =~= seq![elems_view(bs@[0]@)]);
                }
                Some((bs, j))
            } else {
                match p_adv_branches(inp, j, delim) {
                    None => None,
                    Some((mut rest, k)) => {
                        let ghost old_rest = rest@;
                        let ghost bv = elems;
                        proof {
                            lemma_branches_view_cons(elems, old_rest);
                        }
                        rest.insert(0, elems);
                        proof {
                            assert(rest@ =~= seq![bv] + old_rest);
                        }
                        Some((rest, k))
                    },
                }
            }
        },
    }
}

/// Parse a whole character vector into its element sequence.
fn p_parse_elems(inp: &Vec<char>) -> (r: Vec<Element>)
    ensures
        elems_view(r@) == spec_parse(inp@),
{
    let ghost s = inp@;
    let n: usize = inp.len();
    let mut acc: Vec<Element> = Vec::new();
    let mut cur: usize = 0;
    proof {
        assert(acc@ =~= Seq::<Element>::empty());
        lemma_elems_view_empty();
        assert(elems_view(acc@) + spec_parse_from(s, 0) =~= spec_parse_from(s, 0));
    }
    while cur < n
        invariant
            cur <= n,
            n == s.len(),
            inp@ == s,
            spec_parse(s) == elems_view(acc@) + spec_parse_from(s, cur as int),
        decreases n - cur,
    {
        let (e, j) = p_element(inp, cur);
        proof {
            lemma_elems_view_push(acc@, e);
            assert(elems_view(acc@.push(e)) + spec_parse_from(s, j as int) =~= elems_view(acc@)
                + spec_parse_from(s, cur as int));
        }
        acc.push(e);
        cur = j;
    }
    proof {
        assert(spec_parse_from(s, cur as int) =~= Seq::<GElem>::empty());
        assert(elems_view(acc@) =~= spec_parse(s));
    }
    acc
}

/// Parse a prompt string into its element sequence.
///
/// Parsing is total: it never fails, and the whole input is consumed; the
/// fallback rule turns any character no other rule takes into a
/// [`Element::Character`].
pub fn parse(input: &str) -> (r: Vec<Element>)
    ensures
        elems_view(r@) == spec_parse(input@),
{
    let inp = str_to_chars(input);
    p_parse_elems(&inp)
}

/// The plain escape rule.
fn p_escape(inp: &Vec<char>, i: usize) -> (r: Option<(Escape, usize)>)
    requires
        i < inp@.len(),
    ensures
        match r {
            Some((e, j)) => i < j <= inp@.len() && spec_escape(inp@, i as int) == Some(
                ((GElem::Escape(e.0)), j as int),
            ),
            None => spec_escape(inp@, i as int) is None,
        },
{
    let n: usize = inp.len();
    if i + 1 < n && inp[i] == '%' && is_escape_code_exec(inp[i + 1]) {
        Some((Escape(inp[i + 1]), i + 2))
    } else {
        None
    }
}

} // verus!
