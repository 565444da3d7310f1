//! The grammar of prompt strings, as specification functions.
//!
//! Each rule takes the whole input and a position, and yields the parsed
//! ghost element together with the position just past it, or `None` when the
//! rule does not match there.  The generic single-character fallback makes
//! the whole grammar total: every position of every input parses.
//!
//! Positions returned by the mutually recursive rules run through
//! [`clamp_ix`], which keeps the recursion well-founded; the parser's
//! correctness proof shows the clamp never changes an actual position.

use vstd::prelude::*;
use crate::ast::GElem;

verus! {

/// Codes accepted by the plain escape rule.
pub open spec fn is_escape_code(c: char) -> bool {
    match c {
        '%' | ')' | 'l' | 'M' | 'n' | 'y' | '#' | '?' | 'e' | 'h' | '!' | 'i' | 'I' | 'j' | 'L'
            | 'T' | 't' | '@' | '*' | 'w' | 'W' | 'B' | 'b' | 'E' | 'U' | 'u' | 'S' | 's' | 'D'
            | 'r' | 'p' | 'q' | 'x' => true,
        _ => false,
    }
}

/// Codes accepted by the numeric escape rule.
pub open spec fn is_numeric_code(c: char) -> bool {
    match c {
        'm' | '_' | '^' | 'd' | '/' | '~' | 'N' | 'c' | '.' | 'C' | 'v' | 'F' | 'f' | 'K' | 'k'
            | 'G' => true,
        _ => false,
    }
}

/// Predicate codes accepted by the two-armed conditional rule.
pub open spec fn is_cond_code(c: char) -> bool {
    match c {
        '!' | '#' | '?' | '_' | 'C' | '/' | 'c' | '.' | '~' | 'D' | 'd' | 'e' | 'g' | 'j' | 'L'
            | 'l' | 'S' | 'T' | 't' | 'v' | 'V' | 'w' | 'G' | 'y' | 'm' | 's' | 'o' | 'p' | 'q'
            | 'x' => true,
        _ => false,
    }
}

/// Predicate codes accepted by the multi-armed conditional rule.
pub open spec fn is_adv_code(c: char) -> bool {
    c == 'o' || c == 'p' || c == 'q' || c == 'x'
}

/// Whether `c` is a decimal digit.
pub open spec fn is_digit(c: char) -> bool {
    match c {
        '0' | '1' | '2' | '3' | '4' | '5' | '6' | '7' | '8' | '9' => true,
        _ => false,
    }
}

/// The value of a decimal digit character.
pub open spec fn digit_val(c: char) -> int {
    match c {
        '0' => 0,
        '1' => 1,
        '2' => 2,
        '3' => 3,
        '4' => 4,
        '5' => 5,
        '6' => 6,
        '7' => 7,
        '8' => 8,
        '9' => 9,
        _ => 0,
    }
}

/// Length of the run of digits starting at `i`.
pub open spec fn digit_run(s: Seq<char>, i: int) -> nat
    decreases s.len() - i,
{
    if i < 0 || i >= s.len() || !is_digit(s[i]) {
        0
    } else {
        1 + digit_run(s, i + 1)
    }
}

/// Value of the `n` digits starting at `i`, most significant first.
pub open spec fn digits_value(s: Seq<char>, i: int, n: nat) -> int
    decreases n,
{
    if n == 0 {
        0
    } else {
        digits_value(s, i, (n - 1) as nat) * 10 + digit_val(s[i + n - 1])
    }
}

/// The optional-sign integer rule: `[+|-]digit+`, value required to fit in
/// `i64`.  Yields the value and the position past the digits, or `None` when
/// there is no digit or the value overflows.
pub open spec fn spec_parse_num(s: Seq<char>) -> Option<(i64, int)> {
    spec_parse_num_at(s, 0)
}

/// [`spec_parse_num`] at an arbitrary position.
pub open spec fn spec_parse_num_at(s: Seq<char>, i: int) -> Option<(i64, int)> {
    let (sl, neg): (int, bool) = if 0 <= i < s.len() && s[i] == '-' {
        (1, true)
    } else if 0 <= i < s.len() && s[i] == '+' {
        (1, false)
    } else {
        (0, false)
    };
    let run = digit_run(s, i + sl);
    if run == 0 {
        None
    } else {
        let mag = digits_value(s, i + sl, run);
        let v: int = if neg {
            -mag
        } else {
            mag
        };
        if i64::MIN <= v <= i64::MAX {
            Some((v as i64, i + sl + run))
        } else {
            None
        }
    }
}

/// Length of the run of characters differing from `stop`, starting at `i`.
pub open spec fn run_not(s: Seq<char>, i: int, stop: char) -> nat
    decreases s.len() - i,
{
    if i < 0 || i >= s.len() || s[i] == stop {
        0
    } else {
        1 + run_not(s, i + 1, stop)
    }
}

/// The backslash-escaped span rule: a run of characters other than the two
/// stop characters, in which a backslash escapes any following character.
/// Yields the position just past the span; `None` when a trailing backslash
/// has nothing to escape.  An empty span is allowed here; whether the rule
/// itself accepts it is decided by [`spec_escaped_full`].
pub open spec fn spec_escaped_scan(s: Seq<char>, i: int, stop1: char, stop2: char) -> Option<int>
    decreases s.len() - i,
{
    if i < 0 || i >= s.len() {
        Some(i)
    } else if s[i] == '\\' {
        if i + 1 >= s.len() {
            None
        } else {
            spec_escaped_scan(s, i + 2, stop1, stop2)
        }
    } else if s[i] == stop1 || s[i] == stop2 {
        Some(i)
    } else {
        spec_escaped_scan(s, i + 1, stop1, stop2)
    }
}

/// The escaped-span rule proper: an empty match is accepted only at the end
/// of the input.
pub open spec fn spec_escaped_full(s: Seq<char>, i: int, stop1: char, stop2: char) -> Option<int> {
    match spec_escaped_scan(s, i, stop1, stop2) {
        None => None,
        Some(j) => if j == i && i < s.len() {
            None
        } else {
            Some(j)
        },
    }
}

/// One substitution pair: an optionally empty alias span, the delimiter, and
/// a prefix span.  Yields alias, prefix and the position past the pair.
pub open spec fn spec_pair_one(s: Seq<char>, i: int, delim: char) -> Option<
    (Seq<char>, Seq<char>, int),
> {
    let a_end: int = match spec_escaped_full(s, i, delim, '}') {
        None => i,
        Some(j) => j,
    };
    if 0 <= a_end < s.len() && s[a_end] == delim {
        match spec_escaped_full(s, a_end + 1, delim, '}') {
            None => None,
            Some(p_end) => Some(
                (s.subrange(i, a_end), s.subrange(a_end + 1, p_end), p_end),
            ),
        }
    } else {
        None
    }
}

/// Keep an index inside `[lo, hi]`.
pub open spec fn clamp_ix(j: int, lo: int, hi: int) -> int {
    if j < lo {
        lo
    } else if j > hi {
        hi
    } else {
        j
    }
}

/// The pairs after the first: a delimiter followed by a pair, repeated; stops
/// without consuming a delimiter whose pair does not parse.
pub open spec fn spec_pairs_more(s: Seq<char>, i: int, delim: char) -> (
    Seq<(Seq<char>, Seq<char>)>,
    int,
)
    decreases s.len() - i,
{
    if i < 0 || i >= s.len() || s[i] != delim {
        (Seq::empty(), i)
    } else {
        match spec_pair_one(s, i + 1, delim) {
            None => (Seq::empty(), i),
            Some((a, p, j)) => {
                let jc = clamp_ix(j, i + 2, s.len() as int);
                let (rest, k) = spec_pairs_more(s, jc, delim);
                (seq![(a, p)] + rest, k)
            },
        }
    }
}

/// The delimiter-separated pair list; possibly empty, never failing.
pub open spec fn spec_pairs(s: Seq<char>, i: int, delim: char) -> (
    Seq<(Seq<char>, Seq<char>)>,
    int,
) {
    match spec_pair_one(s, i, delim) {
        None => (Seq::empty(), i),
        Some((a, p, j)) => {
            let jc = clamp_ix(j, i + 1, s.len() as int);
            let (rest, k) = spec_pairs_more(s, jc, delim);
            (seq![(a, p)] + rest, k)
        },
    }
}

/// The truncation rule: `%[-]N?{<|>}<text>{<|>}`.
pub open spec fn spec_truncation(s: Seq<char>, i: int) -> Option<(GElem, int)> {
    if 0 <= i < s.len() && s[i] == '%' {
        let (num, after0): (Option<i64>, int) = match spec_parse_num_at(s, i + 1) {
            Some((v, j)) => (Some(v), j),
            None => (None, i + 1),
        };
        let after = clamp_ix(after0, i + 1, s.len() as int);
        if after < s.len() && (s[after] == '<' || s[after] == '>') {
            let code = s[after];
            let rend: int = match spec_escaped_full(s, after + 1, code, code) {
                None => after + 1,
                Some(j) => j,
            };
            if after + 1 <= rend <= s.len() && rend < s.len() && s[rend] == code {
                Some(
                    (
                        GElem::Truncation {
                            num,
                            code,
                            replacement: s.subrange(after + 1, rend),
                        },
                        rend + 1,
                    ),
                )
            } else {
                None
            }
        } else {
            None
        }
    } else {
        None
    }
}

/// The date format rule: `%D{...}` with a nonempty brace body.
pub open spec fn spec_date(s: Seq<char>, i: int) -> Option<(GElem, int)> {
    if 0 <= i && i + 2 < s.len() && s[i] == '%' && s[i + 1] == 'D' && s[i + 2] == '{' {
        let r = run_not(s, i + 3, '}');
        if r >= 1 && i + 3 + r < s.len() {
            Some((GElem::DateFormat(s.subrange(i + 3, i + 3 + r)), i + 4 + r))
        } else {
            None
        }
    } else {
        None
    }
}

/// The named color rule: `%[-]N?{F|K}{name}` with a nonempty name.
pub open spec fn spec_named_color(s: Seq<char>, i: int) -> Option<(GElem, int)> {
    if 0 <= i < s.len() && s[i] == '%' {
        let (num, after0): (Option<i64>, int) = match spec_parse_num_at(s, i + 1) {
            Some((v, j)) => (Some(v), j),
            None => (None, i + 1),
        };
        let after = clamp_ix(after0, i + 1, s.len() as int);
        if after + 1 < s.len() && (s[after] == 'F' || s[after] == 'K') && s[after + 1] == '{' {
            let r = run_not(s, after + 2, '}');
            if r >= 1 && after + 2 + r < s.len() {
                Some(
                    (
                        GElem::NamedColor {
                            num,
                            code: s[after],
                            name: s.subrange(after + 2, after + 2 + r),
                        },
                        after + 3 + r,
                    ),
                )
            } else {
                None
            }
        } else {
            None
        }
    } else {
        None
    }
}

/// The directory-abbreviation rule:
/// `%[-]N?{d|/}{<delim><pairs separated by delim>}`.
pub open spec fn spec_path_prefix(s: Seq<char>, i: int) -> Option<(GElem, int)> {
    if 0 <= i < s.len() && s[i] == '%' {
        let (num, after0): (Option<i64>, int) = match spec_parse_num_at(s, i + 1) {
            Some((v, j)) => (Some(v), j),
            None => (None, i + 1),
        };
        let after = clamp_ix(after0, i + 1, s.len() as int);
        if after + 2 < s.len() && (s[after] == 'd' || s[after] == '/') && s[after + 1] == '{' {
            let delim = s[after + 2];
            let (subs, j0) = spec_pairs(s, after + 3, delim);
            let j = clamp_ix(j0, after + 3, s.len() as int);
            if j < s.len() && s[j] == '}' {
                Some(
                    (
                        GElem::PathPrefix { num, code: s[after], delim, prefix_subs: subs },
                        j + 1,
                    ),
                )
            } else {
                None
            }
        } else {
            None
        }
    } else {
        None
    }
}

/// First position at or after `i` where the literal terminator `%}` begins.
pub open spec fn find_lit_end(s: Seq<char>, i: int) -> Option<int>
    decreases s.len() - i,
{
    if i < 0 || i + 1 >= s.len() {
        None
    } else if s[i] == '%' && s[i + 1] == '}' {
        Some(i)
    } else {
        find_lit_end(s, i + 1)
    }
}

/// The literal block rule: `%{` up to the first `%}`.
pub open spec fn spec_escape_literal(s: Seq<char>, i: int) -> Option<(GElem, int)> {
    if 0 <= i && i + 1 < s.len() && s[i] == '%' && s[i + 1] == '{' {
        match find_lit_end(s, i + 2) {
            None => None,
            Some(k) => Some((GElem::EscapeLiteral(s.subrange(i + 2, k)), k + 2)),
        }
    } else {
        None
    }
}

/// The numeric escape rule: `%[-]N?<code>`.  A number that parses commits:
/// the rule fails rather than retrying without it.
pub open spec fn spec_numeric_escape(s: Seq<char>, i: int) -> Option<(GElem, int)> {
    if 0 <= i < s.len() && s[i] == '%' {
        match spec_parse_num_at(s, i + 1) {
            Some((v, j)) => if 0 <= j < s.len() && is_numeric_code(s[j]) {
                Some((GElem::NumericEscape(Some(v), s[j]), j + 1))
            } else {
                None
            },
            None => if i + 1 < s.len() && is_numeric_code(s[i + 1]) {
                Some((GElem::NumericEscape(None, s[i + 1]), i + 2))
            } else {
                None
            },
        }
    } else {
        None
    }
}

/// The plain escape rule: `%<code>`.
pub open spec fn spec_escape(s: Seq<char>, i: int) -> Option<(GElem, int)> {
    if 0 <= i && i + 1 < s.len() && s[i] == '%' && is_escape_code(s[i + 1]) {
        Some((GElem::Escape(s[i + 1]), i + 2))
    } else {
        None
    }
}

/// The two-armed conditional rule:
/// `%[-]N?(<pred><delim><true><delim><false>)`.
pub open spec fn spec_conditional(s: Seq<char>, i: int) -> Option<(GElem, int)>
    decreases s.len() - i, 0int,
{
    if 0 <= i < s.len() && s[i] == '%' {
        let (num, after0): (Option<i64>, int) = match spec_parse_num_at(s, i + 1) {
            Some((v, j)) => (Some(v), j),
            None => (None, i + 1),
        };
        let after = clamp_ix(after0, i + 1, s.len() as int);
        if after + 2 < s.len() && s[after] == '(' && is_cond_code(s[after + 1]) {
            let code = s[after + 1];
            let delim = s[after + 2];
            match spec_elements_until(s, after + 3, delim, delim) {
                None => None,
                Some((tb, _, j2)) => {
                    let j2c = clamp_ix(j2, after + 3, s.len() as int);
                    match spec_elements_until(s, j2c, ')', ')') {
                        None => None,
                        Some((fb, _, j3)) => Some(
                            (
                                GElem::Conditional {
                                    num,
                                    code,
                                    delim,
                                    true_branch: tb,
                                    false_branch: fb,
                                },
                                j3,
                            ),
                        ),
                    }
                },
            }
        } else {
            None
        }
    } else {
        None
    }
}

/// The multi-armed conditional rule: `%({o|p|q|x}<delim><branches>)`.
/// A delimiter equal to the terminator yields no branches at all.
pub open spec fn spec_advanced(s: Seq<char>, i: int) -> Option<(GElem, int)>
    decreases s.len() - i, 0int,
{
    if 0 <= i && i + 3 < s.len() && s[i] == '%' && s[i + 1] == '(' && is_adv_code(s[i + 2]) {
        let code = s[i + 2];
        let delim = s[i + 3];
        if delim == ')' {
            Some(
                (
                    GElem::AdvancedConditional { code, delim, conditions: Seq::empty() },
                    i + 4,
                ),
            )
        } else {
            match spec_adv_branches(s, i + 4, delim) {
                None => None,
                Some((conds, j)) => Some(
                    (GElem::AdvancedConditional { code, delim, conditions: conds }, j),
                ),
            }
        }
    } else {
        None
    }
}

/// One parsed element at `i`, with the position just past it.  Rules are
/// tried most specific first; the single-character fallback makes this total.
pub open spec fn spec_element(s: Seq<char>, i: int) -> (GElem, int)
    decreases s.len() - i, 1int,
{
    if i < 0 || i >= s.len() {
        (GElem::Character('0'), i + 1)
    } else {
        match spec_truncation(s, i) {
            Some(r) => r,
            None => match spec_advanced(s, i) {
                Some(r) => r,
                None => match spec_conditional(s, i) {
                    Some(r) => r,
                    None => match spec_date(s, i) {
                        Some(r) => r,
                        None => match spec_named_color(s, i) {
                            Some(r) => r,
                            None => match spec_path_prefix(s, i) {
                                Some(r) => r,
                                None => match spec_escape_literal(s, i) {
                                    Some(r) => r,
                                    None => match spec_numeric_escape(s, i) {
                                        Some(r) => r,
                                        None => match spec_escape(s, i) {
                                            Some(r) => r,
                                            None => (GElem::Character(s[i]), i + 1),
                                        },
                                    },
                                },
                            },
                        },
                    },
                },
            },
        }
    }
}

/// Elements up to (and consuming, but not keeping) the first plain character
/// in the stop set; `None` when the input ends first.
pub open spec fn spec_elements_until(s: Seq<char>, i: int, stop1: char, stop2: char) -> Option<
    (Seq<GElem>, char, int),
>
    decreases s.len() - i, 2int,
{
    if i < 0 || i >= s.len() {
        None
    } else {
        let (e, j0) = spec_element(s, i);
        let j = clamp_ix(j0, i + 1, s.len() as int);
        match e {
            GElem::Character(c) => {
                if c == stop1 || c == stop2 {
                    Some((Seq::empty(), c, j))
                } else {
                    match spec_elements_until(s, j, stop1, stop2) {
                        None => None,
                        Some((rest, f, k)) => Some((seq![e] + rest, f, k)),
                    }
                }
            },
            _ => match spec_elements_until(s, j, stop1, stop2) {
                None => None,
                Some((rest, f, k)) => Some((seq![e] + rest, f, k)),
            },
        }
    }
}

/// Branch list of a multi-armed conditional: regions separated by the
/// delimiter, closed by `)`.
pub open spec fn spec_adv_branches(s: Seq<char>, i: int, delim: char) -> Option<
    (Seq<Seq<GElem>>, int),
>
    decreases s.len() - i, 3int,
{
    if i < 0 || i >= s.len() {
        None
    } else {
        match spec_elements_until(s, i, delim, ')') {
            None => None,
            Some((elems, found, j0)) => {
                let j = clamp_ix(j0, i + 1, s.len() as int);
                if found == ')' {
                    Some((seq![elems], j))
                } else {
                    match spec_adv_branches(s, j, delim) {
                        None => None,
                        Some((rest, k)) => Some((seq![elems] + rest, k)),
                    }
                }
            },
        }
    }
}

/// All elements from `i` to the end of the input.
pub open spec fn spec_parse_from(s: Seq<char>, i: int) -> Seq<GElem>
    decreases s.len() - i,
{
    if i < 0 || i >= s.len() {
        Seq::empty()
    } else {
        let (e, j0) = spec_element(s, i);
        let j = clamp_ix(j0, i + 1, s.len() as int);
        seq![e] + spec_parse_from(s, j)
    }
}

/// The parse of a whole prompt string.
pub open spec fn spec_parse(s: Seq<char>) -> Seq<GElem> {
    spec_parse_from(s, 0)
}

/// A digit run stays inside the input.
pub proof fn lemma_digit_run_le(s: Seq<char>, i: int)
    requires
        0 <= i <= s.len(),
    ensures
        i + digit_run(s, i) <= s.len(),
    decreases s.len() - i,
{
    if i < s.len() && is_digit(s[i]) {
        lemma_digit_run_le(s, i + 1);
    }
}

/// A parsed number consumes at least one character and stays inside the
/// input.
pub proof fn lemma_parse_num_bounds(s: Seq<char>, i: int)
    requires
        0 <= i <= s.len(),
    ensures
        match spec_parse_num_at(s, i) {
            Some((v, j)) => i < j <= s.len(),
            None => true,
        },
{
    if i < s.len() && (s[i] == '-' || s[i] == '+') {
        lemma_digit_run_le(s, i + 1);
    } else {
        lemma_digit_run_le(s, i);
    }
}

/// An escaped span stays inside the input.
pub proof fn lemma_escaped_scan_bounds(s: Seq<char>, i: int, stop1: char, stop2: char)
    requires
        0 <= i <= s.len(),
    ensures
        match spec_escaped_scan(s, i, stop1, stop2) {
            Some(j) => i <= j <= s.len(),
            None => true,
        },
    decreases s.len() - i,
{
    if i < s.len() {
        if s[i] == '\\' {
            if i + 1 < s.len() {
                lemma_escaped_scan_bounds(s, i + 2, stop1, stop2);
            }
        } else if s[i] != stop1 && s[i] != stop2 {
            lemma_escaped_scan_bounds(s, i + 1, stop1, stop2);
        }
    }
}

/// A run of non-stop characters stays inside the input and ends before the
/// stop character when one follows.
pub proof fn lemma_run_not_bounds(s: Seq<char>, i: int, stop: char)
    requires
        0 <= i <= s.len(),
    ensures
        i + run_not(s, i, stop) <= s.len(),
        i + run_not(s, i, stop) < s.len() ==> s[i + run_not(s, i, stop)] == stop,
    decreases s.len() - i,
{
    if i < s.len() && s[i] != stop {
        lemma_run_not_bounds(s, i + 1, stop);
    }
}

/// A found literal terminator lies inside the input, on its two characters.
pub proof fn lemma_find_lit_bounds(s: Seq<char>, i: int)
    requires
        0 <= i,
    ensures
        match find_lit_end(s, i) {
            Some(k) => i <= k && k + 1 < s.len() && s[k] == '%' && s[k + 1] == '}',
            None => true,
        },
    decreases s.len() - i,
{
    if i + 1 < s.len() && !(s[i] == '%' && s[i + 1] == '}') {
        lemma_find_lit_bounds(s, i + 1);
    }
}

/// A substitution pair consumes at least one character, stays inside the
/// input, and reads back as alias, delimiter, prefix.
pub proof fn lemma_pair_one_recon(s: Seq<char>, i: int, delim: char)
    requires
        0 <= i <= s.len(),
    ensures
        match spec_pair_one(s, i, delim) {
            Some((a, p, j)) => i < j <= s.len() && a + seq![delim] + p == s.subrange(i, j),
            None => true,
        },
{
    lemma_escaped_scan_bounds(s, i, delim, '}');
    match spec_pair_one(s, i, delim) {
        None => {},
        Some((a, p, j)) => {
            let a_end: int = match spec_escaped_full(s, i, delim, '}') {
                None => i,
                Some(k) => k,
            };
            lemma_escaped_scan_bounds(s, a_end + 1, delim, '}');
            assert(a + seq![delim] + p =~= s.subrange(i, j));
        },
    }
}

} // verus!
