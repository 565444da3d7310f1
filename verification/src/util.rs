//! Utilities for prompt expansion: SCP-style url splitting and a small
//! character-membership trait.

use vstd::prelude::*;
use crate::chars::{chars_range_to_vec, chars_to_string, str_to_chars};

verus! {

/// Position of the first occurrence of `c` at or after `i`, or `None`.
pub open spec fn find_first(s: Seq<char>, i: int, c: char) -> Option<int>
    decreases s.len() - i,
{
    if i < 0 || i >= s.len() {
        None
    } else if s[i] == c {
        Some(i)
    } else {
        find_first(s, i + 1, c)
    }
}

/// The three parts of an SCP-style url `<username>@<host>:<path>`: split at
/// the first `@`, then the remainder at its first `:`; no part may hold a
/// further `@` or `:` (the username may hold `@`s only through being cut at
/// the first one).
pub open spec fn scp_parts(s: Seq<char>) -> Option<(Seq<char>, Seq<char>, Seq<char>)> {
    match find_first(s, 0, '@') {
        None => None,
        Some(a) => {
            let user = s.subrange(0, a);
            let rest = s.skip(a + 1);
            match find_first(rest, 0, ':') {
                None => None,
                Some(b) => {
                    let host = rest.subrange(0, b);
                    let path = rest.skip(b + 1);
                    if user.contains(':') || host.contains('@') || path.contains(':')
                        || path.contains('@') {
                        None
                    } else {
                        Some((user, host, path))
                    }
                },
            }
        },
    }
}

/// The username part of a parsed url.
pub closed spec fn spec_username(u: ParsedScpUrl) -> Seq<char> {
    u.raw_username@
}

/// The host part of a parsed url.
pub closed spec fn spec_host(u: ParsedScpUrl) -> Seq<char> {
    u.raw_host@
}

/// The path part of a parsed url.
pub closed spec fn spec_path(u: ParsedScpUrl) -> Seq<char> {
    u.raw_path@
}

/// A parsed SCP style url.
///
/// SCP urls don't have an RFC; this looks for a url of the form
/// `<username>@<host>:<path>`, as the regex `^([^@:]*)@([^@:]*):([^@:]*)$`
/// describes it.
#[derive(Debug, PartialEq, Eq)]
pub struct ParsedScpUrl {
    raw_username: String,
    raw_host: String,
    raw_path: String,
}

/// Position of the first occurrence of `c` at or after `from`, executable.
pub(crate) fn find_char(v: &Vec<char>, from: usize, c: char) -> (r: Option<usize>)
    requires
        from <= v@.len(),
    ensures
        match r {
            Some(k) => from <= k < v@.len() && find_first(v@, from as int, c) == Some(k as int),
            None => find_first(v@, from as int, c) is None,
        },
{
    let n: usize = v.len();
    let mut pos: usize = from;
    while pos < n
        invariant
            from <= pos <= n,
            n == v@.len(),
            find_first(v@, from as int, c) == find_first(v@, pos as int, c),
        decreases n - pos,
    {
        if v[pos] == c {
            return Some(pos);
        }
        pos = pos + 1;
    }
    None
}

/// Whether `c` occurs in `v`.
fn vec_has_char(v: &Vec<char>, c: char) -> (r: bool)
    ensures
        r == v@.contains(c),
{
    let mut k: usize = 0;
    while k < v.len()
        invariant
            k <= v@.len(),
            forall|m: int| 0 <= m < k ==> v@[m] != c,
        decreases v@.len() - k,
    {
        if v[k] == c {
            proof {
                assert(v@[k as int] == c);
            }
            return true;
        }
        k = k + 1;
    }
    proof {
        assert(forall|m: int| 0 <= m < v@.len() ==> v@[m] != c);
    }
    false
}

/// `find_first` on a suffix mirrors `find_first` on the whole.
proof fn lemma_find_first_skip(s: Seq<char>, base: int, j: int, c: char)
    requires
        0 <= base <= s.len(),
        0 <= j,
    ensures
        find_first(s.skip(base), j, c) == (match find_first(s, base + j, c) {
            Some(k) => Some(k - base),
            None => None::<int>,
        }),
    decreases s.len() - (base + j),
{
    if j < s.skip(base).len() {
        assert(s.skip(base)[j] == s[base + j]);
        if s[base + j] != c {
            lemma_find_first_skip(s, base, j + 1, c);
        }
    }
}

impl ParsedScpUrl {
    /// Parse an SCP style url.
    #[must_use]
    pub fn parse(raw: &str) -> (r: Option<ParsedScpUrl>)
        ensures
            match r {
                Some(u) => scp_parts(raw@) == Some(
                    (spec_username(u), spec_host(u), spec_path(u)),
                ),
                None => scp_parts(raw@) is None,
            },
    {
        let ghost s = raw@;
        let v = str_to_chars(raw);
        let n: usize = v.len();
        let a: usize = match find_char(&v, 0, '@') {
            None => {
                return None;
            },
            Some(a) => a,
        };
        proof {
            lemma_find_first_skip(s, a as int + 1, 0, ':');
        }
        let b_abs: usize = match find_char(&v, a + 1, ':') {
            None => {
                return None;
            },
            Some(k) => k,
        };
        let ghost b: int = b_abs - (a + 1);
        let user_v = chars_range_to_vec(&v, 0, a);
        let host_v = chars_range_to_vec(&v, a + 1, b_abs);
        let path_v = chars_range_to_vec(&v, b_abs + 1, n);
        proof {
            assert(user_v@ =~= s.subrange(0, a as int));
            assert(host_v@ =~= s.skip(a as int + 1).subrange(0, b));
            assert(path_v@ =~= s.skip(a as int + 1).skip(b + 1));
        }
        if vec_has_char(&user_v, ':') || vec_has_char(&host_v, '@') || vec_has_char(
            &path_v,
            ':',
        ) || vec_has_char(&path_v, '@') {
            return None;
        }
        Some(
            ParsedScpUrl {
                raw_username: chars_to_string(&user_v),
                raw_host: chars_to_string(&host_v),
                raw_path: chars_to_string(&path_v),
            },
        )
    }

    /// Get the user name.
    #[must_use]
    pub fn username(&self) -> (r: &str)
        ensures
            r@ == spec_username(*self),
    {
        self.raw_username.as_str()
    }

    /// Get the host.
    #[must_use]
    pub fn host(&self) -> (r: &str)
        ensures
            r@ == spec_host(*self),
    {
        self.raw_host.as_str()
    }

    /// Get the path.
    #[must_use]
    pub fn path(&self) -> (r: &str)
        ensures
            r@ == spec_path(*self),
    {
        self.raw_path.as_str()
    }
}

/// Generic trait for anything that "has" chars.
pub trait ContainsChar {
    /// Whether `chr` is among the characters of `self`.
    spec fn spec_contains(&self, chr: char) -> bool;

    /// Return true if `chr` is present in `self`.
    fn contains(&self, chr: char) -> (r: bool)
        ensures
            r == self.spec_contains(chr),
    ;
}

impl ContainsChar for char {
    open spec fn spec_contains(&self, chr: char) -> bool {
        *self == chr
    }

    fn contains(&self, chr: char) -> (r: bool) {
        *self == chr
    }
}

impl ContainsChar for [char; 2] {
    open spec fn spec_contains(&self, chr: char) -> bool {
        self@[0] == chr || self@[1] == chr
    }

    fn contains(&self, chr: char) -> (r: bool) {
        self[0] == chr || self[1] == chr
    }
}

impl ContainsChar for Vec<char> {
    open spec fn spec_contains(&self, chr: char) -> bool {
        self@.contains(chr)
    }

    fn contains(&self, chr: char) -> (r: bool) {
        vec_has_char(self, chr)
    }
}

} // verus!
