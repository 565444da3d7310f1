use shibuichi::{expand, Domain, FixedInfo, Info};

struct NoInfo;

impl Info for NoInfo {
    fn current_path(&mut self) -> String {
        String::new()
    }

    fn git_exists(&mut self) -> bool {
        false
    }

    fn git_dirty(&mut self) -> bool {
        false
    }

    fn git_modified(&mut self) -> bool {
        false
    }

    fn git_staged(&mut self) -> bool {
        false
    }

    fn git_remote_domain(&mut self) -> Domain {
        Domain::Git
    }

    fn git_remote_ahead(&mut self) -> usize {
        0
    }

    fn git_remote_behind(&mut self) -> usize {
        0
    }

    fn git_branch(&mut self) -> String {
        String::new()
    }

    fn git_stashes(&mut self) -> usize {
        0
    }
}

struct TestInfo {
    path: String,
    dirty: bool,
    modified: bool,
    staged: bool,
    domain: Domain,
    ahead: usize,
    behind: usize,
    branch: &'static str,
    stashes: usize,
}

impl Info for TestInfo {
    fn current_path(&mut self) -> String {
        self.path.clone()
    }

    fn git_exists(&mut self) -> bool {
        true
    }

    fn git_dirty(&mut self) -> bool {
        self.dirty
    }

    fn git_modified(&mut self) -> bool {
        self.modified
    }

    fn git_staged(&mut self) -> bool {
        self.staged
    }

    fn git_remote_domain(&mut self) -> Domain {
        self.domain
    }

    fn git_remote_ahead(&mut self) -> usize {
        self.ahead
    }

    fn git_remote_behind(&mut self) -> usize {
        self.behind
    }

    fn git_branch(&mut self) -> String {
        self.branch.to_string()
    }

    fn git_stashes(&mut self) -> usize {
        self.stashes
    }
}

#[test]
fn empty() {
    let result = expand("", &mut NoInfo);
    assert_eq!(result, "");
}

#[test]
fn builtin() {
    let builtins = "%% %-3~ %D{%f-%K-%L} %F{red} %{seq%3G%} %v %(C.a.%(g#b#c)) %10<...<%~%<<%# ";
    let result = expand(builtins, &mut NoInfo);
    assert_eq!(result, builtins);
}

#[test]
fn empty_expansions() {
    let result = expand("r%r a%p b%q s%x", &mut NoInfo);
    assert_eq!(result, "r a0 b0 s0");
}

#[test]
fn empty_conditionals() {
    let result = expand(
        "%(G.e.n) %(y.d.n)%(m#m#n)%(s.s.n) %(o.d.o)%1(o,g,n)%(o.d.g._) %(p.a.n)%1(p.o.n) %(q.b.n)%1(q.o.n) %(x.s.n)%1(x.o.n)",
        &mut NoInfo,
    );
    assert_eq!(result, "n nnn dnd an bn sn");
}

#[test]
fn git() {
    let prompt = "%(G.%(y.d.)%(m.m.)%(s.s.) %(o.g.h.l.b.a.) %1(p.%2(p.^%p.^).)%1(q.%2(q.v%q.v).)%1(x.%2(x.s%x.s).) %r.)";

    let mut info = TestInfo {
        path: "/dev/random".to_string(),
        dirty: true,
        modified: true,
        staged: true,
        domain: Domain::Github,
        ahead: 2,
        behind: 1,
        branch: "main",
        stashes: 1,
    };
    assert_eq!(expand(prompt, &mut info), "dms h ^2vs main");

    let mut info = TestInfo {
        path: "/home/user/sub/sub/dir".to_string(),
        dirty: true,
        modified: false,
        staged: false,
        domain: Domain::Azure,
        ahead: 0,
        behind: 2,
        branch: "feature",
        stashes: 3,
    };
    assert_eq!(expand(prompt, &mut info), "d a v2s3 feature");
}

#[test]
fn path() {
    let mut info = TestInfo {
        path: "/home/user/sub/dir".to_string(),
        dirty: true,
        modified: false,
        staged: false,
        domain: Domain::Azure,
        ahead: 0,
        behind: 2,
        branch: "feature",
        stashes: 3,
    };

    assert_eq!(expand("%/{:}", &mut info), "/home/user/sub/dir");
    assert_eq!(
        expand("%/{:missing:/dev:~:/home/user}", &mut info),
        "~/sub/dir"
    );
    assert_eq!(expand("%-2/{:~:/home/user}", &mut info), "~/sub");
    assert_eq!(expand("%2/{:}", &mut info), "sub/dir");
}

#[test]
fn path_truncation() {
    let mut info = TestInfo {
        path: "/home/user".to_string(),
        dirty: true,
        modified: false,
        staged: false,
        domain: Domain::Azure,
        ahead: 0,
        behind: 2,
        branch: "feature",
        stashes: 3,
    };
    assert_eq!(expand("%/{:~:/home/user}", &mut info), "~");

    let mut info = TestInfo {
        path: "/".to_string(),
        dirty: true,
        modified: false,
        staged: false,
        domain: Domain::Azure,
        ahead: 0,
        behind: 2,
        branch: "feature",
        stashes: 3,
    };
    assert_eq!(expand("%/{:}", &mut info), "/");
}

// Branch, ahead, behind and stash escapes render the provider's values.
#[test]
fn scenario_counts() {
    let mut info = TestInfo {
        path: "/".to_string(),
        dirty: false,
        modified: false,
        staged: false,
        domain: Domain::Git,
        ahead: 2,
        behind: 1,
        branch: "main",
        stashes: 1,
    };
    assert_eq!(expand("%r.%p.%q.%x", &mut info), "main.2.1.1");
}

// A selector inside the branch count renders that branch -- the last branch
// by its own index, not by falling through -- and any selector at or past
// the count renders the last branch.
#[test]
fn multi_conditional_fallback() {
    let mut one = TestInfo {
        path: "/".to_string(),
        dirty: false,
        modified: false,
        staged: false,
        domain: Domain::Git,
        ahead: 0,
        behind: 0,
        branch: "b",
        stashes: 1,
    };
    assert_eq!(expand("%(x.zero.one.two)", &mut one), "one");
    one.stashes = 2;
    assert_eq!(expand("%(x.zero.one.two)", &mut one), "two");
    one.stashes = 9;
    assert_eq!(expand("%(x.zero.one.two)", &mut one), "two");
}

struct TrapInfo {
    exists: bool,
}

impl Info for TrapInfo {
    fn current_path(&mut self) -> String {
        panic!("current_path queried");
    }

    fn git_exists(&mut self) -> bool {
        self.exists
    }

    fn git_dirty(&mut self) -> bool {
        panic!("git_dirty queried");
    }

    fn git_modified(&mut self) -> bool {
        panic!("git_modified queried");
    }

    fn git_staged(&mut self) -> bool {
        panic!("git_staged queried");
    }

    fn git_remote_domain(&mut self) -> Domain {
        panic!("git_remote_domain queried");
    }

    fn git_remote_ahead(&mut self) -> usize {
        panic!("git_remote_ahead queried");
    }

    fn git_remote_behind(&mut self) -> usize {
        panic!("git_remote_behind queried");
    }

    fn git_branch(&mut self) -> String {
        panic!("git_branch queried");
    }

    fn git_stashes(&mut self) -> usize {
        panic!("git_stashes queried");
    }
}

// Only the selected branch's provider calls occur: the skipped branch holds
// escapes whose provider methods panic, and the expansion still succeeds.
#[test]
fn conditional_branch_isolation() {
    let mut info = TrapInfo { exists: false };
    assert_eq!(
        expand("%(G.%r %p %(y.d.c) %d{.}.none)", &mut info),
        "none"
    );
}

// The same through the deterministic fake the library provides.
#[test]
fn fixed_info_provider() {
    let mut info = FixedInfo {
        path: "/home/user".to_string(),
        exists: true,
        dirty: true,
        modified: false,
        staged: false,
        domain: Domain::Gitlab,
        ahead: 1,
        behind: 0,
        branch: "dev".to_string(),
        stashes: 0,
    };
    assert_eq!(expand("%(y.*.)%r %(o.-.g.l.b.a.)", &mut info), "*dev l");
}

// Numeric arguments re-render canonically: a plus sign or leading zeros in
// the source are not kept.
#[test]
fn canonical_number_rendering() {
    assert_eq!(expand("%+3~ %007~", &mut NoInfo), "%3~ %7~");
}

// The extreme numeric arguments round-trip: the most negative i64 still
// parses and re-renders, and one past the i64 range falls back to literal
// characters.
#[test]
fn extreme_numeric_arguments() {
    assert_eq!(
        expand("%-9223372036854775808~", &mut NoInfo),
        "%-9223372036854775808~"
    );
    assert_eq!(
        expand("%9223372036854775807~", &mut NoInfo),
        "%9223372036854775807~"
    );
    assert_eq!(
        expand("%9223372036854775808~", &mut NoInfo),
        "%9223372036854775808~"
    );
}

// Malformed escapes degrade to literal characters rather than failing.
#[test]
fn malformed_passes_through() {
    assert_eq!(expand("%(o", &mut NoInfo), "%(o");
    assert_eq!(expand("%D{unclosed", &mut NoInfo), "%D{unclosed");
    assert_eq!(expand("100%", &mut NoInfo), "100%");
}
