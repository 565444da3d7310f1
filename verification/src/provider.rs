//! The repository-information provider: the capability the renderer queries.

use vstd::prelude::*;

verus! {

/// The domain of the upstream remote; [`Domain::Git`] is the generic default.
#[derive(Debug, Clone, Copy, PartialEq, Eq, Structural)]
pub enum Domain {
    /// Generic domain (not one of the others).
    Git,
    /// `github.com`.
    Github,
    /// `gitlab.com`.
    Gitlab,
    /// `bitbucket.org`.
    BitBucket,
    /// `dev.azure.com`.
    Azure,
}

/// The integer a remote domain stands for in conditionals.
pub open spec fn domain_index(d: Domain) -> int {
    match d {
        Domain::Git => 0,
        Domain::Github => 1,
        Domain::Gitlab => 2,
        Domain::BitBucket => 3,
        Domain::Azure => 4,
    }
}

/// Executable counterpart of [`domain_index`].
pub fn domain_index_exec(d: Domain) -> (r: usize)
    ensures
        r as int == domain_index(d),
        r <= 4,
{
    match d {
        Domain::Git => 0,
        Domain::Github => 1,
        Domain::Gitlab => 2,
        Domain::BitBucket => 3,
        Domain::Azure => 4,
    }
}

/// Everything the renderer may learn from a provider, as one mathematical
/// value.
pub ghost struct InfoModel {
    /// Current working directory, for display.
    pub path: Seq<char>,
    /// Whether a repository is present.
    pub exists: bool,
    /// Whether the repository is dirty.
    pub dirty: bool,
    /// Whether the repository has modified files.
    pub modified: bool,
    /// Whether the repository has staged files.
    pub staged: bool,
    /// The remote domain.
    pub domain: Domain,
    /// Commits ahead of the remote tracking branch.
    pub ahead: usize,
    /// Commits behind the remote tracking branch.
    pub behind: usize,
    /// Short name of the current branch; empty when there is none.
    pub branch: Seq<char>,
    /// Number of stashes.
    pub stashes: usize,
}

/// Trait for any information necessary to proper expansion.
///
/// The contracts say that a provider answers as if from one fixed
/// [`InfoModel`]: queries are idempotent, and answering one does not change
/// what later queries see.  A caching provider meets this as long as the
/// facts it reports do not change during a single expansion.
pub trait Info {
    /// The model this provider answers from.  The default leaves it
    /// unspecified, so implementations outside verified code need not name
    /// one; a verified implementation overrides it with its actual state.
    open spec fn model(&self) -> InfoModel {
        vstd::pervasive::arbitrary()
    }

    /// Get the current path for display.
    fn current_path(&mut self) -> (r: String)
        ensures
            final(self).model() == old(self).model(),
            r@ == old(self).model().path,
    ;

    /// Return true if inside a git repository.
    fn git_exists(&mut self) -> (r: bool)
        ensures
            final(self).model() == old(self).model(),
            r == old(self).model().exists,
    ;

    /// Return true if the git repository is dirty.
    fn git_dirty(&mut self) -> (r: bool)
        ensures
            final(self).model() == old(self).model(),
            r == old(self).model().dirty,
    ;

    /// Return true if the git repository has modified files.
    fn git_modified(&mut self) -> (r: bool)
        ensures
            final(self).model() == old(self).model(),
            r == old(self).model().modified,
    ;

    /// Return true if the git repository has staged files.
    fn git_staged(&mut self) -> (r: bool)
        ensures
            final(self).model() == old(self).model(),
            r == old(self).model().staged,
    ;

    /// Get the remote domain of the git repository.
    fn git_remote_domain(&mut self) -> (r: Domain)
        ensures
            final(self).model() == old(self).model(),
            r == old(self).model().domain,
    ;

    /// Get the number of commits the current branch is ahead of its remote.
    fn git_remote_ahead(&mut self) -> (r: usize)
        ensures
            final(self).model() == old(self).model(),
            r == old(self).model().ahead,
    ;

    /// Get the number of commits the current branch is behind its remote.
    fn git_remote_behind(&mut self) -> (r: usize)
        ensures
            final(self).model() == old(self).model(),
            r == old(self).model().behind,
    ;

    /// Get the name of the current git branch.
    fn git_branch(&mut self) -> (r: String)
        ensures
            final(self).model() == old(self).model(),
            r@ == old(self).model().branch,
    ;

    /// Get the number of current stashes.
    fn git_stashes(&mut self) -> (r: usize)
        ensures
            final(self).model() == old(self).model(),
            r == old(self).model().stashes,
    ;
}

/// A provider answering from fixed values: the deterministic fake the
/// renderer can be exercised against.
pub struct FixedInfo {
    /// Current working directory.
    pub path: String,
    /// Whether a repository is present.
    pub exists: bool,
    /// Whether the repository is dirty.
    pub dirty: bool,
    /// Whether the repository has modified files.
    pub modified: bool,
    /// Whether the repository has staged files.
    pub staged: bool,
    /// The remote domain.
    pub domain: Domain,
    /// Commits ahead of the remote tracking branch.
    pub ahead: usize,
    /// Commits behind the remote tracking branch.
    pub behind: usize,
    /// Short name of the current branch.
    pub branch: String,
    /// Number of stashes.
    pub stashes: usize,
}

impl Info for FixedInfo {
    open spec fn model(&self) -> InfoModel {
        InfoModel {
            path: self.path@,
            exists: self.exists,
            dirty: self.dirty,
            modified: self.modified,
            staged: self.staged,
            domain: self.domain,
            ahead: self.ahead,
            behind: self.behind,
            branch: self.branch@,
            stashes: self.stashes,
        }
    }

    fn current_path(&mut self) -> (r: String) {
        self.path.clone()
    }

    fn git_exists(&mut self) -> (r: bool) {
        self.exists
    }

    fn git_dirty(&mut self) -> (r: bool) {
        self.dirty
    }

    fn git_modified(&mut self) -> (r: bool) {
        self.modified
    }

    fn git_staged(&mut self) -> (r: bool) {
        self.staged
    }

    fn git_remote_domain(&mut self) -> (r: Domain) {
        self.domain
    }

    fn git_remote_ahead(&mut self) -> (r: usize) {
        self.ahead
    }

    fn git_remote_behind(&mut self) -> (r: usize) {
        self.behind
    }

    fn git_branch(&mut self) -> (r: String) {
        self.branch.clone()
    }

    fn git_stashes(&mut self) -> (r: usize) {
        self.stashes
    }
}

} // verus!
