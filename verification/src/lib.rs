//! Expansion of zsh-style prompt strings with git-state extensions.
//!
//! A prompt string is parsed into a sequence of elements (escapes,
//! conditionals, literal blocks, and plain characters), and the elements are
//! rendered against a repository-information provider.  Escapes that carry no
//! extension semantics are re-emitted unchanged; the extension escapes and
//! conditionals query the provider.

pub mod ast;
pub mod chars;
pub mod digits;
pub mod grammar;
pub mod origin;
pub mod parser;
pub mod pathsub;
pub mod provider;
pub mod render;
pub mod status;
pub mod util;

pub use ast::Element;
pub use parser::parse;
pub use provider::{Domain, FixedInfo, Info, InfoModel};
pub use render::spec_expand;

use vstd::prelude::*;

verus! {

/// Expand a prompt string against a repository-information provider.
///
/// The prompt grammar is a superset of zsh prompt expansions.  Standard
/// escapes are left alone and re-emitted; the extension escapes `%r`, `%p`,
/// `%q` and `%x` (branch name, ahead count, behind count, stash count), the
/// extension conditional predicates `G`, `y`, `m`, `s`, `o`, `p`, `q`, `x`,
/// the multi-armed conditional `%({o|p|q|x}...)` and the directory
/// directives `%d{...}`/`%/{...}` are evaluated against the provider.
pub fn expand<I: Info>(prompt: &str, info: &mut I) -> (r: String)
    ensures
        r@ == render::spec_expand(prompt@, old(info).model()),
        final(info).model() == old(info).model(),
{
    let elems = parser::parse(prompt);
    let out = render::render(&elems, info);
    chars::chars_to_string(&out)
}

} // verus!
