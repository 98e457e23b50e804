//! The tokenized model of a macro invocation's argument list.
//!
//! The macros read very little of their input: where the top-level commas
//! stand, whether a token is the `const` or `strict` marker or a colon, and
//! which tokens are literals (string literals together with their unescaped
//! value).  Every other token tree is carried through opaquely and is
//! recovered by position from the caller's own token list.

use vstd::prelude::*;

verus! {

/// One top-level token tree of the argument list, as the grammar reads it.
#[derive(Clone, Debug)]
pub enum Tok {
    /// A comma between arguments.
    Comma,
    /// A colon, as after the `strict` marker.
    Colon,
    /// The `const` keyword.
    KwConst,
    /// The identifier `strict`.
    KwStrict,
    /// A string literal, with its unescaped value.
    StrLit { value: String },
    /// Any other literal token: a number, a character, a boolean, ...
    OtherLit,
    /// Any other token tree, opaque to the grammar.
    Other,
}

/// Whether a token is a literal of any kind.
pub open spec fn is_lit_tok(t: Tok) -> bool {
    t is StrLit || t is OtherLit
}

/// Whether the tokens `lo .. hi` form an expression that is a single
/// literal token.
pub open spec fn span_is_lit(toks: Seq<Tok>, lo: int, hi: int) -> bool {
    &&& hi == lo + 1
    &&& 0 <= lo < toks.len()
    &&& is_lit_tok(toks[lo])
}

} // verus!
