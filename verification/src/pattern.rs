//! Compiled glob patterns over absolute path strings.
//!
//! Compilation and matching are done by the `glob` crate; what a pattern
//! accepts is named by the uninterpreted functions below, so that the
//! evaluation order of a whole filter set can be stated exactly.

use vstd::prelude::*;

verus! {

/// The `glob` crate's compiled pattern, kept opaque.
#[verifier::external_type_specification]
#[verifier::external_body]
pub struct ExGlobPattern(glob::Pattern);

/// Whether `glob::Pattern::new` accepts `pat` as well-formed glob syntax.
pub uninterp spec fn glob_syntax_ok(pat: Seq<char>) -> bool;

/// Whether the glob pattern compiled from `pat` matches `path`
/// (`glob::Pattern::matches` with default match options).
pub uninterp spec fn glob_matches(pat: Seq<char>, path: Seq<char>) -> bool;

/// A malformed glob pattern, reported with the approximate character
/// position of the offending syntax.
#[derive(Debug)]
pub struct PatternError {
    pub pos: usize,
    pub msg: String,
}

/// An immutable compiled glob expression, remembering the text it was
/// compiled from; its view is that text.
pub struct CompiledPattern {
    text: String,
    compiled: glob::Pattern,
}

impl View for CompiledPattern {
    type V = Seq<char>;

    closed spec fn view(&self) -> Seq<char> {
        self.text@
    }
}

impl CompiledPattern {
    /// Relies on glob::Pattern::new: it compiles exactly the well-formed
    /// patterns and rejects malformed syntax with a position and message.
    /// `compiled` is always the compilation of `text`: values are built
    /// only here and copied whole by `clone`.
    #[verifier::external_body]
    pub fn compile(text: &str) -> (r: Result<CompiledPattern, PatternError>)
        ensures
            r is Ok <==> glob_syntax_ok(text@),
            r is Ok ==> r->Ok_0@ == text@,
    {
        match glob::Pattern::new(text) {
            Ok(compiled) => Ok(CompiledPattern { text: text.to_string(), compiled }),
            Err(e) => Err(PatternError { pos: e.pos, msg: e.msg.to_string() }),
        }
    }

    /// Relies on glob::Pattern::matches: the result is a function of the
    /// pattern text and the candidate string alone.
    #[verifier::external_body]
    pub fn matches(&self, path: &str) -> (r: bool)
        ensures
            r == glob_matches(self@, path@),
    {
        self.compiled.matches(path)
    }

    /// The pattern text this value was compiled from.
    pub fn as_str(&self) -> (r: &str)
        ensures
            r@ == self@,
    {
        self.text.as_str()
    }
}

impl Clone for CompiledPattern {
    /// Relies on the `Clone` implementation of glob::Pattern: an exact copy.
    #[verifier::external_body]
    fn clone(&self) -> (r: Self)
        ensures
            r@ == self@,
    {
        CompiledPattern { text: self.text.clone(), compiled: self.compiled.clone() }
    }
}

} // verus!
