//! User-configured allow/deny glob filtering.
//!
//! A `Filter` owns two ordered lists of compiled patterns: `filters`
//! (allow-list) and `ignores` (deny-list). Exclusion is decided in a fixed
//! order: any matching ignore excludes; otherwise any matching filter
//! includes; otherwise a non-empty filter list excludes (closed
//! allow-list) and an empty one includes.

use vstd::prelude::*;

use crate::paths::{abs_path, is_absolute, join_path, spec_join};
use crate::pattern::{glob_matches, glob_syntax_ok, CompiledPattern, PatternError};

verus! {

/// The pattern text a user input compiles to: a relative input is first
/// resolved against the working directory.
pub open spec fn spec_resolved(cwd: Seq<char>, pattern: Seq<char>) -> Seq<char> {
    if abs_path(pattern) {
        pattern
    } else {
        spec_join(cwd, pattern)
    }
}

/// The final pattern text: when the resolved path names a directory on
/// disk, a wildcard segment is appended, so the pattern covers the
/// directory's contents rather than the directory itself.
pub open spec fn spec_pattern_text(cwd: Seq<char>, pattern: Seq<char>, is_dir: bool) -> Seq<
    char,
> {
    let resolved = spec_resolved(cwd, pattern);
    if is_dir {
        spec_join(resolved, seq!['*'])
    } else {
        resolved
    }
}

/// Whether some pattern in `pats` matches `path`.
pub open spec fn some_match(pats: Seq<Seq<char>>, path: Seq<char>) -> bool {
    exists|i: int| 0 <= i < pats.len() && glob_matches(pats[i], path)
}

/// Whether the filter excludes a path: a matching ignore pattern
/// excludes it; otherwise a matching filter pattern includes it;
/// otherwise a non-empty filter list excludes everything it does not
/// name.
pub open spec fn spec_filter_excluded(
    filters: Seq<Seq<char>>,
    ignores: Seq<Seq<char>>,
    path: Seq<char>,
) -> bool {
    if some_match(ignores, path) {
        true
    } else if some_match(filters, path) {
        false
    } else {
        filters.len() > 0
    }
}

/// An allow/deny glob filter anchored at a working directory.
pub struct Filter {
    cwd: String,
    filters: Vec<CompiledPattern>,
    ignores: Vec<CompiledPattern>,
}

impl Filter {
    /// The working directory patterns are resolved against.
    pub closed spec fn cwd_view(&self) -> Seq<char> {
        self.cwd@
    }

    /// The texts of the allow-list patterns, in insertion order.
    pub closed spec fn filters_view(&self) -> Seq<Seq<char>> {
        self.filters@.map_values(|p: CompiledPattern| p@)
    }

    /// The texts of the deny-list patterns, in insertion order.
    pub closed spec fn ignores_view(&self) -> Seq<Seq<char>> {
        self.ignores@.map_values(|p: CompiledPattern| p@)
    }

    /// A fresh filter with no patterns: it excludes nothing.
    pub fn new(current_dir: &str) -> (r: Filter)
        ensures
            r.cwd_view() == current_dir@,
            r.filters_view() == Seq::<Seq<char>>::empty(),
            r.ignores_view() == Seq::<Seq<char>>::empty(),
    {
        let r = Filter { cwd: current_dir.to_owned(), filters: Vec::new(), ignores: Vec::new() };
        proof {
            assert(r.filters_view() =~= Seq::<Seq<char>>::empty());
            assert(r.ignores_view() =~= Seq::<Seq<char>>::empty());
        }
        r
    }

    /// The absolute path a user pattern resolves to, before any
    /// directory widening: what the caller should look up on disk to
    /// decide the `is_dir` argument of `add_filter` and `add_ignore`.
    pub fn resolve(&self, pattern: &str) -> (r: String)
        ensures
            r@ == spec_resolved(self.cwd_view(), pattern@),
    {
        if is_absolute(pattern) {
            pattern.to_owned()
        } else {
            join_path(self.cwd.as_str(), pattern)
        }
    }

    /// Resolve a user pattern and widen it for a directory, without
    /// compiling it.
    fn pattern_text(&self, pattern: &str, is_dir: bool) -> (r: String)
        ensures
            r@ == spec_pattern_text(self.cwd_view(), pattern@, is_dir),
    {
        let resolved = self.resolve(pattern);
        if is_dir {
            let r = join_path(resolved.as_str(), "*");
            proof {
                reveal_strlit("*");
                assert("*"@ =~= seq!['*']);
            }
            r
        } else {
            resolved
        }
    }

    /// Compile a pattern and append it to the allow-list.
    ///
    /// `is_dir` says whether the resolved pattern path currently names a
    /// directory on disk; the caller checks, since this crate does no I/O.
    /// On malformed syntax an error is returned and nothing changes.
    pub fn add_filter(&mut self, pattern: &str, is_dir: bool) -> (r: Result<
        CompiledPattern,
        PatternError,
    >)
        ensures
            ({
                let text = spec_pattern_text(old(self).cwd_view(), pattern@, is_dir);
                &&& (r is Ok <==> glob_syntax_ok(text))
                &&& (r is Ok ==> r->Ok_0@ == text && final(self).filters_view() == old(
                    self,
                ).filters_view().push(text))
                &&& (r is Err ==> final(self).filters_view() == old(self).filters_view())
                &&& final(self).ignores_view() == old(self).ignores_view()
                &&& final(self).cwd_view() == old(self).cwd_view()
            }),
    {
        let text = self.pattern_text(pattern, is_dir);
        match CompiledPattern::compile(text.as_str()) {
            Ok(compiled) => {
                let returned = compiled.clone();
                self.filters.push(compiled);
                proof {
                    assert(self.filters_view() =~= old(self).filters_view().push(text@));
                }
                Ok(returned)
            },
            Err(e) => Err(e),
        }
    }

    /// Compile a pattern and append it to the deny-list; resolution and
    /// failure behaviour are those of `add_filter`.
    pub fn add_ignore(&mut self, pattern: &str, is_dir: bool) -> (r: Result<
        CompiledPattern,
        PatternError,
    >)
        ensures
            ({
                let text = spec_pattern_text(old(self).cwd_view(), pattern@, is_dir);
                &&& (r is Ok <==> glob_syntax_ok(text))
                &&& (r is Ok ==> r->Ok_0@ == text && final(self).ignores_view() == old(
                    self,
                ).ignores_view().push(text))
                &&& (r is Err ==> final(self).ignores_view() == old(self).ignores_view())
                &&& final(self).filters_view() == old(self).filters_view()
                &&& final(self).cwd_view() == old(self).cwd_view()
            }),
    {
        let text = self.pattern_text(pattern, is_dir);
        match CompiledPattern::compile(text.as_str()) {
            Ok(compiled) => {
                let returned = compiled.clone();
                self.ignores.push(compiled);
                proof {
                    assert(self.ignores_view() =~= old(self).ignores_view().push(text@));
                }
                Ok(returned)
            },
            Err(e) => Err(e),
        }
    }

    /// Decide whether `path` is excluded by this filter.
    pub fn is_excluded(&self, path: &str) -> (r: bool)
        ensures
            r == spec_filter_excluded(self.filters_view(), self.ignores_view(), path@),
    {
        let mut i: usize = 0;
        while i < self.ignores.len()
            invariant
                i <= self.ignores.len(),
                forall|k: int| 0 <= k < i ==> !glob_matches(self.ignores_view()[k], path@),
            decreases self.ignores.len() - i,
        {
            if self.ignores[i].matches(path) {
                proof {
                    assert(glob_matches(self.ignores_view()[i as int], path@));
                    assert(some_match(self.ignores_view(), path@));
                }
                return true;
            }
            i = i + 1;
        }
        let mut j: usize = 0;
        while j < self.filters.len()
            invariant
                j <= self.filters.len(),
                forall|k: int| 0 <= k < j ==> !glob_matches(self.filters_view()[k], path@),
                !some_match(self.ignores_view(), path@),
            decreases self.filters.len() - j,
        {
            if self.filters[j].matches(path) {
                proof {
                    assert(glob_matches(self.filters_view()[j as int], path@));
                    assert(some_match(self.filters_view(), path@));
                }
                return false;
            }
            j = j + 1;
        }
        self.filters.len() > 0
    }
}

/// With no filters and no ignores configured, no path is excluded.
pub proof fn lemma_empty_filter_excludes_nothing(
    filters: Seq<Seq<char>>,
    ignores: Seq<Seq<char>>,
    path: Seq<char>,
)
    requires
        filters.len() == 0,
        ignores.len() == 0,
    ensures
        !spec_filter_excluded(filters, ignores, path),
{
}

/// A matching ignore pattern excludes the path, whatever the filters say.
pub proof fn lemma_ignore_always_wins(
    filters: Seq<Seq<char>>,
    ignores: Seq<Seq<char>>,
    path: Seq<char>,
    i: int,
)
    requires
        0 <= i < ignores.len(),
        glob_matches(ignores[i], path),
    ensures
        spec_filter_excluded(filters, ignores, path),
{
}

/// With a non-empty allow-list, a path no filter matches is excluded,
/// whatever the ignores say.
pub proof fn lemma_unmatched_in_allow_list_mode(
    filters: Seq<Seq<char>>,
    ignores: Seq<Seq<char>>,
    path: Seq<char>,
)
    requires
        filters.len() > 0,
        forall|i: int| 0 <= i < filters.len() ==> !glob_matches(filters[i], path),
    ensures
        spec_filter_excluded(filters, ignores, path),
{
}

/// A path some filter matches and no ignore matches is included.
pub proof fn lemma_filter_match_includes(
    filters: Seq<Seq<char>>,
    ignores: Seq<Seq<char>>,
    path: Seq<char>,
    i: int,
)
    requires
        0 <= i < filters.len(),
        glob_matches(filters[i], path),
        forall|k: int| 0 <= k < ignores.len() ==> !glob_matches(ignores[k], path),
    ensures
        !spec_filter_excluded(filters, ignores, path),
{
}

} // verus!
