//! The composite ignore matcher.
//!
//! Every line of every discovered ignore file is rewritten into one or
//! two effective rules scoped to the subdirectory of its file, the rules
//! are handed in order to the `ignore` crate's gitignore engine, and a
//! query maps that engine's three-way verdict onto exclusion. What a
//! single rule matches is named by `gitignore_line_matches`; the order of
//! evaluation — the most recently added matching rule decides — is
//! spelled out by `spec_verdict`.

use vstd::prelude::*;
use vstd::string::*;

use ignore::gitignore::Gitignore;
use ignore::gitignore::GitignoreBuilder;

use crate::lines::{spec_lines, split_lines};
use crate::paths::{abs_path, dirname, join_path, rel_subdir, rel_under, spec_join, under_root};
use crate::repo::RepoInfo;

verus! {

/// The `ignore` crate's gitignore rule-set builder, kept opaque.
#[verifier::external_type_specification]
#[verifier::external_body]
pub struct ExGitignoreBuilder(GitignoreBuilder);

/// The `ignore` crate's compiled gitignore matcher, kept opaque.
#[verifier::external_type_specification]
#[verifier::external_body]
pub struct ExGitignore(Gitignore);

/// The `ignore` crate's error type, kept opaque.
#[verifier::external_type_specification]
#[verifier::external_body]
pub struct ExIgnoreError(ignore::Error);

/// The rule texts a builder has recorded so far, in insertion order:
/// for each accepted line, what the engine keeps of it (see
/// `gitignore_recorded`).
pub uninterp spec fn builder_lines(b: GitignoreBuilder) -> Seq<Seq<char>>;

/// The root directory a builder was created with.
pub uninterp spec fn builder_root(b: GitignoreBuilder) -> Seq<char>;

/// The recorded rule texts a compiled matcher was built from, in
/// insertion order.
pub uninterp spec fn gitignore_lines(g: Gitignore) -> Seq<Seq<char>>;

/// The root directory a compiled matcher matches relative to.
pub uninterp spec fn gitignore_root(g: Gitignore) -> Seq<char>;

/// Whether `GitignoreBuilder::add_line` accepts `line` (with the
/// builder's default options): it errs exactly when the glob derived
/// from the line does not parse.
pub uninterp spec fn gitignore_line_ok(line: Seq<char>) -> bool;

/// What `GitignoreBuilder::add_line` records of an accepted line:
/// nothing for a `#`-led line or one whose trailing whitespace trims it
/// to nothing; otherwise one rule text, the line with its trailing
/// whitespace trimmed (kept whole when it ends in an escaped blank).
pub uninterp spec fn gitignore_recorded(line: Seq<char>) -> Seq<Seq<char>>;

/// Whether `GitignoreBuilder::build` compiles the given recorded rule
/// texts into a matcher: success is a function of the recorded texts
/// alone (the builder's options are never toggled).
pub uninterp spec fn gitignore_build_ok(lines: Seq<Seq<char>>) -> bool;

/// Whether the rule derived from the recorded text `line` (under a
/// matcher rooted at `root`) matches `path`, taken as a non-directory.
/// A text that yields a directory-only rule matches no such path.
pub uninterp spec fn gitignore_line_matches(
    root: Seq<char>,
    line: Seq<char>,
    path: Seq<char>,
) -> bool;

/// A rule line whose leading character is the negation marker: such a
/// rule whitelists what it matches instead of ignoring it.
pub open spec fn is_negation(line: Seq<char>) -> bool {
    line.len() > 0 && line[0] == '!'
}

/// A three-way match verdict.
#[derive(Clone, Copy, PartialEq, Eq, Structural, Debug)]
pub enum Verdict {
    NoMatch,
    Whitelisted,
    Ignored,
}

/// The verdict of an ordered rule set on `path`: rules are consulted
/// from the most recently added backwards, and the first (that is,
/// latest) matching rule decides — negation whitelists, anything else
/// ignores. With no matching rule the verdict is `NoMatch`.
pub open spec fn spec_verdict(root: Seq<char>, lines: Seq<Seq<char>>, path: Seq<char>) -> Verdict
    decreases lines.len(),
{
    if lines.len() == 0 {
        Verdict::NoMatch
    } else if gitignore_line_matches(root, lines.last(), path) {
        if is_negation(lines.last()) {
            Verdict::Whitelisted
        } else {
            Verdict::Ignored
        }
    } else {
        spec_verdict(root, lines.drop_last(), path)
    }
}

/// Relies on ignore::gitignore::GitignoreBuilder::new: a fresh builder
/// rooted at the given directory, holding no rules. An absolute root is
/// stored as given (`new` only rewrites roots that start with `./`).
#[verifier::external_body]
fn builder_new(root: &str) -> (b: GitignoreBuilder)
    requires
        abs_path(root@),
    ensures
        builder_root(b) == root@,
        builder_lines(b) == Seq::<Seq<char>>::empty(),
{
    GitignoreBuilder::new(root)
}

/// Relies on ignore::gitignore::GitignoreBuilder::add_line: it records
/// `gitignore_recorded(line)` — nothing for a `#`-led line or one that
/// trims to nothing, the trimmed text otherwise — errs exactly on a
/// line whose derived glob does not parse, and leaves the builder
/// unchanged on an error. The builder's options are never toggled, so
/// acceptance and recording depend on the line alone.
#[verifier::external_body]
fn builder_add_line(b: &mut GitignoreBuilder, file: &str, line: &str) -> (r: Result<
    (),
    ignore::Error,
>)
    ensures
        r is Ok <==> gitignore_line_ok(line@),
        builder_root(*final(b)) == builder_root(*old(b)),
        r is Ok ==> builder_lines(*final(b)) == builder_lines(*old(b)) + gitignore_recorded(
            line@,
        ),
        r is Err ==> builder_lines(*final(b)) == builder_lines(*old(b)),
{
    match b.add_line(Some(std::path::PathBuf::from(file)), line) {
        Ok(_) => Ok(()),
        Err(e) => Err(e),
    }
}

/// Relies on ignore::gitignore::GitignoreBuilder::build: the compiled
/// matcher keeps exactly the builder's recorded rules and root; success
/// depends on the recorded rules alone, and a builder holding no rules
/// always builds (an empty matcher is valid).
#[verifier::external_body]
fn builder_build(b: &GitignoreBuilder) -> (r: Result<Gitignore, ignore::Error>)
    ensures
        r is Ok <==> gitignore_build_ok(builder_lines(*b)),
        builder_lines(*b).len() == 0 ==> r is Ok,
        r is Ok ==> gitignore_root(r->Ok_0) == builder_root(*b) && gitignore_lines(r->Ok_0)
            == builder_lines(*b),
{
    b.build()
}

/// Relies on ignore::gitignore::Gitignore::matched (queried with
/// `is_dir` false): of the rules matching the path, the most recently
/// added decides, and a `!`-prefixed rule whitelists — the evaluation
/// order `spec_verdict` spells out.
#[verifier::external_body]
fn gitignore_matched(g: &Gitignore, path: &str) -> (r: Verdict)
    ensures
        r == spec_verdict(gitignore_root(*g), gitignore_lines(*g), path@),
        r is NoMatch <==> !(exists|t: int|
            0 <= t < gitignore_lines(*g).len() && gitignore_line_matches(
                gitignore_root(*g),
                #[trigger] gitignore_lines(*g)[t],
                path@,
            )),
{
    match g.matched(path, false) {
        ignore::Match::None => Verdict::NoMatch,
        ignore::Match::Whitelist(_) => Verdict::Whitelisted,
        ignore::Match::Ignore(_) => Verdict::Ignored,
    }
}

/// A rule collected from an ignore file could not be compiled into the
/// composite matcher.
#[derive(Debug)]
pub struct RuleBuildError {
    pub inner: ignore::Error,
}

/// The one or two effective rules a single ignore-file line becomes:
/// nothing for blanks and comments; otherwise the line scoped to the
/// subdirectory of its file, followed by a synthesized rule that covers
/// all descendants of whatever the scoped rule names.
pub open spec fn spec_line_rules(subdir: Seq<char>, line: Seq<char>) -> Seq<Seq<char>> {
    if line.len() == 0 || line[0] == '#' {
        Seq::empty()
    } else {
        let scoped = spec_join(subdir, line);
        seq![scoped, spec_join(scoped, "**"@)]
    }
}

/// The effective rules of a whole ignore file, in line order.
pub open spec fn spec_file_rules(subdir: Seq<char>, lines: Seq<Seq<char>>) -> Seq<Seq<char>>
    decreases lines.len(),
{
    if lines.len() == 0 {
        Seq::empty()
    } else {
        spec_file_rules(subdir, lines.drop_last()) + spec_line_rules(subdir, lines.last())
    }
}

/// The effective rules of the ignore file at `file`, whose text is
/// `text`, under the repository root `root`.
pub open spec fn spec_rules_for_file(
    root: Seq<char>,
    file: Seq<char>,
    text: Seq<char>,
) -> Seq<Seq<char>> {
    spec_file_rules(dirname(rel_under(root, file)), spec_lines(text))
}

/// The full ordered rule set of a repository: files in discovery order,
/// lines in file order.
pub open spec fn spec_repo_rules(
    root: Seq<char>,
    files: Seq<Seq<char>>,
    texts: Seq<Seq<char>>,
) -> Seq<Seq<char>>
    decreases files.len(),
{
    if files.len() == 0 {
        Seq::empty()
    } else {
        spec_repo_rules(root, files.drop_last(), texts.drop_last()) + spec_rules_for_file(
            root,
            files.last(),
            texts.last(),
        )
    }
}

/// The rule texts the engine records for an ordered list of added
/// lines.
pub open spec fn spec_recorded_rules(rules: Seq<Seq<char>>) -> Seq<Seq<char>>
    decreases rules.len(),
{
    if rules.len() == 0 {
        Seq::empty()
    } else {
        spec_recorded_rules(rules.drop_last()) + gitignore_recorded(rules.last())
    }
}

/// The rules of the first `m` ignore files form a prefix of the whole
/// rule set.
proof fn lemma_repo_rules_prefix(
    root: Seq<char>,
    files: Seq<Seq<char>>,
    texts: Seq<Seq<char>>,
    m: int,
)
    requires
        0 <= m <= files.len(),
        files.len() == texts.len(),
    ensures
        ({
            let pre = spec_repo_rules(root, files.take(m), texts.take(m));
            let full = spec_repo_rules(root, files, texts);
            pre.len() <= full.len() && forall|k: int| 0 <= k < pre.len() ==> pre[k] == full[k]
        }),
    decreases files.len() - m,
{
    if m == files.len() {
        assert(files.take(m) =~= files);
        assert(texts.take(m) =~= texts);
    } else {
        lemma_repo_rules_prefix(root, files, texts, m + 1);
        assert(files.take(m + 1).drop_last() =~= files.take(m));
        assert(texts.take(m + 1).drop_last() =~= texts.take(m));
        assert(files.take(m + 1).last() == files[m]);
        assert(texts.take(m + 1).last() == texts[m]);
    }
}

/// An ignore file holding only blank and comment lines yields no
/// rules.
pub proof fn lemma_comment_file_rules_empty(subdir: Seq<char>, lines: Seq<Seq<char>>)
    requires
        forall|i: int|
            0 <= i < lines.len() ==> (#[trigger] lines[i]).len() == 0 || lines[i][0] == '#',
    ensures
        spec_file_rules(subdir, lines).len() == 0,
    decreases lines.len(),
{
    if lines.len() > 0 {
        assert(forall|i: int| 0 <= i < lines.len() - 1 ==> lines.drop_last()[i] == lines[i]);
        lemma_comment_file_rules_empty(subdir, lines.drop_last());
    }
}

/// A repository whose ignore files hold only blank and comment lines
/// yields no rules at all.
pub proof fn lemma_comment_repo_rules_empty(
    root: Seq<char>,
    files: Seq<Seq<char>>,
    texts: Seq<Seq<char>>,
)
    requires
        files.len() == texts.len(),
        forall|i: int, j: int|
            0 <= i < texts.len() && 0 <= j < spec_lines(texts[i]).len() ==> (
            #[trigger] spec_lines(texts[i])[j]).len() == 0 || spec_lines(texts[i])[j][0]
                == '#',
    ensures
        spec_repo_rules(root, files, texts).len() == 0,
    decreases files.len(),
{
    if files.len() > 0 {
        assert(forall|i: int| 0 <= i < texts.len() - 1 ==> texts.drop_last()[i] == texts[i]);
        lemma_comment_repo_rules_empty(root, files.drop_last(), texts.drop_last());
        lemma_comment_file_rules_empty(
            dirname(rel_under(root, files.last())),
            spec_lines(texts.last()),
        );
    }
}

/// Rewrite the lines of one ignore file into its effective rules: skip
/// blanks and comments, scope every other line to the file's
/// subdirectory relative to the root, and follow each scoped rule with
/// its recursive-descendant companion.
pub fn rules_for_file(root: &str, file: &str, text: &str) -> (r: Vec<String>)
    requires
        under_root(root@, file@),
    ensures
        r@.map_values(|s: String| s@) == spec_rules_for_file(root@, file@, text@),
{
    let subdir = rel_subdir(root, file);
    let lines = split_lines(text);
    let mut out: Vec<String> = Vec::new();
    let mut i: usize = 0;
    proof {
        assert(lines@.map_values(|l: String| l@).take(0) =~= Seq::<Seq<char>>::empty());
        assert(out@.map_values(|s: String| s@) =~= Seq::<Seq<char>>::empty());
    }
    while i < lines.len()
        invariant
            i <= lines@.len(),
            subdir@ == dirname(rel_under(root@, file@)),
            lines@.map_values(|l: String| l@) == spec_lines(text@),
            out@.map_values(|s: String| s@) == spec_file_rules(
                subdir@,
                lines@.map_values(|l: String| l@).take(i as int),
            ),
        decreases lines@.len() - i,
    {
        let ghost lviews = lines@.map_values(|l: String| l@);
        let ghost before = out@.map_values(|s: String| s@);
        proof {
            assert(lviews.take(i + 1).drop_last() =~= lviews.take(i as int));
            assert(lviews.take(i + 1).last() == lviews[i as int]);
            assert(lviews[i as int] == lines@[i as int]@);
        }
        let line = &lines[i];
        let skip = line.unicode_len() == 0 || line.get_char(0) == '#';
        if !skip {
            let scoped = join_path(subdir.as_str(), line.as_str());
            let descendants = join_path(scoped.as_str(), "**");
            let ghost scoped_view = scoped@;
            out.push(scoped);
            out.push(descendants);
            proof {
                assert(out@.map_values(|s: String| s@) =~= before + seq![
                    scoped_view,
                    spec_join(scoped_view, "**"@),
                ]);
            }
        }
        proof {
            assert(out@.map_values(|s: String| s@) =~= spec_file_rules(
                subdir@,
                lviews.take(i + 1),
            ));
        }
        i = i + 1;
    }
    proof {
        assert(lines@.map_values(|l: String| l@).take(lines@.len() as int) =~= spec_lines(
            text@,
        ));
    }
    out
}

/// A queryable ignore oracle; with no repository located it holds no
/// matcher and excludes nothing.
pub struct Ignore {
    gitignore: Option<Gitignore>,
}

impl View for Ignore {
    type V = Option<(Seq<char>, Seq<Seq<char>>)>;

    closed spec fn view(&self) -> Option<(Seq<char>, Seq<Seq<char>>)> {
        match self.gitignore {
            Option::None => Option::None,
            Option::Some(g) => Option::Some((gitignore_root(g), gitignore_lines(g))),
        }
    }
}

/// The exclusion decision of an ignore oracle: only a final `Ignored`
/// verdict excludes; `NoMatch`, `Whitelisted`, and the absence of a
/// matcher all include.
pub open spec fn spec_ignore_excluded(
    v: Option<(Seq<char>, Seq<Seq<char>>)>,
    path: Seq<char>,
) -> bool {
    match v {
        Option::None => false,
        Option::Some((root, lines)) => spec_verdict(root, lines, path) is Ignored,
    }
}

impl Ignore {
    fn new(gitignore: Option<Gitignore>) -> (r: Ignore)
        ensures
            gitignore is None ==> r@ is None,
            gitignore is Some ==> r@ == Option::Some(
                (gitignore_root(gitignore->Some_0), gitignore_lines(gitignore->Some_0)),
            ),
    {
        Ignore { gitignore }
    }

    /// Decide whether `path` is excluded by the repository's ignore
    /// files.
    pub fn is_excluded(&self, path: &str) -> (r: bool)
        ensures
            r == spec_ignore_excluded(self@, path@),
    {
        match &self.gitignore {
            Option::None => false,
            Option::Some(g) => match gitignore_matched(g, path) {
                Verdict::NoMatch => false,
                Verdict::Whitelisted => false,
                Verdict::Ignored => true,
            },
        }
    }
}

/// Build the composite matcher from a located repository and the texts
/// of its ignore files (`texts[i]` belongs to `ignore_files[i]`). With
/// no repository the result excludes nothing. The first rule the engine
/// rejects aborts the build; with every rule accepted and the rule set
/// compilable the build succeeds.
pub fn build_ignore(info: &Option<RepoInfo>, texts: &Vec<String>) -> (r: Result<
    Ignore,
    RuleBuildError,
>)
    requires
        info is Some ==> (info->Some_0).wf() && texts@.len()
            == (info->Some_0).ignore_files@.len(),
    ensures
        info is None ==> r is Ok && (r->Ok_0)@ is None,
        info is Some ==> ({
            let root = (info->Some_0).root@;
            let all = spec_repo_rules(
                root,
                (info->Some_0).ignore_files@.map_values(|f: String| f@),
                texts@.map_values(|t: String| t@),
            );
            &&& (r is Ok ==> (r->Ok_0)@ == Option::Some((root, spec_recorded_rules(all)))
                && forall|t: int| 0 <= t < all.len() ==> gitignore_line_ok(#[trigger] all[t]))
            &&& ((exists|t: int| 0 <= t < all.len() && !gitignore_line_ok(#[trigger] all[t]))
                ==> r is Err)
            &&& ((forall|t: int| 0 <= t < all.len() ==> gitignore_line_ok(#[trigger] all[t]))
                && gitignore_build_ok(spec_recorded_rules(all)) ==> r is Ok)
            &&& (all.len() == 0 ==> r is Ok)
        }),
{
    let ri = match info {
        Option::None => {
            return Ok(Ignore::new(None));
        },
        Option::Some(ri) => ri,
    };
    let ghost fviews = ri.ignore_files@.map_values(|f: String| f@);
    let ghost tviews = texts@.map_values(|t: String| t@);
    let ghost all = spec_repo_rules(ri.root@, fviews, tviews);
    let mut builder = builder_new(ri.root.as_str());
    let ghost mut done: Seq<Seq<char>> = Seq::empty();
    let mut i: usize = 0;
    proof {
        assert(spec_repo_rules(ri.root@, fviews.take(0), tviews.take(0))
            =~= Seq::<Seq<char>>::empty());
    }
    while i < ri.ignore_files.len()
        invariant
            i <= ri.ignore_files@.len(),
            info is Some && ri == &info->Some_0,
            ri.wf(),
            texts@.len() == ri.ignore_files@.len(),
            fviews == ri.ignore_files@.map_values(|f: String| f@),
            tviews == texts@.map_values(|t: String| t@),
            all == spec_repo_rules(ri.root@, fviews, tviews),
            builder_root(builder) == ri.root@,
            done == spec_repo_rules(ri.root@, fviews.take(i as int), tviews.take(i as int)),
            builder_lines(builder) == spec_recorded_rules(done),
            forall|t: int| 0 <= t < done.len() ==> gitignore_line_ok(#[trigger] done[t]),
        decreases ri.ignore_files@.len() - i,
    {
        proof {
            assert(fviews[i as int] == ri.ignore_files@[i as int]@);
            assert(tviews[i as int] == texts@[i as int]@);
            assert(under_root(ri.root@, ri.ignore_files@[i as int]@));
        }
        let rules = rules_for_file(
            ri.root.as_str(),
            ri.ignore_files[i].as_str(),
            texts[i].as_str(),
        );
        let ghost rviews = rules@.map_values(|s: String| s@);
        let ghost base_done = done;
        let mut j: usize = 0;
        proof {
            assert(base_done + rviews.take(0) =~= base_done);
        }
        while j < rules.len()
            invariant
                j <= rules@.len(),
                info is Some && ri == &info->Some_0,
                i < ri.ignore_files@.len(),
                texts@.len() == ri.ignore_files@.len(),
                fviews == ri.ignore_files@.map_values(|f: String| f@),
                tviews == texts@.map_values(|t: String| t@),
                all == spec_repo_rules(ri.root@, fviews, tviews),
                rviews == rules@.map_values(|s: String| s@),
                rviews == spec_rules_for_file(ri.root@, fviews[i as int], tviews[i as int]),
                base_done == spec_repo_rules(
                    ri.root@,
                    fviews.take(i as int),
                    tviews.take(i as int),
                ),
                done == base_done + rviews.take(j as int),
                builder_root(builder) == ri.root@,
                builder_lines(builder) == spec_recorded_rules(done),
                forall|t: int| 0 <= t < done.len() ==> gitignore_line_ok(#[trigger] done[t]),
            decreases rules@.len() - j,
        {
            proof {
                assert(rviews[j as int] == rules@[j as int]@);
                // The rule about to be added sits in the full rule set.
                assert(fviews.take(i + 1).drop_last() =~= fviews.take(i as int));
                assert(tviews.take(i + 1).drop_last() =~= tviews.take(i as int));
                assert(fviews.take(i + 1).last() == fviews[i as int]);
                assert(tviews.take(i + 1).last() == tviews[i as int]);
                lemma_repo_rules_prefix(ri.root@, fviews, tviews, i + 1);
                assert(spec_repo_rules(ri.root@, fviews.take(i + 1), tviews.take(i + 1))
                    == base_done + rviews);
                assert(all[done.len() as int] == rviews[j as int]);
            }
            let added = builder_add_line(
                &mut builder,
                ri.ignore_files[i].as_str(),
                rules[j].as_str(),
            );
            match added {
                Ok(_) => {
                    proof {
                        let prev = done;
                        done = done.push(rviews[j as int]);
                        assert(done.drop_last() =~= prev);
                        assert(base_done + rviews.take(j + 1) =~= done);
                    }
                },
                Err(e) => {
                    proof {
                        assert(!gitignore_line_ok(all[done.len() as int]));
                    }
                    return Err(RuleBuildError { inner: e });
                },
            }
            j = j + 1;
        }
        proof {
            assert(rviews.take(rviews.len() as int) =~= rviews);
            assert(fviews.take(i + 1).drop_last() =~= fviews.take(i as int));
            assert(tviews.take(i + 1).drop_last() =~= tviews.take(i as int));
            assert(fviews.take(i + 1).last() == fviews[i as int]);
            assert(tviews.take(i + 1).last() == tviews[i as int]);
            assert(done == spec_repo_rules(ri.root@, fviews.take(i + 1), tviews.take(i + 1)));
        }
        i = i + 1;
    }
    proof {
        assert(fviews.take(fviews.len() as int) =~= fviews);
        assert(tviews.take(tviews.len() as int) =~= tviews);
        assert(done == all);
    }
    match builder_build(&builder) {
        Ok(g) => Ok(Ignore::new(Some(g))),
        Err(e) => {
            proof {
                assert(!gitignore_build_ok(spec_recorded_rules(all)));
                assert(all.len() > 0);
            }
            Err(RuleBuildError { inner: e })
        },
    }
}

/// With no repository located, no path is ever excluded.
pub proof fn lemma_no_repo_excludes_nothing(
    v: Option<(Seq<char>, Seq<Seq<char>>)>,
    path: Seq<char>,
)
    requires
        v is None,
    ensures
        !spec_ignore_excluded(v, path),
{
}

/// A negation rule added after every other rule that matches a path
/// whitelists that path: the latest matching rule always decides, so
/// the path is not excluded.
pub proof fn lemma_later_negation_whitelists(
    root: Seq<char>,
    lines: Seq<Seq<char>>,
    path: Seq<char>,
    j: int,
)
    requires
        0 <= j < lines.len(),
        gitignore_line_matches(root, lines[j], path),
        is_negation(lines[j]),
        forall|k: int| j < k < lines.len() ==> !gitignore_line_matches(root, lines[k], path),
    ensures
        spec_verdict(root, lines, path) is Whitelisted,
        !spec_ignore_excluded(Option::Some((root, lines)), path),
    decreases lines.len(),
{
    if j < lines.len() - 1 {
        assert(forall|k: int| 0 <= k < lines.len() - 1 ==> lines.drop_last()[k] == lines[k]);
        lemma_later_negation_whitelists(root, lines.drop_last(), path, j);
    }
}

} // verus!
