//! A string model of file-system paths.
//!
//! Every path handled by this crate is a plain UTF-8 string; a path is
//! absolute when it starts with `/`, and joining follows the usual rule
//! that an absolute right-hand side replaces the base.

use vstd::prelude::*;
use vstd::string::*;

verus! {

/// A path string is absolute when it starts with a separator.
pub open spec fn abs_path(s: Seq<char>) -> bool {
    s.len() > 0 && s[0] == '/'
}

/// Joining `rel` onto `base`: an absolute `rel` replaces `base`; an empty
/// `base` leaves `rel` alone; otherwise the two are glued with exactly one
/// separator between them.
pub open spec fn spec_join(base: Seq<char>, rel: Seq<char>) -> Seq<char> {
    if abs_path(rel) {
        rel
    } else if base.len() == 0 {
        rel
    } else if base.last() == '/' {
        base + rel
    } else {
        base.push('/') + rel
    }
}

/// Whether `s` names an absolute path.
pub fn is_absolute(s: &str) -> (r: bool)
    ensures
        r == abs_path(s@),
{
    let n = s.unicode_len();
    if n == 0 {
        false
    } else {
        s.get_char(0) == '/'
    }
}

/// Index of the last separator in `s`, or -1 when there is none.
pub open spec fn last_slash(s: Seq<char>) -> int
    decreases s.len(),
{
    if s.len() == 0 {
        -1
    } else if s.last() == '/' {
        s.len() - 1
    } else {
        last_slash(s.drop_last())
    }
}

/// `last_slash` finds exactly the last separator.
pub proof fn lemma_last_slash(s: Seq<char>)
    ensures
        -1 <= last_slash(s) < s.len(),
        last_slash(s) >= 0 ==> s[last_slash(s)] == '/',
        forall|k: int| last_slash(s) < k < s.len() ==> s[k] != '/',
    decreases s.len(),
{
    if s.len() > 0 && s.last() != '/' {
        lemma_last_slash(s.drop_last());
        assert(forall|k: int| 0 <= k < s.len() - 1 ==> s.drop_last()[k] == s[k]);
    }
}

/// Where the last separator is known, so is `last_slash`.
pub proof fn lemma_last_slash_at(s: Seq<char>, j: int)
    requires
        0 <= j < s.len(),
        s[j] == '/',
        forall|k: int| j < k < s.len() ==> s[k] != '/',
    ensures
        last_slash(s) == j,
    decreases s.len(),
{
    if j < s.len() - 1 {
        assert(forall|k: int| 0 <= k < s.len() - 1 ==> s.drop_last()[k] == s[k]);
        lemma_last_slash_at(s.drop_last(), j);
    }
}

/// With no separator anywhere, `last_slash` reports none.
pub proof fn lemma_last_slash_none(s: Seq<char>)
    requires
        forall|k: int| 0 <= k < s.len() ==> s[k] != '/',
    ensures
        last_slash(s) == -1,
    decreases s.len(),
{
    if s.len() > 0 {
        assert(forall|k: int| 0 <= k < s.len() - 1 ==> s.drop_last()[k] == s[k]);
        lemma_last_slash_none(s.drop_last());
    }
}

/// The directory part of a relative path: everything before the last
/// separator, or empty when there is none.
pub open spec fn dirname(s: Seq<char>) -> Seq<char> {
    if last_slash(s) < 0 {
        Seq::empty()
    } else {
        s.subrange(0, last_slash(s))
    }
}

/// An absolute directory path in normal form: no trailing separator
/// (except for the root itself) and no doubled separator.
pub open spec fn normalized_dir(s: Seq<char>) -> bool {
    &&& abs_path(s)
    &&& (s.len() == 1 || s.last() != '/')
    &&& forall|i: int| 0 <= i < s.len() - 1 ==> !(#[trigger] s[i] == '/' && s[i + 1] == '/')
}

/// The parent directory of a normalized directory below the root.
pub open spec fn spec_parent(s: Seq<char>) -> Seq<char> {
    if last_slash(s) == 0 {
        seq!['/']
    } else {
        s.subrange(0, last_slash(s))
    }
}

/// Taking the parent of a normalized directory below the root yields a
/// strictly shorter normalized directory.
pub proof fn lemma_parent_normalized(s: Seq<char>)
    requires
        normalized_dir(s),
        s.len() > 1,
    ensures
        normalized_dir(spec_parent(s)),
        spec_parent(s).len() < s.len(),
        abs_path(spec_parent(s)),
{
    lemma_last_slash(s);
    let r = last_slash(s);
    assert(s[0] == '/');
    if r > 0 {
        assert(s[r] == '/');
        assert(s[r - 1] != '/');
        assert(spec_parent(s) == s.subrange(0, r));
        assert(spec_parent(s).last() == s[r - 1]);
    }
}

/// The chain of ancestors of a normalized directory, the directory
/// itself first and the file-system root last.
pub open spec fn spec_ancestors(s: Seq<char>) -> Seq<Seq<char>>
    decreases s.len(),
    via spec_ancestors_decreases
{
    if !normalized_dir(s) || s.len() <= 1 {
        seq![s]
    } else {
        seq![s] + spec_ancestors(spec_parent(s))
    }
}

#[via_fn]
proof fn spec_ancestors_decreases(s: Seq<char>) {
    if normalized_dir(s) && s.len() > 1 {
        lemma_parent_normalized(s);
    }
}

/// `p` lies strictly below the directory `root`.
pub open spec fn under_root(root: Seq<char>, p: Seq<char>) -> bool {
    &&& abs_path(root)
    &&& (if root.len() == 1 {
        p.len() > 1
    } else {
        p.len() > root.len() + 1 && p[root.len() as int] == '/'
    })
    &&& p.subrange(0, root.len() as int) == root
}

/// What is left of `p` below `root`: the relative remainder.
pub open spec fn rel_under(root: Seq<char>, p: Seq<char>) -> Seq<char> {
    if root.len() == 1 {
        p.skip(1)
    } else {
        p.skip(root.len() as int + 1)
    }
}

/// Every directory in an ancestor chain lies below every later one.
pub proof fn lemma_chain_under(s: Seq<char>, i: int, j: int)
    requires
        normalized_dir(s),
        0 <= i < j < spec_ancestors(s).len(),
    ensures
        under_root(spec_ancestors(s)[j], spec_ancestors(s)[i]),
    decreases s.len(),
{
    let chain = spec_ancestors(s);
    lemma_parent_normalized(s);
    lemma_last_slash(s);
    let p = spec_parent(s);
    let r = last_slash(s);
    if i == 0 {
        if j == 1 {
            assert(under_root(p, s)) by {
                assert(p.subrange(0, p.len() as int) =~= p);
                assert(s.subrange(0, p.len() as int) =~= p);
                if r > 0 {
                    assert(s[p.len() as int] == '/');
                }
            }
        } else {
            lemma_chain_under(p, 0, j - 1);
            lemma_under_trans(spec_ancestors(p)[j - 1], p, s);
        }
    } else {
        lemma_chain_under(p, i - 1, j - 1);
    }
}

/// `under_root` composes along nested directories.
pub proof fn lemma_under_trans(c: Seq<char>, b: Seq<char>, a: Seq<char>)
    requires
        under_root(c, b),
        under_root(b, a),
    ensures
        under_root(c, a),
{
    assert(b.subrange(0, c.len() as int) == c);
    assert(a.subrange(0, b.len() as int) == b);
    assert(a.subrange(0, c.len() as int) =~= c) by {
        assert(forall|k: int|
            0 <= k < b.len() ==> a[k] == #[trigger] a.subrange(0, b.len() as int)[k]);
    }
    if c.len() > 1 {
        assert(a[c.len() as int] == b[c.len() as int]);
    }
}

/// Anything joined below a directory lies under whatever that directory
/// lies under, and under the directory itself.
pub proof fn lemma_join_under(root: Seq<char>, d: Seq<char>, rel: Seq<char>)
    requires
        normalized_dir(d),
        d == root || under_root(root, d),
        abs_path(root),
        rel.len() > 0,
        !abs_path(rel),
    ensures
        under_root(root, spec_join(d, rel)),
{
    let f = spec_join(d, rel);
    if d.len() == 1 {
        assert(f =~= d + rel);
    } else {
        assert(f =~= d.push('/') + rel);
    }
    assert(f.subrange(0, d.len() as int) =~= d);
    if d == root {
        assert(f.subrange(0, root.len() as int) =~= root);
        if root.len() > 1 {
            assert(f[root.len() as int] == '/');
        }
    } else {
        assert(under_root(root, d));
        assert(f.subrange(0, root.len() as int) =~= root) by {
            assert(forall|k: int| 0 <= k < d.len() ==> f[k] == d[k]);
            assert(d.subrange(0, root.len() as int) == root);
            assert(forall|k: int|
                0 <= k < root.len() ==> d[k] == #[trigger] d.subrange(0, root.len() as int)[k]);
        }
        if root.len() > 1 {
            assert(f[root.len() as int] == d[root.len() as int]);
        }
    }
}

/// The parent directory of a normalized directory below the root.
pub fn parent_dir(s: &str) -> (r: String)
    requires
        normalized_dir(s@),
        s@.len() > 1,
    ensures
        r@ == spec_parent(s@),
{
    proof {
        lemma_last_slash(s@);
    }
    let n = s.unicode_len();
    let mut i: usize = n - 1;
    while i > 0 && s.get_char(i) != '/'
        invariant
            0 <= i < n,
            n == s@.len(),
            forall|k: int| i < k < n ==> s@[k] != '/',
        decreases i,
    {
        i = i - 1;
    }
    proof {
        assert(s@[0] == '/');
        assert(last_slash(s@) == i as int);
    }
    if i == 0 {
        let r = s.substring_char(0, 1);
        proof {
            assert(s@.subrange(0, 1) =~= seq!['/']);
        }
        r.to_owned()
    } else {
        s.substring_char(0, i).to_owned()
    }
}

/// The ancestor chain of a normalized directory, itself included.
pub fn ancestors(path: &str) -> (r: Vec<String>)
    requires
        normalized_dir(path@),
    ensures
        r@.map_values(|p: String| p@) == spec_ancestors(path@),
{
    let mut out: Vec<String> = Vec::new();
    let mut cur: String = path.to_owned();
    proof {
        assert(out@.map_values(|p: String| p@) =~= Seq::<Seq<char>>::empty());
    }
    loop
        invariant
            normalized_dir(cur@),
            out@.map_values(|p: String| p@) + spec_ancestors(cur@) == spec_ancestors(path@),
        decreases cur@.len(),
    {
        let ghost before = out@.map_values(|p: String| p@);
        if cur.unicode_len() <= 1 {
            out.push(cur);
            proof {
                assert(out@.map_values(|p: String| p@) =~= spec_ancestors(path@));
            }
            return out;
        }
        let parent = parent_dir(cur.as_str());
        proof {
            lemma_parent_normalized(cur@);
        }
        let ghost cur_view = cur@;
        out.push(cur);
        proof {
            assert(spec_ancestors(cur_view) == seq![cur_view] + spec_ancestors(parent@));
            assert(out@.map_values(|p: String| p@) =~= before.push(cur_view));
            assert(out@.map_values(|p: String| p@) + spec_ancestors(parent@) =~= before
                + spec_ancestors(cur_view));
        }
        cur = parent;
    }
}

/// The subdirectory, relative to `root`, in which a file below `root`
/// resides.
pub fn rel_subdir(root: &str, file: &str) -> (r: String)
    requires
        under_root(root@, file@),
    ensures
        r@ == dirname(rel_under(root@, file@)),
{
    let root_n = root.unicode_len();
    let file_n = file.unicode_len();
    let start: usize = if root_n == 1 {
        1
    } else {
        root_n + 1
    };
    let rel = file.substring_char(start, file_n);
    proof {
        assert(rel@ =~= rel_under(root@, file@));
    }
    let n = rel.unicode_len();
    let mut i: usize = n;
    while i > 0 && rel.get_char(i - 1) != '/'
        invariant
            0 <= i <= n,
            n == rel@.len(),
            forall|k: int| i <= k < n ==> rel@[k] != '/',
        decreases i,
    {
        i = i - 1;
    }
    if i == 0 {
        proof {
            lemma_last_slash_none(rel@);
        }
        String::new()
    } else {
        proof {
            lemma_last_slash_at(rel@, i - 1);
        }
        rel.substring_char(0, i - 1).to_owned()
    }
}

/// Join a (possibly relative) path onto a base directory.
pub fn join_path(base: &str, rel: &str) -> (r: String)
    ensures
        r@ == spec_join(base@, rel@),
{
    if is_absolute(rel) {
        return rel.to_owned();
    }
    let n = base.unicode_len();
    if n == 0 {
        return rel.to_owned();
    }
    let mut out = base.to_owned();
    if base.get_char(n - 1) != '/' {
        out.append("/");
        proof {
            reveal_strlit("/");
            assert(out@ =~= base@.push('/'));
        }
    }
    out.append(rel);
    out
}

} // verus!
