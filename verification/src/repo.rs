//! Locating the repository root.
//!
//! The caller walks the ancestor chain of the working directory and
//! reports, per directory, whether an ignore file and whether the
//! version-control marker directory exist there; this module turns those
//! answers into the repository root and the ordered list of ignore files
//! between the working directory and the root.

use vstd::prelude::*;

use crate::paths::{
    abs_path, join_path, lemma_chain_under, lemma_join_under, lemma_parent_normalized,
    normalized_dir, spec_ancestors, spec_join, spec_parent, under_root,
};

verus! {

/// What the caller found inside one ancestor directory.
pub struct DirProbe {
    pub path: String,
    pub has_ignore_file: bool,
    pub has_marker: bool,
}

/// The located repository: its root directory and every ignore file
/// found between the working directory and the root, the file nearest
/// the root first — the order in which their rules are applied.
pub struct RepoInfo {
    pub root: String,
    pub ignore_files: Vec<String>,
}

impl RepoInfo {
    /// The root is a normalized directory and every recorded ignore file
    /// lies below it.
    pub open spec fn wf(&self) -> bool {
        &&& normalized_dir(self.root@)
        &&& forall|i: int|
            0 <= i < self.ignore_files@.len() ==> under_root(
                self.root@,
                (#[trigger] self.ignore_files@[i])@,
            )
    }
}

/// Index of the first probed directory holding the marker, or -1.
pub open spec fn first_marker(probes: Seq<DirProbe>) -> int
    decreases probes.len(),
{
    if probes.len() == 0 {
        -1
    } else if probes[0].has_marker {
        0
    } else {
        let r = first_marker(probes.skip(1));
        if r < 0 {
            -1
        } else {
            r + 1
        }
    }
}

/// `first_marker` finds exactly the first marker.
proof fn lemma_first_marker_at(probes: Seq<DirProbe>, j: int)
    requires
        0 <= j < probes.len(),
        probes[j].has_marker,
        forall|k: int| 0 <= k < j ==> !probes[k].has_marker,
    ensures
        first_marker(probes) == j,
    decreases j,
{
    if j > 0 {
        assert(forall|k: int| 0 <= k < probes.len() - 1 ==> probes.skip(1)[k] == probes[k + 1]);
        lemma_first_marker_at(probes.skip(1), j - 1);
    }
}

/// With no marker anywhere, `first_marker` reports none.
proof fn lemma_first_marker_none(probes: Seq<DirProbe>)
    requires
        forall|k: int| 0 <= k < probes.len() ==> !probes[k].has_marker,
    ensures
        first_marker(probes) == -1,
    decreases probes.len(),
{
    if probes.len() > 0 {
        assert(forall|k: int| 0 <= k < probes.len() - 1 ==> probes.skip(1)[k] == probes[k + 1]);
        lemma_first_marker_none(probes.skip(1));
    }
}

/// The ignore-file paths of the probed directories `t`, `t - 1`, ...,
/// `0` that hold one, in that order: the file nearest the root first.
pub open spec fn gathered_files(probes: Seq<DirProbe>, t: int) -> Seq<Seq<char>>
    decreases (if t < 0 { 0int } else { t + 1 }),
{
    if t < 0 || t >= probes.len() {
        Seq::empty()
    } else {
        let own = if probes[t].has_ignore_file {
            seq![spec_join(probes[t].path@, ".gitignore"@)]
        } else {
            Seq::empty()
        };
        own + gathered_files(probes, t - 1)
    }
}

/// Every directory of an ancestor chain is itself normalized.
proof fn lemma_chain_normalized(s: Seq<char>, i: int)
    requires
        normalized_dir(s),
        0 <= i < spec_ancestors(s).len(),
    ensures
        normalized_dir(spec_ancestors(s)[i]),
    decreases s.len(),
{
    if i > 0 {
        lemma_parent_normalized(s);
        lemma_chain_normalized(spec_parent(s), i - 1);
    }
}

/// Every file gathered from directories at or below `root` lies below
/// `root`.
proof fn lemma_gathered_under(probes: Seq<DirProbe>, root: Seq<char>, t: int, j: int)
    requires
        abs_path(root),
        t < probes.len(),
        forall|m: int|
            0 <= m <= t ==> normalized_dir((#[trigger] probes[m]).path@) && (probes[m].path@
                == root || under_root(root, probes[m].path@)),
        0 <= j < gathered_files(probes, t).len(),
    ensures
        under_root(root, gathered_files(probes, t)[j]),
    decreases (if t < 0 { 0int } else { t + 1 }),
{
    reveal_strlit(".gitignore");
    if probes[t].has_ignore_file && j == 0 {
        lemma_join_under(root, probes[t].path@, ".gitignore"@);
    } else if probes[t].has_ignore_file {
        lemma_gathered_under(probes, root, t - 1, j - 1);
    } else {
        lemma_gathered_under(probes, root, t - 1, j);
    }
}

/// Walk the probed ancestor chain of `cwd` up to the first directory
/// holding the version-control marker, which becomes the root; record
/// the ignore file of every directory visited, the root's own first.
/// With no marker anywhere there is no repository.
pub fn locate_repo(cwd: &str, probes: &Vec<DirProbe>) -> (r: Option<RepoInfo>)
    requires
        normalized_dir(cwd@),
        probes@.map_values(|p: DirProbe| p.path@) == spec_ancestors(cwd@),
    ensures
        r is None <==> first_marker(probes@) == -1,
        r is Some ==> ({
            let k = first_marker(probes@);
            let info = r->Some_0;
            &&& info.root@ == probes@[k].path@
            &&& info.ignore_files@.map_values(|f: String| f@) == gathered_files(probes@, k)
            &&& info.wf()
        }),
{
    let mut i: usize = 0;
    while i < probes.len() && !probes[i].has_marker
        invariant
            i <= probes@.len(),
            forall|m: int| 0 <= m < i ==> !(#[trigger] probes@[m]).has_marker,
        decreases probes@.len() - i,
    {
        i = i + 1;
    }
    if i == probes.len() {
        proof {
            lemma_first_marker_none(probes@);
        }
        return None;
    }
    proof {
        lemma_first_marker_at(probes@, i as int);
    }
    let k = i;
    let mut files: Vec<String> = Vec::new();
    let mut m: usize = k + 1;
    proof {
        assert(files@.map_values(|f: String| f@) + gathered_files(probes@, k as int)
            =~= gathered_files(probes@, k as int));
    }
    while m > 0
        invariant
            m <= k + 1,
            k < probes@.len(),
            files@.map_values(|f: String| f@) + gathered_files(probes@, m as int - 1)
                == gathered_files(probes@, k as int),
        decreases m,
    {
        m = m - 1;
        let ghost before = files@.map_values(|f: String| f@);
        if probes[m].has_ignore_file {
            let f = join_path(probes[m].path.as_str(), ".gitignore");
            files.push(f);
            proof {
                assert(files@.map_values(|f: String| f@) =~= before.push(
                    spec_join(probes@[m as int].path@, ".gitignore"@),
                ));
                assert(gathered_files(probes@, m as int) =~= seq![
                    spec_join(probes@[m as int].path@, ".gitignore"@),
                ] + gathered_files(probes@, m as int - 1));
                assert(files@.map_values(|f: String| f@) + gathered_files(probes@, m as int - 1)
                    =~= before + gathered_files(probes@, m as int));
            }
        } else {
            proof {
                assert(gathered_files(probes@, m as int) =~= gathered_files(
                    probes@,
                    m as int - 1,
                ));
            }
        }
    }
    proof {
        assert(gathered_files(probes@, -1) =~= Seq::<Seq<char>>::empty());
        assert(files@.map_values(|f: String| f@) =~= gathered_files(probes@, k as int));
        assert(probes@.map_values(|p: DirProbe| p.path@).len() == probes@.len());
        assert(probes@.map_values(|p: DirProbe| p.path@)[k as int] == probes@[k as int].path@);
        assert(spec_ancestors(cwd@)[k as int] == probes@[k as int].path@);
        lemma_chain_normalized(cwd@, k as int);
        assert forall|t: int| 0 <= t <= k implies normalized_dir((#[trigger] probes@[t]).path@)
            && (probes@[t].path@ == spec_ancestors(cwd@)[k as int] || under_root(
            spec_ancestors(cwd@)[k as int],
            probes@[t].path@,
        )) by {
            assert(probes@.map_values(|p: DirProbe| p.path@)[t] == probes@[t].path@);
            assert(probes@[t].path@ == spec_ancestors(cwd@)[t]);
            lemma_chain_normalized(cwd@, t);
            if t < k {
                lemma_chain_under(cwd@, t, k as int);
            }
        }
    }
    let info = RepoInfo { root: probes[k].path.clone(), ignore_files: files };
    proof {
        assert forall|j: int| 0 <= j < info.ignore_files@.len() implies under_root(
            info.root@,
            (#[trigger] info.ignore_files@[j])@,
        ) by {
            assert(info.ignore_files@.map_values(|f: String| f@)[j] == info.ignore_files@[j]@);
            lemma_gathered_under(probes@, spec_ancestors(cwd@)[k as int], k as int, j);
        }
    }
    Some(info)
}

} // verus!
