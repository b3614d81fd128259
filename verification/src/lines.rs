//! Splitting ignore-file text into lines.
//!
//! Lines are delimited by `\n`; a `\r` immediately before a delimiter is
//! dropped, a final line without a delimiter is kept as it stands, and a
//! trailing delimiter opens no extra empty line.

use vstd::prelude::*;
use vstd::string::*;

verus! {

/// Index of the first `\n` in `s`, or -1 when there is none.
pub open spec fn first_nl(s: Seq<char>) -> int
    decreases s.len(),
{
    if s.len() == 0 {
        -1
    } else if s[0] == '\n' {
        0
    } else {
        let r = first_nl(s.skip(1));
        if r < 0 {
            -1
        } else {
            r + 1
        }
    }
}

/// A line body, less the `\r` that preceded its delimiter, if any.
pub open spec fn strip_cr(l: Seq<char>) -> Seq<char> {
    if l.len() > 0 && l.last() == '\r' {
        l.drop_last()
    } else {
        l
    }
}

/// `first_nl` stays within bounds.
pub proof fn lemma_first_nl_bounds(s: Seq<char>)
    ensures
        -1 <= first_nl(s) < s.len(),
    decreases s.len(),
{
    if s.len() > 0 && s[0] != '\n' {
        lemma_first_nl_bounds(s.skip(1));
    }
}

/// The lines of `s`, as `str::lines` yields them.
pub open spec fn spec_lines(s: Seq<char>) -> Seq<Seq<char>>
    decreases s.len(),
    via spec_lines_decreases
{
    if s.len() == 0 {
        Seq::empty()
    } else {
        let i = first_nl(s);
        if i < 0 {
            seq![s]
        } else {
            seq![strip_cr(s.subrange(0, i))] + spec_lines(s.skip(i + 1))
        }
    }
}

#[via_fn]
proof fn spec_lines_decreases(s: Seq<char>) {
    lemma_first_nl_bounds(s);
}

/// `first_nl` finds exactly the first `\n`.
proof fn lemma_first_nl_at(s: Seq<char>, j: int)
    requires
        0 <= j < s.len(),
        s[j] == '\n',
        forall|k: int| 0 <= k < j ==> s[k] != '\n',
    ensures
        first_nl(s) == j,
    decreases j,
{
    if j == 0 {
    } else {
        assert(forall|k: int| 0 <= k < j - 1 ==> s.skip(1)[k] == s[k + 1]);
        lemma_first_nl_at(s.skip(1), j - 1);
    }
}

/// When `s` holds no `\n` at all, `first_nl` reports none.
proof fn lemma_first_nl_none(s: Seq<char>)
    requires
        forall|k: int| 0 <= k < s.len() ==> s[k] != '\n',
    ensures
        first_nl(s) == -1,
    decreases s.len(),
{
    if s.len() > 0 {
        assert(forall|k: int| 0 <= k < s.skip(1).len() ==> s.skip(1)[k] == s[k + 1]);
        lemma_first_nl_none(s.skip(1));
    }
}

/// Copy `s[from..to]` with a `\r` immediately before `to` dropped.
fn take_line(s: &str, from: usize, to: usize) -> (r: String)
    requires
        from <= to <= s@.len(),
    ensures
        r@ == strip_cr(s@.subrange(from as int, to as int)),
{
    let body = if to > from && s.get_char(to - 1) == '\r' {
        let b = s.substring_char(from, to - 1);
        proof {
            assert(s@.subrange(from as int, to as int).last() == '\r');
            assert(s@.subrange(from as int, to - 1 as int) =~= s@.subrange(
                from as int,
                to as int,
            ).drop_last());
        }
        b
    } else {
        let b = s.substring_char(from, to);
        proof {
            if to > from {
                assert(s@.subrange(from as int, to as int).last() == s@[to - 1]);
            }
        }
        b
    };
    body.to_owned()
}

/// Split `s` into its lines.
pub fn split_lines(s: &str) -> (r: Vec<String>)
    ensures
        r@.map_values(|l: String| l@) == spec_lines(s@),
{
    let n = s.unicode_len();
    let mut out: Vec<String> = Vec::new();
    let mut start: usize = 0;
    proof {
        assert(s@.skip(0) =~= s@);
        assert(out@.map_values(|l: String| l@) =~= Seq::<Seq<char>>::empty());
    }
    while start < n
        invariant
            start <= n,
            n == s@.len(),
            out@.map_values(|l: String| l@) + spec_lines(s@.skip(start as int)) == spec_lines(s@),
        decreases n - start,
    {
        let ghost suffix = s@.skip(start as int);
        let mut i: usize = start;
        while i < n && s.get_char(i) != '\n'
            invariant
                start <= i <= n,
                n == s@.len(),
                forall|k: int| start <= k < i ==> s@[k] != '\n',
            decreases n - i,
        {
            i = i + 1;
        }
        proof {
            assert(forall|k: int| 0 <= k < suffix.len() ==> suffix[k] == s@[start + k]);
        }
        if i < n {
            proof {
                lemma_first_nl_at(suffix, i - start);
                assert(suffix.subrange(0, i - start) =~= s@.subrange(start as int, i as int));
                assert(suffix.skip(i - start + 1) =~= s@.skip(i + 1));
                assert(spec_lines(suffix) == seq![strip_cr(s@.subrange(start as int, i as int))]
                    + spec_lines(s@.skip(i + 1)));
            }
            let line = take_line(s, start, i);
            let ghost before = out@.map_values(|l: String| l@);
            out.push(line);
            proof {
                assert(out@.map_values(|l: String| l@) =~= before.push(
                    strip_cr(s@.subrange(start as int, i as int)),
                ));
                assert(out@.map_values(|l: String| l@) + spec_lines(s@.skip(i + 1))
                    =~= spec_lines(s@));
            }
            start = i + 1;
        } else {
            proof {
                lemma_first_nl_none(suffix);
                assert(spec_lines(suffix) == seq![suffix]);
            }
            let line = s.substring_char(start, n).to_owned();
            let ghost before = out@.map_values(|l: String| l@);
            out.push(line);
            proof {
                assert(out@.map_values(|l: String| l@) =~= before.push(suffix));
                assert(s@.skip(n as int) =~= Seq::<char>::empty());
                assert(out@.map_values(|l: String| l@) + spec_lines(s@.skip(n as int))
                    =~= spec_lines(s@));
            }
            start = n;
        }
    }
    proof {
        assert(s@.skip(n as int) =~= Seq::<char>::empty());
        assert(out@.map_values(|l: String| l@) =~= spec_lines(s@));
    }
    out
}

} // verus!
