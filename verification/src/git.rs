//! Verified compute parts of the git helpers: parsing branch listings,
//! normalizing a repository root, and deriving a repository's display name.
//! Running the git subprocess itself is I/O and stays with the caller.

use vstd::prelude::*;
use crate::text::{split_lines, split_lines_str, trim_spec, trim_str};

verus! {

/// A repository context: its root path and its display name.
pub struct GitContext {
    pub root: String,
    pub name: String,
}

/// A line with every leading `"* "` marker removed.
pub open spec fn strip_marker(l: Seq<char>) -> Seq<char>
    decreases l.len(),
{
    if l.len() >= 2 && l[0] == '*' && l[1] == ' ' {
        strip_marker(l.subrange(2, l.len() as int))
    } else {
        l
    }
}

/// Remove every leading `"* "` marker from a line, as the current-branch
/// marker in git's output is written.
pub fn strip_marker_str(l: &str) -> (r: String)
    ensures
        r@ == strip_marker(l@),
    decreases l@.len(),
{
    let len = l.unicode_len();
    if len >= 2 && l.get_char(0) == '*' && l.get_char(1) == ' ' {
        let rest = l.substring_char(2, len);
        strip_marker_str(rest)
    } else {
        l.to_owned()
    }
}

/// The lines of a command's output: a trailing newline yields no final empty
/// line, and empty output yields no lines.
pub open spec fn lines_spec(s: Seq<char>) -> Seq<Seq<char>> {
    if s.len() == 0 {
        Seq::<Seq<char>>::empty()
    } else if s.last() == '\n' {
        split_lines(s).drop_last()
    } else {
        split_lines(s)
    }
}

/// Each output line of a branch listing with the current-branch marker
/// stripped and surrounding blanks removed.
pub open spec fn branches_spec(s: Seq<char>) -> Seq<Seq<char>> {
    lines_spec(s).map_values(|l: Seq<char>| trim_spec(strip_marker(l)))
}

/// Parse a branch listing: one entry per output line, marker stripped,
/// trimmed.
pub fn parse_branches(out: &str) -> (branches: Vec<String>)
    ensures
        branches@.map_values(|b: String| b@) == branches_spec(out@),
{
    let mut lines = split_lines_str(out);
    let len = out.unicode_len();
    if len > 0 && out.get_char(len - 1) == '\n' {
        proof {
            crate::text::lemma_split_lines_len(out@);
            assert(lines@.map_values(|l: String| l@).len() == split_lines(out@).len());
        }
        let _last = lines.pop();
        proof {
            assert(lines@.map_values(|l: String| l@) =~= split_lines(out@).drop_last());
        }
    } else {
        if len == 0 {
            proof {
                assert(lines_spec(out@) =~= Seq::<Seq<char>>::empty());
            }
            let empty: Vec<String> = Vec::new();
            proof {
                assert(empty@.map_values(|b: String| b@) =~= branches_spec(out@));
            }
            return empty;
        }
    }
    let ghost target = branches_spec(out@);
    proof {
        assert(lines@.map_values(|l: String| l@) == lines_spec(out@));
    }
    let mut branches: Vec<String> = Vec::new();
    let mut i: usize = 0;
    proof {
        assert(branches@.map_values(|b: String| b@) =~= target.take(0));
    }
    while i < lines.len()
        invariant
            i <= lines@.len(),
            lines@.map_values(|l: String| l@) == lines_spec(out@),
            target == branches_spec(out@),
            branches@.map_values(|b: String| b@) == target.take(i as int),
        decreases lines@.len() - i,
    {
        proof {
            assert(lines_spec(out@)[i as int] == lines@[i as int]@);
            assert(target[i as int] == trim_spec(strip_marker(lines@[i as int]@)));
        }
        let stripped = strip_marker_str(lines[i].as_str());
        let entry = trim_str(stripped.as_str());
        let ghost bpre = branches@;
        proof {
            assert(entry@ == target[i as int]);
        }
        branches.push(entry);
        proof {
            assert(target.len() == lines_spec(out@).len());
            assert(bpre.map_values(|b: String| b@).len() == bpre.len());
            assert(bpre.len() == i);
            assert(branches@.len() == i + 1);
            assert forall|j: int| 0 <= j < i + 1 implies branches@.map_values(
                |b: String| b@,
            )[j] == #[trigger] target.take(i + 1)[j] by {
                assert(branches@.map_values(|b: String| b@)[j] == branches@[j]@);
                if j < i {
                    assert(branches@[j] == bpre[j]);
                    assert(bpre.map_values(|b: String| b@)[j] == bpre[j]@);
                    assert(bpre.map_values(|b: String| b@)[j] == target.take(i as int)[j]);
                }
            }
            assert(branches@.map_values(|b: String| b@) =~= target.take(i + 1));
        }
        i += 1;
    }
    proof {
        assert(target.take(lines@.len() as int) =~= target);
    }
    branches
}

/// The longest suffix of a path that holds no separator.
pub open spec fn tail_component(p: Seq<char>) -> Seq<char>
    decreases p.len(),
{
    if p.len() == 0 {
        Seq::<char>::empty()
    } else if p.last() == '/' {
        Seq::<char>::empty()
    } else {
        tail_component(p.drop_last()).push(p.last())
    }
}

/// A repository's display name: the path component after the last
/// separator, or the whole path when that component is empty.
pub open spec fn repo_name_spec(p: Seq<char>) -> Seq<char> {
    if tail_component(p).len() == 0 {
        p
    } else {
        tail_component(p)
    }
}

proof fn lemma_tail_component_at(p: Seq<char>, cut: int)
    requires
        0 <= cut <= p.len(),
        forall|j: int| cut <= j < p.len() ==> p[j] != '/',
        cut > 0 ==> p[cut - 1] == '/',
    ensures
        tail_component(p) == p.subrange(cut, p.len() as int),
    decreases p.len(),
{
    if cut == p.len() {
        if p.len() == 0 {
            assert(p.subrange(0, 0) =~= p);
        } else {
            assert(p.subrange(cut, p.len() as int) =~= Seq::<char>::empty());
        }
    } else {
        assert(p.last() != '/');
        lemma_tail_component_at(p.drop_last(), cut);
        assert(p.drop_last().subrange(cut, p.len() - 1).push(p.last())
            =~= p.subrange(cut, p.len() as int));
    }
}

/// Derive a repository's display name from its root path.
pub fn repo_name_of(root: &str) -> (name: String)
    ensures
        name@ == repo_name_spec(root@),
{
    let len = root.unicode_len();
    let mut cut: usize = len;
    while cut > 0 && root.get_char(cut - 1) != '/'
        invariant
            len == root@.len(),
            cut <= len,
            forall|j: int| cut <= j < len ==> root@[j] != '/',
        decreases cut,
    {
        cut -= 1;
    }
    proof {
        lemma_tail_component_at(root@, cut as int);
    }
    if cut == len {
        // no non-separator suffix: fall back to the whole path
        proof {
            assert(root@.subrange(len as int, len as int) =~= Seq::<char>::empty());
        }
        root.to_owned()
    } else {
        let tail = root.substring_char(cut, len);
        tail.to_owned()
    }
}

/// The context shown for a repository root: the root itself and its display
/// name.
pub fn git_context_for(root: &str) -> (g: GitContext)
    ensures
        g.root@ == root@,
        g.name@ == repo_name_spec(root@),
{
    GitContext { root: root.to_owned(), name: repo_name_of(root) }
}

/// Normalize the output of a root query: surrounding blanks removed, and an
/// all-blank output means no repository root.
pub fn normalize_root(out: &str) -> (r: Option<String>)
    ensures
        r matches Some(t) ==> t@ == trim_spec(out@) && trim_spec(out@).len() > 0,
        (r matches None) <==> trim_spec(out@).len() == 0,
{
    let t = trim_str(out);
    if t.unicode_len() == 0 {
        None
    } else {
        Some(t)
    }
}

} // verus!
