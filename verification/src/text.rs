//! Verified text utilities: string equality, substring search, trimming,
//! line splitting, and the flattening of a multi-line shell script into one
//! semicolon-joined command line.

use vstd::prelude::*;

verus! {

/// Character-for-character equality of two string slices.
pub fn str_eq(a: &str, b: &str) -> (r: bool)
    ensures
        r == (a@ == b@),
{
    let an = a.unicode_len();
    let bn = b.unicode_len();
    if an != bn {
        return false;
    }
    let mut i: usize = 0;
    while i < an
        invariant
            an == a@.len(),
            an == b@.len(),
            i <= an,
            forall|j: int| 0 <= j < i ==> a@[j] == b@[j],
        decreases an - i,
    {
        if a.get_char(i) != b.get_char(i) {
            return false;
        }
        i += 1;
    }
    proof {
        assert(a@ =~= b@);
    }
    true
}

/// The needle `n` occurs in `h` starting at position `i`.
pub open spec fn matches_at(h: Seq<char>, n: Seq<char>, i: int) -> bool {
    0 <= i && i + n.len() <= h.len() && h.subrange(i, i + n.len() as int) == n
}

/// The needle `n` occurs somewhere in `h`.
pub open spec fn contains_seq(h: Seq<char>, n: Seq<char>) -> bool {
    exists|i: int| matches_at(h, n, i)
}

/// Substring search: does `h` contain `n`?
pub fn contains_str(h: &str, n: &str) -> (r: bool)
    ensures
        r == contains_seq(h@, n@),
{
    let hn = h.unicode_len();
    let nn = n.unicode_len();
    if nn > hn {
        assert(forall|i: int| !matches_at(h@, n@, i));
        return false;
    }
    if nn == 0 {
        proof {
            assert(h@.subrange(0, 0) =~= n@);
            assert(matches_at(h@, n@, 0));
        }
        return true;
    }
    let mut i: usize = 0;
    while i <= hn - nn
        invariant
            hn == h@.len(),
            nn == n@.len(),
            1 <= nn <= hn,
            i <= hn - nn + 1,
            forall|k: int| 0 <= k < i ==> !matches_at(h@, n@, k),
        decreases hn - i,
    {
        let mut j: usize = 0;
        let mut all: bool = true;
        while j < nn
            invariant
                hn == h@.len(),
                nn == n@.len(),
                i + nn <= hn,
                j <= nn,
                all ==> forall|t: int| 0 <= t < j ==> h@[i + t] == n@[t],
                !all ==> !matches_at(h@, n@, i as int),
            decreases nn - j,
        {
            if all && h.get_char(i + j) != n.get_char(j) {
                proof {
                    if matches_at(h@, n@, i as int) {
                        assert(h@.subrange(i as int, i + nn as int)[j as int] == n@[j as int]);
                    }
                }
                all = false;
            }
            j += 1;
        }
        if all {
            proof {
                assert(h@.subrange(i as int, i + nn as int) =~= n@);
                assert(matches_at(h@, n@, i as int));
            }
            return true;
        }
        i += 1;
    }
    proof {
        assert forall|k: int| !matches_at(h@, n@, k) by {
            if k >= i {
                assert(k + n@.len() > h@.len());
            }
        }
    }
    false
}

/// Blank characters removed by trimming: spaces, tabs, carriage returns and
/// newlines.
pub open spec fn is_blank(c: char) -> bool {
    c == ' ' || c == '\t' || c == '\r' || c == '\n'
}

/// The sequence with leading blanks removed.
pub open spec fn trim_front(s: Seq<char>) -> Seq<char>
    decreases s.len(),
{
    if s.len() > 0 && is_blank(s.first()) {
        trim_front(s.drop_first())
    } else {
        s
    }
}

/// The sequence with trailing blanks removed.
pub open spec fn trim_back(s: Seq<char>) -> Seq<char>
    decreases s.len(),
{
    if s.len() > 0 && is_blank(s.last()) {
        trim_back(s.drop_last())
    } else {
        s
    }
}

/// The sequence with both leading and trailing blanks removed.
pub open spec fn trim_spec(s: Seq<char>) -> Seq<char> {
    trim_back(trim_front(s))
}

proof fn lemma_trim_front_at(s: Seq<char>, a: int)
    requires
        0 <= a <= s.len(),
        forall|j: int| 0 <= j < a ==> is_blank(s[j]),
        a < s.len() ==> !is_blank(s[a]),
    ensures
        trim_front(s) == s.subrange(a, s.len() as int),
    decreases a,
{
    if a == 0 {
        assert(s.subrange(0, s.len() as int) =~= s);
    } else {
        lemma_trim_front_at(s.drop_first(), a - 1);
        assert(s.drop_first().subrange(a - 1, s.len() - 1) =~= s.subrange(a, s.len() as int));
    }
}

proof fn lemma_trim_back_at(s: Seq<char>, b: int)
    requires
        0 <= b <= s.len(),
        forall|j: int| b <= j < s.len() ==> is_blank(s[j]),
        b > 0 ==> !is_blank(s[b - 1]),
    ensures
        trim_back(s) == s.subrange(0, b),
    decreases s.len() - b,
{
    if b == s.len() {
        if s.len() == 0 {
            assert(s.subrange(0, 0) =~= s);
        } else {
            assert(!is_blank(s.last()));
            assert(s.subrange(0, s.len() as int) =~= s);
        }
    } else {
        assert(is_blank(s[s.len() - 1]));
        lemma_trim_back_at(s.drop_last(), b);
        assert(s.drop_last().subrange(0, b) =~= s.subrange(0, b));
    }
}

fn is_blank_char(c: char) -> (r: bool)
    ensures
        r == is_blank(c),
{
    c == ' ' || c == '\t' || c == '\r' || c == '\n'
}

/// Remove leading and trailing blanks from a string.
pub fn trim_str(s: &str) -> (r: String)
    ensures
        r@ == trim_spec(s@),
{
    let len = s.unicode_len();
    let mut a: usize = 0;
    while a < len && is_blank_char(s.get_char(a))
        invariant
            len == s@.len(),
            a <= len,
            forall|j: int| 0 <= j < a ==> is_blank(s@[j]),
        decreases len - a,
    {
        a += 1;
    }
    let mut b: usize = len;
    while b > a && is_blank_char(s.get_char(b - 1))
        invariant
            len == s@.len(),
            a <= b <= len,
            forall|j: int| b <= j < len ==> is_blank(s@[j]),
        decreases b,
    {
        b -= 1;
    }
    proof {
        lemma_trim_front_at(s@, a as int);
        let t = s@.subrange(a as int, len as int);
        lemma_trim_back_at(t, b - a);
        assert(t.subrange(0, b - a) =~= s@.subrange(a as int, b as int));
    }
    let r = s.substring_char(a, b);
    r.to_owned()
}

/// Split on newline characters; a string of `k` newlines yields `k + 1` parts.
pub open spec fn split_lines(s: Seq<char>) -> Seq<Seq<char>>
    decreases s.len(),
{
    if s.len() == 0 {
        seq![Seq::<char>::empty()]
    } else if s.last() == '\n' {
        split_lines(s.drop_last()).push(Seq::<char>::empty())
    } else {
        let r = split_lines(s.drop_last());
        r.update(r.len() - 1, r.last().push(s.last()))
    }
}

pub proof fn lemma_split_lines_len(s: Seq<char>)
    ensures
        split_lines(s).len() >= 1,
    decreases s.len(),
{
    if s.len() > 0 {
        lemma_split_lines_len(s.drop_last());
    }
}

/// Split a string into its lines, keeping a final empty part after a
/// trailing newline.
pub fn split_lines_str(s: &str) -> (out: Vec<String>)
    ensures
        out@.map_values(|l: String| l@) == split_lines(s@),
{
    let len = s.unicode_len();
    let mut out: Vec<String> = Vec::new();
    let mut start: usize = 0;
    let mut i: usize = 0;
    proof {
        assert(s@.take(0) =~= Seq::<char>::empty());
        assert(s@.subrange(0, 0) =~= Seq::<char>::empty());
        assert(out@.map_values(|l: String| l@) =~= Seq::<Seq<char>>::empty());
        assert(out@.map_values(|l: String| l@).push(s@.subrange(0, 0))
            =~= split_lines(s@.take(0)));
    }
    while i < len
        invariant
            len == s@.len(),
            start <= i <= len,
            out@.map_values(|l: String| l@).push(s@.subrange(start as int, i as int))
                == split_lines(s@.take(i as int)),
        decreases len - i,
    {
        let ghost pre = s@.take(i as int);
        let ghost lines_pre = out@.map_values(|l: String| l@);
        let c = s.get_char(i);
        proof {
            assert(s@.take(i + 1).drop_last() =~= pre);
            assert(s@.take(i + 1).last() == s@[i as int]);
            lemma_split_lines_len(pre);
        }
        if c == '\n' {
            let ghost st = start as int;
            let line = s.substring_char(start, i);
            out.push(line.to_owned());
            start = i + 1;
            proof {
                assert(out@.map_values(|l: String| l@)
                    =~= lines_pre.push(s@.subrange(st, i as int)));
                assert(split_lines(s@.take(i + 1))
                    == split_lines(pre).push(Seq::<char>::empty()));
                assert(s@.subrange(i + 1, i + 1) =~= Seq::<char>::empty());
                assert(out@.map_values(|l: String| l@).push(s@.subrange(i + 1, i + 1))
                    =~= split_lines(pre).push(Seq::<char>::empty()));
            }
        } else {
            proof {
                let r = split_lines(pre);
                assert(split_lines(s@.take(i + 1)) == r.update(r.len() - 1, r.last().push(s@[i as int])));
                assert(r == lines_pre.push(s@.subrange(start as int, i as int)));
                assert(r.last() == s@.subrange(start as int, i as int));
                assert(s@.subrange(start as int, i as int).push(s@[i as int])
                    =~= s@.subrange(start as int, i + 1));
                assert(r.update(r.len() - 1, r.last().push(s@[i as int]))
                    =~= lines_pre.push(s@.subrange(start as int, i + 1)));
            }
        }
        i += 1;
    }
    let line = s.substring_char(start, len);
    out.push(line.to_owned());
    proof {
        assert(s@.take(len as int) =~= s@);
        assert(out@.map_values(|l: String| l@)
            =~= out@.map_values(|l: String| l@).drop_last().push(s@.subrange(start as int, len as int)));
    }
    out
}

/// Join command lines with `"; "` between them.
pub open spec fn join_cmds(ls: Seq<Seq<char>>) -> Seq<char>
    decreases ls.len(),
{
    if ls.len() == 0 {
        Seq::<char>::empty()
    } else if ls.len() == 1 {
        ls[0]
    } else {
        join_cmds(ls.drop_last()) + "; "@ + ls.last()
    }
}

/// The trimmed, non-blank lines, in order.
pub open spec fn kept_lines(ls: Seq<Seq<char>>) -> Seq<Seq<char>>
    decreases ls.len(),
{
    if ls.len() == 0 {
        Seq::<Seq<char>>::empty()
    } else {
        let r = kept_lines(ls.drop_last());
        let t = trim_spec(ls.last());
        if t.len() > 0 {
            r.push(t)
        } else {
            r
        }
    }
}

/// A multi-line script flattened to one line: each line trimmed, blank lines
/// dropped, and the remainder joined with `"; "`.
pub open spec fn flatten_script_spec(s: Seq<char>) -> Seq<char> {
    join_cmds(kept_lines(split_lines(s)))
}

/// Flatten a multi-line script to a single semicolon-joined command line.
pub fn flatten_script(s: &str) -> (r: String)
    ensures
        r@ == flatten_script_spec(s@),
{
    let lines = split_lines_str(s);
    let ghost ls = split_lines(s@);
    let mut out = String::new();
    let mut any = false;
    let mut k: usize = 0;
    while k < lines.len()
        invariant
            lines@.map_values(|l: String| l@) == ls,
            k <= lines.len(),
            out@ == join_cmds(kept_lines(ls.take(k as int))),
            any == (kept_lines(ls.take(k as int)).len() > 0),
        decreases lines.len() - k,
    {
        let ghost pre = ls.take(k as int);
        proof {
            assert(ls.take(k + 1).drop_last() =~= pre);
            assert(ls.take(k + 1).last() == ls[k as int]);
            assert(lines@.map_values(|l: String| l@)[k as int] == lines@[k as int]@);
        }
        let line = &lines[k];
        let t = trim_str(line.as_str());
        if t.unicode_len() > 0 {
            proof {
                assert(kept_lines(ls.take(k + 1)) == kept_lines(pre).push(t@));
            }
            if any {
                out.append("; ");
            } else {
                proof {
                    assert(kept_lines(pre).len() == 0);
                    assert(out@ =~= Seq::<char>::empty());
                }
            }
            out.append(t.as_str());
            proof {
                let r = kept_lines(pre).push(t@);
                if kept_lines(pre).len() == 0 {
                    assert(join_cmds(r) == t@);
                    assert(out@ =~= t@);
                } else {
                    assert(r.drop_last() =~= kept_lines(pre));
                    assert(join_cmds(r) == join_cmds(kept_lines(pre)) + "; "@ + t@);
                }
            }
            any = true;
        } else {
            proof {
                assert(kept_lines(ls.take(k + 1)) == kept_lines(pre));
            }
        }
        k += 1;
    }
    proof {
        assert(ls.take(lines@.len() as int) =~= ls);
    }
    out
}

} // verus!
