//! Splitting and trimming of character sequences.

use vstd::prelude::*;

verus! {

/// The views of a sequence of character vectors.
pub open spec fn views_of(vs: Seq<Vec<char>>) -> Seq<Seq<char>> {
    vs.map_values(|v: Vec<char>| v@)
}

/// The index of the first occurrence of `c` in `s`, or `s.len()` when absent.
pub open spec fn spec_find(s: Seq<char>, c: char) -> int
    decreases s.len(),
{
    if s.len() == 0 {
        0
    } else if s[0] == c {
        0
    } else {
        1 + spec_find(s.skip(1), c)
    }
}

pub proof fn lemma_find(s: Seq<char>, c: char)
    ensures
        0 <= spec_find(s, c) <= s.len(),
        spec_find(s, c) < s.len() ==> s[spec_find(s, c)] == c,
        forall|j: int| 0 <= j < spec_find(s, c) ==> s[j] != c,
    decreases s.len(),
{
    if s.len() > 0 && s[0] != c {
        lemma_find(s.skip(1), c);
        let f = spec_find(s, c);
        assert forall|j: int| 0 <= j < f implies s[j] != c by {
            if j > 0 {
                assert(s.skip(1)[j - 1] == s[j]);
            }
        }
        if f < s.len() {
            assert(s.skip(1)[f - 1] == s[f]);
        }
    }
}

/// The segments of `s` separated by `sep`; empty segments are kept, and the
/// empty sequence yields one empty segment.
pub open spec fn spec_split(s: Seq<char>, sep: char) -> Seq<Seq<char>>
    decreases s.len(),
{
    let f = spec_find(s, sep);
    if 0 <= f < s.len() {
        seq![s.take(f)] + spec_split(s.skip(f + 1), sep)
    } else {
        seq![s]
    }
}

/// `s` with every leading and trailing `c` removed.
pub open spec fn spec_trim(s: Seq<char>, c: char) -> Seq<char>
    decreases s.len(),
{
    if s.len() > 0 && s[0] == c {
        spec_trim(s.skip(1), c)
    } else if s.len() > 0 && s.last() == c {
        spec_trim(s.drop_last(), c)
    } else {
        s
    }
}

/// Find the first occurrence of `c` in `s` at or after `from`.
fn find_from(s: &Vec<char>, from: usize, c: char) -> (r: usize)
    requires
        from <= s.len(),
    ensures
        from <= r <= s.len(),
        r - from == spec_find(s@.skip(from as int), c),
    decreases s.len() - from,
{
    proof {
        lemma_find(s@.skip(from as int), c);
    }
    if from == s.len() {
        return from;
    }
    if s[from] == c {
        assert(s@.skip(from as int)[0] == c);
        return from;
    }
    let r = find_from(s, from + 1, c);
    proof {
        assert(s@.skip(from as int)[0] != c);
        assert(s@.skip(from as int).skip(1) =~= s@.skip(from as int + 1));
    }
    r
}

/// Copy the characters of `s` between `from` and `to`.
pub fn copy_range(s: &Vec<char>, from: usize, to: usize) -> (r: Vec<char>)
    requires
        from <= to <= s.len(),
    ensures
        r@ == s@.subrange(from as int, to as int),
{
    let mut out: Vec<char> = Vec::new();
    let mut i: usize = from;
    while i < to
        invariant
            from <= i <= to <= s.len(),
            out@ =~= s@.subrange(from as int, i as int),
        decreases to - i,
    {
        out.push(s[i]);
        proof {
            assert(s@.subrange(from as int, i + 1) =~= s@.subrange(from as int, i as int).push(
                s@[i as int],
            ));
        }
        i += 1;
    }
    out
}

fn split_from(s: &Vec<char>, from: usize, sep: char, out: &mut Vec<Vec<char>>)
    requires
        from <= s.len(),
    ensures
        views_of(final(out)@) == views_of(old(out)@) + spec_split(s@.skip(from as int), sep),
    decreases s.len() - from,
{
    let f = find_from(s, from, sep);
    let ghost tail = s@.skip(from as int);
    proof {
        lemma_find(tail, sep);
    }
    let seg = copy_range(s, from, f);
    proof {
        assert(seg@ =~= tail.take(f - from));
    }
    if f == s.len() {
        proof {
            assert(spec_find(tail, sep) == tail.len());
            assert(seg@ =~= tail);
        }
        let ghost prior = out@;
        out.push(seg);
        proof {
            assert(views_of(out@) =~= views_of(prior) + spec_split(tail, sep));
        }
    } else {
        let ghost prior = out@;
        out.push(seg);
        proof {
            assert(views_of(out@) =~= views_of(prior) + seq![tail.take(f - from)]);
            assert(tail.skip(f - from + 1) =~= s@.skip(f + 1));
        }
        split_from(s, f + 1, sep, out);
        proof {
            assert(spec_split(tail, sep) == seq![tail.take(f - from)] + spec_split(
                s@.skip(f + 1),
                sep,
            ));
            assert(views_of(final(out)@) =~= views_of(prior) + spec_split(tail, sep));
        }
    }
}

/// Split `s` on `sep`, keeping empty segments.
pub fn split_chars(s: &Vec<char>, sep: char) -> (r: Vec<Vec<char>>)
    ensures
        views_of(r@) == spec_split(s@, sep),
{
    let mut out: Vec<Vec<char>> = Vec::new();
    proof {
        assert(s@.skip(0) =~= s@);
        assert(views_of(out@) =~= Seq::<Seq<char>>::empty());
    }
    split_from(s, 0, sep, &mut out);
    proof {
        assert(views_of(out@) =~= spec_split(s@, sep));
    }
    out
}

/// `s` with every trailing `c` removed.
pub open spec fn spec_trim_end(s: Seq<char>, c: char) -> Seq<char>
    decreases s.len(),
{
    if s.len() > 0 && s.last() == c {
        spec_trim_end(s.drop_last(), c)
    } else {
        s
    }
}

/// Remove every trailing `c` from `s`.
#[verifier::loop_isolation(false)]
pub fn trim_end_chars(s: &Vec<char>, c: char) -> (r: Vec<char>)
    ensures
        r@ == spec_trim_end(s@, c),
{
    let mut to: usize = s.len();
    proof {
        assert(s@.subrange(0, s@.len() as int) =~= s@);
    }
    while to > 0 && s[to - 1] == c
        invariant
            0 <= to <= s.len(),
            spec_trim_end(s@, c) == spec_trim_end(s@.subrange(0, to as int), c),
        decreases to,
    {
        proof {
            let cur = s@.subrange(0, to as int);
            assert(cur.last() == s@[to - 1]);
            assert(cur.drop_last() =~= s@.subrange(0, to - 1));
        }
        to -= 1;
    }
    proof {
        let cur = s@.subrange(0, to as int);
        if cur.len() > 0 {
            assert(cur.last() == s@[to - 1]);
        }
    }
    copy_range(s, 0, to)
}

/// The index of the last occurrence of `c` in `s`, or `-1` when absent.
pub open spec fn spec_rfind(s: Seq<char>, c: char) -> int
    decreases s.len(),
{
    if s.len() == 0 {
        -1
    } else if s.last() == c {
        s.len() - 1
    } else {
        spec_rfind(s.drop_last(), c)
    }
}

/// Find the last occurrence of `c` in `s`.
#[verifier::loop_isolation(false)]
pub fn rfind_char(s: &Vec<char>, c: char) -> (r: Option<usize>)
    ensures
        match r {
            Some(k) => k < s@.len() && spec_rfind(s@, c) == k as int,
            None => spec_rfind(s@, c) == -1,
        },
{
    let mut to: usize = s.len();
    proof {
        assert(s@.subrange(0, s@.len() as int) =~= s@);
    }
    while to > 0
        invariant
            0 <= to <= s.len(),
            spec_rfind(s@, c) == spec_rfind(s@.subrange(0, to as int), c),
        decreases to,
    {
        proof {
            let cur = s@.subrange(0, to as int);
            assert(cur.last() == s@[to - 1]);
            assert(cur.drop_last() =~= s@.subrange(0, to - 1));
        }
        if s[to - 1] == c {
            return Some(to - 1);
        }
        to -= 1;
    }
    None
}

/// Remove every leading and trailing `c` from `s`.
#[verifier::loop_isolation(false)]
pub fn trim_chars(s: &Vec<char>, c: char) -> (r: Vec<char>)
    ensures
        r@ == spec_trim(s@, c),
{
    let mut from: usize = 0;
    let mut to: usize = s.len();
    proof {
        assert(s@.subrange(0, s@.len() as int) =~= s@);
    }
    while from < to && s[from] == c
        invariant
            0 <= from <= to <= s.len(),
            to == s.len(),
            spec_trim(s@, c) == spec_trim(s@.subrange(from as int, to as int), c),
        decreases to - from,
    {
        proof {
            let cur = s@.subrange(from as int, to as int);
            assert(cur[0] == c);
            assert(cur.skip(1) =~= s@.subrange(from + 1, to as int));
        }
        from += 1;
    }
    while to > from && s[to - 1] == c
        invariant
            0 <= from <= to <= s.len(),
            spec_trim(s@, c) == spec_trim(s@.subrange(from as int, to as int), c),
            from == to || s@[from as int] != c,
        decreases to,
    {
        proof {
            let cur = s@.subrange(from as int, to as int);
            assert(cur.last() == s@[to - 1]);
            assert(cur[0] == s@[from as int]);
            assert(cur.drop_last() =~= s@.subrange(from as int, to - 1));
        }
        to -= 1;
    }
    proof {
        let cur = s@.subrange(from as int, to as int);
        if cur.len() > 0 {
            assert(cur[0] == s@[from as int]);
            assert(cur.last() == s@[to - 1]);
        }
    }
    copy_range(s, from, to)
}

} // verus!
