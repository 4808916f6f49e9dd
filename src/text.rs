//! Character-level access to string slices.
use vstd::prelude::*;

verus! {

/// The end of the run of `c` that starts at `i`: the first position at or after `i` that
/// does not hold `c`.
pub open spec fn run_end(s: Seq<char>, i: int, c: char) -> int
    decreases s.len() - i,
{
    if 0 <= i < s.len() && s[i] == c {
        run_end(s, i + 1, c)
    } else {
        i
    }
}

pub proof fn lemma_run_end_bounds(s: Seq<char>, i: int, c: char)
    requires
        0 <= i <= s.len(),
    ensures
        i <= run_end(s, i, c) <= s.len(),
    decreases s.len() - i,
{
    if i < s.len() && s[i] == c {
        lemma_run_end_bounds(s, i + 1, c);
    }
}


/// The characters of `s`, in order.
pub fn chars_of(s: &str) -> (r: Vec<char>)
    ensures
        r@ == s@,
{
    let mut r: Vec<char> = Vec::new();
    for c in it: s.chars()
        invariant
            r@ == it.seq().take(it.index() as int),
    {
        r.push(c);
        assert(r@ =~= it.seq().take(it.index() + 1));
    }
    r
}

/// `run_end` for a run that starts in a sequence.
pub fn scan_run(cs: &Vec<char>, i: usize, c: char) -> (e: usize)
    requires
        i <= cs@.len(),
    ensures
        e == run_end(cs@, i as int, c),
        i <= e <= cs@.len(),
{
    let mut j = i;
    while j < cs.len() && cs[j] == c
        invariant
            i <= j <= cs@.len(),
            run_end(cs@, i as int, c) == run_end(cs@, j as int, c),
        decreases cs@.len() - j,
    {
        j = j + 1;
    }
    j
}

/// The characters of `s` from `from` up to `to`, as a new string.
pub fn substring(s: &str, from: usize, to: usize) -> (r: String)
    requires
        from <= to <= s@.len(),
    ensures
        r@ == s@.subrange(from as int, to as int),
{
    String::from_str(s.substring_char(from, to))
}

} // verus!
