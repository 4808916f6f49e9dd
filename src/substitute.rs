//! Literal substitution of `{{name}}` markers in rendered text.
use vstd::prelude::*;
use crate::text::chars_of;

verus! {

broadcast use vstd::seq::group_seq_axioms;

/// `h` with every occurrence of the non-empty pattern `p` replaced by `r`, scanning from
/// the left and never matching inside a replaced occurrence.
pub open spec fn replace_all(h: Seq<char>, p: Seq<char>, r: Seq<char>) -> Seq<char>
    decreases h.len(),
{
    if p.len() == 0 || h.len() < p.len() {
        h
    } else if h.subrange(0, p.len() as int) == p {
        r + replace_all(h.subrange(p.len() as int, h.len() as int), p, r)
    } else {
        seq![h[0]] + replace_all(h.subrange(1, h.len() as int), p, r)
    }
}

/// The marker that stands for the value named `name`: `{{name}}`.
pub open spec fn marker(name: Seq<char>) -> Seq<char> {
    seq!['{', '{'] + name + seq!['}', '}']
}

/// Whether `p` occurs in `h` at position `i`.
fn occurs_at(h: &Vec<char>, i: usize, p: &Vec<char>) -> (b: bool)
    requires
        i <= h@.len(),
    ensures
        b == (i + p@.len() <= h@.len() && h@.subrange(i as int, i + p@.len()) == p@),
{
    if p.len() > h.len() - i {
        return false;
    }
    let mut k: usize = 0;
    while k < p.len()
        invariant
            i + p@.len() <= h@.len(),
            h@.len() == h.len(),
            k <= p@.len(),
            h@.subrange(i as int, i + k) == p@.subrange(0, k as int),
        decreases p@.len() - k,
    {
        if h[i + k] != p[k] {
            assert(h@.subrange(i as int, i + p@.len())[k as int] != p@[k as int]);
            return false;
        }
        k = k + 1;
        assert(h@.subrange(i as int, i + k) =~= p@.subrange(0, k as int));
    }
    assert(p@.subrange(0, k as int) =~= p@);
    true
}

/// Every occurrence of `pattern` in `text`, from the left and without overlap, replaced by
/// `replacement`. An empty pattern leaves the text as it is.
pub fn replace_text(text: &str, pattern: &str, replacement: &str) -> (r: String)
    ensures
        r@ == replace_all(text@, pattern@, replacement@),
{
    let h = chars_of(text);
    let p = chars_of(pattern);
    if p.len() == 0 {
        return String::from_str(text);
    }
    let n = h.len();
    let mut out = String::new();
    let mut pending: usize = 0;
    let mut i: usize = 0;
    assert(h@.subrange(0, n as int) =~= h@);
    assert(h@.subrange(0, 0) =~= Seq::<char>::empty());
    while i < n
        invariant
            h@ == text@,
            p@ == pattern@,
            p@.len() > 0,
            n == h@.len(),
            pending <= i <= n,
            out@ + h@.subrange(pending as int, i as int) + replace_all(
                h@.subrange(i as int, n as int),
                p@,
                replacement@,
            ) == replace_all(h@, p@, replacement@),
        decreases n - i,
    {
        let ghost rest = h@.subrange(i as int, n as int);
        let ghost kept = h@.subrange(pending as int, i as int);
        let ghost base = out@;
        if occurs_at(&h, i, &p) {
            assert(rest.subrange(0, p@.len() as int) =~= h@.subrange(i as int, i + p@.len()));
            assert(rest.subrange(p@.len() as int, rest.len() as int) =~= h@.subrange(
                i + p@.len(),
                n as int,
            ));
            out.append(text.substring_char(pending, i));
            out.append(replacement);
            i = i + p.len();
            pending = i;
            assert(h@.subrange(pending as int, i as int) =~= Seq::<char>::empty());
            assert(out@ + h@.subrange(pending as int, i as int) + replace_all(
                h@.subrange(i as int, n as int),
                p@,
                replacement@,
            ) =~= base + kept + replace_all(rest, p@, replacement@));
        } else if p.len() <= n - i {
            assert(rest.subrange(0, p@.len() as int) =~= h@.subrange(i as int, i + p@.len()));
            assert(rest.subrange(1, rest.len() as int) =~= h@.subrange(i + 1, n as int));
            i = i + 1;
            assert(h@.subrange(pending as int, i as int) =~= kept + seq![rest[0]]);
            assert(out@ + h@.subrange(pending as int, i as int) + replace_all(
                h@.subrange(i as int, n as int),
                p@,
                replacement@,
            ) =~= base + kept + replace_all(rest, p@, replacement@));
        } else {
            assert(replace_all(rest, p@, replacement@) == rest);
            i = n;
            assert(h@.subrange(pending as int, i as int) =~= kept + rest);
            assert(h@.subrange(i as int, n as int) =~= Seq::<char>::empty());
            assert(out@ + h@.subrange(pending as int, i as int) + replace_all(
                h@.subrange(i as int, n as int),
                p@,
                replacement@,
            ) =~= base + kept + replace_all(rest, p@, replacement@));
        }
    }
    out.append(text.substring_char(pending, n));
    assert(h@.subrange(n as int, n as int) =~= Seq::<char>::empty());
    assert(out@ =~= replace_all(h@, p@, replacement@));
    out
}

} // verus!
