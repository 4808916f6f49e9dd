//! Brace normalisation: `{{name}}` markers become `{name}` placeholders, and every other
//! brace is escaped by doubling, so that a later `{name}` substitution pass sees only the
//! intended placeholders.
use vstd::prelude::*;
use crate::text::{chars_of, lemma_run_end_bounds, run_end, scan_run};

verus! {

pub open spec fn is_brace(c: char) -> bool {
    c == '{' || c == '}'
}

pub open spec fn repeat_char(c: char, n: nat) -> Seq<char> {
    Seq::new(n, |_k: int| c)
}

/// What a maximal run of `k` braces `c` becomes: one brace for a pair, else `2k` braces.
pub open spec fn run_replacement(c: char, k: int) -> Seq<char> {
    if k == 2 {
        seq![c]
    } else {
        repeat_char(c, (2 * k) as nat)
    }
}

/// The normalised text of `s` from position `i` on. After a run of three or more braces
/// the next character, if there is one, is consumed without being emitted.
pub open spec fn normalize_from(s: Seq<char>, i: int) -> Seq<char>
    decreases s.len() - i,
    via normalize_from_decreases
{
    if i < 0 || i >= s.len() {
        Seq::empty()
    } else if is_brace(s[i]) {
        let e = run_end(s, i + 1, s[i]);
        let k = e - i;
        let next = if k >= 3 && e < s.len() {
            e + 1
        } else {
            e
        };
        run_replacement(s[i], k) + normalize_from(s, next)
    } else {
        seq![s[i]] + normalize_from(s, i + 1)
    }
}

#[via_fn]
proof fn normalize_from_decreases(s: Seq<char>, i: int) {
    if 0 <= i < s.len() {
        lemma_run_end_bounds(s, i + 1, s[i]);
    }
}

/// A stretch without braces is copied as it is.
pub proof fn lemma_plain_stretch(s: Seq<char>, i: int, j: int)
    requires
        0 <= i <= j <= s.len(),
        forall|k: int| i <= k < j ==> !is_brace(#[trigger] s[k]),
    ensures
        normalize_from(s, i) == s.subrange(i, j) + normalize_from(s, j),
    decreases j - i,
{
    if i < j {
        lemma_plain_stretch(s, i + 1, j);
        assert(s.subrange(i, j) =~= seq![s[i]] + s.subrange(i + 1, j));
    } else {
        assert(s.subrange(i, j) =~= Seq::<char>::empty());
    }
}

/// Rewrites every maximal run of identical braces: a run of two becomes one brace, a run
/// of one or of three and more becomes twice as many braces. Other characters are kept,
/// except the one right after a run of three or more braces, which is dropped.
pub fn reformat_braces(source: &str) -> (r: String)
    ensures
        r@ == normalize_from(source@, 0),
{
    let cs = chars_of(source);
    let n = cs.len();
    let mut res = String::new();
    let mut i: usize = 0;
    while i < n
        invariant
            n == cs@.len(),
            cs@ == source@,
            i <= n,
            res@ + normalize_from(cs@, i as int) == normalize_from(cs@, 0),
        decreases n - i,
    {
        let c = cs[i];
        if c == '{' || c == '}' {
            let j = scan_run(&cs, i + 1, c);
            let single: &str = if c == '{' {
                "{"
            } else {
                "}"
            };
            let double: &str = if c == '{' {
                "{{"
            } else {
                "}}"
            };
            proof {
                reveal_strlit("{");
                reveal_strlit("}");
                reveal_strlit("{{");
                reveal_strlit("}}");
                assert(single@ =~= seq![c]);
                assert(double@ =~= seq![c, c]);
            }
            let ghost base = res@;
            let k = j - i;
            if k == 2 {
                res.append(single);
            } else {
                let mut m: usize = 0;
                while m < k
                    invariant
                        m <= k,
                        double@ == seq![c, c],
                        res@ == base + repeat_char(c, (2 * m) as nat),
                    decreases k - m,
                {
                    res.append(double);
                    m = m + 1;
                    assert(res@ =~= base + repeat_char(c, (2 * m) as nat));
                }
            }
            assert(res@ =~= base + run_replacement(c, k as int));
            if k >= 3 && j < n {
                i = j + 1;
            } else {
                i = j;
            }
        } else {
            let mut j: usize = i + 1;
            while j < n && cs[j] != '{' && cs[j] != '}'
                invariant
                    n == cs@.len(),
                    i < j <= n,
                    forall|k: int| i <= k < j ==> !is_brace(#[trigger] cs@[k]),
                decreases n - j,
            {
                j = j + 1;
            }
            proof {
                lemma_plain_stretch(cs@, i as int, j as int);
            }
            res.append(source.substring_char(i, j));
            i = j;
        }
        assert(res@ + normalize_from(cs@, i as int) =~= normalize_from(cs@, 0));
    }
    assert(res@ =~= normalize_from(cs@, 0));
    res
}

} // verus!
