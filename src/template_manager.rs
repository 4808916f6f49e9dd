//! A registry of template sources by path or name.
use vstd::prelude::*;

verus! {

broadcast use vstd::seq::group_seq_axioms;

/// Why a template could not be had.
#[derive(Debug, PartialEq, Eq, Clone, Copy, Structural)]
pub enum TemplateManagerError {
    TemplateNotFound,
}

/// Template sources by path or name. A source added under a path that is already known
/// replaces the earlier one.
pub struct TemplateManager {
    templates: Vec<(String, String)>,
}

/// The map that a list of `(path, source)` entries describes, a later entry for a path
/// taking the place of an earlier one.
pub open spec fn entries_map(s: Seq<(Seq<char>, Seq<char>)>) -> Map<Seq<char>, Seq<char>>
    decreases s.len(),
{
    if s.len() == 0 {
        Map::empty()
    } else {
        entries_map(s.drop_last()).insert(s.last().0, s.last().1)
    }
}

/// Entries from `j` on that hold no path `k` leave the map at `k` as the first `j`
/// entries made it.
proof fn lemma_entries_map_suffix(s: Seq<(Seq<char>, Seq<char>)>, j: int, k: Seq<char>)
    requires
        0 <= j <= s.len(),
        forall|m: int| j <= m < s.len() ==> (#[trigger] s[m]).0 != k,
    ensures
        entries_map(s).contains_key(k) == entries_map(s.take(j)).contains_key(k),
        entries_map(s).contains_key(k) ==> entries_map(s)[k] == entries_map(s.take(j))[k],
    decreases s.len() - j,
{
    if j < s.len() {
        let t = s.drop_last();
        assert(forall|m: int| j <= m < t.len() ==> (#[trigger] t[m]).0 != k) by {
            assert forall|m: int| j <= m < t.len() implies (#[trigger] t[m]).0 != k by {
                assert(t[m] == s[m]);
            }
        }
        lemma_entries_map_suffix(t, j, k);
        assert(t.take(j) =~= s.take(j));
    } else {
        assert(s.take(j) =~= s);
    }
}

impl View for TemplateManager {
    type V = Map<Seq<char>, Seq<char>>;

    closed spec fn view(&self) -> Map<Seq<char>, Seq<char>> {
        entries_map(self.templates.deep_view())
    }
}

impl Default for TemplateManager {
    fn default() -> (r: Self)
        ensures
            r@ == Map::<Seq<char>, Seq<char>>::empty(),
    {
        let r = TemplateManager { templates: Vec::new() };
        assert(r.templates.deep_view() =~= Seq::<(Seq<char>, Seq<char>)>::empty());
        r
    }
}

impl TemplateManager {
    /// Registers `template` under `path`.
    pub fn add(&mut self, path: String, template: String)
        ensures
            final(self)@ == old(self)@.insert(path@, template@),
    {
        let ghost before = self.templates.deep_view();
        self.templates.push((path, template));
        assert(self.templates.deep_view().drop_last() =~= before);
    }

    /// The source registered under `path`, or `TemplateNotFound` when there is none.
    pub fn get(&mut self, path: &str) -> (r: Result<String, TemplateManagerError>)
        ensures
            *final(self) == *old(self),
            match r {
                Ok(t) => old(self)@.contains_key(path@) && t@ == old(self)@[path@],
                Err(e) => {
                    &&& !old(self)@.contains_key(path@)
                    &&& e == TemplateManagerError::TemplateNotFound
                },
            },
    {
        let key = String::from_str(path);
        let ghost s = self.templates.deep_view();
        let mut j = self.templates.len();
        while j > 0
            invariant
                j <= self.templates@.len(),
                s == self.templates.deep_view(),
                key@ == path@,
                forall|m: int| j <= m < s.len() ==> (#[trigger] s[m]).0 != path@,
            decreases j,
        {
            if self.templates[j - 1].0 == key {
                proof {
                    lemma_entries_map_suffix(s, j as int, path@);
                    assert(s.take(j as int).drop_last() =~= s.take(j - 1));
                }
                return Ok(String::from_str(self.templates[j - 1].1.as_str()));
            }
            j = j - 1;
        }
        proof {
            lemma_entries_map_suffix(s, 0, path@);
            assert(s.take(0) =~= Seq::<(Seq<char>, Seq<char>)>::empty());
        }
        Err(TemplateManagerError::TemplateNotFound)
    }
}

} // verus!
