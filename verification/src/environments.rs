//! Variable environments, and the map type their snapshots are made of.
pub mod hash_map_environment;

use crate::types::{ExprV, Expression};
use vstd::prelude::*;

verus! {

/// An ordered association of variable names to stored expressions.  This is
/// the value a `closure` snapshot hands over, and the building block of the
/// in-memory environment.
pub struct VarMap {
    entries: Vec<(String, Expression)>,
}

impl VarMap {
    /// The mapping this association list represents; a later entry for the
    /// same name would win, though well-formed maps hold each name once.
    pub closed spec fn as_map(&self) -> Map<Seq<char>, ExprV> {
        entries_map(self.entries@)
    }

    /// Each name appears at most once.
    pub closed spec fn wf(&self) -> bool {
        forall|i: int, j: int|
            0 <= i < j < self.entries@.len() ==> (#[trigger] self.entries@[i].0@) != (
            #[trigger] self.entries@[j].0@)
    }

    /// The empty association.
    pub fn new() -> (r: VarMap)
        ensures
            r.wf(),
            r.as_map() =~= Map::<Seq<char>, ExprV>::empty(),
    {
        VarMap { entries: Vec::new() }
    }

    /// The stored expression for `name`, if any.
    pub fn get(&self, name: &str) -> (r: Option<Expression>)
        requires
            self.wf(),
        ensures
            match r {
                Some(e) => self.as_map().contains_key(name@) && e.view() == self.as_map()[name@],
                None => !self.as_map().contains_key(name@),
            },
    {
        let mut i: usize = 0;
        while i < self.entries.len()
            invariant
                self.wf(),
                i <= self.entries@.len(),
                forall|j: int| 0 <= j < i ==> (#[trigger] self.entries@[j].0@) != name@,
            decreases self.entries@.len() - i,
        {
            let key = name.to_owned();
            if self.entries[i].0 == key {
                let e = self.entries[i].1.duplicate();
                proof {
                    lemma_entries_map_at(self.entries@, i as int);
                }
                return Some(e);
            }
            i = i + 1;
        }
        proof {
            lemma_entries_map_absent(self.entries@, name@);
        }
        None
    }

    /// Binds `name` to `value`, replacing any earlier binding.
    pub fn insert(&mut self, name: &str, value: Expression)
        requires
            old(self).wf(),
        ensures
            final(self).wf(),
            final(self).as_map() =~= old(self).as_map().insert(name@, value.view()),
    {
        let ghost pre = self.entries@;
        let mut i: usize = 0;
        while i < self.entries.len()
            invariant
                self.entries@ == pre,
                pre == old(self).entries@,
                old(self).wf(),
                i <= pre.len(),
                forall|j: int| 0 <= j < i ==> (#[trigger] pre[j].0@) != name@,
            decreases pre.len() - i,
        {
            let key = name.to_owned();
            if self.entries[i].0 == key {
                self.entries.set(i, (key, value));
                proof {
                    lemma_entries_map_replace(pre, self.entries@, i as int, name@, value.view());
                }
                return ;
            }
            i = i + 1;
        }
        let key = name.to_owned();
        self.entries.push((key, value));
        proof {
            assert(self.entries@.drop_last() =~= pre);
            lemma_entries_map_absent(pre, name@);
            let post = self.entries@;
            assert forall|a: int, b: int| 0 <= a < b < post.len() implies (#[trigger] post[a].0@)
                != (#[trigger] post[b].0@) by {
                if b < post.len() - 1 {
                    assert(post[a] == pre[a] && post[b] == pre[b]);
                } else {
                    assert(post[a] == pre[a] && post[b].0@ == name@);
                }
            }
        }
    }

    /// A copy of this association, mapping the same names to expressions
    /// with the same views.
    pub fn duplicate(&self) -> (r: VarMap)
        requires
            self.wf(),
        ensures
            r.wf(),
            r.as_map() =~= self.as_map(),
    {
        let mut entries: Vec<(String, Expression)> = Vec::new();
        let mut i: usize = 0;
        while i < self.entries.len()
            invariant
                i <= self.entries@.len(),
                entries@.len() == i as int,
                forall|j: int| 0 <= j < i ==> (#[trigger] entries@[j].0@) == self.entries@[j].0@,
                forall|j: int|
                    0 <= j < i ==> (#[trigger] entries@[j].1.view()) == self.entries@[j].1.view(),
            decreases self.entries@.len() - i,
        {
            let name = self.entries[i].0.clone();
            let value = self.entries[i].1.duplicate();
            entries.push((name, value));
            i = i + 1;
        }
        let r = VarMap { entries };
        proof {
            lemma_entries_map_congruence(r.entries@, self.entries@);
            lemma_unique_names_congruence(r.entries@, self.entries@);
        }
        r
    }

    /// The number of bindings held.
    pub fn len(&self) -> (n: usize)
        ensures
            n == self.entry_count(),
    {
        self.entries.len()
    }

    /// The number of entries in the association list.
    pub closed spec fn entry_count(&self) -> nat {
        self.entries@.len()
    }

    /// The name and expression of the entry at `i`, in insertion order.
    pub fn entry_at(&self, i: usize) -> (r: (&String, &Expression))
        requires
            i < self.entry_count(),
        ensures
            self.wf() ==> self.as_map().contains_key(r.0@) && self.as_map()[r.0@] == r.1.view(),
    {
        proof {
            if self.wf() {
                lemma_entries_map_at(self.entries@, i as int);
            }
        }
        (&self.entries[i].0, &self.entries[i].1)
    }
}

/// The mapping an entry sequence represents, later entries winning.
pub closed spec fn entries_map(s: Seq<(String, Expression)>) -> Map<Seq<char>, ExprV>
    decreases s.len(),
{
    if s.len() == 0 {
        Map::empty()
    } else {
        entries_map(s.drop_last()).insert(s.last().0@, s.last().1.view())
    }
}

/// No entry carries `name`, so the map has no key `name`.
proof fn lemma_entries_map_absent(s: Seq<(String, Expression)>, name: Seq<char>)
    requires
        forall|j: int| 0 <= j < s.len() ==> (#[trigger] s[j].0@) != name,
    ensures
        !entries_map(s).contains_key(name),
    decreases s.len(),
{
    if s.len() > 0 {
        assert forall|j: int| 0 <= j < s.drop_last().len() implies (#[trigger] s.drop_last()[j].0@)
            != name by {
            assert(s.drop_last()[j] == s[j]);
        }
        lemma_entries_map_absent(s.drop_last(), name);
        assert(s.last() == s[s.len() - 1]);
    }
}

/// Replacing the entry at `i` (the only one with `name`) updates the map at
/// `name` alone.
proof fn lemma_entries_map_replace(
    pre: Seq<(String, Expression)>,
    post: Seq<(String, Expression)>,
    i: int,
    name: Seq<char>,
    v: ExprV,
)
    requires
        0 <= i < pre.len(),
        post.len() == pre.len(),
        forall|j: int| 0 <= j < pre.len() && j != i ==> post[j] == pre[j],
        post[i].0@ == name && post[i].1.view() == v,
        pre[i].0@ == name,
        forall|a: int, b: int|
            0 <= a < b < pre.len() ==> (#[trigger] pre[a].0@) != (#[trigger] pre[b].0@),
    ensures
        forall|a: int, b: int|
            0 <= a < b < post.len() ==> (#[trigger] post[a].0@) != (#[trigger] post[b].0@),
        entries_map(post) =~= entries_map(pre).insert(name, v),
    decreases pre.len(),
{
    if pre.len() > 0 {
        if i == pre.len() - 1 {
            assert(post.drop_last() =~= pre.drop_last());
            assert forall|j: int| 0 <= j < pre.drop_last().len() implies (
            #[trigger] pre.drop_last()[j].0@) != name by {
                assert(pre.drop_last()[j] == pre[j]);
                assert(pre[j].0@ != pre[i].0@);
            }
            lemma_entries_map_absent(pre.drop_last(), name);
        } else {
            lemma_entries_map_replace(pre.drop_last(), post.drop_last(), i, name, v);
            assert(post.last() == pre.last());
            assert(entries_map(post) =~= entries_map(pre).insert(name, v)) by {
                assert(pre.last().0@ != name) by {
                    assert(pre[i].0@ == name);
                    assert(pre[pre.len() - 1].0@ != pre[i].0@);
                }
            }
        }
    }
}


/// Unique names carry over to an entry sequence with the same names.
proof fn lemma_unique_names_congruence(a: Seq<(String, Expression)>, b: Seq<(String, Expression)>)
    requires
        a.len() == b.len(),
        forall|j: int| 0 <= j < a.len() ==> (#[trigger] a[j].0@) == b[j].0@,
        forall|x: int, y: int|
            0 <= x < y < b.len() ==> (#[trigger] b[x].0@) != (#[trigger] b[y].0@),
    ensures
        forall|x: int, y: int|
            0 <= x < y < a.len() ==> (#[trigger] a[x].0@) != (#[trigger] a[y].0@),
{
    assert forall|x: int, y: int| 0 <= x < y < a.len() implies (#[trigger] a[x].0@) != (
    #[trigger] a[y].0@) by {
        assert(a[x].0@ == b[x].0@);
        assert(a[y].0@ == b[y].0@);
    }
}

/// Entry sequences equal name-by-name and view-by-view represent the same
/// map.
proof fn lemma_entries_map_congruence(a: Seq<(String, Expression)>, b: Seq<(String, Expression)>)
    requires
        a.len() == b.len(),
        forall|j: int| 0 <= j < a.len() ==> (#[trigger] a[j].0@) == b[j].0@,
        forall|j: int| 0 <= j < a.len() ==> (#[trigger] a[j].1.view()) == b[j].1.view(),
    ensures
        entries_map(a) =~= entries_map(b),
    decreases a.len(),
{
    if a.len() > 0 {
        assert(a.drop_last().len() == b.drop_last().len());
        assert forall|j: int| 0 <= j < a.drop_last().len() implies (#[trigger] a.drop_last()[j].0@)
            == b.drop_last()[j].0@ by {
            assert(a.drop_last()[j] == a[j]);
            assert(b.drop_last()[j] == b[j]);
            assert(a[j].1.view() == b[j].1.view());
        }
        assert forall|j: int|
            0 <= j < a.drop_last().len() implies (#[trigger] a.drop_last()[j].1.view())
            == b.drop_last()[j].1.view() by {
            assert(a.drop_last()[j] == a[j]);
            assert(b.drop_last()[j] == b[j]);
            assert(a[j].0@ == b[j].0@);
        }
        lemma_entries_map_congruence(a.drop_last(), b.drop_last());
    }
}

/// A well-formed entry at `i` is what the map holds for its name.
proof fn lemma_entries_map_at(s: Seq<(String, Expression)>, i: int)
    requires
        0 <= i < s.len(),
        forall|a: int, b: int|
            0 <= a < b < s.len() ==> (#[trigger] s[a].0@) != (#[trigger] s[b].0@),
    ensures
        entries_map(s).contains_key(s[i].0@),
        entries_map(s)[s[i].0@] == s[i].1.view(),
    decreases s.len(),
{
    assert(s.last() == s[s.len() - 1]);
    if i < s.len() - 1 {
        assert forall|a: int, b: int|
            0 <= a < b < s.drop_last().len() implies (#[trigger] s.drop_last()[a].0@) != (
        #[trigger] s.drop_last()[b].0@) by {
            assert(s.drop_last()[a] == s[a]);
            assert(s.drop_last()[b] == s[b]);
        }
        lemma_entries_map_at(s.drop_last(), i);
        assert(s.drop_last()[i] == s[i]);
        assert(s[s.len() - 1].0@ != s[i].0@);
    }
}

} // verus!
