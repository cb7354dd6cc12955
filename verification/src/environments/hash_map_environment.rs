//! The in-memory environment: a two-level association of scope keys to
//! variable maps.
use crate::environments::VarMap;
use crate::types::{Context, Environment, ExprV, Expression, scope_of};
use vstd::prelude::*;
use vstd::string::StringExecFns;

verus! {

/// A store of variables that lives for the process only.  Scopes appear
/// when first written to; reading an absent scope or name is not an error.
pub struct HashMapEnvironment {
    env: Vec<(String, VarMap)>,
}

/// The nested mapping a scope entry sequence represents, later entries
/// winning.
pub closed spec fn scopes_map(s: Seq<(String, VarMap)>) -> Map<Seq<char>, Map<Seq<char>, ExprV>>
    decreases s.len(),
{
    if s.len() == 0 {
        Map::empty()
    } else {
        scopes_map(s.drop_last()).insert(s.last().0@, s.last().1.as_map())
    }
}

/// No entry carries `key`, so the nested map has no such key.
proof fn lemma_scopes_absent(s: Seq<(String, VarMap)>, key: Seq<char>)
    requires
        forall|j: int| 0 <= j < s.len() ==> (#[trigger] s[j].0@) != key,
    ensures
        !scopes_map(s).contains_key(key),
    decreases s.len(),
{
    if s.len() > 0 {
        assert forall|j: int| 0 <= j < s.drop_last().len() implies (#[trigger] s.drop_last()[j].0@)
            != key by {
            assert(s.drop_last()[j] == s[j]);
        }
        lemma_scopes_absent(s.drop_last(), key);
        assert(s.last() == s[s.len() - 1]);
    }
}

/// With unique keys, the entry at `i` is what the nested map holds for its
/// key.
proof fn lemma_scopes_at(s: Seq<(String, VarMap)>, i: int)
    requires
        0 <= i < s.len(),
        forall|a: int, b: int|
            0 <= a < b < s.len() ==> (#[trigger] s[a].0@) != (#[trigger] s[b].0@),
    ensures
        scopes_map(s).contains_key(s[i].0@),
        scopes_map(s)[s[i].0@] == s[i].1.as_map(),
    decreases s.len(),
{
    assert(s.last() == s[s.len() - 1]);
    if i < s.len() - 1 {
        assert forall|a: int, b: int|
            0 <= a < b < s.drop_last().len() implies (#[trigger] s.drop_last()[a].0@) != (
        #[trigger] s.drop_last()[b].0@) by {
            assert(s.drop_last()[a] == s[a]);
            assert(s.drop_last()[b] == s[b]);
        }
        lemma_scopes_at(s.drop_last(), i);
        assert(s.drop_last()[i] == s[i]);
        assert(s[s.len() - 1].0@ != s[i].0@);
    }
}

impl HashMapEnvironment {
    /// Each scope key appears at most once, and each scope is well formed.
    pub closed spec fn wf(&self) -> bool {
        &&& forall|i: int, j: int|
            0 <= i < j < self.env@.len() ==> (#[trigger] self.env@[i].0@) != (
            #[trigger] self.env@[j].0@)
        &&& forall|i: int| 0 <= i < self.env@.len() ==> (#[trigger] self.env@[i].1).wf()
    }

    /// An empty store.
    pub fn new() -> (r: HashMapEnvironment)
        ensures
            r.inv(),
            r.closure_total(),
            r.scopes() =~= Map::<Seq<char>, Map<Seq<char>, ExprV>>::empty(),
    {
        HashMapEnvironment { env: Vec::new() }
    }

    /// A store holding `values` under `ctx`'s user key and nothing else:
    /// the fresh environment a template call runs its body in.
    pub fn from_context_and_initial_values<C: Context>(ctx: &C, values: VarMap) -> (r:
        HashMapEnvironment)
        requires
            values.wf(),
        ensures
            r.inv(),
            r.closure_total(),
            r.scopes() =~= Map::<Seq<char>, Map<Seq<char>, ExprV>>::empty().insert(
                ctx.user_key(),
                values.as_map(),
            ),
    {
        let key = ctx.user_context_key();
        let mut env: Vec<(String, VarMap)> = Vec::new();
        env.push((key, values));
        let r = HashMapEnvironment { env };
        proof {
            let s0 = r.env@;
            assert(s0.len() == 1);
            assert(s0.drop_last() =~= Seq::<(String, VarMap)>::empty());
            assert(scopes_map(s0.drop_last()) =~= Map::<Seq<char>, Map<Seq<char>, ExprV>>::empty());
            assert(s0.last().0@ == ctx.user_key());
            assert(s0.last().1.as_map() == values.as_map());
            assert(scopes_map(s0) == scopes_map(s0.drop_last()).insert(
                s0.last().0@,
                s0.last().1.as_map(),
            ));
        }
        r
    }

    /// The index of the scope entry for `key`, if present.
    fn find_scope(&self, key: &String) -> (r: Option<usize>)
        requires
            self.wf(),
        ensures
            match r {
                Some(i) => i < self.env@.len() && self.env@[i as int].0@ == key@
                    && self.scopes().contains_key(key@) && self.scopes()[key@]
                    == self.env@[i as int].1.as_map(),
                None => !self.scopes().contains_key(key@),
            },
    {
        let mut i: usize = 0;
        while i < self.env.len()
            invariant
                self.wf(),
                i <= self.env@.len(),
                forall|j: int| 0 <= j < i ==> (#[trigger] self.env@[j].0@) != key@,
            decreases self.env@.len() - i,
        {
            if self.env[i].0 == *key {
                proof {
                    lemma_scopes_at(self.env@, i as int);
                }
                return Some(i);
            }
            i = i + 1;
        }
        proof {
            lemma_scopes_absent(self.env@, key@);
        }
        None
    }
}

impl Environment for HashMapEnvironment {
    closed spec fn inv(&self) -> bool {
        self.wf()
    }

    closed spec fn scopes(&self) -> Map<Seq<char>, Map<Seq<char>, ExprV>> {
        scopes_map(self.env@)
    }

    closed spec fn closure_total(&self) -> bool {
        true
    }

    fn get<C: Context>(&self, ctx: &C, var_name: &str) -> (r: Option<Expression>) {
        let key = ctx.user_context_key();
        match self.find_scope(&key) {
            Some(i) => self.env[i].1.get(var_name),
            None => None,
        }
    }

    fn set<C: Context>(&mut self, ctx: &C, var_name: &str, value: &Expression) {
        let key = ctx.user_context_key();
        let ghost pre = self.env@;
        match self.find_scope(&key) {
            Some(i) => {
                // Take the scope out, update it, and put it back in place.
                let mut slot = self.env.remove(i);
                slot.1.insert(var_name, value.duplicate());
                self.env.insert(i, slot);
                proof {
                    assert(self.env@.len() == pre.len());
                    assert(self.env@[i as int].0@ == key@);
                    assert forall|j: int|
                        0 <= j < pre.len() && j != i implies self.env@[j] == pre[j] by {}
                    lemma_scopes_replace(
                        pre,
                        self.env@,
                        i as int,
                        key@,
                        scope_of(scopes_map(pre), key@).insert(var_name@, value.view()),
                    );
                }
            },
            None => {
                let mut vm = VarMap::new();
                vm.insert(var_name, value.duplicate());
                self.env.push((key, vm));
                proof {
                    assert(self.env@.drop_last() =~= pre);
                    assert(scope_of(scopes_map(pre), ctx.user_key())
                        =~= Map::<Seq<char>, ExprV>::empty());
                    let post = self.env@;
                    assert(!scopes_map(pre).contains_key(key@));
                    assert forall|a: int, b: int|
                        0 <= a < b < post.len() implies (#[trigger] post[a].0@) != (
                    #[trigger] post[b].0@) by {
                        if b == post.len() - 1 {
                            assert(post[a] == pre[a]);
                            if post[a].0@ == key@ {
                                lemma_scopes_at(pre, a);
                            }
                        } else {
                            assert(post[a] == pre[a] && post[b] == pre[b]);
                        }
                    }
                }
            },
        }
    }

    fn print<C: Context>(&self, ctx: &C) -> (r: String) {
        let key = ctx.user_context_key();
        proof {
            reveal_strlit("{");
        }
        let mut s = String::from_str("{");
        match self.find_scope(&key) {
            Some(i) => {
                let vm = &self.env[i].1;
                let n = vm.len();
                let mut k: usize = 0;
                while k < n
                    invariant
                        n == vm.entry_count(),
                        self.wf(),
                        i < self.env@.len(),
                        vm == &self.env@[i as int].1,
                        s@.len() > 0,
                    decreases n - k,
                {
                    if k > 0 {
                        s.append(", ");
                    }
                    let (name, value) = vm.entry_at(k);
                    s.append("\"");
                    s.append(name.as_str());
                    s.append("\": ");
                    let rendered = crate::render::render_expression(value);
                    s.append(rendered.as_str());
                    k = k + 1;
                }
            },
            None => {},
        }
        s.append("}");
        proof {
            assert(s@.len() > 0);
        }
        s
    }

    fn closure<C: Context>(&self, ctx: &C) -> (r: Result<VarMap, ()>) {
        let key = ctx.user_context_key();
        match self.find_scope(&key) {
            Some(i) => Ok(self.env[i].1.duplicate()),
            None => Ok(VarMap::new()),
        }
    }
}

/// Replacing the scope entry at `i` (the only one with `key`) updates the
/// nested map at `key` alone.
proof fn lemma_scopes_replace(
    pre: Seq<(String, VarMap)>,
    post: Seq<(String, VarMap)>,
    i: int,
    key: Seq<char>,
    m: Map<Seq<char>, ExprV>,
)
    requires
        0 <= i < pre.len(),
        post.len() == pre.len(),
        forall|j: int| 0 <= j < pre.len() && j != i ==> post[j] == pre[j],
        post[i].0@ == key && post[i].1.as_map() == m,
        pre[i].0@ == key,
        forall|a: int, b: int|
            0 <= a < b < pre.len() ==> (#[trigger] pre[a].0@) != (#[trigger] pre[b].0@),
    ensures
        scopes_map(post) =~= scopes_map(pre).insert(key, m),
    decreases pre.len(),
{
    if pre.len() > 0 {
        if i == pre.len() - 1 {
            assert(post.drop_last() =~= pre.drop_last());
        } else {
            lemma_scopes_replace(pre.drop_last(), post.drop_last(), i, key, m);
            assert(post.last() == pre.last());
            assert(pre.last().0@ != key) by {
                assert(pre[i].0@ == key);
                assert(pre[pre.len() - 1].0@ != pre[i].0@);
            }
        }
    }
}

} // verus!
