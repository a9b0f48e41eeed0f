//! Scope names and the program store.
use vstd::prelude::*;

use crate::value::{view_value, ConstrainedValue, Val};

verus! {

/// The name of `name` inside `scope`: the scope's segments followed by `name`.
pub fn new_scope(scope: &Vec<u32>, name: u32) -> (r: Vec<u32>)
    ensures
        r@ == scope@.push(name),
{
    let mut r: Vec<u32> = Vec::new();
    let mut i: usize = 0;
    while i < scope.len()
        invariant
            0 <= i <= scope.len(),
            r@ == scope@.subrange(0, i as int),
        decreases scope.len() - i,
    {
        r.push(scope[i]);
        i = i + 1;
        assert(r@ =~= scope@.subrange(0, i as int));
    }
    assert(scope@.subrange(0, scope.len() as int) =~= scope@);
    r.push(name);
    r
}

/// Whether two scope names are the same.
pub fn same_name(a: &Vec<u32>, b: &Vec<u32>) -> (r: bool)
    ensures
        r == (a@ == b@),
{
    if a.len() != b.len() {
        return false;
    }
    let mut i: usize = 0;
    while i < a.len()
        invariant
            0 <= i <= a.len(),
            a.len() == b.len(),
            a@.subrange(0, i as int) == b@.subrange(0, i as int),
        decreases a.len() - i,
    {
        if a[i] != b[i] {
            assert(a@[i as int] != b@[i as int]);
            return false;
        }
        i = i + 1;
        assert(a@.subrange(0, i as int) =~= a@.subrange(0, i - 1).push(a@[i - 1]));
        assert(b@.subrange(0, i as int) =~= b@.subrange(0, i - 1).push(b@[i - 1]));
    }
    assert(a@ =~= a@.subrange(0, i as int));
    assert(b@ =~= b@.subrange(0, i as int));
    true
}

/// The bindings as a map: a later binding of a name hides an earlier one.
pub open spec fn bindings_map(s: Seq<(Vec<u32>, ConstrainedValue)>) -> Map<Seq<u32>, Val>
    decreases s.len(),
{
    if s.len() == 0 {
        Map::empty()
    } else {
        bindings_map(s.drop_last()).insert(s.last().0@, view_value(s.last().1))
    }
}

proof fn lemma_bindings_prefix(s: Seq<(Vec<u32>, ConstrainedValue)>, i: int, k: Seq<u32>)
    requires
        0 <= i <= s.len(),
        forall|j: int| i <= j < s.len() ==> (#[trigger] s[j]).0@ != k,
    ensures
        bindings_map(s).contains_key(k) == bindings_map(s.subrange(0, i)).contains_key(k),
        bindings_map(s)[k] == bindings_map(s.subrange(0, i))[k],
    decreases s.len() - i,
{
    if i < s.len() {
        lemma_bindings_prefix(s.drop_last(), i, k);
        assert(s.drop_last().subrange(0, i) =~= s.subrange(0, i));
    } else {
        assert(s.subrange(0, i) =~= s);
    }
}

/// Every binding of the program, keyed by scope name.
pub struct ProgramStore {
    pub bindings: Vec<(Vec<u32>, ConstrainedValue)>,
}

impl View for ProgramStore {
    type V = Map<Seq<u32>, Val>;

    open spec fn view(&self) -> Map<Seq<u32>, Val> {
        bindings_map(self.bindings@)
    }
}

impl ProgramStore {
    pub fn new() -> (r: ProgramStore)
        ensures
            r@ == Map::<Seq<u32>, Val>::empty(),
    {
        ProgramStore { bindings: Vec::new() }
    }

    /// Binds `name` to `value`, hiding any earlier binding of it.
    pub fn store(&mut self, name: Vec<u32>, value: ConstrainedValue)
        ensures
            final(self)@ == old(self)@.insert(name@, value@),
    {
        self.bindings.push((name, value));
        assert(self.bindings@.drop_last() =~= old(self).bindings@);
    }

    /// A copy of the value bound to `name`, if any.
    pub fn get(&self, name: &Vec<u32>) -> (r: Option<ConstrainedValue>)
        ensures
            match r {
                Some(v) => self@.contains_key(name@) && v@ == self@[name@],
                None => !self@.contains_key(name@),
            },
    {
        let mut i: usize = self.bindings.len();
        while i > 0
            invariant
                0 <= i <= self.bindings.len(),
                forall|j: int| i <= j < self.bindings@.len() ==> (#[trigger] self.bindings@[j]).0@ != name@,
            decreases i,
        {
            if same_name(&self.bindings[i - 1].0, name) {
                proof {
                    lemma_bindings_prefix(self.bindings@, i as int, name@);
                    assert(self.bindings@.subrange(0, i as int).drop_last() =~= self.bindings@.subrange(
                        0,
                        i - 1,
                    ));
                }
                return Some(self.bindings[i - 1].1.duplicate());
            }
            i = i - 1;
        }
        proof {
            lemma_bindings_prefix(self.bindings@, 0, name@);
            assert(self.bindings@.subrange(0, 0) =~= Seq::<(Vec<u32>, ConstrainedValue)>::empty());
        }
        None
    }
}

} // verus!
