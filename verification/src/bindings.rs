use vstd::prelude::*;

verus! {

/// The bindings that the entries `es` make, a later entry for a name
/// replacing an earlier one.
pub open spec fn bindings<V>(es: Seq<(String, V)>) -> Map<Seq<char>, V>
    decreases es.len(),
{
    if es.len() == 0 {
        Map::empty()
    } else {
        bindings(es.drop_last()).insert(es.last().0@, es.last().1)
    }
}

/// No name has two entries.
pub open spec fn distinct_names<V>(es: Seq<(String, V)>) -> bool {
    forall|i: int, j: int| 0 <= i < j < es.len() ==> es[i].0@ != es[j].0@
}

proof fn lemma_bindings_absent<V>(es: Seq<(String, V)>, k: Seq<char>)
    requires
        forall|i: int| 0 <= i < es.len() ==> es[i].0@ != k,
    ensures
        !bindings(es).contains_key(k),
    decreases es.len(),
{
    if es.len() > 0 {
        lemma_bindings_absent(es.drop_last(), k);
    }
}

proof fn lemma_bindings_present<V>(es: Seq<(String, V)>, i: int)
    requires
        distinct_names(es),
        0 <= i < es.len(),
    ensures
        bindings(es).contains_key(es[i].0@),
        bindings(es)[es[i].0@] == es[i].1,
    decreases es.len(),
{
    if i < es.len() - 1 {
        lemma_bindings_present(es.drop_last(), i);
    }
}

proof fn lemma_bindings_update<V>(es: Seq<(String, V)>, i: int, k: String, v: V)
    requires
        distinct_names(es),
        0 <= i < es.len(),
        es[i].0@ == k@,
    ensures
        bindings(es.update(i, (k, v))) == bindings(es).insert(k@, v),
    decreases es.len(),
{
    let es2 = es.update(i, (k, v));
    if i == es.len() - 1 {
        assert(es2.drop_last() =~= es.drop_last());
        lemma_bindings_absent(es.drop_last(), k@);
        assert(bindings(es2) =~= bindings(es).insert(k@, v));
    } else {
        lemma_bindings_update(es.drop_last(), i, k, v);
        assert(es2.drop_last() =~= es.drop_last().update(i, (k, v)));
        assert(bindings(es2) =~= bindings(es).insert(k@, v));
    }
}

/// A table of named bindings: each name bound to at most one value.
///
/// It is kept as a list of entries with distinct names rather than as a
/// `std::collections::HashMap<String, V>`: vstd specifies `HashMap` only for
/// key types known to hash and compare as their view does, which it grants
/// to primitive keys and not to `String`, and nothing in this crate may
/// assume it.
pub struct Bindings<V> {
    entries: Vec<(String, V)>,
}

impl<V> View for Bindings<V> {
    type V = Map<Seq<char>, V>;

    closed spec fn view(&self) -> Map<Seq<char>, V> {
        bindings(self.entries@)
    }
}

impl<V> Bindings<V> {
    pub closed spec fn wf(&self) -> bool {
        distinct_names(self.entries@)
    }

    /// The empty table.
    pub fn new() -> (s: Bindings<V>)
        ensures
            s.wf(),
            s@ == Map::<Seq<char>, V>::empty(),
    {
        Bindings { entries: Vec::new() }
    }

    fn find(&self, name: &String) -> (r: Option<usize>)
        requires
            self.wf(),
        ensures
            match r {
                Some(i) => i < self.entries@.len() && self.entries@[i as int].0@ == name@,
                None => forall|i: int| 0 <= i < self.entries@.len() ==> self.entries@[i].0@ != name@,
            },
    {
        let mut i: usize = 0;
        while i < self.entries.len()
            invariant
                i <= self.entries@.len(),
                forall|j: int| 0 <= j < i ==> self.entries@[j].0@ != name@,
            decreases self.entries.len() - i,
        {
            if self.entries[i].0 == *name {
                return Some(i);
            }
            i = i + 1;
        }
        None
    }

    /// Whether `name` is bound.
    pub fn contains_key(&self, name: &String) -> (r: bool)
        requires
            self.wf(),
        ensures
            r == self@.contains_key(name@),
    {
        match self.find(name) {
            Some(i) => {
                proof {
                    lemma_bindings_present(self.entries@, i as int);
                }
                true
            },
            None => {
                proof {
                    lemma_bindings_absent(self.entries@, name@);
                }
                false
            },
        }
    }

    /// The value bound to `name`, if any.
    pub fn get(&self, name: &String) -> (r: Option<&V>)
        requires
            self.wf(),
        ensures
            match r {
                Some(v) => self@.contains_key(name@) && *v == self@[name@],
                None => !self@.contains_key(name@),
            },
    {
        match self.find(name) {
            Some(i) => {
                proof {
                    lemma_bindings_present(self.entries@, i as int);
                }
                Some(&self.entries[i].1)
            },
            None => {
                proof {
                    lemma_bindings_absent(self.entries@, name@);
                }
                None
            },
        }
    }

    /// Binds `name` to `value`, replacing any earlier binding of it.
    pub fn insert(&mut self, name: String, value: V)
        requires
            old(self).wf(),
        ensures
            final(self).wf(),
            final(self)@ == old(self)@.insert(name@, value),
    {
        match self.find(&name) {
            Some(i) => {
                proof {
                    lemma_bindings_update(self.entries@, i as int, name, value);
                }
                self.entries.set(i, (name, value));
            },
            None => {
                self.entries.push((name, value));
                assert(self.entries@.drop_last() =~= old(self).entries@);
            },
        }
    }
}

} // verus!
