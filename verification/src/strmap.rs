//! A string-keyed associative map kept as a vector of entries with
//! pairwise-distinct keys, viewed as a `Map<Seq<char>, V>`.

use vstd::prelude::*;

verus! {

broadcast use vstd::seq::axiom_seq_index_decreases;

pub struct StrMap<V> {
    entries: Vec<(String, V)>,
}

/// The map a list of entries stands for; later entries win.
pub open spec fn spec_assoc_view<V>(entries: Seq<(String, V)>) -> Map<Seq<char>, V>
    decreases entries.len(),
{
    if entries.len() == 0 {
        Map::empty()
    } else {
        spec_assoc_view(entries.drop_last()).insert(entries.last().0@, entries.last().1)
    }
}

/// Entry keys are pairwise distinct.
pub open spec fn spec_assoc_wf<V>(entries: Seq<(String, V)>) -> bool {
    forall|i: int, j: int| 0 <= i < j < entries.len() ==> entries[i].0@ != entries[j].0@
}

pub proof fn lemma_assoc_dom<V>(entries: Seq<(String, V)>, k: Seq<char>)
    ensures
        spec_assoc_view(entries).dom().contains(k) <==> exists|i: int|
            0 <= i < entries.len() && entries[i].0@ == k,
    decreases entries.len(),
{
    if entries.len() == 0 {
    } else {
        lemma_assoc_dom(entries.drop_last(), k);
        if spec_assoc_view(entries).dom().contains(k) {
            if entries.last().0@ == k {
                assert(entries[entries.len() - 1].0@ == k);
            } else {
                let i = choose|i: int|
                    0 <= i < entries.drop_last().len() && entries.drop_last()[i].0@ == k;
                assert(entries[i].0@ == k);
            }
        }
        if exists|i: int| 0 <= i < entries.len() && entries[i].0@ == k {
            let i = choose|i: int| 0 <= i < entries.len() && entries[i].0@ == k;
            if i < entries.len() - 1 {
                assert(entries.drop_last()[i].0@ == k);
            }
        }
    }
}

pub proof fn lemma_assoc_wf_prefix<V>(entries: Seq<(String, V)>)
    requires
        spec_assoc_wf(entries),
        entries.len() > 0,
    ensures
        spec_assoc_wf(entries.drop_last()),
{
    assert(forall|a: int, b: int|
        0 <= a < b < entries.drop_last().len() ==> entries.drop_last()[a].0@
            != entries.drop_last()[b].0@);
}

pub proof fn lemma_assoc_get<V>(entries: Seq<(String, V)>, i: int)
    requires
        spec_assoc_wf(entries),
        0 <= i < entries.len(),
    ensures
        spec_assoc_view(entries).dom().contains(entries[i].0@),
        spec_assoc_view(entries)[entries[i].0@] == entries[i].1,
    decreases entries.len(),
{
    if i == entries.len() - 1 {
    } else {
        lemma_assoc_wf_prefix(entries);
        lemma_assoc_get(entries.drop_last(), i);
        assert(entries.drop_last()[i] == entries[i]);
        assert(entries.last().0@ != entries[i].0@);
    }
}

pub proof fn lemma_assoc_update<V>(entries: Seq<(String, V)>, i: int, e: (String, V))
    requires
        spec_assoc_wf(entries),
        0 <= i < entries.len(),
        e.0@ == entries[i].0@,
    ensures
        spec_assoc_view(entries.update(i, e)) == spec_assoc_view(entries).insert(e.0@, e.1),
    decreases entries.len(),
{
    let upd = entries.update(i, e);
    if i == entries.len() - 1 {
        assert(upd.drop_last() =~= entries.drop_last());
        assert(spec_assoc_view(upd) =~= spec_assoc_view(entries).insert(e.0@, e.1));
    } else {
        lemma_assoc_wf_prefix(entries);
        assert(upd.drop_last() =~= entries.drop_last().update(i, e));
        lemma_assoc_update(entries.drop_last(), i, e);
        assert(upd.last() == entries.last());
        assert(entries.last().0@ != e.0@);
        assert(spec_assoc_view(upd) =~= spec_assoc_view(entries).insert(e.0@, e.1));
    }
}

pub proof fn lemma_assoc_remove<V>(entries: Seq<(String, V)>, i: int)
    requires
        spec_assoc_wf(entries),
        0 <= i < entries.len(),
    ensures
        spec_assoc_view(entries.remove(i)) == spec_assoc_view(entries).remove(entries[i].0@),
    decreases entries.len(),
{
    let rem = entries.remove(i);
    if i == entries.len() - 1 {
        assert(rem =~= entries.drop_last());
        lemma_assoc_dom(entries.drop_last(), entries[i].0@);
        assert(spec_assoc_view(entries.drop_last()) =~= spec_assoc_view(entries).remove(
            entries[i].0@,
        ));
    } else {
        lemma_assoc_wf_prefix(entries);
        assert(rem.drop_last() =~= entries.drop_last().remove(i));
        lemma_assoc_remove(entries.drop_last(), i);
        assert(rem.last() == entries.last());
        assert(entries.last().0@ != entries[i].0@);
        assert(spec_assoc_view(rem) =~= spec_assoc_view(entries).remove(entries[i].0@));
    }
}

pub proof fn lemma_assoc_push<V>(entries: Seq<(String, V)>, e: (String, V))
    ensures
        spec_assoc_view(entries.push(e)) == spec_assoc_view(entries).insert(e.0@, e.1),
{
    assert(entries.push(e).drop_last() =~= entries);
    assert(entries.push(e).last() == e);
}

impl<V> View for StrMap<V> {
    type V = Map<Seq<char>, V>;

    closed spec fn view(&self) -> Map<Seq<char>, V> {
        spec_assoc_view(self.entries@)
    }
}

impl<V> StrMap<V> {
    pub closed spec fn wf(&self) -> bool {
        spec_assoc_wf(self.entries@)
    }

    /// The entries in insertion order; its keys are the view's domain.
    pub closed spec fn seq_view(&self) -> Seq<(String, V)> {
        self.entries@
    }

    pub proof fn lemma_seq_view(&self)
        requires
            self.wf(),
        ensures
            spec_assoc_wf(self.seq_view()),
            spec_assoc_view(self.seq_view()) == self@,
            forall|i: int|
                0 <= i < self.seq_view().len() ==> self@.dom().contains(
                    #[trigger] self.seq_view()[i].0@,
                ) && self@[self.seq_view()[i].0@] == self.seq_view()[i].1,
            forall|k: Seq<char>|
                self@.dom().contains(k) ==> exists|i: int|
                    0 <= i < self.seq_view().len() && #[trigger] self.seq_view()[i].0@ == k,
    {
        assert forall|i: int| 0 <= i < self.seq_view().len() implies self@.dom().contains(
            #[trigger] self.seq_view()[i].0@,
        ) && self@[self.seq_view()[i].0@] == self.seq_view()[i].1 by {
            lemma_assoc_get(self.entries@, i);
        }
        assert forall|k: Seq<char>| self@.dom().contains(k) implies exists|i: int|
            0 <= i < self.seq_view().len() && #[trigger] self.seq_view()[i].0@ == k by {
            lemma_assoc_dom(self.entries@, k);
            let i = choose|i: int| 0 <= i < self.entries@.len() && self.entries@[i].0@ == k;
            assert(self.seq_view()[i].0@ == k);
        }
    }

    pub fn new() -> (r: StrMap<V>)
        ensures
            r.wf(),
            r@ == Map::<Seq<char>, V>::empty(),
            r.seq_view() == Seq::<(String, V)>::empty(),
    {
        let m = StrMap { entries: Vec::new() };
        proof {
            assert(m.entries@ =~= Seq::<(String, V)>::empty());
            assert(m@ =~= Map::<Seq<char>, V>::empty());
        }
        m
    }

    pub fn len(&self) -> (r: usize)
        ensures
            r == self.seq_view().len(),
    {
        self.entries.len()
    }

    /// The entry at a position of the insertion order.
    pub fn at(&self, i: usize) -> (r: &(String, V))
        requires
            i < self.seq_view().len(),
        ensures
            *r == self.seq_view()[i as int],
    {
        &self.entries[i]
    }

    fn find(&self, key: &str) -> (r: Option<usize>)
        ensures
            match r {
                Option::Some(i) => i < self.entries@.len() && self.entries@[i as int].0@ == key@,
                Option::None => forall|j: int|
                    0 <= j < self.entries@.len() ==> self.entries@[j].0@ != key@,
            },
    {
        let mut i: usize = 0;
        while i < self.entries.len()
            invariant
                i <= self.entries@.len(),
                forall|j: int| 0 <= j < i ==> self.entries@[j].0@ != key@,
            decreases self.entries@.len() - i,
        {
            if crate::meta::str_eq(self.entries[i].0.as_str(), key) {
                return Some(i);
            }
            i = i + 1;
        }
        None
    }

    /// Binds `key` to `value`, replacing any earlier binding.
    pub fn insert(&mut self, key: String, value: V)
        requires
            old(self).wf(),
        ensures
            final(self).wf(),
            final(self)@ == old(self)@.insert(key@, value),
    {
        match self.find(key.as_str()) {
            Some(i) => {
                proof {
                    lemma_assoc_update(self.entries@, i as int, (key, value));
                }
                self.entries.set(i, (key, value));
            },
            None => {
                proof {
                    lemma_assoc_push(self.entries@, (key, value));
                }
                self.entries.push((key, value));
            },
        }
    }

    /// Removes the binding of `key`, returning its value.
    pub fn remove(&mut self, key: &str) -> (r: Option<V>)
        requires
            old(self).wf(),
        ensures
            final(self).wf(),
            match r {
                Option::Some(v) => old(self)@.dom().contains(key@) && v == old(self)@[key@]
                    && final(self)@ == old(self)@.remove(key@),
                Option::None => !old(self)@.dom().contains(key@) && *final(self) == *old(self),
            },
    {
        proof {
            lemma_assoc_dom(self.entries@, key@);
        }
        match self.find(key) {
            Some(i) => {
                proof {
                    lemma_assoc_get(self.entries@, i as int);
                    lemma_assoc_remove(self.entries@, i as int);
                }
                let entry = self.entries.remove(i);
                Some(entry.1)
            },
            None => None,
        }
    }

    /// The value bound to `key`, if any.
    pub fn get(&self, key: &str) -> (r: Option<&V>)
        requires
            self.wf(),
        ensures
            match r {
                Option::Some(v) => self@.dom().contains(key@) && *v == self@[key@],
                Option::None => !self@.dom().contains(key@),
            },
    {
        proof {
            lemma_assoc_dom(self.entries@, key@);
        }
        match self.find(key) {
            Some(i) => {
                proof {
                    lemma_assoc_get(self.entries@, i as int);
                }
                Some(&self.entries[i].1)
            },
            None => None,
        }
    }

    pub fn contains_key(&self, key: &str) -> (r: bool)
        requires
            self.wf(),
        ensures
            r == self@.dom().contains(key@),
    {
        match self.get(key) {
            Some(_) => true,
            None => false,
        }
    }

    /// The keys, in insertion order.
    pub fn keys(&self) -> (r: Vec<String>)
        requires
            self.wf(),
        ensures
            r@.len() == self.seq_view().len(),
            forall|i: int| 0 <= i < r@.len() ==> r@[i]@ == self.seq_view()[i].0@,
    {
        let mut r: Vec<String> = Vec::new();
        let mut i: usize = 0;
        while i < self.entries.len()
            invariant
                i <= self.entries@.len(),
                r@.len() == i,
                forall|j: int| 0 <= j < i ==> r@[j]@ == self.entries@[j].0@,
            decreases self.entries@.len() - i,
        {
            let k = self.entries[i].0.clone();
            let ghost gk = k@;
            let ghost old_r = r@;
            r.push(k);
            proof {
                assert(r@[i as int]@ == gk);
                assert(forall|j: int| 0 <= j < i ==> r@[j] == old_r[j]);
            }
            i = i + 1;
        }
        r
    }
}

} // verus!
