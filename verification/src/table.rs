use vstd::prelude::*;

use crate::text::str_eq;

verus! {

/// The key views of an association list's entries.
pub open spec fn keys_of<V: View>(s: Seq<(String, V)>) -> Seq<Seq<char>> {
    Seq::new(s.len(), |i: int| s[i].0@)
}

/// The map held by an association list: later entries win, though a
/// well-formed table never repeats a key.
pub open spec fn table_map_of<V: View>(s: Seq<(String, V)>) -> Map<Seq<char>, V::V>
    decreases s.len(),
{
    if s.len() == 0 {
        Map::empty()
    } else {
        table_map_of(s.drop_last()).insert(s.last().0@, s.last().1@)
    }
}

proof fn lemma_table_dom<V: View>(s: Seq<(String, V)>)
    ensures
        table_map_of(s).dom() =~= keys_of(s).to_set(),
    decreases s.len(),
{
    if s.len() == 0 {
    } else {
        lemma_table_dom(s.drop_last());
        assert(keys_of(s.drop_last()) =~= keys_of(s).drop_last());
        assert forall|k: Seq<char>| keys_of(s).to_set().contains(k) implies table_map_of(
            s,
        ).dom().contains(k) by {
            let i = choose|i: int| 0 <= i < keys_of(s).len() && keys_of(s)[i] == k;
            if i < s.len() - 1 {
                assert(keys_of(s).drop_last()[i] == k);
            }
        }
        assert forall|k: Seq<char>| table_map_of(s).dom().contains(k) implies keys_of(
            s,
        ).to_set().contains(k) by {
            if k == s.last().0@ {
                assert(keys_of(s)[s.len() - 1] == k);
            } else {
                let i = choose|i: int|
                    0 <= i < keys_of(s).drop_last().len() && keys_of(s).drop_last()[i] == k;
                assert(keys_of(s)[i] == k);
            }
        }
    }
}

proof fn lemma_table_entry<V: View>(s: Seq<(String, V)>, i: int)
    requires
        keys_of(s).no_duplicates(),
        0 <= i < s.len(),
    ensures
        table_map_of(s).contains_pair(s[i].0@, s[i].1@),
    decreases s.len(),
{
    if i == s.len() - 1 {
    } else {
        assert(keys_of(s.drop_last()) =~= keys_of(s).drop_last());
        lemma_table_entry(s.drop_last(), i);
        assert(keys_of(s)[i] != keys_of(s)[s.len() - 1]);
    }
}

proof fn lemma_table_push<V: View>(s: Seq<(String, V)>, e: (String, V))
    ensures
        table_map_of(s.push(e)) == table_map_of(s).insert(e.0@, e.1@),
        keys_of(s.push(e)) =~= keys_of(s).push(e.0@),
{
    assert(s.push(e).drop_last() =~= s);
    assert(s.push(e).last() == e);
}

proof fn lemma_table_update<V: View>(s: Seq<(String, V)>, i: int, e: (String, V))
    requires
        keys_of(s).no_duplicates(),
        0 <= i < s.len(),
        s[i].0@ == e.0@,
    ensures
        table_map_of(s.update(i, e)) == table_map_of(s).insert(e.0@, e.1@),
        keys_of(s.update(i, e)) =~= keys_of(s),
    decreases s.len(),
{
    let t = s.update(i, e);
    assert(keys_of(t) =~= keys_of(s));
    if i == s.len() - 1 {
        assert(t.drop_last() =~= s.drop_last());
        assert(t.last() == e);
        assert(table_map_of(s).insert(e.0@, e.1@) =~= table_map_of(s.drop_last()).insert(
            e.0@,
            e.1@,
        ));
    } else {
        assert(keys_of(s.drop_last()) =~= keys_of(s).drop_last());
        lemma_table_update(s.drop_last(), i, e);
        assert(t.drop_last() =~= s.drop_last().update(i, e));
        assert(t.last() == s.last());
        assert(keys_of(s)[i] != keys_of(s)[s.len() - 1]);
        assert(table_map_of(t) =~= table_map_of(s.drop_last()).insert(e.0@, e.1@).insert(
            s.last().0@,
            s.last().1@,
        ));
        assert(table_map_of(s.drop_last()).insert(e.0@, e.1@).insert(s.last().0@, s.last().1@)
            =~= table_map_of(s.drop_last()).insert(s.last().0@, s.last().1@).insert(e.0@, e.1@));
    }
}

/// An association list from string keys to values, holding each key at most
/// once; the in-memory form of every keyed record family in this crate.
pub struct Table<V> {
    entries: Vec<(String, V)>,
}

impl<V: View> View for Table<V> {
    type V = Map<Seq<char>, V::V>;

    closed spec fn view(&self) -> Map<Seq<char>, V::V> {
        table_map_of(self.entries@)
    }
}

impl<V: View> Table<V> {
    /// No key occurs twice.
    pub closed spec fn wf(&self) -> bool {
        keys_of(self.entries@).no_duplicates()
    }

    pub fn new() -> (t: Self)
        ensures
            t@ == Map::<Seq<char>, V::V>::empty(),
            t.wf(),
    {
        Table { entries: Vec::new() }
    }

    fn find(&self, k: &str) -> (r: Option<usize>)
        ensures
            match r {
                Some(i) => i < self.entries@.len() && self.entries@[i as int].0@ == k@,
                None => forall|i: int|
                    0 <= i < self.entries@.len() ==> self.entries@[i].0@ != k@,
            },
    {
        let n = self.entries.len();
        let mut i: usize = 0;
        while i < n
            invariant
                0 <= i <= n,
                n == self.entries@.len(),
                forall|j: int| 0 <= j < i ==> self.entries@[j].0@ != k@,
            decreases n - i,
        {
            if str_eq(self.entries[i].0.as_str(), k) {
                return Some(i);
            }
            i = i + 1;
        }
        None
    }

    /// The value recorded under `k`, if any.
    pub fn get(&self, k: &str) -> (r: Option<&V>)
        requires
            self.wf(),
        ensures
            match r {
                Some(v) => self@.dom().contains(k@) && v@ == self@[k@],
                None => !self@.dom().contains(k@),
            },
    {
        proof {
            lemma_table_dom(self.entries@);
        }
        match self.find(k) {
            Some(i) => {
                proof {
                    lemma_table_entry(self.entries@, i as int);
                }
                Some(&self.entries[i].1)
            },
            None => {
                proof {
                    assert forall|j: int| 0 <= j < keys_of(self.entries@).len() implies keys_of(
                        self.entries@,
                    )[j] != k@ by {}
                }
                None
            },
        }
    }

    /// Records `v` under `k`, replacing any earlier value.
    pub fn put(&mut self, k: String, v: V)
        requires
            old(self).wf(),
        ensures
            final(self).wf(),
            final(self)@ == old(self)@.insert(k@, v@),
    {
        match self.find(k.as_str()) {
            Some(i) => {
                proof {
                    lemma_table_update(self.entries@, i as int, (k, v));
                }
                self.entries[i] = (k, v);
            },
            None => {
                proof {
                    lemma_table_push(self.entries@, (k, v));
                    assert forall|j: int| 0 <= j < keys_of(self.entries@).len() implies keys_of(
                        self.entries@,
                    )[j] != k@ by {}
                }
                self.entries.push((k, v));
            },
        }
    }

    /// The number of keys recorded.
    pub fn length(&self) -> (n: usize)
        requires
            self.wf(),
        ensures
            n == self@.dom().len(),
    {
        proof {
            lemma_table_dom(self.entries@);
            keys_of(self.entries@).unique_seq_to_set();
        }
        self.entries.len()
    }
}

impl Table<u64> {
    /// Adds one to the count recorded under `k`, creating it at one if
    /// absent, and returns the value after the increment.
    pub fn bump(&mut self, k: &str) -> (post: u64)
        requires
            old(self).wf(),
            old(self)@.dom().contains(k@) ==> old(self)@[k@] < u64::MAX,
        ensures
            final(self).wf(),
            post == if old(self)@.dom().contains(k@) {
                old(self)@[k@] + 1
            } else {
                1int
            },
            final(self)@ == old(self)@.insert(k@, post),
    {
        let prev = match self.get(k) {
            Some(c) => *c,
            None => 0,
        };
        let post = prev + 1;
        let key = k.to_owned();
        self.put(key, post);
        post
    }

    /// The largest count recorded, or zero when nothing is.
    pub fn max_value(&self) -> (m: u64)
        requires
            self.wf(),
        ensures
            forall|k: Seq<char>| self@.dom().contains(k) ==> self@[k] <= m,
            m != 0 ==> exists|k: Seq<char>| self@.dom().contains(k) && self@[k] == m,
            self@.dom().len() == 0 ==> m == 0,
    {
        proof {
            lemma_table_dom(self.entries@);
        }
        let n = self.entries.len();
        let mut m: u64 = 0;
        let mut i: usize = 0;
        while i < n
            invariant
                0 <= i <= n,
                n == self.entries@.len(),
                self.wf(),
                forall|j: int| 0 <= j < i ==> self.entries@[j].1 <= m,
                m != 0 ==> exists|j: int| 0 <= j < i && self.entries@[j].1 == m,
            decreases n - i,
        {
            if self.entries[i].1 > m {
                m = self.entries[i].1;
            }
            i = i + 1;
        }
        proof {
            assert forall|k: Seq<char>| self@.dom().contains(k) implies self@[k] <= m by {
                let j = choose|j: int|
                    0 <= j < keys_of(self.entries@).len() && keys_of(self.entries@)[j] == k;
                lemma_table_entry(self.entries@, j);
            }
            if m != 0 {
                let j = choose|j: int| 0 <= j < self.entries@.len() && self.entries@[j].1 == m;
                lemma_table_entry(self.entries@, j);
                assert(self@.dom().contains(self.entries@[j].0@) && self@[self.entries@[j].0@]
                    == m);
            }
        }
        m
    }

    /// The recorded pairs, in storage order, as fresh strings.
    pub fn pairs(&self) -> (r: Vec<(String, u64)>)
        requires
            self.wf(),
        ensures
            r@.len() == self@.dom().len(),
            forall|i: int| 0 <= i < r@.len() ==> self@.contains_pair(r@[i].0@, r@[i].1),
            keys_of(r@).no_duplicates(),
            forall|k: Seq<char>| self@.dom().contains(k) ==> keys_of(r@).contains(k),
            table_map_of(r@) == self@,
    {
        proof {
            lemma_table_dom(self.entries@);
            keys_of(self.entries@).unique_seq_to_set();
        }
        let n = self.entries.len();
        let mut r: Vec<(String, u64)> = Vec::new();
        let mut i: usize = 0;
        while i < n
            invariant
                0 <= i <= n,
                n == self.entries@.len(),
                self.wf(),
                r@.len() == i,
                forall|j: int| 0 <= j < i ==> r@[j].0@ == self.entries@[j].0@ && r@[j].1
                    == self.entries@[j].1,
                table_map_of(r@) == table_map_of(self.entries@.take(i as int)),
            decreases n - i,
        {
            let key = self.entries[i].0.clone();
            let count = self.entries[i].1;
            proof {
                lemma_table_push(r@, (key, count));
                let p = self.entries@.take(i as int + 1);
                assert(p.drop_last() =~= self.entries@.take(i as int));
                assert(p.last() == self.entries@[i as int]);
            }
            r.push((key, count));
            i = i + 1;
        }
        proof {
            assert(keys_of(r@) =~= keys_of(self.entries@));
            assert forall|i: int| 0 <= i < r@.len() implies self@.contains_pair(
                r@[i].0@,
                r@[i].1,
            ) by {
                lemma_table_entry(self.entries@, i);
            }
            assert(self.entries@.take(n as int) =~= self.entries@);
        }
        r
    }
}

} // verus!
