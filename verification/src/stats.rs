use vstd::prelude::*;

use vstd::multiset::Multiset;

use crate::errors::Error;
use crate::table::{keys_of, Table};

verus! {

broadcast use vstd::seq_lib::group_to_multiset_ensures, vstd::multiset::group_multiset_axioms;

/// The key a summary shows in place of the internal sentinel: the sentinel
/// counts the statistics pseudo-answer choices, displayed under the moan
/// label.
pub open spec fn display_key(k: Seq<char>) -> Seq<char> {
    if k == crate::booking::sentinel_text() {
        "菜喘"@
    } else {
        k
    }
}

/// The count after one find-and-increment-or-create on `k`.
pub open spec fn bumped(m: Map<Seq<char>, u64>, k: Seq<char>) -> int {
    if m.dom().contains(k) {
        m[k] + 1
    } else {
        1
    }
}

/// What a summary's top list holds: the `out` entries pair the display form
/// of the distinct source keys `ks` with their counts, in descending count
/// order by the caller's other guarantees, and no unlisted key counts
/// higher than any listed one.
pub open spec fn is_top_selection(
    m: Map<Seq<char>, u64>,
    ks: Seq<Seq<char>>,
    out: Seq<(String, u64)>,
) -> bool {
    &&& ks.no_duplicates()
    &&& ks.len() == out.len()
    &&& forall|i: int|
        0 <= i < out.len() ==> m.contains_pair(ks[i], out[i].1) && out[i].0@ == display_key(
            ks[i],
        )
    &&& forall|k: Seq<char>, i: int|
        m.dom().contains(k) && !ks.contains(k) && 0 <= i < out.len() ==> m[k] <= out[i].1
}

/// The derived view of the counters: grand total, distinct actor count, the
/// top counted items, and the single highest actor count. Computed on
/// demand; never stored.
#[derive(Clone, Debug, PartialEq)]
pub struct Summary {
    pub total: u64,
    pub users: u64,
    pub top_sentences: Vec<(String, u64)>,
    pub top_user_count: u64,
}

/// The three counter families: the grand total, the per-item counts and the
/// per-actor counts. Serves both as the in-memory mirror of the persistent
/// store and as the store's own logical content.
pub struct Stat {
    pub total: u64,
    pub sentences: Table<u64>,
    pub users: Table<u64>,
}

fn sort_desc(v: Vec<(String, u64)>) -> (r: Vec<(String, u64)>)
    ensures
        r@.len() == v@.len(),
        forall|i: int, j: int| 0 <= i < j < r@.len() ==> r@[i].1 >= r@[j].1,
        r@.to_multiset() == v@.to_multiset(),
{
    let ghost orig = v@;
    let mut rem = v;
    let mut r: Vec<(String, u64)> = Vec::new();
    proof {
        assert(r@.to_multiset().add(rem@.to_multiset()) =~= orig.to_multiset());
    }
    while rem.len() > 0
        invariant
            r@.to_multiset().add(rem@.to_multiset()) == orig.to_multiset(),
            r@.len() + rem@.len() == orig.len(),
            forall|i: int, j: int| 0 <= i < j < r@.len() ==> r@[i].1 >= r@[j].1,
            forall|a: int, b: int|
                0 <= a < r@.len() && 0 <= b < rem@.len() ==> r@[a].1 >= rem@[b].1,
        decreases rem@.len(),
    {
        let n = rem.len();
        let mut best: usize = 0;
        let mut k: usize = 1;
        while k < n
            invariant
                0 < n == rem@.len(),
                0 <= best < k <= n,
                forall|j: int| 0 <= j < k ==> rem@[j].1 <= rem@[best as int].1,
            decreases n - k,
        {
            if rem[k].1 > rem[best].1 {
                best = k;
            }
            k = k + 1;
        }
        let ghost rem_old = rem@;
        let ghost r_old = r@;
        let e = rem.remove(best);
        proof {
            assert(rem@ =~= rem_old.remove(best as int));
            assert(rem@.to_multiset() =~= rem_old.to_multiset().remove(e));
            assert(r_old.push(e).to_multiset() =~= r_old.to_multiset().insert(e));
            assert(rem_old.to_multiset().contains(e));
            assert(r_old.to_multiset().insert(e).add(rem_old.to_multiset().remove(e))
                =~= r_old.to_multiset().add(rem_old.to_multiset()));
            assert forall|b: int| 0 <= b < rem@.len() implies e.1 >= rem@[b].1 by {
                if b < best {
                    assert(rem@[b] == rem_old[b]);
                } else {
                    assert(rem@[b] == rem_old[b + 1]);
                }
            }
            assert forall|a: int, b: int|
                0 <= a < r_old.push(e).len() && 0 <= b < rem@.len() implies r_old.push(e)[a].1
                >= rem@[b].1 by {
                if a < r_old.len() {
                    if b < best {
                        assert(rem@[b] == rem_old[b]);
                    } else {
                        assert(rem@[b] == rem_old[b + 1]);
                    }
                }
            }
        }
        r.push(e);
    }
    proof {
        assert(rem@.to_multiset() =~= Multiset::<(String, u64)>::empty());
        assert(r@.to_multiset() =~= r@.to_multiset().add(rem@.to_multiset()));
    }
    r
}

proof fn lemma_sorted_top(m: Map<Seq<char>, u64>, p: Seq<(String, u64)>, s: Seq<(String, u64)>, l: int)
    requires
        keys_of(p).no_duplicates(),
        forall|i: int| 0 <= i < p.len() ==> m.contains_pair(p[i].0@, p[i].1),
        forall|k: Seq<char>| m.dom().contains(k) ==> keys_of(p).contains(k),
        s.to_multiset() == p.to_multiset(),
        forall|i: int, j: int| 0 <= i < j < s.len() ==> s[i].1 >= s[j].1,
        0 <= l <= s.len(),
    ensures
        s.len() == p.len(),
        keys_of(s.take(l)).no_duplicates(),
        forall|i: int| 0 <= i < l ==> m.contains_pair(s[i].0@, s[i].1),
        forall|k: Seq<char>, i: int|
            m.dom().contains(k) && !keys_of(s.take(l)).contains(k) && 0 <= i < l ==> m[k]
                <= s[i].1,
{
    s.to_multiset_ensures();
    p.to_multiset_ensures();
    assert(s.len() == s.to_multiset().len());
    assert(p.len() == p.to_multiset().len());
    assert forall|a: int, b: int| 0 <= a < b < p.len() implies p[a] != p[b] by {
        assert(keys_of(p)[a] != keys_of(p)[b]);
    }
    p.lemma_multiset_has_no_duplicates();
    assert forall|x: (String, u64)| s.to_multiset().count(x) <= 1 by {
        if p.to_multiset().count(x) > 0 {
            assert(p.to_multiset().contains(x));
        }
    }
    s.lemma_multiset_has_no_duplicates_conv();
    assert forall|i: int| 0 <= i < s.len() implies m.contains_pair(s[i].0@, s[i].1) by {
        assert(s.to_multiset().contains(s[i]));
        assert(p.to_multiset().contains(s[i]));
        assert(p.contains(s[i]));
        let a = choose|a: int| 0 <= a < p.len() && p[a] == s[i];
        assert(m.contains_pair(p[a].0@, p[a].1));
    }
    assert forall|i: int, j: int| 0 <= i < j < s.len() implies s[i].0@ != s[j].0@ by {
        if s[i] == s[j] {
            assert(!s.no_duplicates());
            assert(false);
        } else {
            if s[i].0@ == s[j].0@ {
                assert(s.to_multiset().contains(s[i]));
                assert(s.to_multiset().contains(s[j]));
                assert(p.contains(s[i]));
                assert(p.contains(s[j]));
                let a = choose|a: int| 0 <= a < p.len() && p[a] == s[i];
                let b = choose|b: int| 0 <= b < p.len() && p[b] == s[j];
                assert(a != b);
                assert(keys_of(p)[a] == keys_of(p)[b]);
                assert(false);
            }
        }
    }
    assert forall|a: int, b: int|
        0 <= a < keys_of(s.take(l)).len() && 0 <= b < keys_of(s.take(l)).len() && a != b implies
        keys_of(s.take(l))[a] != keys_of(s.take(l))[b] by {
        assert(keys_of(s.take(l))[a] == s[a].0@);
        assert(keys_of(s.take(l))[b] == s[b].0@);
    }
    assert forall|k: Seq<char>, i: int|
        m.dom().contains(k) && !keys_of(s.take(l)).contains(k) && 0 <= i < l implies m[k]
        <= s[i].1 by {
        assert(keys_of(p).contains(k));
        let a = choose|a: int| 0 <= a < keys_of(p).len() && keys_of(p)[a] == k;
        assert(p[a].0@ == k);
        assert(m.contains_pair(p[a].0@, p[a].1));
        assert(m[k] == p[a].1);
        assert(p.to_multiset().contains(p[a]));
        assert(s.to_multiset().contains(p[a]));
        assert(s.contains(p[a]));
        let b = choose|b: int| 0 <= b < s.len() && s[b] == p[a];
        if b < l {
            assert(keys_of(s.take(l))[b] == k);
            assert(false);
        }
        assert(s[i].1 >= s[b].1);
    }
}

impl Stat {
    pub open spec fn wf(&self) -> bool {
        self.sentences.wf() && self.users.wf()
    }

    /// Empty counters: a fresh store with the total created at zero and no
    /// item or actor records.
    pub fn new() -> (r: Stat)
        ensures
            r.wf(),
            r.total == 0,
            r.sentences@ == Map::<Seq<char>, u64>::empty(),
            r.users@ == Map::<Seq<char>, u64>::empty(),
    {
        Stat { total: 0, sentences: Table::new(), users: Table::new() }
    }

    /// Atomically adds one to the grand total and returns the new value;
    /// the store side of a `log` call's first step.
    pub fn bump_total(&mut self) -> (post: u64)
        requires
            old(self).wf(),
            old(self).total < u64::MAX,
        ensures
            final(self).wf(),
            post == old(self).total + 1,
            final(self).total == post,
            final(self).sentences@ == old(self).sentences@,
            final(self).users@ == old(self).users@,
    {
        self.total = self.total + 1;
        self.total
    }

    /// Find-and-increment-or-create on one item count, returning the value
    /// after the increment.
    pub fn bump_sentence(&mut self, sentence: &str) -> (post: u64)
        requires
            old(self).wf(),
            old(self).sentences@.dom().contains(sentence@) ==> old(self).sentences@[sentence@]
                < u64::MAX,
        ensures
            final(self).wf(),
            post == bumped(old(self).sentences@, sentence@),
            final(self).sentences@ == old(self).sentences@.insert(sentence@, post),
            final(self).total == old(self).total,
            final(self).users@ == old(self).users@,
    {
        self.sentences.bump(sentence)
    }

    /// Find-and-increment-or-create on one actor count, returning the value
    /// after the increment.
    pub fn bump_user(&mut self, user: &str) -> (post: u64)
        requires
            old(self).wf(),
            old(self).users@.dom().contains(user@) ==> old(self).users@[user@] < u64::MAX,
        ensures
            final(self).wf(),
            post == bumped(old(self).users@, user@),
            final(self).users@ == old(self).users@.insert(user@, post),
            final(self).total == old(self).total,
            final(self).sentences@ == old(self).sentences@,
    {
        self.users.bump(user)
    }

    /// Computes the derived view: the grand total, the number of distinct
    /// actors, the counted items in descending count order truncated to
    /// five with the sentinel key shown under its display label, and the
    /// highest single actor count.
    pub fn summary(&self) -> (r: Summary)
        requires
            self.wf(),
        ensures
            r.total == self.total,
            r.users == self.users@.dom().len(),
            forall|k: Seq<char>| self.users@.dom().contains(k) ==> self.users@[k]
                <= r.top_user_count,
            r.top_user_count != 0 ==> exists|k: Seq<char>|
                self.users@.dom().contains(k) && self.users@[k] == r.top_user_count,
            self.users@.dom().len() == 0 ==> r.top_user_count == 0,
            r.top_sentences@.len() == vstd::math::min(5, self.sentences@.dom().len() as int),
            forall|i: int, j: int|
                0 <= i < j < r.top_sentences@.len() ==> r.top_sentences@[i].1
                    >= r.top_sentences@[j].1,
            exists|ks: Seq<Seq<char>>| is_top_selection(self.sentences@, ks, r.top_sentences@),
    {
        let p = self.sentences.pairs();
        let ghost ps = p@;
        let sorted = sort_desc(p);
        let ghost ss = sorted@;
        let mut top = sorted;
        top.truncate(5);
        proof {
            if ss.len() <= 5 {
                assert(top@ =~= ss.take(ss.len() as int));
            } else {
                assert(top@ =~= ss.take(5));
            }
            lemma_sorted_top(self.sentences@, ps, ss, top@.len() as int);
        }
        let n = top.len();
        let mut out: Vec<(String, u64)> = Vec::new();
        let mut i: usize = 0;
        while i < n
            invariant
                0 <= i <= n,
                n == top@.len(),
                out@.len() == i,
                forall|j: int|
                    0 <= j < i ==> out@[j].0@ == display_key(top@[j].0@) && out@[j].1
                        == top@[j].1,
            decreases n - i,
        {
            let count = top[i].1;
            if crate::text::str_eq(top[i].0.as_str(), "-1") {
                out.push(("菜喘".to_owned(), count));
            } else {
                let key = top[i].0.clone();
                out.push((key, count));
            }
            i = i + 1;
        }
        proof {
            let ks = keys_of(top@);
            assert forall|j: int| 0 <= j < out@.len() implies self.sentences@.contains_pair(
                ks[j],
                out@[j].1,
            ) && out@[j].0@ == display_key(ks[j]) by {
                assert(top@[j] == ss[j]);
                assert(ks[j] == ss[j].0@);
            }
            assert forall|k: Seq<char>, j: int|
                self.sentences@.dom().contains(k) && !ks.contains(k) && 0 <= j
                    < out@.len() implies self.sentences@[k] <= out@[j].1 by {
                assert(ks =~= keys_of(ss.take(top@.len() as int)));
            }
            assert(ks.no_duplicates()) by {
                assert(ks =~= keys_of(ss.take(top@.len() as int)));
            }
            assert(is_top_selection(self.sentences@, ks, out@));
        }
        let ghost outs = out@;
        let ghost kss = keys_of(top@);
        let users_n = self.users.length();
        let top_user = self.users.max_value();
        let r = Summary {
            total: self.total,
            users: users_n as u64,
            top_sentences: out,
            top_user_count: top_user,
        };
        proof {
            assert(r.top_sentences@ == outs);
            assert(is_top_selection(self.sentences@, kss, r.top_sentences@));
        }
        r
    }
}

/// The counter synchronization cache: the in-memory mirror of the persisted
/// counters, wholesale-resynchronized on a timer and advanced on every
/// counted choice. The surrounding process guards it with a reader/writer
/// lock and performs the store's own operations; the mirror only ever holds
/// values the store returned.
pub struct CounterCache {
    stats: Stat,
}

impl CounterCache {
    /// The mirrored counters.
    pub closed spec fn mirror(&self) -> Stat {
        self.stats
    }

    pub open spec fn wf(&self) -> bool {
        self.mirror().wf()
    }

    /// Builds the cache from the outcome of the startup bulk load; a failed
    /// load fails the whole startup.
    pub fn new_from_fetch(fetched: Result<Stat, Error>) -> (r: Result<CounterCache, Error>)
        requires
            fetched matches Ok(s) ==> s.wf(),
        ensures
            r is Ok <==> fetched is Ok,
            fetched matches Ok(s) ==> (r matches Ok(c) && c.mirror() == s && c.wf()),
            fetched matches Err(e) ==> (r matches Err(e2) && e2 == e),
    {
        match fetched {
            Ok(s) => Ok(CounterCache { stats: s }),
            Err(e) => Err(e),
        }
    }

    /// Applies the outcome of a periodic full resynchronization: a
    /// successful bulk load replaces the whole mirror; a failed one leaves
    /// the mirror in its last known good state and passes the error on.
    pub fn sync(&mut self, fetched: Result<Stat, Error>) -> (r: Result<(), Error>)
        requires
            old(self).wf(),
            fetched matches Ok(s) ==> s.wf(),
        ensures
            final(self).wf(),
            r is Ok <==> fetched is Ok,
            fetched matches Ok(s) ==> final(self).mirror() == s,
            fetched is Err ==> *final(self) == *old(self),
            fetched matches Err(e) ==> (r matches Err(e2) && e2 == e),
    {
        match fetched {
            Ok(s) => {
                self.stats = s;
                Ok(())
            },
            Err(e) => Err(e),
        }
    }

    /// A read-only view of the mirror.
    pub fn stats(&self) -> (r: &Stat)
        ensures
            *r == self.mirror(),
    {
        &self.stats
    }

    /// The mirror side of a `log` call: records the values the store's
    /// three increments returned. Called once the store operations are
    /// done; on a store failure part-way, the steps already reflected stay.
    pub fn apply_log(&mut self, sentence: String, s_count: u64, user: String, u_count: u64, total: u64)
        requires
            old(self).wf(),
        ensures
            final(self).wf(),
            final(self).mirror().total == total,
            final(self).mirror().sentences@ == old(self).mirror().sentences@.insert(
                sentence@,
                s_count,
            ),
            final(self).mirror().users@ == old(self).mirror().users@.insert(user@, u_count),
    {
        self.stats.total = total;
        self.stats.sentences.put(sentence, s_count);
        self.stats.users.put(user, u_count);
    }

    /// The whole write path against an in-process store: one
    /// find-and-increment-or-create on each of the three counter families,
    /// in the fixed order total, item, actor, each mirrored at the value
    /// the store returned. On a store whose counters the mirror agreed
    /// with, every mirrored figure rises by exactly one, created at one
    /// when absent.
    pub fn log(&mut self, store: &mut Stat, sentence: &str, user: &str)
        requires
            old(self).wf(),
            old(store).wf(),
            old(store).total < u64::MAX,
            old(store).sentences@.dom().contains(sentence@) ==> old(store).sentences@[sentence@]
                < u64::MAX,
            old(store).users@.dom().contains(user@) ==> old(store).users@[user@] < u64::MAX,
        ensures
            final(self).wf(),
            final(store).wf(),
            final(store).total == old(store).total + 1,
            final(store).sentences@ == old(store).sentences@.insert(
                sentence@,
                bumped(old(store).sentences@, sentence@) as u64,
            ),
            final(store).users@ == old(store).users@.insert(
                user@,
                bumped(old(store).users@, user@) as u64,
            ),
            final(self).mirror().total == final(store).total,
            final(self).mirror().sentences@ == old(self).mirror().sentences@.insert(
                sentence@,
                bumped(old(store).sentences@, sentence@) as u64,
            ),
            final(self).mirror().users@ == old(self).mirror().users@.insert(
                user@,
                bumped(old(store).users@, user@) as u64,
            ),
            old(self).mirror().total == old(store).total ==> final(self).mirror().total == old(
                self,
            ).mirror().total + 1,
            old(self).mirror().sentences@ == old(store).sentences@
                ==> final(self).mirror().sentences@[sentence@] == bumped(
                old(self).mirror().sentences@,
                sentence@,
            ),
            old(self).mirror().users@ == old(store).users@ ==> final(self).mirror().users@[user@]
                == bumped(old(self).mirror().users@, user@),
    {
        let total = store.bump_total();
        let s_count = store.bump_sentence(sentence);
        let u_count = store.bump_user(user);
        self.apply_log(sentence.to_owned(), s_count, user.to_owned(), u_count, total);
    }
}

} // verus!
