use vstd::prelude::*;

use crate::fingerprint::{fingerprint, fingerprint_of};
use crate::table::Table;
use crate::text::views_of;

verus! {

/// The text answered for a fingerprint nobody remembers: the expired or
/// unknown marker handed to the counter store in place of a real answer.
pub open spec fn sentinel_text() -> Seq<char> {
    "-1"@
}

/// The registry entries booked after booking every text of `ts`, in order,
/// under its fingerprint; a later booking of a colliding fingerprint wins.
pub open spec fn book_all(m: Map<Seq<char>, Seq<char>>, ts: Seq<Seq<char>>) -> Map<
    Seq<char>,
    Seq<char>,
>
    decreases ts.len(),
{
    if ts.len() == 0 {
        m
    } else {
        book_all(m.insert(fingerprint_of(ts[0]), ts[0]), ts.drop_first())
    }
}

proof fn lemma_views_remove(s: Seq<String>, i: int)
    requires
        views_of(s).no_duplicates(),
        0 <= i < s.len(),
    ensures
        views_of(s.remove(i)).to_set() =~= views_of(s).to_set().remove(s[i]@),
        views_of(s.remove(i)).no_duplicates(),
{
    let vs = views_of(s);
    let vr = views_of(s.remove(i));
    assert(vr =~= vs.remove(i));
    assert forall|a: int, b: int| 0 <= a < b < vr.len() implies vr[a] != vr[b] by {
        let a2 = if a < i { a } else { a + 1 };
        let b2 = if b < i { b } else { b + 1 };
        assert(vr[a] == vs[a2] && vr[b] == vs[b2]);
    }
    assert forall|x: Seq<char>| vr.to_set().contains(x) implies vs.to_set().contains(x) && x
        != vs[i] by {
        let j = choose|j: int| 0 <= j < vr.len() && vr[j] == x;
        let j2 = if j < i { j } else { j + 1 };
        assert(vs[j2] == x);
        assert(vs[j2] != vs[i]);
    }
    assert forall|x: Seq<char>| vs.to_set().contains(x) && x != vs[i] implies vr.to_set().contains(
        x,
    ) by {
        let j = choose|j: int| 0 <= j < vs.len() && vs[j] == x;
        if j < i {
            assert(vr[j] == x);
        } else {
            assert(vr[j - 1] == x);
        }
    }
}

proof fn lemma_views_push(s: Seq<String>, h: String)
    ensures
        views_of(s.push(h)).to_set() =~= views_of(s).to_set().insert(h@),
        !views_of(s).to_set().contains(h@) && views_of(s).no_duplicates() ==> views_of(
            s.push(h),
        ).no_duplicates(),
{
    let vs = views_of(s);
    let vp = views_of(s.push(h));
    assert(vp =~= vs.push(h@));
    assert forall|x: Seq<char>| vp.to_set().contains(x) implies vs.to_set().contains(x) || x
        == h@ by {
        let j = choose|j: int| 0 <= j < vp.len() && vp[j] == x;
        if j < vs.len() {
            assert(vs[j] == x);
        }
    }
    assert forall|x: Seq<char>| vs.to_set().contains(x) implies vp.to_set().contains(x) by {
        let j = choose|j: int| 0 <= j < vs.len() && vs[j] == x;
        assert(vp[j] == x);
    }
    assert(vp[vp.len() - 1] == h@);
    if !vs.to_set().contains(h@) && vs.no_duplicates() {
        assert forall|a: int, b: int| 0 <= a < b < vp.len() implies vp[a] != vp[b] by {
            if b == vp.len() - 1 {
                assert(vs[a] != h@);
            }
        }
    }
}

/// The ephemeral response registry: per fingerprint, either a suppressed
/// marker — a statistics pseudo-answer whose choice must not be counted —
/// or the generated text of a real candidate. Entries live only in memory
/// and only until claimed or until the process ends.
pub struct Booking {
    stats: Vec<String>,
    answers: Table<String>,
}

impl Booking {
    /// The fingerprints currently carrying a suppressed marker.
    pub closed spec fn stats_set(&self) -> Set<Seq<char>> {
        views_of(self.stats@).to_set()
    }

    /// The booked answer text per fingerprint.
    pub closed spec fn answers_map(&self) -> Map<Seq<char>, Seq<char>> {
        self.answers@
    }

    pub closed spec fn wf(&self) -> bool {
        views_of(self.stats@).no_duplicates() && self.answers.wf()
    }
}

impl Default for Booking {
    /// An empty registry: nothing suppressed, nothing booked.
    fn default() -> (r: Booking)
        ensures
            r.wf(),
            r.stats_set() == Set::<Seq<char>>::empty(),
            r.answers_map() == Map::<Seq<char>, Seq<char>>::empty(),
    {
        let r = Booking { stats: Vec::new(), answers: Table::new() };
        proof {
            assert(r.stats_set() =~= Set::<Seq<char>>::empty());
        }
        r
    }
}

impl Booking {
    /// Claims the suppressed marker under `hash`: removes it and reports
    /// whether this call was the one that found it. At most one claim of a
    /// booked marker returns true; every other claim returns false.
    fn find_stat(&self, hash: &str) -> (r: Option<usize>)
        ensures
            match r {
                Some(i) => i < self.stats@.len() && self.stats@[i as int]@ == hash@,
                None => !self.stats_set().contains(hash@),
            },
    {
        let n = self.stats.len();
        let mut i: usize = 0;
        while i < n
            invariant
                0 <= i <= n,
                n == self.stats@.len(),
                forall|j: int| 0 <= j < i ==> self.stats@[j]@ != hash@,
            decreases n - i,
        {
            if crate::text::str_eq(self.stats[i].as_str(), hash) {
                return Some(i);
            }
            i = i + 1;
        }
        proof {
            assert forall|j: int|
                0 <= j < views_of(self.stats@).len() implies views_of(self.stats@)[j]
                != hash@ by {}
        }
        None
    }

    /// Claims the suppressed marker under `hash`: removes it and reports
    /// whether this call was the one that found it. At most one claim of a
    /// booked marker returns true; every other claim returns false.
    pub fn check_stat(&mut self, hash: &str) -> (r: bool)
        requires
            old(self).wf(),
        ensures
            final(self).wf(),
            r == old(self).stats_set().contains(hash@),
            final(self).stats_set() == old(self).stats_set().remove(hash@),
            final(self).answers_map() == old(self).answers_map(),
    {
        match self.find_stat(hash) {
            Some(i) => {
                proof {
                    assert(views_of(self.stats@)[i as int] == hash@);
                    assert(self.stats_set().contains(hash@));
                    lemma_views_remove(self.stats@, i as int);
                }
                self.stats.remove(i);
                true
            },
            None => {
                proof {
                    assert(self.stats_set().remove(hash@) =~= self.stats_set());
                }
                false
            },
        }
    }

    /// The answer text booked under `hash`, if any, as a fresh string.
    pub fn get_answer(&self, hash: &str) -> (r: Option<String>)
        requires
            self.wf(),
        ensures
            match r {
                Some(t) => self.answers_map().dom().contains(hash@) && t@
                    == self.answers_map()[hash@],
                None => !self.answers_map().dom().contains(hash@),
            },
    {
        match self.answers.get(hash) {
            Some(t) => Some(t.clone()),
            None => None,
        }
    }

    /// Books a suppressed marker under `hash`. Idempotent.
    pub fn book_stat(&mut self, hash: String)
        requires
            old(self).wf(),
        ensures
            final(self).wf(),
            final(self).stats_set() == old(self).stats_set().insert(hash@),
            final(self).answers_map() == old(self).answers_map(),
    {
        match self.find_stat(hash.as_str()) {
            Some(i) => {
                proof {
                    assert(views_of(self.stats@)[i as int] == hash@);
                    assert(self.stats_set().contains(hash@));
                    assert(self.stats_set().insert(hash@) =~= self.stats_set());
                }
            },
            None => {
                proof {
                    lemma_views_push(self.stats@, hash);
                }
                self.stats.push(hash);
            },
        }
    }

    /// Books `answer` as the text behind `hash`; a later booking of the same
    /// fingerprint wins.
    pub fn book_answer(&mut self, hash: String, answer: String)
        requires
            old(self).wf(),
        ensures
            final(self).wf(),
            final(self).answers_map() == old(self).answers_map().insert(hash@, answer@),
            final(self).stats_set() == old(self).stats_set(),
    {
        self.answers.put(hash, answer);
    }

    /// Fingerprints `text` and books a suppressed marker under the
    /// fingerprint, returning it.
    pub fn book_stat_text(&mut self, text: &str) -> (h: String)
        requires
            old(self).wf(),
        ensures
            final(self).wf(),
            h@ == fingerprint_of(text@),
            final(self).stats_set() == old(self).stats_set().insert(fingerprint_of(text@)),
            final(self).answers_map() == old(self).answers_map(),
    {
        let h = fingerprint(text);
        let booked = h.clone();
        self.book_stat(booked);
        h
    }

    /// Fingerprints `text` and books it as an answer record, returning the
    /// fingerprint.
    pub fn book_answer_text(&mut self, text: &str) -> (h: String)
        requires
            old(self).wf(),
        ensures
            final(self).wf(),
            h@ == fingerprint_of(text@),
            final(self).answers_map() == old(self).answers_map().insert(
                fingerprint_of(text@),
                text@,
            ),
            final(self).stats_set() == old(self).stats_set(),
    {
        let h = fingerprint(text);
        let booked = h.clone();
        self.book_answer(booked, text.to_owned());
        h
    }

    /// Books every candidate text in order and returns their fingerprints,
    /// ready to be offered to the caller.
    pub fn book_answers(&mut self, texts: &Vec<String>) -> (hs: Vec<String>)
        requires
            old(self).wf(),
        ensures
            final(self).wf(),
            hs@.len() == texts@.len(),
            forall|i: int| 0 <= i < texts@.len() ==> hs@[i]@ == fingerprint_of(texts@[i]@),
            final(self).answers_map() == book_all(old(self).answers_map(), views_of(texts@)),
            final(self).stats_set() == old(self).stats_set(),
    {
        let n = texts.len();
        let mut hs: Vec<String> = Vec::new();
        let mut i: usize = 0;
        proof {
            assert(views_of(texts@).skip(0) =~= views_of(texts@));
        }
        while i < n
            invariant
                0 <= i <= n,
                n == texts@.len(),
                self.wf(),
                hs@.len() == i,
                forall|j: int| 0 <= j < i ==> hs@[j]@ == fingerprint_of(texts@[j]@),
                book_all(old(self).answers_map(), views_of(texts@)) == book_all(
                    self.answers_map(),
                    views_of(texts@).skip(i as int),
                ),
                self.stats_set() == old(self).stats_set(),
            decreases n - i,
        {
            let h = self.book_answer_text(texts[i].as_str());
            hs.push(h);
            proof {
                let rest = views_of(texts@).skip(i as int);
                assert(rest[0] == texts@[i as int]@);
                assert(rest.drop_first() =~= views_of(texts@).skip(i as int + 1));
            }
            i = i + 1;
        }
        hs
    }

    /// Decides what a chosen-callback means for `result_id`: `None` when it
    /// claimed a suppressed marker and must not be counted; otherwise the
    /// text to count — the booked answer, or the sentinel when nothing is
    /// booked under that fingerprint.
    pub fn resolve_chosen(&mut self, result_id: &str) -> (r: Option<String>)
        requires
            old(self).wf(),
        ensures
            final(self).wf(),
            final(self).answers_map() == old(self).answers_map(),
            final(self).stats_set() == old(self).stats_set().remove(result_id@),
            match r {
                None => old(self).stats_set().contains(result_id@),
                Some(t) => !old(self).stats_set().contains(result_id@) && t@ == if old(
                    self,
                ).answers_map().dom().contains(result_id@) {
                    old(self).answers_map()[result_id@]
                } else {
                    sentinel_text()
                },
            },
    {
        if self.check_stat(result_id) {
            None
        } else {
            match self.get_answer(result_id) {
                Some(t) => Some(t),
                None => Some("-1".to_owned()),
            }
        }
    }
}

/// A suppressed marker is claimed exactly once: booking puts the fingerprint
/// into the suppressed set, where the next claim of it is the single one
/// that reports true — claiming removes the fingerprint, so every claim
/// after it reports false until the fingerprint is booked again.
pub proof fn lemma_claim_exactly_once(s: Set<Seq<char>>, f: Seq<char>)
    ensures
        s.insert(f).contains(f),
        !s.insert(f).remove(f).contains(f),
{
}

} // verus!
