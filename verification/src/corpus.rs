use vstd::prelude::*;

use crate::errors::Error;
use crate::text::{split_on, split_str, trim_str, trimmed, views_of};

verus! {

/// The newline-delimited entries of a fetched plain-text resource, after
/// stripping blanks at both ends.
pub open spec fn lines_of(text: Seq<char>) -> Seq<Seq<char>> {
    split_on(trimmed(text), '\n')
}

/// The token groups of the phrase resource: each line, split at spaces.
pub open spec fn groups_of(text: Seq<char>) -> Seq<Seq<Seq<char>>> {
    lines_of(text).map_values(|l: Seq<char>| split_on(l, ' '))
}

/// The four raw plain-text resources a full corpus fetch brings back.
pub struct CorpusTexts {
    pub common: String,
    pub refuse: String,
    pub trigger: String,
    pub phrase: String,
}

/// An immutable word-list snapshot: common phrases, refusal phrases,
/// trigger phrases, and token groups. Never mutated in place; replaced
/// wholesale on refresh.
#[derive(Clone, Debug, PartialEq)]
pub struct Corpus {
    pub common: Vec<String>,
    pub refuse: Vec<String>,
    pub trigger: Vec<String>,
    pub phrase: Vec<Vec<String>>,
}

impl Corpus {
    /// The snapshot holds exactly the parse of the four texts.
    pub open spec fn parses(self, t: CorpusTexts) -> bool {
        &&& views_of(self.common@) == lines_of(t.common@)
        &&& views_of(self.refuse@) == lines_of(t.refuse@)
        &&& views_of(self.trigger@) == lines_of(t.trigger@)
        &&& self.phrase@.len() == groups_of(t.phrase@).len()
        &&& forall|i: int|
            0 <= i < self.phrase@.len() ==> views_of(#[trigger] self.phrase@[i]@) == groups_of(
                t.phrase@,
            )[i]
    }

    /// Parses the four fetched texts into a snapshot.
    pub fn from_texts(t: &CorpusTexts) -> (c: Corpus)
        ensures
            c.parses(*t),
    {
        let common = parse_list(t.common.as_str());
        let refuse = parse_list(t.refuse.as_str());
        let trigger = parse_list(t.trigger.as_str());
        let lines = parse_list(t.phrase.as_str());
        let n = lines.len();
        let mut phrase: Vec<Vec<String>> = Vec::new();
        let mut i: usize = 0;
        while i < n
            invariant
                0 <= i <= n,
                n == lines@.len(),
                views_of(lines@) == lines_of(t.phrase@),
                phrase@.len() == i,
                forall|j: int|
                    0 <= j < i ==> views_of(#[trigger] phrase@[j]@) == groups_of(t.phrase@)[j],
            decreases n - i,
        {
            let group = split_str(lines[i].as_str(), ' ');
            proof {
                assert(groups_of(t.phrase@)[i as int] == split_on(lines@[i as int]@, ' '));
            }
            phrase.push(group);
            i = i + 1;
        }
        Corpus { common, refuse, trigger, phrase }
    }
}

fn parse_list(text: &str) -> (r: Vec<String>)
    ensures
        views_of(r@) == lines_of(text@),
{
    let t = trim_str(text);
    split_str(t.as_str(), '\n')
}

/// The corpus snapshot cache: serves the current snapshot and replaces it
/// wholesale, and only on a fully successful fetch. The surrounding process
/// guards it with a reader/writer lock; every value a reader sees is either
/// the whole old snapshot or the whole new one, never a mix.
pub struct CorpusClient {
    corpus: Corpus,
}

impl CorpusClient {
    /// The snapshot currently held.
    pub closed spec fn snapshot(&self) -> Corpus {
        self.corpus
    }

    /// Builds the cache from the outcome of the startup fetch: a fetch that
    /// did not fully succeed fails the whole startup.
    pub fn new_from_fetch(fetched: Result<CorpusTexts, Error>) -> (r: Result<CorpusClient, Error>)
        ensures
            r is Ok <==> fetched is Ok,
            fetched matches Ok(t) ==> (r matches Ok(c) && c.snapshot().parses(t)),
            fetched matches Err(e) ==> (r matches Err(e2) && e2 == e),
    {
        match fetched {
            Ok(t) => Ok(CorpusClient { corpus: Corpus::from_texts(&t) }),
            Err(e) => Err(e),
        }
    }

    /// Applies the outcome of a scheduled refresh: on full success the
    /// snapshot is replaced as a whole; on any failure the held snapshot is
    /// left untouched and the error is passed on.
    pub fn update(&mut self, fetched: Result<CorpusTexts, Error>) -> (r: Result<(), Error>)
        ensures
            r is Ok <==> fetched is Ok,
            fetched matches Ok(t) ==> final(self).snapshot().parses(t),
            fetched is Err ==> *final(self) == *old(self),
            fetched matches Err(e) ==> (r matches Err(e2) && e2 == e),
    {
        match fetched {
            Ok(t) => {
                self.corpus = Corpus::from_texts(&t);
                Ok(())
            },
            Err(e) => Err(e),
        }
    }

    /// A read-only view of the held snapshot.
    pub fn corpus(&self) -> (r: &Corpus)
        ensures
            *r == self.snapshot(),
    {
        &self.corpus
    }
}

} // verus!
