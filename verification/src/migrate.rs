use vstd::prelude::*;

use crate::stats::Stat;
use crate::table::Table;

verus! {

/// A pre-existing snapshot of aggregate counts — one grand total, the
/// per-item counts and the per-actor counts — to be imported once into a
/// fresh counter store when migrating historical data.
pub struct Migrator {
    pub total: u64,
    pub per_sentence: Table<u64>,
    pub per_user: Table<u64>,
}

impl Migrator {
    pub open spec fn wf(&self) -> bool {
        self.per_sentence.wf() && self.per_user.wf()
    }

    pub fn new(total: u64, per_sentence: Table<u64>, per_user: Table<u64>) -> (r: Migrator)
        requires
            per_sentence.wf(),
            per_user.wf(),
        ensures
            r.wf(),
            r.total == total,
            r.per_sentence@ == per_sentence@,
            r.per_user@ == per_user@,
    {
        Migrator { total, per_sentence, per_user }
    }

    /// The one-time bulk import: writes the snapshot into the three
    /// collections of a store that holds nothing yet, leaving the store
    /// with exactly the snapshot's counts.
    pub fn migrate(self, store: &mut Stat)
        requires
            self.wf(),
            old(store).wf(),
            old(store).total == 0,
            old(store).sentences@ == Map::<Seq<char>, u64>::empty(),
            old(store).users@ == Map::<Seq<char>, u64>::empty(),
        ensures
            final(store).wf(),
            final(store).total == self.total,
            final(store).sentences@ == self.per_sentence@,
            final(store).users@ == self.per_user@,
    {
        store.total = self.total;
        store.sentences = self.per_sentence;
        store.users = self.per_user;
    }
}

} // verus!
