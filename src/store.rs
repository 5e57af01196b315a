use vstd::prelude::*;

use crate::entry::{
    lemma_tag_round_trip, spec_status_of_tag, spec_tag_of, Entry, EntryModel, EntryStatus,
};
use crate::list::TodoList;

verus! {

/// An entry as it is written to the store: its name, and its status's tag.
pub struct StoredEntry {
    pub name: String,
    pub status: String,
}

impl View for StoredEntry {
    type V = (Seq<char>, Seq<char>);

    open spec fn view(&self) -> (Seq<char>, Seq<char>) {
        (self.name@, self.status@)
    }
}

/// A stored record whose status is none of the four tags; `index` is its
/// position among the records.
#[derive(Clone, Copy, PartialEq, Eq, Structural, Debug)]
pub struct UnknownStatus {
    pub index: usize,
}

/// How a list of entries is written to the store, in order.
pub open spec fn spec_encode(l: Seq<EntryModel>) -> Seq<(Seq<char>, Seq<char>)> {
    l.map_values(|e: EntryModel| (e.name, spec_tag_of(e.status)))
}

/// The list that stored records describe, or the position of the first
/// record whose status is not a tag.
pub open spec fn spec_decode(recs: Seq<(Seq<char>, Seq<char>)>) -> Result<Seq<EntryModel>, nat>
    decreases recs.len(),
{
    if recs.len() == 0 {
        Ok(Seq::empty())
    } else {
        match spec_decode(recs.drop_last()) {
            Err(k) => Err(k),
            Ok(l) => match spec_status_of_tag(recs.last().1) {
                None => Err((recs.len() - 1) as nat),
                Some(s) => Ok(l.push(EntryModel { name: recs.last().0, status: s })),
            },
        }
    }
}

/// Writing a list to the store and reading it back gives the same entries,
/// in the same order, with the same statuses.
pub proof fn lemma_store_round_trip(l: Seq<EntryModel>)
    ensures
        spec_decode(spec_encode(l)) == Ok::<Seq<EntryModel>, nat>(l),
    decreases l.len(),
{
    if l.len() > 0 {
        lemma_store_round_trip(l.drop_last());
        assert(spec_encode(l).drop_last() =~= spec_encode(l.drop_last()));
        lemma_tag_round_trip(l.last().status);
        assert(l.drop_last().push(EntryModel { name: l.last().name, status: l.last().status })
            =~= l);
    } else {
        assert(l =~= Seq::<EntryModel>::empty());
    }
}

/// The views of a list of records.
pub open spec fn record_views(v: Seq<StoredEntry>) -> Seq<(Seq<char>, Seq<char>)> {
    v.map_values(|r: StoredEntry| r@)
}

impl TodoList {
    /// The records that store this list, in order.
    pub fn to_stored(&self) -> (r: Vec<StoredEntry>)
        ensures
            record_views(r@) == spec_encode(self@),
    {
        let mut r: Vec<StoredEntry> = Vec::new();
        let mut i: usize = 0;
        while i < self.entries.len()
            invariant
                i <= self.entries@.len(),
                record_views(r@) == spec_encode(self@.take(i as int)),
            decreases self.entries.len() - i,
        {
            let e = &self.entries[i];
            let rec = StoredEntry { name: e.name.clone(), status: e.status.tag().to_owned() };
            assert(self@[i as int] == self.entries@[i as int]@);
            assert(rec@ == (self@[i as int].name, spec_tag_of(self@[i as int].status)));
            let ghost prev = record_views(r@);
            r.push(rec);
            assert(record_views(r@) =~= prev.push(rec@));
            assert(spec_encode(self@.take(i + 1)) =~= spec_encode(self@.take(i as int)).push(
                (self@[i as int].name, spec_tag_of(self@[i as int].status)),
            ));
            assert(record_views(r@) =~= spec_encode(self@.take(i + 1)));
            i = i + 1;
        }
        assert(self@.take(self.entries@.len() as int) =~= self@);
        r
    }

    /// The list that `records` describe; fails on the first record whose
    /// status is none of the four tags.
    pub fn from_stored(records: &Vec<StoredEntry>) -> (r: Result<TodoList, UnknownStatus>)
        ensures
            match r {
                Ok(l) => spec_decode(record_views(records@)) == Ok::<Seq<EntryModel>, nat>(l@),
                Err(e) => spec_decode(record_views(records@)) == Err::<Seq<EntryModel>, nat>(
                    e.index as nat,
                ),
            },
    {
        let mut list = TodoList::empty();
        let mut i: usize = 0;
        while i < records.len()
            invariant
                i <= records@.len(),
                spec_decode(record_views(records@).take(i as int)) == Ok::<
                    Seq<EntryModel>,
                    nat,
                >(list@),
            decreases records.len() - i,
        {
            proof {
                assert(record_views(records@).take(i + 1).drop_last() =~= record_views(
                    records@,
                ).take(i as int));
            }
            let rec = &records[i];
            match EntryStatus::from_tag(rec.status.as_str()) {
                None => {
                    proof {
                        lemma_decode_extends_err(record_views(records@), i + 1, i as nat);
                    }
                    return Err(UnknownStatus { index: i });
                },
                Some(s) => {
                    let ghost before = list@;
                    list.entries.push(Entry { name: rec.name.clone(), status: s });
                    assert(list@ =~= before.push(EntryModel { name: rec.name@, status: s }));
                },
            }
            i = i + 1;
        }
        assert(record_views(records@).take(records@.len() as int) =~= record_views(records@));
        Ok(list)
    }
}

/// Once a prefix of the records fails, so does every longer prefix, at the
/// same position.
proof fn lemma_decode_extends_err(recs: Seq<(Seq<char>, Seq<char>)>, n: int, k: nat)
    requires
        0 <= n <= recs.len(),
        spec_decode(recs.take(n)) == Err::<Seq<EntryModel>, nat>(k),
    ensures
        spec_decode(recs) == Err::<Seq<EntryModel>, nat>(k),
    decreases recs.len() - n,
{
    if n < recs.len() {
        assert(recs.take(n + 1).drop_last() =~= recs.take(n));
        lemma_decode_extends_err(recs, n + 1, k);
    } else {
        assert(recs.take(n) =~= recs);
    }
}

} // verus!
