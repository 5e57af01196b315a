use vstd::prelude::*;

use crate::entry::{Entry, EntryModel, EntryStatus};
use crate::index::{locate, spec_issues, spec_locate, spec_targets, IndexIssue};
use crate::remove::{lemma_without_len, without, RemoveMultiple};

verus! {

/// An ordered list of entries; an entry's display number is its position
/// plus one.
pub struct TodoList {
    pub entries: Vec<Entry>,
}

impl View for TodoList {
    type V = Seq<EntryModel>;

    open spec fn view(&self) -> Seq<EntryModel> {
        self.entries@.map_values(|e: Entry| e@)
    }
}

/// A fresh entry named `name`.
pub open spec fn fresh(name: Seq<char>) -> EntryModel {
    EntryModel { name, status: EntryStatus::Incomplete }
}

/// The list after adding each of `names` in turn, skipping a name whose fresh
/// entry is already there (an earlier name of the same call included).
pub open spec fn spec_add_names(l: Seq<EntryModel>, names: Seq<Seq<char>>) -> Seq<EntryModel>
    decreases names.len(),
{
    if names.len() == 0 {
        l
    } else {
        let prev = spec_add_names(l, names.drop_last());
        if prev.contains(fresh(names.last())) {
            prev
        } else {
            prev.push(fresh(names.last()))
        }
    }
}

/// The names that adding `names` in turn to `l` skips, in order.
pub open spec fn spec_skipped_names(l: Seq<EntryModel>, names: Seq<Seq<char>>) -> Seq<Seq<char>>
    decreases names.len(),
{
    if names.len() == 0 {
        Seq::empty()
    } else {
        let prev = spec_skipped_names(l, names.drop_last());
        if spec_add_names(l, names.drop_last()).contains(fresh(names.last())) {
            prev.push(names.last())
        } else {
            prev
        }
    }
}

/// Adding a name whose fresh entry is already listed leaves the list as it
/// was; adding a name that is listed only in other statuses appends a new
/// entry.
pub proof fn lemma_add_duplicate_suppression(l: Seq<EntryModel>, name: Seq<char>)
    ensures
        l.contains(fresh(name)) ==> spec_add_names(l, seq![name]) == l,
        (forall|i: int| 0 <= i < l.len() && l[i].name == name ==> l[i].status != EntryStatus::Incomplete)
            ==> spec_add_names(l, seq![name]) == l.push(fresh(name))
            && spec_add_names(l, seq![name]).len() == l.len() + 1,
{
    assert(seq![name].drop_last() =~= Seq::<Seq<char>>::empty());
    assert(seq![name].last() == name);
    assert(spec_add_names(l, Seq::<Seq<char>>::empty()) == l);
    assert(spec_add_names(l, seq![name]) == (if l.contains(fresh(name)) {
        l
    } else {
        l.push(fresh(name))
    }));
    if forall|i: int| 0 <= i < l.len() && l[i].name == name ==> l[i].status != EntryStatus::Incomplete {
        if l.contains(fresh(name)) {
            let i = choose|i: int| 0 <= i < l.len() && l[i] == fresh(name);
            assert(l[i].name == name);
        }
    }
}

/// Holds of the entries whose status is not `s`.
pub open spec fn other_than(s: EntryStatus) -> spec_fn(EntryModel) -> bool {
    |e: EntryModel| e.status != s
}

/// The views of a list of strings.
pub open spec fn texts(v: Seq<String>) -> Seq<Seq<char>> {
    v.map_values(|s: String| s@)
}

/// `l` with the status of each position in `targets` set to `s`.
pub open spec fn with_status_at(l: Seq<EntryModel>, targets: Seq<usize>, s: EntryStatus) -> Seq<
    EntryModel,
> {
    Seq::new(
        l.len(),
        |i: int|
            if targets.contains(i as usize) {
                EntryModel { name: l[i].name, status: s }
            } else {
                l[i]
            },
    )
}

/// Removing positions commutes with taking views.
proof fn lemma_without_views(s: Seq<Entry>, idx: Seq<usize>)
    ensures
        without(s, idx).map_values(|e: Entry| e@) == without(s.map_values(|e: Entry| e@), idx),
    decreases s.len(),
{
    if s.len() > 0 {
        lemma_without_views(s.drop_last(), idx);
        assert(s.drop_last().map_values(|e: Entry| e@) =~= s.map_values(|e: Entry| e@).drop_last());
        assert(without(s, idx).map_values(|e: Entry| e@) =~= without(s.map_values(|e: Entry| e@), idx));
    }
}

impl TodoList {
    /// A list with no entries.
    pub fn empty() -> (r: Self)
        ensures
            r@ == Seq::<EntryModel>::empty(),
    {
        let r = TodoList { entries: Vec::new() };
        assert(r@ =~= Seq::<EntryModel>::empty());
        r
    }

    /// The number of entries.
    pub fn len(&self) -> (r: usize)
        ensures
            r == self@.len(),
    {
        self.entries.len()
    }

    /// Whether an entry equal to `e` (same name, same status) is in the list.
    pub fn contains(&self, e: &Entry) -> (r: bool)
        ensures
            r == self@.contains(e@),
    {
        let mut j: usize = 0;
        while j < self.entries.len()
            invariant
                j <= self@.len(),
                forall|k: int| 0 <= k < j ==> self@[k] != e@,
            decreases self.entries.len() - j,
        {
            if self.entries[j] == *e {
                assert(self@[j as int] == e@);
                return true;
            }
            j = j + 1;
        }
        false
    }

    /// Append a fresh entry named `name`, unless one equal to it is already
    /// there. Returns whether it was appended.
    pub fn add(&mut self, name: String) -> (added: bool)
        ensures
            added == !old(self)@.contains(fresh(name@)),
            final(self)@ == (if added {
                old(self)@.push(fresh(name@))
            } else {
                old(self)@
            }),
    {
        let entry = Entry::new(name);
        if self.contains(&entry) {
            false
        } else {
            self.entries.push(entry);
            assert(self@ =~= old(self)@.push(fresh(name@)));
            true
        }
    }

    /// Add each name in turn as `add` does. Returns the names that were
    /// skipped because an equal entry was already there.
    pub fn add_all(&mut self, names: &Vec<String>) -> (skipped: Vec<String>)
        ensures
            final(self)@ == spec_add_names(old(self)@, texts(names@)),
            texts(skipped@) == spec_skipped_names(old(self)@, texts(names@)),
    {
        let ghost start = self@;
        let mut skipped: Vec<String> = Vec::new();
        let mut i: usize = 0;
        while i < names.len()
            invariant
                i <= names@.len(),
                self@ == spec_add_names(start, texts(names@).take(i as int)),
                texts(skipped@) == spec_skipped_names(start, texts(names@).take(i as int)),
            decreases names.len() - i,
        {
            let name = names[i].clone();
            proof {
                assert(texts(names@).take(i + 1).drop_last() =~= texts(names@).take(i as int));
                assert(texts(names@).take(i + 1).last() == name@);
            }
            let again = name.clone();
            if !self.add(name) {
                skipped.push(again);
                assert(texts(skipped@) =~= spec_skipped_names(start, texts(names@).take(i + 1)));
            } else {
                assert(texts(skipped@) =~= spec_skipped_names(start, texts(names@).take(i + 1)));
            }
            i = i + 1;
        }
        assert(texts(names@).take(names@.len() as int) =~= texts(names@));
        skipped
    }

    /// Remove every position named in `to_remove` (0-based), as
    /// `RemoveMultiple` does on the entries.
    pub fn remove_multiple(&mut self, to_remove: Vec<usize>)
        ensures
            final(self)@ == without(old(self)@, to_remove@),
    {
        let ghost idx = to_remove@;
        self.entries.remove_multiple(to_remove);
        proof {
            lemma_without_views(old(self).entries@, idx);
        }
    }

    /// With no status, remove every entry; with one, remove exactly the
    /// entries in that status and keep the others in order.
    pub fn clear(&mut self, with_status: Option<EntryStatus>)
        ensures
            with_status is None ==> final(self)@ == Seq::<EntryModel>::empty(),
            with_status matches Some(s) ==> final(self)@ == old(self)@.filter(other_than(s)),
    {
        match with_status {
            None => {
                self.entries.clear();
                assert(self@ =~= Seq::<EntryModel>::empty());
            },
            Some(s) => {
                let ghost orig = self@;
                let n = self.entries.len();
                let mut pos: usize = 0;
                let mut j: usize = 0;
                while j < n
                    invariant
                        n == orig.len(),
                        j <= n,
                        pos == orig.take(j as int).filter(other_than(s)).len(),
                        self@ == orig.take(j as int).filter(other_than(s)) + orig.skip(j as int),
                    decreases n - j,
                {
                    proof {
                        reveal(Seq::filter);
                        assert(orig.take(j + 1).drop_last() =~= orig.take(j as int));
                        assert(orig.take(j + 1).last() == orig[j as int]);
                        assert(orig.take(j + 1).filter(other_than(s)) == (if other_than(s)(orig[j as int]) {
                            orig.take(j as int).filter(other_than(s)).push(orig[j as int])
                        } else {
                            orig.take(j as int).filter(other_than(s))
                        }));
                    }
                    assert(self@.len() == pos + (n - j));
                    assert(self.entries@.len() == self@.len());
                    assert(self@[pos as int] == orig[j as int]);
                    let ghost before = self@;
                    if self.entries[pos].status == s {
                        self.entries.remove(pos);
                        assert(self@ =~= before.remove(pos as int));
                        assert(self@ =~= orig.take(j + 1).filter(other_than(s)) + orig.skip(j + 1));
                    } else {
                        pos = pos + 1;
                        assert(self@ =~= orig.take(j + 1).filter(other_than(s)) + orig.skip(j + 1));
                    }
                    j = j + 1;
                }
                assert(orig.take(n as int) =~= orig);
                assert(self@ =~= orig.filter(other_than(s)));
            },
        }
    }

    /// Set the status of each entry that `args` number (from 1). An argument
    /// that is not a number, or numbers no entry, is skipped and reported;
    /// the others still take effect.
    pub fn set_statuses(&mut self, status: &EntryStatus, args: &Vec<String>) -> (issues: Vec<
        IndexIssue,
    >)
        ensures
            final(self)@ == with_status_at(
                old(self)@,
                spec_targets(texts(args@), old(self)@.len()),
                *status,
            ),
            issues@ == spec_issues(texts(args@), old(self)@.len()),
    {
        let ghost start = self@;
        let len = self.entries.len();
        let mut issues: Vec<IndexIssue> = Vec::new();
        let mut k: usize = 0;
        proof {
            assert(texts(args@).take(0) =~= Seq::<Seq<char>>::empty());
            assert(self@ =~= with_status_at(start, Seq::empty(), *status));
        }
        while k < args.len()
            invariant
                k <= args@.len(),
                len == start.len(),
                self@ == with_status_at(start, spec_targets(texts(args@).take(k as int), len as nat), *status),
                issues@ == spec_issues(texts(args@).take(k as int), len as nat),
            decreases args.len() - k,
        {
            let ghost before = spec_targets(texts(args@).take(k as int), len as nat);
            proof {
                assert(texts(args@).take(k + 1).drop_last() =~= texts(args@).take(k as int));
                assert(texts(args@).take(k + 1).last() == args@[k as int]@);
            }
            match locate(args[k].as_str(), k, len) {
                Ok(i) => {
                    assert(self.entries@.len() == self@.len());
                    assert(i < len);
                    let ghost prev = self@;
                    self.entries[i].set_status(status);
                    assert(self@ =~= prev.update(
                        i as int,
                        EntryModel { name: prev[i as int].name, status: *status },
                    ));
                    let ghost after = before.push(i);
                    assert forall|j: usize| #[trigger] after.contains(j) == (before.contains(j) || j == i) by {
                        if before.contains(j) {
                            let w = choose|w: int| 0 <= w < before.len() && before[w] == j;
                            assert(after[w] == j);
                        }
                        if j == i {
                            assert(after[before.len() as int] == j);
                        }
                    }
                    assert(self@ =~= with_status_at(start, after, *status));
                },
                Err(e) => {
                    issues.push(e);
                },
            }
            k = k + 1;
        }
        assert(texts(args@).take(args@.len() as int) =~= texts(args@));
        issues
    }

    /// Remove each entry that `args` number (from 1) in one step. An argument
    /// that is not a number, or numbers no entry, is skipped and reported.
    pub fn remove_numbered(&mut self, args: &Vec<String>) -> (issues: Vec<IndexIssue>)
        ensures
            final(self)@ == without(old(self)@, spec_targets(texts(args@), old(self)@.len())),
            issues@ == spec_issues(texts(args@), old(self)@.len()),
    {
        let len = self.entries.len();
        let mut issues: Vec<IndexIssue> = Vec::new();
        let mut targets: Vec<usize> = Vec::new();
        let mut k: usize = 0;
        while k < args.len()
            invariant
                k <= args@.len(),
                len == self@.len(),
                self@ == old(self)@,
                targets@ == spec_targets(texts(args@).take(k as int), len as nat),
                issues@ == spec_issues(texts(args@).take(k as int), len as nat),
            decreases args.len() - k,
        {
            proof {
                assert(texts(args@).take(k + 1).drop_last() =~= texts(args@).take(k as int));
                assert(texts(args@).take(k + 1).last() == args@[k as int]@);
            }
            match locate(args[k].as_str(), k, len) {
                Ok(i) => targets.push(i),
                Err(e) => issues.push(e),
            }
            k = k + 1;
        }
        assert(texts(args@).take(args@.len() as int) =~= texts(args@));
        self.remove_multiple(targets);
        issues
    }
}

} // verus!
