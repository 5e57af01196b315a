use vstd::prelude::*;

verus! {

/// Where an entry stands in its lifecycle.
#[derive(Clone, Copy, PartialEq, Eq, Structural, PartialOrd, Ord, Hash, Debug)]
pub enum EntryStatus {
    Incomplete,
    InProgress,
    Scrapped,
    Completed,
}

/// The presentation class of a status; how each class is drawn is up to the
/// terminal front end.
#[derive(Clone, Copy, PartialEq, Eq, Structural, Debug)]
pub enum StyleTag {
    /// No styling.
    Plain,
    /// Draws the eye: work in progress.
    Attention,
    /// Struck through and dimmed: kept for the record only.
    StruckDim,
    /// Emphasised as done.
    Done,
}

/// The style that each status is shown in.
pub open spec fn spec_style_of(s: EntryStatus) -> StyleTag {
    match s {
        EntryStatus::Incomplete => StyleTag::Plain,
        EntryStatus::InProgress => StyleTag::Attention,
        EntryStatus::Scrapped => StyleTag::StruckDim,
        EntryStatus::Completed => StyleTag::Done,
    }
}

/// The tag under which a status is written to the store.
pub open spec fn spec_tag_of(s: EntryStatus) -> Seq<char> {
    match s {
        EntryStatus::Incomplete => "Incomplete"@,
        EntryStatus::InProgress => "InProgress"@,
        EntryStatus::Scrapped => "Scrapped"@,
        EntryStatus::Completed => "Completed"@,
    }
}

/// The four tags are pairwise distinct.
pub proof fn lemma_tags_distinct(a: EntryStatus, b: EntryStatus)
    ensures
        spec_tag_of(a) == spec_tag_of(b) ==> a == b,
{
    reveal_strlit("Incomplete");
    reveal_strlit("InProgress");
    reveal_strlit("Scrapped");
    reveal_strlit("Completed");
    assert("Incomplete"@[2] != "InProgress"@[2]);
    assert("Incomplete"@[0] != "Scrapped"@[0]);
    assert("Incomplete"@[0] != "Completed"@[0]);
    assert("InProgress"@[0] != "Scrapped"@[0]);
    assert("InProgress"@[0] != "Completed"@[0]);
    assert("Scrapped"@[0] != "Completed"@[0]);
}

/// Whether two strings hold the same characters.
fn same_text(a: &str, b: &str) -> (r: bool)
    ensures
        r == (a@ == b@),
{
    let n = a.unicode_len();
    if n != b.unicode_len() {
        return false;
    }
    let mut i: usize = 0;
    while i < n
        invariant
            n == a@.len(),
            n == b@.len(),
            i <= n,
            forall|j: int| 0 <= j < i ==> a@[j] == b@[j],
        decreases n - i,
    {
        if a.get_char(i) != b.get_char(i) {
            return false;
        }
        i = i + 1;
    }
    assert(a@ =~= b@);
    true
}

impl EntryStatus {
    /// The tag under which this status is written to the store.
    pub fn tag(&self) -> (r: &'static str)
        ensures
            r@ == spec_tag_of(*self),
    {
        match self {
            EntryStatus::Incomplete => "Incomplete",
            EntryStatus::InProgress => "InProgress",
            EntryStatus::Scrapped => "Scrapped",
            EntryStatus::Completed => "Completed",
        }
    }

    /// The status written under `tag`, if the tag is one of the four.
    pub fn from_tag(tag: &str) -> (r: Option<EntryStatus>)
        ensures
            r == spec_status_of_tag(tag@),
    {
        if same_text(tag, "Incomplete") {
            Some(EntryStatus::Incomplete)
        } else if same_text(tag, "InProgress") {
            Some(EntryStatus::InProgress)
        } else if same_text(tag, "Scrapped") {
            Some(EntryStatus::Scrapped)
        } else if same_text(tag, "Completed") {
            Some(EntryStatus::Completed)
        } else {
            None
        }
    }

    /// The presentation class of this status.
    pub fn style(&self) -> (r: StyleTag)
        ensures
            r == spec_style_of(*self),
    {
        match self {
            EntryStatus::Incomplete => StyleTag::Plain,
            EntryStatus::InProgress => StyleTag::Attention,
            EntryStatus::Scrapped => StyleTag::StruckDim,
            EntryStatus::Completed => StyleTag::Done,
        }
    }
}

/// The status written under `t`, if `t` is one of the four tags.
pub open spec fn spec_status_of_tag(t: Seq<char>) -> Option<EntryStatus> {
    if t == "Incomplete"@ {
        Some(EntryStatus::Incomplete)
    } else if t == "InProgress"@ {
        Some(EntryStatus::InProgress)
    } else if t == "Scrapped"@ {
        Some(EntryStatus::Scrapped)
    } else if t == "Completed"@ {
        Some(EntryStatus::Completed)
    } else {
        None
    }
}

/// Reading a status's own tag gives that status back.
pub proof fn lemma_tag_round_trip(s: EntryStatus)
    ensures
        spec_status_of_tag(spec_tag_of(s)) == Some(s),
{
    lemma_tags_distinct(s, EntryStatus::Incomplete);
    lemma_tags_distinct(s, EntryStatus::InProgress);
    lemma_tags_distinct(s, EntryStatus::Scrapped);
}

/// What an entry is, as the contracts see it.
pub struct EntryModel {
    pub name: Seq<char>,
    pub status: EntryStatus,
}

/// One todo item.
#[derive(Clone, Debug)]
pub struct Entry {
    pub name: String,
    pub status: EntryStatus,
}

impl View for Entry {
    type V = EntryModel;

    open spec fn view(&self) -> EntryModel {
        EntryModel { name: self.name@, status: self.status }
    }
}

impl Entry {
    /// A new entry, not yet started.
    pub fn new(name: String) -> (r: Entry)
        ensures
            r@ == (EntryModel { name: name@, status: EntryStatus::Incomplete }),
    {
        Entry { name, status: EntryStatus::Incomplete }
    }

    /// Replace the status; the name stays.
    pub fn set_status(&mut self, entry_status: &EntryStatus)
        ensures
            final(self)@ == (EntryModel { name: old(self)@.name, status: *entry_status }),
    {
        self.status = *entry_status;
    }

    /// The presentation class that this entry is shown in.
    pub fn style(&self) -> (r: StyleTag)
        ensures
            r == spec_style_of(self.status),
    {
        self.status.style()
    }
}

impl PartialEq for Entry {
    fn eq(&self, other: &Entry) -> (r: bool) {
        self.name == other.name && self.status == other.status
    }
}

impl vstd::std_specs::cmp::PartialEqSpecImpl for Entry {
    open spec fn obeys_eq_spec() -> bool {
        true
    }

    open spec fn eq_spec(&self, other: &Entry) -> bool {
        self@ == other@
    }
}

} // verus!
