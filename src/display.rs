use vstd::prelude::*;

use crate::entry::EntryModel;
use crate::list::TodoList;

verus! {

/// The character of a decimal digit.
pub open spec fn digit_char(d: nat) -> char {
    seq!['0', '1', '2', '3', '4', '5', '6', '7', '8', '9'][d as int]
}

/// `n` written in decimal, without leading zeros.
pub open spec fn decimal(n: nat) -> Seq<char>
    decreases n,
{
    if n < 10 {
        seq![digit_char(n)]
    } else {
        decimal(n / 10).push(digit_char(n % 10))
    }
}

/// The line that shows `text` as the entry at 0-based position `index`.
pub open spec fn spec_line(index: nat, text: Seq<char>) -> Seq<char> {
    decimal(index + 1) + seq!['.', ' '] + text
}

/// The notice shown in place of an empty list.
pub open spec fn empty_notice() -> Seq<char> {
    "Todo list is empty."@
}

/// The lines that show a list whose entries' texts are `texts`.
pub open spec fn spec_lines(texts: Seq<Seq<char>>) -> Seq<Seq<char>> {
    if texts.len() == 0 {
        seq![empty_notice()]
    } else {
        Seq::new(texts.len(), |i: int| spec_line(i as nat, texts[i]))
    }
}

/// Relies on std's `Display` for `usize` (through `to_string`): the number
/// in decimal digits.
#[verifier::external_body]
fn decimal_text(n: usize) -> (r: String)
    ensures
        r@ == decimal(n as nat),
{
    n.to_string()
}

/// The line that shows `text` as the entry at 0-based position `index`:
/// its number from 1, a dot, a space, then the text.
pub fn numbered_line(index: usize, text: &str) -> (r: String)
    requires
        index < usize::MAX,
    ensures
        r@ == spec_line(index as nat, text@),
{
    proof {
        reveal_strlit(". ");
    }
    let r = decimal_text(index + 1).concat(". ").concat(text);
    assert(r@ =~= spec_line(index as nat, text@));
    r
}

impl TodoList {
    /// The lines that show this list: one per entry, in order, or the empty
    /// notice alone.
    pub fn display_lines(&self) -> (r: Vec<String>)
        ensures
            r@.map_values(|s: String| s@) == spec_lines(self@.map_values(|e: EntryModel| e.name)),
    {
        let ghost names = self@.map_values(|e: EntryModel| e.name);
        let mut r: Vec<String> = Vec::new();
        if self.entries.len() == 0 {
            r.push("Todo list is empty.".to_owned());
            assert(r@.map_values(|s: String| s@) =~= spec_lines(names));
            return r;
        }
        let mut i: usize = 0;
        while i < self.entries.len()
            invariant
                i <= self.entries@.len(),
                self.entries@.len() > 0,
                names == self@.map_values(|e: EntryModel| e.name),
                r@.len() == i,
                forall|j: int| 0 <= j < i ==> (#[trigger] r@[j])@ == spec_line(j as nat, names[j]),
            decreases self.entries.len() - i,
        {
            let line = numbered_line(i, self.entries[i].name.as_str());
            r.push(line);
            i = i + 1;
        }
        assert(r@.map_values(|s: String| s@) =~= spec_lines(names));
        r
    }
}

} // verus!
