use unicode_width::UnicodeWidthChar;
use vstd::prelude::*;

verus! {

/// The display width that the Unicode tables give to a character, or
/// `None` for a control character.
pub uninterp spec fn char_width(c: char) -> Option<usize>;

/// The number of terminal cells that a character takes; a control
/// character, which the Unicode tables leave unclassified, counts as one.
pub open spec fn cell_width(c: char) -> nat {
    match char_width(c) {
        Some(w) => w as nat,
        None => 1,
    }
}

/// Relies on `unicode_width::UnicodeWidthChar::width` (for `char`): its result
/// depends on the character alone; printable ASCII is one cell wide; C0 and C1
/// control codes have no width; any width it reports is at most 3.
#[verifier::external_body]
fn unicode_char_width(c: char) -> (r: Option<usize>)
    ensures
        r == char_width(c),
        0x20 <= (c as u32) < 0x7F ==> r == Some(1usize),
        (c as u32) < 0x20 || (0x7F <= (c as u32) < 0xA0) ==> r is None,
        r matches Some(w) ==> w <= 3,
{
    UnicodeWidthChar::width(c)
}

/// The number of terminal cells that `c` takes on screen.
pub fn column_width(c: char) -> (r: usize)
    ensures
        r == cell_width(c),
        r <= 3,
{
    match unicode_char_width(c) {
        Some(w) => w,
        None => 1,
    }
}

/// The display widths of the characters of `s`, one by one.
pub open spec fn cell_widths(s: Seq<char>) -> Seq<nat> {
    s.map_values(|c: char| cell_width(c))
}

/// The number of terminal cells that each character of `v` takes.
pub fn column_widths(v: &Vec<char>) -> (r: Vec<usize>)
    ensures
        r.len() == v.len(),
        forall|i: int| 0 <= i < v.len() ==> r@[i] as nat == cell_width(#[trigger] v@[i]),
        forall|i: int| 0 <= i < v.len() ==> #[trigger] r@[i] <= 3,
{
    let mut r: Vec<usize> = Vec::new();
    let mut i: usize = 0;
    while i < v.len()
        invariant
            i <= v.len(),
            r.len() == i,
            forall|j: int| 0 <= j < i ==> r@[j] as nat == cell_width(#[trigger] v@[j]),
            forall|j: int| 0 <= j < i ==> #[trigger] r@[j] <= 3,
        decreases v.len() - i,
    {
        r.push(column_width(v[i]));
        i = i + 1;
    }
    r
}

} // verus!
