//! How tall a transcript is once wrapped to a width, counted in terminal
//! rows.

use vstd::arithmetic::div_mod::lemma_div_decreases;
use vstd::prelude::*;

verus! {

/// Terminal columns that the text `s` takes.
pub uninterp spec fn display_width(s: Seq<char>) -> usize;

/// Relies on unicode_width::UnicodeWidthStr::width: the display width of
/// the text, which depends on its characters alone.
#[verifier::external_body]
fn text_width(s: &str) -> (r: usize)
    ensures
        r == display_width(s@),
{
    unicode_width::UnicodeWidthStr::width(s)
}

/// Rows that a line `w` columns wide takes at `width` columns: at least one,
/// and one more for each started run of `width` columns.
pub open spec fn line_rows(w: nat, width: nat) -> nat
    recommends
        width > 0,
{
    if w == 0 {
        1
    } else if w % width == 0 {
        w / width
    } else {
        w / width + 1
    }
}

/// Rows that lines of the given widths take at `width` columns.
pub open spec fn total_rows(widths: Seq<usize>, width: nat) -> nat
    decreases widths.len(),
{
    if widths.len() == 0 {
        0
    } else {
        total_rows(widths.drop_last(), width) + line_rows(widths.last() as nat, width)
    }
}

/// The height of lines of the given widths at `width` columns, capped at
/// `u16::MAX`; zero when there are no columns.
pub open spec fn height_of(widths: Seq<usize>, width: nat) -> u16 {
    if width == 0 {
        0
    } else if total_rows(widths, width) >= u16::MAX {
        u16::MAX
    } else {
        total_rows(widths, width) as u16
    }
}

/// The display widths of the given lines.
pub open spec fn widths_of(lines: Seq<String>) -> Seq<usize> {
    lines.map_values(|l: String| display_width(l@))
}

proof fn lemma_total_rows_grows(widths: Seq<usize>, i: int, width: nat)
    requires
        0 <= i <= widths.len(),
        width > 0,
    ensures
        total_rows(widths.subrange(0, i), width) <= total_rows(widths, width),
    decreases widths.len(),
{
    if i < widths.len() {
        assert(widths.drop_last().subrange(0, i) =~= widths.subrange(0, i));
        lemma_total_rows_grows(widths.drop_last(), i, width);
    } else {
        assert(widths.subrange(0, i) =~= widths);
    }
}

/// Rows that lines of the given display widths take when wrapped at
/// `inner_width` columns, capped at `u16::MAX`.
pub fn wrapped_height(widths: &Vec<usize>, inner_width: u16) -> (r: u16)
    ensures
        r == height_of(widths@, inner_width as nat),
{
    if inner_width == 0 {
        return 0;
    }
    let width = inner_width as usize;
    let mut total: usize = 0;
    let mut i: usize = 0;
    while i < widths.len()
        invariant
            width == inner_width as nat,
            width > 0,
            i <= widths@.len(),
            total == total_rows(widths@.subrange(0, i as int), width as nat),
            total < u16::MAX,
        decreases widths@.len() - i,
    {
        let w = widths[i];
        let rows: usize = if w == 0 {
            1
        } else if w % width == 0 {
            w / width
        } else {
            proof {
                lemma_div_decreases(w as int, width as int);
            }
            w / width + 1
        };
        assert(widths@.subrange(0, i + 1).drop_last() =~= widths@.subrange(0, i as int));
        if rows >= (u16::MAX as usize) - total {
            proof {
                lemma_total_rows_grows(widths@, i + 1, width as nat);
            }
            return u16::MAX;
        }
        total = total + rows;
        i = i + 1;
    }
    assert(widths@.subrange(0, i as int) =~= widths@);
    total as u16
}

/// Rows that the given lines take when wrapped at `inner_width` columns,
/// capped at `u16::MAX`.
pub fn measure_text_height(lines: &Vec<String>, inner_width: u16) -> (r: u16)
    ensures
        r == height_of(widths_of(lines@), inner_width as nat),
{
    let mut widths: Vec<usize> = Vec::new();
    let mut i: usize = 0;
    while i < lines.len()
        invariant
            i <= lines@.len(),
            widths@ == widths_of(lines@).subrange(0, i as int),
        decreases lines@.len() - i,
    {
        widths.push(text_width(lines[i].as_str()));
        i = i + 1;
        assert(widths@ =~= widths_of(lines@).subrange(0, i as int));
    }
    assert(widths@ =~= widths_of(lines@));
    wrapped_height(&widths, inner_width)
}

} // verus!
