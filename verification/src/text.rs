//! The text in which page numbers are reported.

use std::ops::Range;

use vstd::prelude::*;
use vstd::string::StringExecFns;

verus! {

/// The decimal digit `d`.
pub open spec fn digit(d: nat) -> char {
    ('0' as u32 + d) as char
}

/// `n` in decimal, without leading zeroes.
pub open spec fn decimal(n: nat) -> Seq<char>
    decreases n,
{
    if n < 10 {
        seq![digit(n)]
    } else {
        decimal(n / 10).push(digit(n % 10))
    }
}

/// A page number in parentheses.
pub open spec fn page_text(page_idx: nat) -> Seq<char> {
    seq!['('] + decimal(page_idx) + seq![')']
}

/// The page numbers from `start` up to, not with, `end`, each in parentheses, with a
/// comma between two of them.
pub open spec fn pages_text(start: nat, end: nat) -> Seq<char>
    decreases end,
{
    if start >= end {
        seq![]
    } else if start + 1 == end {
        page_text(start)
    } else {
        pages_text(start, (end - 1) as nat) + seq![','] + page_text((end - 1) as nat)
    }
}

/// The number that a row of decimal digits stands for.
pub open spec fn value(digits: Seq<char>) -> int
    decreases digits.len(),
{
    if digits.len() == 0 {
        0
    } else {
        10 * value(digits.drop_last()) + (digits.last() as int - 48)
    }
}

/// What is written in decimal can be read back: it has digits only, the first of them is not zero
/// unless it is the only one, and they stand for the number.
pub proof fn lemma_decimal_reads_back(n: nat)
    ensures
        decimal(n).len() > 0,
        forall|i: int| 0 <= i < decimal(n).len() ==> '0' <= #[trigger] decimal(n)[i] <= '9',
        decimal(n).len() > 1 ==> decimal(n)[0] != '0',
        value(decimal(n)) == n,
    decreases n,
{
    if n < 10 {
        assert(decimal(n).drop_last() =~= seq![]);
        assert(value(seq![]) == 0);
    } else {
        lemma_decimal_reads_back(n / 10);
        assert(decimal(n).drop_last() =~= decimal(n / 10));
        if decimal(n / 10).len() == 1 {
            let front = decimal(n / 10);
            assert(front.drop_last() =~= seq![]);
            assert(value(seq![]) == 0);
            assert(value(front) == front.last() as int - 48);
        }
    }
}

/// A listed page is its number between two parentheses.
pub proof fn lemma_one_page(page_idx: nat)
    ensures
        pages_text(page_idx, page_idx + 1) == seq!['('] + decimal(page_idx) + seq![')'],
{
}

/// Pages that are listed together read as the first part of them, a comma and the rest, wherever
/// the list is cut; no pages read as nothing.
pub proof fn lemma_pages_join(start: nat, middle: nat, end: nat)
    ensures
        start >= end ==> pages_text(start, end) == Seq::<char>::empty(),
        start < middle < end ==> pages_text(start, end) == pages_text(start, middle) + seq![',']
            + pages_text(middle, end),
    decreases end,
{
    if start < middle < end {
        if middle + 1 < end {
            lemma_pages_join(start, middle, (end - 1) as nat);
        }
        assert(pages_text(start, end) =~= pages_text(start, middle) + seq![','] + pages_text(
            middle,
            end,
        ));
    }
}

fn digit_str(d: u64) -> (s: &'static str)
    requires
        d < 10,
    ensures
        s@ == seq![digit(d as nat)],
{
    proof {
        reveal_strlit("0");
        reveal_strlit("1");
        reveal_strlit("2");
        reveal_strlit("3");
        reveal_strlit("4");
        reveal_strlit("5");
        reveal_strlit("6");
        reveal_strlit("7");
        reveal_strlit("8");
        reveal_strlit("9");
    }
    let s = match d {
        0 => "0",
        1 => "1",
        2 => "2",
        3 => "3",
        4 => "4",
        5 => "5",
        6 => "6",
        7 => "7",
        8 => "8",
        _ => "9",
    };
    assert(s@ =~= seq![digit(d as nat)]);
    s
}

/// Appends `n` in decimal.
pub(crate) fn append_decimal(out: &mut String, n: u64)
    ensures
        final(out)@ == old(out)@ + decimal(n as nat),
    decreases n,
{
    if n >= 10 {
        append_decimal(out, n / 10);
    }
    out.append(digit_str(n % 10));
    assert(out@ =~= old(out)@ + decimal(n as nat));
}

/// Appends one page number in parentheses.
fn append_page(out: &mut String, page_idx: u64)
    ensures
        final(out)@ == old(out)@ + page_text(page_idx as nat),
{
    proof {
        reveal_strlit("(");
        reveal_strlit(")");
    }
    out.append("(");
    append_decimal(out, page_idx);
    out.append(")");
    assert(out@ =~= old(out)@ + page_text(page_idx as nat));
}

/// Lists the pages of a range, as in `(3),(4),(5)`.
pub fn print_pages_pretty(range: Range<u64>) -> (text: String)
    ensures
        text@ == pages_text(range.start as nat, range.end as nat),
{
    let mut text = String::new();
    let start: u64 = range.start;
    let end: u64 = range.end;
    let mut page_idx: u64 = start;
    proof {
        reveal_strlit(",");
    }
    while page_idx < end
        invariant
            start <= page_idx,
            page_idx <= end || page_idx == start,
            text@ == pages_text(start as nat, page_idx as nat),
            ","@ == seq![','],
        decreases end - page_idx,
    {
        if page_idx > start {
            text.append(",");
        }
        append_page(&mut text, page_idx);
        page_idx = page_idx + 1;
        assert(text@ =~= pages_text(start as nat, page_idx as nat));
    }
    text
}

} // verus!
