//! The row-aligned glyph table: a position-indexed sequence of characters
//! laid out in rows of 64 slots, built from row-oriented source text.

use vstd::prelude::*;

verus! {

/// Number of slots in one row of a glyph table.
pub const ROW_WIDTH: usize = 64;

/// The character held by every unused slot.
pub const NULL_GLYPH: char = '\0';

/// The smallest multiple of the row width that is not below `i`.
pub open spec fn align_up(i: nat) -> nat {
    (((i + 63) / 64) * 64) as nat
}

/// The output cursor once the first `k` characters of `s` have been read.
///
/// An ordinary character takes the slot under the cursor and moves it by one.
/// The first line break of a run moves the cursor up to the next row boundary;
/// every further line break of the same run moves it by one slot.
pub open spec fn cursor(s: Seq<char>, k: int) -> nat
    decreases k,
{
    if k <= 0 {
        0
    } else {
        let before = cursor(s, k - 1);
        if s[k - 1] != '\n' {
            before + 1
        } else if k >= 2 && s[k - 2] == '\n' {
            before + 1
        } else {
            align_up(before)
        }
    }
}

/// What a slot holds when character `c` is written at position `p`: a space
/// anywhere but at position 0 is alignment filler and leaves the slot null.
pub open spec fn glyph_at(c: char, p: nat) -> char {
    if c == ' ' && p != 0 {
        '\0'
    } else {
        c
    }
}

/// What slot `p` holds once the first `k` characters of `s` have been read.
pub open spec fn entry(s: Seq<char>, k: int, p: nat) -> char
    decreases k,
{
    if k <= 0 {
        '\0'
    } else if s[k - 1] != '\n' && cursor(s, k - 1) == p {
        glyph_at(s[k - 1], p)
    } else {
        entry(s, k - 1, p)
    }
}

/// Number of slots that reading `s` touches: a trailing run of line breaks
/// still claims the slot under the cursor.
pub open spec fn raw_len(s: Seq<char>) -> nat {
    cursor(s, s.len() as int) + if s.len() > 0 && s.last() == '\n' {
        1nat
    } else {
        0nat
    }
}

/// Length of the table built from `s`: the touched slots, rounded up to whole rows.
pub open spec fn table_len(s: Seq<char>) -> nat {
    align_up(raw_len(s))
}

/// The glyph table built from the source text `s`.
pub open spec fn table_of(s: Seq<char>) -> Seq<char> {
    Seq::new(table_len(s), |p: int| entry(s, s.len() as int, p as nat))
}

/// The cursor never moves backwards.
pub proof fn lemma_cursor_monotone(s: Seq<char>, a: int, b: int)
    requires
        0 <= a <= b,
    ensures
        cursor(s, a) <= cursor(s, b),
    decreases b - a,
{
    if a < b {
        lemma_cursor_monotone(s, a, b - 1);
    }
}

/// Each character read moves the cursor by 64 slots at most.
proof fn lemma_cursor_bound(s: Seq<char>, k: int)
    requires
        0 <= k,
    ensures
        cursor(s, k) <= 64 * k,
    decreases k,
{
    if k > 0 {
        lemma_cursor_bound(s, k - 1);
    }
}

/// A table has at most one row for each character of its source, and one more.
pub proof fn law_rows_per_character(s: Seq<char>)
    ensures
        table_len(s) <= 64 * (s.len() + 1),
{
    lemma_cursor_bound(s, s.len() as int);
}

/// The source text `s` without its carriage returns.
pub open spec fn without_cr(s: Seq<char>) -> Seq<char> {
    s.filter(|c: char| c != '\r')
}

/// Every slot at or beyond the cursor is still null.
proof fn lemma_entry_null_from_cursor(s: Seq<char>, k: int, p: nat)
    requires
        0 <= k,
        p >= cursor(s, k),
    ensures
        entry(s, k, p) == '\0',
    decreases k,
{
    if k > 0 {
        lemma_cursor_monotone(s, k - 1, k);
        lemma_entry_null_from_cursor(s, k - 1, p);
    }
}

/// A character that is no line break keeps the slot it was written to,
/// whatever is read after it.
proof fn lemma_entry_stays(s: Seq<char>, k: int, m: int)
    requires
        0 <= k < m,
        s[k] != '\n',
    ensures
        entry(s, m, cursor(s, k)) == glyph_at(s[k], cursor(s, k)),
    decreases m - k,
{
    if m > k + 1 {
        lemma_cursor_monotone(s, k + 1, m - 1);
        lemma_entry_stays(s, k, m - 1);
    }
}

/// A slot that no character was written to is null.
proof fn lemma_entry_unwritten(s: Seq<char>, k: int, p: nat)
    requires
        0 <= k,
        forall|i: int| 0 <= i < k && s[i] != '\n' ==> cursor(s, i) != p,
    ensures
        entry(s, k, p) == '\0',
    decreases k,
{
    if k > 0 {
        lemma_entry_unwritten(s, k - 1, p);
    }
}

/// No slot but the first ever holds a space.
proof fn lemma_entry_space(s: Seq<char>, k: int, p: nat)
    requires
        0 <= k,
        p != 0,
    ensures
        entry(s, k, p) != ' ',
    decreases k,
{
    if k > 0 {
        lemma_entry_space(s, k - 1, p);
    }
}

/// A table is made of whole rows.
pub proof fn law_whole_rows(s: Seq<char>)
    ensures
        table_of(s).len() % 64 == 0,
{
}

/// Every character of the source that is no line break stands in the table at
/// the position the cursor had when it was read, as `glyph_at` writes it.
pub proof fn law_glyph_placed(s: Seq<char>, k: int)
    requires
        0 <= k < s.len(),
        s[k] != '\n',
    ensures
        cursor(s, k) < table_of(s).len(),
        table_of(s)[cursor(s, k) as int] == glyph_at(s[k], cursor(s, k)),
{
    lemma_cursor_monotone(s, k + 1, s.len() as int);
    lemma_entry_stays(s, k, s.len() as int);
}

/// Every slot that no character of the source was written to holds the null glyph.
pub proof fn law_gaps_are_null(s: Seq<char>, p: int)
    requires
        0 <= p < table_of(s).len(),
        forall|i: int| 0 <= i < s.len() && s[i] != '\n' ==> cursor(s, i) != p,
    ensures
        table_of(s)[p] == '\0',
{
    lemma_entry_unwritten(s, s.len() as int, p as nat);
}

/// A space read while the cursor is at 0 stays a space; one read at any
/// later position leaves its slot null.
pub proof fn law_space_only_at_origin(s: Seq<char>, k: int)
    requires
        0 <= k < s.len(),
        s[k] == ' ',
    ensures
        cursor(s, k) == 0 ==> table_of(s)[0] == ' ',
        cursor(s, k) > 0 ==> table_of(s)[cursor(s, k) as int] == '\0',
{
    law_glyph_placed(s, k);
}

/// No slot of a table but the first holds a space.
pub proof fn law_no_space_beyond_origin(s: Seq<char>, p: int)
    requires
        0 < p < table_of(s).len(),
    ensures
        table_of(s)[p] != ' ',
{
    lemma_entry_space(s, s.len() as int, p as nat);
}

/// Rounds `i` up to a whole number of rows.
fn round_up(i: usize) -> (r: usize)
    requires
        align_up(i as nat) <= usize::MAX,
    ensures
        r == align_up(i as nat),
{
    let rest: usize = i % ROW_WIDTH;
    if rest == 0 {
        i
    } else {
        i + (ROW_WIDTH - rest)
    }
}

/// Appends null glyphs to `table` until it has `len` slots.
fn pad_to(table: &mut Vec<char>, len: usize)
    requires
        old(table)@.len() <= len,
    ensures
        final(table)@.len() == len,
        forall|p: int| 0 <= p < old(table)@.len() ==> final(table)@[p] == old(table)@[p],
        forall|p: int| old(table)@.len() <= p < len ==> final(table)@[p] == '\0',
{
    while table.len() < len
        invariant
            old(table)@.len() <= table@.len() <= len,
            forall|p: int| 0 <= p < old(table)@.len() ==> table@[p] == old(table)@[p],
            forall|p: int| old(table)@.len() <= p < table@.len() ==> table@[p] == '\0',
        decreases len - table@.len(),
    {
        table.push(NULL_GLYPH);
    }
}

/// Removes the carriage returns from source text.
pub fn strip_cr(src: &[char]) -> (out: Vec<char>)
    ensures
        out@ == without_cr(src@),
{
    let mut out: Vec<char> = Vec::new();
    let mut k: usize = 0;
    proof {
        reveal(Seq::filter);
    }
    assert(src@.take(0) =~= Seq::<char>::empty());
    while k < src.len()
        invariant
            k <= src@.len(),
            out@ == without_cr(src@.take(k as int)),
        decreases src@.len() - k,
    {
        proof {
            reveal(Seq::filter);
            assert(src@.take(k as int + 1).drop_last() =~= src@.take(k as int));
        }
        if src[k] != '\r' {
            out.push(src[k]);
        }
        k = k + 1;
    }
    assert(src@.take(k as int) =~= src@);
    out
}

/// Builds the glyph table from row-oriented source text whose carriage
/// returns have been removed.
///
/// The table has as many slots as `table_len` says, for which the machine
/// must have room.
pub fn build_table(src: &[char]) -> (table: Vec<char>)
    requires
        table_len(src@) <= usize::MAX,
    ensures
        table@ == table_of(src@),
        table@.len() % 64 == 0,
{
    let n: usize = src.len();
    let mut table: Vec<char> = Vec::new();
    let mut i: usize = 0;
    let mut j: usize = 0;
    while j < n
        invariant
            n == src@.len(),
            j <= n,
            i == cursor(src@, j as int),
            table@.len() <= i,
            table_len(src@) <= usize::MAX,
            forall|p: int|
                0 <= p < table@.len() ==> #[trigger] table@[p] == entry(src@, j as int, p as nat),
            forall|p: nat| p >= table@.len() ==> #[trigger] entry(src@, j as int, p) == '\0',
        decreases n - j,
    {
        let c: char = src[j];
        let ghost before = table@;
        proof {
            lemma_cursor_monotone(src@, j as int + 1, n as int);
        }
        if c == '\n' {
            if j > 0 && src[j - 1] == '\n' {
                i = i + 1;
            } else {
                i = round_up(i);
            }
        } else {
            pad_to(&mut table, i);
            table.push(if c == ' ' && i != 0 { NULL_GLYPH } else { c });
            i = i + 1;
        }
        proof {
            assert forall|p: int| 0 <= p < table@.len() implies #[trigger] table@[p] == entry(
                src@,
                j as int + 1,
                p as nat,
            ) by {
                if p < before.len() {
                    assert(table@[p] == before[p]);
                } else {
                    assert(entry(src@, j as int, p as nat) == '\0');
                }
            }
            assert forall|p: nat| p >= table@.len() implies #[trigger] entry(
                src@,
                j as int + 1,
                p,
            ) == '\0' by {
                assert(entry(src@, j as int, p) == '\0');
            }
        }
        j = j + 1;
    }
    let raw: usize = if n > 0 && src[n - 1] == '\n' { i + 1 } else { i };
    let total: usize = round_up(raw);
    pad_to(&mut table, total);
    assert(table@ =~= table_of(src@));
    table
}

} // verus!
