//! The compound map: every declared code point with the string that stands
//! for it, and the check of such a map against a glyph table.

use crate::compound::{declarations, declarations_of, parse_declarations, Declaration, PuaMapping};
use crate::text::{chars_of, is_scalar};
use std::collections::HashMap;
use vstd::prelude::*;

verus! {

broadcast use vstd::std_specs::hash::group_hash_axioms;

/// Whether the range of `d` holds the code point `c`.
pub open spec fn covers(d: Declaration, c: u32) -> bool {
    d.first as u32 <= c <= d.last as u32 && is_scalar(c as int)
}

/// The map `m` with the payload of `d` at every code point of its range.
pub open spec fn overlay(m: Map<u32, Seq<char>>, d: Declaration) -> Map<u32, Seq<char>> {
    Map::new(
        |c: u32| m.contains_key(c) || covers(d, c),
        |c: u32|
            if covers(d, c) {
                d.payload
            } else {
                m[c]
            },
    )
}

/// The compound map of the declarations `ds`: each in turn is laid over
/// what the earlier ones gave.
pub open spec fn expansion(ds: Seq<Declaration>) -> Map<u32, Seq<char>>
    decreases ds.len(),
{
    if ds.len() == 0 {
        Map::empty()
    } else {
        overlay(expansion(ds.drop_last()), ds.last())
    }
}

/// A compound map as code points and character sequences.
pub open spec fn payloads(m: Map<u32, String>) -> Map<u32, Seq<char>> {
    Map::new(|c: u32| m.contains_key(c), |c: u32| m[c]@)
}

/// Whether the glyph table `table` has a slot for `ch`: the null glyph
/// stands for an unused slot and is never found.
pub open spec fn in_table(table: Seq<char>, ch: char) -> bool {
    ch != '\0' && table.contains(ch)
}

/// Whether the declarations `ds` give `ch` a payload though `table` has no
/// slot for it.
pub open spec fn is_missing(table: Seq<char>, ds: Seq<Declaration>, ch: char) -> bool {
    expansion(ds).contains_key(ch as u32) && !in_table(table, ch)
}

/// The keys of a compound map are the code points of the declared ranges.
pub proof fn law_keys_are_declared(ds: Seq<Declaration>, c: u32)
    ensures
        expansion(ds).contains_key(c) <==> exists|i: int| 0 <= i < ds.len() && covers(#[trigger] ds[i], c),
    decreases ds.len(),
{
    if ds.len() > 0 {
        let front = ds.drop_last();
        law_keys_are_declared(front, c);
        if expansion(ds).contains_key(c) {
            if covers(ds.last(), c) {
                assert(covers(ds[ds.len() - 1], c));
            } else {
                let i = choose|i: int| 0 <= i < front.len() && covers(#[trigger] front[i], c);
                assert(covers(ds[i], c));
            }
        }
        if exists|i: int| 0 <= i < ds.len() && covers(#[trigger] ds[i], c) {
            let i = choose|i: int| 0 <= i < ds.len() && covers(#[trigger] ds[i], c);
            if i < ds.len() - 1 {
                assert(covers(front[i], c));
            }
        }
    }
}

/// Where several declarations cover one code point, the map holds the
/// payload of the last of them.
pub proof fn law_last_declaration_wins(ds: Seq<Declaration>, i: int, c: u32)
    requires
        0 <= i < ds.len(),
        covers(ds[i], c),
        forall|j: int| i < j < ds.len() ==> !covers(#[trigger] ds[j], c),
    ensures
        expansion(ds).contains_key(c),
        expansion(ds)[c] == ds[i].payload,
    decreases ds.len(),
{
    if i < ds.len() - 1 {
        let front = ds.drop_last();
        assert(!covers(ds[ds.len() - 1], c));
        assert forall|j: int| i < j < front.len() implies !covers(#[trigger] front[j], c) by {
            assert(front[j] == ds[j]);
        }
        law_last_declaration_wins(front, i, c);
    }
}

/// A range of one code point gives a map of exactly one entry.
pub proof fn law_single_codepoint(d: Declaration)
    requires
        d.first == d.last,
    ensures
        expansion(seq![d]).dom() == set![d.first as u32],
        expansion(seq![d]).dom().len() == 1,
        expansion(seq![d])[d.first as u32] == d.payload,
{
    let ds = seq![d];
    assert(ds.drop_last() =~= Seq::<Declaration>::empty());
    assert(expansion(ds.drop_last()) == Map::<u32, Seq<char>>::empty());
    assert(ds.last() == d);
    assert(expansion(ds).dom() =~= set![d.first as u32]);
}

/// The map `m` with the payload of `d` at the code points of its range below `upto`.
spec fn overlay_below(m: Map<u32, Seq<char>>, d: Declaration, upto: int) -> Map<
    u32,
    Seq<char>,
> {
    Map::new(
        |c: u32| m.contains_key(c) || (covers(d, c) && c < upto),
        |c: u32|
            if covers(d, c) && c < upto {
                d.payload
            } else {
                m[c]
            },
    )
}

/// Whether `ch` is a code point of the range of `d` below `upto` that
/// `table` has no slot for.
spec fn lacks_below(table: Seq<char>, d: Declaration, upto: int, ch: char) -> bool {
    covers(d, ch as u32) && !in_table(table, ch) && (ch as u32) < upto
}

/// The code point of a character is a Unicode scalar value, and names it.
proof fn lemma_char_code(ch: char)
    ensures
        is_scalar(ch as u32 as int),
        (ch as u32) as char == ch,
{
}

/// Lays the declaration `m` over `map`.
fn insert_range(map: &mut HashMap<u32, String>, m: &PuaMapping)
    ensures
        payloads(final(map)@) == overlay(payloads(old(map)@), m@),
{
    let last: u32 = m.last as u32;
    let mut c: u32 = m.first as u32;
    let ghost before = payloads(map@);
    while c <= last
        invariant
            last == m.last as u32,
            last <= 0x10FFFF,
            m.first as u32 <= c,
            before == payloads(old(map)@),
            payloads(map@) == overlay_below(before, m@, c as int),
        decreases last - c + 1,
    {
        let ghost prev = map@;
        if c < 0xD800 || c > 0xDFFF {
            let payload = m.ch.clone();
            map.insert(c, payload);
            assert(map@ == prev.insert(c, m.ch));
        }
        assert(payloads(map@) =~= overlay_below(before, m@, c as int + 1)) by {
            assert(payloads(prev) == overlay_below(before, m@, c as int));
            assert forall|k: u32| #[trigger]
                payloads(map@).contains_key(k) == overlay_below(
                    before,
                    m@,
                    c as int + 1,
                ).contains_key(k) by {
                assert(payloads(prev).contains_key(k) == prev.contains_key(k));
            }
            assert forall|k: u32| #[trigger] payloads(map@).contains_key(k) implies payloads(
                map@,
            )[k] == overlay_below(before, m@, c as int + 1)[k] by {
                if k != c {
                    assert(payloads(prev).contains_key(k));
                    assert(payloads(prev)[k] == prev[k]@);
                }
            }
        }
        c = c + 1;
    }
    assert(payloads(map@) =~= overlay(before, m@));
}

/// Expands the declarations, in their order, into the compound map: a code
/// point that several of them cover gets the payload of the last.
pub fn expand(decls: &[PuaMapping]) -> (map: HashMap<u32, String>)
    ensures
        payloads(map@) == expansion(declarations_of(decls@)),
{
    let mut map: HashMap<u32, String> = HashMap::new();
    let mut i: usize = 0;
    let ghost ds = declarations_of(decls@);
    assert(payloads(map@) =~= expansion(ds.take(0)));
    while i < decls.len()
        invariant
            i <= decls@.len(),
            ds == declarations_of(decls@),
            payloads(map@) == expansion(ds.take(i as int)),
        decreases decls@.len() - i,
    {
        proof {
            let longer = ds.take(i as int + 1);
            assert(longer.drop_last() =~= ds.take(i as int));
            assert(longer.last() == decls@[i as int]@);
        }
        insert_range(&mut map, &decls[i]);
        i = i + 1;
    }
    assert(ds.take(i as int) =~= ds);
    map
}

/// Reads the compound-character text `i`, one declaration per line, and
/// expands it into the compound map. Gives nothing where any line is no
/// declaration.
pub fn parse_compound_ch_map(i: &str) -> (r: Option<HashMap<u32, String>>)
    ensures
        match r {
            Some(map) => match declarations(i@) {
                Some(ds) => payloads(map@) == expansion(ds),
                None => false,
            },
            None => declarations(i@) is None,
        },
{
    let chars = chars_of(i);
    match parse_declarations(chars.as_slice()) {
        None => None,
        Some(decls) => Some(expand(decls.as_slice())),
    }
}

/// Whether `v` holds `ch`.
fn holds(v: &[char], ch: char) -> (r: bool)
    ensures
        r == v@.contains(ch),
{
    let mut k: usize = 0;
    while k < v.len()
        invariant
            k <= v@.len(),
            forall|p: int| 0 <= p < k ==> v@[p] != ch,
        decreases v@.len() - k,
    {
        if v[k] == ch {
            return true;
        }
        k = k + 1;
    }
    false
}

/// Adds to `out` the code points of the range of `m` that `table` has no
/// slot for and that `out` does not hold yet.
fn collect_missing(table: &[char], m: &PuaMapping, out: &mut Vec<char>)
    requires
        old(out)@.no_duplicates(),
    ensures
        final(out)@.no_duplicates(),
        forall|ch: char|
            #[trigger] final(out)@.contains(ch) <==> old(out)@.contains(ch) || (covers(
                m@,
                ch as u32,
            ) && !in_table(table@, ch)),
{
    let last: u32 = m.last as u32;
    let mut c: u32 = m.first as u32;
    while c <= last
        invariant
            last == m.last as u32,
            last <= 0x10FFFF,
            m.first as u32 <= c,
            out@.no_duplicates(),
            forall|ch: char|
                #[trigger] out@.contains(ch) <==> old(out)@.contains(ch) || lacks_below(
                    table@,
                    m@,
                    c as int,
                    ch,
                ),
        decreases last - c + 1,
    {
        let ghost start = out@;
        match char::from_u32(c) {
            Some(found) => {
                if (found == '\0' || !holds(table, found)) && !holds(out.as_slice(), found) {
                    let ghost prev = out@;
                    out.push(found);
                    assert forall|ch: char| #[trigger]
                        out@.contains(ch) <==> prev.contains(ch) || ch == found by {
                        if prev.contains(ch) {
                            let p = choose|p: int| 0 <= p < prev.len() && prev[p] == ch;
                            assert(out@[p] == ch);
                        }
                        if ch == found {
                            assert(out@[prev.len() as int] == ch);
                        }
                    }
                }
            },
            None => {},
        }
        assert forall|ch: char| #[trigger]
            out@.contains(ch) <==> old(out)@.contains(ch) || lacks_below(
                table@,
                m@,
                c as int + 1,
                ch,
            ) by {
            assert(start.contains(ch) <==> old(out)@.contains(ch) || lacks_below(
                table@,
                m@,
                c as int,
                ch,
            ));
            lemma_char_code(ch);
        }
        c = c + 1;
    }
    assert forall|ch: char| #[trigger]
        out@.contains(ch) <==> old(out)@.contains(ch) || (covers(m@, ch as u32) && !in_table(
            table@,
            ch,
        )) by {
        assert(lacks_below(table@, m@, c as int, ch) <==> covers(m@, ch as u32) && !in_table(
            table@,
            ch,
        ));
    }
}

/// The code points that the declarations give a payload though the glyph
/// table has no slot for them, each once.
pub fn missing_pua_chars(table: &[char], decls: &[PuaMapping]) -> (missing: Vec<char>)
    ensures
        missing@.no_duplicates(),
        forall|ch: char| #[trigger]
            missing@.contains(ch) <==> is_missing(table@, declarations_of(decls@), ch),
{
    let mut out: Vec<char> = Vec::new();
    let mut i: usize = 0;
    let ghost ds = declarations_of(decls@);
    while i < decls.len()
        invariant
            i <= decls@.len(),
            ds == declarations_of(decls@),
            out@.no_duplicates(),
            forall|ch: char| #[trigger]
                out@.contains(ch) <==> is_missing(table@, ds.take(i as int), ch),
        decreases decls@.len() - i,
    {
        let ghost start = out@;
        collect_missing(table, &decls[i], &mut out);
        proof {
            let longer = ds.take(i as int + 1);
            assert(longer.drop_last() =~= ds.take(i as int));
            assert(longer.last() == decls@[i as int]@);
            assert forall|ch: char| #[trigger]
                out@.contains(ch) <==> is_missing(table@, longer, ch) by {
                assert(start.contains(ch) <==> is_missing(table@, ds.take(i as int), ch));
                assert(expansion(longer).contains_key(ch as u32) <==> expansion(
                    ds.take(i as int),
                ).contains_key(ch as u32) || covers(decls@[i as int]@, ch as u32));
            }
        }
        i = i + 1;
    }
    assert(ds.take(i as int) =~= ds);
    out
}

} // verus!
