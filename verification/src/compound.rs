//! Compound-character declarations: the grammar of one declaration per line,
//! `[HEX]=STRING` or `[HEX-HEX]=STRING`, and the expansion of the declared
//! ranges into a map from code point to substitution string.

use crate::text::{chars_of, is_scalar, string_of};
use std::collections::HashMap;
use vstd::prelude::*;

verus! {

/// One declaration: an inclusive range of code points and the string that
/// stands for each of them.
#[derive(Debug, PartialEq, Eq)]
pub struct PuaMapping {
    pub first: char,
    pub last: char,
    pub ch: String,
}

/// The mathematical value of a declaration.
pub ghost struct Declaration {
    pub first: char,
    pub last: char,
    pub payload: Seq<char>,
}

impl View for PuaMapping {
    type V = Declaration;

    open spec fn view(&self) -> Declaration {
        Declaration { first: self.first, last: self.last, payload: self.ch@ }
    }
}

/// The values of a list of declarations.
pub open spec fn declarations_of(v: Seq<PuaMapping>) -> Seq<Declaration> {
    v.map_values(|m: PuaMapping| m@)
}

pub open spec fn is_hex_digit(c: char) -> bool {
    ('0' <= c <= '9') || ('a' <= c <= 'f') || ('A' <= c <= 'F')
}

pub open spec fn hex_digit_value(c: char) -> nat {
    if '0' <= c <= '9' {
        (c as int - '0' as int) as nat
    } else if 'a' <= c <= 'f' {
        (c as int - 'a' as int + 10) as nat
    } else {
        (c as int - 'A' as int + 10) as nat
    }
}

/// The number that the hexadecimal digits `s` write.
pub open spec fn hex_value(s: Seq<char>) -> nat
    decreases s.len(),
{
    if s.len() == 0 {
        0
    } else {
        hex_value(s.drop_last()) * 16 + hex_digit_value(s.last())
    }
}

/// Where the run of hexadecimal digits that starts at `at` ends.
pub open spec fn hex_run_end(s: Seq<char>, at: int) -> int
    decreases s.len() - at,
{
    if 0 <= at < s.len() && is_hex_digit(s[at]) {
        hex_run_end(s, at + 1)
    } else {
        at
    }
}

/// A code point at `at`: one or more hexadecimal digits that write a Unicode
/// scalar value. Gives the character and the position behind the digits.
pub open spec fn codepoint_at(s: Seq<char>, at: int) -> Option<(char, int)> {
    let end = hex_run_end(s, at);
    let value = hex_value(s.subrange(at, end));
    if at < end && is_scalar(value as int) {
        Some((value as char, end))
    } else {
        None
    }
}

/// A range at `at`: `[`, a code point, optionally `-` and a second code point,
/// then `]`. Gives both ends and the position behind the `]`; a range of one
/// code point has it for both ends.
pub open spec fn range_at(s: Seq<char>, at: int) -> Option<(char, char, int)> {
    if !(0 <= at < s.len() && s[at] == '[') {
        None
    } else {
        match codepoint_at(s, at + 1) {
            None => None,
            Some((first, p)) => {
                let second = if p < s.len() && s[p] == '-' {
                    codepoint_at(s, p + 1)
                } else {
                    None
                };
                let (last, q) = match second {
                    Some((last, q)) => (last, q),
                    None => (first, p),
                };
                if q < s.len() && s[q] == ']' {
                    Some((first, last, q + 1))
                } else {
                    None
                }
            },
        }
    }
}

/// Where the payload that starts at `at` ends: at the first line feed or
/// carriage return, or at the end of the text.
pub open spec fn payload_end(s: Seq<char>, at: int) -> int
    decreases s.len() - at,
{
    if 0 <= at < s.len() && s[at] != '\n' && s[at] != '\r' {
        payload_end(s, at + 1)
    } else {
        at
    }
}

/// A declaration at `at`: a range, `=`, and the rest of the line, which may be
/// empty. The line ends at the end of the text, at a line feed, or at a
/// carriage return with a line feed behind it; a carriage return alone is
/// not accepted. Gives the declaration and the position where its line ends.
pub open spec fn declaration_at(s: Seq<char>, at: int) -> Option<(Declaration, int)> {
    match range_at(s, at) {
        None => None,
        Some((first, last, q)) => {
            let end = payload_end(s, q + 1);
            if !(q < s.len() && s[q] == '=') {
                None
            } else if end < s.len() && s[end] == '\r' && !(end + 1 < s.len() && s[end + 1]
                == '\n') {
                None
            } else {
                Some((Declaration { first, last, payload: s.subrange(q + 1, end) }, end))
            }
        },
    }
}

/// The position behind the line break at `end`, or `end` at the end of the text.
pub open spec fn next_line(s: Seq<char>, end: int) -> int {
    if end >= s.len() {
        end
    } else if s[end] == '\n' {
        end + 1
    } else {
        end + 2
    }
}

/// `rest` with `head` in front of it, where there is a `rest`.
pub open spec fn prepend(head: Seq<Declaration>, rest: Option<Seq<Declaration>>) -> Option<
    Seq<Declaration>,
> {
    match rest {
        None => None,
        Some(tail) => Some(head + tail),
    }
}

/// The declarations of the text from `at` on, one per line, the lines
/// separated by single line breaks; a line break may end the last line.
/// Nothing where any line is no declaration.
///
/// A declaration's line ends behind its start and within the text, so the
/// comparison of `next_line` with `at` never fails: it shows that the
/// recursion ends.
pub open spec fn declarations_from(s: Seq<char>, at: int) -> Option<Seq<Declaration>>
    decreases s.len() - at,
{
    if at < 0 || at >= s.len() {
        Some(Seq::empty())
    } else {
        match declaration_at(s, at) {
            None => None,
            Some(found) => {
                let next = next_line(s, found.1);
                if !(at < next <= s.len()) {
                    None
                } else {
                    prepend(seq![found.0], declarations_from(s, next))
                }
            },
        }
    }
}

/// The declarations of a whole text.
pub open spec fn declarations(s: Seq<char>) -> Option<Seq<Declaration>> {
    declarations_from(s, 0)
}

/// A run of hexadecimal digits ends within the text, not before its start.
proof fn lemma_hex_run_end(s: Seq<char>, at: int)
    requires
        0 <= at <= s.len(),
    ensures
        at <= hex_run_end(s, at) <= s.len(),
    decreases s.len() - at,
{
    if at < s.len() && is_hex_digit(s[at]) {
        lemma_hex_run_end(s, at + 1);
    }
}

/// A payload ends within the text, not before its start, and at a line feed
/// or carriage return where it ends before the text does.
proof fn lemma_payload_end(s: Seq<char>, at: int)
    requires
        0 <= at <= s.len(),
    ensures
        at <= payload_end(s, at) <= s.len(),
        payload_end(s, at) < s.len() ==> s[payload_end(s, at)] == '\n' || s[payload_end(s, at)]
            == '\r',
    decreases s.len() - at,
{
    if at < s.len() && s[at] != '\n' && s[at] != '\r' {
        lemma_payload_end(s, at + 1);
    }
}

/// A declaration's line ends behind its start, and the next line starts
/// within the text: reading declarations one after the other always moves on.
pub proof fn law_declaration_advances(s: Seq<char>, at: int)
    ensures
        match declaration_at(s, at) {
            Some((d, end)) => at < end <= next_line(s, end) <= s.len(),
            None => true,
        },
{
    if declaration_at(s, at) is Some {
        lemma_hex_run_end(s, at + 1);
        let p = hex_run_end(s, at + 1);
        if p < s.len() {
            lemma_hex_run_end(s, p + 1);
        }
        match range_at(s, at) {
            Some((first, last, q)) => {
                lemma_payload_end(s, q + 1);
            },
            None => {},
        }
    }
}

fn hex_digit(c: char) -> (r: Option<u32>)
    ensures
        r is Some <==> is_hex_digit(c),
        r is Some ==> r->0 == hex_digit_value(c),
{
    if '0' <= c && c <= '9' {
        Some(c as u32 - '0' as u32)
    } else if 'a' <= c && c <= 'f' {
        Some(c as u32 - 'a' as u32 + 10)
    } else if 'A' <= c && c <= 'F' {
        Some(c as u32 - 'A' as u32 + 10)
    } else {
        None
    }
}

fn scan_codepoint(s: &[char], at: usize) -> (r: Option<(char, usize)>)
    requires
        at <= s@.len(),
    ensures
        match r {
            Some((c, end)) => codepoint_at(s@, at as int) == Some((c, end as int)) && at < end
                <= s@.len(),
            None => codepoint_at(s@, at as int) is None,
        },
{
    let n: usize = s.len();
    let mut k: usize = at;
    let mut value: u32 = 0;
    let mut too_big: bool = false;
    loop
        invariant
            n == s@.len(),
            at <= k <= n,
            hex_run_end(s@, at as int) == hex_run_end(s@, k as int),
            !too_big ==> value == hex_value(s@.subrange(at as int, k as int)) && value <= 0x10FFFF,
            too_big ==> hex_value(s@.subrange(at as int, k as int)) > 0x10FFFF,
        ensures
            at <= k <= n,
            hex_run_end(s@, at as int) == k,
            !too_big ==> value == hex_value(s@.subrange(at as int, k as int)) && value <= 0x10FFFF,
            too_big ==> hex_value(s@.subrange(at as int, k as int)) > 0x10FFFF,
        decreases n - k,
    {
        if k >= n {
            break ;
        }
        let digit = hex_digit(s[k]);
        match digit {
            None => {
                break ;
            },
            Some(d) => {
                proof {
                    let longer = s@.subrange(at as int, k as int + 1);
                    assert(longer.drop_last() =~= s@.subrange(at as int, k as int));
                    assert(longer.last() == s@[k as int]);
                }
                if !too_big {
                    value = value * 16 + d;
                    if value > 0x10FFFF {
                        too_big = true;
                    }
                }
                k = k + 1;
            },
        }
    }
    if k == at || too_big {
        return None;
    }
    match char::from_u32(value) {
        Some(c) => Some((c, k)),
        None => None,
    }
}

fn scan_range(s: &[char], at: usize) -> (r: Option<(char, char, usize)>)
    requires
        at <= s@.len(),
    ensures
        match r {
            Some((first, last, q)) => range_at(s@, at as int) == Some((first, last, q as int))
                && at < q <= s@.len(),
            None => range_at(s@, at as int) is None,
        },
{
    let n: usize = s.len();
    if at >= n || s[at] != '[' {
        return None;
    }
    let (first, p) = match scan_codepoint(s, at + 1) {
        None => {
            return None;
        },
        Some(found) => found,
    };
    let second = if p < n && s[p] == '-' {
        scan_codepoint(s, p + 1)
    } else {
        None
    };
    let (last, q) = match second {
        Some(found) => found,
        None => (first, p),
    };
    if q < n && s[q] == ']' {
        Some((first, last, q + 1))
    } else {
        None
    }
}

fn scan_payload(s: &[char], at: usize) -> (end: usize)
    requires
        at <= s@.len(),
    ensures
        at <= end <= s@.len(),
        end == payload_end(s@, at as int),
        end < s@.len() ==> s@[end as int] == '\n' || s@[end as int] == '\r',
{
    let n: usize = s.len();
    let mut k: usize = at;
    while k < n && s[k] != '\n' && s[k] != '\r'
        invariant
            n == s@.len(),
            at <= k <= n,
            payload_end(s@, at as int) == payload_end(s@, k as int),
        decreases n - k,
    {
        k = k + 1;
    }
    k
}

/// Reads the declaration that starts at position `at` of `s`. Gives it with
/// the position at which its line ends, or nothing where the text at `at` is
/// no declaration.
pub fn parse_at(s: &[char], at: usize) -> (r: Option<(PuaMapping, usize)>)
    ensures
        match r {
            Some((m, end)) => {
                &&& declaration_at(s@, at as int) == Some((m@, end as int))
                &&& at < end <= next_line(s@, end as int) <= s@.len()
            },
            None => declaration_at(s@, at as int) is None,
        },
{
    let n: usize = s.len();
    if at >= n {
        return None;
    }
    let (first, last, q) = match scan_range(s, at) {
        None => {
            return None;
        },
        Some(found) => found,
    };
    if q >= n || s[q] != '=' {
        return None;
    }
    let end: usize = scan_payload(s, q + 1);
    if end < n && s[end] == '\r' && !(end + 1 < n && s[end + 1] == '\n') {
        return None;
    }
    let ch = string_of(s, q + 1, end);
    Some((PuaMapping { first, last, ch }, end))
}

impl PuaMapping {
    /// The declaration of the range from `first` to `last`, both included,
    /// with the payload `ch`.
    pub fn new(first: char, last: char, ch: &str) -> (m: PuaMapping)
        ensures
            m@ == (Declaration { first, last, payload: ch@ }),
    {
        PuaMapping { first, last, ch: ch.to_owned() }
    }

    /// Reads one declaration from the start of `i`. Gives what is left of `i`
    /// behind the declaration's line, line break included, and the
    /// declaration; nothing where `i` does not start with a declaration.
    pub fn parse(i: &str) -> (r: Option<(String, PuaMapping)>)
        ensures
            match r {
                Some((rest, m)) => match declaration_at(i@, 0) {
                    Some((d, end)) => m@ == d && rest@ == i@.subrange(end, i@.len() as int),
                    None => false,
                },
                None => declaration_at(i@, 0) is None,
            },
    {
        let chars = chars_of(i);
        match parse_at(chars.as_slice(), 0) {
            None => None,
            Some((m, end)) => {
                let rest = string_of(chars.as_slice(), end, chars.len());
                Some((rest, m))
            },
        }
    }
}

/// Reads all declarations of `s`, one per line. Gives nothing where any line
/// is no declaration.
pub fn parse_declarations(s: &[char]) -> (r: Option<Vec<PuaMapping>>)
    ensures
        match r {
            Some(v) => declarations(s@) == Some(declarations_of(v@)),
            None => declarations(s@) is None,
        },
{
    let n: usize = s.len();
    let mut out: Vec<PuaMapping> = Vec::new();
    let mut at: usize = 0;
    assert(declarations_of(out@) =~= Seq::empty());
    assert(declarations(s@) == prepend(declarations_of(out@), declarations_from(s@, 0))) by {
        match declarations_from(s@, 0) {
            None => {},
            Some(tail) => {
                assert(declarations_of(out@) + tail =~= tail);
            },
        }
    }
    while at < n
        invariant
            n == s@.len(),
            at <= n,
            declarations(s@) == prepend(declarations_of(out@), declarations_from(s@, at as int)),
        decreases n - at,
    {
        match parse_at(s, at) {
            None => {
                return None;
            },
            Some((m, end)) => {
                let next: usize = if end >= n {
                    end
                } else if s[end] == '\n' {
                    end + 1
                } else {
                    end + 2
                };
                proof {
                    let before = declarations_of(out@);
                    let after = declarations_of(out@.push(m));
                    assert(after =~= before.push(m@));
                    match declarations_from(s@, next as int) {
                        None => {},
                        Some(tail) => {
                            assert(before + (seq![m@] + tail) =~= after + tail);
                        },
                    }
                }
                out.push(m);
                at = next;
            },
        }
    }
    assert(declarations_of(out@) + Seq::<Declaration>::empty() =~= declarations_of(out@));
    Some(out)
}

} // verus!
