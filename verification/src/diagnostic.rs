//! The diagnostic for a compound map that names code points which the glyph
//! table has no slot for.

use itertools::Itertools;
use vstd::prelude::*;
use vstd::string::*;

verus! {

/// The Unicode escape of `ch` as `char::escape_unicode` writes it: the code
/// point in hexadecimal between `\u{` and `}`.
pub uninterp spec fn unicode_escape(ch: char) -> Seq<char>;

/// The character sequences of a list of strings.
pub open spec fn strings_of(v: Seq<String>) -> Seq<Seq<char>> {
    v.map_values(|s: String| s@)
}

/// `s` between single quotes.
pub open spec fn quoted(s: Seq<char>) -> Seq<char> {
    seq!['\''] + s + seq!['\'']
}

/// The items in their order, with `sep` between each two.
pub open spec fn joined(items: Seq<Seq<char>>, sep: Seq<char>) -> Seq<char>
    decreases items.len(),
{
    if items.len() == 0 {
        Seq::empty()
    } else if items.len() == 1 {
        items[0]
    } else {
        joined(items.drop_last(), sep) + sep + items.last()
    }
}

/// The diagnostic for the profile named `full_name`: it lists the escapes,
/// each between single quotes, with a comma and a space between them.
pub open spec fn diagnostic(full_name: Seq<char>, escapes: Seq<Seq<char>>) -> Seq<char> {
    "Error while constructing encoding maps for "@ + full_name
        + ". The following Private Use Area characters were not found in the charset: ["@
        + joined(escapes.map_values(|e: Seq<char>| quoted(e)), ", "@) + "]"@
}

/// `char::escape_unicode` gives the escape of a character, which depends on
/// the character alone; this collects it into a string.
#[verifier::external_body]
fn escape_unicode(ch: char) -> (r: String)
    ensures
        r@ == unicode_escape(ch),
{
    ch.escape_unicode().collect()
}

/// `Itertools::join` writes the items one after the other with `sep`
/// between each two, and nothing for no items. It reserves room for the
/// separators first, which must be within what a string can hold.
#[verifier::external_body]
fn join_strings(items: &[String], sep: &str) -> (r: String)
    requires
        4 * sep@.len() * items@.len() <= isize::MAX,
    ensures
        r@ == joined(strings_of(items@), sep@),
{
    items.iter().join(sep)
}

/// Puts `s` between single quotes.
pub fn quote(s: &str) -> (r: String)
    ensures
        r@ == quoted(s@),
{
    let mut r = String::new();
    r.push('\'');
    r.append(s);
    r.push('\'');
    r
}

/// Writes the diagnostic for the profile named `full_name` from the escapes
/// of the code points that its glyph table has no slot for.
pub fn format_missing(full_name: &str, escapes: &[String]) -> (r: String)
    requires
        8 * escapes@.len() <= isize::MAX,
    ensures
        r@ == diagnostic(full_name@, strings_of(escapes@)),
{
    let mut items: Vec<String> = Vec::new();
    let mut k: usize = 0;
    let ghost wanted = strings_of(escapes@).map_values(|e: Seq<char>| quoted(e));
    while k < escapes.len()
        invariant
            k <= escapes@.len(),
            wanted == strings_of(escapes@).map_values(|e: Seq<char>| quoted(e)),
            wanted.len() == escapes@.len(),
            items@.len() == k,
            strings_of(items@) == wanted.take(k as int),
        decreases escapes@.len() - k,
    {
        let item = quote(escapes[k].as_str());
        let ghost prev = items@;
        items.push(item);
        proof {
            assert forall|j: int| 0 <= j <= k implies strings_of(items@)[j] == wanted[j] by {
                if j < k {
                    assert(strings_of(prev)[j] == wanted.take(k as int)[j]);
                    assert(items@[j] == prev[j]);
                } else {
                    assert(strings_of(escapes@)[j] == escapes@[j]@);
                }
            }
        }
        k = k + 1;
        assert(strings_of(items@) =~= wanted.take(k as int));
    }
    assert(wanted.take(k as int) =~= wanted);
    proof {
        reveal_strlit(", ");
    }
    let list = join_strings(items.as_slice(), ", ");
    let mut r = String::new();
    r.append("Error while constructing encoding maps for ");
    r.append(full_name);
    r.append(". The following Private Use Area characters were not found in the charset: [");
    r.append(list.as_str());
    r.append("]");
    assert(r@ =~= diagnostic(full_name@, strings_of(escapes@)));
    r
}

/// Writes the diagnostic for the profile named `full_name` whose glyph table
/// has no slot for the code points `missing`.
pub fn missing_message(full_name: &str, missing: &[char]) -> (r: String)
    requires
        8 * missing@.len() <= isize::MAX,
    ensures
        r@ == diagnostic(full_name@, missing@.map_values(|ch: char| unicode_escape(ch))),
{
    let mut escapes: Vec<String> = Vec::new();
    let mut k: usize = 0;
    let ghost wanted = missing@.map_values(|ch: char| unicode_escape(ch));
    while k < missing.len()
        invariant
            k <= missing@.len(),
            wanted == missing@.map_values(|ch: char| unicode_escape(ch)),
            wanted.len() == missing@.len(),
            escapes@.len() == k,
            strings_of(escapes@) == wanted.take(k as int),
        decreases missing@.len() - k,
    {
        let escape = escape_unicode(missing[k]);
        let ghost prev = escapes@;
        escapes.push(escape);
        proof {
            assert forall|j: int| 0 <= j <= k implies strings_of(escapes@)[j] == wanted[j] by {
                if j < k {
                    assert(strings_of(prev)[j] == wanted.take(k as int)[j]);
                    assert(escapes@[j] == prev[j]);
                }
            }
        }
        k = k + 1;
        assert(strings_of(escapes@) =~= wanted.take(k as int));
    }
    assert(wanted.take(k as int) =~= wanted);
    format_missing(full_name, escapes.as_slice())
}

} // verus!
