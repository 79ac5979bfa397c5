//! Game profiles: a glyph table and a compound map under a name, and the
//! lookup of a profile in a catalog.

use crate::charset::{build_table, strip_cr, table_len, table_of, without_cr};
use crate::compound::{declarations, parse_declarations};
use crate::compound_map::{
    expand, expansion, in_table, is_missing, law_keys_are_declared, missing_pua_chars, payloads,
};
use crate::text::{chars_of, is_scalar};
use std::collections::HashMap;
use vstd::prelude::*;

verus! {

/// The titles that have a profile.
#[derive(Copy, Clone, Eq, PartialEq, Structural, Debug)]
pub enum Game {
    SteinsGateHD,
    RoboticsNotes,
    SteinsGatePhenogram,
    SteinsGate0,
    RoboticsNotesDash,
}

/// The profile of one game.
pub struct GameDef {
    /// The title that the profile belongs to.
    pub game: Game,
    /// The name shown to readers.
    pub full_name: &'static str,
    /// The names by which the profile is found.
    pub aliases: &'static [&'static str],
    /// A reserved range of code points, first and last: carried along, read
    /// by nothing here.
    pub reserved_codepoints: Option<(char, char)>,
    /// The glyph table: the character at each byte code.
    pub charset: Vec<char>,
    /// The compound map: the string that stands for each code point.
    pub compound_chars: HashMap<u32, String>,
    /// The characters that the encoding engine keeps out of its fullwidth pass.
    pub fullwidth_blocklist: Vec<char>,
}

/// Why a profile could not be made.
#[derive(Debug)]
pub enum GameDefError {
    /// Some line of the compound-character text is no declaration.
    Grammar,
    /// The compound map names these code points, and the glyph table has no
    /// slot for them.
    MissingPuaChars(Vec<char>),
}

impl GameDef {
    /// The table is made of whole rows, every key of the compound map is the
    /// code point of a character, and the table has a slot for each of them.
    pub open spec fn wf(&self) -> bool {
        &&& self.charset@.len() % 64 == 0
        &&& forall|c: u32| #[trigger] self.compound_chars@.contains_key(c) ==> is_scalar(c as int)
        &&& forall|ch: char| #[trigger]
            self.compound_chars@.contains_key(ch as u32) ==> in_table(self.charset@, ch)
    }

    /// Whether `alias` is one of the profile's aliases.
    pub open spec fn has_alias(&self, alias: Seq<char>) -> bool {
        exists|k: int| 0 <= k < self.aliases@.len() && (#[trigger] self.aliases@[k])@ == alias
    }

    /// Makes the profile of `game` from its glyph source text and its
    /// compound-character text.
    ///
    /// The glyph table is built from `charset_text` without its carriage
    /// returns, the compound map from the declarations of `compound_text`.
    /// The profile is made where every line of `compound_text` is a
    /// declaration and the table has a slot for every declared code point;
    /// otherwise the error says which of the two failed, and lists every
    /// code point without a slot.
    pub fn new(
        game: Game,
        full_name: &'static str,
        aliases: &'static [&'static str],
        reserved_codepoints: Option<(char, char)>,
        fullwidth_blocklist: Vec<char>,
        charset_text: &str,
        compound_text: &str,
    ) -> (r: Result<GameDef, GameDefError>)
        requires
            table_len(without_cr(charset_text@)) <= usize::MAX,
        ensures
            match r {
                Ok(def) => match declarations(compound_text@) {
                    Some(ds) => {
                        &&& def.charset@ == table_of(without_cr(charset_text@))
                        &&& payloads(def.compound_chars@) == expansion(ds)
                        &&& forall|ch: char| !is_missing(def.charset@, ds, ch)
                        &&& def.wf()
                        &&& def.game == game
                        &&& def.full_name == full_name
                        &&& def.aliases == aliases
                        &&& def.reserved_codepoints == reserved_codepoints
                        &&& def.fullwidth_blocklist == fullwidth_blocklist
                    },
                    None => false,
                },
                Err(GameDefError::Grammar) => declarations(compound_text@) is None,
                Err(GameDefError::MissingPuaChars(missing)) => match declarations(compound_text@) {
                    Some(ds) => {
                        &&& missing@.len() > 0
                        &&& missing@.no_duplicates()
                        &&& forall|ch: char| #[trigger]
                            missing@.contains(ch) <==> is_missing(
                                table_of(without_cr(charset_text@)),
                                ds,
                                ch,
                            )
                    },
                    None => false,
                },
            },
    {
        let source = strip_cr(chars_of(charset_text).as_slice());
        let charset = build_table(source.as_slice());
        let compound = chars_of(compound_text);
        let decls = match parse_declarations(compound.as_slice()) {
            None => {
                return Err(GameDefError::Grammar);
            },
            Some(decls) => decls,
        };
        let missing = missing_pua_chars(charset.as_slice(), decls.as_slice());
        if missing.len() > 0 {
            return Err(GameDefError::MissingPuaChars(missing));
        }
        let compound_chars = expand(decls.as_slice());
        proof {
            let ds = declarations(compound_text@)->0;
            assert forall|ch: char| !is_missing(charset@, ds, ch) by {
                if is_missing(charset@, ds, ch) {
                    assert(missing@.contains(ch));
                }
            }
            assert forall|c: u32| #[trigger] compound_chars@.contains_key(c) implies is_scalar(
                c as int,
            ) by {
                assert(payloads(compound_chars@).contains_key(c));
                law_keys_are_declared(ds, c);
            }
            assert forall|ch: char| #[trigger]
                compound_chars@.contains_key(ch as u32) implies in_table(charset@, ch) by {
                assert(payloads(compound_chars@).contains_key(ch as u32));
                assert(!is_missing(charset@, ds, ch));
            }
        }
        Ok(
            GameDef {
                game,
                full_name,
                aliases,
                reserved_codepoints,
                charset,
                compound_chars,
                fullwidth_blocklist,
            },
        )
    }

    /// The glyph table: the character at each byte code.
    pub fn charset(&self) -> (table: &[char])
        ensures
            table@ == self.charset@,
    {
        self.charset.as_slice()
    }

    /// Whether `alias` is one of the profile's aliases, letter for letter.
    pub fn is_alias(&self, alias: &str) -> (r: bool)
        ensures
            r == self.has_alias(alias@),
    {
        let mut k: usize = 0;
        while k < self.aliases.len()
            invariant
                k <= self.aliases@.len(),
                forall|p: int| 0 <= p < k ==> (#[trigger] self.aliases@[p])@ != alias@,
            decreases self.aliases@.len() - k,
        {
            if self.aliases[k].eq(alias) {
                return true;
            }
            k = k + 1;
        }
        false
    }
}

/// The profile of `game`: the first of `defs` that belongs to it. The
/// catalog must hold one.
pub fn get(defs: &[GameDef], game: Game) -> (def: &GameDef)
    requires
        exists|i: int| 0 <= i < defs@.len() && (#[trigger] defs@[i]).game == game,
    ensures
        exists|i: int|
            {
                &&& 0 <= i < defs@.len()
                &&& *def == #[trigger] defs@[i]
                &&& defs@[i].game == game
                &&& forall|j: int| 0 <= j < i ==> (#[trigger] defs@[j]).game != game
            },
{
    let mut i: usize = 0;
    loop
        invariant
            i < defs@.len(),
            exists|k: int| i <= k < defs@.len() && (#[trigger] defs@[k]).game == game,
            forall|j: int| 0 <= j < i ==> (#[trigger] defs@[j]).game != game,
        decreases defs@.len() - i,
    {
        if defs[i].game == game {
            return &defs[i];
        }
        i = i + 1;
    }
}

/// The first profile of `defs` that has `alias` among its aliases, or
/// nothing where none has it.
pub fn get_by_alias<'a>(defs: &'a [GameDef], alias: &str) -> (r: Option<&'a GameDef>)
    ensures
        match r {
            Some(def) => exists|i: int|
                {
                    &&& 0 <= i < defs@.len()
                    &&& *def == #[trigger] defs@[i]
                    &&& defs@[i].has_alias(alias@)
                    &&& forall|j: int| 0 <= j < i ==> !(#[trigger] defs@[j]).has_alias(alias@)
                },
            None => forall|i: int| 0 <= i < defs@.len() ==> !(#[trigger] defs@[i]).has_alias(alias@),
        },
{
    let mut i: usize = 0;
    while i < defs.len()
        invariant
            i <= defs@.len(),
            forall|j: int| 0 <= j < i ==> !(#[trigger] defs@[j]).has_alias(alias@),
        decreases defs@.len() - i,
    {
        if defs[i].is_alias(alias) {
            return Some(&defs[i]);
        }
        i = i + 1;
    }
    None
}

} // verus!
