use gamedef::gamedef::{get, get_by_alias, Game, GameDef, GameDefError};

fn profile(
    game: Game,
    name: &'static str,
    aliases: &'static [&'static str],
    charset: &str,
    compound: &str,
) -> Result<GameDef, GameDefError> {
    GameDef::new(game, name, aliases, None, vec!['\''], charset, compound)
}

fn catalog() -> Vec<GameDef> {
    vec![
        profile(Game::SteinsGateHD, "Steins;Gate Steam", &["sghd", "steinsgatehd"], "AB", "").unwrap(),
        profile(Game::RoboticsNotes, "Robotics;Notes", &["rn", "roboticsnotes"], "CD", "").unwrap(),
        profile(Game::SteinsGate0, "Steins;Gate 0", &["sg0", "steinsgate0", "rn"], "EF", "").unwrap(),
        profile(Game::SteinsGate0, "Steins;Gate 0 (Simplified Chinese)", &["sg0zhs"], "GH", "").unwrap(),
    ]
}

#[test]
fn profile_holds_table_and_map() {
    let def = GameDef::new(
        Game::SteinsGate0,
        "Steins;Gate 0",
        &["sg0", "steinsgate0"],
        Some(('\u{E12F}', '\u{E2AF}')),
        vec!['\'', '-'],
        "AB\r\n\u{E01C}\u{E01D}\r\n",
        "[E01C]=meow\n[E01D]=¹⁸\n",
    )
    .unwrap();
    assert!(def.game == Game::SteinsGate0);
    assert_eq!(def.full_name, "Steins;Gate 0");
    assert_eq!(def.aliases, &["sg0", "steinsgate0"]);
    assert_eq!(def.reserved_codepoints, Some(('\u{E12F}', '\u{E2AF}')));
    assert_eq!(def.fullwidth_blocklist, vec!['\'', '-']);
    assert_eq!(def.charset().len(), 192);
    assert_eq!(def.charset()[0], 'A');
    assert_eq!(def.charset()[1], 'B');
    assert_eq!(def.charset()[64], '\u{E01C}');
    assert_eq!(def.charset()[65], '\u{E01D}');
    assert_eq!(def.charset, def.charset());
    assert_eq!(def.compound_chars.len(), 2);
    assert_eq!(def.compound_chars.get(&0xE01C).unwrap(), "meow");
    assert_eq!(def.compound_chars.get(&0xE01D).unwrap(), "¹⁸");
}

#[test]
fn codepoint_without_slot_fails_construction() {
    let r = profile(Game::RoboticsNotes, "Robotics;Notes", &["rn"], "AB\n\u{E01C}", "[E01C-E01E]=x");
    match r {
        Err(GameDefError::MissingPuaChars(mut missing)) => {
            missing.sort();
            assert_eq!(missing, vec!['\u{E01D}', '\u{E01E}']);
        }
        _ => panic!("a code point without a slot was accepted"),
    }
}

#[test]
fn codepoint_at_null_slot_fails_construction() {
    let r = profile(Game::RoboticsNotes, "Robotics;Notes", &["rn"], "A\n\nB", "[0]=x");
    assert!(matches!(r, Err(GameDefError::MissingPuaChars(ref m)) if m == &vec!['\0']));
    let r = profile(Game::RoboticsNotes, "Robotics;Notes", &["rn"], "A B", "[20]=x");
    assert!(matches!(r, Err(GameDefError::MissingPuaChars(ref m)) if m == &vec![' ']));
}

#[test]
fn bad_declaration_fails_construction() {
    let r = profile(Game::RoboticsNotes, "Robotics;Notes", &["rn"], "AB", "[41]=x\nnonsense");
    assert!(matches!(r, Err(GameDefError::Grammar)));
    let r = profile(Game::RoboticsNotes, "Robotics;Notes", &["rn"], "", "[E01C]=x\nnonsense");
    assert!(matches!(r, Err(GameDefError::Grammar)));
}

#[test]
fn alias_finds_its_profile() {
    let defs = catalog();
    assert_eq!(get_by_alias(&defs, "sghd").unwrap().full_name, "Steins;Gate Steam");
    assert_eq!(get_by_alias(&defs, "steinsgate0").unwrap().full_name, "Steins;Gate 0");
    assert_eq!(get_by_alias(&defs, "sg0zhs").unwrap().full_name, "Steins;Gate 0 (Simplified Chinese)");
    assert!(std::ptr::eq(get_by_alias(&defs, "roboticsnotes").unwrap(), &defs[1]));
}

#[test]
fn shared_alias_finds_the_first_profile() {
    let defs = catalog();
    assert!(std::ptr::eq(get_by_alias(&defs, "rn").unwrap(), &defs[1]));
}

#[test]
fn unknown_alias_finds_nothing() {
    let defs = catalog();
    assert!(get_by_alias(&defs, "SGHD").is_none());
    assert!(get_by_alias(&defs, "sg").is_none());
    assert!(get_by_alias(&defs, "").is_none());
    assert!(get_by_alias(&defs, "Steins;Gate 0").is_none());
    assert!(get_by_alias(&[], "sghd").is_none());
}

#[test]
fn is_alias_compares_letter_for_letter() {
    let defs = catalog();
    assert!(defs[0].is_alias("steinsgatehd"));
    assert!(!defs[0].is_alias("steinsgateh"));
    assert!(!defs[0].is_alias("rn"));
}

#[test]
fn title_finds_the_first_profile() {
    let defs = catalog();
    assert!(std::ptr::eq(get(&defs, Game::SteinsGateHD), &defs[0]));
    assert!(std::ptr::eq(get(&defs, Game::RoboticsNotes), &defs[1]));
    assert!(std::ptr::eq(get(&defs, Game::SteinsGate0), &defs[2]));
}
