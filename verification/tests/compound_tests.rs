use gamedef::compound::{parse_at, parse_declarations, PuaMapping};
use gamedef::compound_map::{expand, missing_pua_chars, parse_compound_ch_map};

fn chars(s: &str) -> Vec<char> {
    s.chars().collect()
}

#[test]
fn parse_pua_mapping() {
    assert_eq!(
        PuaMapping::parse("[E01C]=meow").unwrap().1,
        PuaMapping::new('\u{E01C}', '\u{E01C}', "meow")
    );

    assert_eq!(
        PuaMapping::parse("[E01C-E01F]=¹⁸").unwrap().1,
        PuaMapping::new('\u{E01C}', '\u{E01F}', "¹⁸")
    );
}

#[test]
fn new_keeps_its_arguments() {
    let m = PuaMapping::new('a', 'c', "xy");
    assert_eq!(m.first, 'a');
    assert_eq!(m.last, 'c');
    assert_eq!(m.ch, "xy");
}

#[test]
fn parse_gives_the_rest_of_the_text() {
    let (rest, m) = PuaMapping::parse("[e01c]=a b\n[E01D]=c").unwrap();
    assert_eq!(rest, "\n[E01D]=c");
    assert_eq!(m, PuaMapping::new('\u{E01C}', '\u{E01C}', "a b"));
    let (rest, m) = PuaMapping::parse("[41]=\r\nx").unwrap();
    assert_eq!(rest, "\r\nx");
    assert_eq!(m, PuaMapping::new('A', 'A', ""));
    let (rest, _) = PuaMapping::parse("[41]=z").unwrap();
    assert_eq!(rest, "");
}

#[test]
fn parse_accepts_leading_zeros_and_mixed_case() {
    assert_eq!(
        PuaMapping::parse("[0000000000e0Ff-10ffff]=x").unwrap().1,
        PuaMapping::new('\u{E0FF}', '\u{10FFFF}', "x")
    );
}

#[test]
fn parse_rejects_what_is_no_declaration() {
    for bad in [
        "",
        "E01C=meow",
        "[]=x",
        "[E01C=x",
        "[E01C]x",
        "[E01C]",
        "[E01C-]=x",
        "[-E01C]=x",
        "[E01C-E01D-E01E]=x",
        "[G]=x",
        "[+E01C]=x",
        "[ E01C]=x",
        "[D800]=x",
        "[DFFF]=x",
        "[110000]=x",
        "[FFFFFFFFF]=x",
        "[E01C-D800]=x",
        "[E01C]=a\rb",
        "[E01C]=a\r",
        " [E01C]=a",
    ] {
        assert_eq!(PuaMapping::parse(bad), None, "{:?}", bad);
    }
}

#[test]
fn parse_at_reads_from_a_position() {
    let text = chars("xx[41-43]=p\nrest");
    let (m, end) = parse_at(&text, 2).unwrap();
    assert_eq!(m, PuaMapping::new('A', 'C', "p"));
    assert_eq!(end, 11);
    assert_eq!(parse_at(&text, 0), None);
    assert_eq!(parse_at(&text, text.len()), None);
}

#[test]
fn declarations_are_read_line_by_line() {
    let text = chars("[E01C]=meow\n[E01D-E01F]=¹⁸\r\n[41]=");
    assert_eq!(
        parse_declarations(&text).unwrap(),
        vec![
            PuaMapping::new('\u{E01C}', '\u{E01C}', "meow"),
            PuaMapping::new('\u{E01D}', '\u{E01F}', "¹⁸"),
            PuaMapping::new('A', 'A', ""),
        ]
    );
}

#[test]
fn a_line_break_may_end_the_last_line() {
    assert_eq!(
        parse_declarations(&chars("[41]=a\n")).unwrap(),
        vec![PuaMapping::new('A', 'A', "a")]
    );
    assert_eq!(
        parse_declarations(&chars("[41]=a\r\n")).unwrap(),
        vec![PuaMapping::new('A', 'A', "a")]
    );
    assert_eq!(parse_declarations(&chars("")).unwrap(), vec![]);
}

#[test]
fn one_bad_line_rejects_the_whole_text() {
    for bad in ["\n", "[41]=a\n\n[42]=b", "[41]=a\n\n", "[41]=a\nnonsense", "nonsense\n[41]=a", "[41]=a\n[D800]=b"] {
        assert_eq!(parse_declarations(&chars(bad)), None, "{:?}", bad);
        assert!(parse_compound_ch_map(bad).is_none(), "{:?}", bad);
    }
}

#[test]
fn single_codepoint_gives_one_entry() {
    let map = expand(&[PuaMapping::new('\u{E01C}', '\u{E01C}', "meow")]);
    assert_eq!(map.len(), 1);
    assert_eq!(map.get(&0xE01C).unwrap(), "meow");
}

#[test]
fn range_gives_an_entry_for_each_codepoint() {
    let map = expand(&[PuaMapping::new('\u{E01C}', '\u{E01F}', "¹⁸")]);
    assert_eq!(map.len(), 4);
    for c in 0xE01C..=0xE01F {
        assert_eq!(map.get(&c).unwrap(), "¹⁸");
    }
    assert!(map.get(&0xE01B).is_none());
    assert!(map.get(&0xE020).is_none());
}

#[test]
fn empty_range_gives_no_entry() {
    assert_eq!(expand(&[PuaMapping::new('\u{E01F}', '\u{E01C}', "x")]).len(), 0);
    assert_eq!(expand(&[]).len(), 0);
}

#[test]
fn range_skips_surrogates() {
    let map = expand(&[PuaMapping::new('\u{D7FF}', '\u{E000}', "x")]);
    assert_eq!(map.len(), 2);
    assert!(map.contains_key(&0xD7FF));
    assert!(map.contains_key(&0xE000));
}

#[test]
fn later_declaration_wins() {
    let map = parse_compound_ch_map("[E01C-E01E]=first\n[E01D]=second").unwrap();
    assert_eq!(map.len(), 3);
    assert_eq!(map.get(&0xE01C).unwrap(), "first");
    assert_eq!(map.get(&0xE01D).unwrap(), "second");
    assert_eq!(map.get(&0xE01E).unwrap(), "first");
    let map = parse_compound_ch_map("[E01D]=second\n[E01C-E01E]=first\n").unwrap();
    assert_eq!(map.get(&0xE01D).unwrap(), "first");
}

#[test]
fn empty_text_gives_empty_map() {
    assert_eq!(parse_compound_ch_map("").unwrap().len(), 0);
}

#[test]
fn missing_codepoints_are_listed_once() {
    let table = vec!['A', '\0', '\u{E01D}'];
    let decls = vec![
        PuaMapping::new('\u{E01C}', '\u{E01E}', "x"),
        PuaMapping::new('A', 'A', "y"),
        PuaMapping::new('\u{E01E}', '\u{E01F}', "z"),
    ];
    let mut missing = missing_pua_chars(&table, &decls);
    missing.sort();
    assert_eq!(missing, vec!['\u{E01C}', '\u{E01E}', '\u{E01F}']);
    assert_eq!(missing_pua_chars(&table, &decls[1..2]), vec![]);
}

#[test]
fn null_codepoint_is_never_in_the_table() {
    let table = vec!['\0', 'A'];
    assert_eq!(missing_pua_chars(&table, &[PuaMapping::new('\0', '\0', "x")]), vec!['\0']);
}
