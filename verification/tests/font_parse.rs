use figfont::font::{glyph_code_at, strip_row, Font, FontOpts, ParseError};
use figfont::layout::{LayoutMode, SmushingRule};

fn cs(s: &str) -> Vec<char> {
    s.chars().collect()
}

#[test]
fn parse_font_head() {
    let fo = FontOpts::parse("flf2a$ 8 8 20 -1 6").unwrap();
    assert_eq!(fo.hardblank, '$');
    assert_eq!(fo.height, 8);
    assert_eq!(fo.baseline, 8);
    assert_eq!(fo.max_length, 20);
    assert_eq!(fo.old_layout, -1);
    assert_eq!(fo.comment_lines, 6);
    assert_eq!(fo.print_direction, 0);
    assert_eq!(fo.full_layout, None);
    assert_eq!(fo.codetag_count, None);
}

#[test]
fn header_with_every_field() {
    let fo = FontOpts::parse("flf2a$ 6 5 16 15 11 0 24463 229").unwrap();
    assert_eq!(
        fo,
        FontOpts {
            hardblank: '$',
            height: 6,
            baseline: 5,
            max_length: 16,
            old_layout: 15,
            comment_lines: 11,
            print_direction: 0,
            full_layout: Some(24463),
            codetag_count: Some(229),
        }
    );
}

#[test]
fn header_fields_keep_their_numbers() {
    let fo = FontOpts::parse("  tlf2a# \t 12  +3 0\t-17 4 1 -2 7 ignored").unwrap();
    assert_eq!(fo.hardblank, '#');
    assert_eq!(fo.height, 12);
    assert_eq!(fo.baseline, 3);
    assert_eq!(fo.max_length, 0);
    assert_eq!(fo.old_layout, -17);
    assert_eq!(fo.comment_lines, 4);
    assert_eq!(fo.print_direction, 1);
    assert_eq!(fo.full_layout, Some(-2));
    assert_eq!(fo.codetag_count, Some(7));
}

#[test]
fn header_of_one_character_signature() {
    let fo = FontOpts::parse("% 1 1 1 0 0").unwrap();
    assert_eq!(fo.hardblank, '%');
    assert_eq!(fo.old_layout, 0);
}

#[test]
fn trailing_fields_that_are_no_numbers_are_absent() {
    let fo = FontOpts::parse("flf2a$ 6 5 16 15 11 0 x 229").unwrap();
    assert_eq!(fo.full_layout, None);
    assert_eq!(fo.codetag_count, Some(229));
    let fo = FontOpts::parse("flf2a$ 6 5 16 15 11 0 24463 -1").unwrap();
    assert_eq!(fo.full_layout, Some(24463));
    assert_eq!(fo.codetag_count, None);
}

#[test]
fn header_errors() {
    assert_eq!(FontOpts::parse("").unwrap_err(), ParseError::Header);
    assert_eq!(FontOpts::parse("   ").unwrap_err(), ParseError::Header);
    assert_eq!(FontOpts::parse("flf2a$").unwrap_err(), ParseError::Header);
    assert_eq!(FontOpts::parse("flf2a$ 8 8 20 -1").unwrap_err(), ParseError::Header);
    assert_eq!(FontOpts::parse("flf2a$ x 8 20 -1 6").unwrap_err(), ParseError::Header);
    assert_eq!(FontOpts::parse("flf2a$ 8 -8 20 -1 6").unwrap_err(), ParseError::Header);
    assert_eq!(FontOpts::parse("flf2a$ 8 8 2o -1 6").unwrap_err(), ParseError::Header);
    assert_eq!(FontOpts::parse("flf2a$ 8 8 20 - 6").unwrap_err(), ParseError::Header);
    assert_eq!(FontOpts::parse("flf2a$ 8 8 20 -1 +").unwrap_err(), ParseError::Header);
    assert_eq!(FontOpts::parse("flf2a$ 8 8 20 -1 6 left").unwrap_err(), ParseError::Header);
    assert_eq!(
        FontOpts::parse("flf2a$ 99999999999999999999999999 8 20 -1 6").unwrap_err(),
        ParseError::Header
    );
}

#[test]
fn parse_chars_reads_the_same_header() {
    let line = "flf2a$ 8 8 20 -1 6 1 64 3";
    assert_eq!(FontOpts::parse_chars(&cs(line)), FontOpts::parse(line));
    assert_eq!(FontOpts::parse_chars(&cs("nothing")), Err(ParseError::Header));
}

#[test]
fn glyph_codes_in_file_order() {
    assert_eq!(glyph_code_at(0), 32);
    assert_eq!(glyph_code_at(1), 33);
    assert_eq!(glyph_code_at(93), 125);
    let latin: Vec<u16> = (94..101).map(glyph_code_at).collect();
    assert_eq!(latin, vec![196, 214, 220, 228, 246, 252, 223]);
}

#[test]
fn end_mark_leaves_the_row() {
    assert_eq!(strip_row(&cs(" _ @")), cs(" _ "));
    assert_eq!(strip_row(&cs("|_|@@")), cs("|_|"));
    assert_eq!(strip_row(&cs("x")), cs(""));
    assert_eq!(strip_row(&cs("")), cs(""));
    assert_eq!(strip_row(&cs("@@")), cs(""));
    assert_eq!(strip_row(&cs("@  #")), cs("@  "));
}

#[test]
fn end_mark_inside_the_row_stays() {
    assert_eq!(strip_row(&cs("@a@")), cs("@a"));
    assert_eq!(strip_row(&cs("a@b@")), cs("a@b"));
    assert_eq!(strip_row(&cs("a@b@@")), cs("a@b"));
    assert_eq!(strip_row(&cs("@@@")), cs("@"));
    assert_eq!(strip_row(&cs("@@@@")), cs("@@"));
    assert_eq!(strip_row(&cs("#a##")), cs("#a"));
    let font = Font::parse_font("t", "flf2a$ 1 1 3 -1 0\n@a@").unwrap();
    assert_eq!(font.chars.get(&32).unwrap(), &vec![vec!['@', 'a']]);
    let font = Font::parse_font("t", "flf2a$ 2 2 3 -1 0\n@ @\n@a@@").unwrap();
    assert_eq!(font.chars.get(&32).unwrap(), &vec![cs("@ "), cs("@a")]);
}

#[test]
fn header_with_height_zero_is_rejected() {
    assert_eq!(FontOpts::parse("flf2a$ 0 0 0 -1 0").unwrap_err(), ParseError::Height);
    assert_eq!(FontOpts::parse("flf2a$ +0 8 20 -1 6 0 64 3").unwrap_err(), ParseError::Height);
    assert_eq!(FontOpts::parse("flf2a$ 0 x 20 -1 6").unwrap_err(), ParseError::Header);
    assert_eq!(FontOpts::parse("flf2a$ 0 8 20 -1 6 x").unwrap_err(), ParseError::Header);
    assert_eq!(FontOpts::parse("flf2a$ 0 8 20").unwrap_err(), ParseError::Header);
    assert_eq!(FontOpts::parse_chars(&cs("flf2a$ 0 0 0 -1 0")), Err(ParseError::Height));
    assert_eq!(FontOpts::parse("flf2a$ 1 0 0 -1 0").unwrap().height, 1);
}

#[test]
fn well_formed_fonts() {
    let font = Font::parse_font("tiny", "flf2a$ 2 2 10 -1 0\na@\nb@@\nc@\nd@@").unwrap();
    assert!(font.is_well_formed());
    let mut short = Font::parse_font("tiny", "flf2a$ 2 2 10 -1 0\na@\nb@@\nc@\nd@@").unwrap();
    short.chars.insert(40, vec![cs("x")]);
    assert!(!short.is_well_formed());
    short.chars.insert(40, vec![cs("x"), cs("y")]);
    assert!(short.is_well_formed());
    short.font_head.height = 3;
    assert!(!short.is_well_formed());
    assert!(!Font::default().is_well_formed());
    let mut empty = Font::default();
    empty.font_head.height = 1;
    assert!(empty.is_well_formed());
}

#[test]
fn parse_font_reads_comment_and_glyphs() {
    let data = "flf2a$ 2 2 10 -1 2\nfirst comment\nsecond comment\n $@\n $@@\n/|@\n\\|@@\n";
    let font = Font::parse_font("tiny", data).unwrap();
    assert_eq!(font.name, "tiny");
    assert_eq!(font.font_head.height, 2);
    assert_eq!(font.font_head.hardblank, '$');
    assert_eq!(font.meta_data, "first comment\nsecond comment");
    assert_eq!(font.chars.len(), 2);
    assert_eq!(font.chars.get(&32).unwrap(), &vec![cs(" $"), cs(" $")]);
    assert_eq!(font.chars.get(&33).unwrap(), &vec![cs("/|"), cs("\\|")]);
    assert!(font.chars.get(&34).is_none());
    assert_eq!(font.rules.horizontal_layout, LayoutMode::FullWidth);
    assert_eq!(font.rules.vertical_layout, LayoutMode::FullWidth);
    assert!(font.rules.horizontal_rules.is_empty());
}

#[test]
fn parse_font_drops_rows_that_fill_no_glyph() {
    let data = "flf2a$ 2 2 10 0 0\na@\nb@\nc@\nd@\ne@";
    let font = Font::parse_font("odd", data).unwrap();
    assert_eq!(font.chars.len(), 2);
    assert_eq!(font.chars.get(&33).unwrap(), &vec![cs("c"), cs("d")]);
    assert_eq!(font.meta_data, "");
    assert_eq!(font.rules.horizontal_layout, LayoutMode::Fitting);
    assert_eq!(font.rules.vertical_rules, vec![SmushingRule::HorizontalFitting]);
}

#[test]
fn parse_font_with_carriage_returns_and_empty_rows() {
    let data = "flf2a$ 1 1 10 -1 1\r\nnote\r\nab@\r\n\r\ncd@";
    let font = Font::parse_font("crlf", data).unwrap();
    assert_eq!(font.meta_data, "note");
    assert_eq!(font.chars.len(), 3);
    assert_eq!(font.chars.get(&32).unwrap(), &vec![cs("ab")]);
    assert_eq!(font.chars.get(&33).unwrap(), &vec![cs("")]);
    assert_eq!(font.chars.get(&34).unwrap(), &vec![cs("cd")]);
}

#[test]
fn parse_font_with_more_comment_lines_than_lines() {
    let font = Font::parse_font("short", "flf2a$ 1 1 10 -1 5\none\ntwo").unwrap();
    assert_eq!(font.meta_data, "one\ntwo");
    assert!(font.chars.is_empty());
    let font = Font::parse_font("bare", "flf2a$ 1 1 10 -1 18446744073709551615").unwrap();
    assert_eq!(font.meta_data, "");
    assert!(font.chars.is_empty());
}

#[test]
fn parse_font_takes_at_most_the_known_codes() {
    let mut data = String::from("flf2a$ 1 1 10 -1 0");
    for i in 0..150 {
        data.push_str(&format!("\n{}@", i));
    }
    let font = Font::parse_font("many", &data).unwrap();
    assert_eq!(font.chars.len(), 101);
    assert_eq!(font.chars.get(&32).unwrap(), &vec![cs("0")]);
    assert_eq!(font.chars.get(&125).unwrap(), &vec![cs("93")]);
    assert_eq!(font.chars.get(&196).unwrap(), &vec![cs("94")]);
    assert_eq!(font.chars.get(&223).unwrap(), &vec![cs("100")]);
    assert!(font.chars.get(&126).is_none());
}

#[test]
fn parse_font_errors() {
    assert_eq!(Font::parse_font("none", "").unwrap_err(), ParseError::Header);
    assert_eq!(Font::parse_font("bad", "flf2a$ 8 8\nx@").unwrap_err(), ParseError::Header);
    assert_eq!(
        Font::parse_font("flat", "flf2a$ 0 0 10 -1 0\nx@").unwrap_err(),
        ParseError::Height
    );
    assert_eq!(
        Font::parse_font("vague", "flf2a$ 1 1 10 15 0 0 0\nx@").unwrap_err(),
        ParseError::Layout
    );
    assert_eq!(
        Font::parse_font("vague", "flf2a$ 1 1 10 -2 0\nx@").unwrap_err(),
        ParseError::Layout
    );
    assert_eq!(
        Font::parse_font("both", "flf2a$ 0 1 10 -2 0\nx@").unwrap_err(),
        ParseError::Height
    );
}

#[test]
fn parse_font_decodes_the_layout() {
    let font = Font::parse_font("std", "flf2a$ 1 1 10 15 0 0 24463 229").unwrap();
    assert_eq!(font.font_head.full_layout, Some(24463));
    assert_eq!(font.rules.horizontal_layout, LayoutMode::ControlledSmush);
    assert_eq!(font.rules.horizontal_rules.len(), 4);
    assert_eq!(font.rules.vertical_rules.len(), 5);
}
