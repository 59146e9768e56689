use lmml::ast::{LmmlCommand, NoteChar, NoteModifier};
use lmml::parsers::{parse_command, parse_lmml_until_eof, parse_number, ParseError};
use lmml::text::{parse_lmml, remove_comments};

fn commands(src: &str) -> Vec<LmmlCommand> {
    match parse_lmml(src) {
        Ok(ast) => ast.0,
        Err(e) => panic!("parse error at {}", e.offset),
    }
}

fn describe(c: &LmmlCommand) -> String {
    format!("{:?}", c)
}

#[test]
fn parses_every_command_form() {
    let cs = commands("c+8. d- e4 r r16. [ceg]2. n60 o5 l8. v100 t140 @3 :15 > <");
    let got: Vec<String> = cs.iter().map(describe).collect();
    let want: Vec<String> = vec![
        LmmlCommand::Note { note: NoteChar::C, modifier: NoteModifier::Sharp, length: Some(8), is_dotted: true },
        LmmlCommand::Note { note: NoteChar::D, modifier: NoteModifier::Flat, length: None, is_dotted: false },
        LmmlCommand::Note { note: NoteChar::E, modifier: NoteModifier::Natural, length: Some(4), is_dotted: false },
        LmmlCommand::Rest { length: None, is_dotted: false },
        LmmlCommand::Rest { length: Some(16), is_dotted: true },
        LmmlCommand::Chord {
            notes: vec![
                (NoteChar::C, NoteModifier::Natural),
                (NoteChar::E, NoteModifier::Natural),
                (NoteChar::G, NoteModifier::Natural),
            ],
            length: Some(2),
            is_dotted: true,
        },
        LmmlCommand::NoteNumber(60),
        LmmlCommand::SetOctave(5),
        LmmlCommand::SetLength(8, true),
        LmmlCommand::SetVolume(100),
        LmmlCommand::SetTempo(140),
        LmmlCommand::SetWaveform(3),
        LmmlCommand::SetChannel(15),
        LmmlCommand::IncreaseOctave,
        LmmlCommand::DecreaseOctave,
    ]
    .iter()
    .map(describe)
    .collect();
    assert_eq!(got, want);
}

#[test]
fn upper_case_and_adjacent_commands() {
    let cs = commands("CDEFGAB[C+E-]R4O3L2V1T9N0");
    assert_eq!(cs.len(), 14);
    assert!(matches!(cs[6], LmmlCommand::Note { note: NoteChar::B, .. }));
    match &cs[7] {
        LmmlCommand::Chord { notes, length: None, is_dotted: false } => {
            assert_eq!(notes, &vec![(NoteChar::C, NoteModifier::Sharp), (NoteChar::E, NoteModifier::Flat)])
        }
        _ => panic!("expected a chord"),
    }
    assert!(matches!(cs[13], LmmlCommand::NoteNumber(0)));
}

#[test]
fn whitespace_around_commands() {
    assert_eq!(commands(" \t c \r\n d \n").len(), 2);
    assert_eq!(commands("").len(), 0);
}

#[test]
fn whitespace_alone_is_not_a_program() {
    assert_eq!(parse_lmml("   ").err(), Some(ParseError { offset: 0 }));
}

#[test]
fn reports_where_reading_stops() {
    assert_eq!(parse_lmml("c d x e").err(), Some(ParseError { offset: 4 }));
    assert_eq!(parse_lmml("[]").err(), Some(ParseError { offset: 0 }));
    assert_eq!(parse_lmml("c [ce").err(), Some(ParseError { offset: 2 }));
    assert_eq!(parse_lmml("o").err(), Some(ParseError { offset: 0 }));
    assert_eq!(parse_lmml("c ;x").err(), Some(ParseError { offset: 2 }));
    assert_eq!(parse_lmml("cあ").err(), Some(ParseError { offset: 1 }));
    assert_eq!(parse_lmml_until_eof(b"l4 l").err(), Some(ParseError { offset: 3 }));
}

#[test]
fn numbers_beyond_u32_are_not_read() {
    assert_eq!(parse_number(b"4294967295", 0), Some((u32::MAX, 10)));
    assert_eq!(parse_number(b"4294967296", 0), None);
    assert_eq!(parse_number(b"x12y", 1), Some((12, 3)));
    assert_eq!(parse_number(b"x", 1), None);
    assert_eq!(parse_lmml("t4294967296").err(), Some(ParseError { offset: 0 }));
}

#[test]
fn command_at_a_position() {
    match parse_command(b"xx>", 2) {
        Some((LmmlCommand::IncreaseOctave, 3)) => {}
        _ => panic!("expected an octave step"),
    }
    assert!(parse_command(b"xx>", 3).is_none());
}

#[test]
fn comment_lines_are_blanked() {
    assert_eq!(remove_comments("c\n; note\nd"), "c\n\nd");
    assert_eq!(remove_comments("  ;x\r\ne;f\r\n"), "\ne;f");
    assert_eq!(remove_comments("\u{3000};全角\nc"), "\nc");
    assert_eq!(remove_comments("a\r"), "a\r");
    assert_eq!(remove_comments("a\n\nb\n"), "a\n\nb");
    assert_eq!(remove_comments(""), "");
    assert_eq!(remove_comments("\n"), "");
    assert_eq!(remove_comments("x;y"), "x;y");
}

#[test]
fn comments_then_parse() {
    let src = "; melody\nc d\n  ; more\ne\n";
    assert_eq!(commands(&remove_comments(src)).len(), 3);
}
