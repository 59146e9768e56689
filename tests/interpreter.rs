use lmml::ast::{
    length_to_ms, resolve_length, voice_chord, ChannelEnv, CommandError, EvalEnv, EvalError, LmmlAst,
    LmmlCommand, NoteChar, NoteModifier,
};
use lmml::timeline::{Element, Event, LmmlTimeline, Note, NoteType};

fn note(c: NoteChar) -> LmmlCommand {
    LmmlCommand::Note { note: c, modifier: NoteModifier::Natural, length: None, is_dotted: false }
}

fn chord(notes: Vec<(NoteChar, NoteModifier)>) -> LmmlCommand {
    LmmlCommand::Chord { notes, length: None, is_dotted: false }
}

fn chord_tones(e: &Element) -> Vec<i128> {
    match e {
        Element::Note(Note { note_type: NoteType::Chord { notenumbers, .. }, .. }) => notenumbers.clone(),
        _ => panic!("not a chord"),
    }
}

fn single(e: &Element) -> (i64, u32, u32, u32) {
    match e {
        Element::Note(Note { length_ms, note_type: NoteType::Single { notenumber, volume, waveform } }) => {
            (*notenumber, *length_ms, *volume, *waveform)
        }
        _ => panic!("not a single note"),
    }
}

#[test]
fn to_notenumber() {
    assert_eq!(NoteChar::C.to_notenumber(NoteModifier::Natural, 4), 60);
    assert_eq!(NoteChar::C.to_notenumber(NoteModifier::Sharp, 4), 61);
    assert_eq!(NoteChar::C.to_notenumber(NoteModifier::Natural, -1), 0);
}

#[test]
fn notenumber_of_a4_and_flats() {
    assert_eq!(NoteChar::A.to_notenumber(NoteModifier::Natural, 4), 69);
    assert_eq!(NoteChar::B.to_notenumber(NoteModifier::Flat, 3), 58);
    assert_eq!(NoteChar::C.to_notenumber(NoteModifier::Flat, 0), 11);
    assert_eq!(
        NoteChar::B.to_notenumber(NoteModifier::Sharp, i32::MAX),
        12 + (i32::MAX as i64 + 1) * 12
    );
}

#[test]
fn resolve_length_table() {
    assert_eq!(resolve_length(8, false, None, false), (8, false));
    assert_eq!(resolve_length(8, false, None, true), (8, true));
    assert_eq!(resolve_length(8, false, Some(2), true), (2, true));
    assert_eq!(resolve_length(8, false, Some(2), false), (2, false));
    assert_eq!(resolve_length(8, true, None, false), (8, true));
    assert_eq!(resolve_length(8, true, None, true), (8, true));
    assert_eq!(resolve_length(8, true, Some(2), false), (2, false));
    assert_eq!(resolve_length(8, true, Some(2), true), (2, true));
}

#[test]
fn quarter_note_durations() {
    assert_eq!(length_to_ms(120, (4, false)), Ok(500));
    assert_eq!(length_to_ms(120, (4, true)), Ok(750));
    assert_eq!(length_to_ms(120, (3, false)), Ok(666));
    assert_eq!(length_to_ms(60, (1, true)), Ok(6000));
    assert_eq!(length_to_ms(1, (1, true)), Ok(360000));
    assert_eq!(length_to_ms(0, (4, false)), Ok(u32::MAX));
}

#[test]
fn zero_length_is_rejected() {
    assert_eq!(length_to_ms(120, (0, false)), Err(EvalError::InvalidLength));
    assert_eq!(length_to_ms(120, (0, true)), Err(EvalError::InvalidLength));
}

#[test]
fn default_registers() {
    let env = EvalEnv::default();
    assert_eq!(env.current_channel, 0);
    for ch in env.channels.iter() {
        assert_eq!(
            *ch,
            ChannelEnv { octave: 4, length: 4, is_dotted: false, tempo: 120, volume: 20, waveform: 0 }
        );
    }
}

#[test]
fn ascending_chord_is_not_shifted() {
    let ast = LmmlAst(vec![chord(vec![
        (NoteChar::C, NoteModifier::Natural),
        (NoteChar::E, NoteModifier::Natural),
        (NoteChar::G, NoteModifier::Natural),
    ])]);
    let mut env = EvalEnv::default();
    let (tl, errors) = ast.to_timeline(&mut env);
    assert!(errors.is_empty());
    assert_eq!(tl.timeline[0].len(), 1);
    assert_eq!(chord_tones(&tl.timeline[0][0]), vec![60, 64, 67]);
}

#[test]
fn chord_out_of_order_is_lifted() {
    let ast = LmmlAst(vec![chord(vec![
        (NoteChar::G, NoteModifier::Natural),
        (NoteChar::C, NoteModifier::Natural),
        (NoteChar::E, NoteModifier::Natural),
    ])]);
    let mut env = EvalEnv::default();
    let (tl, _) = ast.to_timeline(&mut env);
    assert_eq!(chord_tones(&tl.timeline[0][0]), vec![67, 72, 76]);
}

#[test]
fn voicing_lifts_by_whole_octaves_only_as_needed() {
    assert_eq!(voice_chord(&vec![60, 60, 60]), vec![60, 72, 84]);
    assert_eq!(voice_chord(&vec![80, 50]), vec![80, 86]);
    assert_eq!(voice_chord(&vec![60, 64, 67]), vec![60, 64, 67]);
    assert_eq!(voice_chord(&vec![]), Vec::<i128>::new());
    assert_eq!(
        voice_chord(&vec![i64::MAX, i64::MIN]),
        vec![i64::MAX as i128, i64::MIN as i128 + 12 * ((i64::MAX as i128 - i64::MIN as i128) / 12 + 1)]
    );
}

#[test]
fn set_channel_range() {
    let mut env = EvalEnv::default();
    let mut tl = LmmlTimeline::new();
    assert_eq!(
        env.eval_command(&LmmlCommand::SetChannel(16), &mut tl),
        Err(EvalError::ChannelOutOfRange(16))
    );
    assert_eq!(env.current_channel, 0);
    assert_eq!(env.eval_command(&LmmlCommand::SetChannel(15), &mut tl), Ok(()));
    assert_eq!(env.current_channel, 15);
    assert!(tl.timeline.iter().all(|c| c.is_empty()));
}

#[test]
fn errors_are_reported_and_skipped() {
    let ast = LmmlAst(vec![
        LmmlCommand::SetChannel(99),
        note(NoteChar::C),
        LmmlCommand::SetLength(0, false),
        LmmlCommand::Rest { length: None, is_dotted: false },
        LmmlCommand::Rest { length: Some(8), is_dotted: false },
    ]);
    let mut env = EvalEnv::default();
    let (tl, errors) = ast.to_timeline(&mut env);
    assert_eq!(
        errors,
        vec![
            CommandError { index: 0, error: EvalError::ChannelOutOfRange(99) },
            CommandError { index: 3, error: EvalError::InvalidLength },
        ]
    );
    assert_eq!(tl.timeline[0].len(), 2);
    match &tl.timeline[0][1] {
        Element::Note(Note { length_ms, note_type: NoteType::Rest }) => assert_eq!(*length_ms, 250),
        _ => panic!("expected a rest"),
    }
}

#[test]
fn registers_and_tempo_events() {
    let ast = LmmlAst(vec![
        LmmlCommand::SetChannel(2),
        LmmlCommand::SetOctave(5),
        LmmlCommand::SetVolume(50),
        LmmlCommand::SetWaveform(4),
        LmmlCommand::SetTempo(60),
        LmmlCommand::SetLength(8, true),
        note(NoteChar::A),
        LmmlCommand::IncreaseOctave,
        LmmlCommand::NoteNumber(69),
        LmmlCommand::Note { note: NoteChar::A, modifier: NoteModifier::Natural, length: Some(4), is_dotted: false },
        LmmlCommand::DecreaseOctave,
        LmmlCommand::DecreaseOctave,
        note(NoteChar::A),
    ]);
    let mut env = EvalEnv::default();
    let (tl, errors) = ast.to_timeline(&mut env);
    assert!(errors.is_empty());
    let ch = &tl.timeline[2];
    assert_eq!(ch.len(), 5);
    assert!(matches!(ch[0], Element::Event(Event::ChangeTempo(60))));
    assert_eq!(single(&ch[1]), (81, 750, 50, 4));
    assert_eq!(single(&ch[2]), (69, 750, 50, 4));
    assert_eq!(single(&ch[3]), (93, 1000, 50, 4));
    assert_eq!(single(&ch[4]), (69, 750, 50, 4));
    assert_eq!(env.current_channel, 2);
    assert_eq!(env.channels[2].octave, 4);
    assert_eq!(*env.current(), env.channels[2]);
    assert_eq!(env.channels[0], ChannelEnv::default());
}

#[test]
fn session_keeps_registers() {
    let mut env = EvalEnv::default();
    let (_, _) = LmmlAst(vec![LmmlCommand::SetChannel(1), LmmlCommand::SetOctave(2)]).to_timeline(&mut env);
    let (tl, _) = LmmlAst(vec![note(NoteChar::C)]).to_timeline(&mut env);
    assert_eq!(single(&tl.timeline[1][0]).0, 36);
    assert!(tl.timeline[0].is_empty());
}

#[test]
fn octave_saturates_at_the_limits() {
    let mut env = EvalEnv::default();
    let mut tl = LmmlTimeline::new();
    env.eval_command(&LmmlCommand::SetOctave(u32::MAX), &mut tl).unwrap();
    assert_eq!(env.current().octave, i32::MAX);
    env.eval_command(&LmmlCommand::IncreaseOctave, &mut tl).unwrap();
    assert_eq!(env.current().octave, i32::MAX);
    env.current_mut().octave = i32::MIN;
    env.eval_command(&LmmlCommand::DecreaseOctave, &mut tl).unwrap();
    assert_eq!(env.channels[0].octave, i32::MIN);
}

#[test]
fn registers_as_text() {
    assert_eq!(ChannelEnv::default().to_string(), "@0 v20 t120 l4 o4");
    let c = ChannelEnv { octave: i32::MIN, length: 16, is_dotted: true, tempo: 95, volume: 0, waveform: 4294967295 };
    assert_eq!(c.to_string(), "@4294967295 v0 t95 l16. o-2147483648");
    let c = ChannelEnv { octave: -1, length: 0, is_dotted: false, tempo: 10, volume: 109, waveform: 3 };
    assert_eq!(c.to_string(), "@3 v109 t10 l0 o-1");
}

#[test]
fn current_mut_edits_the_selected_channel() {
    let mut env = EvalEnv::default();
    env.current_channel = 7;
    env.current_mut().tempo = 200;
    assert_eq!(env.channels[7].tempo, 200);
    assert_eq!(env.channels[6].tempo, 120);
    assert_eq!(env.current().tempo, 200);
}
