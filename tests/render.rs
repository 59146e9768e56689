use lmml::ast::{EvalEnv, LmmlAst, LmmlCommand, NoteChar, NoteModifier};
use lmml::oscillator::{next_frame, waveform_from_id, Waveform, SAMPLE_RATE};
use lmml::render::{channel_runs, channel_sample_count, fade_gain, mix_length, sample_count, Voice, FADE_SAMPLES};
use lmml::timeline::{Element, Event, LmmlTimeline, Note, NoteType};

fn note(length_ms: u32) -> Element {
    Element::Note(Note { length_ms, note_type: NoteType::Single { notenumber: 69, volume: 20, waveform: 1 } })
}

fn rest(length_ms: u32) -> Element {
    Element::Note(Note { length_ms, note_type: NoteType::Rest })
}

#[test]
fn samples_are_rounded() {
    assert_eq!(SAMPLE_RATE, 44100);
    assert_eq!(sample_count(500), 22050);
    assert_eq!(sample_count(1), 44);
    assert_eq!(sample_count(5), 221);
    assert_eq!(sample_count(15), 662);
    assert_eq!(sample_count(0), 0);
    assert_eq!(sample_count(u32::MAX), (u32::MAX as u64 * 441 + 5) / 10);
}

#[test]
fn waveform_ids() {
    assert_eq!(waveform_from_id(0), Waveform::Saw);
    assert_eq!(waveform_from_id(1), Waveform::Square(50));
    assert_eq!(waveform_from_id(2), Waveform::Square(10));
    assert_eq!(waveform_from_id(3), Waveform::Triangle);
    assert_eq!(waveform_from_id(4), Waveform::Sine);
    assert_eq!(waveform_from_id(5), Waveform::Saw);
    assert_eq!(waveform_from_id(u32::MAX), Waveform::Saw);
}

#[test]
fn channel_length_ignores_tempo_events() {
    let es = vec![note(500), Element::Event(Event::ChangeTempo(60)), rest(5), note(1)];
    assert_eq!(channel_sample_count(&es), 22050 + 221 + 44);
    let runs = channel_runs(&es);
    assert_eq!(runs.len(), 3);
    assert_eq!(runs.iter().map(|r| r.samples as u128).sum::<u128>(), 22050 + 221 + 44);
    match &runs[0].voice {
        Voice::Tones { notenumbers, volume, waveform } => {
            assert_eq!(notenumbers, &vec![69]);
            assert_eq!(*volume, 20);
            assert_eq!(*waveform, Waveform::Square(50));
        }
        Voice::Silence => panic!("expected tones"),
    }
    assert!(matches!(runs[1].voice, Voice::Silence));
    assert_eq!(channel_sample_count(&vec![]), 0);
}

#[test]
fn mix_is_as_long_as_the_longest_channel() {
    let mut tl = LmmlTimeline::new();
    assert_eq!(mix_length(&tl), 0);
    tl.push(3, note(500));
    tl.push(3, note(500));
    tl.push(15, rest(1500));
    tl.push(0, Element::Event(Event::ChangeTempo(200)));
    assert_eq!(mix_length(&tl), 66150);
}

#[test]
fn rendered_length_from_a_program() {
    let ast = LmmlAst(vec![
        LmmlCommand::Note { note: NoteChar::C, modifier: NoteModifier::Natural, length: None, is_dotted: false },
        LmmlCommand::SetTempo(60),
        LmmlCommand::Chord {
            notes: vec![(NoteChar::C, NoteModifier::Natural), (NoteChar::G, NoteModifier::Natural)],
            length: Some(8),
            is_dotted: true,
        },
        LmmlCommand::SetChannel(1),
        LmmlCommand::Rest { length: Some(1), is_dotted: false },
    ]);
    let mut env = EvalEnv::default();
    let (tl, _) = ast.to_timeline(&mut env);
    assert_eq!(channel_sample_count(&tl.timeline[0]), 22050 + 33075);
    assert_eq!(channel_sample_count(&tl.timeline[1]), 88200);
    assert_eq!(mix_length(&tl), 88200);
}

#[test]
fn fade_covers_the_tail() {
    assert_eq!(FADE_SAMPLES, 441);
    assert_eq!(fade_gain(0, 1000), (1, 1));
    assert_eq!(fade_gain(558, 1000), (1, 1));
    assert_eq!(fade_gain(559, 1000), (441, 441));
    assert_eq!(fade_gain(999, 1000), (1, 441));
    assert_eq!(fade_gain(0, 10), (10, 10));
    assert_eq!(fade_gain(9, 10), (1, 10));
}

#[test]
fn oscillator_frames() {
    assert_eq!(next_frame(Waveform::Saw, 0, 100), 1);
    assert_eq!(next_frame(Waveform::Saw, 99, 100), 100);
    assert_eq!(next_frame(Waveform::Saw, 100, 100), 0);
    assert_eq!(next_frame(Waveform::Square(10), usize::MAX, usize::MAX), 0);
    assert_eq!(next_frame(Waveform::Triangle, 5, 0), 0);
    assert_eq!(next_frame(Waveform::Sine, 100, 100), 101);
    assert_eq!(next_frame(Waveform::Sine, usize::MAX, 3), 0);
    assert_eq!(next_frame(Waveform::Zero, 7, 3), 7);
}
