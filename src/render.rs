use vstd::prelude::*;

use crate::oscillator::{waveform_from_id, waveform_of, Waveform, SAMPLE_RATE};
use crate::timeline::{elements_view, Element, ElementView, LmmlTimeline, NoteType, ToneView};

verus! {

/// Length of the fade at the end of each sounding run: 10 ms.
pub const FADE_SAMPLES: u64 = 441;

/// `round(ms * SAMPLE_RATE / 1000)`, halves rounded up.
pub open spec fn samples_for_ms(ms: u32) -> nat {
    ((2 * ms as int * SAMPLE_RATE as int + 1000) / 2000) as nat
}

/// Number of samples of a note that lasts `length_ms` milliseconds.
pub fn sample_count(length_ms: u32) -> (r: u64)
    ensures
        r == samples_for_ms(length_ms),
{
    assert(2 * length_ms as int * SAMPLE_RATE as int + 1000 <= u64::MAX) by (nonlinear_arith)
        requires length_ms <= u32::MAX;
    let twice: u64 = 2 * length_ms as u64 * SAMPLE_RATE as u64 + 1000;
    twice / 2000
}

/// What a run of samples plays: oscillator tones summed together, or silence.
#[derive(Debug, Clone, PartialEq)]
pub enum Voice {
    Tones { notenumbers: Vec<i128>, volume: u32, waveform: Waveform },
    Silence,
}

/// A bounded run of samples: one note, chord or rest of a channel.
#[derive(Debug, Clone, PartialEq)]
pub struct Run {
    pub voice: Voice,
    pub samples: u64,
}

pub enum VoiceView {
    Tones { notenumbers: Seq<int>, volume: u32, waveform: Waveform },
    Silence,
}

pub struct RunView {
    pub voice: VoiceView,
    pub samples: nat,
}

impl View for Run {
    type V = RunView;

    open spec fn view(&self) -> RunView {
        RunView {
            voice: match self.voice {
                Voice::Tones { notenumbers, volume, waveform } => VoiceView::Tones {
                    notenumbers: notenumbers@.map_values(|n: i128| n as int),
                    volume,
                    waveform,
                },
                Voice::Silence => VoiceView::Silence,
            },
            samples: self.samples as nat,
        }
    }
}

/// The run an element renders to; tempo events render to none.
pub open spec fn run_of(e: ElementView) -> Option<RunView> {
    match e {
        ElementView::Note { length_ms, tone } => Some(
            RunView {
                voice: match tone {
                    ToneView::Single { notenumber, volume, waveform } => VoiceView::Tones {
                        notenumbers: seq![notenumber],
                        volume,
                        waveform: waveform_of(waveform),
                    },
                    ToneView::Chord { notenumbers, volume, waveform } => VoiceView::Tones {
                        notenumbers,
                        volume,
                        waveform: waveform_of(waveform),
                    },
                    ToneView::Rest => VoiceView::Silence,
                },
                samples: samples_for_ms(length_ms),
            },
        ),
        ElementView::Event(_) => None,
    }
}

/// The runs of a channel, in order.
pub open spec fn runs_of(es: Seq<ElementView>) -> Seq<RunView>
    decreases es.len(),
{
    if es.len() == 0 {
        Seq::empty()
    } else {
        match run_of(es.last()) {
            Some(r) => runs_of(es.drop_last()).push(r),
            None => runs_of(es.drop_last()),
        }
    }
}

/// Length of the concatenation of some runs.
pub open spec fn runs_length(rs: Seq<RunView>) -> nat
    decreases rs.len(),
{
    if rs.len() == 0 {
        0
    } else {
        runs_length(rs.drop_last()) + rs.last().samples
    }
}

/// `round(duration_ms * SAMPLE_RATE / 1000)` summed over the notes, chords and
/// rests of a channel; tempo events count nothing.
pub open spec fn channel_samples(es: Seq<ElementView>) -> nat
    decreases es.len(),
{
    if es.len() == 0 {
        0
    } else {
        channel_samples(es.drop_last()) + match es.last() {
            ElementView::Note { length_ms, .. } => samples_for_ms(length_ms),
            ElementView::Event(_) => 0,
        }
    }
}

/// A channel renders to exactly as many samples as the rounded durations of
/// its notes, chords and rests add up to; tempo events add none.
pub proof fn lemma_rendered_length(es: Seq<ElementView>)
    ensures
        runs_length(runs_of(es)) == channel_samples(es),
    decreases es.len(),
{
    if es.len() > 0 {
        lemma_rendered_length(es.drop_last());
        match run_of(es.last()) {
            Some(r) => {
                assert(runs_of(es).drop_last() =~= runs_of(es.drop_last()));
            },
            None => {},
        }
    }
}

pub proof fn lemma_samples_for_ms_bound(ms: u32)
    ensures
        samples_for_ms(ms) <= 0x40_0000_0000,
{
    assert((2 * ms as int * 44100 + 1000) / 2000 <= 0x40_0000_0000) by (nonlinear_arith)
        requires ms <= u32::MAX;
}

pub proof fn lemma_channel_samples_bound(es: Seq<ElementView>)
    ensures
        channel_samples(es) <= es.len() * 0x40_0000_0000,
    decreases es.len(),
{
    if es.len() > 0 {
        lemma_channel_samples_bound(es.drop_last());
        if let ElementView::Note { length_ms, .. } = es.last() {
            lemma_samples_for_ms_bound(length_ms);
        }
    }
}

/// The runs that a channel's elements render to, in order.
pub fn channel_runs(elements: &Vec<Element>) -> (r: Vec<Run>)
    ensures
        r@.map_values(|x: Run| x@) == runs_of(elements_view(elements@)),
{
    let mut runs: Vec<Run> = Vec::new();
    let mut k: usize = 0;
    while k < elements.len()
        invariant
            k <= elements@.len(),
            runs@.map_values(|x: Run| x@) == runs_of(elements_view(elements@.take(k as int))),
        decreases elements@.len() - k,
    {
        let ghost prefix = elements_view(elements@.take(k as int));
        let ghost next = elements_view(elements@.take(k as int + 1));
        assert(next.drop_last() =~= prefix);
        assert(next.last() == elements@[k as int]@);
        match &elements[k] {
            Element::Note(note) => {
                let voice = match &note.note_type {
                    NoteType::Single { notenumber, volume, waveform } => {
                        let mut tones: Vec<i128> = Vec::new();
                        tones.push(*notenumber as i128);
                        assert(tones@.map_values(|n: i128| n as int) =~= seq![*notenumber as int]);
                        Voice::Tones { notenumbers: tones, volume: *volume, waveform: waveform_from_id(*waveform) }
                    },
                    NoteType::Chord { notenumbers, volume, waveform } => {
                        let tones = notenumbers.clone();
                        assert(tones@ =~= notenumbers@);
                        Voice::Tones { notenumbers: tones, volume: *volume, waveform: waveform_from_id(*waveform) }
                    },
                    NoteType::Rest => Voice::Silence,
                };
                let run = Run { voice, samples: sample_count(note.length_ms) };
                assert(Some(run@) == run_of(next.last()));
                runs.push(run);
                assert(runs@.map_values(|x: Run| x@) =~= runs_of(next));
            },
            Element::Event(_) => {
                assert(runs@.map_values(|x: Run| x@) =~= runs_of(next));
            },
        }
        k = k + 1;
    }
    assert(elements@.take(elements@.len() as int) =~= elements@);
    runs
}

/// Number of samples a channel renders to.
pub fn channel_sample_count(elements: &Vec<Element>) -> (r: u128)
    ensures
        r == channel_samples(elements_view(elements@)),
{
    let mut total: u128 = 0;
    let mut k: usize = 0;
    while k < elements.len()
        invariant
            k <= elements@.len(),
            total == channel_samples(elements_view(elements@.take(k as int))),
        decreases elements@.len() - k,
    {
        let ghost prefix = elements_view(elements@.take(k as int));
        let ghost next = elements_view(elements@.take(k as int + 1));
        assert(next.drop_last() =~= prefix);
        assert(next.last() == elements@[k as int]@);
        proof {
            lemma_channel_samples_bound(prefix);
            assert(prefix.len() * 0x40_0000_0000 <= 0x1_0000_0000_0000_0000 * 0x40_0000_0000) by (nonlinear_arith)
                requires prefix.len() <= 0x1_0000_0000_0000_0000;
        }
        match &elements[k] {
            Element::Note(note) => {
                let n = sample_count(note.length_ms);
                proof {
                    lemma_samples_for_ms_bound(note.length_ms);
                }
                total = total + n as u128;
            },
            Element::Event(_) => {},
        }
        k = k + 1;
    }
    assert(elements@.take(elements@.len() as int) =~= elements@);
    total
}

/// The largest sample count among the first `k` channels.
pub open spec fn max_channel_samples(tl: LmmlTimeline, k: int) -> nat
    decreases k,
{
    if k <= 0 {
        0
    } else {
        let m = max_channel_samples(tl, k - 1);
        let c = channel_samples(tl.channel(k - 1));
        if c > m {
            c
        } else {
            m
        }
    }
}

pub proof fn lemma_max_channel_samples(tl: LmmlTimeline, k: int)
    requires
        0 < k,
    ensures
        forall|i: int| 0 <= i < k ==> channel_samples(#[trigger] tl.channel(i)) <= max_channel_samples(tl, k),
        exists|i: int| 0 <= i < k && channel_samples(#[trigger] tl.channel(i)) == max_channel_samples(tl, k),
    decreases k,
{
    if k > 1 {
        lemma_max_channel_samples(tl, k - 1);
        if channel_samples(tl.channel(k - 1)) <= max_channel_samples(tl, k - 1) {
            let i = choose|i: int| 0 <= i < k - 1 && channel_samples(#[trigger] tl.channel(i)) == max_channel_samples(tl, k - 1);
            assert(0 <= i < k && channel_samples(tl.channel(i)) == max_channel_samples(tl, k));
        } else {
            assert(channel_samples(tl.channel(k - 1)) == max_channel_samples(tl, k));
        }
    } else {
        assert(max_channel_samples(tl, 0) == 0);
        assert(channel_samples(tl.channel(0)) == max_channel_samples(tl, 1));
    }
}

/// Length of the mix of all sixteen channels: the longest channel's length.
/// Every channel starts at sample 0 and is silent once it has ended.
pub fn mix_length(tl: &LmmlTimeline) -> (r: u128)
    ensures
        r == max_channel_samples(*tl, 16),
        forall|i: int| 0 <= i < 16 ==> channel_samples(#[trigger] tl.channel(i)) <= r,
        exists|i: int| 0 <= i < 16 && channel_samples(#[trigger] tl.channel(i)) == r,
{
    let mut longest: u128 = 0;
    let mut i: usize = 0;
    while i < 16
        invariant
            i <= 16,
            longest == max_channel_samples(*tl, i as int),
        decreases 16 - i,
    {
        let n = channel_sample_count(&tl.timeline[i]);
        if n > longest {
            longest = n;
        }
        i = i + 1;
    }
    proof {
        lemma_max_channel_samples(*tl, 16);
    }
    longest
}

/// Gain of sample `index` of a sounding run of `total` samples, as a
/// fraction: 1 before the last `FADE_SAMPLES` samples (or the whole run, if it
/// is shorter), then falling linearly to `1 / tail` at the last sample.
pub open spec fn fade(index: nat, total: nat) -> (nat, nat) {
    let tail = if total < FADE_SAMPLES { total } else { FADE_SAMPLES as nat };
    if index + tail < total {
        (1, 1)
    } else {
        ((total - index) as nat, tail)
    }
}

pub fn fade_gain(index: u64, total: u64) -> (r: (u64, u64))
    requires
        index < total,
    ensures
        r.0 as nat == fade(index as nat, total as nat).0,
        r.1 as nat == fade(index as nat, total as nat).1,
        0 < r.0 <= r.1,
{
    let tail: u64 = if total < FADE_SAMPLES { total } else { FADE_SAMPLES };
    if index < total - tail {
        (1, 1)
    } else {
        (total - index, tail)
    }
}

} // verus!
