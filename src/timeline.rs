use vstd::prelude::*;

verus! {

/// What the interpreter produces: one ordered element list per channel.
/// All sixteen lists start together; order within a list is playback order.
#[derive(Debug, Clone, PartialEq)]
pub struct LmmlTimeline {
    pub timeline: [Vec<Element>; 16],
}

#[derive(Debug, Clone, PartialEq)]
pub enum Element {
    Note(Note),
    Event(Event),
}

#[derive(Debug, Clone, PartialEq)]
pub struct Note {
    pub length_ms: u32,
    pub note_type: NoteType,
}

/// A sounding entry of the timeline. Pitches are kept as note numbers
/// (69 is A4); the frequency is `440 * 2^((n - 69) / 12)`.
#[derive(Debug, Clone, PartialEq)]
pub enum NoteType {
    Single { notenumber: i64, volume: u32, waveform: u32 },
    /// Voiced chord tones, strictly ascending.
    Chord { notenumbers: Vec<i128>, volume: u32, waveform: u32 },
    Rest,
}

/// A marker with no sound of its own.
#[derive(Debug, Clone, Copy, PartialEq, Eq, Structural)]
pub enum Event {
    ChangeTempo(u32),
}

/// Mathematical model of a `NoteType`.
pub enum ToneView {
    Single { notenumber: int, volume: u32, waveform: u32 },
    Chord { notenumbers: Seq<int>, volume: u32, waveform: u32 },
    Rest,
}

/// Mathematical model of an `Element`.
pub enum ElementView {
    Note { length_ms: u32, tone: ToneView },
    Event(Event),
}

pub open spec fn ints_of(v: Seq<i128>) -> Seq<int> {
    v.map_values(|n: i128| n as int)
}

impl View for NoteType {
    type V = ToneView;

    open spec fn view(&self) -> ToneView {
        match self {
            NoteType::Single { notenumber, volume, waveform } => ToneView::Single {
                notenumber: *notenumber as int,
                volume: *volume,
                waveform: *waveform,
            },
            NoteType::Chord { notenumbers, volume, waveform } => ToneView::Chord {
                notenumbers: ints_of(notenumbers@),
                volume: *volume,
                waveform: *waveform,
            },
            NoteType::Rest => ToneView::Rest,
        }
    }
}

impl View for Element {
    type V = ElementView;

    open spec fn view(&self) -> ElementView {
        match self {
            Element::Note(n) => ElementView::Note { length_ms: n.length_ms, tone: n.note_type@ },
            Element::Event(e) => ElementView::Event(*e),
        }
    }
}

pub open spec fn elements_view(v: Seq<Element>) -> Seq<ElementView> {
    v.map_values(|e: Element| e@)
}

impl LmmlTimeline {
    /// The elements of channel `i`, as models.
    pub open spec fn channel(&self, i: int) -> Seq<ElementView> {
        elements_view(self.timeline@[i]@)
    }

    pub fn new() -> (r: LmmlTimeline)
        ensures
            forall|i: int| 0 <= i < 16 ==> #[trigger] r.channel(i) == Seq::<ElementView>::empty(),
    {
        let r = LmmlTimeline {
            timeline: [
                Vec::new(),
                Vec::new(),
                Vec::new(),
                Vec::new(),
                Vec::new(),
                Vec::new(),
                Vec::new(),
                Vec::new(),
                Vec::new(),
                Vec::new(),
                Vec::new(),
                Vec::new(),
                Vec::new(),
                Vec::new(),
                Vec::new(),
                Vec::new(),
            ],
        };
        assert forall|i: int| 0 <= i < 16 implies #[trigger] r.channel(i) == Seq::<ElementView>::empty() by {
            assert(r.channel(i) =~= Seq::<ElementView>::empty());
        }
        r
    }

    /// Appends `e` to channel `i`, leaving the other channels as they were.
    pub fn push(&mut self, i: usize, e: Element)
        requires
            i < 16,
        ensures
            final(self).channel(i as int) == old(self).channel(i as int).push(e@),
            forall|j: int| 0 <= j < 16 && j != i ==> #[trigger] final(self).channel(j) == old(self).channel(j),
    {
        self.timeline[i].push(e);
        assert(self.channel(i as int) =~= old(self).channel(i as int).push(e@));
    }
}

} // verus!
