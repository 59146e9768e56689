use vstd::prelude::*;

verus! {

/// A single-channel score: elements in playback order.
#[derive(Debug, Clone, PartialEq)]
pub struct Lmml {
    pub timeline: Vec<Element>,
}

#[derive(Debug, Clone, PartialEq)]
pub enum Element {
    Note(Note),
    Event(Event),
}

#[derive(Debug, Clone, PartialEq)]
pub struct Note {
    pub length_ms: u32,
    pub note_type: NoteType,
}

/// A sounding note by its note number (69 is A4), or a rest.
#[derive(Debug, Clone, PartialEq)]
pub enum NoteType {
    Single { notenumber: i64, volume: u32 },
    Rest,
}

#[derive(Debug, Clone, Copy, PartialEq, Eq, Structural)]
pub enum Event {
    ChangeTempo(u32),
}

} // verus!
