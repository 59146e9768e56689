use vstd::prelude::*;

verus! {

/// Samples per second of the rendered stream.
pub const SAMPLE_RATE: u32 = 44100;

/// An oscillator shape. `Square` carries its duty cycle in percent.
#[derive(Debug, Clone, Copy, PartialEq, Eq, Structural)]
pub enum Waveform {
    Zero,
    Saw,
    Square(u32),
    Triangle,
    Sine,
}

/// The shape a channel's waveform id selects; ids without a shape fall back to saw.
pub open spec fn waveform_of(id: u32) -> Waveform {
    if id == 1 {
        Waveform::Square(50)
    } else if id == 2 {
        Waveform::Square(10)
    } else if id == 3 {
        Waveform::Triangle
    } else if id == 4 {
        Waveform::Sine
    } else {
        Waveform::Saw
    }
}

pub fn waveform_from_id(id: u32) -> (r: Waveform)
    ensures
        r == waveform_of(id),
{
    match id {
        1 => Waveform::Square(50),
        2 => Waveform::Square(10),
        3 => Waveform::Triangle,
        4 => Waveform::Sine,
        _ => Waveform::Saw,
    }
}

/// The frame counter of an oscillator after it yields one more sample. The
/// counter of a sine wraps around; the others count up and restart at 0 once
/// they pass `period`, the length of one cycle in samples.
pub open spec fn frame_after(waveform: Waveform, frame: usize, period: usize) -> usize {
    match waveform {
        Waveform::Sine => if frame == usize::MAX { 0 } else { (frame + 1) as usize },
        Waveform::Zero => frame,
        _ => if frame + 1 > period { 0 } else { (frame + 1) as usize },
    }
}

pub fn next_frame(waveform: Waveform, frame: usize, period: usize) -> (r: usize)
    ensures
        r == frame_after(waveform, frame, period),
{
    match waveform {
        Waveform::Sine => frame.wrapping_add(1),
        Waveform::Zero => frame,
        _ => if frame >= period {
            0
        } else {
            frame + 1
        },
    }
}

} // verus!
