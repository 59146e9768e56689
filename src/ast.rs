use vstd::prelude::*;

use crate::text::string_of;
use crate::timeline::{ints_of, Element, ElementView, Event, LmmlTimeline, Note, NoteType, ToneView};

verus! {

/// A parsed program: the commands in source order.
#[derive(Debug, Clone, PartialEq)]
pub struct LmmlAst(pub Vec<LmmlCommand>);

#[derive(Debug, Clone, PartialEq)]
pub enum LmmlCommand {
    Note { note: NoteChar, modifier: NoteModifier, length: Option<u32>, is_dotted: bool },
    Rest { length: Option<u32>, is_dotted: bool },
    Chord { notes: Vec<(NoteChar, NoteModifier)>, length: Option<u32>, is_dotted: bool },
    NoteNumber(u32),
    SetOctave(u32),
    SetLength(u32, bool),
    SetVolume(u32),
    SetTempo(u32),
    SetWaveform(u32),
    SetChannel(u32),
    IncreaseOctave,
    DecreaseOctave,
}

/// Mathematical model of an `LmmlCommand`.
pub enum CommandView {
    Note { note: NoteChar, modifier: NoteModifier, length: Option<u32>, is_dotted: bool },
    Rest { length: Option<u32>, is_dotted: bool },
    Chord { notes: Seq<(NoteChar, NoteModifier)>, length: Option<u32>, is_dotted: bool },
    NoteNumber(u32),
    SetOctave(u32),
    SetLength(u32, bool),
    SetVolume(u32),
    SetTempo(u32),
    SetWaveform(u32),
    SetChannel(u32),
    IncreaseOctave,
    DecreaseOctave,
}

impl View for LmmlCommand {
    type V = CommandView;

    open spec fn view(&self) -> CommandView {
        match self {
            LmmlCommand::Note { note, modifier, length, is_dotted } => CommandView::Note {
                note: *note,
                modifier: *modifier,
                length: *length,
                is_dotted: *is_dotted,
            },
            LmmlCommand::Rest { length, is_dotted } => CommandView::Rest { length: *length, is_dotted: *is_dotted },
            LmmlCommand::Chord { notes, length, is_dotted } => CommandView::Chord {
                notes: notes@,
                length: *length,
                is_dotted: *is_dotted,
            },
            LmmlCommand::NoteNumber(n) => CommandView::NoteNumber(*n),
            LmmlCommand::SetOctave(n) => CommandView::SetOctave(*n),
            LmmlCommand::SetLength(n, d) => CommandView::SetLength(*n, *d),
            LmmlCommand::SetVolume(n) => CommandView::SetVolume(*n),
            LmmlCommand::SetTempo(n) => CommandView::SetTempo(*n),
            LmmlCommand::SetWaveform(n) => CommandView::SetWaveform(*n),
            LmmlCommand::SetChannel(n) => CommandView::SetChannel(*n),
            LmmlCommand::IncreaseOctave => CommandView::IncreaseOctave,
            LmmlCommand::DecreaseOctave => CommandView::DecreaseOctave,
        }
    }
}

impl View for LmmlAst {
    type V = Seq<CommandView>;

    open spec fn view(&self) -> Seq<CommandView> {
        self.0@.map_values(|c: LmmlCommand| c@)
    }
}

#[derive(Debug, PartialEq, Eq, PartialOrd, Ord, Clone, Copy, Structural)]
pub enum NoteChar {
    C,
    D,
    E,
    F,
    G,
    A,
    B,
}

#[derive(Debug, PartialEq, Eq, PartialOrd, Ord, Clone, Copy, Structural)]
pub enum NoteModifier {
    Sharp,
    Flat,
    Natural,
}

/// Semitone of a letter above the C of its octave.
pub open spec fn semitone(n: NoteChar) -> int {
    match n {
        NoteChar::C => 0,
        NoteChar::D => 2,
        NoteChar::E => 4,
        NoteChar::F => 5,
        NoteChar::G => 7,
        NoteChar::A => 9,
        NoteChar::B => 11,
    }
}

pub open spec fn accidental(m: NoteModifier) -> int {
    match m {
        NoteModifier::Sharp => 1,
        NoteModifier::Flat => -1,
        NoteModifier::Natural => 0,
    }
}

/// Note number of a letter with an accidental in an octave (C4 is 60, A4 is 69).
pub open spec fn notenumber(n: NoteChar, m: NoteModifier, octave: int) -> int {
    semitone(n) + accidental(m) + (octave + 1) * 12
}

impl NoteChar {
    pub fn to_notenumber(&self, modifier: NoteModifier, octave: i32) -> (r: i64)
        ensures
            r == notenumber(*self, modifier, octave as int),
    {
        let base: i64 = match self {
            NoteChar::C => 0,
            NoteChar::D => 2,
            NoteChar::E => 4,
            NoteChar::F => 5,
            NoteChar::G => 7,
            NoteChar::A => 9,
            NoteChar::B => 11,
        };
        let shift: i64 = match modifier {
            NoteModifier::Sharp => 1,
            NoteModifier::Flat => -1,
            NoteModifier::Natural => 0,
        };
        base + shift + (octave as i64 + 1) * 12
    }
}

/// The errors of interpretation. Each rejects one command and is recoverable.
#[derive(Debug, Clone, Copy, PartialEq, Eq, Structural)]
pub enum EvalError {
    /// `SetChannel` with a channel above 15.
    ChannelOutOfRange(u32),
    /// A note, rest or chord whose resolved length is 0.
    InvalidLength,
}

/// The (length, dotted) pair that times a note: a command that states its own
/// number uses its own dot; a bare command takes the channel's number and is
/// dotted when either the channel or the command is.
pub open spec fn resolved_length(m: u32, dm: bool, num: Option<u32>, dot: bool) -> (u32, bool) {
    match num {
        Some(n) => (n, dot),
        None => (m, dm || dot),
    }
}

pub fn resolve_length(l_cmd_num: u32, l_cmd_dot: bool, num: Option<u32>, dot: bool) -> (r: (u32, bool))
    ensures
        r == resolved_length(l_cmd_num, l_cmd_dot, num, dot),
        !l_cmd_dot && num is None ==> r == (l_cmd_num, dot),
        !l_cmd_dot && num is Some ==> r == (num->0, dot),
        l_cmd_dot && num is None ==> r == (l_cmd_num, true),
        l_cmd_dot && num is Some ==> r == (num->0, dot),
{
    let m = l_cmd_num;
    match num {
        None => if l_cmd_dot {
            (m, true)
        } else {
            (m, dot)
        },
        Some(n) => (n, dot),
    }
}

/// Milliseconds of a note: `(4 / length) * (60 / tempo) * 1000`, times 1.5
/// when dotted, rounded down. A tempo of 0 gives the longest duration.
pub open spec fn duration_ms(tempo: u32, length: u32, dotted: bool) -> u32
    recommends
        length > 0,
{
    if tempo == 0 {
        u32::MAX
    } else if dotted {
        (360000int / (length as int * tempo as int)) as u32
    } else {
        (240000int / (length as int * tempo as int)) as u32
    }
}

pub fn length_to_ms(tempo: u32, resolved: (u32, bool)) -> (r: Result<u32, EvalError>)
    ensures
        resolved.0 == 0 <==> r == Err::<u32, EvalError>(EvalError::InvalidLength),
        resolved.0 > 0 ==> r == Ok::<u32, EvalError>(duration_ms(tempo, resolved.0, resolved.1)),
{
    let (length, is_dotted) = resolved;
    if length == 0 {
        return Err(EvalError::InvalidLength);
    }
    if tempo == 0 {
        return Ok(u32::MAX);
    }
    let whole: u64 = if is_dotted { 360000 } else { 240000 };
    assert(length as int * tempo as int <= u64::MAX) by (nonlinear_arith)
        requires length <= u32::MAX, tempo <= u32::MAX;
    let denom: u64 = length as u64 * tempo as u64;
    assert(denom >= 1) by (nonlinear_arith)
        requires denom == length as int * tempo as int, length >= 1, tempo >= 1;
    let ms = whole / denom;
    assert(ms <= whole) by (nonlinear_arith)
        requires ms == whole / denom, denom >= 1, whole >= 0;
    Ok(ms as u32)
}

/// The registers of one channel.
#[derive(Debug, Clone, Copy, PartialEq, Eq, Structural)]
pub struct ChannelEnv {
    pub octave: i32,
    pub length: u32,
    pub is_dotted: bool,
    pub tempo: u32,
    pub volume: u32,
    pub waveform: u32,
}

pub open spec fn default_channel() -> ChannelEnv {
    ChannelEnv { octave: 4, length: 4, is_dotted: false, tempo: 120, volume: 20, waveform: 0 }
}

impl Default for ChannelEnv {
    fn default() -> (r: Self)
        ensures
            r == default_channel(),
    {
        ChannelEnv { octave: 4, length: 4, is_dotted: false, tempo: 120, volume: 20, waveform: 0 }
    }
}

/// The character of a decimal digit.
pub open spec fn digit_char(d: nat) -> char {
    seq!['0', '1', '2', '3', '4', '5', '6', '7', '8', '9'][d as int]
}

/// Decimal notation of a natural number, without leading zeros.
pub open spec fn decimal_text(n: nat) -> Seq<char>
    decreases n,
{
    if n < 10 {
        seq![digit_char(n)]
    } else {
        decimal_text(n / 10).push(digit_char(n % 10))
    }
}

/// Decimal notation of an integer, with `-` before a negative one.
pub open spec fn signed_text(n: int) -> Seq<char> {
    if n < 0 {
        seq!['-'] + decimal_text((-n) as nat)
    } else {
        decimal_text(n as nat)
    }
}

/// The registers in MML notation: `@waveform vvolume ttempo llength[.] ooctave`.
pub open spec fn channel_text(c: ChannelEnv) -> Seq<char> {
    seq!['@'] + decimal_text(c.waveform as nat) + seq![' ', 'v'] + decimal_text(c.volume as nat) + seq![' ', 't']
        + decimal_text(c.tempo as nat) + seq![' ', 'l'] + decimal_text(c.length as nat) + (if c.is_dotted {
        seq!['.']
    } else {
        Seq::empty()
    }) + seq![' ', 'o'] + signed_text(c.octave as int)
}

fn push_decimal(out: &mut Vec<char>, n: u64)
    ensures
        final(out)@ == old(out)@ + decimal_text(n as nat),
    decreases n,
{
    if n >= 10 {
        push_decimal(out, n / 10);
    }
    let digits = ['0', '1', '2', '3', '4', '5', '6', '7', '8', '9'];
    let d = digits[(n % 10) as usize];
    assert(d == digit_char((n % 10) as nat));
    out.push(d);
    proof {
        if n < 10 {
            assert(n % 10 == n);
        }
    }
    assert(out@ =~= old(out)@ + decimal_text(n as nat));
}

impl ChannelEnv {
    /// The registers as the interactive prompt shows them.
    pub fn to_string(&self) -> (r: String)
        ensures
            r@ == channel_text(*self),
    {
        let mut out: Vec<char> = Vec::new();
        out.push('@');
        push_decimal(&mut out, self.waveform as u64);
        out.push(' ');
        out.push('v');
        push_decimal(&mut out, self.volume as u64);
        out.push(' ');
        out.push('t');
        push_decimal(&mut out, self.tempo as u64);
        out.push(' ');
        out.push('l');
        push_decimal(&mut out, self.length as u64);
        if self.is_dotted {
            out.push('.');
        }
        out.push(' ');
        out.push('o');
        if self.octave < 0 {
            out.push('-');
            push_decimal(&mut out, (-(self.octave as i64)) as u64);
        } else {
            push_decimal(&mut out, self.octave as u64);
        }
        assert(out@ =~= channel_text(*self));
        string_of(out)
    }
}

/// The interpreter's cursor: the selected channel and the sixteen register sets.
/// It may be kept across calls so that a session keeps its registers.
#[derive(Debug, Clone, Copy)]
pub struct EvalEnv {
    pub current_channel: usize,
    pub channels: [ChannelEnv; 16],
}

/// Mathematical model of an `EvalEnv`.
pub struct EnvView {
    pub current_channel: usize,
    pub channels: Seq<ChannelEnv>,
}

impl View for EvalEnv {
    type V = EnvView;

    open spec fn view(&self) -> EnvView {
        EnvView { current_channel: self.current_channel, channels: self.channels@ }
    }
}

impl EnvView {
    pub open spec fn wf(self) -> bool {
        self.current_channel < 16 && self.channels.len() == 16
    }

    pub open spec fn current(self) -> ChannelEnv {
        self.channels[self.current_channel as int]
    }

    /// The same cursor with the selected channel's registers replaced.
    pub open spec fn with_current(self, c: ChannelEnv) -> EnvView {
        EnvView { channels: self.channels.update(self.current_channel as int, c), ..self }
    }
}

pub open spec fn initial_env() -> EnvView {
    EnvView { current_channel: 0, channels: Seq::new(16, |i: int| default_channel()) }
}

impl Default for EvalEnv {
    fn default() -> (r: Self)
        ensures
            r@ == initial_env(),
    {
        let c = ChannelEnv::default();
        let r = EvalEnv { current_channel: 0, channels: [c; 16] };
        assert(r@.channels =~= initial_env().channels);
        r
    }
}

impl EvalEnv {
    pub open spec fn wf(&self) -> bool {
        self.current_channel < 16
    }

    pub fn current(&self) -> (r: &ChannelEnv)
        requires
            self.wf(),
        ensures
            *r == self@.current(),
    {
        &self.channels[self.current_channel]
    }

    pub fn current_mut(&mut self) -> (r: &mut ChannelEnv)
        requires
            old(self).wf(),
        ensures
            *r == old(self)@.current(),
            final(self)@ == old(self)@.with_current(*final(r)),
    {
        let i = self.current_channel;
        let r = &mut self.channels[i];
        r
    }
}

/// Octave one step up or down, held within the range of `i32`.
pub open spec fn octave_step(octave: i32, up: bool) -> i32 {
    if up {
        if octave == i32::MAX { octave } else { (octave + 1) as i32 }
    } else {
        if octave == i32::MIN { octave } else { (octave - 1) as i32 }
    }
}

/// The octave that `SetOctave(o)` selects: `o`, held within the range of `i32`.
pub open spec fn octave_of(o: u32) -> i32 {
    if o > i32::MAX { i32::MAX } else { o as i32 }
}

/// The smallest `n + 12k` (k >= 0) above `prev`: `n` lifted by octaves.
pub open spec fn lift_above(prev: int, n: int) -> int
    decreases prev + 12 - n,
{
    if n > prev {
        n
    } else {
        lift_above(prev, n + 12)
    }
}

/// Chord voicing: in written order, each tone is lifted by octaves just
/// until it lies above the tone before it. Tones are never reordered.
pub open spec fn voiced(ns: Seq<int>) -> Seq<int>
    decreases ns.len(),
{
    if ns.len() <= 1 {
        ns
    } else {
        let v = voiced(ns.drop_last());
        v.push(lift_above(v.last(), ns.last()))
    }
}

pub open spec fn ints_of_i64(v: Seq<i64>) -> Seq<int> {
    v.map_values(|n: i64| n as int)
}

/// Note numbers of chord tones, all in one octave, before voicing.
pub open spec fn chord_numbers(notes: Seq<(NoteChar, NoteModifier)>, octave: int) -> Seq<int> {
    notes.map_values(|p: (NoteChar, NoteModifier)| notenumber(p.0, p.1, octave))
}

pub proof fn lemma_lift_above(prev: int, n: int)
    ensures
        lift_above(prev, n) > prev,
        lift_above(prev, n) >= n,
        lift_above(prev, n) <= if n > prev { n } else { prev + 12 },
        (lift_above(prev, n) - n) % 12 == 0,
        lift_above(prev, n) == n || lift_above(prev, n) - 12 <= prev,
    decreases prev + 12 - n,
{
    if n <= prev {
        lemma_lift_above(prev, n + 12);
    }
}

/// Lifting by octaves in closed form.
pub proof fn lemma_lift_above_closed(prev: int, n: int)
    requires
        n <= prev,
    ensures
        lift_above(prev, n) == n + 12 * ((prev - n) / 12 + 1),
    decreases prev + 12 - n,
{
    if n + 12 <= prev {
        lemma_lift_above_closed(prev, n + 12);
        assert((prev - (n + 12)) / 12 == (prev - n) / 12 - 1) by (nonlinear_arith)
            requires n + 12 <= prev;
    } else {
        assert(lift_above(prev, n + 12) == n + 12);
        assert((prev - n) / 12 == 0) by (nonlinear_arith)
            requires n <= prev, prev < n + 12;
    }
}

pub proof fn lemma_voiced_len(ns: Seq<int>)
    ensures
        voiced(ns).len() == ns.len(),
    decreases ns.len(),
{
    if ns.len() > 1 {
        lemma_voiced_len(ns.drop_last());
    }
}

/// Voicing yields strictly ascending tones, each its written tone raised by
/// whole octaves, and raised no further than needed to clear its predecessor.
pub proof fn lemma_voiced_ascending(ns: Seq<int>)
    ensures
        voiced(ns).len() == ns.len(),
        forall|i: int| 0 < i < ns.len() ==> #[trigger] voiced(ns)[i] > voiced(ns)[i - 1],
        forall|i: int|
            0 <= i < ns.len() ==> #[trigger] voiced(ns)[i] >= ns[i] && (voiced(ns)[i] - ns[i]) % 12 == 0,
        forall|i: int|
            0 < i < ns.len() ==> #[trigger] voiced(ns)[i] == ns[i] || voiced(ns)[i] - 12 <= voiced(ns)[i - 1],
    decreases ns.len(),
{
    lemma_voiced_len(ns);
    if ns.len() > 1 {
        let v = voiced(ns.drop_last());
        lemma_voiced_ascending(ns.drop_last());
        lemma_lift_above(v.last(), ns.last());
        assert forall|i: int| 0 <= i < ns.len() - 1 implies #[trigger] voiced(ns)[i] == v[i] && ns[i] == ns.drop_last()[i] by {}
    }
}

/// Voicing leaves a chord that is already strictly ascending unchanged.
pub proof fn lemma_voiced_ascending_unchanged(ns: Seq<int>)
    requires
        forall|i: int| 0 < i < ns.len() ==> #[trigger] ns[i] > ns[i - 1],
    ensures
        voiced(ns) == ns,
    decreases ns.len(),
{
    if ns.len() > 1 {
        let p = ns.drop_last();
        assert forall|i: int| 0 < i < p.len() implies #[trigger] p[i] > p[i - 1] by {
            assert(p[i] == ns[i] && p[i - 1] == ns[i - 1]);
        }
        lemma_voiced_ascending_unchanged(p);
        assert(ns.last() > ns[ns.len() - 2]);
        assert(voiced(ns) =~= ns);
    }
}

/// Voices a chord given by note numbers in written order.
pub fn voice_chord(ns: &Vec<i64>) -> (r: Vec<i128>)
    ensures
        ints_of(r@) == voiced(ints_of_i64(ns@)),
{
    let mut r: Vec<i128> = Vec::new();
    let mut i: usize = 0;
    while i < ns.len()
        invariant
            i <= ns.len(),
            ints_of(r@) == voiced(ints_of_i64(ns@.take(i as int))),
            r@.len() == i,
            forall|j: int| 0 <= j < i ==> #[trigger] r@[j] <= 0x8000_0000_0000_0000 + 12 * j,
        decreases ns.len() - i,
    {
        let ghost before = ints_of_i64(ns@.take(i as int));
        let ghost after = ints_of_i64(ns@.take(i as int + 1));
        assert(after.drop_last() =~= before);
        assert(after.last() == ns@[i as int] as int);
        proof {
            lemma_voiced_len(before);
        }
        let mut cur: i128 = ns[i] as i128;
        if i > 0 {
            let prev: i128 = r[i - 1];
            assert(prev as int == voiced(before).last());
            proof {
                lemma_lift_above(prev as int, cur as int);
            }
            if prev >= cur {
                proof {
                    lemma_lift_above_closed(prev as int, cur as int);
                    assert(0 <= (prev - cur) / 12 <= prev - cur) by (nonlinear_arith)
                        requires prev >= cur;
                }
                cur = cur + 12 * ((prev - cur) / 12 + 1);
            }
            assert(ints_of(r@.push(cur)) =~= voiced(after));
        } else {
            assert(ints_of(r@.push(cur)) =~= voiced(after));
        }
        r.push(cur);
        i = i + 1;
    }
    assert(ns@.take(ns.len() as int) =~= ns@);
    r
}

/// What one command does: the cursor after it, the element it appends to the
/// channel that was selected when it ran, and the error it reports.
pub open spec fn step(e: EnvView, cmd: LmmlCommand) -> (EnvView, Option<ElementView>, Option<EvalError>) {
    let ch = e.current();
    match cmd {
        LmmlCommand::Note { note, modifier, length, is_dotted } => {
            let (l, d) = resolved_length(ch.length, ch.is_dotted, length, is_dotted);
            if l == 0 {
                (e, None, Some(EvalError::InvalidLength))
            } else {
                (e, Some(ElementView::Note {
                    length_ms: duration_ms(ch.tempo, l, d),
                    tone: ToneView::Single {
                        notenumber: notenumber(note, modifier, ch.octave as int),
                        volume: ch.volume,
                        waveform: ch.waveform,
                    },
                }), None)
            }
        },
        LmmlCommand::Rest { length, is_dotted } => {
            let (l, d) = resolved_length(ch.length, ch.is_dotted, length, is_dotted);
            if l == 0 {
                (e, None, Some(EvalError::InvalidLength))
            } else {
                (e, Some(ElementView::Note { length_ms: duration_ms(ch.tempo, l, d), tone: ToneView::Rest }), None)
            }
        },
        LmmlCommand::Chord { notes, length, is_dotted } => {
            let (l, d) = resolved_length(ch.length, ch.is_dotted, length, is_dotted);
            if l == 0 {
                (e, None, Some(EvalError::InvalidLength))
            } else {
                (e, Some(ElementView::Note {
                    length_ms: duration_ms(ch.tempo, l, d),
                    tone: ToneView::Chord {
                        notenumbers: voiced(chord_numbers(notes@, ch.octave as int)),
                        volume: ch.volume,
                        waveform: ch.waveform,
                    },
                }), None)
            }
        },
        LmmlCommand::NoteNumber(n) => {
            if ch.length == 0 {
                (e, None, Some(EvalError::InvalidLength))
            } else {
                (e, Some(ElementView::Note {
                    length_ms: duration_ms(ch.tempo, ch.length, ch.is_dotted),
                    tone: ToneView::Single { notenumber: n as int, volume: ch.volume, waveform: ch.waveform },
                }), None)
            }
        },
        LmmlCommand::SetOctave(o) => (e.with_current(ChannelEnv { octave: octave_of(o), ..ch }), None, None),
        LmmlCommand::SetLength(l, d) => (e.with_current(ChannelEnv { length: l, is_dotted: d, ..ch }), None, None),
        LmmlCommand::SetVolume(v) => (e.with_current(ChannelEnv { volume: v, ..ch }), None, None),
        LmmlCommand::SetTempo(t) => (
            e.with_current(ChannelEnv { tempo: t, ..ch }),
            Some(ElementView::Event(Event::ChangeTempo(t))),
            None,
        ),
        LmmlCommand::SetWaveform(w) => (e.with_current(ChannelEnv { waveform: w, ..ch }), None, None),
        LmmlCommand::SetChannel(n) => {
            if n > 15 {
                (e, None, Some(EvalError::ChannelOutOfRange(n)))
            } else {
                (EnvView { current_channel: n as usize, ..e }, None, None)
            }
        },
        LmmlCommand::IncreaseOctave => (
            e.with_current(ChannelEnv { octave: octave_step(ch.octave, true), ..ch }),
            None,
            None,
        ),
        LmmlCommand::DecreaseOctave => (
            e.with_current(ChannelEnv { octave: octave_step(ch.octave, false), ..ch }),
            None,
            None,
        ),
    }
}

/// A command that was rejected, with its position in the program.
#[derive(Debug, Clone, Copy, PartialEq, Eq, Structural)]
pub struct CommandError {
    pub index: usize,
    pub error: EvalError,
}

pub open spec fn empty_timeline() -> Seq<Seq<ElementView>> {
    Seq::new(16, |i: int| Seq::<ElementView>::empty())
}

/// Channel `ch` of `tl` with `out` appended, if there is one.
pub open spec fn appended(tl: Seq<Seq<ElementView>>, ch: int, out: Option<ElementView>) -> Seq<Seq<ElementView>> {
    match out {
        Some(x) => tl.update(ch, tl[ch].push(x)),
        None => tl,
    }
}

/// The left fold of `step` over a program: final cursor, the sixteen element
/// lists, and the rejected commands in order.
pub open spec fn eval_commands(e: EnvView, cmds: Seq<LmmlCommand>) -> (EnvView, Seq<Seq<ElementView>>, Seq<CommandError>)
    decreases cmds.len(),
{
    if cmds.len() == 0 {
        (e, empty_timeline(), Seq::empty())
    } else {
        let (e1, tl, errs) = eval_commands(e, cmds.drop_last());
        let (e2, out, err) = step(e1, cmds.last());
        (
            e2,
            appended(tl, e1.current_channel as int, out),
            match err {
                Some(x) => errs.push(CommandError { index: (cmds.len() - 1) as usize, error: x }),
                None => errs,
            },
        )
    }
}

pub proof fn lemma_step_wf(e: EnvView, cmd: LmmlCommand)
    requires
        e.wf(),
    ensures
        step(e, cmd).0.wf(),
{
}

pub proof fn lemma_eval_commands_wf(e: EnvView, cmds: Seq<LmmlCommand>)
    requires
        e.wf(),
    ensures
        eval_commands(e, cmds).0.wf(),
        eval_commands(e, cmds).1.len() == 16,
    decreases cmds.len(),
{
    if cmds.len() > 0 {
        lemma_eval_commands_wf(e, cmds.drop_last());
        lemma_step_wf(eval_commands(e, cmds.drop_last()).0, cmds.last());
    }
}

/// Interpretation only appends: the element lists after a prefix of a
/// program are prefixes of those after the whole program, so an element, once
/// emitted, keeps its duration whatever tempo changes follow.
pub proof fn lemma_timeline_append_only(e: EnvView, cmds: Seq<LmmlCommand>, k: int)
    requires
        e.wf(),
        0 <= k <= cmds.len(),
    ensures
        forall|i: int|
            0 <= i < 16 ==> #[trigger] eval_commands(e, cmds).1[i].take(eval_commands(e, cmds.take(k)).1[i].len() as int)
                == eval_commands(e, cmds.take(k)).1[i],
        forall|i: int|
            0 <= i < 16 ==> eval_commands(e, cmds.take(k)).1[i].len() <= #[trigger] eval_commands(e, cmds).1[i].len(),
    decreases cmds.len(),
{
    lemma_eval_commands_wf(e, cmds);
    lemma_eval_commands_wf(e, cmds.take(k));
    if k == cmds.len() {
        assert(cmds.take(k) =~= cmds);
        assert forall|i: int| 0 <= i < 16 implies #[trigger] eval_commands(e, cmds).1[i].take(
            eval_commands(e, cmds.take(k)).1[i].len() as int,
        ) == eval_commands(e, cmds.take(k)).1[i] by {
            assert(eval_commands(e, cmds).1[i].take(eval_commands(e, cmds).1[i].len() as int) =~= eval_commands(e, cmds).1[i]);
        }
    } else {
        let p = cmds.drop_last();
        assert(p.take(k) =~= cmds.take(k));
        lemma_timeline_append_only(e, p, k);
        lemma_eval_commands_wf(e, p);
        let tl = eval_commands(e, p).1;
        let tk = eval_commands(e, cmds.take(k)).1;
        assert forall|i: int| 0 <= i < 16 implies #[trigger] eval_commands(e, cmds).1[i].take(tk[i].len() as int) == tk[i]
            && tk[i].len() <= eval_commands(e, cmds).1[i].len() by {
            assert(eval_commands(e, cmds).1[i].take(tk[i].len() as int) =~= tl[i].take(tk[i].len() as int));
        }
    }
}

impl EvalEnv {
    /// Runs one command: updates the registers of the selected channel or the
    /// selection, and appends what the command emits to the channel that was
    /// selected. A rejected command changes nothing.
    pub fn eval_command(&mut self, cmd: &LmmlCommand, timeline: &mut LmmlTimeline) -> (r: Result<(), EvalError>)
        requires
            old(self).wf(),
        ensures
            final(self).wf(),
            final(self)@ == step(old(self)@, *cmd).0,
            r == match step(old(self)@, *cmd).2 {
                Some(x) => Err::<(), EvalError>(x),
                None => Ok(()),
            },
            forall|j: int|
                0 <= j < 16 ==> #[trigger] final(timeline).channel(j) == (match step(old(self)@, *cmd).1 {
                    Some(x) => if j == old(self).current_channel {
                        old(timeline).channel(j).push(x)
                    } else {
                        old(timeline).channel(j)
                    },
                    None => old(timeline).channel(j),
                }),
            *cmd matches LmmlCommand::SetChannel(n) ==> (n > 15 ==> r == Err::<(), EvalError>(
                EvalError::ChannelOutOfRange(n),
            ) && final(self).current_channel == old(self).current_channel) && (n <= 15 ==> r is Ok
                && final(self).current_channel == n),
    {
        let i = self.current_channel;
        let ch = self.channels[i];
        match cmd {
            LmmlCommand::Note { note, modifier, length, is_dotted } => {
                match length_to_ms(ch.tempo, resolve_length(ch.length, ch.is_dotted, *length, *is_dotted)) {
                    Err(e) => Err(e),
                    Ok(ms) => {
                        let n = note.to_notenumber(*modifier, ch.octave);
                        let tone = NoteType::Single { notenumber: n, volume: ch.volume, waveform: ch.waveform };
                        timeline.push(i, Element::Note(Note { length_ms: ms, note_type: tone }));
                        Ok(())
                    },
                }
            },
            LmmlCommand::Rest { length, is_dotted } => {
                match length_to_ms(ch.tempo, resolve_length(ch.length, ch.is_dotted, *length, *is_dotted)) {
                    Err(e) => Err(e),
                    Ok(ms) => {
                        timeline.push(i, Element::Note(Note { length_ms: ms, note_type: NoteType::Rest }));
                        Ok(())
                    },
                }
            },
            LmmlCommand::Chord { notes, length, is_dotted } => {
                match length_to_ms(ch.tempo, resolve_length(ch.length, ch.is_dotted, *length, *is_dotted)) {
                    Err(e) => Err(e),
                    Ok(ms) => {
                        let mut nums: Vec<i64> = Vec::new();
                        let mut k: usize = 0;
                        while k < notes.len()
                            invariant
                                k <= notes@.len(),
                                ints_of_i64(nums@) == chord_numbers(notes@.take(k as int), ch.octave as int),
                            decreases notes@.len() - k,
                        {
                            let (c, m) = notes[k];
                            let n = c.to_notenumber(m, ch.octave);
                            assert(chord_numbers(notes@.take(k as int + 1), ch.octave as int) =~= chord_numbers(
                                notes@.take(k as int),
                                ch.octave as int,
                            ).push(n as int));
                            nums.push(n);
                            assert(ints_of_i64(nums@) =~= chord_numbers(notes@.take(k as int), ch.octave as int).push(n as int));
                            k = k + 1;
                        }
                        assert(notes@.take(notes@.len() as int) =~= notes@);
                        let tones = voice_chord(&nums);
                        let tone = NoteType::Chord { notenumbers: tones, volume: ch.volume, waveform: ch.waveform };
                        timeline.push(i, Element::Note(Note { length_ms: ms, note_type: tone }));
                        Ok(())
                    },
                }
            },
            LmmlCommand::NoteNumber(n) => {
                match length_to_ms(ch.tempo, (ch.length, ch.is_dotted)) {
                    Err(e) => Err(e),
                    Ok(ms) => {
                        let tone = NoteType::Single { notenumber: *n as i64, volume: ch.volume, waveform: ch.waveform };
                        timeline.push(i, Element::Note(Note { length_ms: ms, note_type: tone }));
                        Ok(())
                    },
                }
            },
            LmmlCommand::SetOctave(o) => {
                let octave: i32 = if *o > i32::MAX as u32 { i32::MAX } else { *o as i32 };
                self.channels[i] = ChannelEnv { octave, ..ch };
                Ok(())
            },
            LmmlCommand::SetLength(l, d) => {
                self.channels[i] = ChannelEnv { length: *l, is_dotted: *d, ..ch };
                Ok(())
            },
            LmmlCommand::SetVolume(v) => {
                self.channels[i] = ChannelEnv { volume: *v, ..ch };
                Ok(())
            },
            LmmlCommand::SetTempo(t) => {
                self.channels[i] = ChannelEnv { tempo: *t, ..ch };
                timeline.push(i, Element::Event(Event::ChangeTempo(*t)));
                Ok(())
            },
            LmmlCommand::SetWaveform(w) => {
                self.channels[i] = ChannelEnv { waveform: *w, ..ch };
                Ok(())
            },
            LmmlCommand::SetChannel(n) => {
                if *n > 15 {
                    Err(EvalError::ChannelOutOfRange(*n))
                } else {
                    self.current_channel = *n as usize;
                    Ok(())
                }
            },
            LmmlCommand::IncreaseOctave => {
                let octave: i32 = if ch.octave == i32::MAX { ch.octave } else { ch.octave + 1 };
                self.channels[i] = ChannelEnv { octave, ..ch };
                Ok(())
            },
            LmmlCommand::DecreaseOctave => {
                let octave: i32 = if ch.octave == i32::MIN { ch.octave } else { ch.octave - 1 };
                self.channels[i] = ChannelEnv { octave, ..ch };
                Ok(())
            },
        }
    }
}

impl LmmlAst {
    /// Interprets the program from the cursor `env`, which keeps the registers
    /// afterwards. Rejected commands are skipped and listed with their index.
    pub fn to_timeline(&self, env: &mut EvalEnv) -> (r: (LmmlTimeline, Vec<CommandError>))
        requires
            old(env).wf(),
        ensures
            final(env).wf(),
            final(env)@ == eval_commands(old(env)@, self.0@).0,
            forall|i: int| 0 <= i < 16 ==> #[trigger] r.0.channel(i) == eval_commands(old(env)@, self.0@).1[i],
            r.1@ == eval_commands(old(env)@, self.0@).2,
    {
        let mut timeline = LmmlTimeline::new();
        let mut errors: Vec<CommandError> = Vec::new();
        let ghost e0 = env@;
        let mut k: usize = 0;
        while k < self.0.len()
            invariant
                k <= self.0@.len(),
                e0.wf(),
                env.wf(),
                env@ == eval_commands(e0, self.0@.take(k as int)).0,
                forall|i: int| 0 <= i < 16 ==> #[trigger] timeline.channel(i) == eval_commands(e0, self.0@.take(k as int)).1[i],
                errors@ == eval_commands(e0, self.0@.take(k as int)).2,
            decreases self.0@.len() - k,
        {
            let ghost prefix = self.0@.take(k as int);
            let ghost next = self.0@.take(k as int + 1);
            assert(next.drop_last() =~= prefix);
            proof {
                lemma_eval_commands_wf(e0, prefix);
            }
            let ghost before = timeline;
            let ghost cur = env.current_channel;
            match env.eval_command(&self.0[k], &mut timeline) {
                Ok(()) => {},
                Err(error) => {
                    errors.push(CommandError { index: k, error });
                },
            }
            assert forall|i: int| 0 <= i < 16 implies #[trigger] timeline.channel(i) == eval_commands(e0, next).1[i] by {
                lemma_eval_commands_wf(e0, prefix);
            }
            k = k + 1;
        }
        assert(self.0@.take(self.0@.len() as int) =~= self.0@);
        (timeline, errors)
    }
}

} // verus!
