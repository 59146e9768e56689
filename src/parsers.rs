use vstd::prelude::*;

use crate::ast::{CommandView, LmmlAst, LmmlCommand, NoteChar, NoteModifier};

verus! {

// The grammar, read from a byte position `i`. Each `..._at` function gives
// what is recognised there and the position just after it, or `None`.
/// Whitespace between commands: space, tab, carriage return, line feed.
pub open spec fn is_space(b: u8) -> bool {
    b == 0x20 || b == 0x09 || b == 0x0d || b == 0x0a
}

pub open spec fn is_digit(b: u8) -> bool {
    0x30 <= b <= 0x39
}

/// The first position at or after `i` that does not hold whitespace.
pub open spec fn skip_spaces(s: Seq<u8>, i: int) -> int
    decreases s.len() - i,
{
    if 0 <= i < s.len() && is_space(s[i]) {
        skip_spaces(s, i + 1)
    } else {
        i
    }
}

/// The first position at or after `i` that does not hold a digit.
pub open spec fn digits_end(s: Seq<u8>, i: int) -> int
    decreases s.len() - i,
{
    if 0 <= i < s.len() && is_digit(s[i]) {
        digits_end(s, i + 1)
    } else {
        i
    }
}

/// Value of a run of decimal digits.
pub open spec fn decimal(d: Seq<u8>) -> nat
    decreases d.len(),
{
    if d.len() == 0 {
        0
    } else {
        decimal(d.drop_last()) * 10 + (d.last() - 0x30) as nat
    }
}

/// One or more digits whose value fits in a `u32`.
pub open spec fn number_at(s: Seq<u8>, i: int) -> Option<(u32, int)> {
    let j = digits_end(s, i);
    if j == i || decimal(s.subrange(i, j)) > u32::MAX {
        None
    } else {
        Some((decimal(s.subrange(i, j)) as u32, j))
    }
}

/// An optional number: absent when no number stands at `i`.
pub open spec fn opt_number_at(s: Seq<u8>, i: int) -> (Option<u32>, int) {
    match number_at(s, i) {
        Some((n, j)) => (Some(n), j),
        None => (None, i),
    }
}

/// An optional dot.
pub open spec fn dot_at(s: Seq<u8>, i: int) -> (bool, int) {
    if 0 <= i < s.len() && s[i] == 0x2e {
        (true, i + 1)
    } else {
        (false, i)
    }
}

/// A note letter, upper or lower case.
pub open spec fn note_char_of(b: u8) -> Option<NoteChar> {
    if b == 0x43 || b == 0x63 {
        Some(NoteChar::C)
    } else if b == 0x44 || b == 0x64 {
        Some(NoteChar::D)
    } else if b == 0x45 || b == 0x65 {
        Some(NoteChar::E)
    } else if b == 0x46 || b == 0x66 {
        Some(NoteChar::F)
    } else if b == 0x47 || b == 0x67 {
        Some(NoteChar::G)
    } else if b == 0x41 || b == 0x61 {
        Some(NoteChar::A)
    } else if b == 0x42 || b == 0x62 {
        Some(NoteChar::B)
    } else {
        None
    }
}

pub open spec fn note_char_at(s: Seq<u8>, i: int) -> Option<NoteChar> {
    if 0 <= i < s.len() {
        note_char_of(s[i])
    } else {
        None
    }
}

/// `+` is sharp, `-` is flat.
pub open spec fn modifier_at(s: Seq<u8>, i: int) -> Option<NoteModifier> {
    if 0 <= i < s.len() && s[i] == 0x2b {
        Some(NoteModifier::Sharp)
    } else if 0 <= i < s.len() && s[i] == 0x2d {
        Some(NoteModifier::Flat)
    } else {
        None
    }
}

/// An optional modifier; natural when absent.
pub open spec fn opt_modifier_at(s: Seq<u8>, i: int) -> (NoteModifier, int) {
    match modifier_at(s, i) {
        Some(m) => (m, i + 1),
        None => (NoteModifier::Natural, i),
    }
}

/// Whether `s[i]` is one of the two letters `a`, `b`.
pub open spec fn letter_at(s: Seq<u8>, i: int, a: u8, b: u8) -> bool {
    0 <= i < s.len() && (s[i] == a || s[i] == b)
}

/// A note: letter, optional modifier, optional length, optional dot.
pub open spec fn note_command_at(s: Seq<u8>, i: int) -> Option<(CommandView, int)> {
    match note_char_at(s, i) {
        Some(note) => {
            let (modifier, j) = opt_modifier_at(s, i + 1);
            let (length, k) = opt_number_at(s, j);
            let (is_dotted, e) = dot_at(s, k);
            Some((CommandView::Note { note, modifier, length, is_dotted }, e))
        },
        None => None,
    }
}

/// A rest: `R`, optional length, optional dot.
pub open spec fn rest_command_at(s: Seq<u8>, i: int) -> Option<(CommandView, int)> {
    if letter_at(s, i, 0x52, 0x72) {
        let (length, k) = opt_number_at(s, i + 1);
        let (is_dotted, e) = dot_at(s, k);
        Some((CommandView::Rest { length, is_dotted }, e))
    } else {
        None
    }
}

/// The tones of a chord from `i` on: letters, each with an optional modifier.
pub open spec fn chord_notes_at(s: Seq<u8>, i: int) -> (Seq<(NoteChar, NoteModifier)>, int)
    decreases s.len() - i,
{
    match note_char_at(s, i) {
        Some(n) => {
            let (m, j) = opt_modifier_at(s, i + 1);
            let (rest, e) = chord_notes_at(s, j);
            (seq![(n, m)] + rest, e)
        },
        None => (Seq::empty(), i),
    }
}

/// A chord: `[`, one or more tones, `]`, optional length, optional dot.
pub open spec fn chord_command_at(s: Seq<u8>, i: int) -> Option<(CommandView, int)> {
    if 0 <= i < s.len() && s[i] == 0x5b {
        let (notes, j) = chord_notes_at(s, i + 1);
        if notes.len() > 0 && 0 <= j < s.len() && s[j] == 0x5d {
            let (length, k) = opt_number_at(s, j + 1);
            let (is_dotted, e) = dot_at(s, k);
            Some((CommandView::Chord { notes, length, is_dotted }, e))
        } else {
            None
        }
    } else {
        None
    }
}

/// A letter (one of `a`, `b`) followed by a number, which `f` turns into a command.
pub open spec fn number_command_at(s: Seq<u8>, i: int, a: u8, b: u8, f: spec_fn(u32) -> CommandView) -> Option<
    (CommandView, int),
> {
    if letter_at(s, i, a, b) {
        match number_at(s, i + 1) {
            Some((n, j)) => Some((f(n), j)),
            None => None,
        }
    } else {
        None
    }
}

/// A length setting: `L`, a number, optional dot.
pub open spec fn length_command_at(s: Seq<u8>, i: int) -> Option<(CommandView, int)> {
    if letter_at(s, i, 0x4c, 0x6c) {
        match number_at(s, i + 1) {
            Some((n, j)) => {
                let (d, e) = dot_at(s, j);
                Some((CommandView::SetLength(n, d), e))
            },
            None => None,
        }
    } else {
        None
    }
}

/// One command at `i`. The first byte decides which form is tried.
pub open spec fn command_at(s: Seq<u8>, i: int) -> Option<(CommandView, int)> {
    if !(0 <= i < s.len()) {
        None
    } else if note_char_of(s[i]) is Some {
        note_command_at(s, i)
    } else if letter_at(s, i, 0x52, 0x72) {
        rest_command_at(s, i)
    } else if s[i] == 0x5b {
        chord_command_at(s, i)
    } else if letter_at(s, i, 0x4e, 0x6e) {
        number_command_at(s, i, 0x4e, 0x6e, |n: u32| CommandView::NoteNumber(n))
    } else if letter_at(s, i, 0x4f, 0x6f) {
        number_command_at(s, i, 0x4f, 0x6f, |n: u32| CommandView::SetOctave(n))
    } else if letter_at(s, i, 0x4c, 0x6c) {
        length_command_at(s, i)
    } else if letter_at(s, i, 0x56, 0x76) {
        number_command_at(s, i, 0x56, 0x76, |n: u32| CommandView::SetVolume(n))
    } else if letter_at(s, i, 0x54, 0x74) {
        number_command_at(s, i, 0x54, 0x74, |n: u32| CommandView::SetTempo(n))
    } else if s[i] == 0x40 {
        number_command_at(s, i, 0x40, 0x40, |n: u32| CommandView::SetWaveform(n))
    } else if s[i] == 0x3a {
        number_command_at(s, i, 0x3a, 0x3a, |n: u32| CommandView::SetChannel(n))
    } else if s[i] == 0x3e {
        Some((CommandView::IncreaseOctave, i + 1))
    } else if s[i] == 0x3c {
        Some((CommandView::DecreaseOctave, i + 1))
    } else {
        None
    }
}

/// Commands from `i` on, each with whitespace around it, as many as match;
/// and the position where the first one that does not match would begin.
pub open spec fn commands_from(s: Seq<u8>, i: int) -> (Seq<CommandView>, int)
    decreases s.len() - i,
{
    match command_at(s, skip_spaces(s, i)) {
        Some((c, k)) => {
            let next = skip_spaces(s, k);
            if i < next <= s.len() {
                let (rest, e) = commands_from(s, next);
                (seq![c] + rest, e)
            } else {
                (seq![c], next)
            }
        },
        None => (Seq::empty(), i),
    }
}

/// A whole program: commands with whitespace around them, up to the end of
/// the input. Otherwise the position where unreadable text begins.
pub open spec fn program(s: Seq<u8>) -> Result<Seq<CommandView>, int> {
    let (cs, e) = commands_from(s, 0);
    if e == s.len() {
        Ok(cs)
    } else {
        Err(e)
    }
}

/// What an exec parser returns, as a model: the value and the position after it.
pub open spec fn at_int<T>(r: Option<(T, usize)>) -> Option<(T, int)> {
    match r {
        Some((v, j)) => Some((v, j as int)),
        None => None,
    }
}

pub open spec fn command_view(r: Option<(LmmlCommand, usize)>) -> Option<(CommandView, int)> {
    match r {
        Some((c, j)) => Some((c@, j as int)),
        None => None,
    }
}

pub proof fn lemma_skip_spaces(s: Seq<u8>, i: int)
    requires
        0 <= i <= s.len(),
    ensures
        i <= skip_spaces(s, i) <= s.len(),
        skip_spaces(s, i) < s.len() ==> !is_space(s[skip_spaces(s, i)]),
    decreases s.len() - i,
{
    if i < s.len() && is_space(s[i]) {
        lemma_skip_spaces(s, i + 1);
    }
}

pub proof fn lemma_digits_end(s: Seq<u8>, i: int)
    requires
        0 <= i <= s.len(),
    ensures
        i <= digits_end(s, i) <= s.len(),
    decreases s.len() - i,
{
    if i < s.len() && is_digit(s[i]) {
        lemma_digits_end(s, i + 1);
    }
}

pub proof fn lemma_chord_notes(s: Seq<u8>, i: int)
    requires
        0 <= i <= s.len(),
    ensures
        i <= chord_notes_at(s, i).1 <= s.len(),
    decreases s.len() - i,
{
    if let Some(n) = note_char_at(s, i) {
        let (m, j) = opt_modifier_at(s, i + 1);
        lemma_chord_notes(s, j);
    }
}

/// A command, when one is recognised, takes at least one byte.
pub proof fn lemma_command_at(s: Seq<u8>, i: int)
    requires
        0 <= i <= s.len(),
    ensures
        command_at(s, i) matches Some((c, k)) ==> i < k <= s.len(),
{
    if i < s.len() {
        lemma_digits_end(s, i + 1);
        if i + 2 <= s.len() {
            lemma_digits_end(s, i + 2);
        }
        if i + 3 <= s.len() {
            lemma_digits_end(s, i + 3);
        }
        lemma_chord_notes(s, i + 1);
        let j = chord_notes_at(s, i + 1).1;
        if j + 1 <= s.len() {
            lemma_digits_end(s, j + 1);
        }
    }
}

pub fn parse_whitespace(s: &[u8], i: usize) -> (r: usize)
    requires
        i <= s@.len(),
    ensures
        r == skip_spaces(s@, i as int),
{
    let mut j = i;
    while j < s.len() && (s[j] == 0x20 || s[j] == 0x09 || s[j] == 0x0d || s[j] == 0x0a)
        invariant
            i <= j <= s@.len(),
            skip_spaces(s@, j as int) == skip_spaces(s@, i as int),
        decreases s@.len() - j,
    {
        j = j + 1;
    }
    j
}

pub fn parse_number(s: &[u8], i: usize) -> (r: Option<(u32, usize)>)
    requires
        i <= s@.len(),
    ensures
        at_int(r) == number_at(s@, i as int),
{
    let mut j = i;
    let mut val: u64 = 0;
    while j < s.len() && 0x30 <= s[j] && s[j] <= 0x39
        invariant
            i <= j <= s@.len(),
            digits_end(s@, j as int) == digits_end(s@, i as int),
            decimal(s@.subrange(i as int, j as int)) <= u32::MAX ==> val == decimal(s@.subrange(i as int, j as int)),
            decimal(s@.subrange(i as int, j as int)) > u32::MAX ==> val > u32::MAX,
            val <= 10 * (u32::MAX as int) + 9,
        decreases s@.len() - j,
    {
        let ghost before = s@.subrange(i as int, j as int);
        let ghost after = s@.subrange(i as int, j as int + 1);
        assert(after.drop_last() =~= before);
        let d = (s[j] - 0x30) as u64;
        if val <= u32::MAX as u64 {
            val = val * 10 + d;
        }
        j = j + 1;
    }
    if j == i || val > u32::MAX as u64 {
        None
    } else {
        Some((val as u32, j))
    }
}

pub fn parse_dot(s: &[u8], i: usize) -> (r: (bool, usize))
    requires
        i <= s@.len(),
    ensures
        (r.0, r.1 as int) == dot_at(s@, i as int),
{
    if i < s.len() && s[i] == 0x2e {
        (true, i + 1)
    } else {
        (false, i)
    }
}

pub fn parse_note_char(s: &[u8], i: usize) -> (r: Option<NoteChar>)
    requires
        i <= s@.len(),
    ensures
        r == note_char_at(s@, i as int),
{
    if i >= s.len() {
        return None;
    }
    match s[i] {
        0x43 | 0x63 => Some(NoteChar::C),
        0x44 | 0x64 => Some(NoteChar::D),
        0x45 | 0x65 => Some(NoteChar::E),
        0x46 | 0x66 => Some(NoteChar::F),
        0x47 | 0x67 => Some(NoteChar::G),
        0x41 | 0x61 => Some(NoteChar::A),
        0x42 | 0x62 => Some(NoteChar::B),
        _ => None,
    }
}

pub fn parse_modifier(s: &[u8], i: usize) -> (r: Option<NoteModifier>)
    requires
        i <= s@.len(),
    ensures
        r == modifier_at(s@, i as int),
{
    if i < s.len() && s[i] == 0x2b {
        Some(NoteModifier::Sharp)
    } else if i < s.len() && s[i] == 0x2d {
        Some(NoteModifier::Flat)
    } else {
        None
    }
}

fn parse_opt_modifier(s: &[u8], i: usize) -> (r: (NoteModifier, usize))
    requires
        i <= s@.len(),
    ensures
        (r.0, r.1 as int) == opt_modifier_at(s@, i as int),
        r.1 <= s@.len(),
{
    let _len = s.len();
    match parse_modifier(s, i) {
        Some(m) => (m, i + 1),
        None => (NoteModifier::Natural, i),
    }
}

fn parse_opt_number(s: &[u8], i: usize) -> (r: (Option<u32>, usize))
    requires
        i <= s@.len(),
    ensures
        (r.0, r.1 as int) == opt_number_at(s@, i as int),
        r.1 <= s@.len(),
{
    proof {
        lemma_digits_end(s@, i as int);
    }
    match parse_number(s, i) {
        Some((n, j)) => (Some(n), j),
        None => (None, i),
    }
}

pub fn parse_note_command(s: &[u8], i: usize) -> (r: Option<(LmmlCommand, usize)>)
    requires
        i <= s@.len(),
    ensures
        command_view(r) == note_command_at(s@, i as int),
{
    let _len = s.len();
    match parse_note_char(s, i) {
        Some(note) => {
            let (modifier, j) = parse_opt_modifier(s, i + 1);
            let (length, k) = parse_opt_number(s, j);
            let (is_dotted, e) = parse_dot(s, k);
            Some((LmmlCommand::Note { note, modifier, length, is_dotted }, e))
        },
        None => None,
    }
}

pub fn parse_rest_command(s: &[u8], i: usize) -> (r: Option<(LmmlCommand, usize)>)
    requires
        i <= s@.len(),
    ensures
        command_view(r) == rest_command_at(s@, i as int),
{
    if i < s.len() && (s[i] == 0x52 || s[i] == 0x72) {
        let (length, k) = parse_opt_number(s, i + 1);
        let (is_dotted, e) = parse_dot(s, k);
        Some((LmmlCommand::Rest { length, is_dotted }, e))
    } else {
        None
    }
}

pub fn parse_chord_command(s: &[u8], i: usize) -> (r: Option<(LmmlCommand, usize)>)
    requires
        i <= s@.len(),
    ensures
        command_view(r) == chord_command_at(s@, i as int),
{
    if !(i < s.len() && s[i] == 0x5b) {
        return None;
    }
    let mut notes: Vec<(NoteChar, NoteModifier)> = Vec::new();
    let len = s.len();
    let mut j = i + 1;
    loop
        invariant
            i + 1 <= j <= s@.len(),
            len == s@.len(),
            notes@ + chord_notes_at(s@, j as int).0 == chord_notes_at(s@, i + 1).0,
            chord_notes_at(s@, j as int).1 == chord_notes_at(s@, i + 1).1,
        ensures
            j <= s@.len(),
            notes@ == chord_notes_at(s@, i + 1).0,
            j == chord_notes_at(s@, i + 1).1,
        decreases s@.len() - j,
    {
        match parse_note_char(s, j) {
            Some(n) => {
                let (m, k) = parse_opt_modifier(s, j + 1);
                let ghost rest = chord_notes_at(s@, k as int).0;
                assert(notes@.push((n, m)) + rest =~= notes@ + (seq![(n, m)] + rest));
                notes.push((n, m));
                j = k;
            },
            None => {
                assert(notes@ =~= notes@ + chord_notes_at(s@, j as int).0);
                break ;
            },
        }
    }
    if notes.len() > 0 && j < s.len() && s[j] == 0x5d {
        let (length, k) = parse_opt_number(s, j + 1);
        let (is_dotted, e) = parse_dot(s, k);
        Some((LmmlCommand::Chord { notes, length, is_dotted }, e))
    } else {
        None
    }
}

pub fn parse_n_command(s: &[u8], i: usize) -> (r: Option<(LmmlCommand, usize)>)
    requires
        i <= s@.len(),
    ensures
        command_view(r) == number_command_at(s@, i as int, 0x4e, 0x6e, |n: u32| CommandView::NoteNumber(n)),
{
    if i < s.len() && (s[i] == 0x4e || s[i] == 0x6e) {
        match parse_number(s, i + 1) {
            Some((n, j)) => Some((LmmlCommand::NoteNumber(n), j)),
            None => None,
        }
    } else {
        None
    }
}

pub fn parse_octave_command(s: &[u8], i: usize) -> (r: Option<(LmmlCommand, usize)>)
    requires
        i <= s@.len(),
    ensures
        command_view(r) == number_command_at(s@, i as int, 0x4f, 0x6f, |n: u32| CommandView::SetOctave(n)),
{
    if i < s.len() && (s[i] == 0x4f || s[i] == 0x6f) {
        match parse_number(s, i + 1) {
            Some((n, j)) => Some((LmmlCommand::SetOctave(n), j)),
            None => None,
        }
    } else {
        None
    }
}

pub fn parse_length_command(s: &[u8], i: usize) -> (r: Option<(LmmlCommand, usize)>)
    requires
        i <= s@.len(),
    ensures
        command_view(r) == length_command_at(s@, i as int),
{
    if i < s.len() && (s[i] == 0x4c || s[i] == 0x6c) {
        proof {
            lemma_digits_end(s@, i as int + 1);
        }
        match parse_number(s, i + 1) {
            Some((n, j)) => {
                let (d, e) = parse_dot(s, j);
                Some((LmmlCommand::SetLength(n, d), e))
            },
            None => None,
        }
    } else {
        None
    }
}

pub fn parse_volume_command(s: &[u8], i: usize) -> (r: Option<(LmmlCommand, usize)>)
    requires
        i <= s@.len(),
    ensures
        command_view(r) == number_command_at(s@, i as int, 0x56, 0x76, |n: u32| CommandView::SetVolume(n)),
{
    if i < s.len() && (s[i] == 0x56 || s[i] == 0x76) {
        match parse_number(s, i + 1) {
            Some((n, j)) => Some((LmmlCommand::SetVolume(n), j)),
            None => None,
        }
    } else {
        None
    }
}

pub fn parse_tempo_command(s: &[u8], i: usize) -> (r: Option<(LmmlCommand, usize)>)
    requires
        i <= s@.len(),
    ensures
        command_view(r) == number_command_at(s@, i as int, 0x54, 0x74, |n: u32| CommandView::SetTempo(n)),
{
    if i < s.len() && (s[i] == 0x54 || s[i] == 0x74) {
        match parse_number(s, i + 1) {
            Some((n, j)) => Some((LmmlCommand::SetTempo(n), j)),
            None => None,
        }
    } else {
        None
    }
}

pub fn parse_waveform_command(s: &[u8], i: usize) -> (r: Option<(LmmlCommand, usize)>)
    requires
        i <= s@.len(),
    ensures
        command_view(r) == number_command_at(s@, i as int, 0x40, 0x40, |n: u32| CommandView::SetWaveform(n)),
{
    if i < s.len() && s[i] == 0x40 {
        match parse_number(s, i + 1) {
            Some((n, j)) => Some((LmmlCommand::SetWaveform(n), j)),
            None => None,
        }
    } else {
        None
    }
}

pub fn parse_channel_command(s: &[u8], i: usize) -> (r: Option<(LmmlCommand, usize)>)
    requires
        i <= s@.len(),
    ensures
        command_view(r) == number_command_at(s@, i as int, 0x3a, 0x3a, |n: u32| CommandView::SetChannel(n)),
{
    if i < s.len() && s[i] == 0x3a {
        match parse_number(s, i + 1) {
            Some((n, j)) => Some((LmmlCommand::SetChannel(n), j)),
            None => None,
        }
    } else {
        None
    }
}

pub fn parse_inc_octave_command(s: &[u8], i: usize) -> (r: Option<(LmmlCommand, usize)>)
    requires
        i <= s@.len(),
    ensures
        command_view(r) == (if 0 <= i < s@.len() && s@[i as int] == 0x3e {
            Some((CommandView::IncreaseOctave, i + 1))
        } else {
            None
        }),
{
    if i < s.len() && s[i] == 0x3e {
        Some((LmmlCommand::IncreaseOctave, i + 1))
    } else {
        None
    }
}

pub fn parse_dec_octave_command(s: &[u8], i: usize) -> (r: Option<(LmmlCommand, usize)>)
    requires
        i <= s@.len(),
    ensures
        command_view(r) == (if 0 <= i < s@.len() && s@[i as int] == 0x3c {
            Some((CommandView::DecreaseOctave, i + 1))
        } else {
            None
        }),
{
    if i < s.len() && s[i] == 0x3c {
        Some((LmmlCommand::DecreaseOctave, i + 1))
    } else {
        None
    }
}

pub fn parse_command(s: &[u8], i: usize) -> (r: Option<(LmmlCommand, usize)>)
    requires
        i <= s@.len(),
    ensures
        command_view(r) == command_at(s@, i as int),
{
    if i >= s.len() {
        return None;
    }
    let b = s[i];
    if parse_note_char(s, i).is_some() {
        parse_note_command(s, i)
    } else if b == 0x52 || b == 0x72 {
        parse_rest_command(s, i)
    } else if b == 0x5b {
        parse_chord_command(s, i)
    } else if b == 0x4e || b == 0x6e {
        parse_n_command(s, i)
    } else if b == 0x4f || b == 0x6f {
        parse_octave_command(s, i)
    } else if b == 0x4c || b == 0x6c {
        parse_length_command(s, i)
    } else if b == 0x56 || b == 0x76 {
        parse_volume_command(s, i)
    } else if b == 0x54 || b == 0x74 {
        parse_tempo_command(s, i)
    } else if b == 0x40 {
        parse_waveform_command(s, i)
    } else if b == 0x3a {
        parse_channel_command(s, i)
    } else if b == 0x3e {
        parse_inc_octave_command(s, i)
    } else if b == 0x3c {
        parse_dec_octave_command(s, i)
    } else {
        None
    }
}

/// Where a program stops being readable.
#[derive(Debug, Clone, Copy, PartialEq, Eq, Structural)]
pub struct ParseError {
    /// Byte offset of the first text that is not a command.
    pub offset: usize,
}

/// Reads as many commands as match, with whitespace around them, and returns
/// them with the position where reading stopped.
pub fn parse_lmml(s: &[u8]) -> (r: (LmmlAst, usize))
    ensures
        r.0@ == commands_from(s@, 0).0,
        r.1 == commands_from(s@, 0).1,
{
    let mut cmds: Vec<LmmlCommand> = Vec::new();
    let mut pos: usize = 0;
    loop
        invariant
            pos <= s@.len(),
            cmds@.map_values(|c: LmmlCommand| c@) + commands_from(s@, pos as int).0 == commands_from(s@, 0).0,
            commands_from(s@, pos as int).1 == commands_from(s@, 0).1,
        ensures
            cmds@.map_values(|c: LmmlCommand| c@) == commands_from(s@, 0).0,
            pos == commands_from(s@, 0).1,
        decreases s@.len() - pos,
    {
        let j = parse_whitespace(s, pos);
        proof {
            lemma_skip_spaces(s@, pos as int);
        }
        match parse_command(s, j) {
            Some((c, k)) => {
                proof {
                    lemma_command_at(s@, j as int);
                    lemma_skip_spaces(s@, k as int);
                }
                let next = parse_whitespace(s, k);
                let ghost rest = commands_from(s@, next as int).0;
                assert(cmds@.push(c).map_values(|c: LmmlCommand| c@) + rest =~= cmds@.map_values(
                    |c: LmmlCommand| c@,
                ) + (seq![c@] + rest));
                cmds.push(c);
                pos = next;
            },
            None => {
                assert(cmds@.map_values(|c: LmmlCommand| c@) + commands_from(s@, pos as int).0 =~= cmds@.map_values(
                    |c: LmmlCommand| c@,
                ));
                break ;
            },
        }
    }
    (LmmlAst(cmds), pos)
}

/// Reads a whole program; fails where text that is not a command begins.
pub fn parse_lmml_until_eof(s: &[u8]) -> (r: Result<LmmlAst, ParseError>)
    ensures
        match program(s@) {
            Ok(cs) => r matches Ok(a) && a@ == cs,
            Err(p) => r == Err::<LmmlAst, ParseError>(ParseError { offset: p as usize }),
        },
{
    let (ast, pos) = parse_lmml(s);
    if pos == s.len() {
        Ok(ast)
    } else {
        Err(ParseError { offset: pos })
    }
}

} // verus!
