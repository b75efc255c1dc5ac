use vstd::prelude::*;

use crate::fp::{Fp, FOUR_BITS, HALF_BITS};
use crate::strings::{parse_u32, spec_decimal, spec_parse_u32, str_eq, u64_to_string};
use crate::time::{Measure, Pos};

verus! {

pub type NoteNum = u32;

pub type Octave = u32;

/// What a pattern step plays: a pitched note, a kick, or a rest.
#[derive(Clone, Copy, PartialEq, Eq, Structural, Debug)]
pub enum Pitch {
    Pitch(NoteNum, Octave),
    Kick,
    Rest,
}

/// One element of a pattern: a pitch with a length, or the loop marker.
#[derive(Clone, Copy, PartialEq, Eq, Structural, Debug)]
pub enum Message {
    Note(Pitch, Pos),
    Loop,
}

/// A sequencer event at a musical position; the second field of `On` is
/// the bit pattern of a frequency in Hz.
#[derive(Clone, Copy, Debug)]
pub enum Event {
    On(Pos, u64),
    Kick(Pos),
    Off(Pos),
    Loop(Pos),
}

/// The semitone of a natural note letter.
pub open spec fn spec_note_letter(c: char) -> Option<u32> {
    if c == 'c' {
        Some(0u32)
    } else if c == 'd' {
        Some(2u32)
    } else if c == 'e' {
        Some(4u32)
    } else if c == 'f' {
        Some(5u32)
    } else if c == 'g' {
        Some(7u32)
    } else if c == 'a' {
        Some(9u32)
    } else if c == 'b' {
        Some(11u32)
    } else {
        None
    }
}

/// The pitch grammar: `kick`, `rest`, or a note letter, an optional
/// sharp, and an octave number.
pub open spec fn spec_pitch(s: Seq<char>) -> Option<Pitch> {
    if s == "kick"@ {
        Some(Pitch::Kick)
    } else if s == "rest"@ {
        Some(Pitch::Rest)
    } else if s.len() == 0 {
        None
    } else {
        match spec_note_letter(s[0]) {
            Option::None => None,
            Option::Some(base) => {
                let sharp = s.len() >= 2 && s[1] == '#';
                let oct_part = if sharp {
                    s.subrange(2, s.len() as int)
                } else {
                    s.subrange(1, s.len() as int)
                };
                match spec_parse_u32(oct_part) {
                    Option::None => None,
                    Option::Some(o) => Some(
                        Pitch::Pitch(if sharp { (base + 1) as u32 } else { base }, o),
                    ),
                }
            },
        }
    }
}

/// Parse a pitch token.
pub fn to_note(s: &str) -> (r: Option<Pitch>)
    ensures
        r == spec_pitch(s@),
{
    if str_eq(s, "kick") {
        return Some(Pitch::Kick);
    }
    if str_eq(s, "rest") {
        return Some(Pitch::Rest);
    }
    let len = s.unicode_len();
    if len == 0 {
        return None;
    }
    let c = s.get_char(0);
    let base_opt = note_letter(c);
    match base_opt {
        Option::None => None,
        Option::Some(base) => {
            let sharp = len >= 2 && s.get_char(1) == '#';
            let from: usize = if sharp {
                2
            } else {
                1
            };
            let oct_part = s.substring_char(from, len);
            match parse_u32(oct_part) {
                Option::None => None,
                Option::Some(o) => Some(
                    Pitch::Pitch(
                        if sharp {
                            base + 1
                        } else {
                            base
                        },
                        o,
                    ),
                ),
            }
        },
    }
}

/// The semitone of a natural note letter.
fn note_letter(c: char) -> (r: Option<u32>)
    ensures
        r == spec_note_letter(c),
{
    if c == 'c' {
        Some(0)
    } else if c == 'd' {
        Some(2)
    } else if c == 'e' {
        Some(4)
    } else if c == 'f' {
        Some(5)
    } else if c == 'g' {
        Some(7)
    } else if c == 'a' {
        Some(9)
    } else if c == 'b' {
        Some(11)
    } else {
        None
    }
}

/// The name of a semitone within the octave (sharp spellings).
pub open spec fn spec_note_name(k: u32) -> Seq<char> {
    if k == 0 {
        "c"@
    } else if k == 1 {
        "c#"@
    } else if k == 2 {
        "d"@
    } else if k == 3 {
        "d#"@
    } else if k == 4 {
        "e"@
    } else if k == 5 {
        "f"@
    } else if k == 6 {
        "f#"@
    } else if k == 7 {
        "g"@
    } else if k == 8 {
        "g#"@
    } else if k == 9 {
        "a"@
    } else if k == 10 {
        "a#"@
    } else {
        "b"@
    }
}

/// The canonical rendering of a pitch.  A note number at or above 12
/// wraps into the next octave, so enharmonic spellings keep their
/// pitch.
pub open spec fn spec_pitch_str(p: Pitch) -> Seq<char> {
    match p {
        Pitch::Kick => "kick"@,
        Pitch::Rest => "rest"@,
        Pitch::Pitch(n, o) => spec_note_name(n % 12).add(
            spec_decimal(spec_oct_carry(n, o) as nat),
        ),
    }
}

/// The printed octave: the note's own octave plus full octaves carried
/// out of the note number, saturating at the type bound.
pub open spec fn spec_oct_carry(n: u32, o: u32) -> u32 {
    if o + n / 12 <= u32::MAX {
        (o + n / 12) as u32
    } else {
        u32::MAX
    }
}

/// Render a pitch as a token.
pub fn to_str(p: &Pitch) -> (r: String)
    ensures
        r@ == spec_pitch_str(*p),
{
    match p {
        Pitch::Kick => String::from_str("kick"),
        Pitch::Rest => String::from_str("rest"),
        Pitch::Pitch(n, o) => {
            let k = *n % 12;
            let carry = *n / 12;
            let oct: u32 = if *o <= u32::MAX - carry {
                *o + carry
            } else {
                u32::MAX
            };
            let mut out = String::from_str(note_name(k));
            out.append(u64_to_string(oct as u64).as_str());
            out
        },
    }
}

/// The name of a semitone within the octave.
fn note_name(k: u32) -> (r: &'static str)
    requires
        k < 12,
    ensures
        r@ == spec_note_name(k),
{
    if k == 0 {
        "c"
    } else if k == 1 {
        "c#"
    } else if k == 2 {
        "d"
    } else if k == 3 {
        "d#"
    } else if k == 4 {
        "e"
    } else if k == 5 {
        "f"
    } else if k == 6 {
        "f#"
    } else if k == 7 {
        "g"
    } else if k == 8 {
        "g#"
    } else if k == 9 {
        "a"
    } else if k == 10 {
        "a#"
    } else {
        "b"
    }
}

/// Rendering a pitch and parsing the token back returns the same
/// pitch: `to_str` and `to_note` are inverses on canonical pitches
/// (kick, rest, and notes whose number lies within the octave).
pub proof fn lemma_pitch_round_trip(p: Pitch)
    requires
        (p matches Pitch::Pitch(n, _) ==> n < 12),
    ensures
        spec_pitch(spec_pitch_str(p)) == Some(p),
{
    reveal_strlit("kick");
    reveal_strlit("rest");
    reveal_strlit("c");
    reveal_strlit("c#");
    reveal_strlit("d");
    reveal_strlit("d#");
    reveal_strlit("e");
    reveal_strlit("f");
    reveal_strlit("f#");
    reveal_strlit("g");
    reveal_strlit("g#");
    reveal_strlit("a");
    reveal_strlit("a#");
    reveal_strlit("b");
    reveal_strlit("#");
    match p {
        Pitch::Kick => {
        },
        Pitch::Rest => {
            assert("rest"@[0] != "kick"@[0]);
        },
        Pitch::Pitch(n, o) => {
            crate::strings::lemma_decimal_digits(o as nat);
            crate::strings::lemma_decimal_parse(o);
            let name = spec_note_name(n);
            let dec = spec_decimal(o as nat);
            let s = spec_pitch_str(p);
            assert(n % 12 == n);
            assert(n / 12 == 0);
            assert(spec_oct_carry(n, o) == o);
            assert(s == name.add(dec));
            assert(dec.len() >= 1);
            assert(crate::strings::spec_is_digit(dec[0]));
            assert(s[0] == name[0]);
            // no note letter starts a keyword
            assert(s != "kick"@ && s != "rest"@) by {
                if s == "kick"@ {
                    assert(s[0] == 'k');
                }
                if s == "rest"@ {
                    assert(s[0] == 'r');
                }
            }
            let sharp = name.len() == 2;
            assert(sharp ==> name[1] == '#');
            if sharp {
                assert(s.len() >= 2 && s[1] == '#');
                assert(s.subrange(2, s.len() as int) =~= dec);
                assert(spec_parse_u32(s.subrange(2, s.len() as int)) == Some(o));
            } else {
                assert(name.len() == 1);
                assert(s.len() >= 2 ==> s[1] == dec[0]);
                assert(s.len() >= 2 ==> s[1] != '#');
                assert(s.subrange(1, s.len() as int) =~= dec);
                assert(spec_parse_u32(s.subrange(1, s.len() as int)) == Some(o));
            }
            assert(spec_note_letter(s[0]) == Some((if sharp {
                (n - 1) as u32
            } else {
                n
            })));
            assert(spec_pitch(s) == Some(Pitch::Pitch(n, o)));
        },
    }
}

/// The musical position of a note division: `4 / len` beats (so 4 is
/// one beat, 8 half a beat), split into whole beats and a fractional
/// part computed by the host arithmetic.
pub fn to_pos<F: Fp>(len: u32, fp: &mut F) -> (p: Pos)
    ensures
        p.bar == 0,
{
    let len_bits = fp.of_int(len as u64);
    let beats = fp.div(FOUR_BITS, len_bits);
    let floored = fp.floor(beats);
    let whole = fp.to_int(floored);
    let beat: u32 = if whole <= 0xFFFF_FFFFu64 {
        whole as u32
    } else {
        u32::MAX
    };
    let frac = fp.fract(beats);
    Pos { bar: 0, beat, pos: frac }
}

/// The note division of a musical position under a measure: the measure
/// note value divided by the position's length in beats, rounded to the
/// nearest integer.
pub fn to_len<F: Fp>(p: &Pos, m: &Measure, fp: &mut F) -> u32 {
    let bar_f = fp.of_int(p.bar as u64);
    let mbeat_f = fp.of_int(m.beat as u64);
    let bar_beats = fp.mul(bar_f, mbeat_f);
    let beat_f = fp.of_int(p.beat as u64);
    let whole_beats = fp.add(bar_beats, beat_f);
    let beats = fp.add(whole_beats, p.pos);
    let note_f = fp.of_int(m.note as u64);
    let len_bits = fp.div(note_f, beats);
    let half_up = fp.add(len_bits, HALF_BITS);
    let rounded = fp.to_int(half_up);
    if rounded <= 0xFFFF_FFFFu64 {
        rounded as u32
    } else {
        u32::MAX
    }
}

} // verus!
