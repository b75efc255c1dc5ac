use vstd::prelude::*;

use crate::event::{spec_pitch, to_note, to_pos, Message, Pitch};
use crate::fp::Fp;
use crate::strings::{parse_u32, spec_parse_u32, spec_split, spec_trim, split_char, str_eq, trim};
use crate::ugen::NumLit;

verus! {

/// A table of numbers, the payload of a table leaf.
pub struct Table(pub Vec<NumLit>);

/// A sequence of pattern messages, the payload of a pattern leaf.
pub struct Pattern(pub Vec<Message>);

/// The note-token grammar: a pitch, a colon, and an unsigned note
/// division.
pub open spec fn spec_note_token(s: Seq<char>) -> Option<(Pitch, u32)> {
    if spec_split(s, ':').len() != 2 {
        None
    } else {
        match spec_pitch(spec_split(s, ':')[0]) {
            Option::None => None,
            Option::Some(p) => match spec_parse_u32(spec_split(s, ':')[1]) {
                Option::None => None,
                Option::Some(l) => Some((p, l)),
            },
        }
    }
}

/// What a successfully parsed token must look like as a message.  The
/// note's position length comes from the host arithmetic, so only its
/// bar (always zero) is pinned here.
pub open spec fn spec_msg_shape(s: Seq<char>, m: Message) -> bool {
    if s == "loop"@ {
        m == Message::Loop
    } else {
        match spec_note_token(s) {
            Option::Some((p, _l)) => (m matches Message::Note(p2, q) && p2 == p && q.bar == 0),
            Option::None => false,
        }
    }
}

/// Whether a token belongs to the pattern grammar.
pub open spec fn spec_token_ok(s: Seq<char>) -> bool {
    s == "loop"@ || spec_note_token(s) is Some
}

impl Table {
    /// Wrap table data.
    pub fn new(data: Vec<NumLit>) -> (t: Table)
        ensures
            t.0 == data,
    {
        Table(data)
    }

    /// Parse a table: the trimmed text splits on single spaces, and
    /// every field must parse as a number by the host arithmetic.  One
    /// entry per field on success.
    pub fn parse_str<F: Fp>(data: &str, fp: &mut F) -> (r: Option<Vec<NumLit>>)
        ensures
            (r matches Some(v) ==> v@.len() == spec_split(spec_trim(data@), ' ').len()),
    {
        let cleaned = trim(data);
        let parts = split_char(cleaned.as_str(), ' ');
        let ghost toks = spec_split(spec_trim(data@), ' ');
        let mut out: Vec<NumLit> = Vec::new();
        let mut i: usize = 0;
        while i < parts.len()
            invariant
                parts.deep_view() == toks,
                i <= parts@.len(),
                parts@.len() == toks.len(),
                out@.len() == i,
            decreases parts@.len() - i,
        {
            match fp.parse_num(parts[i].as_str()) {
                Option::Some((bits, text)) => {
                    out.push(NumLit { bits, text });
                },
                Option::None => {
                    return None;
                },
            }
            i = i + 1;
        }
        Some(out)
    }
}

impl Pattern {
    /// Wrap pattern data.
    pub fn new(data: Vec<Message>) -> (p: Pattern)
        ensures
            p.0 == data,
    {
        Pattern(data)
    }

    /// Parse one pattern token: `loop`, or `<pitch>:<division>`.
    pub fn parse_str_1<F: Fp>(token: &str, fp: &mut F) -> (r: Result<Message, bool>)
        ensures
            token@ == "loop"@ ==> r == Result::<Message, bool>::Ok(Message::Loop),
            token@ != "loop"@ ==> (match spec_note_token(token@) {
                Option::Some((p, _l)) => (r matches Ok(m) && spec_msg_shape(token@, m)),
                Option::None => r == Result::<Message, bool>::Err(false),
            }),
            r is Ok <==> spec_token_ok(token@),
    {
        if str_eq(token, "loop") {
            return Ok(Message::Loop);
        }
        let parts = split_char(token, ':');
        if parts.len() != 2 {
            return Err(false);
        }
        match to_note(parts[0].as_str()) {
            Option::Some(pitch) => {
                match parse_u32(parts[1].as_str()) {
                    Option::Some(len) => {
                        let pos = to_pos(len, fp);
                        Ok(Message::Note(pitch, pos))
                    },
                    Option::None => Err(false),
                }
            },
            Option::None => Err(false),
        }
    }

    /// Parse a whole pattern: the trimmed text splits on single
    /// spaces, and every token must belong to the grammar; a single
    /// malformed token fails the whole parse.
    pub fn parse_str<F: Fp>(data: &str, fp: &mut F) -> (r: Result<Vec<Message>, bool>)
        ensures
            (r is Ok <==> (forall|i: int|
                0 <= i < spec_split(spec_trim(data@), ' ').len() ==> spec_token_ok(
                    #[trigger] spec_split(spec_trim(data@), ' ')[i],
                ))),
            (r matches Ok(v) ==> v@.len() == spec_split(spec_trim(data@), ' ').len() && forall|
                i: int,
            |
                0 <= i < v@.len() ==> spec_msg_shape(
                    spec_split(spec_trim(data@), ' ')[i],
                    #[trigger] v@[i],
                )),
            (r is Err ==> r == Result::<Vec<Message>, bool>::Err(false)),
    {
        let cleaned = trim(data);
        let parts = split_char(cleaned.as_str(), ' ');
        let ghost toks = spec_split(spec_trim(data@), ' ');
        let mut out: Vec<Message> = Vec::new();
        let mut i: usize = 0;
        while i < parts.len()
            invariant
                toks == spec_split(spec_trim(data@), ' '),
                parts.deep_view() == toks,
                i <= parts@.len(),
                parts@.len() == toks.len(),
                out@.len() == i,
                forall|j: int| 0 <= j < i ==> spec_token_ok(#[trigger] toks[j]),
                forall|j: int|
                    0 <= j < i ==> spec_msg_shape(toks[j], #[trigger] out@[j]),
            decreases parts@.len() - i,
        {
            proof {
                assert(parts@[i as int]@ == parts.deep_view()[i as int]);
            }
            match Pattern::parse_str_1(parts[i].as_str(), fp) {
                Result::Ok(msg) => {
                    out.push(msg);
                },
                Result::Err(_) => {
                    proof {
                        assert(!spec_token_ok(spec_split(spec_trim(data@), ' ')[i as int]));
                    }
                    return Err(false);
                },
            }
            i = i + 1;
        }
        Ok(out)
    }
}

} // verus!
