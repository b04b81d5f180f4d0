//! The terminal input decoder: single-byte key mapping and a three-state
//! byte-at-a-time parser that recognises SGR mouse reports inside CSI
//! sequences.

use vstd::prelude::*;
use vstd::slice::slice_index_get;

verus! {

/// A discrete UI event produced by the decoder and consumed by the
/// coordinator.
#[derive(Debug)]
pub enum UiMessage {
    NextTab,
    SelectTab(usize),
    TogglePause,
    ClearSelection,
    SelectMiddleVisibleLine,
    MouseLeftDown { column: u16, row: u16 },
    Quit,
    Error(String),
}

/// The key event a single byte maps to outside any escape sequence.
pub open spec fn spec_key_message(byte: u8) -> Option<UiMessage> {
    if byte == 9 {  // tab
        Some(UiMessage::NextTab)
    } else if 49 <= byte <= 57 {  // '1'..'9'
        Some(UiMessage::SelectTab((byte - 48) as usize))
    } else if byte == 48 {  // '0'
        Some(UiMessage::SelectTab(0))
    } else if byte == 32 {  // space
        Some(UiMessage::TogglePause)
    } else if byte == 100 || byte == 68 {  // 'd' / 'D'
        Some(UiMessage::ClearSelection)
    } else if byte == 115 || byte == 83 {  // 's' / 'S'
        Some(UiMessage::SelectMiddleVisibleLine)
    } else if byte == 113 || byte == 81 || byte == 3 {  // 'q' / 'Q' / ctrl-C
        Some(UiMessage::Quit)
    } else {
        None
    }
}

/// Map one plain byte to its key event, or to nothing if the byte is unmapped.
pub fn key_message_from_byte(byte: u8) -> (r: Option<UiMessage>)
    ensures
        r == spec_key_message(byte),
{
    if byte == 9 {
        Some(UiMessage::NextTab)
    } else if 49 <= byte && byte <= 57 {
        Some(UiMessage::SelectTab((byte - 48) as usize))
    } else if byte == 48 {
        Some(UiMessage::SelectTab(0))
    } else if byte == 32 {
        Some(UiMessage::TogglePause)
    } else if byte == 100 || byte == 68 {
        Some(UiMessage::ClearSelection)
    } else if byte == 115 || byte == 83 {
        Some(UiMessage::SelectMiddleVisibleLine)
    } else if byte == 113 || byte == 81 || byte == 3 {
        Some(UiMessage::Quit)
    } else {
        None
    }
}

/// Split a byte sequence at every semicolon, the way an iterator over
/// separator-delimited pieces yields them: always at least one piece, and an
/// empty piece between adjacent separators.
pub open spec fn split_semi(s: Seq<u8>) -> Seq<Seq<u8>>
    decreases s.len(),
{
    if s.len() == 0 {
        seq![Seq::<u8>::empty()]
    } else if s[0] == 59 {  // ';'
        seq![Seq::<u8>::empty()] + split_semi(s.drop_first())
    } else {
        let rest = split_semi(s.drop_first());
        seq![seq![s[0]] + rest[0]] + rest.drop_first()
    }
}

pub proof fn lemma_split_semi_nonempty(s: Seq<u8>)
    ensures
        split_semi(s).len() >= 1,
    decreases s.len(),
{
    if s.len() > 0 {
        lemma_split_semi_nonempty(s.drop_first());
    }
}

pub open spec fn is_digit_byte(b: u8) -> bool {
    48 <= b <= 57
}

pub open spec fn all_digit_bytes(s: Seq<u8>) -> bool {
    forall|i: int| 0 <= i < s.len() ==> is_digit_byte(#[trigger] s[i])
}

/// The number a run of ASCII digits denotes, most significant first.
pub open spec fn digits_val(s: Seq<u8>) -> nat
    decreases s.len(),
{
    if s.len() == 0 {
        0
    } else {
        (digits_val(s.drop_last()) * 10 + (s.last() - 48)) as nat
    }
}

/// What parsing a field as an unsigned 16-bit decimal yields: a value for a
/// nonempty all-digit field that fits, nothing otherwise.
pub open spec fn spec_parse_u16(s: Seq<u8>) -> Option<u16> {
    if s.len() > 0 && all_digit_bytes(s) && digits_val(s) <= 0xFFFF {
        Some(digits_val(s) as u16)
    } else {
        None
    }
}

/// Parse a decimal field of an SGR report.
fn parse_u16_digits(field: &[u8]) -> (r: Option<u16>)
    ensures
        r == spec_parse_u16(field@),
{
    let n = field.len();
    if n == 0 {
        return None;
    }
    let mut val: u32 = 0;
    let mut i: usize = 0;
    while i < n
        invariant
            n == field@.len(),
            i <= n,
            all_digit_bytes(field@.take(i as int)),
            val == if digits_val(field@.take(i as int)) < 100000 {
                digits_val(field@.take(i as int))
            } else {
                100000 as nat
            },
        decreases n - i,
    {
        let b = *slice_index_get(field, i);
        if b < 48 || b > 57 {
            assert(!is_digit_byte(field@[i as int]));
            assert(!all_digit_bytes(field@));
            return None;
        }
        proof {
            assert(field@.take(i + 1).drop_last() =~= field@.take(i as int));
            assert(field@.take(i + 1).last() == field@[i as int]);
            assert forall|t: int| 0 <= t < i + 1 implies is_digit_byte(
                #[trigger] field@.take(i + 1)[t],
            ) by {
                assert(field@.take(i + 1)[t] == field@.take(i as int + 1)[t]);
                if t < i {
                    assert(field@.take(i as int)[t] == field@[t]);
                }
            }
        }
        val = val * 10 + ((b - 48) as u32);
        if val > 100000 {
            val = 100000;
        }
        i += 1;
    }
    proof {
        assert(field@.take(n as int) =~= field@);
    }
    if val <= 0xFFFF {
        Some(val as u16)
    } else {
        None
    }
}

/// Split a payload into its semicolon-separated fields.
fn split_on_semis(payload: &[u8]) -> (fields: Vec<Vec<u8>>)
    ensures
        fields@.len() == split_semi(payload@).len(),
        forall|j: int| 0 <= j < fields@.len() ==> #[trigger] fields@[j]@ == split_semi(payload@)[j],
{
    let n = payload.len();
    let mut fields: Vec<Vec<u8>> = Vec::new();
    let ghost mut done: Seq<Seq<u8>> = Seq::empty();
    let mut cur: Vec<u8> = Vec::new();
    let mut i: usize = 0;
    proof {
        lemma_split_semi_nonempty(payload@);
        assert(payload@.skip(0) =~= payload@);
        let sp = split_semi(payload@);
        assert(sp =~= done + seq![cur@ + sp[0]] + sp.drop_first());
    }
    while i < n
        invariant
            n == payload@.len(),
            i <= n,
            fields@.len() == done.len(),
            forall|j: int| 0 <= j < done.len() ==> #[trigger] fields@[j]@ == done[j],
            split_semi(payload@) == done + seq![cur@ + split_semi(payload@.skip(i as int))[0]]
                + split_semi(payload@.skip(i as int)).drop_first(),
        decreases n - i,
    {
        let ghost tail = payload@.skip(i as int);
        let ghost next_tail = payload@.skip(i + 1);
        proof {
            assert(tail.len() > 0);
            assert(tail[0] == payload@[i as int]);
            assert(tail.drop_first() =~= next_tail);
            lemma_split_semi_nonempty(next_tail);
        }
        let b = *slice_index_get(payload, i);
        if b == 59 {
            proof {
                assert(split_semi(tail) == seq![Seq::<u8>::empty()] + split_semi(next_tail));
                assert(split_semi(tail)[0] =~= Seq::<u8>::empty());
                assert(split_semi(tail).drop_first() =~= split_semi(next_tail));
                assert(cur@ + split_semi(tail)[0] =~= cur@);
                assert(split_semi(next_tail) =~= seq![split_semi(next_tail)[0]] + split_semi(
                    next_tail,
                ).drop_first());
                assert(done + seq![cur@] + split_semi(next_tail) =~= done.push(cur@) + seq![
                    Seq::<u8>::empty() + split_semi(next_tail)[0]
                ] + split_semi(next_tail).drop_first());
            }
            fields.push(cur);
            proof {
                done = done.push(cur@);
            }
            cur = Vec::new();
        } else {
            proof {
                assert(split_semi(tail) == seq![seq![tail[0]] + split_semi(next_tail)[0]]
                    + split_semi(next_tail).drop_first());
                assert(split_semi(tail)[0] == seq![tail[0]] + split_semi(next_tail)[0]);
                assert(split_semi(tail).drop_first() =~= split_semi(next_tail).drop_first());
                assert(cur@.push(b) + split_semi(next_tail)[0] =~= cur@ + split_semi(tail)[0]);
            }
            cur.push(b);
        }
        i += 1;
    }
    proof {
        assert(payload@.skip(n as int) =~= Seq::<u8>::empty());
        assert(split_semi(Seq::<u8>::empty()) == seq![Seq::<u8>::empty()]);
        assert(cur@ + Seq::<u8>::empty() =~= cur@);
        assert(split_semi(payload@) =~= done.push(cur@));
    }
    fields.push(cur);
    fields
}

/// The event a finished CSI sequence decodes to: a left-button press from a
/// well-formed SGR report `<Cb;Col;RowM` whose button bits show no motion and
/// no wheel, and nothing from anything else.
pub open spec fn spec_sgr_mouse(s: Seq<u8>) -> Option<UiMessage> {
    if s.len() < 2 || s.last() != 77 || s[0] != 60 {  // 'M' and '<'
        None
    } else {
        let fields = split_semi(s.subrange(1, s.len() - 1));
        if fields.len() != 3 {
            None
        } else {
            match (spec_parse_u16(fields[0]), spec_parse_u16(fields[1]), spec_parse_u16(
                fields[2],
            )) {
                (Some(cb), Some(col), Some(row)) => {
                    if cb & 3 == 0 && cb & 0x20 == 0 && cb & 0x40 == 0 {
                        Some(
                            UiMessage::MouseLeftDown {
                                column: if col > 0 {
                                    (col - 1) as u16
                                } else {
                                    0
                                },
                                row: if row > 0 {
                                    (row - 1) as u16
                                } else {
                                    0
                                },
                            },
                        )
                    } else {
                        None
                    }
                },
                _ => None,
            }
        }
    }
}

/// Decode a completed CSI body as an SGR mouse report; anything that is not a
/// plain left-button press is discarded.
pub fn try_parse_sgr_mouse_message(sequence: &[u8]) -> (r: Option<UiMessage>)
    ensures
        r == spec_sgr_mouse(sequence@),
{
    let n = sequence.len();
    if n < 2 {
        return None;
    }
    if *slice_index_get(sequence, n - 1) != 77 || *slice_index_get(sequence, 0) != 60 {
        return None;
    }
    let payload = vstd::slice::slice_subrange(sequence, 1, n - 1);
    let fields = split_on_semis(payload);
    if fields.len() != 3 {
        return None;
    }
    let cb = match parse_u16_digits(fields[0].as_slice()) {
        Some(v) => v,
        None => {
            return None;
        },
    };
    let col = match parse_u16_digits(fields[1].as_slice()) {
        Some(v) => v,
        None => {
            return None;
        },
    };
    let row = match parse_u16_digits(fields[2].as_slice()) {
        Some(v) => v,
        None => {
            return None;
        },
    };
    if cb & 3 == 0 && cb & 0x20 == 0 && cb & 0x40 == 0 {
        Some(UiMessage::MouseLeftDown { column: col.saturating_sub(1), row: row.saturating_sub(1) })
    } else {
        None
    }
}

/// Decoder state: outside any sequence, right after an escape byte, or inside
/// a CSI sequence accumulating its bytes.
#[derive(Debug)]
pub enum InputParserState {
    Ground,
    Esc,
    Csi(Vec<u8>),
}

/// The three-state TTY byte parser; at most one UI event comes out per byte.
#[derive(Debug)]
pub struct InputParser {
    pub state: InputParserState,
}

impl InputParser {
    /// A fresh parser, outside any escape sequence.
    pub fn new() -> (p: InputParser)
        ensures
            p.state is Ground,
    {
        InputParser { state: InputParserState::Ground }
    }

    /// Feed one byte: keys are decoded in ground state, an escape byte opens a
    /// sequence, and a finished CSI body is decoded as an SGR mouse report.
    pub fn feed(&mut self, byte: u8) -> (r: Option<UiMessage>)
        ensures
            match old(self).state {
                InputParserState::Ground => {
                    if byte == 0x1b {
                        final(self).state is Esc && r is None
                    } else {
                        final(self).state is Ground && r == spec_key_message(byte)
                    }
                },
                InputParserState::Esc => {
                    r is None && if byte == 91 {  // '['
                        final(self).state matches InputParserState::Csi(buf2) && buf2@
                            == Seq::<u8>::empty()
                    } else {
                        final(self).state is Ground
                    }
                },
                InputParserState::Csi(buf) => {
                    if 0x40 <= byte <= 0x7e {
                        final(self).state is Ground && r == spec_sgr_mouse(buf@.push(byte))
                    } else {
                        r is None && (final(self).state matches InputParserState::Csi(buf2)
                            && buf2@ == buf@.push(byte))
                    }
                },
            },
    {
        let mut state = InputParserState::Ground;
        core::mem::swap(&mut state, &mut self.state);
        match state {
            InputParserState::Ground => {
                if byte == 0x1b {
                    self.state = InputParserState::Esc;
                    None
                } else {
                    key_message_from_byte(byte)
                }
            },
            InputParserState::Esc => {
                if byte == 91 {
                    self.state = InputParserState::Csi(Vec::new());
                } else {
                    self.state = InputParserState::Ground;
                }
                None
            },
            InputParserState::Csi(mut buf) => {
                buf.push(byte);
                if byte < 0x40 || byte > 0x7e {
                    self.state = InputParserState::Csi(buf);
                    return None;
                }
                try_parse_sgr_mouse_message(buf.as_slice())
            },
        }
    }
}

} // verus!
