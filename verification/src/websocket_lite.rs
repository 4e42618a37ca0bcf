//! A minimal websocket layer: a byte-at-a-time frame parser, frame encoding
//! with a client mask, and the handshake helpers.
use rand::{RngCore, SeedableRng};
use vstd::prelude::*;

use crate::crypto::{base64_encode, base64_encoding, sha1_digest, sha1_digest_of};
use crate::errors::{IncorrectMaskSize, WebsocketError};
use crate::text::{decimal, find_bytes, find_first, push_char, trim, trim_bounds, u64_to_decimal};
use std::collections::VecDeque;
use vstd::string::StringSliceAdditionalSpecFns;

verus! {

/// A frame taken out of the parser. The payload is unmasked.
pub struct ParsedFrame {
    pub _final_flag: bool,
    pub _mask: Option<[u8; 4]>,
    pub payload: Vec<u8>,
}

/// Where the parser stands inside a frame; the number is the index of the
/// next byte inside the current field.
#[derive(Clone, Copy, PartialEq, Eq, Structural, Debug)]
pub enum ParserState {
    FinalAndOpcode,
    MaskAndLength,
    MediumLength(u8),
    LongLength(u8),
    Mask(u8),
    Payload(u8),
}

/// The text of a parser state.
pub open spec fn parser_state_text(s: ParserState) -> Seq<char> {
    match s {
        ParserState::FinalAndOpcode => "FinalAndOpcode"@,
        ParserState::MaskAndLength => "MaskAndLength"@,
        ParserState::MediumLength(i) => "MediumLength, Index: "@ + decimal(i as nat),
        ParserState::LongLength(i) => "LongLength, Index: "@ + decimal(i as nat),
        ParserState::Mask(i) => "Mask, Index: "@ + decimal(i as nat),
        ParserState::Payload(i) => "Payload, Index: "@ + decimal(i as nat),
    }
}

impl ParserState {
    /// The state as text, with the index where it has one.
    pub fn message(&self) -> (res: String)
        ensures
            res@ == parser_state_text(*self),
    {
        match self {
            ParserState::FinalAndOpcode => String::from_str("FinalAndOpcode"),
            ParserState::MaskAndLength => String::from_str("MaskAndLength"),
            ParserState::MediumLength(i) => {
                crate::text::concat("MediumLength, Index: ", u64_to_decimal(*i as u64).as_str())
            },
            ParserState::LongLength(i) => {
                crate::text::concat("LongLength, Index: ", u64_to_decimal(*i as u64).as_str())
            },
            ParserState::Mask(i) => crate::text::concat("Mask, Index: ", u64_to_decimal(*i as u64).as_str()),
            ParserState::Payload(i) => {
                crate::text::concat("Payload, Index: ", u64_to_decimal(*i as u64).as_str())
            },
        }
    }
}

/// The parser's state as plain values. The mask is held by its four bytes.
#[verifier::ext_equal]
pub struct FrameParserView {
    pub state: ParserState,
    pub final_frame: bool,
    pub op_code: u8,
    pub mask: Option<Seq<u8>>,
    pub length: u64,
    pub payload: Seq<u8>,
}

/// What one step of the parser gives back: an error, nothing yet, or the
/// payload of a completed frame.
pub type StepResult = Result<Option<Seq<u8>>, WebsocketError>;

/// Parses websocket frames one byte at a time.
pub struct FrameParser {
    current_state: ParserState,
    final_frame: bool,
    op_code: u8,
    mask: Option<[u8; 4]>,
    length: u64,
    payload: Vec<u8>,
}

impl View for FrameParser {
    type V = FrameParserView;

    closed spec fn view(&self) -> FrameParserView {
        FrameParserView {
            state: self.current_state,
            final_frame: self.final_frame,
            op_code: self.op_code,
            mask: match self.mask {
                Some(m) => Some(m@),
                None => None,
            },
            length: self.length,
            payload: self.payload@,
        }
    }
}

/// The parser between frames.
pub open spec fn idle_view() -> FrameParserView {
    FrameParserView {
        state: ParserState::FinalAndOpcode,
        final_frame: false,
        op_code: 0,
        mask: None,
        length: 0,
        payload: seq![],
    }
}

/// A view with another state.
pub open spec fn with_state(p: FrameParserView, s: ParserState) -> FrameParserView {
    FrameParserView { state: s, ..p }
}

/// A view with another length and state.
pub open spec fn with_length_state(p: FrameParserView, l: u64, s: ParserState) -> FrameParserView {
    FrameParserView { length: l, state: s, ..p }
}

/// The first byte: final flag and opcode.
pub open spec fn spec_final_and_opcode(p: FrameParserView, byte: u8) -> (FrameParserView, StepResult) {
    (
        FrameParserView {
            final_frame: byte & 0x80u8 > 0,
            op_code: byte & 0x0fu8,
            state: ParserState::MaskAndLength,
            ..p
        },
        Ok(None),
    )
}

/// The second byte: mask flag and the seven-bit length.
pub open spec fn spec_mask_and_length(p: FrameParserView, byte: u8) -> (FrameParserView, StepResult) {
    let mask = if byte & 0x80u8 > 0 { Some(seq![0u8, 0u8, 0u8, 0u8]) } else { p.mask };
    let length = byte & 0x7fu8;
    let p1 = FrameParserView { mask: mask, ..p };
    if length > 127 {
        (p1, Err(WebsocketError::ToDo))
    } else if length == 127 {
        (with_state(p1, ParserState::LongLength(0)), Ok(None))
    } else if length == 126 {
        (with_state(p1, ParserState::MediumLength(0)), Ok(None))
    } else if length == 0 {
        (idle_view(), Ok(Some(p1.payload)))
    } else if mask is Some {
        (with_length_state(p1, length as u64, ParserState::Mask(0)), Ok(None))
    } else {
        (with_length_state(p1, length as u64, ParserState::Payload(0)), Ok(None))
    }
}

/// The length after one more big-endian length byte.
pub open spec fn next_length(p: FrameParserView, byte: u8, index: u8) -> u64 {
    let base: u64 = if index == 0 { 0 } else { p.length << 8u64 };
    (base + byte) as u64
}

/// A byte of the 16-bit extended length.
pub open spec fn spec_medium_length(p: FrameParserView, byte: u8, index: u8) -> (FrameParserView, StepResult) {
    let length = next_length(p, byte, index);
    if index == 0 {
        (with_length_state(p, length, ParserState::MediumLength(1)), Ok(None))
    } else if p.mask is Some {
        (with_length_state(p, length, ParserState::Mask(0)), Ok(None))
    } else if length != 0 {
        (with_length_state(p, length, ParserState::Payload(0)), Ok(None))
    } else {
        (idle_view(), Ok(Some(p.payload)))
    }
}

/// A byte of the 64-bit extended length.
pub open spec fn spec_long_length(p: FrameParserView, byte: u8, index: u8) -> (FrameParserView, StepResult) {
    let length = next_length(p, byte, index);
    if index < 7 {
        (with_length_state(p, length, ParserState::LongLength((index + 1) as u8)), Ok(None))
    } else if p.mask is Some {
        (with_length_state(p, length, ParserState::Mask(0)), Ok(None))
    } else if length != 0 {
        (with_length_state(p, length, ParserState::Payload(0)), Ok(None))
    } else {
        (idle_view(), Ok(Some(p.payload)))
    }
}

/// A byte of the four-byte mask.
pub open spec fn spec_mask(p: FrameParserView, byte: u8, index: u8) -> (FrameParserView, StepResult) {
    if p.mask is None || index >= 4 {
        (p, Err(WebsocketError::MaskSize(IncorrectMaskSize { expected_length: 0, received_size: 0 })))
    } else {
        let p1 = FrameParserView { mask: Some(p.mask->0.update(index as int, byte)), ..p };
        if index < 3 {
            (with_state(p1, ParserState::Mask((index + 1) as u8)), Ok(None))
        } else if p.length != 0 {
            (with_state(p1, ParserState::Payload(0)), Ok(None))
        } else {
            (idle_view(), Ok(Some(p.payload)))
        }
    }
}

/// The mask bytes in use: the frame's mask, or zeros when it has none.
pub open spec fn mask_in_use(p: FrameParserView) -> Seq<u8> {
    match p.mask {
        Some(m) => m,
        None => seq![0u8, 0u8, 0u8, 0u8],
    }
}

/// A payload byte, unmasked with the mask byte at `index`.
pub open spec fn spec_payload(p: FrameParserView, byte: u8, index: u8) -> (FrameParserView, StepResult) {
    if index >= 4 {
        (p, Err(WebsocketError::IndexingError { index: index }))
    } else {
        let payload = p.payload.push(byte ^ mask_in_use(p)[index as int]);
        let p1 = FrameParserView { payload: payload, ..p };
        if payload.len() == (p.length as usize) {
            (idle_view(), Ok(Some(payload)))
        } else if index == 3 {
            (with_state(p1, ParserState::Payload(0)), Ok(None))
        } else {
            (with_state(p1, ParserState::Payload((index + 1) as u8)), Ok(None))
        }
    }
}

/// One byte through the parser.
pub open spec fn spec_step(p: FrameParserView, byte: u8) -> (FrameParserView, StepResult) {
    match p.state {
        ParserState::FinalAndOpcode => spec_final_and_opcode(p, byte),
        ParserState::MaskAndLength => spec_mask_and_length(p, byte),
        ParserState::MediumLength(i) => spec_medium_length(p, byte, i),
        ParserState::LongLength(i) => spec_long_length(p, byte, i),
        ParserState::Mask(i) => spec_mask(p, byte, i),
        ParserState::Payload(i) => spec_payload(p, byte, i),
    }
}

/// A returned frame agrees with a step's result.
pub open spec fn frame_matches(res: Result<Option<ParsedFrame>, WebsocketError>, expected: StepResult) -> bool {
    match (res, expected) {
        (Ok(None), Ok(None)) => true,
        (Ok(Some(f)), Ok(Some(p))) => f.payload@ == p && !f._final_flag && f._mask is None,
        (Err(e1), Err(e2)) => e1 == e2,
        _ => false,
    }
}

proof fn lemma_shift_add_no_overflow(x: u64, b: u8)
    ensures
        (x << 8u64) + (b as u64) <= u64::MAX,
{
    assert((x << 8u64) <= 0xffff_ffff_ffff_ff00u64) by (bit_vector);
}

impl FrameParser {
    proof fn lemma_mask_len(&self)
        ensures
            self@.mask is Some ==> self@.mask->0.len() == 4,
    {
    }

    /// Takes the payload collected so far and puts the parser back between
    /// frames.
    pub fn take_frame_then_reset(&mut self) -> (res: Result<ParsedFrame, WebsocketError>)
        ensures
            final(self)@ == idle_view(),
            res matches Ok(f) && f.payload@ == old(self)@.payload && !f._final_flag && f._mask is None,
    {
        let mut payload = Vec::new();
        std::mem::swap(&mut payload, &mut self.payload);
        self.current_state = ParserState::FinalAndOpcode;
        self.final_frame = false;
        self.op_code = 0;
        self.mask = None;
        self.length = 0;
        Ok(ParsedFrame { _final_flag: self.final_frame, _mask: self.mask, payload })
    }

    /// Feeds one byte to the parser; gives back the frame that this byte
    /// completes, if any.
    pub fn process_byte(&mut self, byte: &u8) -> (res: Result<Option<ParsedFrame>, WebsocketError>)
        ensures
            final(self)@ == spec_step(old(self)@, *byte).0,
            frame_matches(res, spec_step(old(self)@, *byte).1),
    {
        match self.current_state {
            ParserState::FinalAndOpcode => self.final_and_opcode(byte),
            ParserState::MaskAndLength => self.mask_and_length(byte),
            ParserState::MediumLength(index) => self.medium_length(byte, &index),
            ParserState::LongLength(index) => self.long_length(byte, &index),
            ParserState::Mask(index) => self.mask(byte, &index),
            ParserState::Payload(index) => self.payload(byte, &index),
        }
    }

    /// Reads the final flag and the opcode.
    pub fn final_and_opcode(&mut self, byte: &u8) -> (res: Result<Option<ParsedFrame>, WebsocketError>)
        ensures
            final(self)@ == spec_final_and_opcode(old(self)@, *byte).0,
            frame_matches(res, spec_final_and_opcode(old(self)@, *byte).1),
    {
        self.final_frame = *byte & 0b10000000 > 0;
        self.op_code = *byte & 0b00001111;
        self.current_state = ParserState::MaskAndLength;
        Ok(None)
    }

    /// Reads the mask flag and the seven-bit length.
    pub fn mask_and_length(&mut self, byte: &u8) -> (res: Result<Option<ParsedFrame>, WebsocketError>)
        ensures
            final(self)@ == spec_mask_and_length(old(self)@, *byte).0,
            frame_matches(res, spec_mask_and_length(old(self)@, *byte).1),
    {
        if *byte & 0b10000000 > 0 {
            self.mask = Some([0u8, 0u8, 0u8, 0u8]);
        }
        let length = *byte & 0b01111111;
        if length > 127 {
            return Err(WebsocketError::ToDo);
        }
        if length == 127 {
            self.current_state = ParserState::LongLength(0);
        }
        if length == 126 {
            self.current_state = ParserState::MediumLength(0);
        }
        if length == 0 {
            let frame = self.take_frame_then_reset()?;
            self.current_state = ParserState::FinalAndOpcode;
            return Ok(Some(frame));
        }
        if length < 126 && self.mask.is_some() {
            self.length = length as u64;
            self.current_state = ParserState::Mask(0);
        }
        if length < 126 && self.mask.is_none() {
            self.length = length as u64;
            self.current_state = ParserState::Payload(0);
        }
        Ok(None)
    }

    /// Reads a byte of the 16-bit extended length.
    pub fn medium_length(&mut self, byte: &u8, index: &u8) -> (res: Result<Option<ParsedFrame>, WebsocketError>)
        ensures
            final(self)@ == spec_medium_length(old(self)@, *byte, *index).0,
            frame_matches(res, spec_medium_length(old(self)@, *byte, *index).1),
    {
        if *index == 0 {
            self.length = 0;
        }
        if *index != 0 {
            self.length = self.length << 8;
        }
        proof {
            lemma_shift_add_no_overflow(old(self).length, *byte);
        }
        self.length = self.length + *byte as u64;
        if *index == 0 {
            self.current_state = ParserState::MediumLength(1);
        }
        if *index != 0 && self.mask.is_some() {
            self.current_state = ParserState::Mask(0);
        }
        if *index != 0 && self.mask.is_none() && self.length != 0 {
            self.current_state = ParserState::Payload(0);
        }
        if *index != 0 && self.mask.is_none() && self.length == 0 {
            let frame = self.take_frame_then_reset()?;
            return Ok(Some(frame));
        }
        Ok(None)
    }

    /// Reads a byte of the 64-bit extended length.
    pub fn long_length(&mut self, byte: &u8, index: &u8) -> (res: Result<Option<ParsedFrame>, WebsocketError>)
        ensures
            final(self)@ == spec_long_length(old(self)@, *byte, *index).0,
            frame_matches(res, spec_long_length(old(self)@, *byte, *index).1),
    {
        if *index == 0 {
            self.length = 0;
        }
        if *index != 0 {
            self.length = self.length << 8;
        }
        proof {
            lemma_shift_add_no_overflow(old(self).length, *byte);
        }
        self.length = self.length + *byte as u64;
        if *index < 7 {
            self.current_state = ParserState::LongLength(index + 1);
        }
        if *index >= 7 && self.mask.is_some() {
            self.current_state = ParserState::Mask(0);
        }
        if *index >= 7 && self.mask.is_none() && self.length != 0 {
            self.current_state = ParserState::Payload(0);
        }
        if *index >= 7 && self.mask.is_none() && self.length == 0 {
            let frame = self.take_frame_then_reset()?;
            return Ok(Some(frame));
        }
        Ok(None)
    }

    /// Reads a byte of the mask.
    pub fn mask(&mut self, byte: &u8, index: &u8) -> (res: Result<Option<ParsedFrame>, WebsocketError>)
        ensures
            final(self)@ == spec_mask(old(self)@, *byte, *index).0,
            frame_matches(res, spec_mask(old(self)@, *byte, *index).1),
    {
        if self.mask.is_none() || *index >= 4 {
            return Err(WebsocketError::MaskSize(IncorrectMaskSize { expected_length: 0, received_size: 0 }));
        }
        let mut mask = self.mask.unwrap();
        mask[*index as usize] = *byte;
        self.mask = Some(mask);
        if *index < 3 {
            self.current_state = ParserState::Mask(index + 1);
        }
        if *index == 3 && self.length != 0 {
            self.current_state = ParserState::Payload(0);
        }
        if *index == 3 && self.length == 0 {
            let frame = self.take_frame_then_reset()?;
            return Ok(Some(frame));
        }
        Ok(None)
    }

    /// Reads a payload byte and unmasks it; completes the frame when its
    /// announced length is reached.
    pub fn payload(&mut self, byte: &u8, index: &u8) -> (res: Result<Option<ParsedFrame>, WebsocketError>)
        ensures
            final(self)@ == spec_payload(old(self)@, *byte, *index).0,
            frame_matches(res, spec_payload(old(self)@, *byte, *index).1),
    {
        proof {
            self.lemma_mask_len();
        }
        let mask: [u8; 4] = match self.mask {
            Some(m) => m,
            None => [0u8, 0u8, 0u8, 0u8],
        };
        if *index >= 4 {
            return Err(WebsocketError::IndexingError { index: *index });
        }
        let m = mask[*index as usize];
        self.payload.push(*byte ^ m);
        if self.payload.len() == self.length as usize {
            let frame = self.take_frame_then_reset()?;
            return Ok(Some(frame));
        }
        if *index == 3 {
            self.current_state = ParserState::Payload(0);
        }
        if *index < 3 {
            self.current_state = ParserState::Payload(index + 1);
        }
        Ok(None)
    }
}

impl Default for FrameParser {
    fn default() -> (p: Self)
        ensures
            p@ == idle_view(),
    {
        FrameParser {
            current_state: ParserState::FinalAndOpcode,
            final_frame: false,
            op_code: 0,
            mask: None,
            length: 0,
            payload: Vec::new(),
        }
    }
}


/// Byte `k` (0 is the most significant) of a 64-bit length in big-endian
/// order.
pub open spec fn be_byte(len: u64, k: int) -> u8 {
    ((len >> ((56 - 8 * k) as u64)) & 0xffu64) as u8
}

/// The length field of a frame: one byte below 126, else 126 and two bytes,
/// else 127 and eight bytes, big-endian.
pub open spec fn length_header(len: u64) -> Seq<u8> {
    if len < 126 {
        seq![len as u8]
    } else if len <= 0xffff {
        seq![126u8, be_byte(len, 6), be_byte(len, 7)]
    } else {
        seq![127u8, be_byte(len, 0), be_byte(len, 1), be_byte(len, 2), be_byte(len, 3),
            be_byte(len, 4), be_byte(len, 5), be_byte(len, 6), be_byte(len, 7)]
    }
}

/// The length field of a frame in its three sizes.
pub enum FrameLength {
    Short([u8; 1]),
    Medium([u8; 3]),
    Long([u8; 9]),
}

/// The encoded length field for a payload length: the length itself below
/// 126; else 126 and the length as two big-endian bytes up to 65535; else
/// 127 and the length as eight big-endian bytes. A medium length is written
/// as its own two low bytes (300 gives 126, 1, 44), as the websocket
/// protocol reads it; taking the two top bytes of the 64-bit length instead
/// would announce every medium frame as empty.
pub open spec fn spec_frame_length(len: u64) -> FrameLength {
    if len < 126 {
        FrameLength::Short([len as u8])
    } else if len <= 0xffff {
        FrameLength::Medium([126u8, be_byte(len, 6), be_byte(len, 7)])
    } else {
        FrameLength::Long([127u8, be_byte(len, 0), be_byte(len, 1), be_byte(len, 2),
            be_byte(len, 3), be_byte(len, 4), be_byte(len, 5), be_byte(len, 6), be_byte(len, 7)])
    }
}

impl FrameLength {
    /// The bytes of the field.
    pub open spec fn spec_bytes(&self) -> Seq<u8> {
        match self {
            FrameLength::Short(b) => b@,
            FrameLength::Medium(b) => b@,
            FrameLength::Long(b) => b@,
        }
    }

    /// The bytes of the field, in order.
    pub fn to_vec(self) -> (v: Vec<u8>)
        ensures
            v@ == self.spec_bytes(),
    {
        match self {
            FrameLength::Short(bytes) => vstd::slice::slice_to_vec(bytes.as_slice()),
            FrameLength::Medium(bytes) => vstd::slice::slice_to_vec(bytes.as_slice()),
            FrameLength::Long(bytes) => vstd::slice::slice_to_vec(bytes.as_slice()),
        }
    }
}

proof fn lemma_be_byte_range(len: u64, k: int)
    requires
        0 <= k < 8,
    ensures
        be_byte(len, k) as u64 == (len >> ((56 - 8 * k) as u64)) & 0xffu64,
{
    let s = (56 - 8 * k) as u64;
    assert((len >> s) & 0xffu64 <= 0xffu64) by (bit_vector);
}

fn be_byte_exec(len: u64, k: u64) -> (b: u8)
    requires
        k < 8,
    ensures
        b == be_byte(len, k as int),
{
    let shift: u64 = 56 - 8 * k;
    let v: u64 = (len >> shift) & 0xff;
    assert(v <= 0xff) by (bit_vector)
        requires
            v == (len >> shift) & 0xffu64,
    ;
    v as u8
}

impl vstd::std_specs::convert::FromSpecImpl<u64> for FrameLength {
    open spec fn obeys_from_spec() -> bool {
        true
    }

    open spec fn from_spec(len: u64) -> FrameLength {
        spec_frame_length(len)
    }
}

/// The length field for a payload length: see `spec_frame_length`; a
/// medium length goes out as its two low bytes, big-endian.
impl From<u64> for FrameLength {
    fn from(len: u64) -> (r: Self) {
        if len < 126 {
            FrameLength::Short([len as u8])
        } else if len <= 0xffff {
            FrameLength::Medium([126, be_byte_exec(len, 6), be_byte_exec(len, 7)])
        } else {
            FrameLength::Long([
                127,
                be_byte_exec(len, 0),
                be_byte_exec(len, 1),
                be_byte_exec(len, 2),
                be_byte_exec(len, 3),
                be_byte_exec(len, 4),
                be_byte_exec(len, 5),
                be_byte_exec(len, 6),
                be_byte_exec(len, 7),
            ])
        }
    }
}

/// A payload masked with a four-byte mask, byte `i` with mask byte `i % 4`.
pub open spec fn masked(payload: Seq<u8>, mask: Seq<u8>) -> Seq<u8> {
    Seq::new(payload.len(), |i: int| payload[i] ^ mask[i % 4])
}

/// The length field with the mask flag set.
pub open spec fn masked_length_header(len: u64) -> Seq<u8> {
    let h = length_header(len);
    h.update(0, (h[0] + 128) as u8)
}

/// A final text frame carrying `payload`, masked with `mask`.
pub open spec fn encode_frame(payload: Seq<u8>, mask: Seq<u8>) -> Seq<u8> {
    seq![0x81u8] + masked_length_header(payload.len() as u64) + mask + masked(payload, mask)
}

/// Four random bytes from a generator seeded from the operating system
/// (rand's `StdRng::from_entropy` and `fill_bytes`). Nothing is promised of
/// their values.
#[verifier::external_body]
fn random_mask() -> (mask: [u8; 4]) {
    let mut mask = [0u8; 4];
    rand::rngs::StdRng::from_entropy().fill_bytes(&mut mask);
    mask
}

/// An encoded frame, ready to be written.
pub struct Frame {
    data: Vec<u8>,
}

impl Frame {
    /// The encoded bytes.
    pub closed spec fn spec_data(&self) -> Seq<u8> {
        self.data@
    }

    fn apply_mask(data: &mut Vec<u8>, payload: &[u8], mask: &[u8; 4])
        ensures
            final(data)@ == old(data)@ + masked(payload@, mask@),
    {
        let ghost start = data@;
        for index in 0..payload.len()
            invariant
                data@ == start + masked(payload@.take(index as int), mask@),
        {
            let byte = payload[index] ^ mask[index % 4];
            data.push(byte);
            assert(masked(payload@.take(index + 1), mask@) =~= masked(payload@.take(index as int), mask@).push(byte));
        }
        assert(payload@.take(payload@.len() as int) =~= payload@);
    }

    /// Encodes `payload` as one final text frame masked with `mask`.
    pub fn from_payload_with_mask(payload: &[u8], mask: [u8; 4]) -> (f: Frame)
        ensures
            f.spec_data() == encode_frame(payload@, mask@),
    {
        let mut len = FrameLength::from(payload.len() as u64).to_vec();
        assert(len@ == length_header(payload@.len() as u64));
        let first = len[0];
        len.set(0, first + 0b10000000);
        let mut data: Vec<u8> = Vec::new();
        data.push(0b10000001);
        data.append(&mut len);
        data.push(mask[0]);
        data.push(mask[1]);
        data.push(mask[2]);
        data.push(mask[3]);
        assert(data@ =~= seq![0x81u8] + masked_length_header(payload@.len() as u64) + mask@);
        Frame::apply_mask(&mut data, payload, &mask);
        Frame { data }
    }

    /// Encodes `payload` as one final text frame under a fresh random mask.
    pub fn from_payload(payload: &[u8]) -> (f: Frame)
        ensures
            exists|m: Seq<u8>| m.len() == 4 && f.spec_data() == encode_frame(payload@, m),
    {
        let mask = random_mask();
        let f = Frame::from_payload_with_mask(payload, mask);
        assert(mask@.len() == 4);
        f
    }

    /// The encoded bytes.
    pub fn into_data(self) -> (data: Vec<u8>)
        ensures
            data@ == self.spec_data(),
    {
        self.data
    }
}


/// Bytes fed one after another into the parser: the final parser state, the
/// payloads of the frames completed on the way, and whether no step failed.
/// Processing stops at the first failing step.
pub open spec fn run(p: FrameParserView, bytes: Seq<u8>) -> (FrameParserView, Seq<Seq<u8>>, bool)
    decreases bytes.len(),
{
    if bytes.len() == 0 {
        (p, seq![], true)
    } else {
        let (p1, r) = spec_step(p, bytes[0]);
        match r {
            Err(_) => (p1, seq![], false),
            Ok(f) => {
                let (p2, fs, ok) = run(p1, bytes.drop_first());
                (
                    p2,
                    match f {
                        Some(x) => seq![x] + fs,
                        None => fs,
                    },
                    ok,
                )
            },
        }
    }
}

/// The parser states that can be reached from a fresh parser: the mask, when
/// present, has four bytes, and the mask and payload positions lie inside the
/// mask.
pub open spec fn parser_wf(p: FrameParserView) -> bool {
    &&& (p.mask is Some ==> p.mask->0.len() == 4)
    &&& match p.state {
        ParserState::Mask(i) => i < 4 && p.mask is Some,
        ParserState::Payload(i) => i < 4,
        _ => true,
    }
}

/// A fresh parser is well formed.
pub proof fn lemma_idle_wf()
    ensures
        parser_wf(idle_view()),
{
}

/// From a well-formed state, no byte makes the parser fail, and the parser
/// stays well formed.
pub proof fn lemma_step_total(p: FrameParserView, byte: u8)
    requires
        parser_wf(p),
    ensures
        spec_step(p, byte).1 is Ok,
        parser_wf(spec_step(p, byte).0),
{
    assert(byte & 0x7fu8 <= 127u8) by (bit_vector);
}

/// From a well-formed state, no sequence of bytes makes the parser fail, and
/// the parser stays well formed.
pub proof fn lemma_run_total(p: FrameParserView, bytes: Seq<u8>)
    requires
        parser_wf(p),
    ensures
        run(p, bytes).2,
        parser_wf(run(p, bytes).0),
    decreases bytes.len(),
{
    if bytes.len() > 0 {
        lemma_step_total(p, bytes[0]);
        lemma_run_total(spec_step(p, bytes[0]).0, bytes.drop_first());
    }
}

/// Feeding `a` and then `b` is feeding `a + b`.
pub proof fn lemma_run_concat(p: FrameParserView, a: Seq<u8>, b: Seq<u8>)
    ensures
        run(p, a + b) == (if run(p, a).2 {
            (run(run(p, a).0, b).0, run(p, a).1 + run(run(p, a).0, b).1, run(run(p, a).0, b).2)
        } else {
            run(p, a)
        }),
    decreases a.len(),
{
    if a.len() == 0 {
        assert(a + b =~= b);
        assert(run(p, a).1 + run(p, b).1 =~= run(p, b).1);
    } else {
        assert((a + b)[0] == a[0]);
        assert((a + b).drop_first() =~= a.drop_first() + b);
        let p1 = spec_step(p, a[0]).0;
        lemma_run_concat(p1, a.drop_first(), b);
        if run(p, a).2 {
            let fs1 = run(p1, a.drop_first()).1;
            let fs2 = run(run(p1, a.drop_first()).0, b).1;
            match spec_step(p, a[0]).1 {
                Ok(Some(x)) => {
                    assert(seq![x] + (fs1 + fs2) =~= (seq![x] + fs1) + fs2);
                },
                _ => {},
            }
        }
    }
}

proof fn lemma_run_single(p: FrameParserView, byte: u8)
    requires
        spec_step(p, byte).1 == Ok::<Option<Seq<u8>>, WebsocketError>(None),
    ensures
        run(p, seq![byte]) == (spec_step(p, byte).0, Seq::<Seq<u8>>::empty(), true),
{
    assert(seq![byte].drop_first() =~= Seq::<u8>::empty());
    let p1 = spec_step(p, byte).0;
    assert(run(p1, Seq::<u8>::empty()) == (p1, Seq::<Seq<u8>>::empty(), true));
}

proof fn lemma_xor_twice(a: u8, m: u8)
    ensures
        (a ^ m) ^ m == a,
{
    assert((a ^ m) ^ m == a) by (bit_vector);
}

/// The payload bytes from position `k` on complete the frame.
proof fn lemma_run_payload(p: FrameParserView, payload: Seq<u8>, mask: Seq<u8>, k: int)
    requires
        mask.len() == 4,
        0 <= k < payload.len(),
        payload.len() <= usize::MAX,
        p.state == ParserState::Payload((k % 4) as u8),
        mask_in_use(p) == mask,
        p.length == payload.len() as u64,
        p.payload == payload.take(k),
    ensures
        run(p, masked(payload, mask).skip(k)) == (idle_view(), seq![payload], true),
    decreases payload.len() - k,
{
    let bytes = masked(payload, mask).skip(k);
    let b = bytes[0];
    assert(b == payload[k] ^ mask[k % 4]);
    lemma_xor_twice(payload[k], mask[k % 4]);
    assert(p.payload.push(payload[k]) =~= payload.take(k + 1));
    let p1 = spec_step(p, b).0;
    if k + 1 == payload.len() {
        assert(payload.take(k + 1) =~= payload);
        assert(bytes.drop_first() =~= Seq::<u8>::empty());
        assert(p1 == idle_view());
        assert(run(p1, Seq::<u8>::empty()) == (p1, Seq::<Seq<u8>>::empty(), true));
        assert(seq![payload] + Seq::<Seq<u8>>::empty() =~= seq![payload]);
    } else {
        assert(bytes.drop_first() =~= masked(payload, mask).skip(k + 1));
        lemma_run_payload(p1, payload, mask, k + 1);
    }
}

/// The mask bytes, from mask position `j` on, fill the mask and move to the
/// payload.
proof fn lemma_run_mask(p: FrameParserView, mask: Seq<u8>, j: int)
    requires
        mask.len() == 4,
        0 <= j < 4,
        p.state == ParserState::Mask(j as u8),
        p.length != 0,
        p.mask is Some,
        p.mask->0.len() == 4,
        forall|i: int| 0 <= i < j ==> p.mask->0[i] == mask[i],
    ensures
        run(p, mask.skip(j)) == (
            FrameParserView { state: ParserState::Payload(0), mask: Some(mask), ..p },
            Seq::<Seq<u8>>::empty(),
            true,
        ),
    decreases 4 - j,
{
    let bytes = mask.skip(j);
    let p1 = spec_step(p, bytes[0]).0;
    if j == 3 {
        assert(p.mask->0.update(3, mask[3]) =~= mask);
        assert(bytes.drop_first() =~= Seq::<u8>::empty());
        assert(run(p1, Seq::<u8>::empty()) == (p1, Seq::<Seq<u8>>::empty(), true));
        assert(p1 =~= FrameParserView { state: ParserState::Payload(0), mask: Some(mask), ..p });
    } else {
        assert(bytes.drop_first() =~= mask.skip(j + 1));
        lemma_run_mask(p1, mask, j + 1);
        assert(FrameParserView { state: ParserState::Payload(0), mask: Some(mask), ..p1 } =~=
            FrameParserView { state: ParserState::Payload(0), mask: Some(mask), ..p });
    }
}

/// The eight bytes of a 64-bit length, most significant first.
pub open spec fn long_length_bytes(len: u64) -> Seq<u8> {
    seq![be_byte(len, 0), be_byte(len, 1), be_byte(len, 2), be_byte(len, 3),
        be_byte(len, 4), be_byte(len, 5), be_byte(len, 6), be_byte(len, 7)]
}

proof fn lemma_shift_step(x: u64, s: u64)
    requires
        8 <= s <= 56,
    ensures
        (((x >> s) << 8u64) + ((x >> ((s - 8) as u64)) & 0xffu64)) as u64 == x >> ((s - 8) as u64),
{
    let t = (s - 8) as u64;
    assert(((x >> s) << 8u64) + ((x >> t) & 0xffu64) == x >> t) by (bit_vector)
        requires
            8 <= s <= 56,
            t == s - 8,
    ;
}

/// The long length bytes from position `k` on set the length.
proof fn lemma_run_long_length(p: FrameParserView, len: u64, k: int)
    requires
        0 <= k < 8,
        p.state == ParserState::LongLength(k as u8),
        p.mask is Some || len != 0,
        k > 0 ==> p.length == len >> ((64 - 8 * k) as u64),
    ensures
        run(p, long_length_bytes(len).skip(k)) == (
            with_length_state(p, len, if p.mask is Some { ParserState::Mask(0) } else { ParserState::Payload(0) }),
            Seq::<Seq<u8>>::empty(),
            true,
        ),
    decreases 8 - k,
{
    let bytes = long_length_bytes(len).skip(k);
    let b = bytes[0];
    lemma_be_byte_range(len, k);
    let p1 = spec_step(p, b).0;
    if k == 0 {
        assert(next_length(p, b, 0) == len >> 56u64) by {
            assert((len >> 56u64) & 0xffu64 == len >> 56u64) by (bit_vector);
        }
    } else {
        lemma_shift_step(len, (64 - 8 * k) as u64);
        lemma_shift_add_no_overflow(p.length, b);
    }
    if k == 7 {
        assert(len >> 0u64 == len) by (bit_vector);
        assert(bytes.drop_first() =~= Seq::<u8>::empty());
        assert(run(p1, Seq::<u8>::empty()) == (p1, Seq::<Seq<u8>>::empty(), true));
        assert(p1 =~= with_length_state(p, len, if p.mask is Some { ParserState::Mask(0) } else { ParserState::Payload(0) }));
    } else {
        assert(bytes.drop_first() =~= long_length_bytes(len).skip(k + 1));
        lemma_run_long_length(p1, len, k + 1);
        let end = if p.mask is Some { ParserState::Mask(0) } else { ParserState::Payload(0) };
        assert(with_length_state(p1, len, end) =~= with_length_state(p, len, end));
    }
}

/// A whole frame, fed to a fresh parser, gives back its payload as the one
/// completed frame and leaves the parser fresh.
pub proof fn lemma_frame_roundtrip(payload: Seq<u8>, mask: Seq<u8>)
    requires
        mask.len() == 4,
        0 < payload.len() <= usize::MAX,
    ensures
        run(idle_view(), encode_frame(payload, mask)) == (idle_view(), seq![payload], true),
{
    let len = payload.len() as u64;
    let zeros = seq![0u8, 0u8, 0u8, 0u8];
    // The first byte: final text frame.
    assert(0x81u8 & 0x80u8 > 0 && 0x81u8 & 0x0fu8 == 1) by (bit_vector);
    let p1 = spec_step(idle_view(), 0x81u8).0;
    lemma_run_single(idle_view(), 0x81u8);
    // The length field brings the parser to the first mask byte.
    let header = masked_length_header(len);
    let p2 = FrameParserView { state: ParserState::Mask(0), mask: Some(zeros), length: len, ..p1 };
    if len < 126 {
        let h = (len as u8 + 128) as u8;
        assert(header =~= seq![h]);
        assert(h & 0x80u8 > 0 && h & 0x7fu8 == len as u8) by (bit_vector)
            requires
                h == (len as u8 + 128) as u8,
                len < 126,
        ;
        lemma_run_single(p1, h);
        assert(spec_step(p1, h).0 =~= p2);
    } else if len <= 0xffff {
        assert(254u8 & 0x80u8 > 0 && 254u8 & 0x7fu8 == 126) by (bit_vector);
        let hi = be_byte(len, 6);
        let lo = be_byte(len, 7);
        lemma_be_byte_range(len, 6);
        lemma_be_byte_range(len, 7);
        assert(header =~= seq![254u8] + seq![hi] + seq![lo]);
        let q1 = spec_step(p1, 254u8).0;
        lemma_run_single(p1, 254u8);
        let q2 = spec_step(q1, hi).0;
        lemma_run_single(q1, hi);
        assert(((hi as u64) << 8u64) + (lo as u64) == len) by (bit_vector)
            requires
                hi as u64 == (len >> 8u64) & 0xffu64,
                lo as u64 == (len >> 0u64) & 0xffu64,
                len <= 0xffff,
        ;
        lemma_shift_add_no_overflow(q2.length, lo);
        lemma_run_single(q2, lo);
        assert(spec_step(q2, lo).0 =~= p2);
        lemma_run_concat(p1, seq![254u8], seq![hi]);
        lemma_run_concat(p1, seq![254u8] + seq![hi], seq![lo]);
    } else {
        assert(255u8 & 0x80u8 > 0 && 255u8 & 0x7fu8 == 127) by (bit_vector);
        assert(header =~= seq![255u8] + long_length_bytes(len));
        let q1 = spec_step(p1, 255u8).0;
        lemma_run_single(p1, 255u8);
        assert(long_length_bytes(len).skip(0) =~= long_length_bytes(len));
        lemma_run_long_length(q1, len, 0);
        assert(with_length_state(q1, len, ParserState::Mask(0)) =~= p2);
        lemma_run_concat(p1, seq![255u8], long_length_bytes(len));
    }
    assert(run(p1, header) == (p2, Seq::<Seq<u8>>::empty(), true));
    // The mask.
    assert(mask.skip(0) =~= mask);
    lemma_run_mask(p2, mask, 0);
    let p3 = FrameParserView { state: ParserState::Payload(0), mask: Some(mask), ..p2 };
    // The payload.
    assert(p3.payload =~= payload.take(0));
    assert(masked(payload, mask).skip(0) =~= masked(payload, mask));
    lemma_run_payload(p3, payload, mask, 0);
    // Put the pieces together.
    let bytes = encode_frame(payload, mask);
    lemma_run_concat(idle_view(), seq![0x81u8], header);
    lemma_run_concat(idle_view(), seq![0x81u8] + header, mask);
    lemma_run_concat(idle_view(), seq![0x81u8] + header + mask, masked(payload, mask));
    assert(Seq::<Seq<u8>>::empty() + Seq::<Seq<u8>>::empty() =~= Seq::<Seq<u8>>::empty());
    assert(Seq::<Seq<u8>>::empty() + seq![payload] =~= seq![payload]);
}


/// A final text frame carrying `payload` without a mask, as a server sends.
pub open spec fn unmasked_frame(payload: Seq<u8>) -> Seq<u8> {
    seq![0x81u8] + length_header(payload.len() as u64) + payload
}

/// An unmasked frame, fed to a fresh parser, gives back exactly its payload
/// bytes as the one completed frame and leaves the parser fresh: without a
/// mask, no payload byte is changed.
pub proof fn lemma_unmasked_frame_roundtrip(payload: Seq<u8>)
    requires
        payload.len() <= usize::MAX,
    ensures
        run(idle_view(), unmasked_frame(payload)) == (idle_view(), seq![payload], true),
{
    let len = payload.len() as u64;
    let zeros = seq![0u8, 0u8, 0u8, 0u8];
    assert(0x81u8 & 0x80u8 > 0 && 0x81u8 & 0x0fu8 == 1) by (bit_vector);
    let p1 = spec_step(idle_view(), 0x81u8).0;
    lemma_run_single(idle_view(), 0x81u8);
    let header = length_header(len);
    let bytes = unmasked_frame(payload);
    if len == 0 {
        assert(header =~= seq![0u8]);
        assert(0u8 & 0x80u8 == 0 && 0u8 & 0x7fu8 == 0) by (bit_vector);
        assert(payload =~= Seq::<u8>::empty());
        assert(bytes =~= seq![0x81u8] + seq![0u8]);
        let (p2, r2) = spec_step(p1, 0u8);
        assert(p2 == idle_view());
        assert(r2 == Ok::<Option<Seq<u8>>, WebsocketError>(Some(Seq::<u8>::empty())));
        assert(seq![0u8].drop_first() =~= Seq::<u8>::empty());
        assert(run(p2, Seq::<u8>::empty()) == (p2, Seq::<Seq<u8>>::empty(), true));
        assert(run(p1, seq![0u8]) == (idle_view(), seq![payload] + Seq::<Seq<u8>>::empty(), true));
        assert(seq![payload] + Seq::<Seq<u8>>::empty() =~= seq![payload]);
        lemma_run_concat(idle_view(), seq![0x81u8], seq![0u8]);
        assert(Seq::<Seq<u8>>::empty() + seq![payload] =~= seq![payload]);
        return;
    }
    let p2 = FrameParserView { state: ParserState::Payload(0), length: len, ..p1 };
    if len < 126 {
        let h = len as u8;
        assert(header =~= seq![h]);
        assert(h & 0x80u8 == 0 && h & 0x7fu8 == h) by (bit_vector)
            requires
                h < 126,
        ;
        lemma_run_single(p1, h);
        assert(spec_step(p1, h).0 =~= p2);
    } else if len <= 0xffff {
        assert(126u8 & 0x80u8 == 0 && 126u8 & 0x7fu8 == 126) by (bit_vector);
        let hi = be_byte(len, 6);
        let lo = be_byte(len, 7);
        lemma_be_byte_range(len, 6);
        lemma_be_byte_range(len, 7);
        assert(header =~= seq![126u8] + seq![hi] + seq![lo]);
        let q1 = spec_step(p1, 126u8).0;
        lemma_run_single(p1, 126u8);
        let q2 = spec_step(q1, hi).0;
        lemma_run_single(q1, hi);
        assert(((hi as u64) << 8u64) + (lo as u64) == len) by (bit_vector)
            requires
                hi as u64 == (len >> 8u64) & 0xffu64,
                lo as u64 == (len >> 0u64) & 0xffu64,
                len <= 0xffff,
        ;
        lemma_shift_add_no_overflow(q2.length, lo);
        lemma_run_single(q2, lo);
        assert(spec_step(q2, lo).0 =~= p2);
        lemma_run_concat(p1, seq![126u8], seq![hi]);
        lemma_run_concat(p1, seq![126u8] + seq![hi], seq![lo]);
    } else {
        assert(127u8 & 0x80u8 == 0 && 127u8 & 0x7fu8 == 127) by (bit_vector);
        assert(header =~= seq![127u8] + long_length_bytes(len));
        let q1 = spec_step(p1, 127u8).0;
        lemma_run_single(p1, 127u8);
        assert(long_length_bytes(len).skip(0) =~= long_length_bytes(len));
        lemma_run_long_length(q1, len, 0);
        assert(with_length_state(q1, len, ParserState::Payload(0)) =~= p2);
        lemma_run_concat(p1, seq![127u8], long_length_bytes(len));
    }
    assert(run(p1, header) == (p2, Seq::<Seq<u8>>::empty(), true));
    // Without a mask the payload bytes are unmasked with zeros.
    assert(mask_in_use(p2) == zeros);
    assert(masked(payload, zeros) =~= payload) by {
        assert forall|i: int| 0 <= i < payload.len() implies masked(payload, zeros)[i] == payload[i] by {
            let b = payload[i];
            assert(b ^ 0u8 == b) by (bit_vector);
        }
    }
    assert(p2.payload =~= payload.take(0));
    assert(masked(payload, zeros).skip(0) =~= masked(payload, zeros));
    lemma_run_payload(p2, payload, zeros, 0);
    lemma_run_concat(idle_view(), seq![0x81u8], header);
    lemma_run_concat(idle_view(), seq![0x81u8] + header, payload);
    assert(Seq::<Seq<u8>>::empty() + Seq::<Seq<u8>>::empty() =~= Seq::<Seq<u8>>::empty());
    assert(Seq::<Seq<u8>>::empty() + seq![payload] =~= seq![payload]);
}

/// A step that completes nothing does not end between frames.
proof fn lemma_quiet_step_stays_in_frame(p: FrameParserView, byte: u8)
    requires
        spec_step(p, byte).1 == Ok::<Option<Seq<u8>>, WebsocketError>(None),
    ensures
        spec_step(p, byte).0.state != ParserState::FinalAndOpcode,
{
}

/// A written frame fed to a fresh parser byte by byte: every byte but the
/// last is taken without error and completes nothing, and the last byte
/// completes the frame with its payload and leaves the parser fresh.
pub proof fn lemma_frame_completes_at_last_byte(payload: Seq<u8>, mask: Seq<u8>)
    requires
        mask.len() == 4,
        0 < payload.len() <= usize::MAX,
    ensures
        ({
            let bytes = encode_frame(payload, mask);
            let before = run(idle_view(), bytes.drop_last());
            &&& before.1 == Seq::<Seq<u8>>::empty()
            &&& before.2
            &&& spec_step(before.0, bytes.last()) == (idle_view(), Ok::<Option<Seq<u8>>, WebsocketError>(Some(payload)))
        }),
{
    let bytes = encode_frame(payload, mask);
    lemma_frame_roundtrip(payload, mask);
    assert(bytes.len() > 0);
    let a = bytes.drop_last();
    let last = bytes.last();
    assert(a + seq![last] =~= bytes);
    lemma_run_concat(idle_view(), a, seq![last]);
    let before = run(idle_view(), a);
    assert(before.2);
    let (s1, r) = spec_step(before.0, last);
    assert(seq![last].drop_first() =~= Seq::<u8>::empty());
    assert(run(s1, Seq::<u8>::empty()) == (s1, Seq::<Seq<u8>>::empty(), true));
    match r {
        Ok(Some(x)) => {
            assert(run(before.0, seq![last]) == (s1, seq![x] + Seq::<Seq<u8>>::empty(), true));
            assert(seq![x] + Seq::<Seq<u8>>::empty() =~= seq![x]);
            assert(s1 == idle_view());
            assert((before.1 + seq![x]).len() == 1);
            assert(before.1.len() == 0);
            assert(before.1 + seq![x] =~= seq![x]);
            assert(run(idle_view(), bytes).1 == before.1 + run(before.0, seq![last]).1);
            assert(seq![x] == seq![payload]);
            assert(seq![x][0] == seq![payload][0]);
        },
        Ok(None) => {
            lemma_quiet_step_stays_in_frame(before.0, last);
            lemma_run_single(before.0, last);
            assert(s1 == idle_view());
        },
        Err(_) => {
            assert(!run(before.0, seq![last]).2);
        },
    }
}

/// The GUID that the websocket handshake appends to the client's key.
pub open spec fn websocket_guid() -> Seq<u8> {
    "258EAFA5-E914-47DA-95CA-C5AB0DC85B11".spec_bytes()
}

/// The `Sec-WebSocket-Accept` value a server must answer to a key.
pub open spec fn spec_sec_accept(sec_key: Seq<u8>) -> Seq<char> {
    base64_encoding(sha1_digest_of(sec_key + websocket_guid()))
}

/// The upgrade request for a host, port and key.
pub open spec fn spec_handshake_request(domain: Seq<char>, port: u16, sec_key: Seq<char>) -> Seq<char> {
    "GET / HTTP/1.1\r\n"@ + "Host: "@ + domain + ":"@ + decimal(port as nat) + "\r\n"@
        + "User-Agent: rust\r\n"@ + "Upgrade: websocket\r\n"@ + "Connection: Upgrade\r\n"@
        + "Sec-WebSocket-Key: "@ + sec_key + "\r\n"@ + "Sec-WebSocket-Protocol: chat\r\n"@
        + "Sec-WebSocket-Version: 13\r\n"@ + "\r\n"@
}

/// `part` occurs in `text`.
pub open spec fn contains_text(text: Seq<char>, part: Seq<char>) -> bool {
    exists|i: int| 0 <= i && i + part.len() <= text.len() && #[trigger] text.subrange(i, i + part.len()) == part
}

proof fn lemma_occurs_between(before: Seq<char>, part: Seq<char>, after: Seq<char>)
    ensures
        contains_text(before + part + after, part),
{
    let text = before + part + after;
    assert(text.subrange(before.len() as int, (before.len() + part.len()) as int) =~= part);
}

/// The upgrade request is a GET of `/` over HTTP/1.1 that names the host
/// and port and carries the headers that a websocket upgrade needs: the
/// upgrade to websocket, the connection upgrade, the key and version 13;
/// it ends with an empty line.
pub proof fn lemma_handshake_request_headers(domain: Seq<char>, port: u16, sec_key: Seq<char>)
    ensures
        ({
            let request = spec_handshake_request(domain, port, sec_key);
            &&& request.take("GET / HTTP/1.1\r\n"@.len() as int) == "GET / HTTP/1.1\r\n"@
            &&& contains_text(request, "Host: "@ + domain + ":"@ + decimal(port as nat) + "\r\n"@)
            &&& contains_text(request, "Upgrade: websocket\r\n"@)
            &&& contains_text(request, "Connection: Upgrade\r\n"@)
            &&& contains_text(request, "Sec-WebSocket-Key: "@ + sec_key + "\r\n"@)
            &&& contains_text(request, "Sec-WebSocket-Version: 13\r\n"@)
            &&& request.skip(request.len() - 4) == "\r\n\r\n"@
        }),
{
    let get = "GET / HTTP/1.1\r\n"@;
    let host = "Host: "@ + domain + ":"@ + decimal(port as nat) + "\r\n"@;
    let agent = "User-Agent: rust\r\n"@;
    let upgrade = "Upgrade: websocket\r\n"@;
    let connection = "Connection: Upgrade\r\n"@;
    let key = "Sec-WebSocket-Key: "@ + sec_key + "\r\n"@;
    let protocol = "Sec-WebSocket-Protocol: chat\r\n"@;
    let version = "Sec-WebSocket-Version: 13\r\n"@;
    let end = "\r\n"@;
    let request = spec_handshake_request(domain, port, sec_key);
    assert(request =~= get + host + agent + upgrade + connection + key + protocol + version + end);
    assert(request.take(get.len() as int) == get) by {
        assert(request.take(get.len() as int) =~= get);
    }
    assert(contains_text(request, host)) by {
        assert(request =~= get + host + (agent + upgrade + connection + key + protocol + version + end));
        lemma_occurs_between(get, host, agent + upgrade + connection + key + protocol + version + end);
    }
    assert(contains_text(request, upgrade)) by {
        assert(request =~= (get + host + agent) + upgrade + (connection + key + protocol + version + end));
        lemma_occurs_between(get + host + agent, upgrade, connection + key + protocol + version + end);
    }
    assert(contains_text(request, connection)) by {
        assert(request =~= (get + host + agent + upgrade) + connection + (key + protocol + version + end));
        lemma_occurs_between(get + host + agent + upgrade, connection, key + protocol + version + end);
    }
    assert(contains_text(request, key)) by {
        assert(request =~= (get + host + agent + upgrade + connection) + key + (protocol + version + end));
        lemma_occurs_between(get + host + agent + upgrade + connection, key, protocol + version + end);
    }
    assert(contains_text(request, version)) by {
        assert(request =~= (get + host + agent + upgrade + connection + key + protocol) + version + end);
        lemma_occurs_between(get + host + agent + upgrade + connection + key + protocol, version, end);
    }
    assert(request.skip(request.len() - 4) == "\r\n\r\n"@) by {
        reveal_strlit("\r\n");
        reveal_strlit("\r\n\r\n");
        reveal_strlit("Sec-WebSocket-Version: 13\r\n");
        let rest = get + host + agent + upgrade + connection + key + protocol;
        assert(request =~= rest + version + end);
        assert(request.skip(request.len() - 4) =~= "\r\n\r\n"@);
    }
}

/// Bytes read as Latin-1 characters, one character per byte.
pub open spec fn latin1(bytes: Seq<u8>) -> Seq<char> {
    bytes.map_values(|b: u8| b as char)
}

/// The header name whose value carries the server's answer to the key.
pub open spec fn accept_header_name() -> Seq<u8> {
    "Sec-WebSocket-Accept:".spec_bytes()
}

/// Whether an upgrade response carries the expected accept value: the first
/// `Sec-WebSocket-Accept:` header, up to the first line end after it, holds
/// `expected` once surrounding whitespace is removed.
pub open spec fn spec_accept_matches(response: Seq<u8>, expected: Seq<char>) -> bool {
    match find_first(response, accept_header_name(), 0) {
        None => false,
        Some(loc) => match find_first(response, seq![13u8, 10u8], loc + 21) {
            None => false,
            Some(nl) => latin1(trim(response.subrange(loc + 21, nl))) == expected,
        },
    }
}

/// Two random bytes (rand's `StdRng::from_entropy` and `fill_bytes`).
/// Nothing is promised of their values; `from_entropy` panics where the
/// operating system gives no entropy.
#[verifier::external_body]
fn random_key_bytes() -> (bytes: [u8; 2]) {
    let mut bytes = [0u8; 2];
    rand::rngs::StdRng::from_entropy().fill_bytes(&mut bytes);
    bytes
}

/// What the URL parser makes of a text: the URL's serialization and its
/// domain (`None` where the host is an address or there is no host), or the
/// parser's error message.
pub uninterp spec fn parsed_url(text: Seq<char>) -> Result<(Seq<char>, Option<Seq<char>>), Seq<char>>;

/// The URL value the parser makes of a text that parses.
pub uninterp spec fn url_value_of(text: Seq<char>) -> reqwest::Url;

/// A parsed URL: the parser's value, its serialization and its domain.
#[derive(Debug)]
pub struct UrlTarget {
    parsed: reqwest::Url,
    url: String,
    domain: Option<String>,
}

/// An optional text as plain characters.
pub open spec fn option_text(t: Option<String>) -> Option<Seq<char>> {
    match t {
        Some(s) => Some(s@),
        None => None,
    }
}

impl View for UrlTarget {
    type V = (Seq<char>, Option<Seq<char>>);

    closed spec fn view(&self) -> (Seq<char>, Option<Seq<char>>) {
        (self.url@, option_text(self.domain))
    }
}

impl UrlTarget {
    /// The parser's value.
    pub closed spec fn parsed_value(&self) -> reqwest::Url {
        self.parsed
    }

    /// The parser's value, for resolving the address.
    pub fn parsed(&self) -> (res: &reqwest::Url)
        ensures
            *res == self.parsed_value(),
    {
        &self.parsed
    }

    /// The URL's serialization.
    pub fn url(&self) -> (res: &String)
        ensures
            res@ == self@.0,
    {
        &self.url
    }

    /// The URL's domain, if its host is one.
    pub fn domain(&self) -> (res: Option<String>)
        ensures
            option_text(res) == self@.1,
    {
        match &self.domain {
            Some(d) => Some(d.clone()),
            None => None,
        }
    }
}

/// url's `Url::parse` (re-exported by reqwest), with the parsed URL's
/// `as_str` and `domain`. The parse is a function of the text alone, so its
/// outcome is named: the URL value, its serialization and its domain where
/// it parses, the error's message where it does not.
#[verifier::external_body]
pub(crate) fn parse_url(text: &str) -> (res: Result<UrlTarget, String>)
    ensures
        match res {
            Ok(t) => parsed_url(text@) == Ok::<(Seq<char>, Option<Seq<char>>), Seq<char>>(t@)
                && t.parsed_value() == url_value_of(text@),
            Err(e) => parsed_url(text@) == Err::<(Seq<char>, Option<Seq<char>>), Seq<char>>(e@),
        },
{
    match reqwest::Url::parse(text) {
        Ok(u) => {
            let url = u.as_str().to_string();
            let domain = u.domain().map(|d| d.to_string());
            Ok(UrlTarget { parsed: u, url, domain })
        },
        Err(e) => Err(e.to_string()),
    }
}

/// Opens websocket connections over an established stream.
pub struct WebsocketStreamConnector {
    check_sec_accept: bool,
}

impl Default for WebsocketStreamConnector {
    fn default() -> (c: Self)
        ensures
            c.checks_accept(),
    {
        WebsocketStreamConnector { check_sec_accept: true }
    }
}

impl WebsocketStreamConnector {
    /// Whether the server's accept value is checked.
    pub closed spec fn checks_accept(&self) -> bool {
        self.check_sec_accept
    }

    /// A connector that does not check the server's accept value.
    pub fn new_no_sec() -> (c: Self)
        ensures
            !c.checks_accept(),
    {
        WebsocketStreamConnector { check_sec_accept: false }
    }

    /// The accept value for a key: base64 of the SHA-1 of the key followed
    /// by the websocket GUID.
    pub fn sec_accept(sec_key: &str) -> (res: String)
        ensures
            res@ == spec_sec_accept(sec_key.spec_bytes()),
    {
        let mut sec_accept = vstd::slice::slice_to_vec(sec_key.as_bytes());
        let mut guid = vstd::slice::slice_to_vec("258EAFA5-E914-47DA-95CA-C5AB0DC85B11".as_bytes());
        sec_accept.append(&mut guid);
        let hash = sha1_digest(sec_accept.as_slice());
        base64_encode(hash.as_slice())
    }

    /// A fresh key: base64 of two random bytes.
    pub fn new_sec_key() -> (res: String)
        ensures
            exists|b: Seq<u8>| b.len() == 2 && res@ == base64_encoding(b),
    {
        let bytes = random_key_bytes();
        let key = base64_encode(bytes.as_slice());
        assert(bytes@.len() == 2);
        key
    }

    /// The upgrade request for a host, port and key.
    pub fn handshake_request(domain: &str, port: u16, sec_key: &str) -> (res: String)
        ensures
            res@ == spec_handshake_request(domain@, port, sec_key@),
    {
        let mut request = String::new();
        request.append("GET / HTTP/1.1\r\n");
        request.append("Host: ");
        request.append(domain);
        request.append(":");
        let port_text = u64_to_decimal(port as u64);
        request.append(port_text.as_str());
        request.append("\r\n");
        request.append("User-Agent: rust\r\n");
        request.append("Upgrade: websocket\r\n");
        request.append("Connection: Upgrade\r\n");
        request.append("Sec-WebSocket-Key: ");
        request.append(sec_key);
        request.append("\r\n");
        request.append("Sec-WebSocket-Protocol: chat\r\n");
        request.append("Sec-WebSocket-Version: 13\r\n");
        request.append("\r\n");
        request
    }

    /// The host of a connection, or the error for a URL without a domain.
    pub fn domain_of(url: &str, domain: Option<String>) -> (res: Result<String, WebsocketError>)
        ensures
            match domain {
                Some(d) => res == Ok::<String, WebsocketError>(d),
                None => res matches Err(WebsocketError::NoDomainError { url: u }) && u@ == url@,
            },
    {
        match domain {
            Some(d) => Ok(d),
            None => Err(WebsocketError::NoDomainError { url: url.to_owned() }),
        }
    }

    /// Starts a handshake with a fresh key: the request to send and the
    /// accept value the server must answer with.
    pub fn start_handshake(domain: &str, port: u16) -> (res: (String, String))
        ensures
            exists|key_bytes: Seq<u8>|
                key_bytes.len() == 2
                && res.0@ == spec_handshake_request(domain@, port, #[trigger] base64_encoding(key_bytes))
                && res.1@ == spec_sec_accept(vstd::utf8::encode_utf8(base64_encoding(key_bytes))),
    {
        let sec_key = Self::new_sec_key();
        let sec_accept = Self::sec_accept(sec_key.as_str());
        let request = Self::handshake_request(domain, port, sec_key.as_str());
        (request, sec_accept)
    }

    /// The upgrade response is complete once it ends with an empty line.
    pub fn is_end_of_http_head(received: &[u8]) -> (res: bool)
        ensures
            res == (received@.len() >= 4 && received@.subrange(received@.len() - 4, received@.len() as int)
                == seq![13u8, 10u8, 13u8, 10u8]),
    {
        let n = received.len();
        if n < 4 {
            return false;
        }
        let res = received[n - 4] == 13 && received[n - 3] == 10 && received[n - 2] == 13 && received[n - 1] == 10;
        assert(res == (received@.subrange(n - 4, n as int) =~= seq![13u8, 10u8, 13u8, 10u8]));
        res
    }

    /// Checks the server's upgrade response, when this connector checks it.
    pub fn check_upgrade_response(&self, response: &[u8], expected: &str) -> (res: Result<(), WebsocketError>)
        ensures
            res is Ok <==> (!self.checks_accept() || spec_accept_matches(response@, expected@)),
            res is Err ==> res == Err::<(), WebsocketError>(WebsocketError::WebsocketUpgradeError),
    {
        if !self.check_sec_accept {
            return Ok(());
        }
        let name = "Sec-WebSocket-Accept:".as_bytes();
        proof {
            reveal_strlit("Sec-WebSocket-Accept:");
            vstd::utf8::is_ascii_chars_encode_utf8("Sec-WebSocket-Accept:"@);
            assert(name@.len() == 21);
        }
        let location = match find_bytes(response, name, 0) {
            Some(l) => l,
            None => return Err(WebsocketError::WebsocketUpgradeError),
        };
        proof {
            crate::text::lemma_find_first_found(response@, name@, 0);
            assert(crate::text::is_first_occurrence(response@, name@, 0, location as int));
            assert(crate::text::occurs_at(response@, name@, location as int));
            assert(location + 21 <= response@.len());
        }
        let total = response.len();
        assert(location + 21 <= total);
        let start = location + 21;
        let crlf: [u8; 2] = [13u8, 10u8];
        assert(crlf@ =~= seq![13u8, 10u8]);
        let new_line = match find_bytes(response, crlf.as_slice(), start) {
            Some(l) => l,
            None => return Err(WebsocketError::WebsocketUpgradeError),
        };
        proof {
            crate::text::lemma_find_first_found(response@, crlf@, start as int);
        }
        let (lo, hi) = trim_bounds(response, start, new_line);
        assert(spec_accept_matches(response@, expected@) <==> latin1(response@.subrange(lo as int, hi as int)) == expected@);
        let n = expected.unicode_len();
        if hi - lo != n {
            return Err(WebsocketError::WebsocketUpgradeError);
        }
        let mut i: usize = 0;
        while i < n
            invariant
                lo <= hi <= response.len(),
                hi - lo == n,
                n == expected@.len(),
                i <= n,
                self.checks_accept(),
                spec_accept_matches(response@, expected@) <==> latin1(response@.subrange(lo as int, hi as int)) == expected@,
                forall|j: int| 0 <= j < i ==> (response@[lo + j] as char) == expected@[j],
            decreases n - i,
        {
            if (response[lo + i] as char) != expected.get_char(i) {
                proof {
                    assert(latin1(response@.subrange(lo as int, hi as int))[i as int] != expected@[i as int]);
                }
                return Err(WebsocketError::WebsocketUpgradeError);
            }
            i = i + 1;
        }
        assert(latin1(response@.subrange(lo as int, hi as int)) =~= expected@);
        Ok(())
    }
}


/// One byte fed to the parser, as `run` counts it.
proof fn lemma_run_one(p: FrameParserView, byte: u8)
    ensures
        run(p, seq![byte]) == (match spec_step(p, byte).1 {
            Err(_) => (spec_step(p, byte).0, Seq::<Seq<u8>>::empty(), false),
            Ok(Some(x)) => (spec_step(p, byte).0, seq![x], true),
            Ok(None) => (spec_step(p, byte).0, Seq::<Seq<u8>>::empty(), true),
        }),
{
    assert(seq![byte].drop_first() =~= Seq::<u8>::empty());
    let p1 = spec_step(p, byte).0;
    assert(run(p1, Seq::<u8>::empty()) == (p1, Seq::<Seq<u8>>::empty(), true));
    match spec_step(p, byte).1 {
        Ok(Some(x)) => {
            assert(seq![x] + Seq::<Seq<u8>>::empty() =~= seq![x]);
        },
        _ => {},
    }
}

/// A websocket over a byte stream: the stream, the parser of the incoming
/// bytes, and the payloads of the frames received but not yet read, oldest
/// first.
pub struct WebsocketStream<T> {
    stream: T,
    read_parser: FrameParser,
    frame_buffer: VecDeque<VecDeque<u8>>,
}

impl<T> WebsocketStream<T> {
    /// The parser of the incoming bytes.
    pub closed spec fn parser_view(&self) -> FrameParserView {
        self.read_parser@
    }

    /// The payloads waiting to be read, oldest first.
    pub closed spec fn frames(&self) -> Seq<Seq<u8>> {
        self.frame_buffer@.map_values(|f: VecDeque<u8>| f@)
    }

    /// The underlying stream.
    pub closed spec fn spec_stream(&self) -> T {
        self.stream
    }

    /// A websocket over an upgraded stream, with nothing received yet.
    pub fn new(stream: T) -> (s: Self)
        ensures
            s.parser_view() == idle_view(),
            s.frames() == Seq::<Seq<u8>>::empty(),
            s.spec_stream() == stream,
    {
        let s = WebsocketStream { stream, read_parser: FrameParser::default(), frame_buffer: VecDeque::new() };
        assert(s.frames() =~= Seq::<Seq<u8>>::empty());
        s
    }

    /// The underlying stream, to read from and write to.
    pub fn stream_mut(&mut self) -> (r: &mut T)
        ensures
            *r == old(self).spec_stream(),
            final(self).spec_stream() == *final(r),
            final(self).parser_view() == old(self).parser_view(),
            final(self).frames() == old(self).frames(),
    {
        &mut self.stream
    }

    /// Whether a received payload waits to be read.
    pub fn has_buffered_frame(&self) -> (res: bool)
        ensures
            res == (self.frames().len() > 0),
    {
        self.frame_buffer.len() > 0
    }

    /// Feeds received bytes to the parser and queues the payload of every
    /// frame they complete. Stops at the first byte the parser refuses.
    pub fn receive_bytes(&mut self, bytes: &[u8]) -> (res: Result<(), WebsocketError>)
        ensures
            final(self).parser_view() == run(old(self).parser_view(), bytes@).0,
            final(self).frames() == old(self).frames() + run(old(self).parser_view(), bytes@).1,
            res is Ok <==> run(old(self).parser_view(), bytes@).2,
            final(self).spec_stream() == old(self).spec_stream(),
    {
        let ghost p0 = self.read_parser@;
        let ghost q0 = self.frames();
        let mut i: usize = 0;
        assert(bytes@.take(0) =~= Seq::<u8>::empty());
        while i < bytes.len()
            invariant
                i <= bytes.len(),
                run(p0, bytes@.take(i as int)).2,
                self.read_parser@ == run(p0, bytes@.take(i as int)).0,
                self.frames() == q0 + run(p0, bytes@.take(i as int)).1,
                self.stream == old(self).stream,
                p0 == old(self).parser_view(),
                q0 == old(self).frames(),
            decreases bytes.len() - i,
        {
            let ghost before = self.read_parser@;
            let byte = bytes[i];
            proof {
                assert(bytes@.take(i + 1) =~= bytes@.take(i as int) + seq![byte]);
                lemma_run_concat(p0, bytes@.take(i as int), seq![byte]);
                lemma_run_one(before, byte);
            }
            match self.read_parser.process_byte(&byte) {
                Ok(maybe_frame) => {
                    if let Some(frame) = maybe_frame {
                        let mut queue: VecDeque<u8> = VecDeque::new();
                        let mut k: usize = 0;
                        while k < frame.payload.len()
                            invariant
                                k <= frame.payload.len(),
                                queue@ == frame.payload@.take(k as int),
                            decreases frame.payload.len() - k,
                        {
                            queue.push_back(frame.payload[k]);
                            assert(frame.payload@.take(k + 1) =~= frame.payload@.take(k as int).push(frame.payload@[k as int]));
                            k = k + 1;
                        }
                        assert(frame.payload@.take(frame.payload.len() as int) =~= frame.payload@);
                        let ghost old_frames = self.frames();
                        self.frame_buffer.push_back(queue);
                        assert(self.frames() =~= old_frames.push(frame.payload@));
                        assert(q0 + run(p0, bytes@.take(i as int)).1 + seq![frame.payload@] =~=
                            q0 + (run(p0, bytes@.take(i as int)).1 + seq![frame.payload@]));
                    } else {
                        assert(run(p0, bytes@.take(i as int)).1 + Seq::<Seq<u8>>::empty() =~= run(p0, bytes@.take(i as int)).1);
                    }
                },
                Err(e) => {
                    assert(run(p0, bytes@.take(i as int)).1 + Seq::<Seq<u8>>::empty() =~= run(p0, bytes@.take(i as int)).1);
                    proof {
                        // The rest of the bytes are not processed.
                        let rest = bytes@.skip(i + 1);
                        assert(bytes@ =~= bytes@.take(i + 1) + rest);
                        lemma_run_concat(p0, bytes@.take(i + 1), rest);
                    }
                    return Err(e);
                },
            }
            i = i + 1;
        }
        assert(bytes@.take(bytes.len() as int) =~= bytes@);
        Ok(())
    }

    /// Reads from the oldest waiting payload, at most `remaining` bytes. A
    /// payload read in part keeps its rest at the front of the queue; one of
    /// which nothing was read leaves the queue.
    pub fn read_payload(&mut self, remaining: usize) -> (out: Vec<u8>)
        ensures
            final(self).spec_stream() == old(self).spec_stream(),
            final(self).parser_view() == old(self).parser_view(),
            (out@, final(self).frames()) == read_step(old(self).frames(), remaining as nat),
    {
        if self.frame_buffer.len() == 0 {
            return Vec::new();
        }
        let ghost q = self.frames();
        let mut payload = match self.frame_buffer.pop_front() {
            Some(p) => p,
            None => VecDeque::new(),
        };
        let ghost f = payload@;
        assert(f == q[0]);
        assert(self.frames() =~= q.drop_first());
        let mut new_slice: Vec<u8> = Vec::new();
        loop
            invariant
                new_slice@.len() <= remaining,
                new_slice@ + payload@ == f,
            ensures
                new_slice@ + payload@ == f,
                new_slice@.len() == (if f.len() < remaining { f.len() as int } else { remaining as int }),
            decreases payload@.len(),
        {
            if remaining <= new_slice.len() {
                break;
            }
            let byte = match payload.pop_front() {
                None => {
                    assert(new_slice@ =~= f);
                    break;
                },
                Some(byte) => byte,
            };
            new_slice.push(byte);
            assert(new_slice@ + payload@ =~= f);
        }
        assert(new_slice@ =~= f.take(new_slice@.len() as int));
        assert(payload@ =~= f.skip(new_slice@.len() as int));
        if new_slice.len() != 0 {
            let ghost before = self.frames();
            self.frame_buffer.push_front(payload);
            assert(self.frames() =~= seq![payload@] + before);
        }
        new_slice
    }

    /// The frame that carries `payload`, and the size of its header.
    pub fn frame_for_write(payload: &[u8]) -> (res: (Vec<u8>, usize))
        ensures
            exists|m: Seq<u8>| m.len() == 4 && res.0@ == encode_frame(payload@, m),
            res.1 == res.0@.len() - payload@.len(),
    {
        let frame = Frame::from_payload(payload).into_data();
        proof {
            let m = choose|m: Seq<u8>| m.len() == 4 && frame@ == encode_frame(payload@, m);
            assert(frame@.len() == 1 + masked_length_header(payload@.len() as u64).len() + 4 + payload@.len());
        }
        let header_size = frame.len() - payload.len();
        (frame, header_size)
    }

    /// How much of a payload a write of `written` frame bytes carried.
    pub fn payload_written(written: usize, header_size: usize) -> (res: usize)
        ensures
            res == if written <= header_size { 0 } else { (written - header_size) as usize },
    {
        if written <= header_size {
            0
        } else {
            written - header_size
        }
    }
}

/// One read of the received payloads with room for `remaining` bytes: what
/// it gives and the payloads left. It takes up to `remaining` bytes from the
/// front payload; what is left of that payload stays in front when
/// something was taken, and an empty front payload is dropped with nothing
/// given.
pub open spec fn read_step(frames: Seq<Seq<u8>>, remaining: nat) -> (Seq<u8>, Seq<Seq<u8>>) {
    if frames.len() == 0 {
        (Seq::empty(), frames)
    } else {
        let f = frames[0];
        let k = if f.len() < remaining { f.len() as int } else { remaining as int };
        (f.take(k), if k != 0 { seq![f.skip(k)] + frames.drop_first() } else { frames.drop_first() })
    }
}

/// The size of the front payload, or zero when there is none.
pub open spec fn front_len(frames: Seq<Seq<u8>>) -> nat {
    if frames.len() == 0 { 0 } else { frames[0].len() }
}

/// Reads with room for `remaining` bytes each, up to and including the
/// first read that gives nothing: all they give, joined, and the payloads
/// left.
pub open spec fn read_until_empty(frames: Seq<Seq<u8>>, remaining: nat) -> (Seq<u8>, Seq<Seq<u8>>)
    decreases front_len(frames),
{
    let (out, rest) = read_step(frames, remaining);
    if out.len() == 0 {
        (out, rest)
    } else {
        proof {
            assert(rest[0] == frames[0].skip(out.len() as int));
        }
        let (more, left) = read_until_empty(rest, remaining);
        (out + more, left)
    }
}

/// Successive reads give the received payloads whole and in order: reading
/// with room for `remaining` bytes each, until a read gives nothing, gives
/// exactly the front payload and leaves the ones after it, so that nothing
/// is lost, repeated or run into the next payload.
pub proof fn lemma_reads_give_front_payload(frames: Seq<Seq<u8>>, remaining: nat)
    requires
        frames.len() > 0,
        remaining > 0,
    ensures
        read_until_empty(frames, remaining) == (frames[0], frames.drop_first()),
    decreases frames[0].len(),
{
    let f = frames[0];
    let (out, rest) = read_step(frames, remaining);
    if f.len() == 0 {
        assert(out =~= f);
    } else {
        let k = if f.len() < remaining { f.len() as int } else { remaining as int };
        assert(rest[0] == f.skip(k));
        assert(rest.drop_first() =~= frames.drop_first());
        lemma_reads_give_front_payload(rest, remaining);
        assert(f.take(k) + f.skip(k) =~= f);
    }
}

/// What happens to the receiving side of a websocket: payloads are
/// received, or a read is made with room for some bytes.
pub ghost enum StreamEvent {
    Receive(Seq<Seq<u8>>),
    Read(nat),
}

/// The payloads queued and what each read gives, after the events. A read
/// waits while nothing is queued, so a read on an empty queue is not made.
pub open spec fn stream_trace(frames: Seq<Seq<u8>>, events: Seq<StreamEvent>) -> (Seq<Seq<u8>>, Seq<Seq<u8>>)
    decreases events.len(),
{
    if events.len() == 0 {
        (Seq::empty(), frames)
    } else {
        let (outs, queue) = stream_trace(frames, events.drop_last());
        match events.last() {
            StreamEvent::Receive(more) => (outs, queue + more),
            StreamEvent::Read(room) => if queue.len() == 0 {
                (outs, queue)
            } else {
                let (out, rest) = read_step(queue, room);
                (outs.push(out), rest)
            },
        }
    }
}

/// All the payloads received by the events, in order.
pub open spec fn received_payloads(events: Seq<StreamEvent>) -> Seq<Seq<u8>>
    decreases events.len(),
{
    if events.len() == 0 {
        Seq::empty()
    } else {
        match events.last() {
            StreamEvent::Receive(more) => received_payloads(events.drop_last()) + more,
            StreamEvent::Read(_) => received_payloads(events.drop_last()),
        }
    }
}

/// Reads grouped by payload: each empty read closes a group of the reads
/// before it; gives the closed groups, each joined, and what the reads since
/// the last empty one gave.
pub open spec fn read_groups(outs: Seq<Seq<u8>>) -> (Seq<Seq<u8>>, Seq<u8>)
    decreases outs.len(),
{
    if outs.len() == 0 {
        (Seq::empty(), Seq::empty())
    } else {
        let (closed, open) = read_groups(outs.drop_last());
        if outs.last().len() == 0 {
            (closed.push(open), Seq::empty())
        } else {
            (closed, open + outs.last())
        }
    }
}

/// The payloads still to come out: the rest of the one being read, joined
/// to what was read of it, then the others queued.
pub open spec fn pending_payloads(partial: Seq<u8>, queue: Seq<Seq<u8>>) -> Seq<Seq<u8>> {
    if queue.len() == 0 {
        Seq::empty()
    } else {
        seq![partial + queue[0]] + queue.drop_first()
    }
}

/// Every read has room for at least one byte.
pub open spec fn reads_have_room(events: Seq<StreamEvent>) -> bool {
    forall|i: int| 0 <= i < events.len() ==> (#[trigger] events[i] matches StreamEvent::Read(room) ==> room > 0)
}

/// Successive reads give the payloads whole and in order, whatever room
/// each read has and whatever is received between reads: the reads up to
/// each empty read join to exactly the next payload, and what was read of
/// the payload in progress, with what is still queued, is the rest of what
/// was received. Nothing is lost, repeated or run into the next payload.
pub proof fn lemma_stream_reads_in_order(frames: Seq<Seq<u8>>, events: Seq<StreamEvent>)
    requires
        reads_have_room(events),
    ensures
        ({
            let (outs, queue) = stream_trace(frames, events);
            let (closed, open) = read_groups(outs);
            &&& frames + received_payloads(events) == closed + pending_payloads(open, queue)
            &&& queue.len() == 0 ==> open.len() == 0
        }),
    decreases events.len(),
{
    if events.len() == 0 {
        assert(frames + Seq::<Seq<u8>>::empty() =~= frames);
        if frames.len() > 0 {
            assert(Seq::<u8>::empty() + frames[0] =~= frames[0]);
            assert(seq![frames[0]] + frames.drop_first() =~= frames);
        }
        assert(Seq::<Seq<u8>>::empty() + pending_payloads(Seq::empty(), frames) =~= frames);
    } else {
        let prev = events.drop_last();
        assert(reads_have_room(prev)) by {
            assert forall|i: int| 0 <= i < prev.len() implies (#[trigger] prev[i] matches StreamEvent::Read(room) ==> room > 0) by {
                assert(prev[i] == events[i]);
            }
        }
        lemma_stream_reads_in_order(frames, prev);
        let (outs0, q0) = stream_trace(frames, prev);
        let (c0, o0) = read_groups(outs0);
        let s0 = frames + received_payloads(prev);
        match events.last() {
            StreamEvent::Receive(more) => {
                assert(frames + received_payloads(events) =~= s0 + more);
                if q0.len() > 0 {
                    assert((q0 + more)[0] == q0[0]);
                    assert((q0 + more).drop_first() =~= q0.drop_first() + more);
                    assert(c0 + pending_payloads(o0, q0 + more) =~= c0 + pending_payloads(o0, q0) + more);
                } else if more.len() > 0 {
                    assert(Seq::<u8>::empty() + more[0] =~= more[0]);
                    assert(pending_payloads(o0, q0 + more) =~= more);
                    assert(c0 + pending_payloads(o0, q0) =~= c0);
                } else {
                    assert(q0 + more =~= q0);
                }
            },
            StreamEvent::Read(room) => {
                assert(events[events.len() - 1] == events.last());
                assert(room > 0);
                assert(received_payloads(events) == received_payloads(prev));
                if q0.len() > 0 {
                    let f = q0[0];
                    let (out, rest) = read_step(q0, room);
                    let k = if f.len() < room { f.len() as int } else { room as int };
                    assert(outs0.push(out).drop_last() =~= outs0);
                    if k != 0 {
                        assert(out.len() > 0);
                        assert(rest[0] == f.skip(k));
                        assert(rest.drop_first() =~= q0.drop_first());
                        assert((o0 + out) + f.skip(k) =~= o0 + f);
                    } else {
                        assert(out.len() == 0);
                        assert(f.len() == 0);
                        assert(o0 + f =~= o0);
                        assert(rest =~= q0.drop_first());
                        if rest.len() > 0 {
                            assert(Seq::<u8>::empty() + rest[0] =~= rest[0]);
                            assert(seq![rest[0]] + rest.drop_first() =~= rest);
                        }
                        assert(pending_payloads(Seq::empty(), rest) =~= rest);
                        assert(c0 + pending_payloads(o0, q0) =~= c0.push(o0) + rest);
                    }
                }
            },
        }
    }
}

/// A frame written to a websocket and received by another comes out as the
/// payload that was written: a fresh receiving side that is fed the frame
/// queues exactly that payload and is ready for the next frame.
pub proof fn lemma_written_frame_is_received(payload: Seq<u8>, mask: Seq<u8>)
    requires
        mask.len() == 4,
        0 < payload.len() <= usize::MAX,
    ensures
        run(idle_view(), encode_frame(payload, mask)).1 == seq![payload],
        run(idle_view(), encode_frame(payload, mask)).0 == idle_view(),
        run(idle_view(), encode_frame(payload, mask)).2,
{
    lemma_frame_roundtrip(payload, mask);
}

} // verus!
