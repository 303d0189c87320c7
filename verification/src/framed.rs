//! Framing: whole PDUs out of a stream of bytes that comes in arbitrary pieces.
//!
//! The proxy relays what it reads as it reads it: a PDU may come in several
//! messages, and a message may hold several PDUs. Bytes are kept until a whole PDU
//! is there.

use bytes::BytesMut;
use ironrdp::pdu::PduHint;
use vstd::prelude::*;

use crate::session::SessionStats;
use crate::wire::be16_at;

verus! {

/// The tag of a BER sequence, with which every authentication message begins.
pub const BER_SEQUENCE: u8 = 0x30;

#[verifier::external_type_specification]
#[verifier::external_body]
pub struct ExBytesMut(BytesMut);

/// The bytes that a `bytes::BytesMut` holds.
pub uninterp spec fn held(buf: BytesMut) -> Seq<u8>;

/// `BytesMut::with_capacity`: an empty buffer.
#[verifier::external_body]
fn new_buffer() -> (buf: BytesMut)
    ensures
        held(buf) == Seq::<u8>::empty(),
{
    BytesMut::with_capacity(16384)
}

/// `BytesMut::len`.
#[verifier::external_body]
fn buffer_len(buf: &BytesMut) -> (len: usize)
    ensures
        len == held(*buf).len(),
{
    buf.len()
}

/// Indexing a `BytesMut`.
#[verifier::external_body]
fn buffer_byte(buf: &BytesMut, at: usize) -> (byte: u8)
    requires
        at < held(*buf).len(),
    ensures
        byte == held(*buf)[at as int],
{
    buf[at]
}

/// `BytesMut::extend_from_slice`.
#[verifier::external_body]
fn buffer_extend(buf: &mut BytesMut, data: &[u8])
    requires
        held(*old(buf)).len() + data@.len() <= usize::MAX,
    ensures
        held(*final(buf)) == held(*old(buf)) + data@,
{
    buf.extend_from_slice(data);
}

/// `BytesMut::split_to`, with a copy of what it splits off.
#[verifier::external_body]
fn buffer_split(buf: &mut BytesMut, n: usize) -> (front: Vec<u8>)
    requires
        n <= held(*old(buf)).len(),
    ensures
        front@ == held(*old(buf)).take(n as int),
        held(*final(buf)) == held(*old(buf)).skip(n as int),
{
    buf.split_to(n).to_vec()
}

/// How a PDU of the session is framed.
#[derive(Debug, Clone, Copy, PartialEq, Eq)]
pub enum Action {
    FastPath,
    X224,
}

/// The framing that the two low bits of a PDU's first byte name, or those bits.
pub open spec fn action_of(first: u8) -> Result<Action, u8> {
    if first & 3 == 0 {
        Ok(Action::FastPath)
    } else if first & 3 == 3 {
        Ok(Action::X224)
    } else {
        Err(first & 3)
    }
}

/// `ironrdp_pdu::Action::from_fp_output_header`. Claimed: it is [`action_of`].
#[verifier::external_body]
fn action_from_header(first: u8) -> (action: Result<Action, u8>)
    ensures
        action == action_of(first),
{
    match ironrdp::pdu::Action::from_fp_output_header(first) {
        Ok(ironrdp::pdu::Action::FastPath) => Ok(Action::FastPath),
        Ok(ironrdp::pdu::Action::X224) => Ok(Action::X224),
        Err(bits) => Err(bits),
    }
}

/// Why no PDU can be read.
#[derive(Debug, Clone, Copy, PartialEq, Eq)]
pub enum FramedError {
    /// The first byte names no framing.
    UnknownAction(u8),
    /// The PDU says that it is empty.
    ZeroLength,
    /// The bytes are not those of such a PDU.
    HintFailed,
    /// An authentication message does not begin with a BER sequence.
    NotSequence(u8),
}

/// What is known of a length.
pub enum Length {
    /// Not enough bytes yet.
    Unknown,
    Known(int),
}

/// The length of a session PDU, from its first bytes: a 16-bit big-endian length at
/// offset 2 of an X.224 PDU; at offset 1 of a fast-path PDU 7 bits, or 15 bits where
/// the first of them is set.
pub open spec fn length_of(action: Action, bytes: Seq<u8>) -> Length {
    match action {
        Action::X224 => if bytes.len() < 4 {
            Length::Unknown
        } else {
            Length::Known(be16_at(bytes, 2) as int)
        },
        Action::FastPath => if bytes.len() < 2 {
            Length::Unknown
        } else if bytes[1] & 0x80 == 0 {
            Length::Known(bytes[1] as int)
        } else if bytes.len() < 3 {
            Length::Unknown
        } else {
            Length::Known((bytes[1] & 0x7F) * 0x100 + bytes[2])
        },
    }
}

/// What stands at the front of the buffered bytes.
pub enum Front {
    NeedMore,
    Failed(FramedError),
    /// A whole PDU of that length.
    Pdu { action: Action, len: int },
}

/// The session PDU at the front of the buffered bytes.
pub open spec fn front_of(bytes: Seq<u8>) -> Front {
    if bytes.len() < 2 {
        Front::NeedMore
    } else {
        match action_of(bytes[0]) {
            Err(bits) => Front::Failed(FramedError::UnknownAction(bits)),
            Ok(action) => match length_of(action, bytes) {
                Length::Unknown => Front::NeedMore,
                Length::Known(len) => if len == 0 {
                    Front::Failed(FramedError::ZeroLength)
                } else if bytes.len() < len {
                    Front::NeedMore
                } else {
                    Front::Pdu { action, len }
                },
            },
        }
    }
}

/// The big-endian number of bytes, as far as it fits in a machine word: higher bits
/// are lost.
pub open spec fn ber_number(bytes: Seq<u8>) -> int
    decreases bytes.len(),
{
    if bytes.len() == 0 {
        0
    } else {
        (ber_number(bytes.drop_last()) * 0x100 + bytes.last()) % (usize::MAX + 1)
    }
}

/// The length of an authentication message with its header: a tag, then a length of
/// 7 bits, or the number of bytes that hold the length.
pub open spec fn ber_length(bytes: Seq<u8>) -> Length {
    if bytes.len() < 2 {
        Length::Unknown
    } else if bytes[1] & 0x80 == 0 {
        Length::Known(2 + bytes[1])
    } else {
        let n = (bytes[1] & 0x7F) as int;
        if bytes.len() < 2 + n {
            Length::Unknown
        } else {
            Length::Known(2 + n + ber_number(bytes.subrange(2, 2 + n)))
        }
    }
}

/// Whether an authentication message's length is a machine number, as far as it is
/// known.
pub open spec fn ber_fits(bytes: Seq<u8>) -> bool {
    bytes.len() >= 2 && bytes[0] == BER_SEQUENCE && ber_length(bytes) is Known ==> ber_length(bytes)->Known_0
        <= usize::MAX
}

/// What one look at the buffered bytes gives.
#[derive(Debug, PartialEq, Eq)]
pub enum Progress<T> {
    /// More bytes must come first.
    NeedMore,
    Ready(T),
}

/// A message of the WebSocket.
#[derive(Debug, PartialEq, Eq)]
pub enum WsMessage {
    Bytes(Vec<u8>),
    Text(String),
}

/// Whether a message can be kept and counted.
pub open spec fn room_for(bytes: Seq<u8>, stats: SessionStats, message: WsMessage) -> bool {
    message matches WsMessage::Bytes(data) ==> {
        &&& bytes.len() + data@.len() <= usize::MAX
        &&& stats.rx_bytes + data@.len() <= u64::MAX
    }
}

/// The buffered bytes once a message has come.
pub open spec fn kept(bytes: Seq<u8>, message: WsMessage) -> Seq<u8> {
    match message {
        WsMessage::Bytes(data) => bytes + data@,
        WsMessage::Text(_) => bytes,
    }
}

/// The counts once a message has come.
pub open spec fn counted(stats: SessionStats, message: WsMessage) -> SessionStats {
    match message {
        WsMessage::Bytes(data) => SessionStats { rx_bytes: (stats.rx_bytes + data@.len()) as u64, ..stats },
        WsMessage::Text(_) => stats,
    }
}

/// The size that a hint gives, once it is known.
#[derive(Debug, Clone, Copy, PartialEq, Eq)]
pub enum HintAnswer {
    Unknown,
    Size(usize),
    Failed,
}

/// The answer of the X.224 hint: the length that the framing gives, where an X.224
/// PDU must begin with version 3.
pub open spec fn x224_answer(bytes: Seq<u8>) -> HintAnswer {
    if bytes.len() < 1 {
        HintAnswer::Unknown
    } else {
        match action_of(bytes[0]) {
            Err(_) => HintAnswer::Failed,
            Ok(action) => match length_of(action, bytes) {
                Length::Unknown => HintAnswer::Unknown,
                Length::Known(len) => if action == Action::X224 && bytes[0] != 3 {
                    HintAnswer::Failed
                } else {
                    HintAnswer::Size(len as usize)
                },
            },
        }
    }
}

/// `ironrdp_pdu::X224_HINT.find_size` on the buffered bytes. Claimed: it is
/// [`x224_answer`].
#[verifier::external_body]
fn x224_hint(buf: &BytesMut) -> (answer: HintAnswer)
    ensures
        answer == x224_answer(held(*buf)),
{
    match ironrdp::pdu::X224_HINT.find_size(buf) {
        Ok(Some((_, size))) => HintAnswer::Size(size),
        Ok(None) => HintAnswer::Unknown,
        Err(_) => HintAnswer::Failed,
    }
}

/// The bytes that have come and have not been read.
pub struct WasmFramed {
    pub buf: BytesMut,
}

impl View for WasmFramed {
    type V = Seq<u8>;

    open spec fn view(&self) -> Seq<u8> {
        held(self.buf)
    }
}

impl WasmFramed {
    pub fn new() -> (framed: Self)
        ensures
            framed@ == Seq::<u8>::empty(),
    {
        WasmFramed { buf: new_buffer() }
    }

    /// How many bytes wait.
    pub fn buffered(&self) -> (len: usize)
        ensures
            len == self@.len(),
    {
        buffer_len(&self.buf)
    }

    /// Keeps the bytes of a message and counts them; a text is ignored. Says whether
    /// bytes came.
    pub fn fill_buf(&mut self, message: &WsMessage, stats: &mut SessionStats) -> (came: bool)
        requires
            room_for(old(self)@, *old(stats), *message),
        ensures
            final(self)@ == kept(old(self)@, *message),
            *final(stats) == counted(*old(stats), *message),
            came == (message is Bytes),
    {
        match message {
            WsMessage::Bytes(data) => {
                stats.count_received(data.len());
                buffer_extend(&mut self.buf, data.as_slice());
                true
            }
            WsMessage::Text(_) => false,
        }
    }

    /// Takes a message while a text is waited for: the text is the answer, bytes are
    /// kept and counted.
    pub fn read_text_message(&mut self, message: WsMessage, stats: &mut SessionStats) -> (text: Option<String>)
        requires
            room_for(old(self)@, *old(stats), message),
        ensures
            final(self)@ == kept(old(self)@, message),
            *final(stats) == counted(*old(stats), message),
            text == (match message {
                WsMessage::Text(t) => Some(t),
                WsMessage::Bytes(_) => None,
            }),
    {
        match message {
            WsMessage::Bytes(data) => {
                stats.count_received(data.len());
                buffer_extend(&mut self.buf, data.as_slice());
                None
            }
            WsMessage::Text(text) => Some(text),
        }
    }

    /// Takes exactly `n` bytes, once they are there; the rest stays.
    pub fn read_exact(&mut self, n: usize) -> (bytes: Progress<Vec<u8>>)
        ensures
            match bytes {
                Progress::Ready(b) => n <= old(self)@.len() && b@ == old(self)@.take(n as int) && final(self)@
                    == old(self)@.skip(n as int),
                Progress::NeedMore => n > old(self)@.len() && final(self)@ == old(self)@,
            },
    {
        if buffer_len(&self.buf) < n {
            return Progress::NeedMore;
        }
        Progress::Ready(buffer_split(&mut self.buf, n))
    }

    /// Takes one PDU whose size a hint has told from the buffered bytes.
    pub fn read_by_hint(&mut self, answer: HintAnswer) -> (pdu: Result<Progress<Vec<u8>>, FramedError>)
        ensures
            match answer {
                HintAnswer::Failed => pdu == Err::<Progress<Vec<u8>>, FramedError>(FramedError::HintFailed)
                    && final(self)@ == old(self)@,
                HintAnswer::Unknown => pdu == Ok::<Progress<Vec<u8>>, FramedError>(Progress::NeedMore)
                    && final(self)@ == old(self)@,
                HintAnswer::Size(n) => if n == 0 {
                    pdu == Err::<Progress<Vec<u8>>, FramedError>(FramedError::ZeroLength) && final(self)@
                        == old(self)@
                } else if n > old(self)@.len() {
                    pdu == Ok::<Progress<Vec<u8>>, FramedError>(Progress::NeedMore) && final(self)@ == old(self)@
                } else {
                    &&& pdu matches Ok(Progress::Ready(b)) && b@ == old(self)@.take(n as int)
                    &&& final(self)@ == old(self)@.skip(n as int)
                },
            },
    {
        match answer {
            HintAnswer::Failed => Err(FramedError::HintFailed),
            HintAnswer::Unknown => Ok(Progress::NeedMore),
            HintAnswer::Size(n) => {
                if n == 0 {
                    return Err(FramedError::ZeroLength);
                }
                Ok(self.read_exact(n))
            }
        }
    }

    /// Takes one X.224 PDU.
    pub fn read_x224(&mut self) -> (pdu: Result<Progress<Vec<u8>>, FramedError>)
        ensures
            match x224_answer(old(self)@) {
                HintAnswer::Failed => pdu == Err::<Progress<Vec<u8>>, FramedError>(FramedError::HintFailed)
                    && final(self)@ == old(self)@,
                HintAnswer::Unknown => pdu == Ok::<Progress<Vec<u8>>, FramedError>(Progress::NeedMore)
                    && final(self)@ == old(self)@,
                HintAnswer::Size(n) => if n == 0 {
                    pdu == Err::<Progress<Vec<u8>>, FramedError>(FramedError::ZeroLength) && final(self)@
                        == old(self)@
                } else if n > old(self)@.len() {
                    pdu == Ok::<Progress<Vec<u8>>, FramedError>(Progress::NeedMore) && final(self)@ == old(self)@
                } else {
                    &&& pdu matches Ok(Progress::Ready(b)) && b@ == old(self)@.take(n as int)
                    &&& final(self)@ == old(self)@.skip(n as int)
                },
            },
    {
        let answer = x224_hint(&self.buf);
        self.read_by_hint(answer)
    }

    /// The length of the PDU at the front, once it is known.
    fn pdu_length(&self, action: Action) -> (len: Option<usize>)
        requires
            self@.len() >= 2,
        ensures
            match len {
                Some(n) => length_of(action, self@) == Length::Known(n as int),
                None => length_of(action, self@) is Unknown,
            },
    {
        let have: usize = buffer_len(&self.buf);
        match action {
            Action::X224 => {
                if have < 4 {
                    return None;
                }
                let high: u8 = buffer_byte(&self.buf, 2);
                let low: u8 = buffer_byte(&self.buf, 3);
                Some((high as usize) * 0x100 + low as usize)
            }
            Action::FastPath => {
                let first: u8 = buffer_byte(&self.buf, 1);
                if first & 0x80 == 0 {
                    return Some(first as usize);
                }
                if have < 3 {
                    return None;
                }
                let second: u8 = buffer_byte(&self.buf, 2);
                assert(first & 0x7F <= 0x7F) by (bit_vector);
                Some(((first & 0x7F) as usize) * 0x100 + second as usize)
            }
        }
    }

    /// Takes the next whole session PDU.
    pub fn read_pdu(&mut self) -> (pdu: Result<Progress<(Action, Vec<u8>)>, FramedError>)
        ensures
            match front_of(old(self)@) {
                Front::NeedMore => pdu == Ok::<Progress<(Action, Vec<u8>)>, FramedError>(Progress::NeedMore)
                    && final(self)@ == old(self)@,
                Front::Failed(e) => pdu == Err::<Progress<(Action, Vec<u8>)>, FramedError>(e) && final(self)@
                    == old(self)@,
                Front::Pdu { action, len } => {
                    &&& pdu matches Ok(Progress::Ready(p)) && p.0 == action && p.1@ == old(self)@.take(len)
                    &&& final(self)@ == old(self)@.skip(len)
                },
            },
    {
        if buffer_len(&self.buf) < 2 {
            return Ok(Progress::NeedMore);
        }
        let action = match action_from_header(buffer_byte(&self.buf, 0)) {
            Ok(action) => action,
            Err(bits) => return Err(FramedError::UnknownAction(bits)),
        };
        let len: usize = match self.pdu_length(action) {
            Some(len) => len,
            None => return Ok(Progress::NeedMore),
        };
        if len == 0 {
            return Err(FramedError::ZeroLength);
        }
        match self.read_exact(len) {
            Progress::Ready(payload) => Ok(Progress::Ready((action, payload))),
            Progress::NeedMore => Ok(Progress::NeedMore),
        }
    }

    /// The length bytes of an authentication message, read as a number.
    fn ber_payload(&self, n: usize) -> (len: usize)
        requires
            n < 0x80,
            2 + n <= self@.len(),
        ensures
            len == ber_number(self@.subrange(2, 2 + n)),
    {
        let mut len: usize = 0;
        let mut i: usize = 0;
        let ghost all = self@.subrange(2, 2 + n);
        assert(all.take(0) =~= Seq::<u8>::empty());
        while i < n
            invariant
                i <= n < 0x80,
                2 + n <= self@.len(),
                all == self@.subrange(2, 2 + n),
                len == ber_number(all.take(i as int)),
            decreases n - i,
        {
            proof {
                assert(all.take(i + 1).drop_last() =~= all.take(i as int));
                assert(all.take(i + 1).last() == self@[2 + i]);
            }
            let b: u8 = buffer_byte(&self.buf, 2 + i);
            len = wrapping_append(len, b);
            i = i + 1;
        }
        assert(all.take(i as int) =~= all);
        len
    }

    /// The length of an authentication message, where it is a machine number.
    fn ber_total(&self) -> (total: Progress<Option<usize>>)
        requires
            self@.len() >= 2,
        ensures
            match total {
                Progress::NeedMore => ber_length(self@) is Unknown,
                Progress::Ready(Some(n)) => ber_length(self@) == Length::Known(n as int),
                Progress::Ready(None) => ber_length(self@) is Known && ber_length(self@)->Known_0 > usize::MAX,
            },
    {
        let have: usize = buffer_len(&self.buf);
        let first: u8 = buffer_byte(&self.buf, 1);
        if first & 0x80 == 0 {
            return Progress::Ready(Some(2 + first as usize));
        }
        let n: usize = (first & 0x7F) as usize;
        assert(first & 0x7F <= 0x7F) by (bit_vector);
        if have < 2 + n {
            return Progress::NeedMore;
        }
        let payload: usize = self.ber_payload(n);
        Progress::Ready((2 + n).checked_add(payload))
    }

    /// Whether the length of the authentication message at the front, as far as it is
    /// known, is a machine number.
    pub fn credssp_length_fits(&self) -> (fits: bool)
        ensures
            fits == ber_fits(self@),
    {
        if buffer_len(&self.buf) < 2 || buffer_byte(&self.buf, 0) != BER_SEQUENCE {
            return true;
        }
        match self.ber_total() {
            Progress::Ready(None) => false,
            _ => true,
        }
    }

    /// Takes one authentication message.
    pub fn read_credssp_response(&mut self) -> (message: Result<Progress<Vec<u8>>, FramedError>)
        requires
            ber_fits(old(self)@),
        ensures
            if old(self)@.len() >= 2 && old(self)@[0] != BER_SEQUENCE {
                message == Err::<Progress<Vec<u8>>, FramedError>(FramedError::NotSequence(old(self)@[0]))
                    && final(self)@ == old(self)@
            } else {
                match ber_length(old(self)@) {
                    Length::Unknown => message == Ok::<Progress<Vec<u8>>, FramedError>(Progress::NeedMore)
                        && final(self)@ == old(self)@,
                    Length::Known(n) => if n > old(self)@.len() {
                        message == Ok::<Progress<Vec<u8>>, FramedError>(Progress::NeedMore) && final(self)@
                            == old(self)@
                    } else {
                        &&& message matches Ok(Progress::Ready(b)) && b@ == old(self)@.take(n)
                        &&& final(self)@ == old(self)@.skip(n)
                    },
                }
            },
    {
        if buffer_len(&self.buf) < 2 {
            return Ok(Progress::NeedMore);
        }
        let tag: u8 = buffer_byte(&self.buf, 0);
        if tag != BER_SEQUENCE {
            return Err(FramedError::NotSequence(tag));
        }
        match self.ber_total() {
            Progress::Ready(Some(total)) => Ok(self.read_exact(total)),
            _ => Ok(Progress::NeedMore),
        }
    }
}

/// Appends a byte to a big-endian number, losing what does not fit.
fn wrapping_append(number: usize, byte: u8) -> (appended: usize)
    ensures
        appended == (number * 0x100 + byte) % (usize::MAX + 1),
{
    let shifted: usize = number.wrapping_mul(0x100);
    let appended: usize = shifted.wrapping_add(byte as usize);
    proof {
        let m = usize::MAX + 1;
        assert(shifted == (number * 0x100) % m);
        vstd::arithmetic::div_mod::lemma_add_mod_noop(number * 0x100, byte as int, m);
        vstd::arithmetic::div_mod::lemma_small_mod(byte as nat, m as nat);
    }
    appended
}

/// The whole PDUs at the front of the bytes, in order, up to where more bytes are
/// needed or none can be read.
pub open spec fn whole_pdus(bytes: Seq<u8>) -> Seq<(Action, Seq<u8>)>
    decreases bytes.len(),
{
    match front_of(bytes) {
        Front::Pdu { action, len } => seq![(action, bytes.take(len))] + whole_pdus(bytes.skip(len)),
        _ => seq![],
    }
}

/// The bytes behind the whole PDUs.
pub open spec fn leftover(bytes: Seq<u8>) -> Seq<u8>
    decreases bytes.len(),
{
    match front_of(bytes) {
        Front::Pdu { action, len } => leftover(bytes.skip(len)),
        _ => bytes,
    }
}

/// Once the bytes decide what stands at their front, further bytes do not change it.
pub proof fn law_front_is_final(bytes: Seq<u8>, more: Seq<u8>)
    ensures
        !(front_of(bytes) is NeedMore) ==> front_of(bytes + more) == front_of(bytes),
{
    let all = bytes + more;
    assert forall|i: int| 0 <= i < bytes.len() implies all[i] == bytes[i] by {}
}

/// It does not matter where the stream is cut: the PDUs read after each of two pieces
/// are those of the two pieces joined, and the same bytes are left.
pub proof fn law_cuts_do_not_matter(first: Seq<u8>, second: Seq<u8>)
    ensures
        whole_pdus(first + second) == whole_pdus(first) + whole_pdus(leftover(first) + second),
        leftover(first + second) == leftover(leftover(first) + second),
    decreases first.len(),
{
    law_front_is_final(first, second);
    match front_of(first) {
        Front::Pdu { action, len } => {
            law_cuts_do_not_matter(first.skip(len), second);
            assert((first + second).skip(len) =~= first.skip(len) + second);
            assert((first + second).take(len) =~= first.take(len));
            assert(whole_pdus(first + second) =~= whole_pdus(first) + whole_pdus(leftover(first) + second));
        },
        _ => {
            assert(whole_pdus(first) =~= seq![]);
            assert(whole_pdus(first + second) =~= whole_pdus(first) + whole_pdus(leftover(first) + second));
        },
    }
}

/// No byte is lost or made up: the PDUs read and the bytes left over are, joined, the
/// bytes that came.
pub proof fn law_every_byte_is_kept(bytes: Seq<u8>)
    ensures
        whole_pdus(bytes).map_values(|p: (Action, Seq<u8>)| p.1).flatten() + leftover(bytes) == bytes,
    decreases bytes.len(),
{
    let payload = |p: (Action, Seq<u8>)| p.1;
    match front_of(bytes) {
        Front::Pdu { action, len } => {
            let rest = bytes.skip(len);
            law_every_byte_is_kept(rest);
            let parts = whole_pdus(bytes).map_values(payload);
            let later = whole_pdus(rest).map_values(payload);
            assert(parts =~= seq![bytes.take(len)] + later);
            assert(parts.drop_first() =~= later);
            assert(parts.flatten() == bytes.take(len) + later.flatten());
            assert(parts.flatten() + leftover(bytes) =~= bytes.take(len) + (later.flatten() + leftover(rest)));
            assert(bytes.take(len) + rest =~= bytes);
        },
        _ => {
            assert(whole_pdus(bytes).map_values(payload) =~= Seq::<Seq<u8>>::empty());
            assert(whole_pdus(bytes).map_values(payload).flatten() =~= Seq::<u8>::empty());
        },
    }
}

/// The length of an authentication message, once known, is not changed by further
/// bytes.
pub proof fn law_message_length_is_final(bytes: Seq<u8>, more: Seq<u8>)
    ensures
        ber_length(bytes) is Known ==> ber_length(bytes + more) == ber_length(bytes),
{
    if bytes.len() >= 2 {
        let n = (bytes[1] & 0x7F) as int;
        if bytes.len() >= 2 + n {
            assert((bytes + more).subrange(2, 2 + n) =~= bytes.subrange(2, 2 + n));
        }
    }
}

/// A PDU that carries its own length is read back whole: one that begins with a TPKT header
/// (3, a byte, the length in two bytes, the higher first) and is as long as the header says
/// is taken from the front of the stream as one X.224 PDU, whatever follows it, and what
/// follows is read next.
pub proof fn law_tpkt_pdu_is_taken_whole(pdu: Seq<u8>, rest: Seq<u8>)
    requires
        pdu.len() >= 4,
        pdu[0] == 3,
        pdu.len() == pdu[2] * 256 + pdu[3],
    ensures
        front_of(pdu + rest) == (Front::Pdu { action: Action::X224, len: pdu.len() as int }),
        x224_answer(pdu + rest) == HintAnswer::Size(pdu.len() as usize),
        whole_pdus(pdu + rest) == seq![(Action::X224, pdu)] + whole_pdus(rest),
        leftover(pdu + rest) == leftover(rest),
{
    let all = pdu + rest;
    let first = all[0];
    assert(first == 3);
    assert(3u8 & 3 == 3) by (bit_vector);
    assert(all[2] == pdu[2] && all[3] == pdu[3]);
    assert(all.take(pdu.len() as int) =~= pdu);
    assert(all.skip(pdu.len() as int) =~= rest);
}

/// A header that names a length is believed as it stands: the bytes behind a TPKT header
/// are taken up to exactly the length named, and none before that many are there. A length
/// of nothing is refused.
pub proof fn law_tpkt_length_decides(bytes: Seq<u8>)
    requires
        bytes.len() >= 4,
        bytes[0] == 3,
    ensures
        ({
            let len = bytes[2] * 256 + bytes[3];
            &&& len == 0 ==> front_of(bytes) == Front::Failed(FramedError::ZeroLength)
            &&& 0 < len <= bytes.len() ==> front_of(bytes) == (Front::Pdu { action: Action::X224, len })
            &&& len > bytes.len() ==> front_of(bytes) is NeedMore && whole_pdus(bytes).len() == 0 && leftover(bytes)
                == bytes
        }),
{
    assert(3u8 & 3 == 3) by (bit_vector);
}

/// A fast-path PDU that carries its own length is read back whole, in either form of the
/// length: one byte below 128, or two bytes, the higher first, with the top bit set.
pub proof fn law_fast_path_pdu_is_taken_whole(pdu: Seq<u8>, rest: Seq<u8>)
    requires
        pdu.len() >= 2,
        pdu[0] % 4 == 0,
        pdu[1] < 0x80 ==> pdu.len() == pdu[1],
        pdu[1] >= 0x80 ==> pdu.len() >= 3 && pdu.len() == (pdu[1] - 0x80) * 256 + pdu[2],
    ensures
        front_of(pdu + rest) == (Front::Pdu { action: Action::FastPath, len: pdu.len() as int }),
        whole_pdus(pdu + rest) == seq![(Action::FastPath, pdu)] + whole_pdus(rest),
        leftover(pdu + rest) == leftover(rest),
{
    let all = pdu + rest;
    let (first, second) = (all[0], all[1]);
    assert(first == pdu[0] && second == pdu[1]);
    assert(first & 3 == 0) by (bit_vector)
        requires
            first % 4 == 0,
    ;
    lemma_length_byte(second);
    assert(pdu.len() >= 3 ==> all[2] == pdu[2]);
    assert(all.take(pdu.len() as int) =~= pdu);
    assert(all.skip(pdu.len() as int) =~= rest);
}

/// A fast-path PDU is not taken before all of it is there, and one that says it is empty is
/// refused, in either form of the length.
pub proof fn law_fast_path_length_decides(bytes: Seq<u8>)
    requires
        bytes.len() >= 2,
        bytes[0] % 4 == 0,
    ensures
        bytes[1] == 0 ==> front_of(bytes) == Front::Failed(FramedError::ZeroLength),
        bytes.len() < bytes[1] < 0x80 ==> front_of(bytes) is NeedMore,
        bytes[1] >= 0x80 && bytes.len() == 2 ==> front_of(bytes) is NeedMore,
        bytes[1] == 0x80 && bytes.len() >= 3 && bytes[2] == 0 ==> front_of(bytes) == Front::Failed(
            FramedError::ZeroLength,
        ),
        bytes[1] >= 0x80 && 3 <= bytes.len() < (bytes[1] - 0x80) * 256 + bytes[2] ==> front_of(bytes) is NeedMore,
{
    let (first, second) = (bytes[0], bytes[1]);
    assert(first & 3 == 0) by (bit_vector)
        requires
            first % 4 == 0,
    ;
    lemma_length_byte(second);
}

proof fn lemma_length_byte(byte: u8)
    ensures
        byte & 0x80 == 0 <==> byte < 0x80,
        byte < 0x80 ==> byte & 0x7F == byte,
        byte >= 0x80 ==> byte & 0x7F == byte - 0x80,
{
    assert(byte & 0x80 == 0 <==> byte < 0x80) by (bit_vector);
    assert(byte < 0x80 ==> byte & 0x7F == byte) by (bit_vector);
    assert(byte >= 0x80 ==> byte & 0x7F == byte - 0x80) by (bit_vector);
}

/// A first byte that names neither framing is refused as soon as two bytes are there, with
/// its two low bits in the error; nothing is taken.
pub proof fn law_unknown_framing_is_refused(bytes: Seq<u8>)
    requires
        bytes.len() >= 2,
        bytes[0] % 4 == 1 || bytes[0] % 4 == 2,
    ensures
        front_of(bytes) == Front::Failed(FramedError::UnknownAction((bytes[0] % 4) as u8)),
        whole_pdus(bytes).len() == 0,
{
    let first = bytes[0];
    assert(first & 3 == first % 4) by (bit_vector);
}

/// An authentication message says how long it is: behind the tag comes the length of the
/// body, as one byte below 128, or as a number of bytes, with the top bit set, and then that
/// many bytes of length, the highest first. The message ends where its body ends.
pub proof fn law_message_is_header_and_body(tag: u8, size: Seq<u8>, body: Seq<u8>, rest: Seq<u8>)
    requires
        size.len() < 0x80,
        body.len() <= usize::MAX,
        size.len() > 0 ==> big_endian(size) == body.len(),
        size.len() == 0 ==> body.len() < 0x80,
    ensures
        ({
            let head = if size.len() == 0 {
                seq![tag, body.len() as u8]
            } else {
                seq![tag, (0x80 + size.len()) as u8] + size
            };
            ber_length(head + body + rest) == Length::Known((head + body).len() as int)
        }),
{
    let head = if size.len() == 0 {
        seq![tag, body.len() as u8]
    } else {
        seq![tag, (0x80 + size.len()) as u8] + size
    };
    let all = head + body + rest;
    lemma_length_byte(all[1]);
    if size.len() > 0 {
        assert(all[1] == 0x80 + size.len());
        assert(all.subrange(2, 2 + size.len() as int) =~= size);
        lemma_big_endian(size);
    }
}

/// The number that bytes write, the highest first.
pub open spec fn big_endian(bytes: Seq<u8>) -> int
    decreases bytes.len(),
{
    if bytes.len() == 0 {
        0
    } else {
        big_endian(bytes.drop_last()) * 256 + bytes.last()
    }
}

proof fn lemma_big_endian(bytes: Seq<u8>)
    requires
        big_endian(bytes) <= usize::MAX,
    ensures
        0 <= big_endian(bytes),
        ber_number(bytes) == big_endian(bytes),
    decreases bytes.len(),
{
    if bytes.len() > 0 {
        lemma_big_endian_grows(bytes.drop_last());
        lemma_big_endian(bytes.drop_last());
        vstd::arithmetic::div_mod::lemma_small_mod(big_endian(bytes) as nat, (usize::MAX + 1) as nat);
    }
}

proof fn lemma_big_endian_grows(bytes: Seq<u8>)
    ensures
        0 <= big_endian(bytes),
    decreases bytes.len(),
{
    if bytes.len() > 0 {
        lemma_big_endian_grows(bytes.drop_last());
    }
}

/// What comes is kept behind what waits, byte by byte, and counted; a text is neither kept
/// nor counted.
pub proof fn law_messages_are_kept_and_counted(bytes: Seq<u8>, stats: SessionStats, message: WsMessage)
    requires
        room_for(bytes, stats, message),
    ensures
        match message {
            WsMessage::Bytes(data) => {
                let (after, counts) = (kept(bytes, message), counted(stats, message));
                &&& after.len() == bytes.len() + data@.len()
                &&& after.take(bytes.len() as int) == bytes
                &&& after.skip(bytes.len() as int) == data@
                &&& counts.rx_bytes - stats.rx_bytes == data@.len()
                &&& counts.tx_bytes == stats.tx_bytes
            },
            WsMessage::Text(_) => kept(bytes, message) == bytes && counted(stats, message) == stats,
        },
{
    match message {
        WsMessage::Bytes(data) => {
            assert(kept(bytes, message).take(bytes.len() as int) =~= bytes);
            assert(kept(bytes, message).skip(bytes.len() as int) =~= data@);
        },
        WsMessage::Text(_) => {},
    }
}

/// Only a message that begins with the tag of a sequence says how long it is, so only such a one
/// can name a length that is no machine number.
pub proof fn law_only_sequences_name_a_length(bytes: Seq<u8>)
    ensures
        bytes.len() < 2 || bytes[0] != 0x30 ==> ber_fits(bytes),
        bytes.len() >= 2 && bytes[0] == 0x30 && ber_length(bytes) is Known && ber_length(bytes)->Known_0 > usize::MAX
            ==> !ber_fits(bytes),
        bytes.len() >= 2 && bytes[1] < 0x80 ==> ber_fits(bytes),
{
    if bytes.len() >= 2 {
        lemma_length_byte(bytes[1]);
    }
}

} // verus!
