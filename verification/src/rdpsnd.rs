//! Audio output: the client of the `rdpsnd` static channel and of its dynamic
//! twin, which differ only in how PDUs travel.
//!
//! The server offers its formats, the client answers with those it can play, the
//! server may train the connection, and then waves come. A wave can come in two
//! messages: the first holds its description and its first four bytes, the second
//! four bytes of padding and the rest.

use ironrdp::rdpsnd::pdu::ServerAudioFormatPdu as OutsideFormats;
use ironrdp::rdpsnd::pdu::ServerAudioOutputPdu as OutsidePdu;
use ironrdp_core::{Decode, ReadCursor};
use vstd::prelude::*;

use crate::wire::{copied, get_le16, le16_at, put_bytes};

verus! {

/// Message type of the first message of a two-message wave.
pub const SNDC_WAVE: u8 = 0x02;

/// The client is capable of consuming audio data.
pub const AUDIO_FORMAT_FLAG_ALIVE: u32 = 0x0000_0001;

/// The first version that knows quality modes.
pub const VERSION_6: u16 = 6;

/// High quality.
pub const QUALITY_MODE_HIGH: u16 = 0x0002;

/// The name of the static channel, without its padding to 8 bytes.
pub const RDPSND_CHANNEL_NAME: &'static str = "rdpsnd";

/// The name of the dynamic channel.
pub const RDPSND_DVC_CHANNEL_NAME: &'static str = "AUDIO_PLAYBACK_DVC";

/// An audio format: the codec's tag, the sampling, and the codec's own data.
#[derive(Debug, PartialEq, Eq)]
pub struct AudioFormat {
    pub format: u16,
    pub n_channels: u16,
    pub n_samples_per_sec: u32,
    pub n_avg_bytes_per_sec: u32,
    pub n_block_align: u16,
    pub bits_per_sample: u16,
    pub data: Option<Vec<u8>>,
}

/// The mathematical value of an [`AudioFormat`].
pub struct AudioFormatView {
    pub format: u16,
    pub n_channels: u16,
    pub n_samples_per_sec: u32,
    pub n_avg_bytes_per_sec: u32,
    pub n_block_align: u16,
    pub bits_per_sample: u16,
    pub data: Option<Seq<u8>>,
}

impl View for AudioFormat {
    type V = AudioFormatView;

    open spec fn view(&self) -> AudioFormatView {
        AudioFormatView {
            format: self.format,
            n_channels: self.n_channels,
            n_samples_per_sec: self.n_samples_per_sec,
            n_avg_bytes_per_sec: self.n_avg_bytes_per_sec,
            n_block_align: self.n_block_align,
            bits_per_sample: self.bits_per_sample,
            data: match self.data {
                Some(data) => Some(data@),
                None => None,
            },
        }
    }
}

/// The mathematical values of a run of formats.
pub open spec fn format_views(formats: Seq<AudioFormat>) -> Seq<AudioFormatView> {
    formats.map_values(|format: AudioFormat| format@)
}

impl AudioFormat {
    /// A copy of the format.
    pub fn duplicate(&self) -> (copy: AudioFormat)
        ensures
            copy@ == self@,
    {
        AudioFormat {
            format: self.format,
            n_channels: self.n_channels,
            n_samples_per_sec: self.n_samples_per_sec,
            n_avg_bytes_per_sec: self.n_avg_bytes_per_sec,
            n_block_align: self.n_block_align,
            bits_per_sample: self.bits_per_sample,
            data: match &self.data {
                Some(data) => Some(copied(data.as_slice())),
                None => None,
            },
        }
    }
}

/// The server's version and the formats it offers.
#[derive(Debug, PartialEq, Eq)]
pub struct ServerAudioFormatPdu {
    pub version: u16,
    pub formats: Vec<AudioFormat>,
}

/// A training message, to be echoed.
#[derive(Debug, Clone, Copy, PartialEq, Eq)]
pub struct TrainingPdu {
    pub timestamp: u16,
    pub pack_size: u16,
}

/// The first part of a two-message wave.
#[derive(Debug, Clone, Copy, PartialEq, Eq)]
pub struct WaveInfoPdu {
    pub timestamp: u16,
    pub format_no: u16,
    pub block_no: u8,
    pub data: [u8; 4],
}

/// The mathematical value of a [`WaveInfoPdu`].
pub struct WaveInfoView {
    pub timestamp: u16,
    pub format_no: u16,
    pub block_no: u8,
    pub data: Seq<u8>,
}

impl View for WaveInfoPdu {
    type V = WaveInfoView;

    open spec fn view(&self) -> WaveInfoView {
        WaveInfoView {
            timestamp: self.timestamp,
            format_no: self.format_no,
            block_no: self.block_no,
            data: self.data@,
        }
    }
}

/// A wave in one message.
#[derive(Debug, PartialEq, Eq)]
pub struct Wave2Pdu {
    pub timestamp: u16,
    pub format_no: u16,
    pub block_no: u8,
    pub audio_timestamp: u32,
    pub data: Vec<u8>,
}

/// The volume of both channels.
#[derive(Debug, Clone, Copy, PartialEq, Eq)]
pub struct VolumePdu {
    pub volume_left: u16,
    pub volume_right: u16,
}

/// The pitch, in 16.16 fixed point.
#[derive(Debug, Clone, Copy, PartialEq, Eq)]
pub struct PitchPdu {
    pub pitch: u32,
}

/// A server message.
#[derive(Debug, PartialEq, Eq)]
pub enum ServerAudioOutputPdu {
    AudioFormat(ServerAudioFormatPdu),
    Training(TrainingPdu),
    Wave2(Wave2Pdu),
    Volume(VolumePdu),
    Pitch(PitchPdu),
    Close,
    /// Encryption keys and encrypted waves, which the client does not use.
    Other,
}

/// The mathematical value of a [`ServerAudioOutputPdu`].
pub enum ServerAudioView {
    AudioFormat(u16, Seq<AudioFormatView>),
    Training(TrainingPdu),
    Wave2 { timestamp: u16, format_no: u16, block_no: u8, audio_timestamp: u32, data: Seq<u8> },
    Volume(VolumePdu),
    Pitch(PitchPdu),
    Close,
    Other,
}

impl View for ServerAudioOutputPdu {
    type V = ServerAudioView;

    open spec fn view(&self) -> ServerAudioView {
        match *self {
            ServerAudioOutputPdu::AudioFormat(af) => ServerAudioView::AudioFormat(
                af.version,
                format_views(af.formats@),
            ),
            ServerAudioOutputPdu::Training(t) => ServerAudioView::Training(t),
            ServerAudioOutputPdu::Wave2(w) => ServerAudioView::Wave2 {
                timestamp: w.timestamp,
                format_no: w.format_no,
                block_no: w.block_no,
                audio_timestamp: w.audio_timestamp,
                data: w.data@,
            },
            ServerAudioOutputPdu::Volume(v) => ServerAudioView::Volume(v),
            ServerAudioOutputPdu::Pitch(p) => ServerAudioView::Pitch(p),
            ServerAudioOutputPdu::Close => ServerAudioView::Close,
            ServerAudioOutputPdu::Other => ServerAudioView::Other,
        }
    }
}

/// The formats that the client can play, with its initial volume and pitch.
#[derive(Debug, PartialEq, Eq)]
pub struct ClientAudioFormatPdu {
    pub version: u16,
    pub flags: u32,
    pub formats: Vec<AudioFormat>,
    pub volume_left: u16,
    pub volume_right: u16,
    pub pitch: u32,
    pub dgram_port: u16,
}

/// A client message.
#[derive(Debug, PartialEq, Eq)]
pub enum ClientAudioOutputPdu {
    AudioFormat(ClientAudioFormatPdu),
    QualityMode(u16),
    TrainingConfirm { timestamp: u16, pack_size: u16 },
    WaveConfirm { timestamp: u16, block_no: u8 },
}

/// The mathematical value of a [`ClientAudioOutputPdu`].
pub enum ClientAudioView {
    AudioFormat {
        version: u16,
        flags: u32,
        formats: Seq<AudioFormatView>,
        volume_left: u16,
        volume_right: u16,
        pitch: u32,
        dgram_port: u16,
    },
    QualityMode(u16),
    TrainingConfirm { timestamp: u16, pack_size: u16 },
    WaveConfirm { timestamp: u16, block_no: u8 },
}

impl View for ClientAudioOutputPdu {
    type V = ClientAudioView;

    open spec fn view(&self) -> ClientAudioView {
        match *self {
            ClientAudioOutputPdu::AudioFormat(pdu) => ClientAudioView::AudioFormat {
                version: pdu.version,
                flags: pdu.flags,
                formats: format_views(pdu.formats@),
                volume_left: pdu.volume_left,
                volume_right: pdu.volume_right,
                pitch: pdu.pitch,
                dgram_port: pdu.dgram_port,
            },
            ClientAudioOutputPdu::QualityMode(mode) => ClientAudioView::QualityMode(mode),
            ClientAudioOutputPdu::TrainingConfirm { timestamp, pack_size } => ClientAudioView::TrainingConfirm {
                timestamp,
                pack_size,
            },
            ClientAudioOutputPdu::WaveConfirm { timestamp, block_no } => ClientAudioView::WaveConfirm {
                timestamp,
                block_no,
            },
        }
    }
}

/// The mathematical values of a run of client messages.
pub open spec fn client_views(pdus: Seq<ClientAudioOutputPdu>) -> Seq<ClientAudioView> {
    pdus.map_values(|pdu: ClientAudioOutputPdu| pdu@)
}

/// Why a message is refused.
#[derive(Debug, Clone, Copy, PartialEq, Eq)]
pub enum RdpsndError {
    /// The message cannot be decoded.
    Decode,
    /// The server has not offered its formats yet.
    NoServerFormat,
    /// The wave names a format that was not negotiated.
    InvalidFormatNo,
}

/// What a handler is told.
pub enum SoundEvent {
    Wave { format: AudioFormatView, ts: u32, data: Seq<u8> },
    Volume(VolumePdu),
    Pitch(PitchPdu),
    Close,
}

/// Plays audio.
pub trait RdpsndClientHandler: Sized {
    /// How a handler may change when it is told of an event.
    spec fn handled(before: Self, event: SoundEvent, after: Self) -> bool;

    /// The codec tags that the handler can play.
    spec fn tags(&self) -> Seq<u16>;

    /// The capability flags of the handler.
    spec fn flags(&self) -> u32;

    fn get_flags(&self) -> (flags: u32)
        ensures
            flags == self.flags(),
    ;

    /// The codec tags that the handler can play: every server format with one of
    /// them is accepted, whatever its sampling.
    fn supported_formats(&self) -> (tags: &[u16])
        ensures
            tags@ == self.tags(),
    ;

    /// A wave in one of the negotiated formats.
    fn wave(&mut self, format: &AudioFormat, ts: u32, data: &[u8])
        ensures
            Self::handled(*old(self), (SoundEvent::Wave { format: format@, ts, data: data@ }), *final(self)),
    ;

    fn set_volume(&mut self, volume: VolumePdu)
        ensures
            Self::handled(*old(self), SoundEvent::Volume(volume), *final(self)),
    ;

    fn set_pitch(&mut self, pitch: PitchPdu)
        ensures
            Self::handled(*old(self), SoundEvent::Pitch(pitch), *final(self)),
    ;

    fn close(&mut self)
        ensures
            Self::handled(*old(self), SoundEvent::Close, *final(self)),
    ;
}

/// Plays nothing and accepts no format.
#[derive(Debug, Clone, Copy, PartialEq, Eq)]
pub struct NoopRdpsndBackend {
    pub nothing: (),
}

impl RdpsndClientHandler for NoopRdpsndBackend {
    open spec fn handled(before: Self, event: SoundEvent, after: Self) -> bool {
        after == before
    }

    open spec fn tags(&self) -> Seq<u16> {
        Seq::empty()
    }

    open spec fn flags(&self) -> u32 {
        0
    }

    fn get_flags(&self) -> u32 {
        0
    }

    fn supported_formats(&self) -> &[u16] {
        let none: &[u16] = &[];
        assert(none@ =~= Seq::<u16>::empty());
        none
    }

    fn wave(&mut self, format: &AudioFormat, ts: u32, data: &[u8]) {
    }

    fn set_volume(&mut self, volume: VolumePdu) {
    }

    fn set_pitch(&mut self, pitch: PitchPdu) {
    }

    fn close(&mut self) {
    }
}

/// Where the conversation stands.
#[derive(Debug, Copy, Clone, PartialEq, Eq, Structural)]
pub enum RdpsndState {
    Start,
    WaitingForTraining,
    Ready,
    Stop,
}

// ---------------------------------------------------------------------------
// What the client does
// ---------------------------------------------------------------------------
/// The mathematical value of an [`Rdpsnd`], its handler apart.
pub struct RdpsndView {
    pub state: RdpsndState,
    pub server_format: Option<(u16, Seq<AudioFormatView>)>,
    pub negotiated_formats: Seq<AudioFormatView>,
    pub pending_wave_info: Option<WaveInfoView>,
}

/// What one message leads to: the client afterwards, what its handler was told,
/// and the reply.
pub struct Outcome {
    pub after: RdpsndView,
    pub event: Option<SoundEvent>,
    pub reply: Result<Seq<ClientAudioView>, RdpsndError>,
}

/// The formats whose tag is among `tags`, in the order they were offered.
pub open spec fn accepted(formats: Seq<AudioFormatView>, tags: Seq<u16>) -> Seq<AudioFormatView>
    decreases formats.len(),
{
    if formats.len() == 0 {
        Seq::empty()
    } else if tags.contains(formats.last().format) {
        accepted(formats.drop_last(), tags).push(formats.last())
    } else {
        accepted(formats.drop_last(), tags)
    }
}

/// The reply to the server's formats, with the quality mode where the version
/// knows it.
pub open spec fn formats_reply(version: u16, flags: u32, formats: Seq<AudioFormatView>) -> Seq<ClientAudioView> {
    let first = ClientAudioView::AudioFormat {
        version,
        flags: flags | AUDIO_FORMAT_FLAG_ALIVE,
        formats,
        volume_left: 0xFFFF,
        volume_right: 0xFFFF,
        pitch: 0x0001_0000,
        dgram_port: 0,
    };
    if version >= VERSION_6 {
        seq![first, ClientAudioView::QualityMode(QUALITY_MODE_HIGH)]
    } else {
        seq![first]
    }
}

/// The negotiation that the server's formats start.
pub open spec fn negotiate(
    m: RdpsndView,
    tags: Seq<u16>,
    flags: u32,
    version: u16,
    formats: Seq<AudioFormatView>,
    event: Option<SoundEvent>,
) -> Outcome {
    let negotiated = accepted(formats, tags);
    Outcome {
        after: RdpsndView {
            state: RdpsndState::WaitingForTraining,
            server_format: Some((version, formats)),
            negotiated_formats: negotiated,
            ..m
        },
        event,
        reply: Ok(formats_reply(version, flags, negotiated)),
    }
}

/// A wave that is played and confirmed, if its format was negotiated.
pub open spec fn play(m: RdpsndView, format_no: u16, ts: u32, data: Seq<u8>, timestamp: u16, block_no: u8) -> Outcome {
    if format_no < m.negotiated_formats.len() {
        Outcome {
            after: m,
            event: Some(SoundEvent::Wave { format: m.negotiated_formats[format_no as int], ts, data }),
            reply: Ok(seq![ClientAudioView::WaveConfirm { timestamp, block_no }]),
        }
    } else {
        Outcome { after: m, event: None, reply: Err(RdpsndError::InvalidFormatNo) }
    }
}

/// The second part of a two-message wave: four bytes of padding, then the rest.
pub open spec fn wave_data_step(m: RdpsndView, info: WaveInfoView, payload: Seq<u8>) -> Outcome {
    let rest = if payload.len() < 4 {
        Seq::empty()
    } else {
        payload.skip(4)
    };
    play(m, info.format_no, info.timestamp as u32, info.data + rest, info.timestamp, info.block_no)
}

/// A message once the negotiation is over.
pub open spec fn ready_step(m: RdpsndView, tags: Seq<u16>, flags: u32, pdu: ServerAudioView) -> Outcome {
    match pdu {
        ServerAudioView::Wave2 { timestamp, format_no, block_no, audio_timestamp, data } => play(
            m,
            format_no,
            audio_timestamp,
            data,
            timestamp,
            block_no,
        ),
        ServerAudioView::Volume(volume) => Outcome {
            after: m,
            event: Some(SoundEvent::Volume(volume)),
            reply: Ok(Seq::empty()),
        },
        ServerAudioView::Pitch(pitch) => Outcome {
            after: m,
            event: Some(SoundEvent::Pitch(pitch)),
            reply: Ok(Seq::empty()),
        },
        ServerAudioView::Close => Outcome { after: m, event: Some(SoundEvent::Close), reply: Ok(Seq::empty()) },
        ServerAudioView::Training(t) => Outcome { after: m, event: None, reply: Ok(confirm_of(t)) },
        // A server that starts over ends the stream first.
        ServerAudioView::AudioFormat(version, formats) => negotiate(
            m,
            tags,
            flags,
            version,
            formats,
            Some(SoundEvent::Close),
        ),
        ServerAudioView::Other => Outcome { after: m, event: None, reply: Ok(Seq::empty()) },
    }
}

/// The confirmation of a training message, which echoes both its numbers.
pub open spec fn confirm_of(training: TrainingPdu) -> Seq<ClientAudioView> {
    seq![ClientAudioView::TrainingConfirm { timestamp: training.timestamp, pack_size: training.pack_size }]
}

/// A decoded message in any state. `tags` and `flags` are those of the handler
/// after the message.
pub open spec fn decoded_step(m: RdpsndView, tags: Seq<u16>, flags: u32, pdu: ServerAudioView) -> Outcome {
    match m.state {
        RdpsndState::Start => match pdu {
            ServerAudioView::AudioFormat(version, formats) => negotiate(m, tags, flags, version, formats, None),
            _ => Outcome {
                after: RdpsndView { state: RdpsndState::Stop, ..m },
                event: None,
                reply: Ok(Seq::empty()),
            },
        },
        // The server may leave the training out.
        RdpsndState::WaitingForTraining => ready_step(
            RdpsndView { state: RdpsndState::Ready, ..m },
            tags,
            flags,
            pdu,
        ),
        RdpsndState::Ready => ready_step(m, tags, flags, pdu),
        RdpsndState::Stop => Outcome { after: m, event: None, reply: Ok(Seq::empty()) },
    }
}

/// Whether a payload opens a two-message wave.
pub open spec fn opens_wave(payload: Seq<u8>) -> bool {
    payload.len() >= 4 && payload[0] == SNDC_WAVE
}

/// The description of a wave at offset `at`: timestamp, format number, block
/// number, three bytes of padding, the first four bytes of data.
pub open spec fn wave_info_at(payload: Seq<u8>, at: int) -> WaveInfoView {
    WaveInfoView {
        timestamp: le16_at(payload, at),
        format_no: le16_at(payload, at + 2),
        block_no: payload[at + 4],
        data: payload.subrange(at + 8, at + 12),
    }
}

/// The outcome of one message. `decoded` is what the message reads as when it is
/// no part of a two-message wave.
pub open spec fn pdu_step(
    m: RdpsndView,
    tags: Seq<u16>,
    flags: u32,
    payload: Seq<u8>,
    decoded: Result<ServerAudioView, RdpsndError>,
) -> Outcome {
    if m.pending_wave_info is Some {
        wave_data_step(RdpsndView { pending_wave_info: None, ..m }, m.pending_wave_info->0, payload)
    } else if opens_wave(payload) {
        if payload.len() < 16 {
            Outcome { after: m, event: None, reply: Err(RdpsndError::Decode) }
        } else if payload.len() >= 20 {
            wave_data_step(m, wave_info_at(payload, 4), payload.skip(16))
        } else {
            Outcome {
                after: RdpsndView { pending_wave_info: Some(wave_info_at(payload, 4)), ..m },
                event: None,
                reply: Ok(Seq::empty()),
            }
        }
    } else {
        match decoded {
            Ok(pdu) => decoded_step(m, tags, flags, pdu),
            Err(e) => Outcome { after: m, event: None, reply: Err(e) },
        }
    }
}

// ---------------------------------------------------------------------------
// Decoding, by the `ironrdp-rdpsnd` crate
// ---------------------------------------------------------------------------
/// A server message as the outside decoder tells it, without the list of formats
/// and without the size field of a training message.
pub enum DecodedAudio {
    /// The version.
    AudioFormat(u16),
    /// The timestamp.
    Training(u16),
    Wave2(Wave2Pdu),
    Volume(VolumePdu),
    Pitch(PitchPdu),
    Close,
    Other,
}

/// The mathematical value of a [`DecodedAudio`].
pub enum DecodedAudioView {
    AudioFormat(u16),
    Training(u16),
    Wave2 { timestamp: u16, format_no: u16, block_no: u8, audio_timestamp: u32, data: Seq<u8> },
    Volume(VolumePdu),
    Pitch(PitchPdu),
    Close,
    Other,
}

/// The mathematical value of what the outside decoder tells.
pub open spec fn decoded_view(decoded: Option<DecodedAudio>) -> Option<DecodedAudioView> {
    match decoded {
        None => None,
        Some(pdu) => Some(
            match pdu {
                DecodedAudio::AudioFormat(version) => DecodedAudioView::AudioFormat(version),
                DecodedAudio::Training(timestamp) => DecodedAudioView::Training(timestamp),
                DecodedAudio::Wave2(w) => DecodedAudioView::Wave2 {
                    timestamp: w.timestamp,
                    format_no: w.format_no,
                    block_no: w.block_no,
                    audio_timestamp: w.audio_timestamp,
                    data: w.data@,
                },
                DecodedAudio::Volume(v) => DecodedAudioView::Volume(v),
                DecodedAudio::Pitch(p) => DecodedAudioView::Pitch(p),
                DecodedAudio::Close => DecodedAudioView::Close,
                DecodedAudio::Other => DecodedAudioView::Other,
            },
        ),
    }
}

/// What `ironrdp_rdpsnd::pdu::ServerAudioOutputPdu::decode` reads from a payload;
/// `None` where it gives an error.
pub uninterp spec fn outside_audio_pdu(payload: Seq<u8>) -> Option<DecodedAudioView>;

/// The list of formats that `ironrdp_rdpsnd::pdu::ServerAudioFormatPdu::decode`
/// reads from the body of a formats message; `None` where it gives an error.
pub uninterp spec fn outside_audio_formats(body: Seq<u8>) -> Option<Seq<AudioFormatView>>;

/// Decodes a server message with `ServerAudioOutputPdu::decode`. Claimed: what it
/// reads depends on the payload alone and goes by the name [`outside_audio_pdu`];
/// a formats message is at least 24 bytes long (header 4, fixed part 20); a
/// training message is at least 8 bytes long and its timestamp stands at offset 4.
#[verifier::external_body]
fn decode_audio(payload: &[u8]) -> (decoded: Option<DecodedAudio>)
    ensures
        decoded_view(decoded) == outside_audio_pdu(payload@),
        decoded matches Some(DecodedAudio::AudioFormat(_)) ==> payload@.len() >= 24,
        decoded matches Some(DecodedAudio::Training(timestamp)) ==> payload@.len() >= 8 && timestamp == le16_at(
            payload@,
            4,
        ),
{
    Some(match OutsidePdu::decode(&mut ReadCursor::new(payload)).ok()? {
        OutsidePdu::AudioFormat(a) => DecodedAudio::AudioFormat(a.version.into()),
        OutsidePdu::Training(t) => DecodedAudio::Training(t.timestamp),
        OutsidePdu::Wave2(w) => DecodedAudio::Wave2(
            Wave2Pdu { timestamp: w.timestamp, format_no: w.format_no, block_no: w.block_no,
                audio_timestamp: w.audio_timestamp, data: w.data.into_owned() }),
        OutsidePdu::Volume(v) => DecodedAudio::Volume(
            VolumePdu { volume_left: v.volume_left, volume_right: v.volume_right }),
        OutsidePdu::Pitch(p) => DecodedAudio::Pitch(PitchPdu { pitch: p.pitch }),
        OutsidePdu::Close => DecodedAudio::Close,
        _ => DecodedAudio::Other,
    })
}

/// Decodes the body of a formats message with `ServerAudioFormatPdu::decode` and
/// hands out its formats, field by field. Claimed: the list depends on the body
/// alone and goes by the name [`outside_audio_formats`]. The crate shows a codec
/// tag only in its `Debug` form, which is the number.
#[verifier::external_body]
fn decode_audio_formats(body: &[u8]) -> (formats: Option<Vec<AudioFormat>>)
    ensures
        match formats {
            Some(list) => outside_audio_formats(body@) == Some(format_views(list@)),
            None => outside_audio_formats(body@) is None,
        },
{
    let pdu = OutsideFormats::decode(&mut ReadCursor::new(body)).ok()?;
    Some(pdu.formats.into_iter().map(|f| AudioFormat {
        format: format!("{:?}", f.format).parse().unwrap_or(0),
        n_channels: f.n_channels,
        n_samples_per_sec: f.n_samples_per_sec,
        n_avg_bytes_per_sec: f.n_avg_bytes_per_sec,
        n_block_align: f.n_block_align,
        bits_per_sample: f.bits_per_sample,
        data: f.data,
    }).collect())
}

/// What a payload reads as: the outside decoder's message, a formats message with
/// the list that follows the 4-byte header, a training message with its size
/// field, which stands at offset 6.
pub open spec fn server_audio_pdu(payload: Seq<u8>) -> Result<ServerAudioView, RdpsndError> {
    match outside_audio_pdu(payload) {
        None => Err(RdpsndError::Decode),
        Some(pdu) => match pdu {
            DecodedAudioView::AudioFormat(version) => match outside_audio_formats(payload.skip(4)) {
                Some(formats) => Ok(ServerAudioView::AudioFormat(version, formats)),
                None => Err(RdpsndError::Decode),
            },
            DecodedAudioView::Training(timestamp) => Ok(
                ServerAudioView::Training(TrainingPdu { timestamp, pack_size: le16_at(payload, 6) }),
            ),
            DecodedAudioView::Wave2 { timestamp, format_no, block_no, audio_timestamp, data } => Ok(
                ServerAudioView::Wave2 { timestamp, format_no, block_no, audio_timestamp, data },
            ),
            DecodedAudioView::Volume(v) => Ok(ServerAudioView::Volume(v)),
            DecodedAudioView::Pitch(p) => Ok(ServerAudioView::Pitch(p)),
            DecodedAudioView::Close => Ok(ServerAudioView::Close),
            DecodedAudioView::Other => Ok(ServerAudioView::Other),
        },
    }
}

/// Decodes one whole server message.
pub fn decode_server_audio(payload: &[u8]) -> (pdu: Result<ServerAudioOutputPdu, RdpsndError>)
    ensures
        match pdu {
            Ok(p) => server_audio_pdu(payload@) == Ok::<ServerAudioView, RdpsndError>(p@),
            Err(e) => server_audio_pdu(payload@) == Err::<ServerAudioView, RdpsndError>(e),
        },
{
    let decoded = match decode_audio(payload) {
        Some(decoded) => decoded,
        None => return Err(RdpsndError::Decode),
    };
    match decoded {
        DecodedAudio::AudioFormat(version) => {
            let body = vstd::slice::slice_subrange(payload, 4, payload.len());
            assert(body@ =~= payload@.skip(4));
            match decode_audio_formats(body) {
                Some(formats) => Ok(ServerAudioOutputPdu::AudioFormat(ServerAudioFormatPdu { version, formats })),
                None => Err(RdpsndError::Decode),
            }
        }
        DecodedAudio::Training(timestamp) => {
            let pack_size: u16 = get_le16(payload, 6);
            Ok(ServerAudioOutputPdu::Training(TrainingPdu { timestamp, pack_size }))
        }
        DecodedAudio::Wave2(wave) => Ok(ServerAudioOutputPdu::Wave2(wave)),
        DecodedAudio::Volume(volume) => Ok(ServerAudioOutputPdu::Volume(volume)),
        DecodedAudio::Pitch(pitch) => Ok(ServerAudioOutputPdu::Pitch(pitch)),
        DecodedAudio::Close => Ok(ServerAudioOutputPdu::Close),
        DecodedAudio::Other => Ok(ServerAudioOutputPdu::Other),
    }
}


// ---------------------------------------------------------------------------
// The client
// ---------------------------------------------------------------------------
/// The client of the audio channel.
pub struct Rdpsnd<H: RdpsndClientHandler> {
    pub handler: H,
    pub state: RdpsndState,
    pub server_format: Option<ServerAudioFormatPdu>,
    /// The formats that were sent to the server, which waves name by their place.
    pub negotiated_formats: Vec<AudioFormat>,
    /// The first part of a wave whose second part has not come yet.
    pub pending_wave_info: Option<WaveInfoPdu>,
}

impl<H: RdpsndClientHandler> View for Rdpsnd<H> {
    type V = RdpsndView;

    open spec fn view(&self) -> RdpsndView {
        RdpsndView {
            state: self.state,
            server_format: match self.server_format {
                Some(af) => Some((af.version, format_views(af.formats@))),
                None => None,
            },
            negotiated_formats: format_views(self.negotiated_formats@),
            pending_wave_info: match self.pending_wave_info {
                Some(info) => Some(info@),
                None => None,
            },
        }
    }
}

/// The mathematical value of a reply.
pub open spec fn reply_view(reply: Result<Vec<ClientAudioOutputPdu>, RdpsndError>) -> Result<
    Seq<ClientAudioView>,
    RdpsndError,
> {
    match reply {
        Ok(pdus) => Ok(client_views(pdus@)),
        Err(e) => Err(e),
    }
}

/// Whether a handler was told of exactly this event, or of nothing.
pub open spec fn told<H: RdpsndClientHandler>(before: H, event: Option<SoundEvent>, after: H) -> bool {
    match event {
        Some(e) => H::handled(before, e, after),
        None => after == before,
    }
}

/// Whether a client went from `before` to `after` as `outcome` says.
pub open spec fn carried_out<H: RdpsndClientHandler>(
    before: Rdpsnd<H>,
    outcome: Outcome,
    after: Rdpsnd<H>,
    reply: Result<Vec<ClientAudioOutputPdu>, RdpsndError>,
) -> bool {
    &&& after@ == outcome.after
    &&& told(before.handler, outcome.event, after.handler)
    &&& reply_view(reply) == outcome.reply
}

/// A client that has not heard from its server.
pub open spec fn fresh() -> RdpsndView {
    RdpsndView {
        state: RdpsndState::Start,
        server_format: None,
        negotiated_formats: Seq::empty(),
        pending_wave_info: None,
    }
}

fn one(pdu: ClientAudioOutputPdu) -> (pdus: Vec<ClientAudioOutputPdu>)
    ensures
        client_views(pdus@) == seq![pdu@],
{
    let mut pdus: Vec<ClientAudioOutputPdu> = Vec::new();
    pdus.push(pdu);
    assert(client_views(pdus@) =~= seq![pdu@]);
    pdus
}

fn none() -> (pdus: Vec<ClientAudioOutputPdu>)
    ensures
        client_views(pdus@) == Seq::<ClientAudioView>::empty(),
{
    let pdus: Vec<ClientAudioOutputPdu> = Vec::new();
    assert(client_views(pdus@) =~= Seq::<ClientAudioView>::empty());
    pdus
}

fn has_tag(tags: &[u16], tag: u16) -> (found: bool)
    ensures
        found == tags@.contains(tag),
{
    let mut i: usize = 0;
    while i < tags.len()
        invariant
            i <= tags@.len(),
            forall|j: int| 0 <= j < i ==> tags@[j] != tag,
        decreases tags@.len() - i,
    {
        if tags[i] == tag {
            assert(tags@[i as int] == tag);
            return true;
        }
        i = i + 1;
    }
    false
}

fn filter_formats(formats: &Vec<AudioFormat>, tags: &[u16]) -> (list: Vec<AudioFormat>)
    ensures
        format_views(list@) == accepted(format_views(formats@), tags@),
{
    let mut list: Vec<AudioFormat> = Vec::new();
    let ghost all = format_views(formats@);
    let mut i: usize = 0;
    assert(format_views(list@) =~= accepted(all.take(0), tags@));
    while i < formats.len()
        invariant
            i <= formats@.len(),
            all == format_views(formats@),
            format_views(list@) == accepted(all.take(i as int), tags@),
        decreases formats@.len() - i,
    {
        let ghost before = list@;
        proof {
            assert(all.take(i + 1).drop_last() =~= all.take(i as int));
            assert(all.take(i + 1).last() == formats@[i as int]@);
        }
        if has_tag(tags, formats[i].format) {
            let copy = formats[i].duplicate();
            list.push(copy);
            assert(format_views(list@) =~= format_views(before).push(copy@));
        }
        i = i + 1;
    }
    assert(all.take(i as int) =~= all);
    list
}

fn duplicate_formats(formats: &Vec<AudioFormat>) -> (list: Vec<AudioFormat>)
    ensures
        format_views(list@) == format_views(formats@),
{
    let mut list: Vec<AudioFormat> = Vec::with_capacity(formats.len());
    let mut i: usize = 0;
    while i < formats.len()
        invariant
            i <= formats@.len(),
            list@.len() == i,
            forall|j: int| 0 <= j < i ==> #[trigger] list@[j]@ == formats@[j]@,
        decreases formats@.len() - i,
    {
        list.push(formats[i].duplicate());
        i = i + 1;
    }
    assert(format_views(list@) =~= format_views(formats@));
    list
}

impl<H: RdpsndClientHandler> Rdpsnd<H> {
    pub fn new(handler: H) -> (client: Self)
        ensures
            client@ == fresh(),
            client.handler == handler,
    {
        let client = Rdpsnd {
            handler,
            state: RdpsndState::Start,
            server_format: None,
            negotiated_formats: Vec::new(),
            pending_wave_info: None,
        };
        assert(client@.negotiated_formats =~= Seq::<AudioFormatView>::empty());
        client
    }

    /// The server's version, once it is known.
    pub fn version(&self) -> (version: Result<u16, RdpsndError>)
        ensures
            version == (match self@.server_format {
                Some(af) => Ok::<u16, RdpsndError>(af.0),
                None => Err(RdpsndError::NoServerFormat),
            }),
    {
        match &self.server_format {
            Some(af) => Ok(af.version),
            None => Err(RdpsndError::NoServerFormat),
        }
    }

    /// Chooses the formats that the handler can play and tells the server.
    pub fn client_formats(&mut self) -> (reply: Result<Vec<ClientAudioOutputPdu>, RdpsndError>)
        ensures
            final(self).handler == old(self).handler,
            match old(self)@.server_format {
                Some(af) => {
                    let negotiated = accepted(af.1, old(self).handler.tags());
                    &&& final(self)@ == (RdpsndView { negotiated_formats: negotiated, ..old(self)@ })
                    &&& reply_view(reply) == Ok::<Seq<ClientAudioView>, RdpsndError>(
                        seq![formats_reply(af.0, old(self).handler.flags(), negotiated)[0]],
                    )
                },
                None => final(self)@ == old(self)@ && reply == Err::<Vec<ClientAudioOutputPdu>, RdpsndError>(
                    RdpsndError::NoServerFormat,
                ),
            },
    {
        let (version, negotiated) = match &self.server_format {
            Some(af) => (af.version, filter_formats(&af.formats, self.handler.supported_formats())),
            None => return Err(RdpsndError::NoServerFormat),
        };
        let flags: u32 = self.handler.get_flags() | AUDIO_FORMAT_FLAG_ALIVE;
        let formats = duplicate_formats(&negotiated);
        self.negotiated_formats = negotiated;
        Ok(
            one(
                ClientAudioOutputPdu::AudioFormat(
                    ClientAudioFormatPdu {
                        version,
                        flags,
                        formats,
                        volume_left: 0xFFFF,
                        volume_right: 0xFFFF,
                        pitch: 0x0001_0000,
                        dgram_port: 0,
                    },
                ),
            ),
        )
    }

    /// Asks for high quality.
    pub fn quality_mode(&mut self) -> (reply: Result<Vec<ClientAudioOutputPdu>, RdpsndError>)
        ensures
            *final(self) == *old(self),
            reply_view(reply) == Ok::<Seq<ClientAudioView>, RdpsndError>(
                seq![ClientAudioView::QualityMode(QUALITY_MODE_HIGH)],
            ),
    {
        Ok(one(ClientAudioOutputPdu::QualityMode(QUALITY_MODE_HIGH)))
    }

    /// Echoes both numbers of a training message: servers check them.
    pub fn training_confirm(&mut self, pdu: &TrainingPdu) -> (reply: Result<Vec<ClientAudioOutputPdu>, RdpsndError>)
        ensures
            *final(self) == *old(self),
            reply_view(reply) == Ok::<Seq<ClientAudioView>, RdpsndError>(confirm_of(*pdu)),
    {
        Ok(one(ClientAudioOutputPdu::TrainingConfirm { timestamp: pdu.timestamp, pack_size: pdu.pack_size }))
    }

    /// Confirms a wave.
    pub fn wave_confirm(&mut self, timestamp: u16, block_no: u8) -> (reply: Result<
        Vec<ClientAudioOutputPdu>,
        RdpsndError,
    >)
        ensures
            *final(self) == *old(self),
            reply_view(reply) == Ok::<Seq<ClientAudioView>, RdpsndError>(
                seq![ClientAudioView::WaveConfirm { timestamp, block_no }],
            ),
    {
        Ok(one(ClientAudioOutputPdu::WaveConfirm { timestamp, block_no }))
    }

    /// Plays a wave in the negotiated format of that number, and confirms it.
    fn play_wave(&mut self, format_no: u16, ts: u32, data: &[u8], timestamp: u16, block_no: u8) -> (reply: Result<
        Vec<ClientAudioOutputPdu>,
        RdpsndError,
    >)
        ensures
            carried_out(
                *old(self),
                play(old(self)@, format_no, ts, data@, timestamp, block_no),
                *final(self),
                reply,
            ),
    {
        let at: usize = format_no as usize;
        if at >= self.negotiated_formats.len() {
            return Err(RdpsndError::InvalidFormatNo);
        }
        self.handler.wave(&self.negotiated_formats[at], ts, data);
        self.wave_confirm(timestamp, block_no)
    }

    /// Handles the second part of a two-message wave.
    pub fn process_wave_data(&mut self, wave_info: WaveInfoPdu, payload: &[u8]) -> (reply: Result<
        Vec<ClientAudioOutputPdu>,
        RdpsndError,
    >)
        ensures
            carried_out(*old(self), wave_data_step(old(self)@, wave_info@, payload@), *final(self), reply),
    {
        let padding: usize = if payload.len() < 4 {
            payload.len()
        } else {
            4
        };
        let mut data: Vec<u8> = Vec::new();
        data.push(wave_info.data[0]);
        data.push(wave_info.data[1]);
        data.push(wave_info.data[2]);
        data.push(wave_info.data[3]);
        put_bytes(&mut data, vstd::slice::slice_subrange(payload, padding, payload.len()));
        proof {
            let rest = if payload@.len() < 4 {
                Seq::empty()
            } else {
                payload@.skip(4)
            };
            assert(data@ =~= wave_info.data@ + rest);
        }
        self.play_wave(
            wave_info.format_no,
            wave_info.timestamp as u32,
            data.as_slice(),
            wave_info.timestamp,
            wave_info.block_no,
        )
    }

    /// Stores the server's formats and answers them.
    fn negotiate(&mut self, af: ServerAudioFormatPdu) -> (reply: Result<Vec<ClientAudioOutputPdu>, RdpsndError>)
        ensures
            final(self).handler == old(self).handler,
            ({
                let outcome = negotiate(
                    old(self)@,
                    old(self).handler.tags(),
                    old(self).handler.flags(),
                    af.version,
                    format_views(af.formats@),
                    None,
                );
                final(self)@ == outcome.after && reply_view(reply) == outcome.reply
            }),
    {
        let ghost version = af.version;
        let ghost flags = self.handler.flags();
        let ghost negotiated = accepted(format_views(af.formats@), self.handler.tags());
        let wants_quality: bool = af.version >= VERSION_6;
        self.server_format = Some(af);
        self.state = RdpsndState::WaitingForTraining;
        match self.client_formats() {
            Ok(mut pdus) => {
                if wants_quality {
                    let ghost first = pdus@;
                    match self.quality_mode() {
                        Ok(mut quality) => {
                            let ghost second = quality@;
                            pdus.append(&mut quality);
                            assert(client_views(pdus@) =~= client_views(first) + client_views(second));
                        }
                        Err(e) => return Err(e),
                    }
                }
                assert(client_views(pdus@) =~= formats_reply(version, flags, negotiated));
                Ok(pdus)
            }
            Err(e) => Err(e),
        }
    }

    /// Handles a message once the negotiation is over.
    fn process_ready_pdu(&mut self, pdu: ServerAudioOutputPdu) -> (reply: Result<
        Vec<ClientAudioOutputPdu>,
        RdpsndError,
    >)
        ensures
            carried_out(
                *old(self),
                ready_step(old(self)@, final(self).handler.tags(), final(self).handler.flags(), pdu@),
                *final(self),
                reply,
            ),
    {
        match pdu {
            ServerAudioOutputPdu::Wave2(wave) => {
                self.play_wave(
                    wave.format_no,
                    wave.audio_timestamp,
                    wave.data.as_slice(),
                    wave.timestamp,
                    wave.block_no,
                )
            }
            ServerAudioOutputPdu::Volume(volume) => {
                self.handler.set_volume(volume);
                Ok(none())
            }
            ServerAudioOutputPdu::Pitch(pitch) => {
                self.handler.set_pitch(pitch);
                Ok(none())
            }
            ServerAudioOutputPdu::Close => {
                self.handler.close();
                Ok(none())
            }
            ServerAudioOutputPdu::Training(training) => self.training_confirm(&training),
            ServerAudioOutputPdu::AudioFormat(af) => {
                self.handler.close();
                self.negotiate(af)
            }
            ServerAudioOutputPdu::Other => Ok(none()),
        }
    }

    /// Handles one decoded server message.
    pub fn handle_decoded(&mut self, pdu: ServerAudioOutputPdu) -> (reply: Result<
        Vec<ClientAudioOutputPdu>,
        RdpsndError,
    >)
        ensures
            carried_out(
                *old(self),
                decoded_step(old(self)@, final(self).handler.tags(), final(self).handler.flags(), pdu@),
                *final(self),
                reply,
            ),
    {
        match self.state {
            RdpsndState::Start => match pdu {
                ServerAudioOutputPdu::AudioFormat(af) => self.negotiate(af),
                _ => {
                    self.state = RdpsndState::Stop;
                    Ok(none())
                }
            },
            RdpsndState::WaitingForTraining => {
                self.state = RdpsndState::Ready;
                self.process_ready_pdu(pdu)
            }
            RdpsndState::Ready => self.process_ready_pdu(pdu),
            RdpsndState::Stop => Ok(none()),
        }
    }

    /// One whole server message in, the client's replies out.
    pub fn handle_pdu(&mut self, payload: &[u8]) -> (reply: Result<Vec<ClientAudioOutputPdu>, RdpsndError>)
        ensures
            carried_out(
                *old(self),
                pdu_step(
                    old(self)@,
                    final(self).handler.tags(),
                    final(self).handler.flags(),
                    payload@,
                    server_audio_pdu(payload@),
                ),
                *final(self),
                reply,
            ),
    {
        if let Some(wave_info) = self.pending_wave_info.take() {
            return self.process_wave_data(wave_info, payload);
        }
        if payload.len() >= 4 && payload[0] == SNDC_WAVE {
            if payload.len() < 16 {
                return Err(RdpsndError::Decode);
            }
            let info = wave_info_of(payload);
            if payload.len() - 16 >= 4 {
                let rest = vstd::slice::slice_subrange(payload, 16, payload.len());
                assert(rest@ =~= payload@.skip(16));
                return self.process_wave_data(info, rest);
            }
            self.pending_wave_info = Some(info);
            return Ok(none());
        }
        match decode_server_audio(payload) {
            Ok(pdu) => self.handle_decoded(pdu),
            Err(e) => Err(e),
        }
    }
}

/// Reads the description of a wave behind a 4-byte header.
fn wave_info_of(payload: &[u8]) -> (info: WaveInfoPdu)
    requires
        payload@.len() >= 16,
    ensures
        info@ == wave_info_at(payload@, 4),
{
    let info = WaveInfoPdu {
        timestamp: get_le16(payload, 4),
        format_no: get_le16(payload, 6),
        block_no: payload[8],
        data: [payload[12], payload[13], payload[14], payload[15]],
    };
    assert(info.data@ =~= payload@.subrange(12, 16));
    info
}

/// The client of the dynamic audio channel, which modern servers prefer: the same
/// messages and the same conversation as on the static one.
pub struct RdpsndDvcClient<H: RdpsndClientHandler> {
    pub inner: Rdpsnd<H>,
}

impl<H: RdpsndClientHandler> RdpsndDvcClient<H> {
    pub fn new(handler: H) -> (client: Self)
        ensures
            client.inner@ == fresh(),
            client.inner.handler == handler,
    {
        RdpsndDvcClient { inner: Rdpsnd::new(handler) }
    }

    /// The server speaks first: nothing is sent when the channel opens.
    pub fn start(&mut self, channel_id: u32) -> (reply: Result<Vec<ClientAudioOutputPdu>, RdpsndError>)
        ensures
            *final(self) == *old(self),
            reply_view(reply) == Ok::<Seq<ClientAudioView>, RdpsndError>(Seq::empty()),
    {
        Ok(none())
    }

    /// One whole server message in, the client's replies out, whichever number
    /// the channel has.
    pub fn process(&mut self, channel_id: u32, payload: &[u8]) -> (reply: Result<
        Vec<ClientAudioOutputPdu>,
        RdpsndError,
    >)
        ensures
            carried_out(
                old(self).inner,
                pdu_step(
                    old(self).inner@,
                    final(self).inner.handler.tags(),
                    final(self).inner.handler.flags(),
                    payload@,
                    server_audio_pdu(payload@),
                ),
                final(self).inner,
                reply,
            ),
    {
        self.inner.handle_pdu(payload)
    }
}

// ---------------------------------------------------------------------------
// Laws
// ---------------------------------------------------------------------------
/// What holds of every client: before the server's formats and after a refusal
/// there are none, otherwise the negotiated formats are among those offered.
pub open spec fn consistent(m: RdpsndView) -> bool {
    match m.state {
        RdpsndState::Start => m.server_format is None && m.negotiated_formats.len() == 0,
        RdpsndState::Stop => m.server_format is None && m.negotiated_formats.len() == 0,
        _ => m.server_format is Some && exists|tags: Seq<u16>|
            m.negotiated_formats == #[trigger] accepted((m.server_format->0).1, tags),
    }
}

/// Every message keeps a client consistent, and a new client is.
pub proof fn law_stays_consistent(
    m: RdpsndView,
    tags: Seq<u16>,
    flags: u32,
    payload: Seq<u8>,
    decoded: Result<ServerAudioView, RdpsndError>,
)
    requires
        consistent(m),
    ensures
        consistent(fresh()),
        consistent(pdu_step(m, tags, flags, payload, decoded).after),
{
    if m.state == RdpsndState::WaitingForTraining || m.state == RdpsndState::Ready {
        let t = choose|t: Seq<u16>| m.negotiated_formats == #[trigger] accepted((m.server_format->0).1, t);
        assert(m.negotiated_formats == accepted((m.server_format->0).1, t));
    }
    let after = pdu_step(m, tags, flags, payload, decoded).after;
    if after.state == RdpsndState::WaitingForTraining && !(m.pending_wave_info is Some) && !opens_wave(payload)
        && decoded is Ok {
        assert(after.negotiated_formats == accepted((after.server_format->0).1, tags));
    }
}

/// A client that has stopped stays so, and its handler hears nothing more.
pub proof fn law_stop_is_final(
    m: RdpsndView,
    tags: Seq<u16>,
    flags: u32,
    payload: Seq<u8>,
    decoded: Result<ServerAudioView, RdpsndError>,
)
    requires
        consistent(m),
        m.state == RdpsndState::Stop,
    ensures
        pdu_step(m, tags, flags, payload, decoded).after.state == RdpsndState::Stop,
        pdu_step(m, tags, flags, payload, decoded).event is None,
{
}

/// A wave in two messages is the same wave as in one: the same sound is played
/// and the same confirmation sent.
pub proof fn law_two_messages_make_one_wave(
    m: RdpsndView,
    tags: Seq<u16>,
    flags: u32,
    first: Seq<u8>,
    second: Seq<u8>,
    decoded: Result<ServerAudioView, RdpsndError>,
)
    requires
        m.pending_wave_info is None,
        opens_wave(first),
        first.len() == 16,
        second.len() >= 4,
    ensures
        ({
            let opened = pdu_step(m, tags, flags, first, decoded);
            let ended = pdu_step(opened.after, tags, flags, second, decoded);
            let whole = pdu_step(m, tags, flags, first + second, decoded);
            &&& opened.event is None
            &&& opened.reply == Ok::<Seq<ClientAudioView>, RdpsndError>(Seq::empty())
            &&& ended == whole
        }),
{
    let whole = first + second;
    assert(whole.skip(16) =~= second);
    assert(whole.subrange(12, 16) =~= first.subrange(12, 16));
    assert(wave_info_at(whole, 4) == wave_info_at(first, 4));
}

/// Every negotiated format was offered and has a tag that the handler plays, and
/// no such format is left out.
pub proof fn law_accepted_is_the_intersection(formats: Seq<AudioFormatView>, tags: Seq<u16>)
    ensures
        accepted(formats, tags).len() <= formats.len(),
        forall|f: AudioFormatView|
            #[trigger] accepted(formats, tags).contains(f) <==> formats.contains(f) && tags.contains(f.format),
    decreases formats.len(),
{
    if formats.len() > 0 {
        let front = formats.drop_last();
        let last = formats.last();
        let short = accepted(front, tags);
        law_accepted_is_the_intersection(front, tags);
        assert forall|f: AudioFormatView| #[trigger]
            accepted(formats, tags).contains(f) <==> formats.contains(f) && tags.contains(f.format) by {
            assert(formats =~= front.push(last));
            if formats.contains(f) {
                let i = choose|i: int| 0 <= i < formats.len() && formats[i] == f;
                if i < front.len() {
                    assert(front[i] == f);
                }
            }
            if front.contains(f) {
                let i = choose|i: int| 0 <= i < front.len() && front[i] == f;
                assert(formats[i] == f);
            }
            if tags.contains(last.format) {
                let long = short.push(last);
                if short.contains(f) {
                    let i = choose|i: int| 0 <= i < short.len() && short[i] == f;
                    assert(long[i] == f);
                }
                if long.contains(f) {
                    let i = choose|i: int| 0 <= i < long.len() && long[i] == f;
                    if i < short.len() {
                        assert(short[i] == f);
                    }
                }
                assert(long[short.len() as int] == last);
                assert(formats[front.len() as int] == last);
            }
        }
    }
}

/// Formats are accepted one by one, in the order they are offered: what is accepted of two
/// offers joined is what is accepted of the first, then what is accepted of the second; and of
/// one format it is that format, if the handler plays it.
pub proof fn law_accepted_keeps_the_order(
    first: Seq<AudioFormatView>,
    second: Seq<AudioFormatView>,
    format: AudioFormatView,
    tags: Seq<u16>,
)
    ensures
        accepted(first + second, tags) == accepted(first, tags) + accepted(second, tags),
        tags.contains(format.format) ==> accepted(seq![format], tags) == seq![format],
        !tags.contains(format.format) ==> accepted(seq![format], tags).len() == 0,
    decreases second.len(),
{
    assert(seq![format].drop_last() =~= Seq::<AudioFormatView>::empty());
    assert(seq![format].last() == format);
    reveal_with_fuel(accepted, 2);
    if tags.contains(format.format) {
        assert(accepted(seq![format], tags) =~= seq![format]);
    }
    if second.len() == 0 {
        assert(first + second =~= first);
    } else {
        law_accepted_keeps_the_order(first, second.drop_last(), format, tags);
        assert((first + second).drop_last() =~= first + second.drop_last());
        assert((first + second).last() == second.last());
    }
    assert(accepted(first + second, tags) =~= accepted(first, tags) + accepted(second, tags));
}

/// One message that a client gets: what its handler plays and is capable of, the bytes, and
/// what they read as.
pub struct Heard {
    pub tags: Seq<u16>,
    pub flags: u32,
    pub payload: Seq<u8>,
    pub decoded: Result<ServerAudioView, RdpsndError>,
}

/// What the last of some messages leads to.
pub open spec fn step_of(m: RdpsndView, heard: Heard) -> Outcome {
    pdu_step(m, heard.tags, heard.flags, heard.payload, heard.decoded)
}

/// A new client once it has got some messages.
pub open spec fn client_after(heard: Seq<Heard>) -> RdpsndView
    decreases heard.len(),
{
    if heard.len() == 0 {
        fresh()
    } else {
        step_of(client_after(heard.drop_last()), heard.last()).after
    }
}

/// The list of formats in a reply, where there is one.
pub open spec fn formats_in(reply: Result<Seq<ClientAudioView>, RdpsndError>) -> Option<Seq<AudioFormatView>> {
    match reply {
        Ok(pdus) => if pdus.len() > 0 {
            match pdus[0] {
                ClientAudioView::AudioFormat { formats, .. } => Some(formats),
                _ => None,
            }
        } else {
            None
        },
        Err(_) => None,
    }
}

/// The list of formats that a client has sent to its server: the one of the last formats
/// message among its replies, or an empty list where it has sent none.
pub open spec fn formats_sent(heard: Seq<Heard>) -> Seq<AudioFormatView>
    decreases heard.len(),
{
    if heard.len() == 0 {
        Seq::empty()
    } else {
        match formats_in(step_of(client_after(heard.drop_last()), heard.last()).reply) {
            Some(formats) => formats,
            None => formats_sent(heard.drop_last()),
        }
    }
}

/// The number of the format that the last of some messages names, if it is a wave: in the
/// message that it reads as; or behind the 4-byte header and the timestamp, in two bytes, the
/// lower first, where the message describes a wave, or else where the one before it does.
pub open spec fn format_named(heard: Seq<Heard>) -> int {
    let message = heard.last();
    if client_after(heard.drop_last()).pending_wave_info is Some {
        let first = heard[heard.len() - 2].payload;
        first[6] + 256 * first[7]
    } else if message.payload.len() >= 4 && message.payload[0] == 2 {
        message.payload[6] + 256 * message.payload[7]
    } else {
        match message.decoded {
            Ok(ServerAudioView::Wave2 { format_no, .. }) => format_no as int,
            _ => -1,
        }
    }
}

proof fn lemma_client_keeps_what_it_sent(heard: Seq<Heard>)
    ensures
        client_after(heard).negotiated_formats == formats_sent(heard),
        client_after(heard).pending_wave_info matches Some(info) ==> {
            &&& heard.len() > 0
            &&& heard.last().payload.len() >= 16
            &&& info.timestamp == heard.last().payload[4] + 256 * heard.last().payload[5]
            &&& info.format_no == heard.last().payload[6] + 256 * heard.last().payload[7]
            &&& info.block_no == heard.last().payload[8]
            &&& info.data == heard.last().payload.subrange(12, 16)
        },
        heard.len() > 0 && client_after(heard.drop_last()).pending_wave_info is Some ==> client_after(
            heard,
        ).pending_wave_info is None,
    decreases heard.len(),
{
    if heard.len() > 0 {
        lemma_client_keeps_what_it_sent(heard.drop_last());
    }
}

/// Waves are played in the format they name: whatever messages a client has got, when the
/// next one makes it play a wave, of either kind and whether in one message or in two, the
/// format that the handler is told is the element of that number of the list of formats that
/// the client sent to its server.
pub proof fn law_wave_is_in_the_format_it_names(heard: Seq<Heard>, format: AudioFormatView, ts: u32, data: Seq<u8>)
    requires
        heard.len() > 0,
        step_of(client_after(heard.drop_last()), heard.last()).event == Some(SoundEvent::Wave { format, ts, data }),
    ensures
        0 <= format_named(heard) < formats_sent(heard.drop_last()).len(),
        format == formats_sent(heard.drop_last())[format_named(heard)],
{
    let front = heard.drop_last();
    lemma_client_keeps_what_it_sent(front);
    if front.len() > 0 {
        assert(front.last() == heard[heard.len() - 2]);
    }
}

/// A wave whose format was sent to the server is played and confirmed, and one that names no
/// such format is refused: nothing is played and the client stays as it is, but for a first
/// part that waited.
pub proof fn law_wave_is_played_or_refused(heard: Seq<Heard>)
    requires
        heard.len() > 0,
        ({
            let m = client_after(heard.drop_last());
            let payload = heard.last().payload;
            ||| m.pending_wave_info is Some
            ||| payload.len() >= 20 && payload[0] == 2
            ||| !(payload.len() >= 4 && payload[0] == 2) && (m.state == RdpsndState::Ready || m.state
                == RdpsndState::WaitingForTraining) && heard.last().decoded matches Ok(ServerAudioView::Wave2 { .. })
        }),
    ensures
        ({
            let m = client_after(heard.drop_last());
            let out = step_of(m, heard.last());
            let sent = formats_sent(heard.drop_last());
            &&& out.after.negotiated_formats == m.negotiated_formats
            &&& out.after.pending_wave_info is None
            &&& format_named(heard) < sent.len() ==> {
                &&& out.event matches Some(SoundEvent::Wave { .. })
                &&& out.reply matches Ok(pdus)
                &&& pdus.len() == 1
                &&& pdus[0] is WaveConfirm
            }
            &&& format_named(heard) >= sent.len() ==> out.event is None && out.reply == Err::<
                Seq<ClientAudioView>,
                RdpsndError,
            >(RdpsndError::InvalidFormatNo)
        }),
{
    let front = heard.drop_last();
    lemma_client_keeps_what_it_sent(front);
    if front.len() > 0 {
        assert(front.last() == heard[heard.len() - 2]);
    }
}

/// A wave of the first kind, in one message or cut behind its first 16 bytes, holds at 4 its
/// timestamp, at 8 its block number, at 12 its first four bytes and from 20 on the rest; the
/// four bytes at 16 are padding. The handler is told the timestamp and the bytes, and the
/// confirmation has the timestamp and the block number.
pub proof fn law_wave_plays_its_bytes(m: RdpsndView, tags: Seq<u16>, flags: u32, payload: Seq<u8>, decoded: Result<
    ServerAudioView,
    RdpsndError,
>)
    requires
        payload.len() >= 20,
        payload[0] == 2,
        payload[6] + 256 * payload[7] < m.negotiated_formats.len(),
        m.pending_wave_info is None,
    ensures
        ({
            let out = pdu_step(m, tags, flags, payload, decoded);
            &&& out.event matches Some(SoundEvent::Wave { format, ts, data })
            &&& ts == payload[4] + 256 * payload[5]
            &&& data.len() == payload.len() - 16
            &&& data.take(4) == payload.subrange(12, 16)
            &&& data.skip(4) == payload.skip(20)
            &&& out.reply matches Ok(pdus)
            &&& pdus.len() == 1
            &&& pdus[0] matches ClientAudioView::WaveConfirm { timestamp, block_no }
            &&& timestamp == payload[4] + 256 * payload[5]
            &&& block_no == payload[8]
        }),
{
    let out = pdu_step(m, tags, flags, payload, decoded);
    match out.event {
        Some(SoundEvent::Wave { format, ts, data }) => {
            assert(payload.skip(16).skip(4) =~= payload.skip(20));
            assert(data.take(4) =~= payload.subrange(12, 16));
            assert(data.skip(4) =~= payload.skip(20));
        },
        _ => {},
    }
}

/// A first part that is cut shorter than its description is refused; one that ends before the
/// padding waits for the second part, and nothing is played or answered until it comes.
pub proof fn law_first_part_waits(m: RdpsndView, tags: Seq<u16>, flags: u32, payload: Seq<u8>, decoded: Result<
    ServerAudioView,
    RdpsndError,
>)
    requires
        4 <= payload.len() < 20,
        payload[0] == 2,
        m.pending_wave_info is None,
    ensures
        ({
            let out = pdu_step(m, tags, flags, payload, decoded);
            &&& out.event is None
            &&& payload.len() < 16 ==> out.after == m && out.reply == Err::<Seq<ClientAudioView>, RdpsndError>(
                RdpsndError::Decode,
            )
            &&& payload.len() >= 16 ==> out.reply == Ok::<Seq<ClientAudioView>, RdpsndError>(Seq::empty())
                && out.after.pending_wave_info is Some && out.after.state == m.state
        }),
{
}

/// Once the negotiation is over, each message is told to the handler as it is, and answered
/// as the protocol asks: a wave of the second kind with its own timestamp and block number, a
/// training message with both of its numbers, anything else with nothing.
pub proof fn law_messages_are_told_as_they_are(m: RdpsndView, tags: Seq<u16>, flags: u32, pdu: ServerAudioView)
    requires
        m.state == RdpsndState::Ready || m.state == RdpsndState::WaitingForTraining,
    ensures
        ({
            let out = decoded_step(m, tags, flags, pdu);
            let silent = out.reply == Ok::<Seq<ClientAudioView>, RdpsndError>(Seq::empty());
            &&& !(pdu is AudioFormat) ==> out.after == (RdpsndView { state: RdpsndState::Ready, ..m })
            &&& match pdu {
                ServerAudioView::Wave2 { timestamp, format_no, block_no, audio_timestamp, data } => format_no
                    < m.negotiated_formats.len() ==> {
                    &&& out.event matches Some(SoundEvent::Wave { format, ts, data: played })
                    &&& ts == audio_timestamp
                    &&& played == data
                    &&& out.reply matches Ok(pdus)
                    &&& pdus.len() == 1
                    &&& pdus[0] == (ClientAudioView::WaveConfirm { timestamp, block_no })
                },
                ServerAudioView::Volume(v) => out.event == Some(SoundEvent::Volume(v)) && silent,
                ServerAudioView::Pitch(p) => out.event == Some(SoundEvent::Pitch(p)) && silent,
                ServerAudioView::Close => out.event == Some(SoundEvent::Close) && silent,
                ServerAudioView::Training(t) => {
                    &&& out.event is None
                    &&& out.reply matches Ok(pdus)
                    &&& pdus.len() == 1
                    &&& pdus[0] == (ClientAudioView::TrainingConfirm {
                        timestamp: t.timestamp,
                        pack_size: t.pack_size,
                    })
                },
                ServerAudioView::AudioFormat(..) => out.event == Some(SoundEvent::Close),
                ServerAudioView::Other => out.event is None && silent,
            }
        }),
{
}

/// Whenever the server offers its formats, before the end and whatever came before, the
/// client answers with the server's own version, the formats of the offer that its handler
/// plays, full volume on both sides, the pitch as recorded, no port for datagrams, and says
/// that it is alive; where the version is at least 6 it goes on to ask for high quality. A
/// server that does not begin with its formats is not heard further.
pub proof fn law_offer_is_answered(
    m: RdpsndView,
    tags: Seq<u16>,
    flags: u32,
    version: u16,
    formats: Seq<AudioFormatView>,
    i: int,
)
    requires
        m.state != RdpsndState::Stop,
        0 <= i < formats.len(),
    ensures
        ({
            let out = decoded_step(m, tags, flags, ServerAudioView::AudioFormat(version, formats));
            &&& out.after.state == RdpsndState::WaitingForTraining
            &&& out.after.server_format == Some((version, formats))
            &&& out.reply matches Ok(pdus)
            &&& pdus.len() == if version >= 6 {
                2int
            } else {
                1int
            }
            &&& version >= 6 ==> pdus[1] == ClientAudioView::QualityMode(2)
            &&& pdus[0] matches ClientAudioView::AudioFormat {
                version: v,
                flags: f,
                formats: sent,
                volume_left,
                volume_right,
                pitch,
                dgram_port,
            }
            &&& v == version
            &&& f & 1 == 1
            &&& f | 1 == flags | 1
            &&& sent == out.after.negotiated_formats
            &&& sent.contains(formats[i]) == tags.contains(formats[i].format)
            &&& volume_left == 0xFFFF && volume_right == 0xFFFF
            &&& pitch == 0x1_0000
            &&& dgram_port == 0
        }),
        forall|pdu: ServerAudioView|
            m.state == RdpsndState::Start && !(pdu is AudioFormat) ==> (#[trigger] decoded_step(
                m,
                tags,
                flags,
                pdu,
            )).after.state == RdpsndState::Stop,
{
    law_accepted_is_the_intersection(formats, tags);
    assert((flags | 1) & 1 == 1) by (bit_vector);
    assert((flags | 1) | 1 == flags | 1) by (bit_vector);
    assert(formats.contains(formats[i]));
}

/// A training message has its size in two bytes at 6, the lower first.
pub proof fn law_training_size(payload: Seq<u8>)
    requires
        outside_audio_pdu(payload) matches Some(DecodedAudioView::Training(_)),
    ensures
        server_audio_pdu(payload) matches Ok(ServerAudioView::Training(t)) && t.pack_size == payload[6] + 256
            * payload[7] && outside_audio_pdu(payload) == Some(DecodedAudioView::Training(t.timestamp)),
{
}

} // verus!
