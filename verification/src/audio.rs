//! The page's audio: which codecs are offered, and what the page is handed.

use vstd::prelude::*;

use crate::rdpsnd::{AudioFormat, PitchPdu, RdpsndClientHandler, SoundEvent, VolumePdu};
use crate::wire::copied;

verus! {

/// Codec tags of the formats that the page plays.
pub const WAVE_FORMAT_PCM: u16 = 0x0001;
pub const WAVE_FORMAT_OPUS: u16 = 0x704F;
pub const WAVE_FORMAT_AAC_MS: u16 = 0xA106;

/// One call to the page's audio.
#[derive(Debug, PartialEq, Eq)]
pub enum AudioNotice {
    /// A packet: its codec, its sampling, its bytes and the codec's own data.
    Data {
        codec_tag: u16,
        channels: u16,
        sample_rate: u32,
        bits_per_sample: u16,
        data: Vec<u8>,
        extradata: Vec<u8>,
    },
    /// The volume of both channels, 0 to 0xFFFF.
    Volume { left: u16, right: u16 },
}

/// The mathematical value of an [`AudioNotice`].
pub enum AudioNoticeView {
    Data {
        codec_tag: u16,
        channels: u16,
        sample_rate: u32,
        bits_per_sample: u16,
        data: Seq<u8>,
        extradata: Seq<u8>,
    },
    Volume { left: u16, right: u16 },
}

impl View for AudioNotice {
    type V = AudioNoticeView;

    open spec fn view(&self) -> AudioNoticeView {
        match *self {
            AudioNotice::Data { codec_tag, channels, sample_rate, bits_per_sample, data, extradata } =>
                AudioNoticeView::Data {
                    codec_tag,
                    channels,
                    sample_rate,
                    bits_per_sample,
                    data: data@,
                    extradata: extradata@,
                },
            AudioNotice::Volume { left, right } => AudioNoticeView::Volume { left, right },
        }
    }
}

/// The mathematical values of a run of notices.
pub open spec fn audio_notice_views(notices: Seq<AudioNotice>) -> Seq<AudioNoticeView> {
    notices.map_values(|notice: AudioNotice| notice@)
}

/// The tags that are offered, best first: AAC and Opus where the page can decode
/// them, PCM always.
pub open spec fn offered_tags(enable_opus: bool, enable_aac: bool) -> Seq<u16> {
    (if enable_aac {
        seq![WAVE_FORMAT_AAC_MS]
    } else {
        Seq::empty()
    }) + (if enable_opus {
        seq![WAVE_FORMAT_OPUS]
    } else {
        Seq::empty()
    }) + seq![WAVE_FORMAT_PCM]
}

/// Whether the page plays packets of that codec.
pub open spec fn playable(tag: u16) -> bool {
    tag == WAVE_FORMAT_PCM || tag == WAVE_FORMAT_OPUS || tag == WAVE_FORMAT_AAC_MS
}

/// What the page is handed for an event: a packet of a playable codec with its
/// format, a change of volume, nothing else.
pub open spec fn audio_notices_of(event: SoundEvent) -> Seq<AudioNoticeView> {
    match event {
        SoundEvent::Wave { format, ts, data } => if playable(format.format) {
            seq![
                AudioNoticeView::Data {
                    codec_tag: format.format,
                    channels: format.n_channels,
                    sample_rate: format.n_samples_per_sec,
                    bits_per_sample: format.bits_per_sample,
                    data,
                    extradata: match format.data {
                        Some(extra) => extra,
                        None => Seq::empty(),
                    },
                },
            ]
        } else {
            Seq::empty()
        },
        SoundEvent::Volume(volume) => seq![
            AudioNoticeView::Volume { left: volume.volume_left, right: volume.volume_right },
        ],
        SoundEvent::Pitch(_) => Seq::empty(),
        SoundEvent::Close => Seq::empty(),
    }
}

/// Hands audio to the page. PCM is always supported; Opus and AAC are offered
/// only where the page said that it can decode them.
#[derive(Debug, PartialEq, Eq)]
pub struct WasmRdpsndHandler {
    pub supported_tags: Vec<u16>,
    /// What the page has not been handed yet, oldest first.
    pub notices: Vec<AudioNotice>,
}

impl WasmRdpsndHandler {
    pub fn new(enable_opus: bool, enable_aac: bool) -> (handler: Self)
        ensures
            handler.supported_tags@ == offered_tags(enable_opus, enable_aac),
            handler.notices@ == Seq::<AudioNotice>::empty(),
    {
        let mut supported_tags: Vec<u16> = Vec::new();
        if enable_aac {
            supported_tags.push(WAVE_FORMAT_AAC_MS);
        }
        if enable_opus {
            supported_tags.push(WAVE_FORMAT_OPUS);
        }
        supported_tags.push(WAVE_FORMAT_PCM);
        assert(supported_tags@ =~= offered_tags(enable_opus, enable_aac));
        WasmRdpsndHandler { supported_tags, notices: Vec::new() }
    }

    /// Hands the notices over and forgets them.
    pub fn take_notices(&mut self) -> (notices: Vec<AudioNotice>)
        ensures
            notices@ == old(self).notices@,
            final(self).notices@ == Seq::<AudioNotice>::empty(),
            final(self).supported_tags == old(self).supported_tags,
    {
        let mut notices: Vec<AudioNotice> = Vec::new();
        notices.append(&mut self.notices);
        assert(notices@ =~= old(self).notices@);
        notices
    }

    fn keep(&mut self, notice: AudioNotice)
        ensures
            final(self).supported_tags == old(self).supported_tags,
            audio_notice_views(final(self).notices@) == audio_notice_views(old(self).notices@) + seq![notice@],
    {
        self.notices.push(notice);
        assert(audio_notice_views(self.notices@) =~= audio_notice_views(old(self).notices@) + seq![notice@]);
    }
}

impl RdpsndClientHandler for WasmRdpsndHandler {
    open spec fn handled(before: Self, event: SoundEvent, after: Self) -> bool {
        &&& after.supported_tags == before.supported_tags
        &&& audio_notice_views(after.notices@) == audio_notice_views(before.notices@) + audio_notices_of(event)
    }

    open spec fn tags(&self) -> Seq<u16> {
        self.supported_tags@
    }

    open spec fn flags(&self) -> u32 {
        0
    }

    fn get_flags(&self) -> u32 {
        0
    }

    fn supported_formats(&self) -> &[u16] {
        self.supported_tags.as_slice()
    }

    fn wave(&mut self, format: &AudioFormat, ts: u32, data: &[u8]) {
        let codec: u16 = format.format;
        if codec != WAVE_FORMAT_PCM && codec != WAVE_FORMAT_OPUS && codec != WAVE_FORMAT_AAC_MS {
            assert(audio_notice_views(self.notices@) + Seq::<AudioNoticeView>::empty() =~= audio_notice_views(
                self.notices@,
            ));
            return;
        }
        let extradata: Vec<u8> = match &format.data {
            Some(extra) => copied(extra.as_slice()),
            None => Vec::new(),
        };
        assert(format@.data is None ==> extradata@ =~= Seq::<u8>::empty());
        self.keep(
            AudioNotice::Data {
                codec_tag: codec,
                channels: format.n_channels,
                sample_rate: format.n_samples_per_sec,
                bits_per_sample: format.bits_per_sample,
                data: copied(data),
                extradata,
            },
        );
    }

    fn set_volume(&mut self, volume: VolumePdu) {
        self.keep(AudioNotice::Volume { left: volume.volume_left, right: volume.volume_right });
    }

    /// Playback in the page does not change pitch.
    fn set_pitch(&mut self, pitch: PitchPdu) {
        assert(audio_notice_views(self.notices@) + Seq::<AudioNoticeView>::empty() =~= audio_notice_views(
            self.notices@,
        ));
    }

    fn close(&mut self) {
        assert(audio_notice_views(self.notices@) + Seq::<AudioNoticeView>::empty() =~= audio_notice_views(
            self.notices@,
        ));
    }
}

/// Whatever the page can decode, the offer ends with PCM and holds only codecs
/// that the page is then handed.
pub proof fn law_pcm_is_always_offered_last(enable_opus: bool, enable_aac: bool)
    ensures
        offered_tags(enable_opus, enable_aac).last() == WAVE_FORMAT_PCM,
        forall|i: int|
            0 <= i < offered_tags(enable_opus, enable_aac).len() ==> playable(
                #[trigger] offered_tags(enable_opus, enable_aac)[i],
            ),
        offered_tags(enable_opus, enable_aac).contains(WAVE_FORMAT_OPUS) <==> enable_opus,
        offered_tags(enable_opus, enable_aac).contains(WAVE_FORMAT_AAC_MS) <==> enable_aac,
{
    let tags = offered_tags(enable_opus, enable_aac);
    if enable_aac {
        assert(tags[0] == WAVE_FORMAT_AAC_MS);
    }
    if enable_opus {
        assert(tags[tags.len() - 2] == WAVE_FORMAT_OPUS);
    }
}

/// A packet in one of the formats that the page plays (PCM, Opus, AAC, by their tags) is handed
/// to the page with its bytes, its sampling and the codec's own data; any other is not, and
/// neither is a pitch or the end. A volume is handed over side by side.
pub proof fn law_page_hears_what_it_plays(event: SoundEvent)
    ensures
        ({
            let told = audio_notices_of(event);
            match event {
                SoundEvent::Wave { format, ts, data } => {
                    let plays = format.format == 1 || format.format == 0x704F || format.format == 0xA106;
                    &&& !plays ==> told.len() == 0
                    &&& plays ==> {
                        &&& told.len() == 1
                        &&& told[0] matches AudioNoticeView::Data {
                            codec_tag,
                            channels,
                            sample_rate,
                            bits_per_sample,
                            data: handed,
                            extradata,
                        }
                        &&& codec_tag == format.format
                        &&& channels == format.n_channels
                        &&& sample_rate == format.n_samples_per_sec
                        &&& bits_per_sample == format.bits_per_sample
                        &&& handed == data
                        &&& format.data matches Some(extra) ==> extradata == extra
                        &&& format.data is None ==> extradata.len() == 0
                    }
                },
                SoundEvent::Volume(volume) => told == seq![
                    AudioNoticeView::Volume { left: volume.volume_left, right: volume.volume_right },
                ],
                SoundEvent::Pitch(_) => told.len() == 0,
                SoundEvent::Close => told.len() == 0,
            }
        }),
{
}

/// The offer names AAC before Opus before PCM, each by its tag, once, and the first two only
/// where the page can decode them.
pub proof fn law_offer_is_best_first(enable_opus: bool, enable_aac: bool)
    ensures
        ({
            let tags = offered_tags(enable_opus, enable_aac);
            let n = tags.len();
            &&& n == 1 + (if enable_opus {
                1int
            } else {
                0
            }) + (if enable_aac {
                1int
            } else {
                0
            })
            &&& tags[n - 1] == 0x0001
            &&& enable_opus ==> tags[n - 2] == 0x704F
            &&& enable_aac ==> tags[0] == 0xA106
        }),
{
}

} // verus!
