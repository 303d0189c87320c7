//! The audio channels.

use web_rdp::audio::{AudioNotice, WasmRdpsndHandler, WAVE_FORMAT_AAC_MS, WAVE_FORMAT_OPUS, WAVE_FORMAT_PCM};
use web_rdp::rdpsnd::{
    AudioFormat, ClientAudioOutputPdu, NoopRdpsndBackend, Rdpsnd, RdpsndDvcClient, RdpsndError, RdpsndState,
    ServerAudioFormatPdu, ServerAudioOutputPdu, TrainingPdu, VolumePdu, Wave2Pdu, QUALITY_MODE_HIGH,
};

fn format_bytes(tag: u16) -> Vec<u8> {
    let mut f = Vec::new();
    f.extend_from_slice(&tag.to_le_bytes());
    f.extend_from_slice(&2u16.to_le_bytes()); // channels
    f.extend_from_slice(&44100u32.to_le_bytes());
    f.extend_from_slice(&176400u32.to_le_bytes());
    f.extend_from_slice(&4u16.to_le_bytes()); // block align
    f.extend_from_slice(&16u16.to_le_bytes()); // bits
    f.extend_from_slice(&0u16.to_le_bytes()); // extra
    f
}

/// The server's offer: a PCM format and one that the client does not play.
fn offer() -> Vec<u8> {
    let formats = [format_bytes(WAVE_FORMAT_PCM), format_bytes(0x0055)].concat();
    let mut body = Vec::new();
    body.extend_from_slice(&0u32.to_le_bytes()); // flags
    body.extend_from_slice(&0u32.to_le_bytes()); // volume
    body.extend_from_slice(&0u32.to_le_bytes()); // pitch
    body.extend_from_slice(&0u16.to_le_bytes()); // port
    body.extend_from_slice(&2u16.to_le_bytes()); // formats
    body.push(0); // last block
    body.extend_from_slice(&8u16.to_le_bytes()); // version
    body.push(0);
    body.extend_from_slice(&formats);
    let mut pdu = vec![0x07, 0];
    pdu.extend_from_slice(&(body.len() as u16).to_le_bytes());
    pdu.extend_from_slice(&body);
    pdu
}

fn pcm() -> AudioFormat {
    AudioFormat {
        format: WAVE_FORMAT_PCM,
        n_channels: 2,
        n_samples_per_sec: 44100,
        n_avg_bytes_per_sec: 176400,
        n_block_align: 4,
        bits_per_sample: 16,
        data: None,
    }
}

fn ready() -> Rdpsnd<WasmRdpsndHandler> {
    let mut client = Rdpsnd::new(WasmRdpsndHandler::new(false, false));
    client.handle_pdu(&offer()).unwrap();
    client.handle_pdu(&[0x06, 0, 4, 0, 0x34, 0x12, 0, 0]).unwrap();
    client
}

#[test]
fn pcm_is_offered_last() {
    assert_eq!(
        WasmRdpsndHandler::new(true, true).supported_tags,
        vec![WAVE_FORMAT_AAC_MS, WAVE_FORMAT_OPUS, WAVE_FORMAT_PCM]
    );
    assert_eq!(WasmRdpsndHandler::new(false, false).supported_tags, vec![WAVE_FORMAT_PCM]);
}

#[test]
fn the_client_accepts_the_formats_that_both_know() {
    let mut client = Rdpsnd::new(WasmRdpsndHandler::new(false, false));
    assert_eq!(client.version(), Err(RdpsndError::NoServerFormat));
    let reply = client.handle_pdu(&offer()).unwrap();
    match &reply[0] {
        ClientAudioOutputPdu::AudioFormat(f) => assert_eq!(f.formats, vec![pcm()]),
        other => panic!("expected formats, got {other:?}"),
    }
    assert_eq!(reply[1], ClientAudioOutputPdu::QualityMode(QUALITY_MODE_HIGH));
    assert_eq!(client.version(), Ok(8));
    assert_eq!(client.state, RdpsndState::WaitingForTraining);
    assert_eq!(client.negotiated_formats, vec![pcm()]);
}

#[test]
fn training_is_confirmed_with_its_own_numbers() {
    let mut client = Rdpsnd::new(WasmRdpsndHandler::new(false, false));
    client.handle_pdu(&offer()).unwrap();
    // Timestamp 0x1234 and a packet of 14 bytes, of which 6 follow.
    let training = [0x06, 0, 10, 0, 0x34, 0x12, 14, 0, 1, 2, 3, 4, 5, 6];
    let reply = client.handle_pdu(&training).unwrap();
    assert_eq!(reply, vec![ClientAudioOutputPdu::TrainingConfirm { timestamp: 0x1234, pack_size: 14 }]);
    assert_eq!(client.state, RdpsndState::Ready);
}

#[test]
fn a_wave_in_one_message_is_played_and_confirmed() {
    let mut client = ready();
    let reply = client
        .handle_decoded(ServerAudioOutputPdu::Wave2(Wave2Pdu {
            timestamp: 5,
            format_no: 0,
            block_no: 9,
            audio_timestamp: 77,
            data: vec![1, 2, 3, 4],
        }))
        .unwrap();
    assert_eq!(reply, vec![ClientAudioOutputPdu::WaveConfirm { timestamp: 5, block_no: 9 }]);
    assert_eq!(
        client.handler.take_notices(),
        vec![AudioNotice::Data {
            codec_tag: WAVE_FORMAT_PCM,
            channels: 2,
            sample_rate: 44100,
            bits_per_sample: 16,
            data: vec![1, 2, 3, 4],
            extradata: vec![],
        }]
    );
}

#[test]
fn a_wave_in_two_messages_is_one_wave() {
    let mut client = ready();
    // Wave info: timestamp 7, format 0, block 3, the first four bytes of the wave.
    let info = [0x02, 0, 16, 0, 7, 0, 0, 0, 3, 0, 0, 0, 10, 11, 12, 13];
    assert_eq!(client.handle_pdu(&info), Ok(vec![]));
    // The second message starts with four bytes that stand for the first ones.
    let rest = [0, 0, 0, 0, 14, 15, 16, 17];
    let reply = client.handle_pdu(&rest).unwrap();
    assert_eq!(reply, vec![ClientAudioOutputPdu::WaveConfirm { timestamp: 7, block_no: 3 }]);
    match &client.handler.take_notices()[0] {
        AudioNotice::Data { data, .. } => assert_eq!(data, &vec![10, 11, 12, 13, 14, 15, 16, 17]),
        other => panic!("expected data, got {other:?}"),
    }
}

#[test]
fn a_wave_in_an_unknown_format_is_an_error() {
    let mut client = ready();
    let wave = Wave2Pdu { timestamp: 1, format_no: 5, block_no: 1, audio_timestamp: 0, data: vec![] };
    assert_eq!(
        client.handle_decoded(ServerAudioOutputPdu::Wave2(wave)),
        Err(RdpsndError::InvalidFormatNo)
    );
}

#[test]
fn bytes_that_are_no_message_are_an_error() {
    let mut client = Rdpsnd::new(NoopRdpsndBackend { nothing: () });
    assert_eq!(client.handle_pdu(&[1]), Err(RdpsndError::Decode));
}

#[test]
fn volume_reaches_the_page() {
    let mut client = ready();
    let volume = VolumePdu { volume_left: 0x8000, volume_right: 0xFFFF };
    assert_eq!(client.handle_decoded(ServerAudioOutputPdu::Volume(volume)), Ok(vec![]));
    assert_eq!(client.handler.take_notices(), vec![AudioNotice::Volume { left: 0x8000, right: 0xFFFF }]);
}

#[test]
fn a_message_out_of_turn_stops_the_client_for_good() {
    let mut client = Rdpsnd::new(NoopRdpsndBackend { nothing: () });
    let training = TrainingPdu { timestamp: 1, pack_size: 0 };
    let _ = client.handle_decoded(ServerAudioOutputPdu::Training(training));
    assert_eq!(client.state, RdpsndState::Stop);
    let formats = ServerAudioFormatPdu { version: 8, formats: vec![pcm()] };
    let _ = client.handle_decoded(ServerAudioOutputPdu::AudioFormat(formats));
    assert_eq!(client.state, RdpsndState::Stop);
}

#[test]
fn the_dynamic_channel_carries_the_same_messages() {
    let mut client = RdpsndDvcClient::new(WasmRdpsndHandler::new(false, false));
    assert_eq!(client.start(3), Ok(vec![]));
    let reply = client.process(3, &offer()).unwrap();
    assert!(matches!(reply[0], ClientAudioOutputPdu::AudioFormat(_)));
}
