use hypai_ants::call::{stream_twiml, ws_url, CallSession, Gateway, InboundAction, OutboundStep, TwilioEvent};
use hypai_ants::codec::{count_header, decode_mulaw_samples, encode_mulaw_samples, read_count_header};
use hypai_ants::twilio::TwilioConfig;
use hypai_ants::web::WebConfig;

fn started(gw_sid: &str) -> CallSession {
    let mut s = CallSession::new();
    assert!(s.accept());
    s.on_event(TwilioEvent::Start { start_sid: Some(gw_sid.to_string()), top_sid: None });
    s
}

#[test]
fn ws_url_swaps_scheme() {
    assert_eq!(ws_url("https://example.net"), "wss://example.net");
    assert_eq!(ws_url("http://example.net"), "ws://example.net");
    assert_eq!(ws_url("ftp://x"), "ftp://x");
}

#[test]
fn twiml_answers_match_each_gateway() {
    let t = TwilioConfig::default();
    assert_eq!(t.twilio_from, "+18136076219");
    assert_eq!(t.port, 5050);
    assert_eq!(
        t.voice_twiml(),
        "<?xml version=\"1.0\" encoding=\"UTF-8\"?><Response><Connect><Stream url=\"wss://emils-macbook-pro.tail12e909.ts.net/ws\" /></Connect></Response>"
    );
    let w = WebConfig::default();
    assert_eq!(
        w.voice_twiml(),
        "<?xml version=\"1.0\" encoding=\"UTF-8\"?><Response><Say voice=\"Polly.Ruth-Neural\">Welcome to Sparked Matter. One moment please.</Say><Connect><Stream url=\"wss://emils-macbook-pro.tail12e909.ts.net/ws\" /></Connect></Response>"
    );
    assert!(w.bridge_twiml().contains("Patching you through to Airy. One moment.</Say>"));
    assert_eq!(stream_twiml("ws://h", None), "<?xml version=\"1.0\" encoding=\"UTF-8\"?><Response><Connect><Stream url=\"ws://h/ws\" /></Connect></Response>");
}

#[test]
fn second_stream_is_rejected_until_the_call_ends() {
    let mut s = CallSession::new();
    assert!(s.accept());
    assert!(!s.accept());
    assert!(matches!(s.on_event(TwilioEvent::Stop), InboundAction::End));
    assert!(!s.call_active);
    assert!(s.accept());
}

#[test]
fn start_takes_the_nested_stream_id_first() {
    let mut s = CallSession::new();
    s.accept();
    s.on_event(TwilioEvent::Start { start_sid: None, top_sid: Some("TOP".into()) });
    assert_eq!(s.stream_sid.as_deref(), Some("TOP"));
    s.on_event(TwilioEvent::Start { start_sid: Some("MZ1".into()), top_sid: Some("TOP".into()) });
    assert_eq!(s.stream_sid.as_deref(), Some("MZ1"));
}

#[test]
fn media_is_decoded_unless_the_caller_is_muted() {
    let mut s = started("MZ");
    match s.on_event(TwilioEvent::Media { payload: Some("/38A".into()) }) {
        InboundAction::Forward { bytes } => assert_eq!(bytes, vec![0xFF, 0x7F, 0x00]),
        _ => panic!("expected Forward"),
    }
    assert!(matches!(s.on_event(TwilioEvent::Media { payload: Some("***".into()) }), InboundAction::Nothing));
    assert!(matches!(s.on_event(TwilioEvent::Media { payload: None }), InboundAction::Nothing));
    s.queue_muted(&[1, 2, 3]);
    assert!(s.speaking);
    assert!(matches!(s.on_event(TwilioEvent::Media { payload: Some("/38A".into()) }), InboundAction::Nothing));
    assert!(matches!(s.on_event(TwilioEvent::Mark { name: Some("other".into()) }), InboundAction::Nothing));
    assert!(matches!(s.on_event(TwilioEvent::Mark { name: Some("tts-done".into()) }), InboundAction::ScheduleUnmute));
    s.unmute();
    assert!(!s.speaking);
}

#[test]
fn web_sender_frames_whole_chunks_then_tail_then_mark() {
    let mut s = started("MZ9");
    let audio: Vec<u8> = (0..170u32).map(|i| i as u8).collect();
    s.queue_marked(&audio);
    assert!(s.mark_pending);
    match s.next_outbound(Gateway::Web) {
        OutboundStep::Send { media: Some((sid, payload)), mark: None, idle: false } => {
            assert_eq!(sid, "MZ9");
            assert_eq!(payload.len(), 216);
            assert!(payload.starts_with("AAECAwQF"));
        }
        _ => panic!("expected a whole frame"),
    }
    assert!(s.speaking);
    assert_eq!(s.outbound.len(), 10);
    match s.next_outbound(Gateway::Web) {
        OutboundStep::Send { media: Some((_, payload)), mark: Some(sid), idle: true } => {
            assert_eq!(payload, "oKGio6SlpqeoqQ==");
            assert_eq!(sid, "MZ9");
        }
        _ => panic!("expected tail and mark"),
    }
    assert!(!s.mark_pending);
    assert!(matches!(s.next_outbound(Gateway::Web), OutboundStep::Send { media: None, mark: None, idle: true }));
    s.end();
    assert!(matches!(s.next_outbound(Gateway::Web), OutboundStep::Stop));
}

#[test]
fn twilio_sender_keeps_partial_frames() {
    let mut s = started("MZ");
    s.queue_muted(&[0xFF; 100]);
    assert!(matches!(s.next_outbound(Gateway::Twilio), OutboundStep::Send { media: None, mark: None, idle: true }));
    assert_eq!(s.outbound.len(), 100);
    s.queue_muted(&[0xFF; 60]);
    match s.next_outbound(Gateway::Twilio) {
        OutboundStep::Send { media: Some((_, payload)), idle: false, .. } => {
            assert_eq!(payload, "/".repeat(212) + "/w==")
        }
        _ => panic!("expected a frame"),
    }
    assert_eq!(s.outbound.len(), 0);
}

#[test]
fn frames_without_stream_id_are_dropped() {
    let mut s = CallSession::new();
    s.accept();
    s.queue_marked(&[7u8; 160]);
    assert!(matches!(s.next_outbound(Gateway::Web), OutboundStep::Send { media: None, mark: None, idle: false }));
    assert_eq!(s.outbound.len(), 0);
    assert!(matches!(s.next_outbound(Gateway::Web), OutboundStep::Send { media: None, mark: None, idle: true }));
}

#[test]
fn empty_reply_audio_queues_nothing() {
    let mut s = started("MZ");
    s.queue_marked(&[]);
    assert!(!s.mark_pending);
    assert_eq!(s.outbound.len(), 0);
}

#[test]
fn mulaw_silence_round_trips() {
    assert_eq!(encode_mulaw_samples(&[0, 0]), vec![0xFF, 0xFF]);
    assert_eq!(decode_mulaw_samples(&[0xFF]), vec![0]);
    assert_eq!(decode_mulaw_samples(&[0x00, 0x80]), vec![-32124, 32124]);
    let enc = encode_mulaw_samples(&[1000, -1000]);
    let dec = decode_mulaw_samples(&enc);
    assert!((dec[0] - 1000).abs() < 100 && (dec[1] + 1000).abs() < 100);
}

#[test]
fn count_header_is_little_endian() {
    assert_eq!(count_header(258), [2, 1, 0, 0]);
    assert_eq!(count_header(-1), [0xFF, 0xFF, 0xFF, 0xFF]);
    assert_eq!(read_count_header([0x00, 0x00, 0x01, 0x00]), 65536);
    assert_eq!(read_count_header(count_header(-3)), -3);
}

#[test]
fn dispatcher_decoder_reads_gateway_frames_back() {
    for len in [1usize, 2, 3, 4, 5, 160] {
        let mut s = started("MZ");
        let audio: Vec<u8> = (0..len).map(|i| (i * 37 % 256) as u8).collect();
        s.queue_marked(&audio);
        match s.next_outbound(Gateway::Web) {
            OutboundStep::Send { media: Some((_, payload)), .. } => {
                assert_eq!(hypai_ants::plaza::base64_decode(&payload), Some(audio.clone()))
            }
            _ => panic!("expected a frame"),
        }
    }
}

#[test]
fn mulaw_decoding_follows_the_segment_formula_for_every_byte() {
    let bytes: Vec<u8> = (0..=255u8).collect();
    let decoded = decode_mulaw_samples(&bytes);
    for b in 0..=255u8 {
        let u = 255 - b as i32;
        let magnitude = ((u % 16) * 8 + 132) * (1 << ((u % 128) / 16)) - 132;
        let expected = if u >= 128 { -magnitude } else { magnitude };
        assert_eq!(decoded[b as usize] as i32, expected, "byte {}", b);
    }
}

#[test]
fn mulaw_encoding_follows_the_segment_formula_for_every_sample() {
    let samples: Vec<i16> = (i16::MIN..=i16::MAX).collect();
    let encoded = encode_mulaw_samples(&samples);
    for (k, &x) in samples.iter().enumerate() {
        let quarter = (x as i32).div_euclid(4);
        let magnitude = if x < 0 { -quarter - 1 } else { quarter };
        let v = magnitude + 33;
        let segment = (0..8).find(|s| v < 64 << s).unwrap_or(8);
        let code = if segment >= 8 { 127 } else { segment * 16 + (v >> (segment + 1)) % 16 };
        let sign = if x < 0 { 128 } else { 0 };
        assert_eq!(encoded[k] as i32, 255 - (sign + code), "sample {}", x);
    }
    assert_eq!(encode_mulaw_samples(&[0]), vec![0xFF]);
}
