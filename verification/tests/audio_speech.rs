use hypai_ants::buffers::{append_copies, decimate, keep_last, take_front};
use hypai_ants::capture::{bridge_step, ear_skip, find_device};
use hypai_ants::digi::{DigiConfig, IdleAction, PhoneInBuffer, PHONE_IN_BUFFER_SIZE};
use hypai_ants::phone_silero;
use hypai_ants::silero::{self, to_stt_rate};
use hypai_ants::tts::{
    check_voice_size, is_flush_command, pad_tokens, select_voice, split_sentences, style_row, style_vector,
    token_error_text, voice_path, voice_prefix, TokenError,
};
use hypai_ants::vad::{samples_for_ms, VadEvent, VadLimits, VadState, VadTracker};

#[test]
fn buffers_take_keep_and_thin() {
    let mut v = vec![1, 2, 3, 4, 5];
    assert_eq!(take_front(&mut v, 2), vec![1, 2]);
    assert_eq!(v, vec![3, 4, 5]);
    keep_last(&mut v, 2);
    assert_eq!(v, vec![4, 5]);
    append_copies(&mut v, &[6, 7]);
    assert_eq!(v, vec![4, 5, 6, 7]);
    assert_eq!(decimate(&[0, 1, 2, 3, 4, 5, 6], 3), vec![0, 3, 6]);
    assert_eq!(to_stt_rate(&[1.0f32, 2.0, 3.0, 4.0]), vec![1.0f32, 4.0]);
}

#[test]
fn phone_buffer_drains_whole_chunks() {
    let mut b = PhoneInBuffer::new();
    b.push_packet(&[]);
    assert!(!b.stream_active);
    b.push_packet(&vec![1u8; 3500]);
    let chunks = b.drain_full_chunks();
    assert_eq!(chunks.len(), 2);
    assert!(chunks.iter().all(|c| c.len() == PHONE_IN_BUFFER_SIZE));
    assert_eq!(b.buf.len(), 300);
    assert!(b.has_pending_data);
    let total: usize = chunks.iter().map(|c| c.len()).sum::<usize>() + b.buf.len();
    assert_eq!(total, 3500);
}

#[test]
fn phone_buffer_flushes_with_silence_after_timeout() {
    let cfg = DigiConfig::default();
    assert_eq!(cfg.vad_closure_samples(), 8192);
    let mut b = PhoneInBuffer::new();
    b.push_packet(&[9u8; 100]);
    assert!(matches!(b.on_idle(300, &cfg), IdleAction::Nothing));
    match b.on_idle(301, &cfg) {
        IdleAction::Flush { chunk, padding, silence_samples } => {
            assert_eq!(chunk.len(), 1600);
            assert_eq!(padding, 1500);
            assert!(chunk[..100].iter().all(|&x| x == 9) && chunk[100..].iter().all(|&x| x == 0xFF));
            assert_eq!(silence_samples, 8192);
        }
        _ => panic!("expected a flush"),
    }
    assert!(!b.stream_active);
    assert!(matches!(b.on_idle(1000, &cfg), IdleAction::Nothing));
}

#[test]
fn phone_buffer_closes_stream_on_chunk_boundary() {
    let cfg = DigiConfig::default();
    let mut b = PhoneInBuffer::new();
    b.push_packet(&vec![1u8; 1600]);
    b.drain_full_chunks();
    assert!(matches!(b.on_idle(500, &cfg), IdleAction::Close { silence_samples: 8192 }));
    assert!(!b.stream_active);
}

fn limits() -> VadLimits {
    VadLimits { silence_frames_to_end: 3, min_samples: 4, max_samples: 100 }
}

#[test]
fn vad_publishes_after_trailing_silence() {
    let mut t: VadTracker<i32> = VadTracker::new();
    assert!(matches!(t.step(&[0, 0], false, limits()), VadEvent::Quiet));
    assert!(matches!(t.step(&[1, 2], true, limits()), VadEvent::SpeechStarted));
    assert!(matches!(t.step(&[3, 4], true, limits()), VadEvent::Quiet));
    assert!(matches!(t.step(&[5], false, limits()), VadEvent::Quiet));
    assert!(matches!(t.state, VadState::Trailing));
    assert!(matches!(t.step(&[6], false, limits()), VadEvent::Quiet));
    match t.step(&[7], false, limits()) {
        VadEvent::Published(u) => assert_eq!(u, vec![1, 2, 3, 4, 5, 6, 7]),
        _ => panic!("expected publish"),
    }
    assert!(matches!(t.state, VadState::Silence));
    assert!(t.utterance.is_empty());
}

#[test]
fn vad_drops_short_and_cuts_long_utterances() {
    let short = VadLimits { silence_frames_to_end: 2, min_samples: 10, max_samples: 100 };
    let mut t: VadTracker<i32> = VadTracker::new();
    t.step(&[1], true, short);
    t.step(&[2], false, short);
    assert!(matches!(t.step(&[3], false, short), VadEvent::TooShort));
    let long = VadLimits { silence_frames_to_end: 2, min_samples: 1, max_samples: 4 };
    let mut t: VadTracker<i32> = VadTracker::new();
    t.step(&[1, 2], true, long);
    match t.step(&[3, 4], true, long) {
        VadEvent::Published(u) => assert_eq!(u, vec![1, 2, 3, 4]),
        _ => panic!("expected a cut"),
    }
}

#[test]
fn vad_end_of_stream_takes_leftovers() {
    let mut t: VadTracker<i32> = VadTracker::new();
    t.step(&[1, 2], true, limits());
    let mut rest = vec![3, 4];
    match t.end_stream(&mut rest, limits()) {
        VadEvent::Published(u) => assert_eq!(u, vec![1, 2, 3, 4]),
        _ => panic!("expected publish"),
    }
    assert!(rest.is_empty());
    let mut none: Vec<i32> = vec![5];
    assert!(matches!(t.end_stream(&mut none, limits()), VadEvent::Quiet));
    assert!(none.is_empty());
}

#[test]
fn detector_limits_in_samples() {
    assert_eq!(samples_for_ms(500, 48000), 24000);
    let m = silero::SileroConfig::default().limits();
    assert_eq!((m.silence_frames_to_end, m.min_samples, m.max_samples), (20, 24000, 480000));
    let p = phone_silero::SileroConfig::default().limits();
    assert_eq!((p.min_samples, p.max_samples), (8000, 160000));
    assert!(phone_silero::stream_cleanup_due(true, false, 2001));
    assert!(!phone_silero::stream_cleanup_due(true, false, 2000));
    assert!(!phone_silero::stream_cleanup_due(true, true, 5000));
}

#[test]
fn split_sentences_keeps_short_text_whole() {
    assert_eq!(split_sentences("Hello there. How are you?"), vec!["Hello there. How are you?"]);
    assert_eq!(split_sentences(""), vec![""]);
}

#[test]
fn split_sentences_chunks_long_text_without_loss() {
    let sentence = "This sentence has exactly forty bytes!! ";
    assert_eq!(sentence.len(), 40);
    let text = sentence.repeat(10);
    let chunks = split_sentences(&text);
    assert!(chunks.len() >= 2);
    assert!(chunks.iter().all(|c| c.len() <= 300 + 40));
    assert_eq!(chunks.concat(), text);
}

#[test]
fn split_sentences_breaks_long_sentence_on_clauses() {
    let clause = "a clause that runs on and on, ";
    let text = clause.repeat(15) + "end.";
    let chunks = split_sentences(&text);
    assert!(chunks.len() >= 2);
    assert_eq!(chunks.concat(), text);
    assert!(chunks[0].ends_with(','));
}

#[test]
fn tokens_and_styles() {
    assert!(matches!(pad_tokens(&vec![1, 2]), Err(TokenError::TooFew)));
    assert_eq!(pad_tokens(&vec![5, 6, 7]).ok(), Some(vec![0, 5, 6, 7, 0]));
    let many = vec![1i64; 2001];
    match pad_tokens(&many) {
        Err(e) => assert_eq!(token_error_text(&e), "too many tokens (2001) — max 2000"),
        Ok(_) => panic!("expected refusal"),
    }
    assert_eq!(token_error_text(&TokenError::TooFew), "too few tokens");
    assert_eq!(style_row(3), 3);
    assert_eq!(style_row(900), 509);
    let voice: Vec<u32> = (0..510 * 256).collect();
    let s = style_vector(&voice, 2);
    assert_eq!(s.len(), 256);
    assert_eq!(s[0], 512);
    assert_eq!(style_vector(&voice, 5000)[255], 509 * 256 + 255);
}

#[test]
fn voice_prefix_selection() {
    assert_eq!(voice_prefix("bm_george:Hello"), Some(("bm_george".to_string(), "Hello".to_string())));
    assert_eq!(voice_prefix("Note that: this"), None);
    assert_eq!(voice_prefix("Note: this"), Some(("Note".to_string(), " this".to_string())));
    assert_eq!(voice_prefix("no colon"), None);
    assert_eq!(select_voice("bm_george:Hi", true), ("bm_george".to_string(), "Hi".to_string()));
    assert_eq!(select_voice("bm_george:Hi", false), ("af_heart".to_string(), "bm_george:Hi".to_string()));
    assert_eq!(voice_path("af_heart"), "/Users/rocketman/crystalballmini/voices-v1.0/af_heart.bin");
    assert!(check_voice_size(522240).is_ok());
    assert_eq!(check_voice_size(4), Err("wrong voice size".to_string()));
    assert!(is_flush_command(&[1, 9]));
    assert!(!is_flush_command(&[2]));
    assert!(!is_flush_command(&[]));
}

#[test]
fn device_search_and_frame_steps() {
    let names = vec![None, Some("MacBook Mic".to_string()), Some("BlackHole 16ch".to_string())];
    assert_eq!(find_device(&names, "blackhole 16CH"), Some(2));
    assert_eq!(find_device(&names, "BlackHole 2ch"), None);
    assert_eq!(ear_skip(48000), 3);
    assert_eq!(ear_skip(16000), 1);
    assert_eq!(bridge_step(48000), 2);
    assert_eq!(bridge_step(16000), 1);
}

#[test]
fn split_sentences_never_gives_an_empty_chunk_for_text() {
    let text = "One. Two! ".repeat(40) + "  ";
    let chunks = split_sentences(&text);
    assert!(!chunks.is_empty());
    assert!(chunks.iter().all(|c| !c.is_empty()));
    assert_eq!(split_sentences(" "), vec![" "]);
}

#[test]
fn split_sentences_keeps_chunks_under_the_limit_unless_unsplittable() {
    let long_clause = "x".repeat(400) + ".";
    assert_eq!(split_sentences(&long_clause), vec![long_clause.clone()]);
    let text = "Short one. ".repeat(20) + &"y".repeat(350) + ", tail; end.";
    let chunks = split_sentences(&text);
    assert_eq!(chunks.concat(), text);
    for c in &chunks {
        let inner = &c[..c.len() - 1];
        let unsplittable = !inner.contains(|ch: char| ".!?,;—".contains(ch));
        assert!(c.len() <= 300 || unsplittable, "chunk {:?}", c);
    }
}
