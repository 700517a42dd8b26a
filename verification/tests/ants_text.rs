use hypai_ants::airy::{awaiting_confirmation, confirmed_reply, find_airy_tab, no_tab_error, scrape_script, AiryChat, PageInfo, AIRY_POLLS};
use hypai_ants::llm::{
    conversation, failure_text, plan_think, History, LlmConfig, LlmFailure, Provider, ThinkPlan,
};
use hypai_ants::recorder::{byte_range, byte_row, parse_count, plan, reads_samples, recording_path, RecorderPlan};
use hypai_ants::router::{mode_name, parse_mode, route, status_json, Route, RouterState, MODE_AIRY, MODE_CONSOLE, MODE_LLM, MODE_OFF};
use hypai_ants::scrape::{
    GitStep, PushRetry,
    classify_poll, commit_message, focus_result, lost_tab_message, missing_tab_message, validate_scrape,
    PollReply, ScrapeError, ScrapeProgress, ScrapeTarget,
};
use hypai_ants::speaker::{
    byte_to_name, command_to_byte, control_for, control_name, is_ready_line, mic_frame, parse_command,
    speaker_count, MicFrame,
};
use hypai_ants::text::{decimal, join, replace_str, signed_decimal, trim};
use hypai_ants::transcript::{
    classify_worker_line, clean_transcript, heard_line, payload_text, pulse_text, stt_frame, typed_text,
    SttFrame, WorkerLine,
};

fn strings(v: &[&str]) -> Vec<String> {
    v.iter().map(|s| s.to_string()).collect()
}

#[test]
fn text_basics() {
    assert_eq!(trim("  \t hi there \n"), "hi there");
    assert_eq!(replace_str("aaa", "aa", "b"), "ba");
    assert_eq!(decimal(0), "0");
    assert_eq!(decimal(1234567890), "1234567890");
    assert_eq!(signed_decimal(-42), "-42");
    assert_eq!(signed_decimal(i64::MIN), "-9223372036854775808");
    assert_eq!(join(&strings(&["a", "b", "c"]), ", "), "a, b, c");
}

#[test]
fn payload_text_and_heard_lines() {
    assert_eq!(payload_text(b"  hello \n"), "hello");
    assert_eq!(payload_text(&[0xFF, 0xFE]), "");
    assert_eq!(heard_line(b" hi "), Some("hi".to_string()));
    assert_eq!(heard_line(b"   "), None);
    assert_eq!(heard_line(&[0xC3]), Some("<invalid utf8>".to_string()));
}

#[test]
fn pulse_joins_arguments() {
    assert_eq!(pulse_text(&strings(&["pulse"])), None);
    assert_eq!(pulse_text(&strings(&["pulse", "hello", "world"])), Some("hello world".to_string()));
}

#[test]
fn worker_lines_and_frames() {
    assert!(matches!(classify_worker_line("  \n"), WorkerLine::Blank));
    assert!(matches!(classify_worker_line("<empty>\n"), WorkerLine::NoSpeech));
    assert!(matches!(classify_worker_line(" <error>"), WorkerLine::Failed));
    match classify_worker_line(" Hello world.\n") {
        WorkerLine::Text { text } => assert_eq!(text, "Hello world."),
        _ => panic!("expected text"),
    }
    assert!(matches!(stt_frame(6), SttFrame::Misaligned));
    assert!(matches!(stt_frame(0), SttFrame::Empty));
    assert!(matches!(stt_frame(64000), SttFrame::Samples { count: 16000 }));
}

#[test]
fn transcripts_are_cleaned_before_typing() {
    assert_eq!(clean_transcript("Open the file... and then"), "Open the file");
    assert_eq!(clean_transcript("Thank you. THANK YOU FOR WATCHING"), "Thank you");
    assert_eq!(clean_transcript("It's well-known —"), "It's well-known");
    assert_eq!(clean_transcript("Hello.é"), "Hello");
    assert_eq!(typed_text(b"  Run it now.  "), Some("Run it now".to_string()));
    assert_eq!(typed_text(b"A..."), None);
    assert_eq!(typed_text(b"   "), None);
    assert_eq!(typed_text(b"ok"), Some("ok".to_string()));
    assert_eq!(typed_text(b"NASA rocks"), Some("NASA rocks".to_string()));
    assert_eq!(typed_text(b"HELLO"), None);
}

#[test]
fn speaker_commands() {
    assert_eq!(command_to_byte("flush"), Some(1));
    assert_eq!(command_to_byte("stop"), Some(1));
    assert_eq!(command_to_byte("pause"), Some(2));
    assert_eq!(command_to_byte("play"), Some(3));
    assert_eq!(command_to_byte("Play"), None);
    assert_eq!(parse_command("Play"), Ok(3));
    assert_eq!(parse_command("Skip"), Err("Unknown command 'skip'. Use: flush, pause, resume".to_string()));
    assert_eq!(byte_to_name(2), "PAUSE");
    assert_eq!(byte_to_name(9), "UNKNOWN");
    assert_eq!(control_name(0), "-");
    assert_eq!(control_name(3), "RESUME");
    assert_eq!(control_name(4), "UNKNOWN");
}

#[test]
fn patchbay_framing() {
    let c = control_for(&[1, 7]).unwrap();
    assert_eq!((c.code, c.flush), (-1, true));
    let c = control_for(&[3]).unwrap();
    assert_eq!((c.code, c.flush), (-3, false));
    assert!(control_for(&[]).is_none());
    assert!(matches!(mic_frame(0), MicFrame::Skip));
    assert!(matches!(mic_frame(4800001), MicFrame::TooLarge));
    assert!(matches!(mic_frame(480), MicFrame::Read { bytes: 1920 }));
    assert!(is_ready_line("<ready>\n"));
    assert!(!is_ready_line("ready"));
    assert_eq!(speaker_count(3), None);
    assert_eq!(speaker_count(9), Some(2));
}

#[test]
fn router_modes_and_bridge() {
    assert_eq!(mode_name(MODE_LLM), "llm");
    assert_eq!(mode_name(9), "unknown");
    assert_eq!(parse_mode("airy"), Some(MODE_AIRY));
    assert_eq!(parse_mode("Airy"), None);
    assert!(matches!(route(MODE_CONSOLE, 3), Route::Console));
    assert!(matches!(route(MODE_LLM, 3), Route::Llm));
    assert!(matches!(route(MODE_LLM, 0), Route::Dropped));
    assert!(matches!(route(MODE_AIRY, 3), Route::Dropped));
    assert!(matches!(route(MODE_OFF, 3), Route::Dropped));
    let mut r = RouterState::new();
    assert_eq!(status_json(r.mode), "{\"mode\":\"console\"}");
    let (reply, change) = r.switch("airy");
    assert_eq!(reply, "{\"mode\":\"airy\"}");
    assert!(change.start && !change.stop && r.bridge_running);
    let (_, change) = r.switch("airy");
    assert!(!change.start && !change.stop);
    let (reply, change) = r.switch("bogus");
    assert_eq!(reply, "{\"error\":\"unknown mode: bogus\"}");
    assert!(!change.start && !change.stop && r.mode == MODE_AIRY);
    let (_, change) = r.switch("off");
    assert!(change.stop && !r.bridge_running && r.mode == MODE_OFF);
}

#[test]
fn recorder_command_line() {
    assert!(matches!(plan(&strings(&["rec", "phone_in"])), RecorderPlan::Usage));
    match plan(&strings(&["rec", "phone_in", "phone_stt", "20"])) {
        RecorderPlan::Concurrent { bus1, bus2, max_msgs } => {
            assert_eq!((bus1.as_str(), bus2.as_str(), max_msgs), ("phone_in", "phone_stt", 20))
        }
        _ => panic!("expected concurrent"),
    }
    match plan(&strings(&["rec", "phone_stt", "10", "f32"])) {
        RecorderPlan::Single { bus, max_msgs, bus_type } => {
            assert_eq!((bus.as_str(), max_msgs, bus_type.as_str()), ("phone_stt", 10, "f32"));
            assert!(reads_samples(&bus_type));
        }
        _ => panic!("expected single"),
    }
    match plan(&strings(&["rec", "phone_in", "+5"])) {
        RecorderPlan::Single { max_msgs, bus_type, .. } => assert_eq!((max_msgs, bus_type.as_str()), (5, "u8")),
        _ => panic!("expected single"),
    }
    assert!(matches!(plan(&strings(&["rec", "phone_in", "many"])), RecorderPlan::BadCount));
}

#[test]
fn counts_parse_like_usize() {
    assert_eq!(parse_count("0"), Some(0));
    assert_eq!(parse_count("+17"), Some(17));
    assert_eq!(parse_count(""), None);
    assert_eq!(parse_count("+"), None);
    assert_eq!(parse_count("-1"), None);
    assert_eq!(parse_count("1 2"), None);
    assert_eq!(parse_count("18446744073709551615"), "18446744073709551615".parse::<usize>().ok());
    assert_eq!(parse_count("99999999999999999999999"), None);
}

#[test]
fn recorder_rows() {
    assert_eq!(byte_range(&[]), (0, 0));
    assert_eq!(byte_range(&[5, 200, 17]), (5, 200));
    assert_eq!(byte_row(3, 120, &[0x7F, 0xFF, 0x00]), "3,120,3,3,0,255");
    assert_eq!(byte_row(1, 0, &[]), "1,0,0,0,0,0");
    assert_eq!(recording_path("phone_in", 1700000000), "/tmp/rec-phone_in-1700000000.csv");
}

#[test]
fn scrape_polls_until_an_answer() {
    match classify_poll("SCRAPED:  the answer") {
        PollReply::Scraped { text } => assert_eq!(text, "  the answer"),
        _ => panic!("expected an answer"),
    }
    assert!(matches!(classify_poll("streaming"), PollReply::Streaming));
    assert!(matches!(classify_poll("empty"), PollReply::Other));
    let mut p = ScrapeProgress::new();
    p.record(None);
    p.record(Some("streaming"));
    assert!(p.should_poll());
    p.record(Some("SCRAPED:review text"));
    assert!(!p.should_poll());
    assert_eq!(p.attempts, 3);
    assert_eq!(p.answer(), "review text");
    let mut q = ScrapeProgress::new();
    for _ in 0..24 {
        assert!(q.should_poll());
        q.record(Some("streaming"));
    }
    assert!(!q.should_poll());
    assert_eq!(q.answer(), "");
}

#[test]
fn scraped_answers_are_size_checked() {
    assert!(matches!(validate_scrape(""), Err(ScrapeError::Empty)));
    assert!(matches!(validate_scrape("too short"), Err(ScrapeError::TooShort { bytes: 9 })));
    assert!(validate_scrape("this answer is long enough").is_ok());
    let big = "x".repeat(50001);
    assert!(matches!(validate_scrape(&big), Err(ScrapeError::TooLarge { bytes: 50001 })));
    assert!(validate_scrape(&"x".repeat(50000)).is_ok());
}

#[test]
fn scrape_target_paths_and_messages() {
    let t = ScrapeTarget::from_settings(None, Some("/home/u".into()), None, None);
    assert_eq!(t.repo_path, "/home/u/dodo-bird-c3-tion-777333");
    assert_eq!(t.branch, "main");
    assert_eq!(t.entry_path("vale.md"), "/home/u/dodo-bird-c3-tion-777333/blessings/vale.md");
    assert_eq!(t.add_path("vale.md"), "blessings/vale.md");
    let t = ScrapeTarget::from_settings(Some("/r".into()), None, Some("dev".into()), Some("b".into()));
    assert_eq!((t.repo_path.as_str(), t.branch.as_str(), t.blessings_dir.as_str()), ("/r", "dev", "b"));
    let t = ScrapeTarget::from_settings(None, None, None, None);
    assert_eq!(t.repo_path, "/dodo-bird-c3-tion-777333");
    assert_eq!(commit_message("Vale"), "Vale review via plaza-ant scrape");
    assert_eq!(missing_tab_message("gemini", "Gem", 12), "no tab matching 'gemini' — Gem will miss FRAME #12");
    assert_eq!(focus_result("focused: ql-editor"), Ok(()));
    assert_eq!(focus_result("no input"), Err("could not focus input: no input".to_string()));
    assert_eq!(lost_tab_message("Gem"), "lost tab for Gem");
}

#[test]
fn airy_tab_and_polling() {
    let pages = vec![
        PageInfo { url: Some("https://accounts.google.com/chat.example".into()), title: None, ws_url: Some("ws://x".into()) },
        PageInfo { url: None, title: Some("Chat - CHAT.EXAMPLE".into()), ws_url: Some("ws://y".into()) },
    ];
    assert_eq!(find_airy_tab(&pages, "chat.example"), Some("ws://y".to_string()));
    let excluded = vec![PageInfo {
        url: Some("https://www.youtube.com/chat.example".into()),
        title: Some("chat.example".into()),
        ws_url: Some("ws://z".into()),
    }];
    assert_eq!(find_airy_tab(&excluded, "chat.example"), None);
    let s = scrape_script(".msg", 3);
    assert!(s.starts_with("(() => {\n                const msgs = document.querySelectorAll('.msg');\n"));
    assert!(s.contains("if (msgs.length > 3) {"));
    assert!(s.ends_with("})()"));
    assert!(scrape_script(".msg", -2).contains("> -2)"));
    assert_eq!(no_tab_error("chat.example"), "No chat.example tab found in Chrome");
    assert_eq!(awaiting_confirmation("short"), None);
    assert_eq!(awaiting_confirmation("longer"), Some(6));
    assert_eq!(confirmed_reply(6, "longer!".to_string()), Some("longer!".to_string()));
    assert_eq!(confirmed_reply(6, "short".to_string()), None);
}

#[test]
fn llm_defaults_and_plans() {
    let cfg = LlmConfig::default();
    assert_eq!((cfg.provider.as_str(), cfg.model.as_str()), ("ollama", "gemma4"));
    assert_eq!(cfg.url, "http://localhost:11434/api/chat");
    assert_eq!((cfg.max_tokens, cfg.timeout_secs), (50, 30));
    let history = vec![("hi".to_string(), "hello".to_string())];
    match plan_think(&cfg, "how are you", &history, "") {
        ThinkPlan::Ollama { messages } => {
            let roles: Vec<&str> = messages.iter().map(|m| m.role.as_str()).collect();
            assert_eq!(roles, vec!["system", "user", "assistant", "user"]);
            assert_eq!(messages[3].content, "how are you");
        }
        _ => panic!("expected ollama"),
    }
    let mut a = LlmConfig::default();
    a.provider = "anthropic".to_string();
    a.api_key_env = "ANTHROPIC_KEY".to_string();
    match plan_think(&a, "q", &history, "") {
        ThinkPlan::Fail { error } => {
            assert_eq!(error, "API key env var 'ANTHROPIC_KEY' not set — check Keychain + .bashrc")
        }
        _ => panic!("expected a missing key"),
    }
    match plan_think(&a, "q", &history, "k-1") {
        ThinkPlan::Anthropic { api_key, messages } => {
            assert_eq!(api_key, "k-1");
            assert_eq!(messages.len(), 3);
            assert_eq!(messages[0].role, "user");
        }
        _ => panic!("expected anthropic"),
    }
    a.provider = "gemini".to_string();
    match plan_think(&a, "q", &history, "k") {
        ThinkPlan::Fail { error } => assert_eq!(error, "Unknown provider: gemini"),
        _ => panic!("expected unknown provider"),
    }
    assert_eq!(conversation(None, &Vec::new(), "x").len(), 1);
}

#[test]
fn llm_failure_texts() {
    let long_body = "b".repeat(250);
    let f = LlmFailure::Status { status: "529 <unknown status code>".into(), body: long_body };
    let t = failure_text(&Provider::Anthropic, &f);
    assert_eq!(t, format!("Anthropic HTTP 529 <unknown status code> — {}", "b".repeat(200)));
    let f = LlmFailure::Status { status: "404 Not Found".into(), body: "x".into() };
    assert_eq!(failure_text(&Provider::Ollama, &f), "Ollama HTTP 404 Not Found");
    assert_eq!(failure_text(&Provider::Ollama, &LlmFailure::NoContent), "Ollama: no message.content in response");
    assert_eq!(failure_text(&Provider::Anthropic, &LlmFailure::NoContent), "Anthropic: no content[0].text in response");
    assert_eq!(failure_text(&Provider::Anthropic, &LlmFailure::Request { detail: "timeout".into() }), "Anthropic request: timeout");
    assert_eq!(failure_text(&Provider::Ollama, &LlmFailure::ClientBuild { detail: "tls".into() }), "Client build: tls");
    assert_eq!(failure_text(&Provider::Ollama, &LlmFailure::Parse { detail: "eof".into() }), "Parse: eof");
}

#[test]
fn history_keeps_the_ten_newest() {
    let mut h = History::new();
    for i in 0..13 {
        h.record(format!("q{}", i), format!("a{}", i));
    }
    assert_eq!(h.exchanges.len(), 10);
    assert_eq!(h.exchanges[0].0, "q3");
    assert_eq!(h.exchanges[9].1, "a12");
}

#[test]
fn airy_wait_times_out_after_thirty_short_polls() {
    let mut chat = AiryChat::new();
    let mut polls = 0;
    while chat.should_poll() {
        assert!(!chat.wants_second_read("hi"));
        chat.record("hi", None);
        polls += 1;
    }
    assert_eq!(polls, 30);
    assert_eq!(AIRY_POLLS, 30);
    assert_eq!(chat.outcome(), Err("Timeout waiting for Airy's response".to_string()));
}

#[test]
fn airy_answer_is_the_confirming_read() {
    let mut chat = AiryChat::new();
    assert!(chat.wants_second_read("Hello th"));
    chat.record("Hello th", Some("Hello".to_string()));
    assert!(chat.should_poll());
    chat.record("Hello there", Some("Hello there, friend".to_string()));
    assert!(!chat.should_poll());
    assert_eq!(chat.polls, 2);
    assert_eq!(chat.outcome(), Ok("Hello there, friend".to_string()));
}

fn push_target() -> ScrapeTarget {
    ScrapeTarget { repo_path: "/r".to_string(), branch: "main".to_string(), blessings_dir: "b".to_string() }
}

#[test]
fn publishing_runs_pull_add_commit_push_and_stops_after_the_push() {
    let t = push_target();
    let mut p = PushRetry::new();
    let mut ran: Vec<Vec<String>> = Vec::new();
    while let Some(cmd) = p.next_command(&t, "vale.md", "Vale") {
        ran.push(cmd);
        p.record(true, true);
    }
    let expect: Vec<Vec<String>> = vec![
        vec!["pull".into(), "--no-rebase".into()],
        vec!["add".into(), "b/vale.md".into()],
        vec!["commit".into(), "-m".into(), "Vale review via plaza-ant scrape".into()],
        vec!["push".into(), "origin".into(), "main".into()],
    ];
    assert_eq!(ran, expect);
    assert!(p.pushed());
}

#[test]
fn publishing_gives_up_after_three_failed_rounds() {
    let t = push_target();
    let mut p = PushRetry::new();
    let mut count = 0;
    let mut pauses = 0;
    while let Some(_) = p.next_command(&t, "x.md", "X") {
        count += 1;
        if p.record(true, false) {
            pauses += 1;
        }
    }
    assert_eq!(count, 12);
    assert_eq!(pauses, 3);
    assert!(!p.pushed());
    let mut q = PushRetry::new();
    assert!(matches!(q.next, GitStep::Pull));
    assert!(!q.record(false, false));
    assert_eq!(q.rounds, 1);
    assert!(matches!(q.next, GitStep::Pull));
}

#[test]
fn white_space_is_the_listed_code_points() {
    let listed = |u: u32| {
        (0x09..=0x0d).contains(&u)
            || u == 0x20
            || u == 0x85
            || u == 0xa0
            || u == 0x1680
            || (0x2000..=0x200a).contains(&u)
            || u == 0x2028
            || u == 0x2029
            || u == 0x202f
            || u == 0x205f
            || u == 0x3000
    };
    for u in 0..=0x10ffffu32 {
        if let Some(c) = char::from_u32(u) {
            assert_eq!(c.is_whitespace(), listed(u), "U+{:04X}", u);
            if u <= 0x3100 {
                assert_eq!(trim(&c.to_string()).is_empty(), listed(u), "U+{:04X}", u);
            }
        }
    }
}
