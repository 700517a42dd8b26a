use hypai_ants::dispatch::{
    event_content, find_page, find_tab_ws, posted_notice_text, scraped_notice_text, AiryOutcome,
    DispatchMethod, PlazaEvent, PlazaOutcome, PlazaState, TabInfo,
};
use hypai_ants::plaza::{
    base64_decode, default_cdp_url, default_cody_session, default_port, default_true, shell_safe,
    GithubTarget, LocalTarget, PlazaConfig, PromptTemplate, ReviewerJsonConfig, TargetConfig,
};

fn reviewer(name: &str, rtype: &str, dispatch: &str, enabled: bool, scrape: bool) -> ReviewerJsonConfig {
    ReviewerJsonConfig {
        name: name.to_string(),
        display_name: format!("{} Display", name),
        reviewer_type: rtype.to_string(),
        dispatch: dispatch.to_string(),
        enabled,
        tmux_session: format!("{}-session", name),
        tab_match: "chatgpt.com".to_string(),
        scrape,
        entry_file: format!("{}.md", name),
    }
}

fn config() -> PlazaConfig {
    PlazaConfig {
        port: 3005,
        cdp_url: "http://localhost:9222".to_string(),
        cody_tmux_session: "cody".to_string(),
        target: TargetConfig {
            local: LocalTarget {
                repo_path: "/repo".to_string(),
                tape_file: "TAPE.md".to_string(),
                blessings_dir: "blessings".to_string(),
                frame_counter_file: String::new(),
            },
            github: GithubTarget {
                url: "https://github.com/x/y".to_string(),
                tape_url: "https://github.com/x/y/TAPE.md".to_string(),
                blessings_url: "https://github.com/x/y/blessings".to_string(),
            },
            branch: "main".to_string(),
        },
        frame_counter_start: 7,
        reviewers: vec![
            reviewer("codex", "cli", "tmux", true, false),
            reviewer("vale", "browser", "cdp", false, true),
            reviewer("gem", "self_push", "cdp", true, false),
        ],
        prompt_template: PromptTemplate {
            cli: "Read {local_tape} in {local_repo}, write {local_blessings}/{entry_file} as {name} on {branch}".to_string(),
            browser: "See {github_tape_url} at {github_url}".to_string(),
            self_push: "Push {entry_file} to {branch}".to_string(),
        },
    }
}

fn event(speaker: &str, frame: u64, topic: &str, b64: &str) -> PlazaEvent {
    PlazaEvent {
        speaker: speaker.to_string(),
        frame,
        topic: topic.to_string(),
        channel: "tape".to_string(),
        content_b64: b64.to_string(),
    }
}

#[test]
fn defaults_match_configuration_defaults() {
    assert_eq!(default_port(), 3005);
    assert_eq!(default_cdp_url(), "http://localhost:9222");
    assert_eq!(default_cody_session(), "cody");
    assert!(default_true());
}

#[test]
fn build_prompt_fills_every_placeholder() {
    let cfg = config();
    let p = cfg.build_prompt(&cfg.reviewers[0], "Frame 7 is up.");
    assert_eq!(
        p,
        "You are codex Display. Frame 7 is up. Read TAPE.md in /repo, write blessings/codex.md as codex on main"
    );
    let p = cfg.build_prompt(&cfg.reviewers[1], "c");
    assert_eq!(p, "You are vale Display. c See https://github.com/x/y/TAPE.md at https://github.com/x/y");
    let mut odd = cfg.reviewers[0].clone_for_test();
    odd.reviewer_type = "other".to_string();
    let p = cfg.build_prompt(&odd, "c");
    assert_eq!(p, "You are codex Display. c See https://github.com/x/y/TAPE.md at https://github.com/x/y");
}

trait CloneForTest {
    fn clone_for_test(&self) -> Self;
}

impl CloneForTest for ReviewerJsonConfig {
    fn clone_for_test(&self) -> Self {
        ReviewerJsonConfig {
            name: self.name.clone(),
            display_name: self.display_name.clone(),
            reviewer_type: self.reviewer_type.clone(),
            dispatch: self.dispatch.clone(),
            enabled: self.enabled,
            tmux_session: self.tmux_session.clone(),
            tab_match: self.tab_match.clone(),
            scrape: self.scrape,
            entry_file: self.entry_file.clone(),
        }
    }
}

#[test]
fn base64_decode_reads_padded_and_spaced_input() {
    assert_eq!(base64_decode("aGVsbG8="), Some(b"hello".to_vec()));
    assert_eq!(base64_decode("aGVs\nbG8gd29ybGQ="), Some(b"hello world".to_vec()));
    assert_eq!(base64_decode(""), Some(Vec::new()));
    assert_eq!(base64_decode("a*=="), None);
}

#[test]
fn shell_safe_strips_shell_metacharacters() {
    assert_eq!(shell_safe("it's $HOME; rm | x & `y`\nnext"), "it'\\''s HOME rm  x  y next");
    assert_eq!(shell_safe("plain text"), "plain text");
}

#[test]
fn unauthorized_requests_change_nothing() {
    let mut st = PlazaState::new(config(), "s3cret".to_string());
    assert!(matches!(st.handle_plaza("wrong", event("cody", 7, "t", "")), PlazaOutcome::Unauthorized));
    assert_eq!(st.queue.len(), 0);
    let (code, body) = st.handle_admin("", "status", "");
    assert_eq!((code, body.as_str()), (401, "unauthorized"));
    let mut empty_secret = PlazaState::new(config(), String::new());
    assert!(matches!(empty_secret.handle_plaza("", event("cody", 1, "t", "")), PlazaOutcome::Unauthorized));
}

#[test]
fn cody_post_queues_online_reviewers_in_order() {
    let mut st = PlazaState::new(config(), "k".to_string());
    assert!(matches!(st.handle_plaza("k", event("cody", 9, "topic", "")), PlazaOutcome::ReviewStarted));
    let idx: Vec<usize> = st.queue.iter().map(|(i, _)| *i).collect();
    assert_eq!(idx, vec![0, 2]);
    assert_eq!(st.subject_frame, Some(9));
    assert!(matches!(st.handle_plaza("k", event("cody", 10, "again", "")), PlazaOutcome::Busy));
    assert_eq!(st.queue.len(), 2);
}

#[test]
fn awaited_reviewer_post_advances_and_others_are_ignored() {
    let mut st = PlazaState::new(config(), "k".to_string());
    st.handle_plaza("k", event("cody", 9, "topic", ""));
    let (idx, _) = st.pop_next().unwrap();
    assert_eq!(idx, 0);
    assert_eq!(st.active_reviewer.as_deref(), Some("codex"));
    assert!(matches!(st.handle_plaza("k", event("gem", 9, "x", "")), PlazaOutcome::Ignored));
    assert!(matches!(st.handle_plaza("k", event("codex", 8, "old", "")), PlazaOutcome::Ignored));
    match st.handle_plaza("k", event("codex", 9, "reviewed", "")) {
        PlazaOutcome::Advanced { notice } => {
            assert_eq!(notice, "codex posted FRAME #9 — reviewed. Check the tape.")
        }
        _ => panic!("expected Advanced"),
    }
    assert!(st.active_reviewer.is_none());
    let (idx, _) = st.pop_next().unwrap();
    assert_eq!(idx, 2);
    st.finish_scrape();
    assert!(st.pop_next().is_none());
    assert!(st.active_reviewer.is_none());
}

#[test]
fn admin_toggles_and_reports_status() {
    let mut st = PlazaState::new(config(), "k".to_string());
    let (code, body) = st.handle_admin("k", "online", "vale");
    assert_eq!((code, body.as_str()), (200, "{\"vale\":\"online\"}"));
    let (code, body) = st.handle_admin("k", "status", "");
    assert_eq!(code, 200);
    assert_eq!(
        body,
        "{\"critics\":{\"codex\":\"online\",\"vale\":\"online\",\"gem\":\"online\"},\"queue_length\":0}"
    );
    let (code, _) = st.handle_admin("k", "offline", "all");
    assert_eq!(code, 200);
    assert!(st.status.iter().all(|s| !s.online));
    let (code, body) = st.handle_admin("k", "offline", "nobody");
    assert_eq!((code, body.as_str()), (400, "unknown critic: nobody"));
    let (code, body) = st.handle_admin("k", "reboot", "x");
    assert_eq!((code, body.as_str()), (400, "unknown action: reboot"));
}

#[test]
fn offline_reviewers_are_not_queued() {
    let mut st = PlazaState::new(config(), "k".to_string());
    st.handle_admin("k", "offline", "all");
    st.handle_plaza("k", event("cody", 1, "t", ""));
    assert_eq!(st.queue.len(), 0);
}

#[test]
fn dispatch_plan_picks_method_and_prompt() {
    let st = PlazaState::new(config(), "k".to_string());
    let e = event("cody", 3, "the topic", "aGVsbG8=");
    let p = st.dispatch_plan(0, &e);
    assert!(matches!(p.method, DispatchMethod::Tmux));
    assert!(p.message.starts_with("You are codex Display. hello "));
    assert!(matches!(st.dispatch_plan(1, &e).method, DispatchMethod::CdpScrape));
    assert!(matches!(st.dispatch_plan(2, &e).method, DispatchMethod::CdpSelfPush));
}

#[test]
fn event_content_falls_back_to_topic() {
    assert_eq!(event_content(&event("a", 1, "topic", "")), "topic");
    assert_eq!(event_content(&event("a", 1, "topic", "aGVsbG8=")), "hello");
    assert_eq!(event_content(&event("a", 1, "topic", "/w==")), "topic");
    assert_eq!(event_content(&event("a", 1, "topic", "!!")), "topic");
    assert_eq!(event_content(&event("a", 1, "Fix parser", "@@@@")), "Fix parser");
}

#[test]
fn airy_relay_outcomes() {
    let st = PlazaState::new(config(), "k".to_string());
    assert!(matches!(st.handle_airy("x", "ls"), AiryOutcome::Unauthorized));
    assert!(matches!(st.handle_airy("k", ""), AiryOutcome::Empty));
    match st.handle_airy("k", "echo $X; ok") {
        AiryOutcome::Send { keys } => assert_eq!(keys, "echo X ok"),
        _ => panic!("expected Send"),
    }
    let (code, text) = AiryOutcome::Empty.reply();
    assert_eq!((code, text), (200, "empty"));
}

#[test]
fn notices_read_as_sent_to_cody() {
    assert_eq!(posted_notice_text("gem", 12, "done"), "gem posted FRAME #12 — done. Check the tape.");
    assert_eq!(scraped_notice_text("Vale"), "Vale review scraped and pushed. Check the tape.");
}

#[test]
fn find_tab_ws_skips_codex_cloud_and_non_pages() {
    let tabs = vec![
        TabInfo { url: Some("https://chatgpt.com/codex/cloud".into()), tab_type: Some("page".into()), ws_url: Some("ws://a".into()), title: None },
        TabInfo { url: Some("https://ChatGPT.com/c/1".into()), tab_type: Some("worker".into()), ws_url: Some("ws://b".into()), title: None },
        TabInfo { url: Some("https://chatgpt.com/c/2".into()), tab_type: Some("page".into()), ws_url: Some("ws://c".into()), title: None },
    ];
    assert_eq!(find_tab_ws(&tabs, "ChatGPT.com"), Some("ws://c".to_string()));
    let broken = vec![TabInfo { url: None, tab_type: Some("page".into()), ws_url: None, title: None }];
    assert_eq!(find_tab_ws(&broken, "x"), None);
    let urls = vec!["https://gemini.google.com/codex/cloud".to_string(), "https://GEMINI.google.com/app".to_string()];
    assert_eq!(find_page(&urls, "gemini"), Some(1));
    assert_eq!(find_page(&urls, "grok"), None);
}

#[test]
fn find_tab_ws_matches_the_title_too() {
    let tabs = vec![TabInfo {
        url: Some("https://x.example/a".into()),
        tab_type: Some("page".into()),
        ws_url: Some("ws://1".into()),
        title: Some("ChatGPT".into()),
    }];
    assert_eq!(find_tab_ws(&tabs, "chatgpt"), Some("ws://1".to_string()));
    assert_eq!(find_tab_ws(&tabs, "gemini"), None);
}

#[test]
fn repeated_callback_advances_only_once() {
    let mut st = PlazaState::new(config(), "k".to_string());
    st.handle_plaza("k", event("cody", 9, "topic", ""));
    st.pop_next().unwrap();
    assert!(matches!(st.handle_plaza("k", event("codex", 9, "done", "")), PlazaOutcome::Advanced { .. }));
    let queued = st.queue.len();
    assert!(matches!(st.handle_plaza("k", event("codex", 9, "done", "")), PlazaOutcome::Ignored));
    assert!(matches!(st.handle_plaza("k", event("gem", 9, "early", "")), PlazaOutcome::Ignored));
    assert_eq!(st.queue.len(), queued);
    let (idx, _) = st.pop_next().unwrap();
    assert_eq!(idx, 2);
    assert!(matches!(st.handle_plaza("k", event("gem", 9, "done", "")), PlazaOutcome::Advanced { .. }));
}

#[test]
fn a_cycle_goes_on_only_after_a_scraped_turn() {
    let st = PlazaState::new(config(), "k".to_string());
    let e = event("cody", 3, "t", "");
    assert!(!st.dispatch_plan(0, &e).goes_on());
    assert!(st.dispatch_plan(1, &e).goes_on());
    assert!(!st.dispatch_plan(2, &e).goes_on());
}

#[test]
fn base64_decode_reads_unpadded_input() {
    assert_eq!(base64_decode("aGVsbG8"), Some(b"hello".to_vec()));
    assert_eq!(base64_decode("aGk"), Some(b"hi".to_vec()));
    assert_eq!(base64_decode("aGVs bG8\t"), base64_decode("aGVsbG8"));
}
