use moly::botid::parse_bot_id_string;
use moly::chat::{
    mode_reply_text, strip_stale_errors, transcribe_message, welcome_send, ChatMode, ConfigureOutcome,
    FetchProgress, LoadedOutcome, MessageMeta, ModeSession, RestoreTracker, Sender, StartOutcome,
};
use moly::models::set_model_enabled;
use moly::http::{api_error_text, byte_prefix};
use moly::media::wav_timing;
use moly::providers::{add_custom_provider, delete_custom_provider, ProviderPreferences};
use moly::runtime::first_line_pid;
use moly::shell::{listed_chats, sidebar_chats, sidebar_show_more, sidebar_title, ChatSummary};
use moly::text::parse_i32;

#[test]
fn i32_parsing_follows_from_str() {
    assert_eq!(parse_i32("42"), Some(42));
    assert_eq!(parse_i32("+42"), Some(42));
    assert_eq!(parse_i32("-42"), Some(-42));
    assert_eq!(parse_i32("-2147483648"), Some(i32::MIN));
    assert_eq!(parse_i32("2147483647"), Some(i32::MAX));
    assert_eq!(parse_i32("2147483648"), None);
    assert_eq!(parse_i32("-2147483649"), None);
    assert_eq!(parse_i32("-"), None);
    assert_eq!(parse_i32("+"), None);
    assert_eq!(parse_i32("-+1"), None);
    assert_eq!(parse_i32("+-1"), None);
    assert_eq!(parse_i32(""), None);
    assert_eq!(parse_i32(" 1"), None);
}

#[test]
fn pgrep_output_gives_first_pid() {
    assert_eq!(first_line_pid("1234\n5678\n"), Some(1234));
    assert_eq!(first_line_pid("  77  \n"), Some(77));
    assert_eq!(first_line_pid(""), None);
    assert_eq!(first_line_pid("\n12\n"), None);
    assert_eq!(first_line_pid("abc\n"), None);
}

fn wav(len: usize, rate: u32) -> Vec<u8> {
    let mut v = vec![0u8; len];
    if len >= 32 {
        v[28..32].copy_from_slice(&rate.to_le_bytes());
    }
    v
}

#[test]
fn wav_header_timing() {
    assert_eq!(wav_timing(&wav(44 + 32000, 32000)), Some((32000, 32000)));
    assert_eq!(wav_timing(&wav(44, 0x0102_0304)), Some((0, 0x0102_0304)));
    assert_eq!(wav_timing(&wav(100, 0)), None);
    assert_eq!(wav_timing(&wav(43, 1000)), None);
}

#[test]
fn mode_replies() {
    let ok = |s: &str| Ok::<String, String>(s.to_string());
    let err = |s: &str| Err::<String, String>(s.to_string());
    assert_eq!(mode_reply_text(ChatMode::Llm, &ok("x"), false, "", 0), None);
    assert_eq!(mode_reply_text(ChatMode::Vlm, &ok("a cat"), false, "", 0).as_deref(), Some("a cat"));
    assert_eq!(mode_reply_text(ChatMode::Asr, &err("down"), false, "", 0).as_deref(), Some("Transcription error: down"));
    assert_eq!(
        mode_reply_text(ChatMode::Tts, &ok("/tmp/x.wav"), false, "serena", 125).as_deref(),
        Some("Voice: serena | Duration: 2:05")
    );
    assert_eq!(mode_reply_text(ChatMode::ImageGen, &ok("/tmp/i.png"), true, "", 0).as_deref(), Some(""));
    assert_eq!(
        mode_reply_text(ChatMode::ImageGen, &ok("/tmp/i.png"), false, "", 0).as_deref(),
        Some("Image saved to: /tmp/i.png")
    );
    assert_eq!(
        mode_reply_text(ChatMode::VideoGen, &ok("/tmp/v.mp4"), false, "", 0).as_deref(),
        Some("Video generated: /tmp/v.mp4")
    );
    assert_eq!(
        mode_reply_text(ChatMode::VideoGen, &err("busy"), false, "", 0).as_deref(),
        Some("Video generation error: busy")
    );
}

#[test]
fn api_errors_and_prefixes() {
    assert_eq!(api_error_text(500, "boom"), "API error 500 Internal Server Error: boom");
    assert_eq!(byte_prefix("hello", 3), "hel");
    assert_eq!(byte_prefix("hello", 500), "hello");
    assert_eq!(byte_prefix("héllo", 3), "hé");
    assert_eq!(byte_prefix("", 0), "");
}

#[test]
fn delete_undoes_add() {
    let mut ps = vec![ProviderPreferences::new("openai", "OpenAI", "https://a")];
    add_custom_provider(&mut ps, "Local", "http://l", "").unwrap();
    assert_eq!(ps.len(), 2);
    delete_custom_provider(&mut ps, "local").unwrap();
    assert_eq!(ps.len(), 1);
    assert_eq!(ps[0].id, "openai");
}

#[test]
fn sidebar_titles_stay_short() {
    let raw = "word ".repeat(40);
    let t = sidebar_title(&raw);
    assert!(t.chars().count() <= 28);
    assert!(t.ends_with('…'));
}

#[test]
fn model_names_stay_unique() {
    let mut ms: Vec<(String, bool)> = vec![];
    for (n, b) in [("a", true), ("b", false), ("a", false), ("c", true), ("b", true)] {
        set_model_enabled(&mut ms, n, b);
    }
    let names: Vec<&str> = ms.iter().map(|(n, _)| n.as_str()).collect();
    assert_eq!(names, vec!["a", "b", "c"]);
    assert_eq!(ms[0].1, false);
    assert_eq!(ms[1].1, true);
}

#[test]
fn stripping_errors_twice_finds_nothing() {
    let ms = vec![
        MessageMeta { from: Sender::User, is_writing: false },
        MessageMeta { from: Sender::System, is_writing: false },
        MessageMeta { from: Sender::Bot, is_writing: true },
        MessageMeta { from: Sender::App, is_writing: false },
    ];
    let kept = strip_stale_errors(&ms).expect("errors to strip");
    let rest: Vec<MessageMeta> = kept.iter().map(|&i| ms[i]).collect();
    assert_eq!(strip_stale_errors(&rest), None);
}

#[test]
fn sidebar_lists_first_six_with_messages() {
    use_sidebar();
}

fn chat(title: &str, n: usize) -> ChatSummary {
    ChatSummary { title: title.to_string(), messages: vec!["m".to_string(); n] }
}

fn use_sidebar() {
    let cs: Vec<ChatSummary> = (0..10).map(|i| chat("t", if i % 3 == 1 { 0 } else { 1 })).collect();
    assert_eq!(sidebar_chats(&cs), vec![0, 2, 3, 5, 6, 8]);
    assert_eq!(listed_chats(&cs, "", 6), vec![0, 2, 3, 5, 6, 8]);
    assert_eq!(sidebar_chats(&vec![chat("a", 0), chat("b", 2)]), vec![1]);
    assert!(!sidebar_show_more(3));
    assert!(sidebar_show_more(4));
}

#[test]
fn bot_ids_round_trip() {
    for (m, p) in [("gpt-4", "openai"), ("", "x"), ("a;b@c", "p@q"), ("日本語", "local"), ("m", "")] {
        let id = format!("{};{}@{}", m.len(), m, p);
        assert_eq!(parse_bot_id_string(&id), (m.to_string(), p.to_string()));
    }
}

fn meta(from: Sender, is_writing: bool) -> MessageMeta {
    MessageMeta { from, is_writing }
}

#[test]
fn mode_session_answers_each_message_once() {
    let mut s = ModeSession::new();
    let mut ms = vec![meta(Sender::User, false), meta(Sender::System, false)];
    assert!(s.begin(ChatMode::Llm, &ms).is_none());
    let q = s.begin(ChatMode::Tts, &ms).expect("a request");
    assert_eq!(q.user_index, 0);
    assert_eq!(q.kept, vec![0]);
    assert_eq!(s.seen, 2);
    ms = vec![meta(Sender::User, false), meta(Sender::Bot, true)];
    s.start_request();
    assert!(s.begin(ChatMode::Tts, &ms).is_none());
    assert_eq!(s.finish(&ms), Some(1));
    assert!(!s.busy);
    assert_eq!(s.seen, 2);
    ms[1] = meta(Sender::Bot, false);
    assert!(s.begin(ChatMode::Tts, &ms).is_none());
    ms.push(meta(Sender::User, false));
    let q = s.begin(ChatMode::Tts, &ms).expect("a second request");
    assert_eq!(q.user_index, 2);
    assert_eq!(s.seen, 4);
    // a new bot message alone is only seen
    let mut t = ModeSession::new();
    assert!(t.begin(ChatMode::Vlm, &vec![meta(Sender::Bot, false)]).is_none());
    assert_eq!(t.seen, 1);
    assert_eq!(t.finish(&vec![meta(Sender::Bot, false)]), None);
    assert_eq!(t.seen, 2);
}

#[test]
fn restore_happens_once() {
    let bots = vec!["5;gpt-4@openai".to_string(), "4;llama@ollama".to_string()];
    let mut r = RestoreTracker::new();
    assert_eq!(r.restore(Some("4;llama@ollama"), &bots), Some((1, false)));
    assert_eq!(r.restore(Some("4;llama@ollama"), &bots), None);
    r.reset();
    assert_eq!(r.restore(None, &bots), Some((0, false)));
}

#[test]
fn transcribe_messages_use_the_file_name() {
    for p in ["/Users/me/a.mp3", "a.wav", "dir/sub/", "x/.", "x/..", "/", ".", "./rec.m4a", "a//b", "..", "q/./"] {
        let name = std::path::Path::new(p)
            .file_name()
            .map(|f| f.to_string_lossy().to_string())
            .unwrap_or_else(|| p.to_string());
        assert_eq!(transcribe_message(p), format!("Transcribe: {}", name), "{}", p);
    }
}

#[test]
fn welcome_prompt_sends_only_text() {
    assert_eq!(welcome_send("", true), (false, true));
    assert_eq!(welcome_send("hi", true), (true, false));
    assert_eq!(welcome_send("", false), (false, false));
}

fn keyed(id: &str, key: Option<&str>) -> (String, Option<String>) {
    (id.to_string(), key.map(|k| k.to_string()))
}

#[test]
fn fetch_progress_walks_the_providers() {
    let mut f = FetchProgress::new();
    let ps = vec![keyed("openai", Some("k")), keyed("groq", None), keyed("gemini", Some("g"))];
    assert_eq!(f.configure(&ps), ConfigureOutcome::Configured { reset_bots: false, start: true });
    assert_eq!(f.to_fetch, vec!["openai", "gemini"]);
    assert_eq!(f.start_at(0, true), StartOutcome::Fetching);
    assert_eq!(f.current.as_deref(), Some("openai"));
    assert_eq!(f.configure(&ps), ConfigureOutcome::Unchanged);
    assert_eq!(f.bots_loaded(0), LoadedOutcome::Ignored);
    assert_eq!(f.bots_loaded(3), LoadedOutcome::Next(1));
    assert_eq!(f.bots_loaded(3), LoadedOutcome::Ignored);
    assert_eq!(f.start_at(1, false), StartOutcome::Skip);
    assert_eq!(f.start_at(1, true), StartOutcome::Fetching);
    assert_eq!(f.bots_loaded(5), LoadedOutcome::AllFetched);
    assert!(!f.in_progress);
    assert_eq!(f.fetched, vec!["openai", "gemini"]);
    assert_eq!(f.start_at(2, true), StartOutcome::Finished);
    // groq is enabled but never fetched, so the set differs and the fetch is set up again
    assert_eq!(f.configure(&ps), ConfigureOutcome::Configured { reset_bots: true, start: true });
    assert!(f.fetched.is_empty());
    // with nothing fetched yet, no enabled provider is the same set
    assert_eq!(f.configure(&vec![]), ConfigureOutcome::Unchanged);
    assert_eq!(f.start_at(0, true), StartOutcome::Fetching);
    assert_eq!(f.bots_loaded(2), LoadedOutcome::Next(1));
    assert_eq!(f.start_at(1, true), StartOutcome::Fetching);
    assert_eq!(f.bots_loaded(4), LoadedOutcome::AllFetched);
    assert_eq!(f.configure(&vec![]), ConfigureOutcome::Cleared);
    assert!(!f.configured);
    assert_eq!(f.configure(&vec![]), ConfigureOutcome::Unchanged);
}
