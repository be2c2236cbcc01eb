use moly::botid::parse_bot_id_string;
use moly::catalog::{
    category_index, category_tag, category_to_model_type, load_is_skipped, unload_model_type,
    RegistryCategory,
};
use moly::chat::{
    after_delete, answer_slot, bot_enabled, chat_icon_index, chat_mode_for, choose_restored_model,
    is_audio_file, is_image_file, keep_for_answer, mode_answers_messages, mode_error_message,
    mode_has_controls, needs_wav_conversion, new_user_message, provider_display_name,
    provider_set_changed, providers_to_fetch, skip_new_chat, speech_summary_text,
    strip_stale_errors, tts_voice, AfterDelete, ChatMode, MessageMeta, Sender, SyncTracker,
};

fn msg(from: Sender, is_writing: bool) -> MessageMeta {
    MessageMeta { from, is_writing }
}

fn strings(v: &[&str]) -> Vec<String> {
    v.iter().map(|s| s.to_string()).collect()
}

#[test]
fn bot_ids_split_by_byte_length() {
    assert_eq!(parse_bot_id_string("5;gpt-4@openai"), ("gpt-4".to_string(), "openai".to_string()));
    assert_eq!(
        parse_bot_id_string("13;models/gemini@gemini"),
        ("models/gemini".to_string(), "gemini".to_string())
    );
    // the model may itself hold an '@'
    assert_eq!(parse_bot_id_string("3;a@b@c"), ("a@b".to_string(), "c".to_string()));
    // lengths count bytes, not characters
    assert_eq!(parse_bot_id_string("2;é@x"), ("é".to_string(), "x".to_string()));
    assert_eq!(parse_bot_id_string("no separator"), (String::new(), String::new()));
    assert_eq!(parse_bot_id_string("x;abc@d"), (String::new(), String::new()));
    assert_eq!(parse_bot_id_string("9;abc@d"), (String::new(), String::new()));
    assert_eq!(parse_bot_id_string("3;abc"), (String::new(), String::new()));
    assert_eq!(parse_bot_id_string("0;@p"), (String::new(), "p".to_string()));
}

#[test]
fn modes_follow_categories() {
    assert_eq!(chat_mode_for(Some(RegistryCategory::Tts), Some(RegistryCategory::Vlm)), ChatMode::Tts);
    assert_eq!(chat_mode_for(None, Some(RegistryCategory::Vlm)), ChatMode::Vlm);
    assert_eq!(chat_mode_for(None, None), ChatMode::Llm);
    assert!(!mode_has_controls(ChatMode::Llm));
    assert!(mode_has_controls(ChatMode::Asr));
    assert!(mode_answers_messages(ChatMode::ImageGen));
    assert!(!mode_answers_messages(ChatMode::Asr));
    assert!(!mode_answers_messages(ChatMode::Llm));
}

#[test]
fn voices() {
    assert_eq!(tts_voice(0), "vivian");
    assert_eq!(tts_voice(4), "english_man");
    assert_eq!(tts_voice(8), "dialect");
    assert_eq!(tts_voice(9), "vivian");
}

#[test]
fn provider_names_and_icons() {
    assert_eq!(provider_display_name("gemini"), "Google Gemini");
    assert_eq!(provider_display_name("ominix-local"), "OminiX Local");
    assert_eq!(provider_display_name("mine"), "Unknown");
    assert_eq!(chat_icon_index("openai-realtime"), Some(0));
    assert_eq!(chat_icon_index("ominix-image"), Some(3));
    assert_eq!(chat_icon_index("zhipu"), Some(9));
    assert_eq!(chat_icon_index("mine"), None);
}

#[test]
fn providers_with_keys_are_fetched() {
    let ps = vec![
        ("openai".to_string(), Some("sk".to_string())),
        ("groq".to_string(), Some("  ".to_string())),
        ("ollama".to_string(), None),
        ("deepseek".to_string(), Some(" k ".to_string())),
    ];
    assert_eq!(providers_to_fetch(&ps), vec!["openai", "deepseek"]);
}

#[test]
fn provider_set_changes_ignore_order() {
    assert!(!provider_set_changed(&strings(&["a", "b"]), &strings(&["b", "a", "a"])));
    assert!(provider_set_changed(&strings(&["a"]), &strings(&["a", "c"])));
    assert!(provider_set_changed(&strings(&["a", "c"]), &strings(&["a"])));
    assert!(!provider_set_changed(&strings(&[]), &strings(&[])));
}

#[test]
fn bots_offered_by_preferences() {
    let ms = vec![("gpt-4".to_string(), false), ("GPT 4o".to_string(), true)];
    assert!(bot_enabled(None, "gpt-4", "GPT-4"));
    assert!(!bot_enabled(Some(&ms), "gpt-4", "whatever"));
    assert!(bot_enabled(Some(&ms), "x", "GPT 4o"));
    assert!(bot_enabled(Some(&ms), "unknown", "Unknown"));
    assert!(bot_enabled(Some(&vec![]), "unknown", "Unknown"));
}

#[test]
fn restoring_the_saved_model() {
    let bots = strings(&["5;gpt-4@openai", "17;models/gemini-pro@gemini", "4;llama@ollama"]);
    assert_eq!(choose_restored_model(None, &bots), Some((0, false)));
    assert_eq!(choose_restored_model(Some("4;llama@ollama"), &bots), Some((2, false)));
    // a saved id without the `models/` prefix matches loosely and is replaced
    assert_eq!(choose_restored_model(Some("10;gemini-pro@gemini"), &bots), Some((1, true)));
    assert_eq!(choose_restored_model(Some("3;abc@nowhere"), &bots), Some((0, false)));
    assert_eq!(choose_restored_model(Some("x"), &strings(&[])), None);
}

#[test]
fn saving_tracks_changes() {
    let mut t = SyncTracker::new(0, 0);
    let d = t.observe(0, false, 0);
    assert!(!d.persist && !d.chat_created);
    let d = t.observe(1, true, 5);
    assert!(d.persist && d.chat_created);
    let d = t.observe(1, true, 5);
    assert!(!d.persist);
    let d = t.observe(1, false, 5);
    assert!(d.persist && !d.chat_created);
    let d = t.observe(1, false, 5);
    assert!(!d.persist);
    let d = t.observe(1, false, 9);
    assert!(d.persist);
}

#[test]
fn stale_errors_are_removed() {
    let ms = vec![
        msg(Sender::User, false),
        msg(Sender::App, false),
        msg(Sender::Bot, false),
        msg(Sender::System, true),
        msg(Sender::System, false),
    ];
    assert_eq!(strip_stale_errors(&ms), Some(vec![0, 2, 3]));
    assert_eq!(strip_stale_errors(&vec![msg(Sender::User, false), msg(Sender::Bot, true)]), None);
}

#[test]
fn answering_new_user_messages() {
    let ms = vec![
        msg(Sender::User, false),
        msg(Sender::Bot, false),
        msg(Sender::User, false),
        msg(Sender::Bot, true),
    ];
    assert_eq!(new_user_message(&ms, 1), Some(2));
    assert_eq!(new_user_message(&ms, 3), None);
    assert_eq!(keep_for_answer(&ms, 1), vec![0, 2]);
    assert_eq!(keep_for_answer(&ms, 4), vec![0, 1, 2, 3]);
    assert_eq!(answer_slot(&ms), Some(3));
    assert_eq!(answer_slot(&ms[..3].to_vec()), None);
}

#[test]
fn texts_of_answers() {
    assert_eq!(mode_error_message(ChatMode::Tts, "down"), "TTS error: down");
    assert_eq!(mode_error_message(ChatMode::Llm, "down"), "down");
    assert_eq!(speech_summary_text("ryan", 65), "Voice: ryan | Duration: 1:05");
    assert_eq!(speech_summary_text("ryan", 600), "Voice: ryan | Duration: 10:00");
}

#[test]
fn dropped_files() {
    assert!(is_image_file("/x/Photo.JPG"));
    assert!(!is_image_file("/x/a.tiff"));
    assert!(is_audio_file("/x/a.FLAC"));
    assert!(!is_audio_file("/x/a.txt"));
    assert!(needs_wav_conversion("a.mp3"));
    assert!(!needs_wav_conversion("a.WAV"));
}

#[test]
fn sessions() {
    assert!(skip_new_chat(true, true, 0));
    assert!(!skip_new_chat(true, true, 1));
    assert!(!skip_new_chat(false, true, 0));
    assert_eq!(after_delete(false, Some(3)), AfterDelete::KeepCurrent);
    assert_eq!(after_delete(true, Some(3)), AfterDelete::Show(3));
    assert_eq!(after_delete(true, None), AfterDelete::StartNew);
}

#[test]
fn categories() {
    assert_eq!(category_to_model_type(RegistryCategory::ImageGen), "image");
    assert_eq!(unload_model_type(None), "all");
    assert_eq!(unload_model_type(Some(RegistryCategory::Asr)), "asr");
    assert_eq!(category_index(RegistryCategory::VideoGen), 5);
    assert_eq!(category_tag(None), "LLM");
    assert_eq!(category_tag(Some(RegistryCategory::Tts)), "TTS");
    assert!(load_is_skipped("video"));
    assert!(load_is_skipped("video_generation"));
    assert!(!load_is_skipped("llm"));
}
