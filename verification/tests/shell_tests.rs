use moly::about::{about_section, about_title, base_model_name, RegistryModelInfo};
use moly::catalog::RegistryCategory;
use moly::media::{
    asr_wav_path, base64_error_message, decode_media, encode_base64, generated_image_path,
    generated_video_path, image_data_url, media_slug_of, Base64Error,
};
use moly::shell::{
    canvas_toggle_needed, chat_button_selected, chat_matches_search, delete_question,
    join_strings, listed_chats, navigation_request, restored_page, show_more_label,
    sidebar_title, split_words, tile_rows, view_name, ChatSummary, ModelSelector,
    NavigationTarget, ShellModelLoadState,
};

const PAGES: [NavigationTarget; 10] = [
    NavigationTarget::ChatHistory,
    NavigationTarget::ActiveChat,
    NavigationTarget::Settings,
    NavigationTarget::LlmHub,
    NavigationTarget::VlmHub,
    NavigationTarget::AsrHub,
    NavigationTarget::TtsHub,
    NavigationTarget::ImageHub,
    NavigationTarget::VideoHub,
    NavigationTarget::About,
];

#[test]
fn page_names_round_trip() {
    for t in PAGES.iter() {
        let name = view_name(*t);
        if *t == NavigationTarget::About {
            assert_eq!(navigation_request(name), None);
            assert_eq!(restored_page(name), NavigationTarget::ChatHistory);
        } else {
            assert_eq!(navigation_request(name), Some(*t));
            assert_eq!(restored_page(name), *t);
        }
    }
    assert_eq!(restored_page("garbage"), NavigationTarget::ChatHistory);
    assert_eq!(view_name(NavigationTarget::ImageHub), "ImageHub");
    assert!(chat_button_selected(NavigationTarget::ActiveChat));
    assert!(!chat_button_selected(NavigationTarget::Settings));
}

#[test]
fn selector_load_and_unload() {
    let mut s = ModelSelector::new();
    assert_eq!(s.label(), "Select a model to load");
    s.start_load("qwen", "Qwen 3", RegistryCategory::Llm, false);
    assert_eq!(s.label(), "Loading Qwen 3...");
    assert!(!s.open_dropdown());
    s.finish_load(true);
    assert_eq!(s.state, ShellModelLoadState::Loaded);
    assert_eq!(s.label(), "Qwen 3");
    assert!(s.is_loaded_model("qwen"));
    assert_eq!(s.unload(), "llm");
    assert_eq!(s.state, ShellModelLoadState::Unloaded);
    assert!(s.loaded_id.is_empty() && s.category.is_none());
    assert_eq!(s.unload(), "all");
}

#[test]
fn selector_failed_load_forgets_model() {
    let mut s = ModelSelector::new();
    s.start_load("flux", "Flux", RegistryCategory::ImageGen, false);
    s.finish_load(false);
    assert_eq!(s.state, ShellModelLoadState::Error);
    assert_eq!(s.label(), "Load failed — click to retry");
    assert!(s.loaded_name.is_empty());
}

#[test]
fn selector_follows_the_hubs() {
    let mut s = ModelSelector::new();
    s.hub_loaded("whisper", "Whisper", RegistryCategory::Asr);
    assert_eq!(s.state, ShellModelLoadState::Loaded);
    assert!(!s.hub_unloaded("other"));
    assert_eq!(s.state, ShellModelLoadState::Loaded);
    assert!(s.hub_unloaded("whisper"));
    assert_eq!(s.state, ShellModelLoadState::Unloaded);
}

#[test]
fn selector_delete_confirmation() {
    let mut s = ModelSelector::new();
    assert!(s.open_dropdown());
    assert!(s.open);
    s.ask_delete(5, 3);
    assert_eq!(s.delete_confirm, None);
    s.ask_delete(1, 3);
    assert_eq!(s.delete_confirm, Some(1));
    s.cancel_delete();
    assert_eq!(s.confirm_delete(3), None);
    s.ask_delete(2, 3);
    assert_eq!(s.confirm_delete(2), None);
    s.ask_delete(2, 3);
    assert_eq!(s.confirm_delete(3), Some(2));
    assert_eq!(s.delete_confirm, None);
    s.close_dropdown();
    assert!(!s.open);
    assert_eq!(delete_question("Qwen"), "Delete Qwen?");
}

#[test]
fn sidebar_titles() {
    assert_eq!(sidebar_title("  Hello \n  world\t"), "Hello world");
    assert_eq!(sidebar_title(""), "");
    let long = "abcdefghij abcdefghij abcdefghij";
    assert_eq!(sidebar_title(long), "abcdefghij abcdefghij abcd…");
    let exact = "abcdefghij abcdefghij abcdef"; // 28 characters
    assert_eq!(sidebar_title(exact), exact);
    assert_eq!(split_words(" a  bb\u{3000}c "), vec!["a", "bb", "c"]);
    assert_eq!(join_strings(&vec!["x".to_string(), "y".to_string()], ", "), "x, y");
    assert_eq!(join_strings(&vec![], ", "), "");
}

fn chat(title: &str, messages: &[&str]) -> ChatSummary {
    ChatSummary { title: title.to_string(), messages: messages.iter().map(|m| m.to_string()).collect() }
}

#[test]
fn history_search_and_limits() {
    let cs = vec![
        chat("Rust tips", &["hello"]),
        chat("Empty", &[]),
        chat("Cooking", &["How to make RUST-colored sauce"]),
        chat("Other", &["nothing"]),
    ];
    assert!(chat_matches_search(&cs[0], "RUST"));
    assert!(chat_matches_search(&cs[2], "rust"));
    assert!(!chat_matches_search(&cs[3], "rust"));
    assert!(chat_matches_search(&cs[3], ""));
    assert_eq!(listed_chats(&cs, "rust", 12), vec![0, 2]);
    assert_eq!(listed_chats(&cs, "", 12), vec![0, 2, 3]);
    assert_eq!(listed_chats(&cs, "", 2), vec![0, 2]);
    assert_eq!(listed_chats(&cs, "", 0), Vec::<usize>::new());
}

#[test]
fn small_presentation_rules() {
    assert_eq!(tile_rows(0), (false, false, false));
    assert_eq!(tile_rows(5), (true, true, false));
    assert_eq!(tile_rows(9), (true, true, true));
    assert_eq!(show_more_label(false), ("Show More", ">"));
    assert_eq!(show_more_label(true), ("Show Less", "v"));
    assert!(canvas_toggle_needed(true, true));
    assert!(canvas_toggle_needed(false, false));
    assert!(!canvas_toggle_needed(true, false));
}

fn model(name: &str, cat: RegistryCategory, q: Option<&str>, size: &str) -> RegistryModelInfo {
    RegistryModelInfo {
        name: name.to_string(),
        category: cat,
        quantization: q.map(|s| s.to_string()),
        size_display: size.to_string(),
    }
}

#[test]
fn base_names_drop_quantisation() {
    assert_eq!(base_model_name("Qwen3 8B (Q4_K_M)"), "Qwen3 8B");
    assert_eq!(base_model_name("Flux (FP16)"), "Flux");
    assert_eq!(base_model_name("Whisper (BF16)"), "Whisper");
    assert_eq!(base_model_name("A (Q4) (Q8)"), "A (Q4)");
    assert_eq!(base_model_name("Plain"), "Plain");
}

#[test]
fn about_sections_group_variants() {
    let ms = vec![
        model("Qwen3 8B (Q4)", RegistryCategory::Llm, Some("Q4"), "4.9 GB"),
        model("Whisper", RegistryCategory::Asr, None, "1.5 GB"),
        model("Qwen3 8B (Q8)", RegistryCategory::Llm, Some("Q8"), "8.7 GB"),
        model("Phi", RegistryCategory::Llm, None, "2 GB"),
    ];
    assert_eq!(
        about_section(&ms, RegistryCategory::Llm),
        "• Qwen3 8B [Q4, Q8] (from 4.9 GB)\n• Phi (2 GB)"
    );
    assert_eq!(about_section(&ms, RegistryCategory::Asr), "• Whisper (1.5 GB)");
    assert_eq!(about_section(&ms, RegistryCategory::VideoGen), "Coming soon.");
    assert_eq!(about_title(RegistryCategory::Llm), "LLM — Large Language Models");
    assert_eq!(about_title(RegistryCategory::ImageGen), "Image Generation");
}

#[test]
fn base64_round_trip() {
    assert_eq!(encode_base64(b""), "");
    assert_eq!(encode_base64(b"f"), "Zg==");
    assert_eq!(encode_base64(b"fo"), "Zm8=");
    assert_eq!(encode_base64(b"foo"), "Zm9v");
    assert_eq!(encode_base64(b"foobar"), "Zm9vYmFy");
    assert_eq!(encode_base64(&[0xfb, 0xff]), "+/8=");
    assert_eq!(decode_media("Zm9vYmFy"), Ok(b"foobar".to_vec()));
    let bytes: Vec<u8> = (0..=255).collect();
    assert_eq!(decode_media(&encode_base64(&bytes)), Ok(bytes));
}

#[test]
fn base64_errors() {
    assert_eq!(decode_media("Zm9v!"), Err("Invalid symbol 33, offset 4.".to_string()));
    assert_eq!(decode_media("Zm9vY"), Err("Invalid input length: 5".to_string()));
    assert_eq!(decode_media("Zh=="), Err("Invalid last symbol 104, offset 1.".to_string()));
    assert_eq!(decode_media("Zg"), Err("Invalid padding".to_string()));
    assert_eq!(base64_error_message(Base64Error::InvalidPadding), "Invalid padding");
    assert_eq!(base64_error_message(Base64Error::InvalidLength(7)), "Invalid input length: 7");
}

#[test]
fn media_paths() {
    assert_eq!(image_data_url("QUJD"), "data:image/jpeg;base64,QUJD");
    assert_eq!(media_slug_of("org/Model Name"), "org-Model_Name");
    assert_eq!(generated_image_path("a/b c"), "/tmp/ominix-chat-a-b_c.png");
    assert_eq!(generated_video_path("v"), "/tmp/ominix-chat-video-v.mp4");
    assert_eq!(asr_wav_path(123), "/tmp/ominix_asr_123.wav");
}
