//! Model categories and the names and numbers the interface derives from them.
use vstd::prelude::*;

use crate::text::str_eq;

verus! {

/// The kind of model a registry entry is.
#[derive(Debug, Clone, Copy, PartialEq, Eq, Structural)]
pub enum RegistryCategory {
    Llm,
    Vlm,
    Asr,
    Tts,
    ImageGen,
    VideoGen,
}

/// The model type that the server's load endpoint expects for a category.
pub open spec fn model_type_spec(cat: RegistryCategory) -> Seq<char> {
    match cat {
        RegistryCategory::Llm => "llm"@,
        RegistryCategory::Vlm => "vlm"@,
        RegistryCategory::Asr => "asr"@,
        RegistryCategory::Tts => "tts"@,
        RegistryCategory::ImageGen => "image"@,
        RegistryCategory::VideoGen => "video"@,
    }
}

/// The model type string for `cat`.
pub fn category_to_model_type(cat: RegistryCategory) -> (r: &'static str)
    ensures
        r@ == model_type_spec(cat),
{
    match cat {
        RegistryCategory::Llm => "llm",
        RegistryCategory::Vlm => "vlm",
        RegistryCategory::Asr => "asr",
        RegistryCategory::Tts => "tts",
        RegistryCategory::ImageGen => "image",
        RegistryCategory::VideoGen => "video",
    }
}

/// The model type to unload: that of the loaded model's category, or every
/// type when the category is unknown.
pub fn unload_model_type(cat: Option<RegistryCategory>) -> (r: &'static str)
    ensures
        r@ == (match cat {
            Some(c) => model_type_spec(c),
            None => "all"@,
        }),
{
    match cat {
        Some(c) => category_to_model_type(c),
        None => "all",
    }
}

/// The position of a category in the interface's colour scheme (0 to 5).
pub fn category_index(cat: RegistryCategory) -> (r: u8)
    ensures
        r == (match cat {
            RegistryCategory::Llm => 0u8,
            RegistryCategory::Vlm => 1u8,
            RegistryCategory::Asr => 2u8,
            RegistryCategory::Tts => 3u8,
            RegistryCategory::ImageGen => 4u8,
            RegistryCategory::VideoGen => 5u8,
        }),
{
    match cat {
        RegistryCategory::Llm => 0,
        RegistryCategory::Vlm => 1,
        RegistryCategory::Asr => 2,
        RegistryCategory::Tts => 3,
        RegistryCategory::ImageGen => 4,
        RegistryCategory::VideoGen => 5,
    }
}

/// The short tag shown beside a loaded model; a model of unknown category
/// is tagged as a language model.
pub fn category_tag(cat: Option<RegistryCategory>) -> (r: &'static str)
    ensures
        r@ == (match cat {
            Some(RegistryCategory::Llm) | None => "LLM"@,
            Some(RegistryCategory::Vlm) => "VLM"@,
            Some(RegistryCategory::Asr) => "ASR"@,
            Some(RegistryCategory::Tts) => "TTS"@,
            Some(RegistryCategory::ImageGen) => "Image"@,
            Some(RegistryCategory::VideoGen) => "Video"@,
        }),
{
    match cat {
        Some(RegistryCategory::Llm) => "LLM",
        Some(RegistryCategory::Vlm) => "VLM",
        Some(RegistryCategory::Asr) => "ASR",
        Some(RegistryCategory::Tts) => "TTS",
        Some(RegistryCategory::ImageGen) => "Image",
        Some(RegistryCategory::VideoGen) => "Video",
        None => "LLM",
    }
}

/// Loading a model of this type needs no call to the load endpoint: video
/// models are run on demand.
pub fn load_is_skipped(model_type: &str) -> (r: bool)
    ensures
        r == (model_type@ == "video"@ || model_type@ == "video_generation"@),
{
    str_eq(model_type, "video") || str_eq(model_type, "video_generation")
}

} // verus!
