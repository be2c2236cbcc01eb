//! The catalogue on the About page: the registry's models grouped by their
//! base model, with their quantised variants.
use vstd::prelude::*;

use crate::catalog::RegistryCategory;
use crate::shell::{join, join_strings};
use crate::text::{chars_of, concat, occurs_at, owned, rfind_sub, str_eq, string_from_range, views};

verus! {

/// What the About page reads of a registry model.
pub struct RegistryModelInfo {
    pub name: String,
    pub category: RegistryCategory,
    pub quantization: Option<String>,
    pub size_display: String,
}

/// `i` is where `p` occurs last in `s`.
pub open spec fn is_last_occurrence(s: Seq<char>, p: Seq<char>, i: int) -> bool {
    occurs_at(s, p, i) && forall|k: int| i < k ==> !occurs_at(s, p, k)
}

/// `s` up to the last occurrence of `p`, if `p` occurs.
pub open spec fn cut_at_last(s: Seq<char>, p: Seq<char>) -> Option<Seq<char>> {
    if exists|i: int| is_last_occurrence(s, p, i) {
        Some(s.take(choose|i: int| is_last_occurrence(s, p, i)))
    } else {
        None
    }
}

/// A model's base name: its name without the quantisation suffix, which is
/// cut at the last ` (Q`, else the last ` (FP`, else the last ` (BF`.
pub open spec fn base_name(n: Seq<char>) -> Seq<char> {
    match cut_at_last(n, " (Q"@) {
        Some(b) => b,
        None => match cut_at_last(n, " (FP"@) {
            Some(b) => b,
            None => match cut_at_last(n, " (BF"@) {
                Some(b) => b,
                None => n,
            },
        },
    }
}

proof fn lemma_last_occurrence_unique(s: Seq<char>, p: Seq<char>, i: int, j: int)
    requires
        is_last_occurrence(s, p, i),
        is_last_occurrence(s, p, j),
    ensures
        i == j,
{
    if i < j {
        assert(occurs_at(s, p, j));
    } else if j < i {
        assert(occurs_at(s, p, i));
    }
}

/// `name` up to the last occurrence of `p`, if `p` occurs in it.
fn cut_name(v: &Vec<char>, p: &str) -> (r: Option<String>)
    ensures
        match r {
            Some(b) => cut_at_last(v@, p@) == Some(b@),
            None => cut_at_last(v@, p@) is None,
        },
{
    let pv = chars_of(p);
    match rfind_sub(v, &pv) {
        Some(i) => {
            proof {
                assert(is_last_occurrence(v@, p@, i as int));
                let c = choose|k: int| is_last_occurrence(v@, p@, k);
                lemma_last_occurrence_unique(v@, p@, i as int, c);
            }
            let b = string_from_range(v, 0, i);
            assert(v@.subrange(0, i as int) =~= v@.take(i as int));
            Some(b)
        },
        None => {
            proof {
                if exists|k: int| is_last_occurrence(v@, p@, k) {
                    let k = choose|k: int| is_last_occurrence(v@, p@, k);
                    assert(occurs_at(v@, p@, k));
                }
            }
            None
        },
    }
}

/// The base name of a model named `name`.
pub fn base_model_name(name: &str) -> (r: String)
    ensures
        r@ == base_name(name@),
{
    let v = chars_of(name);
    match cut_name(&v, " (Q") {
        Some(b) => b,
        None => match cut_name(&v, " (FP") {
            Some(b) => b,
            None => match cut_name(&v, " (BF") {
                Some(b) => b,
                None => owned(name),
            },
        },
    }
}

/// The quantisations of the models of `cat` with base name `base`, in order.
pub open spec fn variants(ms: Seq<RegistryModelInfo>, cat: RegistryCategory, base: Seq<char>) -> Seq<
    Seq<char>,
>
    decreases ms.len(),
{
    if ms.len() == 0 {
        Seq::<Seq<char>>::empty()
    } else {
        let r = variants(ms.drop_last(), cat, base);
        let m = ms.last();
        if m.category == cat && base_name(m.name@) == base {
            match m.quantization {
                Some(q) => r.push(q@),
                None => r,
            }
        } else {
            r
        }
    }
}

/// Model `i` is the first of its category with its base name.
pub open spec fn first_of_base(ms: Seq<RegistryModelInfo>, cat: RegistryCategory, i: int) -> bool {
    ms[i].category == cat && forall|j: int|
        0 <= j < i ==> !(ms[j].category == cat && #[trigger] base_name(ms[j].name@) == base_name(
            ms[i].name@,
        ))
}

/// The catalogue line for model `i`: its base name, its variants if it has
/// any, and its size.
pub open spec fn model_line(ms: Seq<RegistryModelInfo>, cat: RegistryCategory, i: int) -> Seq<char> {
    let b = base_name(ms[i].name@);
    let vs = variants(ms, cat, b);
    if vs.len() == 0 {
        "• "@ + b + " ("@ + ms[i].size_display@ + ")"@
    } else {
        "• "@ + b + " ["@ + join(vs, ", "@) + "] (from "@ + ms[i].size_display@ + ")"@
    }
}

/// The lines for the first `k` models: one per base name, at its first model.
pub open spec fn about_lines(ms: Seq<RegistryModelInfo>, cat: RegistryCategory, k: int) -> Seq<
    Seq<char>,
>
    decreases k,
{
    if k <= 0 {
        Seq::<Seq<char>>::empty()
    } else {
        let r = about_lines(ms, cat, k - 1);
        if first_of_base(ms, cat, k - 1) {
            r.push(model_line(ms, cat, k - 1))
        } else {
            r
        }
    }
}

/// The text of a category's section: its lines, or `Coming soon.` when the
/// registry has no model of the category.
pub open spec fn about_text(ms: Seq<RegistryModelInfo>, cat: RegistryCategory) -> Seq<char> {
    let ls = about_lines(ms, cat, ms.len() as int);
    if ls.len() == 0 {
        "Coming soon."@
    } else {
        join(ls, "\n"@)
    }
}

/// The variants of `base` in `cat`.
fn collect_variants(ms: &Vec<RegistryModelInfo>, bases: &Vec<String>, cat: RegistryCategory, base: &str) -> (r:
    Vec<String>)
    requires
        bases@.len() == ms@.len(),
        forall|i: int| 0 <= i < ms@.len() ==> #[trigger] bases@[i]@ == base_name(ms@[i].name@),
    ensures
        views(r@) == variants(ms@, cat, base@),
{
    let mut r: Vec<String> = Vec::new();
    assert(ms@.take(0) =~= Seq::<RegistryModelInfo>::empty());
    for i in 0..ms.len()
        invariant
            bases@.len() == ms@.len(),
            forall|i: int| 0 <= i < ms@.len() ==> #[trigger] bases@[i]@ == base_name(ms@[i].name@),
            views(r@) == variants(ms@.take(i as int), cat, base@),
    {
        assert(ms@.take(i + 1).drop_last() =~= ms@.take(i as int));
        assert(ms@.take(i + 1).last() == ms@[i as int]);
        assert(bases@[i as int]@ == base_name(ms@[i as int].name@));
        if ms[i].category == cat && str_eq(bases[i].as_str(), base) {
            if let Some(q) = &ms[i].quantization {
                let ghost before = views(r@);
                r.push(q.clone());
                assert(views(r@) =~= before.push(q@));
            }
        }
    }
    assert(ms@.take(ms.len() as int) =~= ms@);
    r
}

/// The text of the About page's section for `cat`.
pub fn about_section(ms: &Vec<RegistryModelInfo>, cat: RegistryCategory) -> (r: String)
    ensures
        r@ == about_text(ms@, cat),
{
    let mut bases: Vec<String> = Vec::new();
    for i in 0..ms.len()
        invariant
            bases@.len() == i,
            forall|j: int| 0 <= j < i ==> #[trigger] bases@[j]@ == base_name(ms@[j].name@),
    {
        bases.push(base_model_name(ms[i].name.as_str()));
    }
    let mut lines: Vec<String> = Vec::new();
    for i in 0..ms.len()
        invariant
            bases@.len() == ms@.len(),
            forall|j: int| 0 <= j < ms@.len() ==> #[trigger] bases@[j]@ == base_name(ms@[j].name@),
            views(lines@) == about_lines(ms@, cat, i as int),
    {
        if ms[i].category == cat {
            // seen before?
            let mut seen = false;
            for j in 0..i
                invariant
                    i < ms@.len(),
                    bases@.len() == ms@.len(),
                    forall|j: int| 0 <= j < ms@.len() ==> #[trigger] bases@[j]@ == base_name(ms@[j].name@),
                    seen <==> exists|k: int|
                        0 <= k < j && ms@[k].category == cat && #[trigger] base_name(ms@[k].name@)
                            == base_name(ms@[i as int].name@),
            {
                if !seen && ms[j].category == cat && str_eq(bases[j].as_str(), bases[i].as_str()) {
                    seen = true;
                    assert(base_name(ms@[j as int].name@) == base_name(ms@[i as int].name@));
                }
            }
            if !seen {
                let b = &bases[i];
                let vs = collect_variants(ms, &bases, cat, b.as_str());
                let line = if vs.len() == 0 {
                    let a = concat("• ", b.as_str());
                    let c = concat(a.as_str(), " (");
                    let d = concat(c.as_str(), ms[i].size_display.as_str());
                    concat(d.as_str(), ")")
                } else {
                    let joined = join_strings(&vs, ", ");
                    let a = concat("• ", b.as_str());
                    let c = concat(a.as_str(), " [");
                    let d = concat(c.as_str(), joined.as_str());
                    let e = concat(d.as_str(), "] (from ");
                    let f = concat(e.as_str(), ms[i].size_display.as_str());
                    concat(f.as_str(), ")")
                };
                let ghost before = views(lines@);
                lines.push(line);
                assert(views(lines@) =~= before.push(model_line(ms@, cat, i as int)));
            } else {
                proof {
                    let k = choose|k: int|
                        0 <= k < i && ms@[k].category == cat && #[trigger] base_name(ms@[k].name@)
                            == base_name(ms@[i as int].name@);
                    assert(!first_of_base(ms@, cat, i as int));
                }
            }
        }
    }
    if lines.len() == 0 {
        owned("Coming soon.")
    } else {
        join_strings(&lines, "\n")
    }
}

/// The heading of a category's section.
pub fn about_title(cat: RegistryCategory) -> (r: &'static str)
    ensures
        r@ == (match cat {
            RegistryCategory::Llm => "LLM — Large Language Models"@,
            RegistryCategory::Vlm => "VLM — Vision Language Models"@,
            RegistryCategory::Asr => "ASR — Speech Recognition"@,
            RegistryCategory::Tts => "TTS — Text to Speech"@,
            RegistryCategory::ImageGen => "Image Generation"@,
            RegistryCategory::VideoGen => "Video Generation"@,
        }),
{
    match cat {
        RegistryCategory::Llm => "LLM — Large Language Models",
        RegistryCategory::Vlm => "VLM — Vision Language Models",
        RegistryCategory::Asr => "ASR — Speech Recognition",
        RegistryCategory::Tts => "TTS — Text to Speech",
        RegistryCategory::ImageGen => "Image Generation",
        RegistryCategory::VideoGen => "Video Generation",
    }
}

} // verus!
