//! The chat screen's decisions: its mode, which bots it offers and selects,
//! when it saves a conversation, and how it treats messages in non-chat modes.
use vstd::prelude::*;

use crate::botid::{bot_id_faulty, bot_parts, parse_bot_id_string};
use crate::catalog::RegistryCategory;
use crate::models::entries;
use crate::text::{
    chars_of, concat, decimal, decimal_string, ends_with, has_suffix, lowercase_of, split_char,
    split_on, str_eq, to_lowercase, trim, trim_str, views,
};

verus! {

// ───────────────────────────── mode ─────────────────────────────
/// What the chat screen does with a message, from the loaded model's category.
#[derive(Debug, Clone, Copy, PartialEq, Eq, Structural)]
pub enum ChatMode {
    Llm,
    Vlm,
    Asr,
    Tts,
    ImageGen,
    VideoGen,
}

/// The mode for a category.
pub open spec fn mode_of(cat: RegistryCategory) -> ChatMode {
    match cat {
        RegistryCategory::Llm => ChatMode::Llm,
        RegistryCategory::Vlm => ChatMode::Vlm,
        RegistryCategory::Asr => ChatMode::Asr,
        RegistryCategory::Tts => ChatMode::Tts,
        RegistryCategory::ImageGen => ChatMode::ImageGen,
        RegistryCategory::VideoGen => ChatMode::VideoGen,
    }
}

/// The chat mode: that of the loaded model, else that of the conversation's
/// saved category, else plain chat.
pub fn chat_mode_for(active: Option<RegistryCategory>, session: Option<RegistryCategory>) -> (r:
    ChatMode)
    ensures
        r == (match active {
            Some(c) => mode_of(c),
            None => match session {
                Some(c) => mode_of(c),
                None => ChatMode::Llm,
            },
        }),
{
    let cat = match active {
        Some(c) => c,
        None => match session {
            Some(c) => c,
            None => RegistryCategory::Llm,
        },
    };
    match cat {
        RegistryCategory::Llm => ChatMode::Llm,
        RegistryCategory::Vlm => ChatMode::Vlm,
        RegistryCategory::Asr => ChatMode::Asr,
        RegistryCategory::Tts => ChatMode::Tts,
        RegistryCategory::ImageGen => ChatMode::ImageGen,
        RegistryCategory::VideoGen => ChatMode::VideoGen,
    }
}

/// In this mode the screen shows its own controls and removes the error
/// messages that a plain chat request leaves behind.
pub fn mode_has_controls(mode: ChatMode) -> (r: bool)
    ensures
        r == (mode != ChatMode::Llm),
{
    !matches!(mode, ChatMode::Llm)
}

/// In this mode a message the user sends is answered by the screen's own
/// request rather than by the chat client (speech recognition takes files).
pub fn mode_answers_messages(mode: ChatMode) -> (r: bool)
    ensures
        r == (mode == ChatMode::Vlm || mode == ChatMode::Tts || mode == ChatMode::ImageGen || mode
            == ChatMode::VideoGen),
{
    matches!(mode, ChatMode::Vlm | ChatMode::Tts | ChatMode::ImageGen | ChatMode::VideoGen)
}

/// The preset voice at position `i`, `vivian` past the end of the list.
pub open spec fn voice_spec(i: usize) -> Seq<char> {
    if i == 0 {
        "vivian"@
    } else if i == 1 {
        "serena"@
    } else if i == 2 {
        "ryan"@
    } else if i == 3 {
        "aiden"@
    } else if i == 4 {
        "english_man"@
    } else if i == 5 {
        "uncle_fu"@
    } else if i == 6 {
        "chinese_woman"@
    } else if i == 7 {
        "chinese_man"@
    } else if i == 8 {
        "dialect"@
    } else {
        "vivian"@
    }
}

/// The speech voice for the selected voice button.
pub fn tts_voice(i: usize) -> (r: &'static str)
    ensures
        r@ == voice_spec(i),
{
    if i == 0 {
        "vivian"
    } else if i == 1 {
        "serena"
    } else if i == 2 {
        "ryan"
    } else if i == 3 {
        "aiden"
    } else if i == 4 {
        "english_man"
    } else if i == 5 {
        "uncle_fu"
    } else if i == 6 {
        "chinese_woman"
    } else if i == 7 {
        "chinese_man"
    } else if i == 8 {
        "dialect"
    } else {
        "vivian"
    }
}

// ───────────────────────────── providers as the chat screen shows them ─────────────────────────────
/// The name shown for a provider id.
pub open spec fn display_name_spec(id: Seq<char>) -> Seq<char> {
    if id == "openai"@ {
        "OpenAI"@
    } else if id == "openai-realtime"@ {
        "OpenAI Realtime"@
    } else if id == "anthropic"@ {
        "Anthropic"@
    } else if id == "gemini"@ {
        "Google Gemini"@
    } else if id == "ollama"@ {
        "Ollama"@
    } else if id == "deepseek"@ {
        "DeepSeek"@
    } else if id == "groq"@ {
        "Groq"@
    } else if id == "nvidia"@ {
        "NVIDIA"@
    } else if id == "openrouter"@ {
        "OpenRouter"@
    } else if id == "siliconflow"@ {
        "SiliconFlow"@
    } else if id == "zhipu"@ {
        "Zhipu AI"@
    } else if id == "ominix-image"@ {
        "OminiX Image"@
    } else if id == "ominix-local"@ {
        "OminiX Local"@
    } else {
        "Unknown"@
    }
}

/// The name shown for provider `id`.
pub fn provider_display_name(id: &str) -> (r: &'static str)
    ensures
        r@ == display_name_spec(id@),
{
    if str_eq(id, "openai") {
        "OpenAI"
    } else if str_eq(id, "openai-realtime") {
        "OpenAI Realtime"
    } else if str_eq(id, "anthropic") {
        "Anthropic"
    } else if str_eq(id, "gemini") {
        "Google Gemini"
    } else if str_eq(id, "ollama") {
        "Ollama"
    } else if str_eq(id, "deepseek") {
        "DeepSeek"
    } else if str_eq(id, "groq") {
        "Groq"
    } else if str_eq(id, "nvidia") {
        "NVIDIA"
    } else if str_eq(id, "openrouter") {
        "OpenRouter"
    } else if str_eq(id, "siliconflow") {
        "SiliconFlow"
    } else if str_eq(id, "zhipu") {
        "Zhipu AI"
    } else if str_eq(id, "ominix-image") {
        "OminiX Image"
    } else if str_eq(id, "ominix-local") {
        "OminiX Local"
    } else {
        "Unknown"
    }
}

/// The position of a provider's icon among the chat screen's icons; the
/// local and image providers of the inference server share the local icon.
pub open spec fn chat_icon_spec(id: Seq<char>) -> Option<usize> {
    if id == "openai"@ || id == "openai-realtime"@ {
        Some(0)
    } else if id == "anthropic"@ {
        Some(1)
    } else if id == "gemini"@ {
        Some(2)
    } else if id == "ollama"@ {
        Some(3)
    } else if id == "deepseek"@ {
        Some(4)
    } else if id == "openrouter"@ {
        Some(5)
    } else if id == "siliconflow"@ {
        Some(6)
    } else if id == "nvidia"@ {
        Some(7)
    } else if id == "groq"@ {
        Some(8)
    } else if id == "zhipu"@ {
        Some(9)
    } else if id == "ominix-image"@ || id == "ominix-local"@ {
        Some(3)
    } else {
        None
    }
}

/// Index of the chat screen icon for provider `id`.
pub fn chat_icon_index(id: &str) -> (r: Option<usize>)
    ensures
        r == chat_icon_spec(id@),
{
    if str_eq(id, "openai") || str_eq(id, "openai-realtime") {
        Some(0)
    } else if str_eq(id, "anthropic") {
        Some(1)
    } else if str_eq(id, "gemini") {
        Some(2)
    } else if str_eq(id, "ollama") {
        Some(3)
    } else if str_eq(id, "deepseek") {
        Some(4)
    } else if str_eq(id, "openrouter") {
        Some(5)
    } else if str_eq(id, "siliconflow") {
        Some(6)
    } else if str_eq(id, "nvidia") {
        Some(7)
    } else if str_eq(id, "groq") {
        Some(8)
    } else if str_eq(id, "zhipu") {
        Some(9)
    } else if str_eq(id, "ominix-image") || str_eq(id, "ominix-local") {
        Some(3)
    } else {
        None
    }
}

/// The providers whose models are fetched, in order: the enabled providers
/// whose API key is not blank.
pub open spec fn fetch_order(ps: Seq<(String, Option<String>)>) -> Seq<Seq<char>>
    decreases ps.len(),
{
    if ps.len() == 0 {
        Seq::<Seq<char>>::empty()
    } else {
        let r = fetch_order(ps.drop_last());
        match ps.last().1 {
            Some(k) => if trim(k@).len() > 0 {
                r.push(ps.last().0@)
            } else {
                r
            },
            None => r,
        }
    }
}

/// The ids of the providers (given as `(id, API key)`) to fetch models from.
pub fn providers_to_fetch(ps: &Vec<(String, Option<String>)>) -> (r: Vec<String>)
    ensures
        views(r@) == fetch_order(ps@),
{
    let mut r: Vec<String> = Vec::new();
    assert(ps@.take(0) =~= Seq::<(String, Option<String>)>::empty());
    for i in 0..ps.len()
        invariant
            views(r@) == fetch_order(ps@.take(i as int)),
    {
        assert(ps@.take(i + 1).drop_last() =~= ps@.take(i as int));
        assert(ps@.take(i + 1).last() == ps@[i as int]);
        let ghost before = views(r@);
        match &ps[i].1 {
            Some(k) => {
                let t = trim_str(k.as_str());
                if t.as_str().unicode_len() > 0 {
                    r.push(ps[i].0.clone());
                    assert(views(r@) =~= before.push(ps@[i as int].0@));
                }
            },
            None => {},
        }
    }
    assert(ps@.take(ps.len() as int) =~= ps@);
    r
}

/// Whether the set of providers differs from the set fetched before (order
/// and repetition do not count).
pub fn provider_set_changed(old_ids: &Vec<String>, new_ids: &Vec<String>) -> (r: bool)
    ensures
        r == (views(old_ids@).to_set() != views(new_ids@).to_set()),
{
    let a = contains_all(old_ids, new_ids);
    let b = contains_all(new_ids, old_ids);
    proof {
        let x = views(old_ids@).to_set();
        let y = views(new_ids@).to_set();
        if a && b {
            assert(x =~= y);
        } else if !a {
            let k = choose|k: int| 0 <= k < new_ids@.len() && !views(old_ids@).contains(new_ids@[k]@);
            assert(y.contains(views(new_ids@)[k]));
        } else {
            let k = choose|k: int| 0 <= k < old_ids@.len() && !views(new_ids@).contains(old_ids@[k]@);
            assert(x.contains(views(old_ids@)[k]));
        }
    }
    !(a && b)
}

/// Every string of `b` occurs in `a`.
fn contains_all(a: &Vec<String>, b: &Vec<String>) -> (r: bool)
    ensures
        r == (forall|k: int| 0 <= k < b@.len() ==> views(a@).contains(#[trigger] b@[k]@)),
{
    for k in 0..b.len()
        invariant
            forall|j: int| 0 <= j < k ==> views(a@).contains(#[trigger] b@[j]@),
    {
        let mut found = false;
        for i in 0..a.len()
            invariant
                k < b@.len(),
                found ==> views(a@).contains(b@[k as int]@),
                !found ==> forall|j: int| 0 <= j < i ==> a@[j]@ != b@[k as int]@,
        {
            if !found && str_eq(a[i].as_str(), b[k].as_str()) {
                found = true;
                assert(views(a@)[i as int] == b@[k as int]@);
            }
        }
        if !found {
            assert(!views(a@).contains(b@[k as int]@)) by {
                if views(a@).contains(b@[k as int]@) {
                    let j = choose|j: int| 0 <= j < views(a@).len() && views(a@)[j] == b@[k as int]@;
                    assert(a@[j]@ == b@[k as int]@);
                }
            }
            return false;
        }
    }
    true
}

// ───────────────────────────── fetching the providers' models ─────────────────────────────
/// How fetching the providers' models stands: whether it has been set up,
/// whether a fetch runs, the providers to fetch from in order, the position
/// of the one being fetched, the providers whose models arrived, the
/// provider being fetched, and how many bots were last seen.
pub struct FetchProgress {
    pub configured: bool,
    pub in_progress: bool,
    pub to_fetch: Vec<String>,
    pub index: usize,
    pub fetched: Vec<String>,
    pub current: Option<String>,
    pub last_bots: usize,
}

/// What setting up the fetch did.
#[derive(Debug, Clone, Copy, PartialEq, Eq, Structural)]
pub enum ConfigureOutcome {
    /// Nothing: a fetch runs, or the providers are as they were fetched.
    Unchanged,
    /// Every provider is disabled: the bots are cleared and the saved model
    /// may be restored again later.
    Cleared,
    /// Set up anew; `reset_bots` when the providers changed (the old bots are
    /// cleared and the saved model may be restored again), and `start` when
    /// there is a provider to fetch from (starting at position 0).
    Configured { reset_bots: bool, start: bool },
}

/// What starting the fetch at a position did.
#[derive(Debug, Clone, Copy, PartialEq, Eq, Structural)]
pub enum StartOutcome {
    /// No provider is left: fetching is over.
    Finished,
    /// The provider there has no client: try the next position.
    Skip,
    /// Its models are being fetched.
    Fetching,
}

/// What a look at the loaded bots did.
#[derive(Debug, Clone, Copy, PartialEq, Eq, Structural)]
pub enum LoadedOutcome {
    /// No new bots, or no fetch runs.
    Ignored,
    /// The current provider's bots arrived; fetch from this position next.
    Next(usize),
    /// The last provider's bots arrived: every provider has been fetched.
    AllFetched,
}

/// The ids of providers given as `(id, API key)`.
pub open spec fn provider_ids(ps: Seq<(String, Option<String>)>) -> Seq<Seq<char>> {
    ps.map_values(|p: (String, Option<String>)| p.0@)
}

/// No two strings of `v` are equal.
pub open spec fn distinct(v: Seq<Seq<char>>) -> bool {
    forall|i: int, j: int| 0 <= i < j < v.len() ==> v[i] != v[j]
}

/// The fetch's invariant: each provider's models are recorded once, only
/// for providers to fetch from, and a running fetch is at a provider of the
/// list, the current one.
pub open spec fn fetch_wf(f: FetchProgress) -> bool {
    &&& distinct(views(f.fetched@))
    &&& forall|i: int| 0 <= i < f.fetched@.len() ==> views(f.to_fetch@).contains(#[trigger] f.fetched@[i]@)
    &&& f.in_progress ==> f.index < f.to_fetch@.len() && (f.current matches Some(c) && c@
        == f.to_fetch@[f.index as int]@)
}

/// Whether `s` is among `v`.
fn contains_string(v: &Vec<String>, s: &str) -> (r: bool)
    ensures
        r == views(v@).contains(s@),
{
    for i in 0..v.len()
        invariant
            forall|j: int| 0 <= j < i ==> v@[j]@ != s@,
    {
        if str_eq(v[i].as_str(), s) {
            assert(views(v@)[i as int] == s@);
            return true;
        }
    }
    assert(!views(v@).contains(s@)) by {
        if views(v@).contains(s@) {
            let j = choose|j: int| 0 <= j < views(v@).len() && views(v@)[j] == s@;
            assert(v@[j]@ == s@);
        }
    }
    false
}

impl FetchProgress {
    /// Nothing set up, nothing fetched.
    pub fn new() -> (r: FetchProgress)
        ensures
            fetch_wf(r),
            !r.configured,
            !r.in_progress,
            r.to_fetch@.len() == 0,
            r.index == 0,
            r.fetched@.len() == 0,
            r.current is None,
            r.last_bots == 0,
    {
        FetchProgress {
            configured: false,
            in_progress: false,
            to_fetch: Vec::new(),
            index: 0,
            fetched: Vec::new(),
            current: None,
            last_bots: 0,
        }
    }

    /// Sets the fetch up for the enabled providers `ps` (as `(id, API key)`):
    /// unless a fetch runs or they are the providers already fetched, the
    /// providers with a non-blank key become the ones to fetch from, and
    /// nothing is fetched yet; with no enabled provider, a set-up fetch is
    /// undone.
    pub fn configure(&mut self, ps: &Vec<(String, Option<String>)>) -> (r: ConfigureOutcome)
        requires
            fetch_wf(*old(self)),
        ensures
            fetch_wf(*final(self)),
            ({
                let changed = old(self).configured && views(old(self).fetched@).to_set()
                    != provider_ids(ps@).to_set();
                if old(self).in_progress || (old(self).configured && !changed) {
                    r == ConfigureOutcome::Unchanged && *final(self) == *old(self)
                } else if ps@.len() == 0 {
                    if old(self).configured {
                        &&& r == ConfigureOutcome::Cleared
                        &&& !final(self).configured
                        &&& final(self).fetched@.len() == 0
                        &&& final(self).to_fetch == old(self).to_fetch
                        &&& final(self).index == old(self).index
                        &&& final(self).in_progress == old(self).in_progress
                        &&& final(self).current == old(self).current
                        &&& final(self).last_bots == old(self).last_bots
                    } else {
                        r == ConfigureOutcome::Unchanged && *final(self) == *old(self)
                    }
                } else {
                    &&& r == ConfigureOutcome::Configured {
                        reset_bots: changed,
                        start: fetch_order(ps@).len() > 0,
                    }
                    &&& final(self).configured
                    &&& views(final(self).to_fetch@) == fetch_order(ps@)
                    &&& final(self).index == 0
                    &&& final(self).fetched@.len() == 0
                    &&& final(self).in_progress == old(self).in_progress
                    &&& final(self).current == old(self).current
                    &&& final(self).last_bots == old(self).last_bots
                }
            }),
    {
        if self.in_progress {
            return ConfigureOutcome::Unchanged;
        }
        let mut ids: Vec<String> = Vec::new();
        for i in 0..ps.len()
            invariant
                views(ids@) == provider_ids(ps@.take(i as int)),
        {
            let ghost before = views(ids@);
            ids.push(ps[i].0.clone());
            assert(views(ids@) =~= before.push(ps@[i as int].0@));
            assert(provider_ids(ps@.take(i + 1)) =~= provider_ids(ps@.take(i as int)).push(
                ps@[i as int].0@,
            ));
        }
        assert(ps@.take(ps.len() as int) =~= ps@);
        let changed = self.configured && provider_set_changed(&self.fetched, &ids);
        if self.configured && !changed {
            return ConfigureOutcome::Unchanged;
        }
        if ps.len() == 0 {
            if self.configured {
                self.fetched = Vec::new();
                self.configured = false;
                return ConfigureOutcome::Cleared;
            }
            return ConfigureOutcome::Unchanged;
        }
        let to_fetch = providers_to_fetch(ps);
        let start = to_fetch.len() > 0;
        self.fetched = Vec::new();
        self.to_fetch = to_fetch;
        self.index = 0;
        self.configured = true;
        ConfigureOutcome::Configured { reset_bots: changed, start }
    }

    /// Starts fetching from the provider at `index`, when one is there;
    /// `has_client` tells whether a client for it was found.
    pub fn start_at(&mut self, index: usize, has_client: bool) -> (r: StartOutcome)
        requires
            fetch_wf(*old(self)),
        ensures
            fetch_wf(*final(self)),
            index >= old(self).to_fetch@.len() ==> {
                &&& r == StartOutcome::Finished
                &&& !final(self).in_progress
                &&& final(self).index == old(self).index
                &&& final(self).current == old(self).current
                &&& final(self).last_bots == old(self).last_bots
            },
            index < old(self).to_fetch@.len() && !has_client ==> {
                r == StartOutcome::Skip && *final(self) == *old(self)
            },
            index < old(self).to_fetch@.len() && has_client ==> {
                &&& r == StartOutcome::Fetching
                &&& final(self).in_progress
                &&& final(self).index == index
                &&& (final(self).current matches Some(c) && c@ == old(self).to_fetch@[index as int]@)
                &&& final(self).last_bots == 0
            },
            final(self).configured == old(self).configured,
            final(self).to_fetch == old(self).to_fetch,
            final(self).fetched == old(self).fetched,
    {
        if index >= self.to_fetch.len() {
            self.in_progress = false;
            return StartOutcome::Finished;
        }
        if !has_client {
            return StartOutcome::Skip;
        }
        self.current = Some(self.to_fetch[index].clone());
        self.index = index;
        self.in_progress = true;
        self.last_bots = 0;
        StartOutcome::Fetching
    }

    /// Looks at the number of bots loaded: when a fetch runs and new bots
    /// arrived, the current provider is recorded as fetched (once), and the
    /// fetch moves to the next position or ends.
    pub fn bots_loaded(&mut self, count: usize) -> (r: LoadedOutcome)
        requires
            fetch_wf(*old(self)),
        ensures
            fetch_wf(*final(self)),
            !old(self).in_progress || count == 0 || count == old(self).last_bots ==> r
                == LoadedOutcome::Ignored && *final(self) == *old(self),
            old(self).in_progress && count != 0 && count != old(self).last_bots ==> {
                let c = old(self).current->0@;
                &&& final(self).last_bots == count
                &&& views(final(self).fetched@) == (if views(old(self).fetched@).contains(c) {
                    views(old(self).fetched@)
                } else {
                    views(old(self).fetched@).push(c)
                })
                &&& (old(self).index + 1 < old(self).to_fetch@.len() ==> r == LoadedOutcome::Next(
                    (old(self).index + 1) as usize,
                ) && final(self).in_progress)
                &&& (old(self).index + 1 >= old(self).to_fetch@.len() ==> r
                    == LoadedOutcome::AllFetched && !final(self).in_progress)
                &&& final(self).index == old(self).index
                &&& final(self).current == old(self).current
            },
            final(self).configured == old(self).configured,
            final(self).to_fetch == old(self).to_fetch,
    {
        if !self.in_progress || count == 0 || count == self.last_bots {
            return LoadedOutcome::Ignored;
        }
        let n = self.to_fetch.len();
        assert(self.index < n);
        let next = self.index + 1;
        self.last_bots = count;
        let ghost before = views(self.fetched@);
        match &self.current {
            Some(c) => {
                if !contains_string(&self.fetched, c.as_str()) {
                    let cc = c.clone();
                    self.fetched.push(cc);
                    proof {
                        assert(views(self.fetched@) =~= before.push(cc@));
                        assert forall|i: int, j: int| 0 <= i < j < views(self.fetched@).len() implies views(
                            self.fetched@,
                        )[i] != views(self.fetched@)[j] by {
                            if j == before.len() {
                                assert(views(self.fetched@)[i] == before[i]);
                            }
                        }
                        assert forall|i: int| 0 <= i < self.fetched@.len() implies views(
                            self.to_fetch@,
                        ).contains(#[trigger] self.fetched@[i]@) by {
                            if i == before.len() {
                                assert(views(self.to_fetch@)[self.index as int] == cc@);
                            } else {
                                assert(self.fetched@[i]@ == before[i]);
                            }
                        }
                    }
                }
            },
            None => {},
        }
        if next < self.to_fetch.len() {
            LoadedOutcome::Next(next)
        } else {
            self.in_progress = false;
            LoadedOutcome::AllFetched
        }
    }
}

/// Fetching moves forward: the next position to fetch from lies after the
/// current one, so every fetch ends after at most as many steps as there are
/// providers.
pub proof fn lemma_fetch_moves_forward(f: FetchProgress, next: usize)
    requires
        fetch_wf(f),
        f.in_progress,
        next == f.index + 1,
    ensures
        f.to_fetch@.len() - next < f.to_fetch@.len() - f.index,
{
}

// ───────────────────────────── which bots are offered ─────────────────────────────
/// Index of the first entry named `a` or `b`.
pub open spec fn first_named_either(es: Seq<(Seq<char>, bool)>, a: Seq<char>, b: Seq<char>) -> Option<
    nat,
>
    decreases es.len(),
{
    if es.len() == 0 {
        None
    } else if es[0].0 == a || es[0].0 == b {
        Some(0)
    } else {
        match first_named_either(es.drop_first(), a, b) {
            Some(i) => Some(i + 1),
            None => None,
        }
    }
}

/// A bot is offered when its provider has no stored preferences or no entry
/// names its model (by id or by display name): models are enabled by
/// default. Otherwise the first entry naming it decides.
pub open spec fn bot_shown(models: Option<Seq<(Seq<char>, bool)>>, model_id: Seq<char>, bot_name: Seq<
    char,
>) -> bool {
    match models {
        None => true,
        Some(es) => match first_named_either(es, model_id, bot_name) {
            Some(i) => es[i as int].1,
            None => true,
        },
    }
}

/// The stored entries of an optional list.
pub open spec fn opt_entries(models: Option<&Vec<(String, bool)>>) -> Option<Seq<(Seq<char>, bool)>> {
    match models {
        Some(m) => Some(entries(m@)),
        None => None,
    }
}

/// Whether a bot is offered, given its provider's stored model entries
/// (`None` when the provider has no preferences), its model id and its name.
pub fn bot_enabled(models: Option<&Vec<(String, bool)>>, model_id: &str, bot_name: &str) -> (r: bool)
    ensures
        r == bot_shown(opt_entries(models), model_id@, bot_name@),
{
    let Some(ms) = models else {
        return true;
    };
    let ghost es = entries(ms@);
    let mut i: usize = 0;
    assert(es.skip(0) =~= es);
    while i < ms.len()
        invariant
            es == entries(ms@),
            es.len() == ms.len(),
            opt_entries(models) == Some(es),
            i <= ms.len(),
            first_named_either(es, model_id@, bot_name@) == (match first_named_either(
                es.skip(i as int),
                model_id@,
                bot_name@,
            ) {
                Some(k) => Some((k + i) as nat),
                None => None::<nat>,
            }),
        decreases ms.len() - i,
    {
        assert(es.skip(i as int)[0] == es[i as int]);
        assert(es[i as int] == (ms@[i as int].0@, ms@[i as int].1));
        if str_eq(ms[i].0.as_str(), model_id) || str_eq(ms[i].0.as_str(), bot_name) {
            return ms[i].1;
        }
        assert(es.skip(i as int).drop_first() =~= es.skip(i + 1));
        i = i + 1;
    }
    true
}

/// The first entry naming `a` or `b` is found where it stands.
proof fn lemma_first_named_either_at(es: Seq<(Seq<char>, bool)>, a: Seq<char>, b: Seq<char>, i: int)
    requires
        0 <= i < es.len(),
        es[i].0 == a || es[i].0 == b,
        forall|j: int| 0 <= j < i ==> es[j].0 != a && es[j].0 != b,
    ensures
        first_named_either(es, a, b) == Some(i as nat),
    decreases i,
{
    if i > 0 {
        assert forall|j: int| 0 <= j < i - 1 implies es.drop_first()[j].0 != a && es.drop_first()[j].0
            != b by {
            assert(es.drop_first()[j] == es[j + 1]);
        }
        lemma_first_named_either_at(es.drop_first(), a, b, i - 1);
    }
}

proof fn lemma_first_named_either_none(es: Seq<(Seq<char>, bool)>, a: Seq<char>, b: Seq<char>)
    requires
        forall|j: int| 0 <= j < es.len() ==> es[j].0 != a && es[j].0 != b,
    ensures
        first_named_either(es, a, b) is None,
    decreases es.len(),
{
    if es.len() > 0 {
        assert forall|j: int| 0 <= j < es.len() - 1 implies es.drop_first()[j].0 != a
            && es.drop_first()[j].0 != b by {
            assert(es.drop_first()[j] == es[j + 1]);
        }
        lemma_first_named_either_none(es.drop_first(), a, b);
    }
}

/// The first stored entry that names a bot, by its model id or by its
/// display name alike, decides whether the bot is offered.
pub proof fn lemma_first_naming_entry_decides(
    es: Seq<(Seq<char>, bool)>,
    model_id: Seq<char>,
    bot_name: Seq<char>,
    i: int,
)
    requires
        0 <= i < es.len(),
        es[i].0 == model_id || es[i].0 == bot_name,
        forall|j: int| 0 <= j < i ==> es[j].0 != model_id && es[j].0 != bot_name,
    ensures
        bot_shown(Some(es), model_id, bot_name) == es[i].1,
{
    lemma_first_named_either_at(es, model_id, bot_name, i);
}

/// A bot that no stored entry names, by model id or display name, is
/// offered, as is every bot of a provider without preferences.
pub proof fn lemma_unnamed_bot_offered(es: Seq<(Seq<char>, bool)>, model_id: Seq<char>, bot_name: Seq<char>)
    requires
        forall|j: int| 0 <= j < es.len() ==> es[j].0 != model_id && es[j].0 != bot_name,
    ensures
        bot_shown(Some(es), model_id, bot_name),
        bot_shown(None, model_id, bot_name),
{
    lemma_first_named_either_none(es, model_id, bot_name);
}

// ───────────────────────────── restoring the selected model ─────────────────────────────
/// Index of the first bot whose id is `s`.
pub open spec fn first_equal(bots: Seq<Seq<char>>, s: Seq<char>) -> Option<nat>
    decreases bots.len(),
{
    if bots.len() == 0 {
        None
    } else if bots[0] == s {
        Some(0)
    } else {
        match first_equal(bots.drop_first(), s) {
            Some(i) => Some(i + 1),
            None => None,
        }
    }
}

/// A bot matches a saved model that is not among the bots exactly: same
/// provider, and the same model name up to a leading `models/`.
pub open spec fn loosely_matches(bot: Seq<char>, saved: Seq<char>) -> bool {
    let (bn, bp) = bot_parts(bot);
    let (sn, sp) = bot_parts(saved);
    bp == sp && (bn == sn || bn == "models/"@ + sn || sn == "models/"@ + bn)
}

/// The first bot that loosely matches `saved`, scanning in order; `None` when
/// a bot whose id cannot be split is met first.
pub open spec fn loose_scan(bots: Seq<Seq<char>>, saved: Seq<char>) -> Option<Option<nat>>
    decreases bots.len(),
{
    if bots.len() == 0 {
        Some(None)
    } else if bot_id_faulty(bots[0]) {
        None
    } else if loosely_matches(bots[0], saved) {
        Some(Some(0))
    } else {
        match loose_scan(bots.drop_first(), saved) {
            Some(Some(i)) => Some(Some(i + 1)),
            other => other,
        }
    }
}

/// Which bot to select when the offered bots (`bots`, by id) are known: none
/// when there are none; the first when nothing was saved; else the bot with
/// the saved id, or one that loosely matches it (then its id is saved in place
/// of the old one), or the first. The pair is the index and whether to save.
pub open spec fn restore_choice(saved: Option<Seq<char>>, bots: Seq<Seq<char>>) -> Option<(nat, bool)> {
    if bots.len() == 0 {
        None
    } else {
        match saved {
            None => Some((0, false)),
            Some(s) => match first_equal(bots, s) {
                Some(i) => Some((i, false)),
                None => match loose_scan(bots, s) {
                    Some(Some(i)) => Some((i, bots[i as int] != s)),
                    _ => Some((0, false)),
                },
            },
        }
    }
}

/// The choice can be made without cutting a character apart: the saved id,
/// and every bot id met before a loose match, split cleanly.
pub open spec fn restore_safe(saved: Option<Seq<char>>, bots: Seq<Seq<char>>) -> bool {
    bots.len() > 0 ==> match saved {
        None => true,
        Some(s) => !bot_id_faulty(s) && (first_equal(bots, s) is None ==> loose_scan(
            bots,
            s,
        ) is Some),
    }
}

proof fn lemma_first_equal_in_range(bots: Seq<Seq<char>>, s: Seq<char>)
    ensures
        first_equal(bots, s) matches Some(i) ==> i < bots.len() && bots[i as int] == s,
    decreases bots.len(),
{
    if bots.len() > 0 && bots[0] != s {
        lemma_first_equal_in_range(bots.drop_first(), s);
    }
}

proof fn lemma_loose_scan_in_range(bots: Seq<Seq<char>>, s: Seq<char>)
    ensures
        loose_scan(bots, s) matches Some(Some(i)) ==> i < bots.len(),
    decreases bots.len(),
{
    if bots.len() > 0 {
        lemma_loose_scan_in_range(bots.drop_first(), s);
    }
}

/// The restored selection always names one of the offered bots, and an
/// exact match of the saved id is never stored again.
pub proof fn lemma_restored_choice_in_range(saved: Option<Seq<char>>, bots: Seq<Seq<char>>)
    ensures
        restore_choice(saved, bots) matches Some((i, _)) ==> i < bots.len(),
        restore_choice(saved, bots) is None <==> bots.len() == 0,
        restore_choice(saved, bots) matches Some((i, true)) ==> saved matches Some(s) && bots[i as int] != s,
{
    if let Some(s) = saved {
        lemma_first_equal_in_range(bots, s);
        lemma_loose_scan_in_range(bots, s);
    }
}

/// Scanning for a loose match finds one no later than any bot that matches.
proof fn lemma_loose_scan_finds(bots: Seq<Seq<char>>, saved: Seq<char>, k: int)
    requires
        0 <= k < bots.len(),
        forall|j: int| 0 <= j < bots.len() ==> !bot_id_faulty(#[trigger] bots[j]),
        ({
            let (bn, bp) = bot_parts(bots[k]);
            let (sn, sp) = bot_parts(saved);
            bp == sp && (bn == sn || bn == "models/"@ + sn || sn == "models/"@ + bn)
        }),
    ensures
        loose_scan(bots, saved) matches Some(Some(i)) && i <= k && loosely_matches(
            bots[i as int],
            saved,
        ),
    decreases k,
{
    assert(!bot_id_faulty(bots[0]));
    if k > 0 && !loosely_matches(bots[0], saved) {
        assert forall|j: int| 0 <= j < bots.drop_first().len() implies !bot_id_faulty(
            #[trigger] bots.drop_first()[j],
        ) by {
            assert(bots.drop_first()[j] == bots[j + 1]);
        }
        assert(bots.drop_first()[k - 1] == bots[k]);
        lemma_loose_scan_finds(bots.drop_first(), saved, k - 1);
        let i = loose_scan(bots.drop_first(), saved)->0->0;
        assert(bots.drop_first()[i as int] == bots[i + 1 as int]);
    }
}

/// When no offered bot has the saved id, a bot of the saved model's provider
/// whose model name equals the saved one, up to a leading `models/` on
/// either side, is chosen in place of the first bot: the chosen bot is of
/// that provider, matches that way, comes no later than any such bot, and
/// its id is stored when it differs from the saved one.
pub proof fn lemma_loose_match_restored(saved: Seq<char>, bots: Seq<Seq<char>>, k: int)
    requires
        0 <= k < bots.len(),
        forall|j: int| 0 <= j < bots.len() ==> bots[j] != saved,
        forall|j: int| 0 <= j < bots.len() ==> !bot_id_faulty(#[trigger] bots[j]),
        ({
            let (bn, bp) = bot_parts(bots[k]);
            let (sn, sp) = bot_parts(saved);
            bp == sp && (bn == sn || bn == "models/"@ + sn || sn == "models/"@ + bn)
        }),
    ensures
        restore_choice(Some(saved), bots) matches Some((i, store)) && i <= k && store == (bots[i as int]
            != saved) && ({
            let (bn, bp) = bot_parts(bots[i as int]);
            let (sn, sp) = bot_parts(saved);
            bp == sp && (bn == sn || bn == "models/"@ + sn || sn == "models/"@ + bn)
        }),
{
    lemma_first_equal_in_range(bots, saved);
    lemma_loose_scan_finds(bots, saved, k);
}

/// A bot with exactly the saved id is chosen, the first one, and nothing is
/// stored again.
pub proof fn lemma_exact_match_restored(saved: Seq<char>, bots: Seq<Seq<char>>, k: int)
    requires
        0 <= k < bots.len(),
        bots[k] == saved,
        forall|j: int| 0 <= j < k ==> bots[j] != saved,
    ensures
        restore_choice(Some(saved), bots) == Some((k as nat, false)),
    decreases k,
{
    if k > 0 {
        assert forall|j: int| 0 <= j < k - 1 implies bots.drop_first()[j] != saved by {
            assert(bots.drop_first()[j] == bots[j + 1]);
        }
        assert(bots.drop_first()[k - 1] == bots[k]);
        lemma_first_equal_at(bots.drop_first(), saved, k - 1);
    }
}

proof fn lemma_first_equal_at(bots: Seq<Seq<char>>, s: Seq<char>, k: int)
    requires
        0 <= k < bots.len(),
        bots[k] == s,
        forall|j: int| 0 <= j < k ==> bots[j] != s,
    ensures
        first_equal(bots, s) == Some(k as nat),
    decreases k,
{
    if k > 0 {
        assert forall|j: int| 0 <= j < k - 1 implies bots.drop_first()[j] != s by {
            assert(bots.drop_first()[j] == bots[j + 1]);
        }
        assert(bots.drop_first()[k - 1] == bots[k]);
        lemma_first_equal_at(bots.drop_first(), s, k - 1);
    }
}

/// The selection to restore: which bot, and whether its id is stored as the
/// chosen model (`restore_choice`).
pub fn choose_restored_model(saved: Option<&str>, bots: &Vec<String>) -> (r: Option<(usize, bool)>)
    requires
        restore_safe(
            match saved {
                Some(s) => Some(s@),
                None => None,
            },
            views(bots@),
        ),
    ensures
        r == (match restore_choice(
            match saved {
                Some(s) => Some(s@),
                None => None,
            },
            views(bots@),
        ) {
            Some((i, b)) => Some((i as usize, b)),
            None => None::<(usize, bool)>,
        }),
{
    let ghost bs = views(bots@);
    if bots.len() == 0 {
        return None;
    }
    let Some(s) = saved else {
        return Some((0, false));
    };
    // exact match
    let mut i: usize = 0;
    assert(bs.skip(0) =~= bs);
    while i < bots.len()
        invariant
            bs == views(bots@),
            bs.len() == bots.len(),
            bots.len() > 0,
            saved == Some(s),
            i <= bots.len(),
            first_equal(bs, s@) == (match first_equal(bs.skip(i as int), s@) {
                Some(k) => Some((k + i) as nat),
                None => None::<nat>,
            }),
        decreases bots.len() - i,
    {
        assert(bs.skip(i as int)[0] == bots@[i as int]@);
        if str_eq(bots[i].as_str(), s) {
            return Some((i, false));
        }
        assert(bs.skip(i as int).drop_first() =~= bs.skip(i + 1));
        i = i + 1;
    }
    // loose match
    let (saved_name, saved_provider) = parse_bot_id_string(s);
    let prefixed_saved = concat("models/", saved_name.as_str());
    let mut j: usize = 0;
    assert(bs.skip(0) =~= bs);
    while j < bots.len()
        invariant
            bs == views(bots@),
            bs.len() == bots.len(),
            bots.len() > 0,
            saved == Some(s),
            first_equal(bs, s@) is None,
            j <= bots.len(),
            (saved_name@, saved_provider@) == bot_parts(s@),
            prefixed_saved@ == "models/"@ + saved_name@,
            loose_scan(bs, s@) is Some,
            loose_scan(bs, s@) == (match loose_scan(bs.skip(j as int), s@) {
                Some(Some(k)) => Some(Some((k + j) as nat)),
                other => other,
            }),
        decreases bots.len() - j,
    {
        assert(bs.skip(j as int)[0] == bots@[j as int]@);
        assert(bs.skip(j as int).drop_first() =~= bs.skip(j + 1));
        let (name, provider) = parse_bot_id_string(bots[j].as_str());
        let prefixed = concat("models/", name.as_str());
        if str_eq(provider.as_str(), saved_provider.as_str()) && (str_eq(
            name.as_str(),
            saved_name.as_str(),
        ) || str_eq(name.as_str(), prefixed_saved.as_str()) || str_eq(
            saved_name.as_str(),
            prefixed.as_str(),
        )) {
            let store = !str_eq(bots[j].as_str(), s);
            return Some((j, store));
        }
        j = j + 1;
    }
    Some((0, false))
}

// ───────────────────────────── saving conversations ─────────────────────────────
/// What the screen last saved of the current conversation.
pub struct SyncTracker {
    pub last_count: usize,
    pub had_writing: bool,
    pub last_len: usize,
}

/// What to do after looking at the conversation.
pub struct SyncDecision {
    /// Save the messages.
    pub persist: bool,
    /// Tell the shell that the conversation now has its first messages.
    pub chat_created: bool,
}

impl SyncTracker {
    /// A tracker for a conversation with `count` messages, the last `len` long.
    pub fn new(count: usize, len: usize) -> (r: SyncTracker)
        ensures
            r.last_count == count,
            !r.had_writing,
            r.last_len == len,
    {
        SyncTracker { last_count: count, had_writing: false, last_len: len }
    }

    /// Looks at the conversation: `count` messages, whether one is still being
    /// written, and the length of the last one's text. It is saved when the
    /// count changed, a message finished being written, or the last text
    /// changed; the tracker then remembers what it saw.
    pub fn observe(&mut self, count: usize, writing: bool, last_len: usize) -> (r: SyncDecision)
        ensures
            r.persist == persists(tracker_state(*old(self)), count, writing, last_len),
            tracker_state(*final(self)) == after_observe(
                tracker_state(*old(self)),
                count,
                writing,
                last_len,
            ),
            r.chat_created == (r.persist && old(self).last_count == 0 && count > 0),
    {
        let persist = count != self.last_count || (self.had_writing && !writing) || last_len
            != self.last_len;
        if !persist {
            return SyncDecision { persist: false, chat_created: false };
        }
        let chat_created = self.last_count == 0 && count > 0;
        self.last_count = count;
        self.had_writing = writing;
        self.last_len = last_len;
        SyncDecision { persist: true, chat_created }
    }
}

/// What the tracker remembers: the message count, whether a message was
/// being written, and the length of the last text.
pub open spec fn tracker_state(t: SyncTracker) -> (usize, bool, usize) {
    (t.last_count, t.had_writing, t.last_len)
}

/// Whether `observe` saves, as a function of the state and the snapshot.
pub open spec fn persists(s: (usize, bool, usize), count: usize, writing: bool, len: usize) -> bool {
    count != s.0 || (s.1 && !writing) || len != s.2
}

/// The state `observe` leaves.
pub open spec fn after_observe(s: (usize, bool, usize), count: usize, writing: bool, len: usize) -> (
    usize,
    bool,
    usize,
) {
    if persists(s, count, writing, len) {
        (count, writing, len)
    } else {
        s
    }
}

/// The conversation is saved whenever the message count or the length of
/// the last text differs from what was last saved, or a message finished
/// being written, whether or not a message is still being written; and only
/// then.
pub proof fn lemma_saves_on_any_change(s: (usize, bool, usize), count: usize, writing: bool, len: usize)
    ensures
        len != s.2 ==> persists(s, count, writing, len),
        count != s.0 ==> persists(s, count, writing, len),
        s.1 && !writing ==> persists(s, count, writing, len),
        count == s.0 && len == s.2 && !(s.1 && !writing) ==> !persists(s, count, writing, len),
{
}

/// Looking twice at an unchanged conversation saves it at most once.
pub proof fn lemma_observe_idempotent(s: (usize, bool, usize), count: usize, writing: bool, len: usize)
    ensures
        !persists(after_observe(s, count, writing, len), count, writing, len),
{
}

// ───────────────────────────── messages in non-chat modes ─────────────────────────────
/// Who wrote a message.
#[derive(Debug, Clone, Copy, PartialEq, Eq, Structural)]
pub enum Sender {
    User,
    Bot,
    App,
    System,
}

/// What the mode logic reads of a message.
#[derive(Debug, Clone, Copy, PartialEq, Eq, Structural)]
pub struct MessageMeta {
    pub from: Sender,
    pub is_writing: bool,
}

/// A finished message from the application or the system: an error left by
/// a chat request that this mode does not use.
pub open spec fn is_stale_error(m: MessageMeta) -> bool {
    (m.from == Sender::App || m.from == Sender::System) && !m.is_writing
}

/// The positions of the messages that are kept when stale errors are removed.
pub open spec fn kept_without_errors(ms: Seq<MessageMeta>) -> Seq<nat>
    decreases ms.len(),
{
    if ms.len() == 0 {
        Seq::<nat>::empty()
    } else {
        let r = kept_without_errors(ms.drop_last());
        if is_stale_error(ms.last()) {
            r
        } else {
            r.push((ms.len() - 1) as nat)
        }
    }
}

/// The views of a list of indices.
pub open spec fn nats(v: Seq<usize>) -> Seq<nat> {
    v.map_values(|i: usize| i as nat)
}

/// When the conversation holds a stale error, the positions of the messages
/// to keep (all but the stale errors, in order); `None` when there is none.
pub fn strip_stale_errors(ms: &Vec<MessageMeta>) -> (r: Option<Vec<usize>>)
    ensures
        match r {
            Some(kept) => (exists|i: int| 0 <= i < ms@.len() && is_stale_error(#[trigger] ms@[i]))
                && nats(kept@) == kept_without_errors(ms@),
            None => forall|i: int| 0 <= i < ms@.len() ==> !is_stale_error(#[trigger] ms@[i]),
        },
{
    let mut kept: Vec<usize> = Vec::new();
    let mut any = false;
    assert(ms@.take(0) =~= Seq::<MessageMeta>::empty());
    for i in 0..ms.len()
        invariant
            nats(kept@) == kept_without_errors(ms@.take(i as int)),
            any <==> exists|j: int| 0 <= j < i && is_stale_error(#[trigger] ms@[j]),
    {
        assert(ms@.take(i + 1).drop_last() =~= ms@.take(i as int));
        assert(ms@.take(i + 1).last() == ms@[i as int]);
        let m = ms[i];
        let stale = (matches!(m.from, Sender::App) || matches!(m.from, Sender::System))
            && !m.is_writing;
        if stale {
            any = true;
        } else {
            let ghost before = nats(kept@);
            kept.push(i);
            assert(nats(kept@) =~= before.push(i as nat));
        }
    }
    assert(ms@.take(ms.len() as int) =~= ms@);
    if any {
        Some(kept)
    } else {
        None
    }
}

/// The last message by the user at or after position `from`.
pub open spec fn last_user_from(ms: Seq<MessageMeta>, from: int) -> Option<nat>
    decreases ms.len(),
{
    if ms.len() <= from || ms.len() == 0 {
        None
    } else if ms.last().from == Sender::User {
        Some((ms.len() - 1) as nat)
    } else {
        last_user_from(ms.drop_last(), from)
    }
}

/// The position of the last user message among the messages from `from` on,
/// if there is one.
pub fn new_user_message(ms: &Vec<MessageMeta>, from: usize) -> (r: Option<usize>)
    ensures
        r == (match last_user_from(ms@, from as int) {
            Some(i) => Some(i as usize),
            None => None::<usize>,
        }),
{
    let mut i = ms.len();
    assert(ms@.take(ms.len() as int) =~= ms@);
    while i > from
        invariant
            i <= ms.len(),
            last_user_from(ms@, from as int) == last_user_from(ms@.take(i as int), from as int),
        decreases i,
    {
        assert(ms@.take(i as int).last() == ms@[i - 1]);
        if matches!(ms[i - 1].from, Sender::User) {
            return Some(i - 1);
        }
        assert(ms@.take(i as int).drop_last() =~= ms@.take(i - 1));
        i = i - 1;
    }
    None
}

/// The positions kept before answering a new message: everything before
/// position `from`, and the user's messages from there on.
pub open spec fn kept_for_answer(ms: Seq<MessageMeta>, from: int) -> Seq<nat>
    decreases ms.len(),
{
    if ms.len() == 0 {
        Seq::<nat>::empty()
    } else {
        let r = kept_for_answer(ms.drop_last(), from);
        if ms.len() - 1 < from || ms.last().from == Sender::User {
            r.push((ms.len() - 1) as nat)
        } else {
            r
        }
    }
}

/// The positions of the messages to keep before answering.
pub fn keep_for_answer(ms: &Vec<MessageMeta>, from: usize) -> (r: Vec<usize>)
    ensures
        nats(r@) == kept_for_answer(ms@, from as int),
{
    let mut kept: Vec<usize> = Vec::new();
    assert(ms@.take(0) =~= Seq::<MessageMeta>::empty());
    for i in 0..ms.len()
        invariant
            nats(kept@) == kept_for_answer(ms@.take(i as int), from as int),
    {
        assert(ms@.take(i + 1).drop_last() =~= ms@.take(i as int));
        assert(ms@.take(i + 1).last() == ms@[i as int]);
        if i < from || matches!(ms[i].from, Sender::User) {
            let ghost before = nats(kept@);
            kept.push(i);
            assert(nats(kept@) =~= before.push(i as nat));
        }
    }
    assert(ms@.take(ms.len() as int) =~= ms@);
    kept
}

/// The last message still being written.
pub open spec fn last_writing(ms: Seq<MessageMeta>) -> Option<nat>
    decreases ms.len(),
{
    if ms.len() == 0 {
        None
    } else if ms.last().is_writing {
        Some((ms.len() - 1) as nat)
    } else {
        last_writing(ms.drop_last())
    }
}

/// Where an answer goes: in place of the last message being written, or
/// after all messages when none is (`None`).
pub fn answer_slot(ms: &Vec<MessageMeta>) -> (r: Option<usize>)
    ensures
        r == (match last_writing(ms@) {
            Some(i) => Some(i as usize),
            None => None::<usize>,
        }),
{
    let mut i = ms.len();
    assert(ms@.take(ms.len() as int) =~= ms@);
    while i > 0
        invariant
            i <= ms.len(),
            last_writing(ms@) == last_writing(ms@.take(i as int)),
        decreases i,
    {
        assert(ms@.take(i as int).last() == ms@[i - 1]);
        if ms[i - 1].is_writing {
            return Some(i - 1);
        }
        assert(ms@.take(i as int).drop_last() =~= ms@.take(i - 1));
        i = i - 1;
    }
    None
}

/// The messages kept after removing stale errors hold no stale error, so a
/// second removal finds nothing to remove.
pub proof fn lemma_strip_leaves_no_errors(ms: Seq<MessageMeta>)
    ensures
        forall|i: int|
            0 <= i < kept_without_errors(ms).len() ==> !is_stale_error(
                #[trigger] ms[kept_without_errors(ms)[i] as int],
            ),
        forall|i: int|
            0 <= i < kept_without_errors(ms).len() ==> #[trigger] kept_without_errors(ms)[i]
                < ms.len(),
    decreases ms.len(),
{
    if ms.len() > 0 {
        lemma_strip_leaves_no_errors(ms.drop_last());
        let r = kept_without_errors(ms.drop_last());
        assert forall|i: int| 0 <= i < r.len() implies ms[r[i] as int] == ms.drop_last()[r[i] as int] by {}
    }
}

// ───────────────────────────── answering across calls ─────────────────────────────
/// What the screen keeps between looks at the conversation in a mode that
/// answers messages itself: whether a request is running, and how many
/// messages it has already dealt with.
pub struct ModeSession {
    pub busy: bool,
    pub seen: usize,
}

/// A request to answer: the user message it answers, and the positions of
/// the messages kept (the error messages after the seen ones are dropped);
/// the screen then adds a "writing" message after the kept ones.
pub struct ModeRequest {
    pub user_index: usize,
    pub kept: Vec<usize>,
}

/// The message that a look at `ms` answers, if any: none while a request
/// runs, in a mode that does not answer, or when no message is new; else
/// the last user message among the new ones.
pub open spec fn begin_request(s: ModeSession, answers: bool, ms: Seq<MessageMeta>) -> Option<nat> {
    if s.busy || !answers || ms.len() <= s.seen {
        None
    } else {
        last_user_from(ms, s.seen as int)
    }
}

/// The session after a look at `ms`: unchanged when nothing new is seen;
/// all of `ms` seen when it holds no new user message; else the kept
/// messages and the "writing" message that follows them.
pub open spec fn begin_state(s: ModeSession, answers: bool, ms: Seq<MessageMeta>) -> ModeSession {
    if s.busy || !answers || ms.len() <= s.seen {
        s
    } else {
        match last_user_from(ms, s.seen as int) {
            None => ModeSession { busy: s.busy, seen: ms.len() as usize },
            Some(_) => ModeSession {
                busy: s.busy,
                seen: (kept_for_answer(ms, s.seen as int).len() + 1) as usize,
            },
        }
    }
}

/// The session once an answer is in place in `ms`: no request runs, and
/// every message is seen (the answer replaces the last "writing" message, or
/// is added after the others).
pub open spec fn finish_state(ms: Seq<MessageMeta>) -> ModeSession {
    ModeSession {
        busy: false,
        seen: (if last_writing(ms) is Some {
            ms.len()
        } else {
            ms.len() + 1
        }) as usize,
    }
}

proof fn lemma_kept_for_answer_len(ms: Seq<MessageMeta>, from: int)
    ensures
        kept_for_answer(ms, from).len() <= ms.len(),
    decreases ms.len(),
{
    if ms.len() > 0 {
        lemma_kept_for_answer_len(ms.drop_last(), from);
    }
}

proof fn lemma_last_user_from_in_range(ms: Seq<MessageMeta>, from: int)
    ensures
        last_user_from(ms, from) matches Some(i) ==> from <= i < ms.len() && ms[i as int].from
            == Sender::User,
    decreases ms.len(),
{
    if ms.len() > 0 && ms.len() > from && ms.last().from != Sender::User {
        lemma_last_user_from_in_range(ms.drop_last(), from);
    }
}

impl ModeSession {
    /// No request running, nothing seen.
    pub fn new() -> (r: ModeSession)
        ensures
            !r.busy,
            r.seen == 0,
    {
        ModeSession { busy: false, seen: 0 }
    }

    /// Looks at the conversation `ms` in `mode`: returns the request to make
    /// for a new user message, and records what is now seen.
    pub fn begin(&mut self, mode: ChatMode, ms: &Vec<MessageMeta>) -> (r: Option<ModeRequest>)
        requires
            ms@.len() < usize::MAX,
        ensures
            *final(self) == begin_state(*old(self), mode_answers(mode), ms@),
            match r {
                Some(q) => begin_request(*old(self), mode_answers(mode), ms@) == Some(
                    q.user_index as nat,
                ) && nats(q.kept@) == kept_for_answer(ms@, old(self).seen as int),
                None => begin_request(*old(self), mode_answers(mode), ms@) is None,
            },
    {
        if self.busy || !mode_answers_messages(mode) || ms.len() <= self.seen {
            return None;
        }
        match new_user_message(ms, self.seen) {
            None => {
                self.seen = ms.len();
                None
            },
            Some(i) => {
                let kept = keep_for_answer(ms, self.seen);
                proof {
                    lemma_kept_for_answer_len(ms@, old(self).seen as int);
                    lemma_last_user_from_in_range(ms@, old(self).seen as int);
                }
                assert(kept@.len() == nats(kept@).len());
                self.seen = kept.len() + 1;
                Some(ModeRequest { user_index: i, kept })
            },
        }
    }

    /// A request was sent: no other starts until its answer is in place.
    pub fn start_request(&mut self)
        ensures
            final(self).busy,
            final(self).seen == old(self).seen,
    {
        self.busy = true;
    }

    /// The answer is ready for the conversation `ms`: returns where it goes
    /// (in place of the last "writing" message, or after all messages when
    /// `None`), and records that everything is seen and no request runs.
    pub fn finish(&mut self, ms: &Vec<MessageMeta>) -> (r: Option<usize>)
        requires
            ms@.len() < usize::MAX,
        ensures
            *final(self) == finish_state(ms@),
            r == (match last_writing(ms@) {
                Some(i) => Some(i as usize),
                None => None::<usize>,
            }),
    {
        let slot = answer_slot(ms);
        self.busy = false;
        self.seen = match slot {
            Some(_) => ms.len(),
            None => ms.len() + 1,
        };
        slot
    }
}

/// The modes in which the screen answers messages itself.
pub open spec fn mode_answers(mode: ChatMode) -> bool {
    mode == ChatMode::Vlm || mode == ChatMode::Tts || mode == ChatMode::ImageGen || mode
        == ChatMode::VideoGen
}

/// A request answers a new user message: one that was not seen before.
pub proof fn lemma_request_answers_new_user_message(s: ModeSession, answers: bool, ms: Seq<MessageMeta>)
    ensures
        begin_request(s, answers, ms) matches Some(i) ==> !s.busy && s.seen <= i < ms.len()
            && ms[i as int].from == Sender::User,
{
    lemma_last_user_from_in_range(ms, s.seen as int);
}

/// Each user message is answered once: once a request is made, looking again
/// at the conversation as it now stands (the kept messages and the "writing"
/// message, or anything no longer) makes no further request.
pub proof fn lemma_answered_once(s: ModeSession, answers: bool, ms: Seq<MessageMeta>, later: Seq<
    MessageMeta,
>)
    requires
        begin_request(s, answers, ms) is Some,
        later.len() <= begin_state(s, answers, ms).seen,
    ensures
        begin_request(begin_state(s, answers, ms), answers, later) is None,
{
}

/// While a request runs no other starts.
pub proof fn lemma_busy_blocks(s: ModeSession, answers: bool, ms: Seq<MessageMeta>)
    requires
        s.busy,
    ensures
        begin_request(s, answers, ms) is None,
        begin_state(s, answers, ms) == s,
{
}

/// Once an answer is in place, the conversation as it then stands asks for
/// no further answer; only a later user message does.
pub proof fn lemma_answer_ends_request(ms: Seq<MessageMeta>, answers: bool, later: Seq<MessageMeta>)
    requires
        ms.len() < usize::MAX,
        later.len() <= finish_state(ms).seen,
    ensures
        begin_request(finish_state(ms), answers, later) is None,
{
}

// ───────────────────────────── restoring once ─────────────────────────────
/// Whether the saved model has been restored since the bots were last loaded.
pub struct RestoreTracker {
    pub restored: bool,
}

impl RestoreTracker {
    /// Nothing restored yet.
    pub fn new() -> (r: RestoreTracker)
        ensures
            !r.restored,
    {
        RestoreTracker { restored: false }
    }

    /// Restores the selection once: the first call chooses as
    /// `choose_restored_model` does; later calls choose nothing until `reset`.
    pub fn restore(&mut self, saved: Option<&str>, bots: &Vec<String>) -> (r: Option<(usize, bool)>)
        requires
            !old(self).restored ==> restore_safe(
                match saved {
                    Some(s) => Some(s@),
                    None => None,
                },
                views(bots@),
            ),
        ensures
            final(self).restored,
            old(self).restored ==> r is None,
            !old(self).restored ==> r == (match restore_choice(
                match saved {
                    Some(s) => Some(s@),
                    None => None,
                },
                views(bots@),
            ) {
                Some((i, b)) => Some((i as usize, b)),
                None => None::<(usize, bool)>,
            }),
    {
        if self.restored {
            return None;
        }
        self.restored = true;
        choose_restored_model(saved, bots)
    }

    /// The bots were reloaded: the selection may be restored again.
    pub fn reset(&mut self)
        ensures
            !final(self).restored,
    {
        self.restored = false;
    }
}

// ───────────────────────────── answers ─────────────────────────────
/// The prefix of the message that reports a failed request in `mode`.
pub open spec fn error_prefix(mode: ChatMode) -> Seq<char> {
    match mode {
        ChatMode::Vlm => "VLM error: "@,
        ChatMode::Asr => "Transcription error: "@,
        ChatMode::Tts => "TTS error: "@,
        ChatMode::ImageGen => "Image generation error: "@,
        ChatMode::VideoGen => "Video generation error: "@,
        ChatMode::Llm => Seq::<char>::empty(),
    }
}

/// The message that reports error `e` of a request in `mode`.
pub fn mode_error_message(mode: ChatMode, e: &str) -> (r: String)
    ensures
        r@ == error_prefix(mode) + e@,
{
    let prefix = match mode {
        ChatMode::Vlm => "VLM error: ",
        ChatMode::Asr => "Transcription error: ",
        ChatMode::Tts => "TTS error: ",
        ChatMode::ImageGen => "Image generation error: ",
        ChatMode::VideoGen => "Video generation error: ",
        ChatMode::Llm => "",
    };
    proof {
        reveal_strlit("");
    }
    concat(prefix, e)
}

/// `n` written with at least two digits.
pub open spec fn two_digits(n: nat) -> Seq<char> {
    if n < 10 {
        "0"@ + decimal(n)
    } else {
        decimal(n)
    }
}

/// The summary of generated speech: its voice and duration as `m:ss`.
pub open spec fn speech_summary(voice: Seq<char>, secs: u32) -> Seq<char> {
    "Voice: "@ + voice + " | Duration: "@ + decimal((secs / 60) as nat) + ":"@ + two_digits(
        (secs % 60) as nat,
    )
}

/// The summary shown for speech of `secs` whole seconds in voice `voice`.
pub fn speech_summary_text(voice: &str, secs: u32) -> (r: String)
    ensures
        r@ == speech_summary(voice@, secs),
{
    let minutes = decimal_string((secs / 60) as u64);
    let s = (secs % 60) as u64;
    let seconds = if s < 10 {
        let d = decimal_string(s);
        concat("0", d.as_str())
    } else {
        decimal_string(s)
    };
    let a = concat("Voice: ", voice);
    let b = concat(a.as_str(), " | Duration: ");
    let c = concat(b.as_str(), minutes.as_str());
    let d = concat(c.as_str(), ":");
    concat(d.as_str(), seconds.as_str())
}

/// The text that replaces the "writing" message when a request in `mode`
/// ends: the error with its prefix, or what the request produced (the
/// speech summary for speech, nothing beside an image that could be read
/// back, else where the image or video was written). Plain chat takes no
/// such reply.
pub open spec fn mode_reply(
    mode: ChatMode,
    result: Result<Seq<char>, Seq<char>>,
    image_readable: bool,
    voice: Seq<char>,
    secs: u32,
) -> Option<Seq<char>> {
    if mode == ChatMode::Llm {
        None
    } else {
        Some(
            match result {
                Err(e) => error_prefix(mode) + e,
                Ok(t) => match mode {
                    ChatMode::Tts => speech_summary(voice, secs),
                    ChatMode::ImageGen => if image_readable {
                        Seq::<char>::empty()
                    } else {
                        "Image saved to: "@ + t
                    },
                    ChatMode::VideoGen => "Video generated: "@ + t,
                    _ => t,
                },
            },
        )
    }
}

/// The reply to show for the result of a request in `mode`; for speech,
/// `voice` and `secs` describe the generated audio, and for an image,
/// `image_readable` tells whether the written file could be read back.
pub fn mode_reply_text(
    mode: ChatMode,
    result: &Result<String, String>,
    image_readable: bool,
    voice: &str,
    secs: u32,
) -> (r: Option<String>)
    ensures
        match r {
            Some(t) => mode_reply(
                mode,
                match result {
                    Ok(t) => Ok(t@),
                    Err(e) => Err(e@),
                },
                image_readable,
                voice@,
                secs,
            ) == Some(t@),
            None => mode_reply(
                mode,
                match result {
                    Ok(t) => Ok(t@),
                    Err(e) => Err(e@),
                },
                image_readable,
                voice@,
                secs,
            ) is None,
        },
{
    if matches!(mode, ChatMode::Llm) {
        return None;
    }
    match result {
        Err(e) => Some(mode_error_message(mode, e.as_str())),
        Ok(t) => match mode {
            ChatMode::Tts => Some(speech_summary_text(voice, secs)),
            ChatMode::ImageGen => if image_readable {
                Some(String::new())
            } else {
                Some(concat("Image saved to: ", t.as_str()))
            },
            ChatMode::VideoGen => Some(concat("Video generated: ", t.as_str())),
            _ => Some(t.clone()),
        },
    }
}

// ───────────────────────────── files ─────────────────────────────
/// The file name's lower case form ends with one of `exts`.
pub open spec fn has_extension(path: Seq<char>, exts: Seq<Seq<char>>) -> bool {
    exists|i: int| 0 <= i < exts.len() && has_suffix(lowercase_of(path), #[trigger] exts[i])
}

/// Whether `path` ends, in any case, with one of `exts`.
fn ends_with_any(path: &str, exts: &Vec<&str>) -> (r: bool)
    ensures
        r == has_extension(path@, exts@.map_values(|e: &str| e@)),
{
    let lower = to_lowercase(path);
    let ghost es = exts@.map_values(|e: &str| e@);
    for i in 0..exts.len()
        invariant
            es == exts@.map_values(|e: &str| e@),
            lower@ == lowercase_of(path@),
            forall|j: int| 0 <= j < i ==> !has_suffix(lowercase_of(path@), #[trigger] es[j]),
    {
        if ends_with(lower.as_str(), exts[i]) {
            assert(has_suffix(lowercase_of(path@), es[i as int]));
            return true;
        }
    }
    false
}

/// The image types that the vision mode accepts by drag and drop.
pub open spec fn image_extensions() -> Seq<Seq<char>> {
    seq![".jpg"@, ".jpeg"@, ".png"@, ".bmp"@, ".gif"@, ".webp"@]
}

/// The audio types that speech recognition accepts by drag and drop.
pub open spec fn audio_extensions() -> Seq<Seq<char>> {
    seq![".wav"@, ".mp3"@, ".m4a"@, ".flac"@, ".ogg"@, ".aac"@]
}

/// A path whose lower-case form ends in `.jpg`, `.jpeg`, `.png`, `.bmp`,
/// `.gif` or `.webp` is an image; one ending in `.wav`, `.mp3`, `.m4a`,
/// `.flac`, `.ogg` or `.aac` is audio.
pub proof fn lemma_known_extensions(path: Seq<char>)
    ensures
        has_suffix(lowercase_of(path), ".jpg"@) || has_suffix(lowercase_of(path), ".jpeg"@)
            || has_suffix(lowercase_of(path), ".png"@) || has_suffix(lowercase_of(path), ".bmp"@)
            || has_suffix(lowercase_of(path), ".gif"@) || has_suffix(lowercase_of(path), ".webp"@)
            ==> has_extension(path, image_extensions()),
        has_suffix(lowercase_of(path), ".wav"@) || has_suffix(lowercase_of(path), ".mp3"@)
            || has_suffix(lowercase_of(path), ".m4a"@) || has_suffix(lowercase_of(path), ".flac"@)
            || has_suffix(lowercase_of(path), ".ogg"@) || has_suffix(lowercase_of(path), ".aac"@)
            ==> has_extension(path, audio_extensions()),
{
    let l = lowercase_of(path);
    let im = image_extensions();
    let au = audio_extensions();
    if has_suffix(l, ".jpg"@) {
        assert(im[0] == ".jpg"@);
    } else if has_suffix(l, ".jpeg"@) {
        assert(im[1] == ".jpeg"@);
    } else if has_suffix(l, ".png"@) {
        assert(im[2] == ".png"@);
    } else if has_suffix(l, ".bmp"@) {
        assert(im[3] == ".bmp"@);
    } else if has_suffix(l, ".gif"@) {
        assert(im[4] == ".gif"@);
    } else if has_suffix(l, ".webp"@) {
        assert(im[5] == ".webp"@);
    }
    if has_suffix(l, ".wav"@) {
        assert(au[0] == ".wav"@);
    } else if has_suffix(l, ".mp3"@) {
        assert(au[1] == ".mp3"@);
    } else if has_suffix(l, ".m4a"@) {
        assert(au[2] == ".m4a"@);
    } else if has_suffix(l, ".flac"@) {
        assert(au[3] == ".flac"@);
    } else if has_suffix(l, ".ogg"@) {
        assert(au[4] == ".ogg"@);
    } else if has_suffix(l, ".aac"@) {
        assert(au[5] == ".aac"@);
    }
}

/// Whether a dropped file is an image the vision mode takes.
pub fn is_image_file(path: &str) -> (r: bool)
    ensures
        r == has_extension(path@, image_extensions()),
{
    let exts = vec![".jpg", ".jpeg", ".png", ".bmp", ".gif", ".webp"];
    let r = ends_with_any(path, &exts);
    assert(exts@.map_values(|e: &str| e@) =~= image_extensions());
    r
}

/// Whether a dropped file is audio that speech recognition takes.
pub fn is_audio_file(path: &str) -> (r: bool)
    ensures
        r == has_extension(path@, audio_extensions()),
{
    let exts = vec![".wav", ".mp3", ".m4a", ".flac", ".ogg", ".aac"];
    let r = ends_with_any(path, &exts);
    assert(exts@.map_values(|e: &str| e@) =~= audio_extensions());
    r
}

/// Whether audio must be converted to WAV before transcription.
pub fn needs_wav_conversion(path: &str) -> (r: bool)
    ensures
        r == !has_suffix(lowercase_of(path@), ".wav"@),
{
    let lower = to_lowercase(path);
    !ends_with(lower.as_str(), ".wav")
}

/// The last segment of `segs` that names something: neither empty nor `.`.
pub open spec fn last_named(segs: Seq<Seq<char>>) -> Option<Seq<char>>
    decreases segs.len(),
{
    if segs.len() == 0 {
        None
    } else if segs.last().len() > 0 && segs.last() != seq!['.'] {
        Some(segs.last())
    } else {
        last_named(segs.drop_last())
    }
}

/// The file name of a Unix path as `Path::file_name` gives it: its last
/// component, skipping empty and `.` components; none when that is `..`
/// or there is no such component.
pub open spec fn path_file_name(path: Seq<char>) -> Option<Seq<char>> {
    match last_named(split_on(path, '/')) {
        Some(n) => if n == seq!['.', '.'] {
            None
        } else {
            Some(n)
        },
        None => None,
    }
}

/// The user message shown when a file is transcribed:
/// `Transcribe: <file name>`, or the whole path when it has no file name.
pub fn transcribe_message(path: &str) -> (r: String)
    ensures
        r@ == "Transcribe: "@ + (match path_file_name(path@) {
            Some(n) => n,
            None => path@,
        }),
{
    let segs = split_char(path, '/');
    let ghost ss = views(segs@);
    let mut i = segs.len();
    assert(ss.take(ss.len() as int) =~= ss);
    while i > 0
        invariant
            ss == views(segs@),
            ss == split_on(path@, '/'),
            ss.len() == segs.len(),
            i <= segs.len(),
            last_named(ss) == last_named(ss.take(i as int)),
        decreases i,
    {
        let v = chars_of(segs[i - 1].as_str());
        assert(ss.take(i as int).last() == v@);
        let is_dot = v.len() == 1 && v[0] == '.';
        assert(is_dot <==> v@ == seq!['.']) by {
            if v@.len() == 1 && v@[0] == '.' {
                assert(v@ =~= seq!['.']);
            }
        }
        if v.len() > 0 && !is_dot {
            let is_dotdot = v.len() == 2 && v[0] == '.' && v[1] == '.';
            assert(is_dotdot <==> v@ == seq!['.', '.']) by {
                if v@.len() == 2 && v@[0] == '.' && v@[1] == '.' {
                    assert(v@ =~= seq!['.', '.']);
                }
            }
            if is_dotdot {
                return concat("Transcribe: ", path);
            }
            return concat("Transcribe: ", segs[i - 1].as_str());
        }
        assert(ss.take(i as int).drop_last() =~= ss.take(i - 1));
        i = i - 1;
    }
    concat("Transcribe: ", path)
}

/// What sending from the welcome prompt does: text that is empty sends
/// nothing and stays in the welcome view; other text is sent, and the chat
/// view takes over. The pair is whether to send and the welcome flag after.
pub fn welcome_send(text: &str, in_welcome_mode: bool) -> (r: (bool, bool))
    ensures
        r.0 == (text@.len() > 0),
        r.1 == (if text@.len() > 0 {
            false
        } else {
            in_welcome_mode
        }),
{
    let send = text.unicode_len() > 0;
    (send, if send {
        false
    } else {
        in_welcome_mode
    })
}

// ───────────────────────────── sessions ─────────────────────────────
/// A new conversation is not started while the current one is still empty
/// and waiting for its first message.
pub fn skip_new_chat(in_welcome_mode: bool, has_current_chat: bool, message_count: usize) -> (r:
    bool)
    ensures
        r == (in_welcome_mode && has_current_chat && message_count == 0),
{
    in_welcome_mode && has_current_chat && message_count == 0
}

/// What follows the deletion of a conversation.
#[derive(Debug, Clone, Copy, PartialEq, Eq, Structural)]
pub enum AfterDelete {
    /// Another conversation was shown; nothing changes.
    KeepCurrent,
    /// Show the conversation with this id.
    Show(u64),
    /// No conversation is left: start a new one.
    StartNew,
}

/// What to show after deleting a conversation: nothing changes unless it was
/// the one shown; then the first remaining conversation, or a new one.
pub fn after_delete(was_current: bool, first_remaining: Option<u64>) -> (r: AfterDelete)
    ensures
        r == (if !was_current {
            AfterDelete::KeepCurrent
        } else {
            match first_remaining {
                Some(id) => AfterDelete::Show(id),
                None => AfterDelete::StartNew,
            }
        }),
{
    if !was_current {
        AfterDelete::KeepCurrent
    } else {
        match first_remaining {
            Some(id) => AfterDelete::Show(id),
            None => AfterDelete::StartNew,
        }
    }
}

} // verus!
