//! The application shell: navigation, the model selector in the header, the
//! sidebar and history lists, and the catalogue shown on the About page.
use vstd::prelude::*;

use crate::catalog::{unload_model_type, RegistryCategory};
use crate::text::{
    chars_of, concat, contains_str, has_substring, is_white_space, is_whitespace, lowercase_of,
    owned, str_eq, string_from_range, to_lowercase, views,
};

verus! {

// ───────────────────────────── navigation ─────────────────────────────
/// The page the shell shows.
#[derive(Debug, Clone, Copy, PartialEq, Eq, Structural)]
pub enum NavigationTarget {
    ChatHistory,
    ActiveChat,
    Settings,
    LlmHub,
    VlmHub,
    AsrHub,
    TtsHub,
    ImageHub,
    VideoHub,
    About,
}

/// The name under which a page is stored in the preferences.
pub open spec fn view_name_spec(t: NavigationTarget) -> Seq<char> {
    match t {
        NavigationTarget::ChatHistory => "ChatHistory"@,
        NavigationTarget::ActiveChat => "ActiveChat"@,
        NavigationTarget::Settings => "Settings"@,
        NavigationTarget::LlmHub => "LlmHub"@,
        NavigationTarget::VlmHub => "VlmHub"@,
        NavigationTarget::AsrHub => "AsrHub"@,
        NavigationTarget::TtsHub => "TtsHub"@,
        NavigationTarget::ImageHub => "ImageHub"@,
        NavigationTarget::VideoHub => "VideoHub"@,
        NavigationTarget::About => "About"@,
    }
}

/// The stored name of a page.
pub fn view_name(t: NavigationTarget) -> (r: &'static str)
    ensures
        r@ == view_name_spec(t),
{
    match t {
        NavigationTarget::ChatHistory => "ChatHistory",
        NavigationTarget::ActiveChat => "ActiveChat",
        NavigationTarget::Settings => "Settings",
        NavigationTarget::LlmHub => "LlmHub",
        NavigationTarget::VlmHub => "VlmHub",
        NavigationTarget::AsrHub => "AsrHub",
        NavigationTarget::TtsHub => "TtsHub",
        NavigationTarget::ImageHub => "ImageHub",
        NavigationTarget::VideoHub => "VideoHub",
        NavigationTarget::About => "About",
    }
}

/// The page a navigation request names, if any; the About page is not
/// reachable by request.
pub open spec fn requested_page(name: Seq<char>) -> Option<NavigationTarget> {
    if name == "ActiveChat"@ {
        Some(NavigationTarget::ActiveChat)
    } else if name == "ChatHistory"@ {
        Some(NavigationTarget::ChatHistory)
    } else if name == "Settings"@ {
        Some(NavigationTarget::Settings)
    } else if name == "LlmHub"@ {
        Some(NavigationTarget::LlmHub)
    } else if name == "VlmHub"@ {
        Some(NavigationTarget::VlmHub)
    } else if name == "AsrHub"@ {
        Some(NavigationTarget::AsrHub)
    } else if name == "TtsHub"@ {
        Some(NavigationTarget::TtsHub)
    } else if name == "ImageHub"@ {
        Some(NavigationTarget::ImageHub)
    } else if name == "VideoHub"@ {
        Some(NavigationTarget::VideoHub)
    } else {
        None
    }
}

/// The page for a navigation request.
pub fn navigation_request(name: &str) -> (r: Option<NavigationTarget>)
    ensures
        r == requested_page(name@),
{
    if str_eq(name, "ActiveChat") {
        Some(NavigationTarget::ActiveChat)
    } else if str_eq(name, "ChatHistory") {
        Some(NavigationTarget::ChatHistory)
    } else if str_eq(name, "Settings") {
        Some(NavigationTarget::Settings)
    } else if str_eq(name, "LlmHub") {
        Some(NavigationTarget::LlmHub)
    } else if str_eq(name, "VlmHub") {
        Some(NavigationTarget::VlmHub)
    } else if str_eq(name, "AsrHub") {
        Some(NavigationTarget::AsrHub)
    } else if str_eq(name, "TtsHub") {
        Some(NavigationTarget::TtsHub)
    } else if str_eq(name, "ImageHub") {
        Some(NavigationTarget::ImageHub)
    } else if str_eq(name, "VideoHub") {
        Some(NavigationTarget::VideoHub)
    } else {
        None
    }
}

/// The page shown at start-up for the stored name: any name that is not a
/// requestable page opens the chat history.
pub fn restored_page(name: &str) -> (r: NavigationTarget)
    ensures
        r == (match requested_page(name@) {
            Some(t) => t,
            None => NavigationTarget::ChatHistory,
        }),
{
    match navigation_request(name) {
        Some(t) => t,
        None => NavigationTarget::ChatHistory,
    }
}

/// Every page but About is restored from its stored name and can be
/// requested by it; the About page falls back to the chat history.
pub proof fn lemma_page_names_round_trip(t: NavigationTarget)
    ensures
        t != NavigationTarget::About ==> requested_page(view_name_spec(t)) == Some(t),
        t == NavigationTarget::About ==> requested_page(view_name_spec(t)) is None,
{
    reveal_strlit("ChatHistory");
    reveal_strlit("ActiveChat");
    reveal_strlit("Settings");
    reveal_strlit("LlmHub");
    reveal_strlit("VlmHub");
    reveal_strlit("AsrHub");
    reveal_strlit("TtsHub");
    reveal_strlit("ImageHub");
    reveal_strlit("VideoHub");
    reveal_strlit("About");
    assert("ChatHistory"@.len() == 11);
    assert("ActiveChat"@.len() == 10);
    assert("About"@.len() == 5);
    assert("Settings"@.len() == 8 && "Settings"@[0] == 'S');
    assert("ImageHub"@.len() == 8 && "ImageHub"@[0] == 'I');
    assert("VideoHub"@.len() == 8 && "VideoHub"@[0] == 'V');
    assert("LlmHub"@.len() == 6 && "LlmHub"@[0] == 'L');
    assert("VlmHub"@.len() == 6 && "VlmHub"@[0] == 'V');
    assert("AsrHub"@.len() == 6 && "AsrHub"@[0] == 'A');
    assert("TtsHub"@.len() == 6 && "TtsHub"@[0] == 'T');
}

/// The sidebar's chat button is highlighted on both chat pages.
pub fn chat_button_selected(t: NavigationTarget) -> (r: bool)
    ensures
        r == (t == NavigationTarget::ChatHistory || t == NavigationTarget::ActiveChat),
{
    matches!(t, NavigationTarget::ChatHistory | NavigationTarget::ActiveChat)
}

// ───────────────────────────── the model selector ─────────────────────────────
/// Where loading the model chosen in the header stands.
#[derive(Debug, Clone, Copy, PartialEq, Eq, Structural)]
pub enum ShellModelLoadState {
    Unloaded,
    Loading,
    Loaded,
    Error,
}

/// The header's model selector: what is loaded and what the dropdown shows.
pub struct ModelSelector {
    pub state: ShellModelLoadState,
    pub loaded_id: String,
    pub loaded_name: String,
    pub category: Option<RegistryCategory>,
    pub supports_images: bool,
    pub open: bool,
    pub delete_confirm: Option<usize>,
}

/// No model is recorded as loaded.
pub open spec fn nothing_loaded(s: ModelSelector) -> bool {
    s.loaded_id@.len() == 0 && s.loaded_name@.len() == 0 && s.category is None
}

/// The two selectors record the same model and load state.
pub open spec fn same_model(a: ModelSelector, b: ModelSelector) -> bool {
    &&& a.state == b.state
    &&& a.loaded_id == b.loaded_id
    &&& a.loaded_name == b.loaded_name
    &&& a.category == b.category
    &&& a.supports_images == b.supports_images
}

/// The two selectors show the dropdown and the deletion question alike.
pub open spec fn same_dropdown(a: ModelSelector, b: ModelSelector) -> bool {
    a.open == b.open && a.delete_confirm == b.delete_confirm
}

/// The label of the selector.
pub open spec fn selector_label_spec(state: ShellModelLoadState, name: Seq<char>) -> Seq<char> {
    match state {
        ShellModelLoadState::Unloaded => "Select a model to load"@,
        ShellModelLoadState::Loading => "Loading "@ + name + "..."@,
        ShellModelLoadState::Loaded => name,
        ShellModelLoadState::Error => "Load failed — click to retry"@,
    }
}

impl ModelSelector {
    /// Nothing loaded, dropdown closed.
    pub fn new() -> (r: ModelSelector)
        ensures
            r.state == ShellModelLoadState::Unloaded,
            nothing_loaded(r),
            !r.supports_images,
            !r.open,
            r.delete_confirm is None,
    {
        ModelSelector {
            state: ShellModelLoadState::Unloaded,
            loaded_id: String::new(),
            loaded_name: String::new(),
            category: None,
            supports_images: false,
            open: false,
            delete_confirm: None,
        }
    }

    /// Opens the dropdown, unless a model is loading; returns whether it opened.
    pub fn open_dropdown(&mut self) -> (r: bool)
        ensures
            r == (old(self).state != ShellModelLoadState::Loading),
            r ==> final(self).open && final(self).delete_confirm is None,
            !r ==> same_dropdown(*final(self), *old(self)),
            same_model(*final(self), *old(self)),
    {
        if matches!(self.state, ShellModelLoadState::Loading) {
            return false;
        }
        self.open = true;
        self.delete_confirm = None;
        true
    }

    /// Closes the dropdown.
    pub fn close_dropdown(&mut self)
        ensures
            !final(self).open,
            final(self).delete_confirm is None,
            same_model(*final(self), *old(self)),
    {
        self.open = false;
        self.delete_confirm = None;
    }

    /// Starts loading a model: it is recorded as the one loading.
    pub fn start_load(&mut self, id: &str, name: &str, category: RegistryCategory, supports_images: bool)
        ensures
            final(self).state == ShellModelLoadState::Loading,
            final(self).loaded_id@ == id@,
            final(self).loaded_name@ == name@,
            final(self).category == Some(category),
            final(self).supports_images == supports_images,
            same_dropdown(*final(self), *old(self)),
    {
        self.state = ShellModelLoadState::Loading;
        self.loaded_id = owned(id);
        self.loaded_name = owned(name);
        self.category = Some(category);
        self.supports_images = supports_images;
    }

    /// Records how loading ended: a success marks the model loaded; a failure
    /// marks the error and forgets the model.
    pub fn finish_load(&mut self, ok: bool)
        ensures
            ok ==> final(self).state == ShellModelLoadState::Loaded && final(self).loaded_id
                == old(self).loaded_id && final(self).loaded_name == old(self).loaded_name
                && final(self).category == old(self).category,
            !ok ==> final(self).state == ShellModelLoadState::Error && nothing_loaded(*final(self)),
            final(self).supports_images == old(self).supports_images,
            same_dropdown(*final(self), *old(self)),
    {
        if ok {
            self.state = ShellModelLoadState::Loaded;
        } else {
            self.state = ShellModelLoadState::Error;
            self.loaded_id = String::new();
            self.loaded_name = String::new();
            self.category = None;
        }
    }

    /// Unloads the model: the selector forgets it at once, and the returned
    /// model type is what the server is asked to unload (all types when the
    /// category was unknown).
    pub fn unload(&mut self) -> (r: &'static str)
        ensures
            r@ == (match old(self).category {
                Some(c) => crate::catalog::model_type_spec(c),
                None => "all"@,
            }),
            final(self).state == ShellModelLoadState::Unloaded,
            nothing_loaded(*final(self)),
            final(self).supports_images == old(self).supports_images,
            same_dropdown(*final(self), *old(self)),
    {
        let t = unload_model_type(self.category);
        self.state = ShellModelLoadState::Unloaded;
        self.loaded_id = String::new();
        self.loaded_name = String::new();
        self.category = None;
        t
    }

    /// A model hub loaded a model: the selector shows it as loaded.
    pub fn hub_loaded(&mut self, id: &str, name: &str, category: RegistryCategory)
        ensures
            final(self).state == ShellModelLoadState::Loaded,
            final(self).loaded_id@ == id@,
            final(self).loaded_name@ == name@,
            final(self).category == Some(category),
            final(self).supports_images == old(self).supports_images,
            same_dropdown(*final(self), *old(self)),
    {
        self.state = ShellModelLoadState::Loaded;
        self.loaded_id = owned(id);
        self.loaded_name = owned(name);
        self.category = Some(category);
    }

    /// A model hub unloaded model `id`: the selector forgets it only when it
    /// is the model it shows. Returns whether it did.
    pub fn hub_unloaded(&mut self, id: &str) -> (r: bool)
        ensures
            r == (old(self).loaded_id@ == id@),
            r ==> final(self).state == ShellModelLoadState::Unloaded && nothing_loaded(
                *final(self),
            ),
            !r ==> same_model(*final(self), *old(self)),
            final(self).supports_images == old(self).supports_images,
            same_dropdown(*final(self), *old(self)),
    {
        if !str_eq(self.loaded_id.as_str(), id) {
            return false;
        }
        self.state = ShellModelLoadState::Unloaded;
        self.loaded_id = String::new();
        self.loaded_name = String::new();
        self.category = None;
        true
    }

    /// Asks to confirm the deletion of model `index` of the `count` listed;
    /// an index past the list is ignored.
    pub fn ask_delete(&mut self, index: usize, count: usize)
        ensures
            index < count ==> final(self).delete_confirm == Some(index),
            index >= count ==> final(self).delete_confirm == old(self).delete_confirm,
            same_model(*final(self), *old(self)),
            final(self).open == old(self).open,
    {
        if index < count {
            self.delete_confirm = Some(index);
        }
    }

    /// Withdraws the deletion question.
    pub fn cancel_delete(&mut self)
        ensures
            final(self).delete_confirm is None,
            same_model(*final(self), *old(self)),
            final(self).open == old(self).open,
    {
        self.delete_confirm = None;
    }

    /// Confirms the pending deletion among the `count` models listed: the
    /// question is withdrawn, and the index to delete is returned when it is
    /// in the list.
    pub fn confirm_delete(&mut self, count: usize) -> (r: Option<usize>)
        ensures
            final(self).delete_confirm is None,
            r == (match old(self).delete_confirm {
                Some(i) => if i < count {
                    Some(i)
                } else {
                    None::<usize>
                },
                None => None::<usize>,
            }),
            same_model(*final(self), *old(self)),
            final(self).open == old(self).open,
    {
        let pending = self.delete_confirm;
        self.delete_confirm = None;
        match pending {
            Some(i) => if i < count {
                Some(i)
            } else {
                None
            },
            None => None,
        }
    }

    /// Whether the model with registry id `id` is the one shown as loaded.
    pub fn is_loaded_model(&self, id: &str) -> (r: bool)
        ensures
            r == (self.loaded_id@ == id@),
    {
        str_eq(self.loaded_id.as_str(), id)
    }

    /// The selector's label.
    pub fn label(&self) -> (r: String)
        ensures
            r@ == selector_label_spec(self.state, self.loaded_name@),
    {
        match self.state {
            ShellModelLoadState::Unloaded => owned("Select a model to load"),
            ShellModelLoadState::Loading => {
                let a = concat("Loading ", self.loaded_name.as_str());
                concat(a.as_str(), "...")
            },
            ShellModelLoadState::Loaded => self.loaded_name.clone(),
            ShellModelLoadState::Error => owned("Load failed — click to retry"),
        }
    }
}

/// The question asked before a model is deleted.
pub fn delete_question(name: &str) -> (r: String)
    ensures
        r@ == "Delete "@ + name@ + "?"@,
{
    let a = concat("Delete ", name);
    concat(a.as_str(), "?")
}

// ───────────────────────────── sidebar and history ─────────────────────────────
/// The words of `s`: its maximal runs of characters that are not white space.
pub open spec fn words(s: Seq<char>) -> Seq<Seq<char>>
    decreases s.len(),
{
    if s.len() == 0 {
        Seq::<Seq<char>>::empty()
    } else {
        let r = words(s.drop_last());
        if is_white_space(s.last()) {
            r
        } else if s.len() > 1 && !is_white_space(s[s.len() - 2]) {
            r.update(r.len() - 1, r.last().push(s.last()))
        } else {
            r.push(seq![s.last()])
        }
    }
}

/// `parts` joined with `sep` between them.
pub open spec fn join(parts: Seq<Seq<char>>, sep: Seq<char>) -> Seq<char>
    decreases parts.len(),
{
    if parts.len() == 0 {
        Seq::<char>::empty()
    } else if parts.len() == 1 {
        parts[0]
    } else {
        join(parts.drop_last(), sep) + sep + parts.last()
    }
}

/// A chat title on one line: its words joined by single spaces, cut to 26
/// characters followed by `…` when longer than 28.
pub open spec fn sidebar_title_spec(raw: Seq<char>) -> Seq<char> {
    let single = join(words(raw), seq![' ']);
    if single.len() > 28 {
        single.take(26).push('…')
    } else {
        single
    }
}

proof fn lemma_words_nonempty_tail(s: Seq<char>)
    requires
        s.len() > 0,
        !is_white_space(s.last()),
    ensures
        words(s).len() > 0,
        words(s).last().len() > 0,
    decreases s.len(),
{
    if s.len() > 1 && !is_white_space(s[s.len() - 2]) {
        assert(s.drop_last().last() == s[s.len() - 2]);
        lemma_words_nonempty_tail(s.drop_last());
    }
}

/// The words of `s`, each collected.
pub fn split_words(s: &str) -> (r: Vec<String>)
    ensures
        views(r@) == words(s@),
{
    let v = chars_of(s);
    let mut done: Vec<String> = Vec::new();
    let mut start: usize = 0;
    let mut in_word = false;
    assert(v@.take(0) =~= Seq::<char>::empty());
    for i in 0..v.len()
        invariant
            start <= i <= v.len(),
            in_word == (i > 0 && !is_white_space(v@[i - 1])),
            in_word ==> start < i && words(v@.take(i as int)) == views(done@).push(
                v@.subrange(start as int, i as int),
            ),
            !in_word ==> words(v@.take(i as int)) == views(done@),
    {
        let ghost t = v@.take(i + 1);
        assert(t.drop_last() =~= v@.take(i as int));
        assert(t.last() == v@[i as int]);
        if i > 0 {
            assert(t[t.len() - 2] == v@[i - 1]);
        }
        let ws = is_whitespace(v[i]);
        if ws {
            if in_word {
                let ghost before = views(done@);
                let w = string_from_range(&v, start, i);
                done.push(w);
                assert(views(done@) =~= before.push(v@.subrange(start as int, i as int)));
            }
            in_word = false;
        } else {
            if in_word {
                assert(v@.subrange(start as int, i + 1) =~= v@.subrange(start as int, i as int).push(
                    v@[i as int],
                ));
                assert(views(done@).push(v@.subrange(start as int, i as int)).update(
                    views(done@).len() as int,
                    v@.subrange(start as int, i as int).push(v@[i as int]),
                ) =~= views(done@).push(v@.subrange(start as int, i + 1)));
            } else {
                start = i;
                assert(v@.subrange(i as int, i + 1) =~= seq![v@[i as int]]);
            }
            in_word = true;
        }
    }
    if in_word {
        let ghost before = views(done@);
        let w = string_from_range(&v, start, v.len());
        done.push(w);
        assert(views(done@) =~= before.push(v@.subrange(start as int, v@.len() as int)));
    }
    assert(v@.take(v@.len() as int) =~= v@);
    done
}

/// `parts` joined with `sep`.
pub fn join_strings(parts: &Vec<String>, sep: &str) -> (r: String)
    ensures
        r@ == join(views(parts@), sep@),
{
    let mut r = String::new();
    let ghost ps = views(parts@);
    assert(ps.take(0) =~= Seq::<Seq<char>>::empty());
    for i in 0..parts.len()
        invariant
            ps == views(parts@),
            ps.len() == parts.len(),
            r@ == join(ps.take(i as int), sep@),
    {
        let ghost t = ps.take(i + 1);
        assert(t.drop_last() =~= ps.take(i as int));
        assert(t.last() == parts@[i as int]@);
        if i == 0 {
            assert(t.len() == 1);
            r = parts[0].clone();
        } else {
            let a = concat(r.as_str(), sep);
            r = concat(a.as_str(), parts[i].as_str());
        }
    }
    assert(ps.take(parts.len() as int) =~= ps);
    r
}

/// A chat's title as the sidebar shows it.
pub fn sidebar_title(raw: &str) -> (r: String)
    ensures
        r@ == sidebar_title_spec(raw@),
{
    let ws = split_words(raw);
    let single = join_strings(&ws, " ");
    proof {
        reveal_strlit(" ");
        assert(" "@ =~= seq![' ']);
    }
    let v = chars_of(single.as_str());
    if v.len() > 28 {
        let mut head = string_from_range(&v, 0, 26);
        crate::text::push_char(&mut head, '…');
        assert(v@.subrange(0, 26) =~= v@.take(26));
        head
    } else {
        single
    }
}

/// A sidebar title is never longer than 28 characters.
pub proof fn lemma_sidebar_title_short(raw: Seq<char>)
    ensures
        sidebar_title_spec(raw).len() <= 28,
{
}

/// What a conversation offers to the history search.
pub struct ChatSummary {
    pub title: String,
    /// The texts of its messages, in order.
    pub messages: Vec<String>,
}

/// A conversation matches the search `query` (compared in lower case) in its
/// title or in one of its messages; every conversation matches an empty query.
pub open spec fn matches_search(c: ChatSummary, query: Seq<char>) -> bool {
    let q = lowercase_of(query);
    query.len() == 0 || has_substring(lowercase_of(c.title@), q) || exists|i: int|
        0 <= i < c.messages@.len() && has_substring(lowercase_of(#[trigger] c.messages@[i]@), q)
}

/// A conversation matches the search when its title, or any one of its
/// messages at any position, contains the query (both in lower case); and
/// every conversation matches an empty query.
pub proof fn lemma_search_finds_text(c: ChatSummary, query: Seq<char>, i: int)
    ensures
        query.len() == 0 ==> matches_search(c, query),
        has_substring(lowercase_of(c.title@), lowercase_of(query)) ==> matches_search(c, query),
        0 <= i < c.messages@.len() && has_substring(lowercase_of(c.messages@[i]@), lowercase_of(query))
            ==> matches_search(c, query),
{
}

/// Whether a conversation matches the search.
pub fn chat_matches_search(c: &ChatSummary, query: &str) -> (r: bool)
    ensures
        r == matches_search(*c, query@),
{
    let q = to_lowercase(query);
    if q.as_str().unicode_len() == 0 {
        return true;
    }
    let title = to_lowercase(c.title.as_str());
    if contains_str(title.as_str(), q.as_str()) {
        return true;
    }
    for i in 0..c.messages.len()
        invariant
            q@ == lowercase_of(query@),
            forall|j: int|
                0 <= j < i ==> !has_substring(lowercase_of(#[trigger] c.messages@[j]@), q@),
    {
        let m = to_lowercase(c.messages[i].as_str());
        if contains_str(m.as_str(), q.as_str()) {
            return true;
        }
    }
    false
}

/// The positions of the first `limit` conversations that have messages and
/// match the search, in order.
pub open spec fn listed(cs: Seq<ChatSummary>, query: Seq<char>, limit: nat) -> Seq<nat>
    decreases cs.len(),
{
    if cs.len() == 0 {
        Seq::<nat>::empty()
    } else {
        let r = listed(cs.drop_last(), query, limit);
        if r.len() < limit && cs.last().messages@.len() > 0 && matches_search(cs.last(), query) {
            r.push((cs.len() - 1) as nat)
        } else {
            r
        }
    }
}

/// The conversations shown as tiles (at most 12): those with messages that
/// match the search, in order.
pub fn listed_chats(cs: &Vec<ChatSummary>, query: &str, limit: usize) -> (r: Vec<usize>)
    ensures
        r@.map_values(|i: usize| i as nat) == listed(cs@, query@, limit as nat),
{
    let mut r: Vec<usize> = Vec::new();
    assert(cs@.take(0) =~= Seq::<ChatSummary>::empty());
    for i in 0..cs.len()
        invariant
            r@.map_values(|i: usize| i as nat) == listed(cs@.take(i as int), query@, limit as nat),
    {
        assert(cs@.take(i + 1).drop_last() =~= cs@.take(i as int));
        assert(cs@.take(i + 1).last() == cs@[i as int]);
        if r.len() < limit && cs[i].messages.len() > 0 && chat_matches_search(&cs[i], query) {
            let ghost before = r@.map_values(|i: usize| i as nat);
            r.push(i);
            assert(r@.map_values(|i: usize| i as nat) =~= before.push(i as nat));
        }
    }
    assert(cs@.take(cs.len() as int) =~= cs@);
    r
}

/// The positions of the first `limit` conversations that have messages, in order.
pub open spec fn with_messages(cs: Seq<ChatSummary>, limit: nat) -> Seq<nat>
    decreases cs.len(),
{
    if cs.len() == 0 {
        Seq::<nat>::empty()
    } else {
        let r = with_messages(cs.drop_last(), limit);
        if r.len() < limit && cs.last().messages@.len() > 0 {
            r.push((cs.len() - 1) as nat)
        } else {
            r
        }
    }
}

/// The most conversations the sidebar shows.
pub const SIDEBAR_CHATS: usize = 6;

/// The conversations the sidebar lists: the first six that have messages.
pub fn sidebar_chats(cs: &Vec<ChatSummary>) -> (r: Vec<usize>)
    ensures
        r@.map_values(|i: usize| i as nat) == with_messages(cs@, SIDEBAR_CHATS as nat),
{
    let mut r: Vec<usize> = Vec::new();
    for i in 0..cs.len()
        invariant
            r@.map_values(|i: usize| i as nat) == with_messages(cs@.take(i as int), SIDEBAR_CHATS as nat),
    {
        assert(cs@.take(i + 1).drop_last() =~= cs@.take(i as int));
        assert(cs@.take(i + 1).last() == cs@[i as int]);
        if r.len() < SIDEBAR_CHATS && cs[i].messages.len() > 0 {
            let ghost before = r@.map_values(|i: usize| i as nat);
            r.push(i);
            assert(r@.map_values(|i: usize| i as nat) =~= before.push(i as nat));
        }
    }
    assert(cs@.take(cs.len() as int) =~= cs@);
    r
}

/// The sidebar's "Show More" button is shown when it lists more than three
/// conversations.
pub fn sidebar_show_more(listed_count: usize) -> (r: bool)
    ensures
        r == (listed_count > 3),
{
    listed_count > 3
}

/// An empty search lists the conversations that have messages: every one
/// matches it.
pub proof fn lemma_empty_search_lists_all_with_messages(cs: Seq<ChatSummary>, limit: nat)
    ensures
        listed(cs, Seq::<char>::empty(), limit) == with_messages(cs, limit),
    decreases cs.len(),
{
    if cs.len() > 0 {
        lemma_empty_search_lists_all_with_messages(cs.drop_last(), limit);
    }
}

/// The history lists never show more than their limit.
pub proof fn lemma_listed_within_limit(cs: Seq<ChatSummary>, query: Seq<char>, limit: nat)
    ensures
        listed(cs, query, limit).len() <= limit,
        forall|k: int|
            0 <= k < listed(cs, query, limit).len() ==> #[trigger] listed(cs, query, limit)[k]
                < cs.len(),
    decreases cs.len(),
{
    if cs.len() > 0 {
        lemma_listed_within_limit(cs.drop_last(), query, limit);
    }
}

/// Which rows of four tiles are shown for `count` tiles.
pub fn tile_rows(count: usize) -> (r: (bool, bool, bool))
    ensures
        r == (count > 0, count > 4, count > 8),
{
    (count > 0, count > 4, count > 8)
}

/// The text of the button that expands the sidebar history, and its arrow.
pub fn show_more_label(expanded: bool) -> (r: (&'static str, &'static str))
    ensures
        r.0@ == (if expanded {
            "Show Less"@
        } else {
            "Show More"@
        }),
        r.1@ == (if expanded {
            "v"@
        } else {
            ">"@
        }),
{
    if expanded {
        ("Show Less", "v")
    } else {
        ("Show More", ">")
    }
}

/// The canvas panel is toggled when A2UI is switched on while it is
/// collapsed, or off while it is open.
pub fn canvas_toggle_needed(a2ui_enabled: bool, collapsed: bool) -> (r: bool)
    ensures
        r == (a2ui_enabled == collapsed),
{
    a2ui_enabled == collapsed
}

} // verus!
