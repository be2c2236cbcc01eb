//! Model providers: their stored preferences, adding and removing them, and
//! how a connection test to a provider is carried out and reported.
use vstd::prelude::*;

use crate::http::{is_success, is_success_code};
use crate::models::{entries, merge_fetched_models, merged_flag};
use crate::text::{
    chars_of, concat, decimal, decimal_string, lowercase_of, owned, str_eq, string_from_chars,
    strip_trailing, strip_trailing_char, to_lowercase, trim, trim_str, views,
};

verus! {

/// Whether a provider answered a connection test.
#[derive(Clone, Debug)]
pub enum ProviderConnectionStatus {
    NotConnected,
    Connecting,
    Connected,
    Error(String),
}

/// The stored settings of one provider.
pub struct ProviderPreferences {
    pub id: String,
    pub name: String,
    pub url: String,
    pub api_key: Option<String>,
    pub enabled: bool,
    pub was_customly_added: bool,
    pub a2ui_enabled: bool,
    /// `(model name, enabled)` for the models the user has decided on.
    pub models: Vec<(String, bool)>,
}

impl ProviderPreferences {
    /// A provider with the given id, name and URL: no API key, not enabled,
    /// built in, A2UI off, and no model decisions.
    pub fn new(id: &str, name: &str, url: &str) -> (r: ProviderPreferences)
        ensures
            r.id@ == id@,
            r.name@ == name@,
            r.url@ == url@,
            r.api_key is None,
            !r.enabled,
            !r.was_customly_added,
            !r.a2ui_enabled,
            r.models@.len() == 0,
    {
        ProviderPreferences {
            id: owned(id),
            name: owned(name),
            url: owned(url),
            api_key: None,
            enabled: false,
            was_customly_added: false,
            a2ui_enabled: false,
            models: Vec::new(),
        }
    }
}

// ───────────────────────────── the provider list ─────────────────────────────
/// The providers' ids.
pub open spec fn ids(ps: Seq<ProviderPreferences>) -> Seq<Seq<char>> {
    ps.map_values(|p: ProviderPreferences| p.id@)
}

/// A provider with id `id` is in the list.
pub open spec fn has_id(ps: Seq<ProviderPreferences>, id: Seq<char>) -> bool {
    exists|i: int| 0 <= i < ps.len() && #[trigger] ps[i].id@ == id
}

/// Index of the first provider with id `id`.
pub fn find_provider(ps: &Vec<ProviderPreferences>, id: &str) -> (r: Option<usize>)
    ensures
        match r {
            Some(i) => i < ps@.len() && ps@[i as int].id@ == id@ && forall|j: int|
                0 <= j < i ==> #[trigger] ps@[j].id@ != id@,
            None => !has_id(ps@, id@),
        },
{
    for i in 0..ps.len()
        invariant
            forall|j: int| 0 <= j < i ==> #[trigger] ps@[j].id@ != id@,
    {
        if str_eq(ps[i].id.as_str(), id) {
            return Some(i);
        }
    }
    None
}

/// The id given to a provider that the user adds: its name without
/// surrounding white space, in lower case, with spaces replaced by `_`.
pub open spec fn custom_provider_id(name: Seq<char>) -> Seq<char> {
    lowercase_of(trim(name)).map_values(|c: char| if c == ' ' { '_' } else { c })
}

/// A derived provider id holds no space.
pub proof fn lemma_custom_id_has_no_space(name: Seq<char>)
    ensures
        forall|i: int| 0 <= i < custom_provider_id(name).len() ==> #[trigger] custom_provider_id(name)[i] != ' ',
{
}

/// The id for a provider named `name`.
pub fn provider_id_for_name(name: &str) -> (r: String)
    ensures
        r@ == custom_provider_id(name@),
{
    let trimmed = trim_str(name);
    let lower = to_lowercase(trimmed.as_str());
    let v = chars_of(lower.as_str());
    let mut out: Vec<char> = Vec::new();
    for i in 0..v.len()
        invariant
            out@ == v@.take(i as int).map_values(|c: char| if c == ' ' { '_' } else { c }),
    {
        let c = if v[i] == ' ' {
            '_'
        } else {
            v[i]
        };
        out.push(c);
        assert(v@.take(i + 1).map_values(|c: char| if c == ' ' { '_' } else { c }) =~= v@.take(
            i as int,
        ).map_values(|c: char| if c == ' ' { '_' } else { c }).push(c));
    }
    assert(v@.take(v@.len() as int) =~= v@);
    string_from_chars(&out)
}

/// Why a provider could not be added.
#[derive(Debug, Clone, Copy, PartialEq, Eq, Structural)]
pub enum AddProviderError {
    /// The name is empty once white space is removed.
    NameRequired,
    /// The URL is empty once white space is removed.
    UrlRequired,
    /// A provider with the derived id already exists.
    AlreadyExists,
}

/// Whether a provider named `name` at `url` can be added to `ps`: the first
/// reason it cannot, or `Ok`.
pub open spec fn add_outcome(ps: Seq<ProviderPreferences>, name: Seq<char>, url: Seq<char>) -> Result<
    (),
    AddProviderError,
> {
    if trim(name).len() == 0 {
        Err(AddProviderError::NameRequired)
    } else if trim(url).len() == 0 {
        Err(AddProviderError::UrlRequired)
    } else if has_id(ps, custom_provider_id(name)) {
        Err(AddProviderError::AlreadyExists)
    } else {
        Ok(())
    }
}

/// Adds a provider that the user defined: named `name`, at `url` (both
/// without surrounding white space), enabled, marked as added by the user,
/// with `api_key` as its key unless that is empty. Nothing changes when the
/// name or the URL is blank or the derived id is taken.
pub fn add_custom_provider(
    ps: &mut Vec<ProviderPreferences>,
    name: &str,
    url: &str,
    api_key: &str,
) -> (r: Result<(), AddProviderError>)
    ensures
        r == add_outcome(old(ps)@, name@, url@),
        r is Err ==> final(ps)@ == old(ps)@,
        r is Ok ==> {
            &&& trim(name@).len() > 0 && trim(url@).len() > 0
            &&& !has_id(old(ps)@, custom_provider_id(name@))
            &&& final(ps)@.len() == old(ps)@.len() + 1
            &&& final(ps)@.take(old(ps)@.len() as int) == old(ps)@
            &&& {
                let p = final(ps)@.last();
                &&& p.id@ == custom_provider_id(name@)
                &&& p.name@ == trim(name@)
                &&& p.url@ == trim(url@)
                &&& (api_key@.len() == 0 ==> p.api_key is None)
                &&& (api_key@.len() > 0 ==> (p.api_key matches Some(k) && k@ == api_key@))
                &&& p.enabled
                &&& p.was_customly_added
                &&& !p.a2ui_enabled
                &&& p.models@.len() == 0
            }
        },
{
    let trimmed_name = trim_str(name);
    if trimmed_name.as_str().unicode_len() == 0 {
        return Err(AddProviderError::NameRequired);
    }
    let trimmed_url = trim_str(url);
    if trimmed_url.as_str().unicode_len() == 0 {
        return Err(AddProviderError::UrlRequired);
    }
    let id = provider_id_for_name(name);
    if find_provider(ps, id.as_str()).is_some() {
        return Err(AddProviderError::AlreadyExists);
    }
    let mut p = ProviderPreferences::new(id.as_str(), trimmed_name.as_str(), trimmed_url.as_str());
    p.was_customly_added = true;
    p.enabled = true;
    if api_key.unicode_len() > 0 {
        p.api_key = Some(owned(api_key));
    }
    let ghost before = ps@;
    ps.push(p);
    assert(ps@.take(before.len() as int) =~= before);
    Ok(())
}

/// Why a provider could not be removed.
#[derive(Debug, Clone, Copy, PartialEq, Eq, Structural)]
pub enum DeleteProviderError {
    /// No provider has the id.
    NotFound,
    /// The provider is built in; only providers that the user added can go.
    BuiltIn,
}

/// The providers whose id is not `id`, in order.
pub open spec fn without_id(ps: Seq<ProviderPreferences>, id: Seq<char>) -> Seq<
    ProviderPreferences,
>
    decreases ps.len(),
{
    if ps.len() == 0 {
        ps
    } else if ps.last().id@ == id {
        without_id(ps.drop_last(), id)
    } else {
        without_id(ps.drop_last(), id).push(ps.last())
    }
}

proof fn lemma_without_id_append(a: Seq<ProviderPreferences>, b: Seq<ProviderPreferences>, id: Seq<char>)
    ensures
        without_id(a + b, id) == without_id(a, id) + without_id(b, id),
    decreases b.len(),
{
    if b.len() == 0 {
        assert(a + b =~= a);
        assert(without_id(a, id) + without_id(b, id) =~= without_id(a, id));
    } else {
        assert((a + b).drop_last() =~= a + b.drop_last());
        assert((a + b).last() == b.last());
        lemma_without_id_append(a, b.drop_last(), id);
        if b.last().id@ != id {
            assert(without_id(a, id) + without_id(b.drop_last(), id).push(b.last()) =~= (without_id(
                a,
                id,
            ) + without_id(b.drop_last(), id)).push(b.last()));
        }
    }
}

/// Without a provider of id `id`, removing that id changes nothing.
proof fn lemma_without_absent_id(ps: Seq<ProviderPreferences>, id: Seq<char>)
    requires
        !has_id(ps, id),
    ensures
        without_id(ps, id) == ps,
    decreases ps.len(),
{
    if ps.len() > 0 {
        assert(ps.last().id@ != id) by {
            assert(ps[ps.len() - 1].id@ != id);
        }
        assert(!has_id(ps.drop_last(), id)) by {
            if has_id(ps.drop_last(), id) {
                let i = choose|i: int| 0 <= i < ps.drop_last().len() && #[trigger] ps.drop_last()[i].id@ == id;
                assert(ps[i].id@ == id);
            }
        }
        lemma_without_absent_id(ps.drop_last(), id);
        assert(ps.drop_last().push(ps.last()) =~= ps);
    }
}

/// After removing an id, no provider has it.
pub proof fn lemma_delete_removes_id(ps: Seq<ProviderPreferences>, id: Seq<char>)
    ensures
        !has_id(without_id(ps, id), id),
    decreases ps.len(),
{
    if ps.len() > 0 {
        lemma_delete_removes_id(ps.drop_last(), id);
        let r = without_id(ps.drop_last(), id);
        if ps.last().id@ != id {
            assert forall|i: int| 0 <= i < r.push(ps.last()).len() implies #[trigger] r.push(ps.last())[i].id@ != id by {
                if i < r.len() {
                    assert(r.push(ps.last())[i] == r[i]);
                }
            }
        }
    }
}

/// Removing the provider that was just added to a list without its id gives
/// back the list as it was.
pub proof fn lemma_delete_undoes_add(ps: Seq<ProviderPreferences>, p: ProviderPreferences)
    requires
        !has_id(ps, p.id@),
    ensures
        without_id(ps.push(p), p.id@) == ps,
{
    assert(ps.push(p).drop_last() =~= ps);
    assert(ps.push(p).last() == p);
    lemma_without_absent_id(ps, p.id@);
}

/// Removes every provider with id `id`, provided the first one with that id
/// was added by the user.
pub fn delete_custom_provider(ps: &mut Vec<ProviderPreferences>, id: &str) -> (r: Result<
    (),
    DeleteProviderError,
>)
    ensures
        match r {
            Ok(()) => has_id(old(ps)@, id@) && final(ps)@ == without_id(old(ps)@, id@),
            Err(DeleteProviderError::NotFound) => !has_id(old(ps)@, id@) && final(ps)@ == old(ps)@,
            Err(DeleteProviderError::BuiltIn) => has_id(old(ps)@, id@) && final(ps)@ == old(ps)@,
        },
        r is Ok <==> (exists|i: int|
            0 <= i < old(ps)@.len() && old(ps)@[i].id@ == id@ && old(ps)@[i].was_customly_added
                && forall|j: int| 0 <= j < i ==> #[trigger] old(ps)@[j].id@ != id@),
{
    let Some(i) = find_provider(ps, id) else {
        return Err(DeleteProviderError::NotFound);
    };
    if !ps[i].was_customly_added {
        proof {
            assert forall|k: int|
                !(0 <= k < ps@.len() && ps@[k].id@ == id@ && ps@[k].was_customly_added && forall|
                    j: int,
                | 0 <= j < k ==> #[trigger] ps@[j].id@ != id@) by {
                if 0 <= k < ps@.len() && ps@[k].id@ == id@ && (forall|j: int|
                    0 <= j < k ==> #[trigger] ps@[j].id@ != id@) {
                    if k < i {
                    } else if k > i {
                        assert(ps@[i as int].id@ == id@);
                    }
                }
            }
        }
        return Err(DeleteProviderError::BuiltIn);
    }
    let ghost before = ps@;
    let mut i: usize = 0;
    let ghost mut k: int = 0;
    while i < ps.len()
        invariant
            0 <= i <= k <= before.len(),
            ps@.len() == i + (before.len() - k),
            ps@.take(i as int) == without_id(before.take(k), id@),
            ps@.skip(i as int) == before.skip(k),
        decreases ps@.len() - i,
    {
        let ghost cur = ps@;
        assert(cur[i as int] == before[k]) by {
            assert(cur.skip(i as int)[0] == cur[i as int]);
        }
        assert(before.take(k + 1).drop_last() =~= before.take(k));
        assert(before.take(k + 1).last() == before[k]);
        assert(cur.skip(i + 1) =~= before.skip(k + 1)) by {
            assert forall|j: int| 0 <= j < cur.len() - i - 1 implies #[trigger] cur.skip(i + 1)[j] == before.skip(
                k + 1,
            )[j] by {
                assert(cur.skip(i as int)[j + 1] == cur[i + 1 + j]);
                assert(before.skip(k)[j + 1] == before[k + 1 + j]);
            }
        }
        if str_eq(ps[i].id.as_str(), id) {
            ps.remove(i);
            assert(ps@.take(i as int) =~= cur.take(i as int));
            assert(ps@.skip(i as int) =~= before.skip(k + 1));
        } else {
            assert(cur.take(i + 1) =~= cur.take(i as int).push(cur[i as int]));
            i = i + 1;
            assert(ps@.skip(i as int) =~= before.skip(k + 1));
        }
        proof {
            k = k + 1;
        }
    }
    assert(ps@.take(i as int) =~= ps@);
    assert(before.take(before.len() as int) =~= before);
    Ok(())
}

/// Stores the URL and key entered for a provider: the URL always, the key
/// only when something was entered, so that an empty field never clears a key.
pub fn save_provider_settings(p: &mut ProviderPreferences, url: &str, api_key_text: &str)
    ensures
        final(p).url@ == url@,
        api_key_text@.len() == 0 ==> final(p).api_key == old(p).api_key,
        api_key_text@.len() > 0 ==> (final(p).api_key matches Some(k) && k@ == api_key_text@),
        final(p).id == old(p).id,
        final(p).name == old(p).name,
        final(p).enabled == old(p).enabled,
        final(p).was_customly_added == old(p).was_customly_added,
        final(p).a2ui_enabled == old(p).a2ui_enabled,
        final(p).models == old(p).models,
{
    p.url = owned(url);
    if api_key_text.unicode_len() > 0 {
        p.api_key = Some(owned(api_key_text));
    }
}

// ───────────────────────────── presentation ─────────────────────────────
/// The position of a provider's icon among the settings screen's icons.
pub open spec fn settings_icon_spec(id: Seq<char>) -> Option<usize> {
    if id == "openai"@ {
        Some(0)
    } else if id == "anthropic"@ {
        Some(1)
    } else if id == "gemini"@ {
        Some(2)
    } else if id == "ollama"@ {
        Some(3)
    } else if id == "deepseek"@ {
        Some(4)
    } else if id == "nvidia"@ {
        Some(5)
    } else if id == "groq"@ {
        Some(6)
    } else if id == "kimi"@ {
        Some(7)
    } else if id == "zhipu"@ {
        Some(8)
    } else {
        None
    }
}

/// Index of the settings screen icon for provider `id`.
pub fn settings_icon_index(id: &str) -> (r: Option<usize>)
    ensures
        r == settings_icon_spec(id@),
{
    if str_eq(id, "openai") {
        Some(0)
    } else if str_eq(id, "anthropic") {
        Some(1)
    } else if str_eq(id, "gemini") {
        Some(2)
    } else if str_eq(id, "ollama") {
        Some(3)
    } else if str_eq(id, "deepseek") {
        Some(4)
    } else if str_eq(id, "nvidia") {
        Some(5)
    } else if str_eq(id, "groq") {
        Some(6)
    } else if str_eq(id, "kimi") {
        Some(7)
    } else if str_eq(id, "zhipu") {
        Some(8)
    } else {
        None
    }
}

/// The number that colours a provider's status dot: `0` untested or not
/// connected, `1` connecting, `2` connected, `3` failed.
pub fn status_dot(status: Option<&ProviderConnectionStatus>) -> (r: u8)
    ensures
        r == (match status {
            None | Some(ProviderConnectionStatus::NotConnected) => 0u8,
            Some(ProviderConnectionStatus::Connecting) => 1u8,
            Some(ProviderConnectionStatus::Connected) => 2u8,
            Some(ProviderConnectionStatus::Error(_)) => 3u8,
        }),
{
    match status {
        None => 0,
        Some(ProviderConnectionStatus::NotConnected) => 0,
        Some(ProviderConnectionStatus::Connecting) => 1,
        Some(ProviderConnectionStatus::Connected) => 2,
        Some(ProviderConnectionStatus::Error(_)) => 3,
    }
}

/// A copy of a connection status.
pub fn copy_status(s: &ProviderConnectionStatus) -> (r: ProviderConnectionStatus)
    ensures
        r == *s,
{
    match s {
        ProviderConnectionStatus::NotConnected => ProviderConnectionStatus::NotConnected,
        ProviderConnectionStatus::Connecting => ProviderConnectionStatus::Connecting,
        ProviderConnectionStatus::Connected => ProviderConnectionStatus::Connected,
        ProviderConnectionStatus::Error(e) => ProviderConnectionStatus::Error(e.clone()),
    }
}

/// The message shown after a connection test.
pub open spec fn status_message(status: ProviderConnectionStatus, model_count: Option<usize>) -> Seq<
    char,
> {
    match status {
        ProviderConnectionStatus::Connected => match model_count {
            Some(n) => "Connected! Found "@ + decimal(n as nat) + " models"@,
            None => "Connected!"@,
        },
        ProviderConnectionStatus::Error(e) => "Error: "@ + e@,
        _ => Seq::<char>::empty(),
    }
}

/// The message for a test's outcome.
pub fn status_message_text(status: &ProviderConnectionStatus, model_count: Option<usize>) -> (r:
    String)
    ensures
        r@ == status_message(*status, model_count),
{
    match status {
        ProviderConnectionStatus::Connected => match model_count {
            Some(n) => {
                let number = decimal_string(n as u64);
                let head = concat("Connected! Found ", number.as_str());
                concat(head.as_str(), " models")
            },
            None => owned("Connected!"),
        },
        ProviderConnectionStatus::Error(e) => concat("Error: ", e.as_str()),
        _ => String::new(),
    }
}

// ───────────────────────────── testing a connection ─────────────────────────────
/// The URL and key with which a connection test runs, both without
/// surrounding white space; an empty key stops the test before it starts.
pub fn connection_test_input(url_text: &str, key_text: &str) -> (r: Result<(String, String), String>)
    ensures
        match r {
            Ok((u, k)) => u@ == trim(url_text@) && k@ == trim(key_text@) && k@.len() > 0,
            Err(e) => trim(key_text@).len() == 0 && e@ == "No API key provided"@,
        },
{
    let url = trim_str(url_text);
    let key = trim_str(key_text);
    if key.as_str().unicode_len() == 0 {
        return Err(owned("No API key provided"));
    }
    Ok((url, key))
}

/// The addresses tried for a provider's model list, in order: `<base>/models`,
/// `<base>/v1/models` and `<base>` itself, where `<base>` is the URL without
/// trailing `/`.
pub open spec fn probe_endpoints(base_url: Seq<char>) -> Seq<Seq<char>> {
    let base = strip_trailing(base_url, '/');
    seq![base + "/models"@, base + "/v1/models"@, base]
}

/// The addresses a connection test tries.
pub fn probe_endpoint_urls(base_url: &str) -> (r: Vec<String>)
    ensures
        views(r@) == probe_endpoints(base_url@),
{
    let base = strip_trailing_char(base_url, '/');
    let mut r: Vec<String> = Vec::new();
    r.push(concat(base.as_str(), "/models"));
    r.push(concat(base.as_str(), "/v1/models"));
    r.push(base);
    assert(views(r@) =~= probe_endpoints(base_url@));
    r
}

/// Why a request got no reply.
pub enum SendFailure {
    /// The request timed out.
    Timeout,
    /// No connection could be made.
    Connect,
    /// Any other failure, with its description.
    Other(String),
}

/// What one request to an address of the model list led to.
pub enum AttemptOutcome {
    /// No reply came.
    SendFailed(SendFailure),
    /// A reply with status `code`; its body as text, or why it could not be
    /// read. For a readable body, the model ids it lists when it is a model
    /// list (`{"data": [{"id": ...}, ...]}`), else `None`.
    Replied { code: u16, body: Result<(String, Option<Vec<String>>), String> },
}

/// What a connection test does after one attempt.
pub enum AttemptVerdict {
    /// Try the next address; this is now the error to report if none succeeds.
    TryNext(String),
    /// Stop with this result: the number of models and their ids, or an error.
    Finish(Result<(usize, Vec<String>), String>),
}

/// The error reported for a reply that is neither a success nor a 404.
pub open spec fn reply_error(code: u16, body: Seq<char>) -> Seq<char> {
    if code == 401 {
        "Invalid API key"@
    } else if code == 403 {
        "Access denied"@
    } else if code == 429 {
        "Rate limited"@
    } else {
        "HTTP "@ + decimal(code as nat) + ": "@ + body
    }
}

/// The text of a body, empty when it could not be read.
pub open spec fn body_or_empty(body: Result<(String, Option<Vec<String>>), String>) -> Seq<char> {
    match body {
        Ok((t, _)) => t@,
        Err(_) => Seq::<char>::empty(),
    }
}

/// The verdict on one attempt at address `url`, as views.
pub open spec fn attempt_verdict_spec(url: Seq<char>, outcome: AttemptOutcome) -> (bool, Seq<char>) {
    match outcome {
        AttemptOutcome::SendFailed(SendFailure::Timeout) => (false, "Connection timed out"@),
        AttemptOutcome::SendFailed(SendFailure::Connect) => (false, "Failed to connect to server"@),
        AttemptOutcome::SendFailed(SendFailure::Other(d)) => (false, "Request failed: "@ + d@),
        AttemptOutcome::Replied { code, body } => if code == 404 {
            (false, "Endpoint not found: "@ + url)
        } else if !is_success_code(code) {
            (true, reply_error(code, body_or_empty(body)))
        } else {
            match body {
                Err(e) => (false, "Failed to read response: "@ + e@),
                Ok(_) => (true, Seq::<char>::empty()),
            }
        },
    }
}

/// The models a successful attempt reports.
pub open spec fn attempt_models(outcome: AttemptOutcome) -> Seq<Seq<char>> {
    match outcome {
        AttemptOutcome::Replied { body: Ok((_, Some(ids))), .. } => views(ids@),
        _ => Seq::<Seq<char>>::empty(),
    }
}

/// The verdict on one attempt at address `url`: a failure to send, a 404 or
/// an unreadable body moves on to the next address; any other failure
/// status ends the test with its error; a readable successful reply ends it
/// with the models listed (none when the body is not a model list).
pub fn judge_attempt(url: &str, outcome: AttemptOutcome) -> (r: AttemptVerdict)
    ensures
        match r {
            AttemptVerdict::TryNext(e) => !attempt_verdict_spec(url@, outcome).0 && e@
                == attempt_verdict_spec(url@, outcome).1,
            AttemptVerdict::Finish(Err(e)) => attempt_verdict_spec(url@, outcome).0 && e@
                == attempt_verdict_spec(url@, outcome).1 && !(outcome matches AttemptOutcome::Replied {
                code,
                ..
            } && is_success_code(code)),
            AttemptVerdict::Finish(Ok((n, ids))) => attempt_verdict_spec(url@, outcome).0 && (
            outcome matches AttemptOutcome::Replied { code, .. } && is_success_code(code)) && n
                == ids@.len() && views(ids@) == attempt_models(outcome),
        },
{
    match outcome {
        AttemptOutcome::SendFailed(SendFailure::Timeout) => AttemptVerdict::TryNext(
            owned("Connection timed out"),
        ),
        AttemptOutcome::SendFailed(SendFailure::Connect) => AttemptVerdict::TryNext(
            owned("Failed to connect to server"),
        ),
        AttemptOutcome::SendFailed(SendFailure::Other(d)) => AttemptVerdict::TryNext(
            concat("Request failed: ", d.as_str()),
        ),
        AttemptOutcome::Replied { code, body } => {
            if code == 404 {
                AttemptVerdict::TryNext(concat("Endpoint not found: ", url))
            } else if !is_success(code) {
                let text = match body {
                    Ok((t, _)) => t,
                    Err(_) => String::new(),
                };
                let e = if code == 401 {
                    owned("Invalid API key")
                } else if code == 403 {
                    owned("Access denied")
                } else if code == 429 {
                    owned("Rate limited")
                } else {
                    let number = decimal_string(code as u64);
                    let head = concat("HTTP ", number.as_str());
                    let with_colon = concat(head.as_str(), ": ");
                    concat(with_colon.as_str(), text.as_str())
                };
                AttemptVerdict::Finish(Err(e))
            } else {
                match body {
                    Err(e) => AttemptVerdict::TryNext(concat("Failed to read response: ", e.as_str())),
                    Ok((_, Some(ids))) => {
                        let n = ids.len();
                        AttemptVerdict::Finish(Ok((n, ids)))
                    },
                    Ok((_, None)) => AttemptVerdict::Finish(Ok((0, Vec::new()))),
                }
            }
        },
    }
}

/// The error a connection test reports once every address has failed.
pub fn probe_exhausted(last_error: &str) -> (r: String)
    ensures
        r@ == (if last_error@.len() == 0 {
            "Could not find models endpoint"@
        } else {
            last_error@
        }),
{
    if last_error.unicode_len() == 0 {
        owned("Could not find models endpoint")
    } else {
        owned(last_error)
    }
}

// ───────────────────────────── the settings screen's test state ─────────────────────────────
/// The outcome of a connection test, as it is handed back to the screen.
pub struct ConnectionTestResult {
    pub provider_id: String,
    pub status: ProviderConnectionStatus,
    pub model_count: Option<usize>,
    pub models: Vec<String>,
}

/// The connection state that the settings screen keeps.
pub struct ConnectionPanel {
    /// The provider whose details are shown.
    pub selected: Option<String>,
    /// The status of the selected provider's last test.
    pub status: ProviderConnectionStatus,
    /// Whether a test is running.
    pub in_progress: bool,
    /// How many models the last test found.
    pub model_count: Option<usize>,
    /// The models found, with their enabled flags.
    pub fetched: Vec<(String, bool)>,
    /// The last known status of each tested provider.
    pub statuses: Vec<(String, ProviderConnectionStatus)>,
}

/// The last status recorded for `id`.
pub open spec fn status_for(st: Seq<(String, ProviderConnectionStatus)>, id: Seq<char>) -> Option<
    ProviderConnectionStatus,
>
    decreases st.len(),
{
    if st.len() == 0 {
        None
    } else if st.last().0@ == id {
        Some(st.last().1)
    } else {
        status_for(st.drop_last(), id)
    }
}

impl ConnectionPanel {
    /// No provider selected, nothing tested.
    pub fn new() -> (r: ConnectionPanel)
        ensures
            r.selected is None,
            r.status is NotConnected,
            !r.in_progress,
            r.model_count is None,
            r.fetched@.len() == 0,
            r.statuses@.len() == 0,
    {
        ConnectionPanel {
            selected: None,
            status: ProviderConnectionStatus::NotConnected,
            in_progress: false,
            model_count: None,
            fetched: Vec::new(),
            statuses: Vec::new(),
        }
    }

    /// Shows provider `id`: its test state starts afresh.
    pub fn select(&mut self, id: &str)
        ensures
            final(self).selected matches Some(s) && s@ == id@,
            final(self).status is NotConnected,
            final(self).model_count is None,
            final(self).fetched@.len() == 0,
            !final(self).in_progress,
            final(self).statuses == old(self).statuses,
    {
        self.selected = Some(owned(id));
        self.status = ProviderConnectionStatus::NotConnected;
        self.model_count = None;
        self.fetched = Vec::new();
        self.in_progress = false;
    }

    /// Records that provider `id` is being tested.
    pub fn start_test(&mut self, id: &str)
        ensures
            final(self).status is Connecting,
            final(self).in_progress,
            status_for(final(self).statuses@, id@) == Some(ProviderConnectionStatus::Connecting),
            forall|o: Seq<char>| o != id@ ==> status_for(final(self).statuses@, o) == status_for(old(self).statuses@, o),
            final(self).selected == old(self).selected,
            final(self).fetched == old(self).fetched,
            final(self).model_count == old(self).model_count,
    {
        self.status = ProviderConnectionStatus::Connecting;
        self.statuses.push((owned(id), ProviderConnectionStatus::Connecting));
        self.in_progress = true;
        proof {
            assert forall|o: Seq<char>| o != id@ implies status_for(self.statuses@, o) == status_for(
                old(self).statuses@,
                o,
            ) by {
                assert(self.statuses@.drop_last() =~= old(self).statuses@);
            }
            assert(self.statuses@.drop_last() =~= old(self).statuses@);
        }
    }

    /// Records a test's outcome. Its status is kept for its provider; when
    /// that provider is still the one shown, the outcome becomes the screen's
    /// state: the found models take their stored flags (`stored`, the
    /// provider's model entries), the test stops, and the returned message is
    /// shown. A result for another provider changes nothing else.
    pub fn apply_result(&mut self, result: ConnectionTestResult, stored: &Vec<(String, bool)>) -> (r:
        Option<String>)
        ensures
            status_for(final(self).statuses@, result.provider_id@) == Some(result.status),
            forall|o: Seq<char>|
                o != result.provider_id@ ==> status_for(final(self).statuses@, o) == status_for(
                    old(self).statuses@,
                    o,
                ),
            final(self).selected == old(self).selected,
            (old(self).selected matches Some(s) && s@ == result.provider_id@) ==> {
                &&& r matches Some(m) && m@ == status_message(result.status, result.model_count)
                &&& final(self).status == result.status
                &&& final(self).model_count == result.model_count
                &&& !final(self).in_progress
                &&& final(self).fetched@.len() == result.models@.len()
                &&& forall|i: int|
                    #![trigger final(self).fetched@[i]]
                    0 <= i < result.models@.len() ==> final(self).fetched@[i].0@
                        == result.models@[i]@ && final(self).fetched@[i].1 == merged_flag(
                        entries(stored@),
                        result.models@[i]@,
                    )
            },
            !(old(self).selected matches Some(s) && s@ == result.provider_id@) ==> {
                &&& r is None
                &&& final(self).status == old(self).status
                &&& final(self).model_count == old(self).model_count
                &&& final(self).in_progress == old(self).in_progress
                &&& final(self).fetched == old(self).fetched
            },
    {
        let ghost old_statuses = self.statuses@;
        self.statuses.push((result.provider_id.clone(), copy_status(&result.status)));
        proof {
            assert(self.statuses@.drop_last() =~= old_statuses);
        }
        let is_selected = match &self.selected {
            Some(s) => str_eq(s.as_str(), result.provider_id.as_str()),
            None => false,
        };
        if !is_selected {
            return None;
        }
        let message = status_message_text(&result.status, result.model_count);
        self.status = result.status;
        self.model_count = result.model_count;
        self.in_progress = false;
        self.fetched = merge_fetched_models(&result.models, stored);
        Some(message)
    }
}

} // verus!
