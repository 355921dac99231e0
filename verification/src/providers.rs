//! Third-party provider definitions and the slug-to-provider mapping.

use vstd::prelude::*;

use crate::splitter::ChatReasoningFormat;
use crate::text::first_match;
use crate::text::find_str;
use crate::text::is_prefix_of;
use crate::text::str_eq;
use crate::text::str_starts_with;

verus! {

/// Which wire protocol a provider speaks.
#[derive(Debug, Clone, Copy, PartialEq, Eq, Structural)]
pub enum WireApi {
    Responses,
    Chat,
}

/// Connection and behaviour settings for one model provider.
#[derive(Debug, Clone, PartialEq, Eq)]
pub struct ModelProviderInfo {
    pub name: String,
    pub base_url: Option<String>,
    pub env_key: Option<String>,
    pub env_key_instructions: Option<String>,
    pub wire_api: WireApi,
    pub query_params: Vec<(String, String)>,
    pub http_headers: Vec<(String, String)>,
    pub env_http_headers: Vec<(String, String)>,
    pub request_max_retries: Option<u64>,
    pub stream_max_retries: Option<u64>,
    pub stream_idle_timeout_ms: Option<u64>,
    pub requires_openai_auth: bool,
    pub supports_websockets: bool,
    pub system_role: Option<String>,
}

/// Field-wise equality of two provider configurations, over views.
pub open spec fn provider_eq(a: ModelProviderInfo, b: ModelProviderInfo) -> bool {
    &&& a.name@ =~= b.name@
    &&& opt_view(a.base_url) =~= opt_view(b.base_url)
    &&& (a.base_url is Some <==> b.base_url is Some)
    &&& opt_view(a.env_key) =~= opt_view(b.env_key)
    &&& (a.env_key is Some <==> b.env_key is Some)
    &&& opt_view(a.env_key_instructions) =~= opt_view(b.env_key_instructions)
    &&& (a.env_key_instructions is Some <==> b.env_key_instructions is Some)
    &&& a.wire_api == b.wire_api
    &&& pairs_view(a.query_params@) =~= pairs_view(b.query_params@)
    &&& pairs_view(a.http_headers@) =~= pairs_view(b.http_headers@)
    &&& pairs_view(a.env_http_headers@) =~= pairs_view(b.env_http_headers@)
    &&& a.request_max_retries == b.request_max_retries
    &&& a.stream_max_retries == b.stream_max_retries
    &&& a.stream_idle_timeout_ms == b.stream_idle_timeout_ms
    &&& a.requires_openai_auth == b.requires_openai_auth
    &&& a.supports_websockets == b.supports_websockets
    &&& opt_view(a.system_role) =~= opt_view(b.system_role)
    &&& (a.system_role is Some <==> b.system_role is Some)
}

/// The view of an optional string, empty when absent.
pub open spec fn opt_view(o: Option<String>) -> Seq<char> {
    match o {
        Some(s) => s@,
        None => Seq::empty(),
    }
}

/// The views of a sequence of string pairs.
pub open spec fn pairs_view(s: Seq<(String, String)>) -> Seq<(Seq<char>, Seq<char>)> {
    s.map_values(|p: (String, String)| (p.0@, p.1@))
}

/// A field-by-field copy of a provider configuration.
pub fn clone_provider(p: &ModelProviderInfo) -> (r: ModelProviderInfo)
    ensures
        provider_eq(r, *p),
{
    ModelProviderInfo {
        name: p.name.clone(),
        base_url: clone_opt(&p.base_url),
        env_key: clone_opt(&p.env_key),
        env_key_instructions: clone_opt(&p.env_key_instructions),
        wire_api: p.wire_api,
        query_params: clone_pairs(&p.query_params),
        http_headers: clone_pairs(&p.http_headers),
        env_http_headers: clone_pairs(&p.env_http_headers),
        request_max_retries: p.request_max_retries,
        stream_max_retries: p.stream_max_retries,
        stream_idle_timeout_ms: p.stream_idle_timeout_ms,
        requires_openai_auth: p.requires_openai_auth,
        supports_websockets: p.supports_websockets,
        system_role: clone_opt(&p.system_role),
    }
}

/// A copy of an optional string.
fn clone_opt(o: &Option<String>) -> (r: Option<String>)
    ensures
        r == *o,
{
    match o {
        Some(s) => Some(s.clone()),
        None => None,
    }
}

/// A copy of a vector of string pairs.
fn clone_pairs(v: &Vec<(String, String)>) -> (r: Vec<(String, String)>)
    ensures
        r@ =~= v@,
{
    let mut r: Vec<(String, String)> = Vec::new();
    let n = v.len();
    let mut i: usize = 0;
    while i < n
        invariant
            n == v@.len(),
            i <= n,
            r@ =~= v@.take(i as int),
        decreases n - i,
    {
        r.push((v[i].0.clone(), v[i].1.clone()));
        proof {
            assert(v@.take(i as int + 1) =~= v@.take(i as int).push(v@[i as int]));
            assert(r@.last() == v@[i as int]);
        }
        i = i + 1;
    }
    proof {
        assert(v@.take(n as int) =~= v@);
    }
    r
}

/// The OpenRouter configuration, field by field.
pub open spec fn is_openrouter_provider(p: ModelProviderInfo) -> bool {
    &&& p.name@ =~= "OpenRouter"@
    &&& p.base_url matches Some(u) && u@ =~= "https://openrouter.ai/api/v1"@
    &&& p.env_key matches Some(k) && k@ =~= "OPENROUTER_API_KEY"@
    &&& p.env_key_instructions matches Some(s) && s@
        =~= "Get your API key at https://openrouter.ai/keys"@
    &&& p.wire_api == WireApi::Responses
    &&& p.query_params@.len() == 0
    &&& p.http_headers@.len() == 2
    &&& p.http_headers@[0].0@ =~= "HTTP-Referer"@
    &&& p.http_headers@[0].1@ =~= "https://github.com/openai/codex"@
    &&& p.http_headers@[1].0@ =~= "X-Title"@
    &&& p.http_headers@[1].1@ =~= "Codex CLI"@
    &&& p.env_http_headers@.len() == 0
    &&& p.request_max_retries is None
    &&& p.stream_max_retries is None
    &&& p.stream_idle_timeout_ms is None
    &&& !p.requires_openai_auth
    &&& !p.supports_websockets
    &&& p.system_role is None
}

/// The Zhipu configuration, field by field.
pub open spec fn is_zhipu_provider(p: ModelProviderInfo) -> bool {
    &&& p.name@ =~= "Zhipu"@
    &&& p.base_url matches Some(u) && u@ =~= "https://open.bigmodel.cn/api/coding/paas/v4"@
    &&& p.env_key matches Some(k) && k@ =~= "ZHIPU_API_KEY"@
    &&& p.env_key_instructions matches Some(s) && s@
        =~= "Get your API key at https://open.bigmodel.cn/usercenter/apikeys"@
    &&& p.wire_api == WireApi::Chat
    &&& p.query_params@.len() == 0
    &&& p.http_headers@.len() == 0
    &&& p.env_http_headers@.len() == 0
    &&& p.request_max_retries == Some(4u64)
    &&& p.stream_max_retries == Some(10u64)
    &&& p.stream_idle_timeout_ms == Some(300000u64)
    &&& !p.requires_openai_auth
    &&& !p.supports_websockets
    &&& p.system_role is None
}

/// The MiniMax configuration, field by field.
pub open spec fn is_minimax_provider(p: ModelProviderInfo) -> bool {
    &&& p.name@ =~= "MiniMax"@
    &&& p.base_url matches Some(u) && u@ =~= "https://api.minimaxi.com/v1"@
    &&& p.env_key matches Some(k) && k@ =~= "MINIMAX_API_KEY"@
    &&& p.env_key_instructions is None
    &&& p.wire_api == WireApi::Chat
    &&& p.query_params@.len() == 0
    &&& p.http_headers@.len() == 0
    &&& p.env_http_headers@.len() == 0
    &&& p.request_max_retries == Some(4u64)
    &&& p.stream_max_retries == Some(10u64)
    &&& p.stream_idle_timeout_ms == Some(300000u64)
    &&& !p.requires_openai_auth
    &&& !p.supports_websockets
    &&& p.system_role is None
}

/// An OpenRouter provider configuration.
pub fn create_openrouter_provider() -> (p: ModelProviderInfo)
    ensures
        is_openrouter_provider(p),
{
    let mut http_headers: Vec<(String, String)> = Vec::new();
    http_headers.push(("HTTP-Referer".to_owned(), "https://github.com/openai/codex".to_owned()));
    http_headers.push(("X-Title".to_owned(), "Codex CLI".to_owned()));
    ModelProviderInfo {
        name: "OpenRouter".to_owned(),
        base_url: Some("https://openrouter.ai/api/v1".to_owned()),
        env_key: Some("OPENROUTER_API_KEY".to_owned()),
        env_key_instructions: Some("Get your API key at https://openrouter.ai/keys".to_owned()),
        wire_api: WireApi::Responses,
        query_params: Vec::new(),
        http_headers,
        env_http_headers: Vec::new(),
        request_max_retries: None,
        stream_max_retries: None,
        stream_idle_timeout_ms: None,
        requires_openai_auth: false,
        supports_websockets: false,
        system_role: None,
    }
}

/// A Zhipu provider configuration (GLM models via the coding endpoint).
pub fn create_zhipu_provider() -> (p: ModelProviderInfo)
    ensures
        is_zhipu_provider(p),
{
    ModelProviderInfo {
        name: "Zhipu".to_owned(),
        base_url: Some("https://open.bigmodel.cn/api/coding/paas/v4".to_owned()),
        env_key: Some("ZHIPU_API_KEY".to_owned()),
        env_key_instructions: Some(
            "Get your API key at https://open.bigmodel.cn/usercenter/apikeys".to_owned(),
        ),
        wire_api: WireApi::Chat,
        query_params: Vec::new(),
        http_headers: Vec::new(),
        env_http_headers: Vec::new(),
        request_max_retries: Some(4),
        stream_max_retries: Some(10),
        stream_idle_timeout_ms: Some(300000),
        requires_openai_auth: false,
        supports_websockets: false,
        system_role: None,
    }
}

/// A MiniMax provider configuration.
pub fn create_minimax_provider() -> (p: ModelProviderInfo)
    ensures
        is_minimax_provider(p),
{
    ModelProviderInfo {
        name: "MiniMax".to_owned(),
        base_url: Some("https://api.minimaxi.com/v1".to_owned()),
        env_key: Some("MINIMAX_API_KEY".to_owned()),
        env_key_instructions: None,
        wire_api: WireApi::Chat,
        query_params: Vec::new(),
        http_headers: Vec::new(),
        env_http_headers: Vec::new(),
        request_max_retries: Some(4),
        stream_max_retries: Some(10),
        stream_idle_timeout_ms: Some(300000),
        requires_openai_auth: false,
        supports_websockets: false,
        system_role: None,
    }
}

/// Position of the provider registered under `id` at or after `i`, scanning
/// left to right.
pub open spec fn provider_pos_from(
    s: Seq<(String, ModelProviderInfo)>,
    id: Seq<char>,
    i: int,
) -> Option<int>
    decreases s.len() - i,
{
    if i < 0 || i >= s.len() {
        None
    } else if s[i].0@ =~= id {
        Some(i)
    } else {
        provider_pos_from(s, id, i + 1)
    }
}

/// Position of the provider registered under `id`, if any; a lookup finds
/// the first entry under the id.
pub open spec fn provider_pos(s: Seq<(String, ModelProviderInfo)>, id: Seq<char>) -> Option<int> {
    provider_pos_from(s, id, 0)
}

/// What `provider_pos_from` returns.
pub proof fn lemma_provider_pos_from_props(
    s: Seq<(String, ModelProviderInfo)>,
    id: Seq<char>,
    i: int,
)
    requires
        i >= 0,
    ensures
        match provider_pos_from(s, id, i) {
            Some(j) => i <= j < s.len() && s[j].0@ =~= id && forall|k: int|
                i <= k < j ==> !((#[trigger] s[k]).0@ =~= id),
            None => forall|k: int| i <= k < s.len() ==> !((#[trigger] s[k]).0@ =~= id),
        },
    decreases s.len() - i,
{
    if i >= s.len() {
    } else if s[i].0@ =~= id {
    } else {
        lemma_provider_pos_from_props(s, id, i + 1);
    }
}

/// A leftmost witness pins down `provider_pos`.
pub proof fn lemma_provider_pos_is(s: Seq<(String, ModelProviderInfo)>, id: Seq<char>, j: int)
    requires
        0 <= j < s.len(),
        s[j].0@ =~= id,
        forall|k: int| 0 <= k < j ==> !((#[trigger] s[k]).0@ =~= id),
    ensures
        provider_pos(s, id) == Some(j),
{
    lemma_provider_pos_from_props(s, id, 0);
    match provider_pos(s, id) {
        Some(m) => {
            if m < j {
                assert(!(s[m].0@ =~= id));
            }
            if j < m {
                assert(!(s[j].0@ =~= id));
            }
        },
        None => {
            assert(!(s[j].0@ =~= id));
        },
    }
}

/// Registers one provider under its id: an entry already registered under
/// the id is replaced in place, otherwise the provider is appended.  Either
/// way a lookup of the id afterwards finds exactly this provider, and every
/// entry under another id is untouched at its position.
fn register_provider(
    providers: &mut Vec<(String, ModelProviderInfo)>,
    id: &str,
    provider: ModelProviderInfo,
)
    ensures
        old(providers)@.len() <= final(providers)@.len() <= old(providers)@.len() + 1,
        forall|j: int|
            0 <= j < final(providers)@.len() ==> (((#[trigger] final(providers)@[j]).0@ =~= id@)
                || (j < old(providers)@.len() && final(providers)@[j] == old(providers)@[j])),
        forall|j: int|
            0 <= j < old(providers)@.len() && !((#[trigger] old(providers)@[j]).0@ =~= id@)
                ==> final(providers)@[j] == old(providers)@[j],
        provider_pos(final(providers)@, id@) matches Some(p) && final(providers)@[p].0@ =~= id@
            && final(providers)@[p].1 == provider,
{
    let n = providers.len();
    let mut i: usize = 0;
    while i < n
        invariant
            n == providers@.len(),
            i <= n,
            providers@ == old(providers)@,
            forall|k: int| 0 <= k < i ==> !((#[trigger] providers@[k]).0@ =~= id@),
        decreases n - i,
    {
        if str_eq(providers[i].0.as_str(), id) {
            proof {
                assert(providers@[i as int].0@ =~= id@);
            }
            providers[i] = (id.to_owned(), provider);
            proof {
                assert(providers@ =~= old(providers)@.update(
                    i as int,
                    providers@[i as int],
                ));
                assert forall|k: int| 0 <= k < i implies !((#[trigger] providers@[k]).0@
                    =~= id@) by {
                    assert(providers@[k] == old(providers)@[k]);
                }
                lemma_provider_pos_is(providers@, id@, i as int);
            }
            return ;
        }
        proof {
            assert(!(providers@[i as int].0@ =~= id@));
        }
        i = i + 1;
    }
    providers.push((id.to_owned(), provider));
    proof {
        assert forall|k: int| 0 <= k < old(providers)@.len() implies !((
        #[trigger] providers@[k]).0@ =~= id@) by {
            assert(providers@[k] == old(providers)@[k]);
        }
        lemma_provider_pos_is(providers@, id@, old(providers)@.len() as int);
    }
}

/// Registers the three third-party providers under their ids, replacing any
/// entry already registered under one of them; entries under other ids are
/// untouched.  A lookup of each id afterwards finds the configuration
/// defined here.
pub fn register_fork_providers(providers: &mut Vec<(String, ModelProviderInfo)>)
    ensures
        final(providers)@.len() <= old(providers)@.len() + 3,
        forall|j: int|
            0 <= j < old(providers)@.len() && !((#[trigger] old(providers)@[j]).0@
                =~= "openrouter"@) && !(old(providers)@[j].0@ =~= "minimax"@) && !(old(
                providers,
            )@[j].0@ =~= "zhipu"@) ==> final(providers)@[j] == old(providers)@[j],
        provider_pos(final(providers)@, "openrouter"@) matches Some(p) && is_openrouter_provider(
            final(providers)@[p].1,
        ),
        provider_pos(final(providers)@, "minimax"@) matches Some(p) && is_minimax_provider(
            final(providers)@[p].1,
        ),
        provider_pos(final(providers)@, "zhipu"@) matches Some(p) && is_zhipu_provider(
            final(providers)@[p].1,
        ),
{
    proof {
        reveal_strlit("openrouter");
        reveal_strlit("minimax");
        reveal_strlit("zhipu");
    }
    let ghost s0 = providers@;
    register_provider(providers, "openrouter", create_openrouter_provider());
    let ghost s1 = providers@;
    register_provider(providers, "minimax", create_minimax_provider());
    let ghost s2 = providers@;
    register_provider(providers, "zhipu", create_zhipu_provider());
    proof {
        lemma_register_stable(s1, s2, "minimax"@, "openrouter"@);
        lemma_register_stable(s2, providers@, "zhipu"@, "openrouter"@);
        lemma_register_stable(s2, providers@, "zhipu"@, "minimax"@);
    }
}

/// Registering under one id leaves the lookup of every other id unchanged,
/// entry value included.
proof fn lemma_register_stable(
    old_s: Seq<(String, ModelProviderInfo)>,
    new_s: Seq<(String, ModelProviderInfo)>,
    id: Seq<char>,
    other: Seq<char>,
)
    requires
        !(other =~= id),
        old_s.len() <= new_s.len(),
        forall|j: int|
            0 <= j < new_s.len() ==> (((#[trigger] new_s[j]).0@ =~= id) || (j < old_s.len()
                && new_s[j] == old_s[j])),
        forall|j: int|
            0 <= j < old_s.len() && !((#[trigger] old_s[j]).0@ =~= id) ==> new_s[j] == old_s[j],
    ensures
        provider_pos(new_s, other) == provider_pos(old_s, other),
        provider_pos(old_s, other) matches Some(p) ==> new_s[p] == old_s[p],
{
    lemma_provider_pos_from_props(old_s, other, 0);
    lemma_provider_pos_from_props(new_s, other, 0);
    assert forall|j: int| 0 <= j < new_s.len() implies ((#[trigger] new_s[j]).0@ =~= other) == (
    j < old_s.len() && old_s[j].0@ =~= other) by {
        if new_s[j].0@ =~= other {
            assert(!(new_s[j].0@ =~= id));
            assert(j < old_s.len() && new_s[j] == old_s[j]);
        }
        if j < old_s.len() && old_s[j].0@ =~= other {
            assert(!(old_s[j].0@ =~= id));
            assert(new_s[j] == old_s[j]);
        }
    }
    match provider_pos(old_s, other) {
        Some(p) => {
            assert(new_s[p] == old_s[p]);
            assert forall|k: int| 0 <= k < p implies !((#[trigger] new_s[k]).0@ =~= other) by {}
            lemma_provider_pos_is(new_s, other, p);
        },
        None => {
            match provider_pos(new_s, other) {
                Some(q) => {
                    assert(new_s[q].0@ =~= other);
                    assert(q < old_s.len() && old_s[q].0@ =~= other);
                    assert(false);
                },
                None => {},
            }
        },
    }
}

/// The provider a preset id resolves to, as the mathematical mapping: an
/// explicit `provider/…` prefix for the four known providers, else the raw
/// slug conventions of MiniMax, Zhipu, a few OpenRouter families, and the
/// Volcengine `ark-` prefix.
pub open spec fn provider_for_preset_spec(s: Seq<char>) -> Option<Seq<char>> {
    if first_match(s, seq!['/']) is Some {
        let prefix = s.take(first_match(s, seq!['/']).unwrap());
        if prefix =~= "openrouter"@ || prefix =~= "minimax"@ || prefix =~= "volcengine"@ || prefix
            =~= "zhipu"@ {
            Some(prefix)
        } else {
            None
        }
    } else if is_prefix_of("codex-MiniMax"@, s) || is_prefix_of("MiniMax-"@, s) {
        Some("minimax"@)
    } else if is_prefix_of("glm-"@, s) {
        Some("zhipu"@)
    } else if is_prefix_of("z-ai/glm"@, s) || is_prefix_of("xiaomi/mimo"@, s) || is_prefix_of(
        "google/gemini-2"@,
        s,
    ) || is_prefix_of("google/gemini-3"@, s) {
        Some("openrouter"@)
    } else if is_prefix_of("ark-"@, s) {
        Some("volcengine"@)
    } else {
        None
    }
}

/// Resolves a preset id to its provider id, if the preset belongs to one of
/// the third-party providers.
pub fn provider_for_preset(preset_id: &str) -> (r: Option<&'static str>)
    ensures
        match r {
            Some(p) => provider_for_preset_spec(preset_id@) == Some(p@),
            None => provider_for_preset_spec(preset_id@) is None,
        },
{
    proof {
        reveal_strlit("/");
        assert("/"@ =~= seq!['/']);
    }
    match find_str(preset_id, "/") {
        Some(pos) => {
            proof {
                crate::text::lemma_first_match_props(preset_id@, "/"@);
            }
            let prefix = preset_id.substring_char(0, pos);
            if str_eq(prefix, "openrouter") {
                Some("openrouter")
            } else if str_eq(prefix, "minimax") {
                Some("minimax")
            } else if str_eq(prefix, "volcengine") {
                Some("volcengine")
            } else if str_eq(prefix, "zhipu") {
                Some("zhipu")
            } else {
                None
            }
        },
        None => {
            if str_starts_with(preset_id, "codex-MiniMax") || str_starts_with(
                preset_id,
                "MiniMax-",
            ) {
                Some("minimax")
            } else if str_starts_with(preset_id, "glm-") {
                Some("zhipu")
            } else if str_starts_with(preset_id, "z-ai/glm") || str_starts_with(
                preset_id,
                "xiaomi/mimo",
            ) || str_starts_with(preset_id, "google/gemini-2") || str_starts_with(
                preset_id,
                "google/gemini-3",
            ) {
                Some("openrouter")
            } else if str_starts_with(preset_id, "ark-") {
                Some("volcengine")
            } else {
                None
            }
        },
    }
}

/// Resolves a model slug to its third-party provider id, if any; built-in
/// models resolve to none.
pub fn provider_for_model_slug(slug: &str) -> (r: Option<String>)
    ensures
        match r {
            Some(p) => provider_for_preset_spec(slug@) == Some(p@),
            None => provider_for_preset_spec(slug@) is None,
        },
{
    match provider_for_preset(slug) {
        Some(p) => Some(p.to_owned()),
        None => None,
    }
}

/// The reasoning format used for a chat-completions provider.  Think tags are
/// kept inline in assistant content: extracting them corrupts the multi-turn
/// history round-trip for providers that rely on seeing their own markup.
pub fn chat_reasoning_format(provider: &ModelProviderInfo) -> (r: ChatReasoningFormat)
    ensures
        r == ChatReasoningFormat::Standard,
{
    let _ = provider;
    ChatReasoningFormat::Standard
}

} // verus!
