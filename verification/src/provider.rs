//! Provider-specific request shaping: which provider a model endpoint
//! belongs to, the headers and routing that provider wants, and the chat
//! message fixes some providers need.
use vstd::prelude::*;
use vstd::string::*;
use vstd::utf8::*;

use crate::text::slice_eq;

verus! {

broadcast use vstd::seq::group_seq_axioms;

pub const OPENROUTER_REFERER: &'static str = "https://github.com/travisennis/cake";
pub const OPENROUTER_TITLE: &'static str = "cake";
pub const REASONING_CONTENT_PLACEHOLDER: &'static str = " ";

/// Hosted model providers that get special treatment.
#[derive(Debug, Clone, Copy, PartialEq, Eq, Structural)]
pub enum ModelProvider {
    OpenRouter,
    OpenCode,
}

/// Attribution headers sent to OpenRouter.
#[derive(Debug, Clone)]
pub struct ProviderHeaders {
    pub http_referer: Option<String>,
    pub x_title: Option<String>,
}

/// The model settings that provider handling reads.
#[derive(Debug, Clone)]
pub struct ModelSettings {
    pub base_url: String,
    pub provider: Option<ModelProvider>,
    pub provider_headers: Option<ProviderHeaders>,
    pub providers: Vec<String>,
}

/// OpenRouter provider routing for the Responses API.
#[derive(Debug, Clone)]
pub struct ProviderConfig {
    pub only: Vec<String>,
}

/// Message roles.
#[derive(Debug, Clone, Copy, PartialEq, Eq, Structural)]
pub enum Role {
    System,
    Developer,
    User,
    Assistant,
    Tool,
}

/// The wire name of a role.
pub open spec fn role_name(r: Role) -> Seq<char> {
    match r {
        Role::System => "system"@,
        Role::Developer => "developer"@,
        Role::User => "user"@,
        Role::Assistant => "assistant"@,
        Role::Tool => "tool"@,
    }
}

impl Role {
    /// The wire name of the role.
    pub fn as_str(self) -> (r: &'static str)
        ensures
            r@ == role_name(self),
    {
        match self {
            Role::System => "system",
            Role::Developer => "developer",
            Role::User => "user",
            Role::Assistant => "assistant",
            Role::Tool => "tool",
        }
    }
}

/// A tool call requested by an assistant message.
#[derive(Debug, Clone)]
pub struct ChatToolCall {
    pub id: String,
    pub name: String,
    pub arguments: String,
}

/// A Chat Completions message.
#[derive(Debug, Clone)]
pub struct ChatMessage {
    pub role: Role,
    pub content: Option<String>,
    pub reasoning_content: Option<String>,
    pub tool_calls: Option<Vec<ChatToolCall>>,
    pub tool_call_id: Option<String>,
}

// =============================================================================
// Inferring the provider
// =============================================================================

/// The host of a URL, as `url::Url::parse` and `host_str` find it.
pub uninterp spec fn url_host_of(url: Seq<char>) -> Option<Seq<char>>;

/// Calls `reqwest::Url::parse` (the `url` crate) and returns `host_str` of
/// the parsed URL; `None` when the text is no URL or the URL has no host.
#[verifier::external_body]
fn url_host(url: &str) -> (r: Option<String>)
    ensures
        match r {
            Some(h) => url_host_of(url@) == Some(h@),
            None => url_host_of(url@) is None,
        },
{
    match reqwest::Url::parse(url) {
        Ok(parsed) => parsed.host_str().map(|h| h.to_owned()),
        Err(_) => None,
    }
}

/// `host` is `domain` itself or a dot-subdomain of it.
pub open spec fn matches_domain(host: Seq<u8>, domain: Seq<u8>) -> bool {
    host == domain || (host.len() > domain.len() && host.subrange(host.len() - domain.len(), host.len() as int)
        == domain && host[host.len() - domain.len() - 1] == 0x2e)
}

/// Whether `host` is `domain` itself or a dot-subdomain of it.
pub fn host_matches_domain(host: &str, domain: &str) -> (r: bool)
    ensures
        r == matches_domain(host.spec_bytes(), domain.spec_bytes()),
{
    let h = host.as_bytes();
    let d = domain.as_bytes();
    if slice_eq(h, d) {
        return true;
    }
    if h.len() <= d.len() {
        return false;
    }
    let start = h.len() - d.len();
    let tail = &h[start..h.len()];
    slice_eq(tail, d) && h[start - 1] == 0x2e
}

/// The provider whose domain a URL host belongs to.
pub open spec fn host_provider(host: Option<Seq<char>>) -> Option<ModelProvider> {
    match host {
        None => None,
        Some(h) => if matches_domain(encode_utf8(h), "openrouter.ai".spec_bytes()) {
            Some(ModelProvider::OpenRouter)
        } else if matches_domain(encode_utf8(h), "opencode.ai".spec_bytes()) {
            Some(ModelProvider::OpenCode)
        } else {
            None
        },
    }
}

/// The provider whose domain the base URL's host belongs to.
pub open spec fn inferred_provider(base_url: Seq<char>) -> Option<ModelProvider> {
    host_provider(url_host_of(base_url))
}

/// The provider of a URL host (none without a host): OpenRouter for
/// `openrouter.ai` and its subdomains, OpenCode for `opencode.ai` and its
/// subdomains.
pub fn provider_for_host(host: Option<&str>) -> (r: Option<ModelProvider>)
    ensures
        r == host_provider(
            match host {
                Some(h) => Some(h@),
                None => None,
            },
        ),
{
    let host = match host {
        Some(h) => h,
        None => {
            return None;
        },
    };
    if host_matches_domain(host, "openrouter.ai") {
        Some(ModelProvider::OpenRouter)
    } else if host_matches_domain(host, "opencode.ai") {
        Some(ModelProvider::OpenCode)
    } else {
        None
    }
}

/// Infer the provider from the base URL's host.
pub fn infer_provider(base_url: &str) -> (r: Option<ModelProvider>)
    ensures
        r == inferred_provider(base_url@),
{
    let host = url_host(base_url);
    let host_text: Option<&str> = match &host {
        Some(h) => Some(h.as_str()),
        None => None,
    };
    provider_for_host(host_text)
}

// =============================================================================
// Provider strategy
// =============================================================================

/// Provider handling for one model configuration.
pub struct ProviderStrategy<'a> {
    pub config: &'a ModelSettings,
    pub provider: Option<ModelProvider>,
}

/// The lower-case hexadecimal digit for `n` (below sixteen).
pub open spec fn hex_digit(n: nat) -> char {
    if n < 10 {
        (48 + n) as char
    } else {
        (87 + n) as char
    }
}

/// The two hexadecimal digits of a byte.
pub open spec fn hex_byte(b: u8) -> Seq<char> {
    seq![hex_digit((b / 16) as nat), hex_digit((b % 16) as nat)]
}

/// The hexadecimal digits of bytes `i..j`.
pub open spec fn hex_bytes(b: Seq<u8>, i: int, j: int) -> Seq<char>
    decreases j - i,
{
    if i >= j {
        seq![]
    } else {
        hex_bytes(b, i, j - 1) + hex_byte(b[j - 1])
    }
}

/// The hyphenated lower-case form of a UUID's sixteen bytes (8-4-4-4-12
/// hexadecimal digits).
pub open spec fn uuid_hyphenated(b: Seq<u8>) -> Seq<char> {
    hex_bytes(b, 0, 4) + "-"@ + hex_bytes(b, 4, 6) + "-"@ + hex_bytes(b, 6, 8) + "-"@ + hex_bytes(b, 8, 10)
        + "-"@ + hex_bytes(b, 10, 16)
}

/// Calls `uuid::Uuid::from_bytes` and formats the id with `Display`, which
/// the uuid crate defines as the hyphenated lower-case form.
#[verifier::external_body]
fn uuid_text(id: &[u8; 16]) -> (r: String)
    ensures
        r@ == uuid_hyphenated(id@),
{
    uuid::Uuid::from_bytes(*id).to_string()
}

/// The headers a provider wants besides the user agent: OpenRouter gets its
/// attribution headers (the configured ones, else cake's defaults), OpenCode
/// gets the session id.
pub open spec fn provider_header_list(
    provider: Option<ModelProvider>,
    configured: Option<ProviderHeaders>,
    session_id: Seq<u8>,
) -> Seq<(Seq<char>, Seq<char>)> {
    match provider {
        None => seq![],
        Some(ModelProvider::OpenCode) => seq![("x-opencode-session"@, uuid_hyphenated(session_id))],
        Some(ModelProvider::OpenRouter) => {
            let (referer, title) = match configured {
                Some(h) => (opt_text(h.http_referer), opt_text(h.x_title)),
                None => (Some(OPENROUTER_REFERER@), Some(OPENROUTER_TITLE@)),
            };
            (match referer {
                Some(r) => seq![("HTTP-Referer"@, r)],
                None => seq![],
            }) + (match title {
                Some(t) => seq![("X-Title"@, t)],
                None => seq![],
            })
        },
    }
}

/// The character view of an optional string.
pub open spec fn opt_text(v: Option<String>) -> Option<Seq<char>> {
    match v {
        Some(s) => Some(s@),
        None => None,
    }
}

/// The character views of header pairs.
pub open spec fn header_texts(v: Seq<(String, String)>) -> Seq<(Seq<char>, Seq<char>)> {
    v.map_values(|p: (String, String)| (p.0@, p.1@))
}

/// Routing for OpenRouter's Responses API: none when every provider is
/// allowed (no list, or just `all`), otherwise only the listed ones.
pub open spec fn routing_of(providers: Seq<Seq<char>>) -> Option<Seq<Seq<char>>> {
    if providers.len() == 0 || (providers.len() == 1 && providers[0] == "all"@) {
        None
    } else {
        Some(providers)
    }
}

/// The character views of a sequence of strings.
pub open spec fn texts_of(v: Seq<String>) -> Seq<Seq<char>> {
    v.map_values(|s: String| s@)
}

fn clone_strings(v: &[String]) -> (r: Vec<String>)
    ensures
        texts_of(r@) == texts_of(v@),
{
    let mut out: Vec<String> = Vec::new();
    let mut i: usize = 0;
    while i < v.len()
        invariant
            i <= v@.len(),
            texts_of(out@) == texts_of(v@.subrange(0, i as int)),
        decreases v@.len() - i,
    {
        let c = v[i].clone();
        let ghost before = out@;
        out.push(c);
        assert(texts_of(out@) =~= texts_of(before).push(c@));
        assert(texts_of(v@.subrange(0, i + 1)) =~= texts_of(v@.subrange(0, i as int)).push(v@[i as int]@));
        assert(texts_of(out@) =~= texts_of(v@.subrange(0, i + 1)));
        i += 1;
    }
    assert(v@.subrange(0, v@.len() as int) =~= v@);
    out
}

/// The default OpenRouter attribution headers.
pub fn default_openrouter_headers() -> (r: ProviderHeaders)
    ensures
        opt_text(r.http_referer) == Some(OPENROUTER_REFERER@),
        opt_text(r.x_title) == Some(OPENROUTER_TITLE@),
{
    ProviderHeaders {
        http_referer: Some(<String as StringExecFns>::from_str(OPENROUTER_REFERER)),
        x_title: Some(<String as StringExecFns>::from_str(OPENROUTER_TITLE)),
    }
}

/// Routing for OpenRouter's Responses API.
pub fn provider_routing_config(providers: &[String]) -> (r: Option<ProviderConfig>)
    ensures
        match r {
            Some(c) => routing_of(texts_of(providers@)) == Some(texts_of(c.only@)),
            None => routing_of(texts_of(providers@)) is None,
        },
{
    if providers.len() == 0 {
        return None;
    }
    if providers.len() == 1 {
        proof {
            encode_utf8_decode_utf8(providers@[0]@);
            encode_utf8_decode_utf8("all"@);
        }
        if slice_eq(providers[0].as_str().as_bytes(), "all".as_bytes()) {
            return None;
        }
    }
    Some(ProviderConfig { only: clone_strings(providers) })
}

impl<'a> ProviderStrategy<'a> {
    /// The strategy for a model: the configured provider, else the one the
    /// base URL points to.
    pub fn from_config(config: &'a ModelSettings) -> (r: Self)
        ensures
            r.config == config,
            r.provider == match config.provider {
                Some(p) => Some(p),
                None => inferred_provider(config.base_url@),
            },
    {
        let provider = match config.provider {
            Some(p) => Some(p),
            None => infer_provider(config.base_url.as_str()),
        };
        ProviderStrategy { config, provider }
    }

    pub fn provider(&self) -> (r: Option<ModelProvider>)
        ensures
            r == self.provider,
    {
        self.provider
    }

    /// The attribution headers for OpenRouter: the configured ones, or the
    /// defaults when none are configured.
    pub fn openrouter_headers(&self) -> (r: ProviderHeaders)
        ensures
            opt_text(r.http_referer) == match self.config.provider_headers {
                Some(h) => opt_text(h.http_referer),
                None => Some(OPENROUTER_REFERER@),
            },
            opt_text(r.x_title) == match self.config.provider_headers {
                Some(h) => opt_text(h.x_title),
                None => Some(OPENROUTER_TITLE@),
            },
    {
        match &self.config.provider_headers {
            Some(h) => ProviderHeaders { http_referer: h.http_referer.clone(), x_title: h.x_title.clone() },
            None => default_openrouter_headers(),
        }
    }

    /// The provider headers for a request of the session `session_id`.
    pub fn provider_headers(&self, session_id: &[u8; 16]) -> (r: Vec<(String, String)>)
        ensures
            header_texts(r@) == provider_header_list(self.provider, self.config.provider_headers, session_id@),
    {
        let mut out: Vec<(String, String)> = Vec::new();
        match self.provider {
            None => {},
            Some(ModelProvider::OpenCode) => {
                out.push((<String as StringExecFns>::from_str("x-opencode-session"), uuid_text(session_id)));
            },
            Some(ModelProvider::OpenRouter) => {
                let headers = self.openrouter_headers();
                let referer = headers.http_referer;
                let title = headers.x_title;
                if let Some(r) = referer {
                    out.push((<String as StringExecFns>::from_str("HTTP-Referer"), r));
                }
                if let Some(t) = title {
                    out.push((<String as StringExecFns>::from_str("X-Title"), t));
                }
            },
        }
        assert(header_texts(out@) =~= provider_header_list(
            self.provider,
            self.config.provider_headers,
            session_id@,
        ));
        out
    }

    /// Provider routing for the Responses API, OpenRouter only.
    pub fn responses_provider_config(&self) -> (r: Option<ProviderConfig>)
        ensures
            match r {
                Some(c) => self.provider == Some(ModelProvider::OpenRouter) && routing_of(
                    texts_of(self.config.providers@),
                ) == Some(texts_of(c.only@)),
                None => self.provider != Some(ModelProvider::OpenRouter) || routing_of(
                    texts_of(self.config.providers@),
                ) is None,
            },
    {
        if self.provider != Some(ModelProvider::OpenRouter) {
            return None;
        }
        provider_routing_config(self.config.providers.as_slice())
    }

    /// Adapt Chat Completions messages for providers: developer messages
    /// become user messages, and assistant tool-call messages without
    /// reasoning content get a placeholder, which reasoning models in
    /// thinking mode need to round-trip.
    pub fn transform_chat_messages(messages: &mut Vec<ChatMessage>)
        ensures
            final(messages)@.len() == old(messages)@.len(),
            forall|i: int| 0 <= i < final(messages)@.len() ==> transformed(#[trigger] final(messages)@[i], old(messages)@[i]),
    {
        demote_developer_to_user(messages);
        let ghost demoted = messages@;
        let mut i: usize = 0;
        while i < messages.len()
            invariant
                i <= messages@.len(),
                messages@.len() == demoted.len(),
                demoted.len() == old(messages)@.len(),
                forall|k: int| 0 <= k < demoted.len() ==> #[trigger] demoted[k] == demoted_message(old(messages)@[k]),
                forall|k: int| 0 <= k < i ==> transformed(#[trigger] messages@[k], old(messages)@[k]),
                forall|k: int| i <= k < messages@.len() ==> #[trigger] messages@[k] == demoted[k],
            decreases messages@.len() - i,
        {
            if messages[i].role == Role::Assistant && messages[i].tool_calls.is_some()
                && messages[i].reasoning_content.is_none() {
                messages[i].reasoning_content = Some(
                    <String as StringExecFns>::from_str(REASONING_CONTENT_PLACEHOLDER),
                );
            }
            i += 1;
        }
    }
}

/// A message with the `developer` role given the `user` role instead.
pub open spec fn demoted_message(m: ChatMessage) -> ChatMessage {
    if m.role == Role::Developer {
        ChatMessage { role: Role::User, ..m }
    } else {
        m
    }
}

/// `n` is the message `m` after the provider transformation: demoted, and
/// an assistant tool-call message without reasoning content gets the
/// placeholder.
pub open spec fn transformed(n: ChatMessage, m: ChatMessage) -> bool {
    let d = demoted_message(m);
    if d.role == Role::Assistant && d.tool_calls is Some && d.reasoning_content is None {
        &&& n == ChatMessage { reasoning_content: n.reasoning_content, ..d }
        &&& n.reasoning_content matches Some(r) && r@ == REASONING_CONTENT_PLACEHOLDER@
    } else {
        n == d
    }
}

/// A transformed conversation keeps its length and order, holds no
/// developer message any more (each became a user message), and keeps every
/// other role.
pub proof fn lemma_transform_leaves_no_developer(before: Seq<ChatMessage>, after: Seq<ChatMessage>)
    requires
        after.len() == before.len(),
        forall|i: int| 0 <= i < after.len() ==> transformed(#[trigger] after[i], before[i]),
    ensures
        forall|i: int|
            0 <= i < after.len() ==> (#[trigger] after[i]).role != Role::Developer && (before[i].role
                == Role::Developer ==> after[i].role == Role::User) && (before[i].role != Role::Developer
                ==> after[i].role == before[i].role),
{
    assert forall|i: int| 0 <= i < after.len() implies (#[trigger] after[i]).role != Role::Developer && (
    before[i].role == Role::Developer ==> after[i].role == Role::User) && (before[i].role != Role::Developer
        ==> after[i].role == before[i].role) by {
        assert(transformed(after[i], before[i]));
    }
}

/// Rewrite `developer` role messages to `user` role for providers that
/// don't support the `developer` role in Chat Completions.  Each context
/// piece stays its own message.
pub fn demote_developer_to_user(messages: &mut Vec<ChatMessage>)
    ensures
        final(messages)@.len() == old(messages)@.len(),
        forall|i: int|
            0 <= i < final(messages)@.len() ==> #[trigger] final(messages)@[i] == demoted_message(old(messages)@[i]),
{
    let mut i: usize = 0;
    while i < messages.len()
        invariant
            i <= messages@.len(),
            messages@.len() == old(messages)@.len(),
            forall|k: int| 0 <= k < i ==> #[trigger] messages@[k] == demoted_message(old(messages)@[k]),
            forall|k: int| i <= k < messages@.len() ==> #[trigger] messages@[k] == old(messages)@[k],
        decreases messages@.len() - i,
    {
        if messages[i].role == Role::Developer {
            messages[i].role = Role::User;
        }
        i += 1;
    }
}

} // verus!
