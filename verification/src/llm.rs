//! The language-model ant's decisions: its settings, which provider answers,
//! the conversation sent, the wording of each failure, and the bounded
//! history of past exchanges.
use vstd::prelude::*;
use crate::text::{owned, str_eq};

verus! {

/// How many past exchanges are kept and sent along.
pub const HISTORY_LIMIT: usize = 10;

/// How many characters of an error reply's body are quoted.
pub const BODY_PREVIEW_CHARS: usize = 200;

/// Which model to ask and how.
pub struct LlmConfig {
    pub provider: String,
    pub model: String,
    pub url: String,
    pub api_key_env: String,
    pub system_prompt: String,
    pub max_tokens: u32,
    pub timeout_secs: u64,
}

/// The provider used when the configuration names none.
pub fn d_provider() -> (r: String)
    ensures
        r@ == "ollama"@,
{
    owned("ollama")
}

/// The model used when the configuration names none.
pub fn d_model() -> (r: String)
    ensures
        r@ == "gemma4"@,
{
    owned("gemma4")
}

/// The endpoint used when the configuration names none.
pub fn d_url() -> (r: String)
    ensures
        r@ == "http://localhost:11434/api/chat"@,
{
    owned("http://localhost:11434/api/chat")
}

/// No key variable unless the configuration names one.
pub fn d_key_env() -> (r: String)
    ensures
        r@ == ""@,
{
    owned("")
}

/// The system prompt used when the configuration gives none.
pub const DEFAULT_PROMPT: &'static str = "You are Jarvina, a concise voice assistant. One sentence replies ONLY. Never more than 15 words. No markdown.";

/// The system prompt used when the configuration gives none (`DEFAULT_PROMPT`).
pub fn d_prompt() -> (r: String)
    ensures
        r@ == DEFAULT_PROMPT@,
{
    owned(DEFAULT_PROMPT)
}

/// The reply length limit used when the configuration gives none.
pub fn d_max_tokens() -> (r: u32)
    ensures
        r == 50,
{
    50
}

/// The request timeout used when the configuration gives none.
pub fn d_timeout_secs() -> (r: u64)
    ensures
        r == 30,
{
    30
}

impl Default for LlmConfig {
    fn default() -> (r: Self)
        ensures
            r.provider@ == "ollama"@,
            r.model@ == "gemma4"@,
            r.url@ == "http://localhost:11434/api/chat"@,
            r.api_key_env@ == ""@,
            r.system_prompt@ == DEFAULT_PROMPT@,
            r.max_tokens == 50,
            r.timeout_secs == 30,
    {
        LlmConfig {
            provider: d_provider(),
            model: d_model(),
            url: d_url(),
            api_key_env: d_key_env(),
            system_prompt: d_prompt(),
            max_tokens: d_max_tokens(),
            timeout_secs: d_timeout_secs(),
        }
    }
}

// ---------------------------------------------------------------------------
// The conversation.
// ---------------------------------------------------------------------------

/// One message of a chat request.
pub struct ChatMessage {
    pub role: String,
    pub content: String,
}

/// A message as (role, content).
pub open spec fn message_view(m: ChatMessage) -> (Seq<char>, Seq<char>) {
    (m.role@, m.content@)
}

/// The past exchanges as (what was heard, what was replied).
pub open spec fn exchanges_view(h: Seq<(String, String)>) -> Seq<(Seq<char>, Seq<char>)> {
    h.map_values(|e: (String, String)| (e.0@, e.1@))
}

/// Each past exchange as a user message and an assistant message, in order.
pub open spec fn history_messages(h: Seq<(Seq<char>, Seq<char>)>) -> Seq<(Seq<char>, Seq<char>)>
    decreases h.len(),
{
    if h.len() == 0 {
        Seq::empty()
    } else {
        history_messages(h.drop_last()) + seq![("user"@, h.last().0), ("assistant"@, h.last().1)]
    }
}

/// The messages sent: the system prompt first where the provider takes it
/// in the list, then the past exchanges, then the new text from the user.
pub open spec fn conversation_seq(
    system: Option<Seq<char>>,
    h: Seq<(Seq<char>, Seq<char>)>,
    text: Seq<char>,
) -> Seq<(Seq<char>, Seq<char>)> {
    let head = match system {
        Some(p) => seq![("system"@, p)],
        None => Seq::empty(),
    };
    head + history_messages(h) + seq![("user"@, text)]
}

proof fn lemma_history_messages_pairs(h: Seq<(Seq<char>, Seq<char>)>)
    ensures
        history_messages(h).len() == 2 * h.len(),
        forall|i: int|
            #![trigger h[i]]
            0 <= i < h.len() ==> history_messages(h)[2 * i] == ("user"@, h[i].0) && history_messages(h)[2 * i
                + 1] == ("assistant"@, h[i].1),
    decreases h.len(),
{
    if h.len() > 0 {
        lemma_history_messages_pairs(h.drop_last());
        let m = history_messages(h);
        let m0 = history_messages(h.drop_last());
        assert forall|i: int| #![trigger h[i]] 0 <= i < h.len() implies m[2 * i] == ("user"@, h[i].0) && m[2
            * i + 1] == ("assistant"@, h[i].1) by {
            if i < h.len() - 1 {
                assert(h[i] == h.drop_last()[i]);
                assert(m[2 * i] == m0[2 * i]);
                assert(m[2 * i + 1] == m0[2 * i + 1]);
            }
        }
    }
}

/// The messages of a request, told by position: the system prompt first
/// where there is one; then, for each past exchange in order, what was heard
/// as a user message followed by what was replied as an assistant message;
/// and last the new text as a user message. Nothing else is sent.
pub proof fn lemma_conversation_layout(
    system: Option<Seq<char>>,
    h: Seq<(Seq<char>, Seq<char>)>,
    text: Seq<char>,
)
    ensures
        ({
            let c = conversation_seq(system, h, text);
            let off: int = if system is Some { 1 } else { 0 };
            &&& c.len() == off + 2 * h.len() + 1
            &&& (system matches Some(p) ==> c[0] == ("system"@, p))
            &&& forall|i: int|
                #![trigger h[i]]
                0 <= i < h.len() ==> c[off + 2 * i] == ("user"@, h[i].0) && c[off + 2 * i + 1] == (
                    "assistant"@,
                    h[i].1,
                )
            &&& c[c.len() - 1] == ("user"@, text)
        }),
{
    lemma_history_messages_pairs(h);
    let c = conversation_seq(system, h, text);
    let off: int = if system is Some { 1 } else { 0 };
    let head = match system {
        Some(p) => seq![("system"@, p)],
        None => Seq::<(Seq<char>, Seq<char>)>::empty(),
    };
    let hm = history_messages(h);
    assert(c == head + hm + seq![("user"@, text)]);
    assert(head.len() == off);
    assert forall|i: int| #![trigger h[i]] 0 <= i < h.len() implies c[off + 2 * i] == ("user"@, h[i].0)
        && c[off + 2 * i + 1] == ("assistant"@, h[i].1) by {
        assert(c[off + 2 * i] == hm[2 * i]);
        assert(c[off + 2 * i + 1] == hm[2 * i + 1]);
    }
}

fn message(role: &str, content: &str) -> (m: ChatMessage)
    ensures
        message_view(m) == (role@, content@),
{
    ChatMessage { role: owned(role), content: owned(content) }
}

/// The chat messages for a request (see `conversation_seq`).
pub fn conversation(system: Option<&str>, history: &Vec<(String, String)>, text: &str) -> (r: Vec<
    ChatMessage,
>)
    ensures
        r@.map_values(|m: ChatMessage| message_view(m)) == conversation_seq(
            match system {
                Some(p) => Some(p@),
                None => None,
            },
            exchanges_view(history@),
            text@,
        ),
{
    let ghost sys = match system {
        Some(p) => seq![("system"@, p@)],
        None => Seq::<(Seq<char>, Seq<char>)>::empty(),
    };
    let ghost hv = exchanges_view(history@);
    let mut r: Vec<ChatMessage> = Vec::new();
    match system {
        Some(p) => {
            r.push(message("system", p));
        },
        None => {},
    }
    assert(r@.map_values(|m: ChatMessage| message_view(m)) =~= sys + history_messages(hv.take(0)));
    let mut i: usize = 0;
    while i < history.len()
        invariant
            i <= history@.len(),
            hv == exchanges_view(history@),
            r@.map_values(|m: ChatMessage| message_view(m)) == sys + history_messages(hv.take(i as int)),
        decreases history@.len() - i,
    {
        let ghost before = r@.map_values(|m: ChatMessage| message_view(m));
        r.push(message("user", history[i].0.as_str()));
        r.push(message("assistant", history[i].1.as_str()));
        proof {
            assert(hv.take(i + 1).drop_last() =~= hv.take(i as int));
            assert(hv.take(i + 1).last() == hv[i as int]);
            assert(r@.map_values(|m: ChatMessage| message_view(m)) =~= before + seq![
                ("user"@, hv[i as int].0),
                ("assistant"@, hv[i as int].1),
            ]);
        }
        i += 1;
    }
    r.push(message("user", text));
    assert(hv.take(history@.len() as int) =~= hv);
    r
}

// ---------------------------------------------------------------------------
// Choosing the provider.
// ---------------------------------------------------------------------------

/// How a request goes out.
pub enum ThinkPlan {
    /// To a local Ollama server, the system prompt as the first message.
    Ollama { messages: Vec<ChatMessage> },
    /// To Anthropic with this key, the system prompt as its own field.
    Anthropic { api_key: String, messages: Vec<ChatMessage> },
    /// No request is made; this is the error.
    Fail { error: String },
}

/// The error for a provider the ant does not know.
pub open spec fn unknown_provider_seq(name: Seq<char>) -> Seq<char> {
    "Unknown provider: "@ + name
}

/// The error when the Anthropic key variable is empty or unset.
pub open spec fn missing_key_seq(env: Seq<char>) -> Seq<char> {
    "API key env var '"@ + env + "' not set — check Keychain + .bashrc"@
}

/// The request for `text` after `history`: Ollama and Anthropic by the
/// configured provider name, Anthropic only with a non-empty key (`api_key`
/// holds the key variable's value, empty when unset).
pub fn plan_think(cfg: &LlmConfig, text: &str, history: &Vec<(String, String)>, api_key: &str) -> (r:
    ThinkPlan)
    ensures
        cfg.provider@ == "ollama"@ ==> (r matches ThinkPlan::Ollama { messages } && messages@.map_values(
            |m: ChatMessage| message_view(m),
        ) == conversation_seq(Some(cfg.system_prompt@), exchanges_view(history@), text@)),
        cfg.provider@ == "anthropic"@ && api_key@.len() > 0 ==> (r matches ThinkPlan::Anthropic {
            api_key: k,
            messages,
        } && k@ == api_key@ && messages@.map_values(|m: ChatMessage| message_view(m)) == conversation_seq(
            None,
            exchanges_view(history@),
            text@,
        )),
        cfg.provider@ == "anthropic"@ && api_key@.len() == 0 ==> (r matches ThinkPlan::Fail { error }
            && error@ == missing_key_seq(cfg.api_key_env@)),
        cfg.provider@ != "ollama"@ && cfg.provider@ != "anthropic"@ ==> (r matches ThinkPlan::Fail {
            error,
        } && error@ == unknown_provider_seq(cfg.provider@)),
{
    proof {
        reveal_strlit("ollama");
        reveal_strlit("anthropic");
        assert("ollama"@.len() != "anthropic"@.len());
    }
    if str_eq(cfg.provider.as_str(), "ollama") {
        ThinkPlan::Ollama { messages: conversation(Some(cfg.system_prompt.as_str()), history, text) }
    } else if str_eq(cfg.provider.as_str(), "anthropic") {
        if crate::text::chars_of(api_key).len() == 0 {
            let mut e = owned("API key env var '");
            e.append(cfg.api_key_env.as_str());
            e.append("' not set — check Keychain + .bashrc");
            ThinkPlan::Fail { error: e }
        } else {
            ThinkPlan::Anthropic { api_key: owned(api_key), messages: conversation(None, history, text) }
        }
    } else {
        let mut e = owned("Unknown provider: ");
        e.append(cfg.provider.as_str());
        ThinkPlan::Fail { error: e }
    }
}

// ---------------------------------------------------------------------------
// Failures.
// ---------------------------------------------------------------------------

/// The two providers a request can go to.
pub enum Provider {
    Ollama,
    Anthropic,
}

/// What went wrong with a request; the texts are the outside error messages.
pub enum LlmFailure {
    /// The HTTP client could not be built.
    ClientBuild { detail: String },
    /// The request could not be sent or answered.
    Request { detail: String },
    /// The server answered with a non-success status (its text, and the body).
    Status { status: String, body: String },
    /// The answer was not JSON.
    Parse { detail: String },
    /// The JSON held no reply text where the provider puts it.
    NoContent,
}

/// The first `n` characters of `s` (all of it when shorter).
pub open spec fn preview_seq(s: Seq<char>, n: nat) -> Seq<char> {
    if s.len() <= n {
        s
    } else {
        s.take(n as int)
    }
}

/// The error text the ant reports for a failure.
pub open spec fn failure_seq(p: Provider, f: LlmFailure) -> Seq<char> {
    let name = match p {
        Provider::Ollama => "Ollama"@,
        Provider::Anthropic => "Anthropic"@,
    };
    match f {
        LlmFailure::ClientBuild { detail } => "Client build: "@ + detail@,
        LlmFailure::Request { detail } => name + " request: "@ + detail@,
        LlmFailure::Status { status, body } => match p {
            Provider::Ollama => name + " HTTP "@ + status@,
            Provider::Anthropic => name + " HTTP "@ + status@ + " — "@ + preview_seq(
                body@,
                BODY_PREVIEW_CHARS as nat,
            ),
        },
        LlmFailure::Parse { detail } => "Parse: "@ + detail@,
        LlmFailure::NoContent => match p {
            Provider::Ollama => "Ollama: no message.content in response"@,
            Provider::Anthropic => "Anthropic: no content[0].text in response"@,
        },
    }
}

/// The error text for a failure (see `failure_seq`).
pub fn failure_text(p: &Provider, f: &LlmFailure) -> (r: String)
    ensures
        r@ == failure_seq(*p, *f),
{
    let name = match p {
        Provider::Ollama => "Ollama",
        Provider::Anthropic => "Anthropic",
    };
    match f {
        LlmFailure::ClientBuild { detail } => {
            let mut r = owned("Client build: ");
            r.append(detail.as_str());
            r
        },
        LlmFailure::Request { detail } => {
            let mut r = owned(name);
            r.append(" request: ");
            r.append(detail.as_str());
            r
        },
        LlmFailure::Status { status, body } => {
            let mut r = owned(name);
            r.append(" HTTP ");
            r.append(status.as_str());
            match p {
                Provider::Ollama => {},
                Provider::Anthropic => {
                    r.append(" — ");
                    let v = crate::text::chars_of(body.as_str());
                    let n = if v.len() <= BODY_PREVIEW_CHARS {
                        v.len()
                    } else {
                        BODY_PREVIEW_CHARS
                    };
                    let pre = crate::text::string_of_range(&v, 0, n);
                    assert(pre@ =~= preview_seq(body@, BODY_PREVIEW_CHARS as nat));
                    r.append(pre.as_str());
                },
            }
            r
        },
        LlmFailure::Parse { detail } => {
            let mut r = owned("Parse: ");
            r.append(detail.as_str());
            r
        },
        LlmFailure::NoContent => match p {
            Provider::Ollama => owned("Ollama: no message.content in response"),
            Provider::Anthropic => owned("Anthropic: no content[0].text in response"),
        },
    }
}

// ---------------------------------------------------------------------------
// The history of exchanges.
// ---------------------------------------------------------------------------

/// The history after one more exchange: appended, and the oldest dropped
/// when more than `HISTORY_LIMIT` would be kept.
pub open spec fn record_seq<A>(h: Seq<A>, e: A) -> Seq<A> {
    if h.len() + 1 > HISTORY_LIMIT {
        h.push(e).drop_first()
    } else {
        h.push(e)
    }
}

/// The history after a run of exchanges, starting from none.
pub open spec fn history_after<A>(es: Seq<A>) -> Seq<A>
    decreases es.len(),
{
    if es.len() == 0 {
        Seq::empty()
    } else {
        record_seq(history_after(es.drop_last()), es.last())
    }
}

/// The past exchanges sent along with each request.
pub struct History {
    pub exchanges: Vec<(String, String)>,
}

impl History {
    /// No exchanges yet.
    pub fn new() -> (r: History)
        ensures
            r.exchanges@.len() == 0,
    {
        History { exchanges: Vec::new() }
    }

    /// Keeps a successful exchange (see `record_seq`).
    pub fn record(&mut self, heard: String, reply: String)
        ensures
            final(self).exchanges@ == record_seq(old(self).exchanges@, (heard, reply)),
    {
        self.exchanges.push((heard, reply));
        if self.exchanges.len() > HISTORY_LIMIT {
            self.exchanges.remove(0);
            assert(final(self).exchanges@ =~= old(self).exchanges@.push((heard, reply)).drop_first());
        }
    }
}

/// The history holds the newest exchanges, at most `HISTORY_LIMIT` of them,
/// oldest first: after any run of exchanges it is the run's last
/// `HISTORY_LIMIT` (all of them when fewer).
pub proof fn lemma_history_keeps_newest<A>(es: Seq<A>)
    ensures
        history_after(es) == es.skip(
            if es.len() > HISTORY_LIMIT {
                es.len() - HISTORY_LIMIT
            } else {
                0
            },
        ),
        history_after(es).len() <= HISTORY_LIMIT,
    decreases es.len(),
{
    if es.len() > 0 {
        let prev = es.drop_last();
        lemma_history_keeps_newest(prev);
        let k = if prev.len() > HISTORY_LIMIT {
            prev.len() - HISTORY_LIMIT
        } else {
            0
        };
        let k2 = if es.len() > HISTORY_LIMIT {
            es.len() - HISTORY_LIMIT
        } else {
            0
        };
        assert(prev.skip(k).push(es.last()) =~= es.skip(k));
        if prev.skip(k).len() + 1 > HISTORY_LIMIT {
            assert(es.skip(k).drop_first() =~= es.skip(k2));
        } else {
            assert(k == k2);
        }
    } else {
        assert(es.skip(0) =~= es);
    }
}

} // verus!
