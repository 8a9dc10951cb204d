//! The assistant's one-shot operations from the command line: answering a
//! question about the cluster and writing a service configuration. The
//! caller sends the messages to the model.

use vstd::prelude::*;

use crate::ai::backend::{chat_view, ChatMessage, Role};
use crate::text::{
    chars_of, find, find_chars_from, find_from, lemma_find_from_in_bounds, owned, push_str, string_of, trim,
    trim_end_char, trimmed,
};

verus! {

/// How the assistant is told to answer questions about the cluster.
pub const ASK_SYSTEM_PROMPT: &'static str = "You are Orca AI, the ops assistant for an orca container orchestrator cluster.\nOrca is NOT Kubernetes — it has its own CLI. Available commands:\n  orca status                  — show all services\n  orca logs <service> --tail N — view container logs\n  orca scale <service> <n>     — scale replicas\n  orca stop <service>          — stop a service\n  orca deploy                  — redeploy all services\n  orca promote <service>       — promote canary to stable\n  orca tui                     — terminal dashboard\n\nDiagnose issues using the cluster status and logs provided. Suggest fixes as exact `orca` CLI commands. Never suggest kubectl, docker, or k8s commands. Be concise.";

/// How the assistant is told to write a service configuration.
pub const GENERATE_SYSTEM_PROMPT: &'static str = "Generate a valid orca service.toml. Output ONLY a ```toml code block.\nUse this exact format:\n```toml\n[[service]]\nname = \"my-service\"\nimage = \"image:tag\"\nreplicas = 1\nport = 8080\ndomain = \"app.example.com\"\nhealth = \"/healthz\"\n\n[service.env]\nKEY = \"value\"\n\n[service.resources]\nmemory = \"512Mi\"\ncpu = 1.0\n\n[service.volume]\npath = \"/data\"\n```\nOnly use these fields: name, image, replicas, port, domain, health, env, resources (memory/cpu), volume (path), network, aliases, internal, placement (node). Do not invent fields. No text outside the code block.";

/// The AI section of the cluster configuration.
pub struct AiSettings {
    pub provider: String,
    pub endpoint: Option<String>,
    pub model: Option<String>,
    pub api_key: Option<String>,
}

/// Why no model can be asked.
#[derive(Clone, Copy, Debug, PartialEq, Eq, Structural)]
pub enum SettingsError {
    NoEndpoint,
    NoModel,
}

impl SettingsError {
    /// What the operator is told.
    pub fn message(self) -> (res: &'static str)
        ensures
            res@ == match self {
                SettingsError::NoEndpoint => "No AI endpoint configured in cluster.toml [ai] section"@,
                SettingsError::NoModel => "No AI model configured in cluster.toml [ai] section"@,
            },
    {
        match self {
            SettingsError::NoEndpoint => "No AI endpoint configured in cluster.toml [ai] section",
            SettingsError::NoModel => "No AI model configured in cluster.toml [ai] section",
        }
    }
}

/// Where and which model to ask, with the key if any: the endpoint and the
/// model must both be configured, the endpoint first.
pub fn backend_settings(cfg: &AiSettings) -> (res: Result<(String, String, Option<String>), SettingsError>)
    ensures
        match res {
            Ok((e, m, k)) => cfg.endpoint matches Some(ce) && cfg.model matches Some(cm) && e@ == ce@
                && m@ == cm@ && crate::agent::workload::opt_chars(k) == crate::agent::workload::opt_chars(
                cfg.api_key,
            ),
            Err(SettingsError::NoEndpoint) => cfg.endpoint is None,
            Err(SettingsError::NoModel) => cfg.endpoint is Some && cfg.model is None,
        },
{
    let endpoint = match &cfg.endpoint {
        Some(e) => owned(e.as_str()),
        None => {
            return Err(SettingsError::NoEndpoint);
        },
    };
    let model = match &cfg.model {
        Some(m) => owned(m.as_str()),
        None => {
            return Err(SettingsError::NoModel);
        },
    };
    Ok((endpoint, model, crate::agent::workload::copy_opt(&cfg.api_key)))
}

/// The chat-completions URL of an OpenAI-compatible endpoint: trailing
/// slashes dropped, then `/v1/chat/completions`.
pub fn chat_url(endpoint: &str) -> (res: String)
    ensures
        res@ == trim_end_char(endpoint@, '/') + "/v1/chat/completions"@,
{
    let cs = chars_of(endpoint);
    let mut hi: usize = cs.len();
    assert(cs@.take(hi as int) =~= endpoint@);
    while hi > 0 && cs[hi - 1] == '/'
        invariant
            cs@ == endpoint@,
            hi <= cs.len(),
            trim_end_char(endpoint@, '/') == trim_end_char(cs@.take(hi as int), '/'),
        decreases hi,
    {
        assert(cs@.take(hi as int).drop_last() =~= cs@.take(hi - 1));
        hi = hi - 1;
    }
    proof {
        if hi > 0 {
            assert(cs@.take(hi as int).last() != '/');
        }
    }
    let mut url = string_of(&cs, 0, hi);
    assert(url@ =~= cs@.take(hi as int));
    push_str(&mut url, "/v1/chat/completions");
    url
}

/// What the model is asked about the cluster.
pub open spec fn ask_text(question: Seq<char>, status: Seq<char>, logs: Seq<char>) -> Seq<char> {
    "Context:\n"@ + (if status.len() == 0 {
        "(no status available — server may not be running)"@
    } else {
        status
    }) + "\n\nLogs:\n"@ + (if logs.len() == 0 {
        "(no recent logs)"@
    } else {
        logs
    }) + "\n\nQuestion: "@ + question
}

/// The messages that ask the model a question about the cluster, given its
/// status and recent logs (either may be empty).
pub fn ask_messages(question: &str, status: &str, logs: &str) -> (res: Vec<ChatMessage>)
    ensures
        chat_view(res@) == seq![(Role::System, ASK_SYSTEM_PROMPT@), (Role::User, ask_text(question@, status@, logs@))],
{
    let mut text = owned("Context:\n");
    if status.is_empty() {
        push_str(&mut text, "(no status available — server may not be running)");
    } else {
        push_str(&mut text, status);
    }
    push_str(&mut text, "\n\nLogs:\n");
    if logs.is_empty() {
        push_str(&mut text, "(no recent logs)");
    } else {
        push_str(&mut text, logs);
    }
    push_str(&mut text, "\n\nQuestion: ");
    push_str(&mut text, question);
    let mut res: Vec<ChatMessage> = Vec::new();
    res.push(ChatMessage { role: Role::System, content: owned(ASK_SYSTEM_PROMPT) });
    res.push(ChatMessage { role: Role::User, content: text });
    assert(chat_view(res@) =~= seq![(Role::System, ASK_SYSTEM_PROMPT@), (Role::User, ask_text(question@, status@, logs@))]);
    res
}

/// The messages that ask the model for a service configuration.
pub fn generate_messages(description: &str) -> (res: Vec<ChatMessage>)
    ensures
        chat_view(res@) == seq![(Role::System, GENERATE_SYSTEM_PROMPT@), (Role::User, description@)],
{
    let mut res: Vec<ChatMessage> = Vec::new();
    res.push(ChatMessage { role: Role::System, content: owned(GENERATE_SYSTEM_PROMPT) });
    res.push(ChatMessage { role: Role::User, content: owned(description) });
    assert(chat_view(res@) =~= seq![(Role::System, GENERATE_SYSTEM_PROMPT@), (Role::User, description@)]);
    res
}

/// The contents of the first ```` ```toml ```` block of a model's answer,
/// trimmed; the answer unchanged if it has no closed one.
pub open spec fn toml_block(content: Seq<char>) -> Seq<char> {
    match find(content, "```toml"@) {
        Some(start) => {
            let after = content.skip(start + 7);
            match find(after, "```"@) {
                Some(end) => trim(after.take(end)),
                None => content,
            }
        },
        None => content,
    }
}

/// The configuration in a model's answer.
pub fn extract_toml_block(content: &str) -> (res: String)
    ensures
        res@ == toml_block(content@),
{
    let cs = chars_of(content);
    let open = chars_of("```toml");
    let close = chars_of("```");
    proof {
        reveal_strlit("```toml");
        reveal_strlit("```");
    }
    let start = match find_chars_from(&cs, &open, 0) {
        Some(s) => s,
        None => {
            return owned(content);
        },
    };
    proof {
        lemma_find_from_in_bounds(cs@, open@, 0);
        assert(find_from(cs@, open@, 0) == Some(start as int));
        assert(open@.len() == 7);
        assert(start + 7 <= cs.len());
    }
    let after = string_of(&cs, start + 7, cs.len());
    assert(after@ =~= content@.skip(start + 7));
    let acs = chars_of(after.as_str());
    match find_chars_from(&acs, &close, 0) {
        Some(end) => {
            proof {
                lemma_find_from_in_bounds(acs@, close@, 0);
            }
            let body = string_of(&acs, 0, end);
            assert(body@ =~= after@.take(end as int));
            trimmed(body.as_str())
        },
        None => owned(content),
    }
}

/// The answer a model's reply carries: the first choice's text, or empty.
pub fn first_choice(contents: &Vec<String>) -> (res: String)
    ensures
        res@ == if contents@.len() > 0 { contents@[0]@ } else { Seq::<char>::empty() },
{
    if contents.len() > 0 {
        owned(contents[0].as_str())
    } else {
        String::new()
    }
}

} // verus!
