//! What a chat request sends: its checks, the request id, the provider
//! with the chosen model first, the conversation behind the backend's own
//! system prompt, and the reasoning effort; also which API key a
//! connection test uses. Streaming the answer is the caller's.

use vstd::prelude::*;
use crate::errors::AppError;
use crate::llm_client::{build_system_prompt, system_prompt, LlmChatMessage, LlmContextFile};
use crate::llm_config::{copy_provider, provider_index, LlmConfig, LlmModelConfig, LlmProviderConfig};
use crate::sessions::kept;
use crate::text::{chars_eq_str, chars_of, string_of, trim, trim_chars};

verus! {

/// A chat request ready to stream.
#[derive(Debug)]
pub struct ChatRequest {
    pub request_id: String,
    pub provider: LlmProviderConfig,
    pub messages: Vec<LlmChatMessage>,
    pub reasoning_effort: Option<String>,
}

/// The first model of a provider with this wire id.
pub open spec fn model_position(models: Seq<LlmModelConfig>, model_id: Seq<char>) -> Option<int>
    decreases models.len(),
{
    if models.len() == 0 {
        None
    } else if models[0].model_id@ == model_id {
        Some(0)
    } else {
        match model_position(models.drop_first(), model_id) {
            Some(i) => Some(i + 1),
            None => None,
        }
    }
}

/// The models with the one at `i` swapped to the front.
pub open spec fn promoted(models: Seq<LlmModelConfig>, i: int) -> Seq<LlmModelConfig> {
    models.update(0, models[i]).update(i, models[0])
}

/// Whether a message is a client-supplied system message, which the
/// backend's own prompt replaces.
pub open spec fn is_system_message(m: LlmChatMessage) -> bool {
    m.role@ == "system"@
}

pub open spec fn drops_system() -> spec_fn(LlmChatMessage) -> bool {
    |m: LlmChatMessage| is_system_message(m)
}

/// The reasoning efforts a model is asked for; anything else is dropped.
pub open spec fn is_reasoning_effort(e: Seq<char>) -> bool {
    e == "low"@ || e == "medium"@ || e == "high"@
}

pub open spec fn is_validation(e: AppError, message: Seq<char>, field: Seq<char>) -> bool {
    e matches AppError::Validation { message: m, field: f } && m@ == message && f@ == field
}

fn validation(message: &str, field: &str) -> (e: AppError)
    ensures
        is_validation(e, message@, field@),
{
    AppError::Validation {
        message: string_of(chars_of(message).as_slice()),
        field: string_of(chars_of(field).as_slice()),
    }
}

fn model_at(models: &Vec<LlmModelConfig>, model_id: &str) -> (r: Option<usize>)
    ensures
        match r {
            Some(i) => i < models.len() && model_position(models@, model_id@) == Some(i as int),
            None => model_position(models@, model_id@) is None,
        },
{
    let mut i: usize = 0;
    proof {
        assert(models@.subrange(0, models@.len() as int) =~= models@);
    }
    while i < models.len()
        invariant
            i <= models.len(),
            model_position(models@, model_id@) == (match model_position(
                models@.subrange(i as int, models@.len() as int),
                model_id@,
            ) {
                Some(k) => Some(k + i),
                None => None::<int>,
            }),
        decreases models.len() - i,
    {
        proof {
            let rest = models@.subrange(i as int, models@.len() as int);
            assert(rest[0] == models@[i as int]);
            assert(rest.drop_first() =~= models@.subrange(i + 1, models@.len() as int));
        }
        if chars_eq_str(chars_of(models[i].model_id.as_str()).as_slice(), model_id) {
            return Some(i);
        }
        i = i + 1;
    }
    proof {
        assert(models@.subrange(i as int, models@.len() as int) =~= Seq::<LlmModelConfig>::empty());
    }
    None
}

fn promote(models: &mut Vec<LlmModelConfig>, i: usize)
    requires
        i < old(models).len(),
    ensures
        final(models)@ == promoted(old(models)@, i as int),
{
    if i == 0 {
        proof {
            assert(promoted(models@, 0) =~= models@);
        }
        return;
    }
    let ghost m = models@;
    let a = models.remove(i);
    let b = models.remove(0);
    models.insert(0, a);
    models.insert(i, b);
    proof {
        assert(models@ =~= promoted(m, i as int));
    }
}

/// The conversation sent: the backend's system prompt first, then the
/// client's messages in order without their own system messages.
pub open spec fn sent_messages(messages: Seq<LlmChatMessage>, context_files: Seq<LlmContextFile>) -> Seq<(Seq<char>, Seq<char>)> {
    seq![("system"@, system_prompt(context_files))] + kept(messages, drops_system()).map_values(
        |m: LlmChatMessage| (m.role@, m.content@),
    )
}

fn without_system(messages: Vec<LlmChatMessage>) -> (out: Vec<LlmChatMessage>)
    ensures
        out@ == kept(messages@, drops_system()),
{
    let ghost f = drops_system();
    let ghost mv = messages@;
    let mut src = messages;
    let mut out: Vec<LlmChatMessage> = Vec::new();
    let ghost mut n: int = 0;
    proof {
        assert(mv.take(0) =~= Seq::<LlmChatMessage>::empty());
    }
    while src.len() > 0
        invariant
            0 <= n <= mv.len(),
            src@ == mv.skip(n),
            out@ == kept(mv.take(n), f),
            f == drops_system(),
        decreases src.len(),
    {
        let m = src.remove(0);
        proof {
            assert(m == mv[n]);
            assert(src@ =~= mv.skip(n + 1));
            assert(mv.take(n + 1).drop_last() =~= mv.take(n));
        }
        if !chars_eq_str(chars_of(m.role.as_str()).as_slice(), "system") {
            out.push(m);
        }
        proof {
            n = n + 1;
        }
    }
    proof {
        assert(mv.take(n) =~= mv);
    }
    out
}

/// Prepares a chat request, checking in order that there are messages,
/// that the provider is configured, that it offers the model and that its
/// API key is stored (given as `api_key`). The request id is the client's
/// where it is not blank, else `fresh_id`; the provider has the chosen
/// model moved to the front (see `promoted`); the conversation starts with
/// the backend's system prompt (see `sent_messages`); a reasoning effort
/// other than low, medium or high is dropped.
pub fn prepare_chat(
    config: &LlmConfig,
    provider_id: &str,
    model_id: &str,
    messages: Vec<LlmChatMessage>,
    context_files: &Vec<LlmContextFile>,
    reasoning_effort: Option<String>,
    api_key: Option<String>,
    request_id: Option<String>,
    fresh_id: String,
) -> (r: Result<(ChatRequest, String), AppError>)
    ensures
        messages@.len() == 0 ==> r is Err && is_validation(
            r->Err_0,
            "chat messages must not be empty"@,
            "messages"@,
        ),
        messages@.len() > 0 ==> match provider_index(config.providers@, provider_id@) {
            None => r is Err && is_validation(r->Err_0, "provider not found"@, "providerId"@),
            Some(pi) => match model_position(config.providers@[pi].models@, model_id@) {
            None => r is Err && is_validation(r->Err_0, "model not found on provider"@, "modelId"@),
            Some(mi) => match api_key {
                None => r is Err && is_validation(
                    r->Err_0,
                    "API key is not configured for this provider"@,
                    "apiKey"@,
                ),
                Some(k) => r matches Ok((req, key)) && key == k && req.request_id@ == (match request_id {
                    Some(id) => if trim(id@).len() > 0 {
                        id@
                    } else {
                        fresh_id@
                    },
                    None => fresh_id@,
                }) && req.provider.id == config.providers@[pi].id && req.provider.name
                    == config.providers@[pi].name && req.provider.base_url
                    == config.providers@[pi].base_url && req.provider.kind
                    == config.providers@[pi].kind && req.provider.api_version
                    == config.providers@[pi].api_version && req.provider.models@ == promoted(
                    config.providers@[pi].models@,
                    mi,
                ) && req.messages@.map_values(|m: LlmChatMessage| (m.role@, m.content@))
                    == sent_messages(messages@, context_files@) && req.reasoning_effort == match reasoning_effort {
                    Some(e) => if is_reasoning_effort(e@) {
                        Some(e)
                    } else {
                        None
                    },
                    None => None,
                },
            },
        },
        },
{
    if messages.len() == 0 {
        return Err(validation("chat messages must not be empty", "messages"));
    }
    let p = match config.provider(provider_id) {
        None => return Err(validation("provider not found", "providerId")),
        Some(p) => p,
    };
    let ghost pi = provider_index(config.providers@, provider_id@)->Some_0;
    let mi = match model_at(&p.models, model_id) {
        None => return Err(validation("model not found on provider", "modelId")),
        Some(i) => i,
    };
    let key = match api_key {
        None => return Err(validation("API key is not configured for this provider", "apiKey")),
        Some(k) => k,
    };
    let id = match request_id {
        Some(id) => if trim_chars(chars_of(id.as_str()).as_slice()).len() > 0 {
            id
        } else {
            fresh_id
        },
        None => fresh_id,
    };
    let mut provider = copy_provider(p);
    let mut models: Vec<LlmModelConfig> = Vec::new();
    std::mem::swap(&mut models, &mut provider.models);
    promote(&mut models, mi);
    provider.models = models;
    let prompt = build_system_prompt(context_files.as_slice());
    let rest = without_system(messages);
    let mut sent: Vec<LlmChatMessage> = Vec::new();
    sent.push(LlmChatMessage { role: string_of(chars_of("system").as_slice()), content: prompt });
    let ghost head = sent@;
    let mut rest = rest;
    let ghost rv = rest@;
    let ghost mut n: int = 0;
    while rest.len() > 0
        invariant
            0 <= n <= rv.len(),
            rest@ == rv.skip(n),
            sent@ == head + rv.take(n),
        decreases rest.len(),
    {
        let m = rest.remove(0);
        proof {
            assert(m == rv[n]);
            assert(rest@ =~= rv.skip(n + 1));
        }
        sent.push(m);
        proof {
            assert(rv.take(n + 1) =~= rv.take(n).push(rv[n]));
            n = n + 1;
        }
    }
    proof {
        assert(rv.take(n) =~= rv);
        assert(sent@.map_values(|m: LlmChatMessage| (m.role@, m.content@)) =~= sent_messages(
            messages@,
            context_files@,
        ));
    }
    let effort = match reasoning_effort {
        Some(e) => {
            let c = chars_of(e.as_str());
            if chars_eq_str(c.as_slice(), "low") || chars_eq_str(c.as_slice(), "medium")
                || chars_eq_str(c.as_slice(), "high") {
                Some(e)
            } else {
                None
            }
        },
        None => None,
    };
    Ok((ChatRequest { request_id: id, provider, messages: sent, reasoning_effort: effort }, key))
}

/// The key a connection test or model listing uses: the one given, where it
/// is not empty, else the stored one; none at all is refused.
pub fn effective_api_key(given: Option<String>, stored: Option<String>) -> (r: Result<String, AppError>)
    ensures
        given matches Some(g) && g@.len() > 0 ==> r == Ok::<String, AppError>(given->Some_0),
        !(given matches Some(g) && g@.len() > 0) ==> match stored {
            Some(s) => if s@.len() > 0 {
                r == Ok::<String, AppError>(s)
            } else {
                r is Err && is_validation(r->Err_0, "API key is required"@, "apiKey"@)
            },
            None => r is Err && is_validation(r->Err_0, "API key is required"@, "apiKey"@),
        },
{
    match given {
        Some(g) => if chars_of(g.as_str()).len() > 0 {
            return Ok(g);
        },
        None => {},
    }
    match stored {
        Some(s) => if chars_of(s.as_str()).len() > 0 {
            Ok(s)
        } else {
            Err(validation("API key is required", "apiKey"))
        },
        None => Err(validation("API key is required", "apiKey")),
    }
}

} // verus!
