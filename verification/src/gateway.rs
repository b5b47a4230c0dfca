//! The inference gateway's two front doors share one generation
//! routine: compose a role-tagged conversation, run the model with a
//! bounded token budget, and collect the produced tokens. The network
//! door additionally maps any failure to a server-error reply whose
//! body is the error's text; the local door hands the same error back
//! as a plain failure value.

use vstd::prelude::*;

verus! {

use crate::errors::{HubError, message_spec};

/// A request to the gateway, as both doors accept it.
#[derive(Debug)]
pub struct AiRequest {
    pub prompt: String,
    pub system_context: String,
}

/// A successful answer, as both doors return it.
#[derive(Debug)]
pub struct AiResponse {
    pub response: String,
}

/// The bound on generated tokens for one continuation.
pub const MAX_GENERATED_TOKENS: usize = 1024;

/// The role-tagged conversation handed to the model: a system turn,
/// a user turn, and an opened assistant turn.
pub open spec fn chatml_prompt(system_context: Seq<char>, prompt: Seq<char>) -> Seq<char> {
    "<|im_start|>system\n"@ + system_context + "<|im_end|>\n<|im_start|>user\n"@ + prompt
        + "<|im_end|>\n<|im_start|>assistant\n"@
}

/// Composes the conversation for one request.
pub fn compose_prompt(prompt: &str, system_context: &str) -> (r: String)
    ensures
        r@ == chatml_prompt(system_context@, prompt@),
{
    let mut m = "<|im_start|>system\n".to_owned();
    m.append(system_context);
    m.append("<|im_end|>\n<|im_start|>user\n");
    m.append(prompt);
    m.append("<|im_end|>\n<|im_start|>assistant\n");
    assert(m@ =~= chatml_prompt(system_context@, prompt@));
    m
}

/// What the generation session reports back, one event per callback:
/// a snapshot token carrying produced text, or anything else.
#[derive(Debug)]
pub enum TokenEvent {
    Snapshot(String),
    Other,
}

/// The text carried by a sequence of generation events, in order.
pub open spec fn collected(events: Seq<TokenEvent>) -> Seq<char>
    decreases events.len(),
{
    if events.len() == 0 {
        Seq::<char>::empty()
    } else {
        collected(events.drop_last()) + match events.last() {
            TokenEvent::Snapshot(t) => t@,
            TokenEvent::Other => Seq::<char>::empty(),
        }
    }
}

/// Collects the continuation text from the generation events. A
/// session that failed part-way simply produced fewer events: whatever
/// partial text was produced is returned, and no failure is raised
/// from this step.
pub fn collect_response(events: &Vec<TokenEvent>) -> (r: String)
    ensures
        r@ == collected(events@),
{
    let mut r = String::new();
    let mut i: usize = 0;
    while i < events.len()
        invariant
            0 <= i <= events@.len(),
            r@ == collected(events@.take(i as int)),
        decreases events@.len() - i,
    {
        match &events[i] {
            TokenEvent::Snapshot(t) => {
                r.append(t.as_str());
            },
            TokenEvent::Other => {},
        }
        proof {
            assert(events@.take(i + 1).drop_last() =~= events@.take(i as int));
            assert(events@.take(i + 1).last() == events@[i as int]);
        }
        i = i + 1;
    }
    assert(events@.take(events@.len() as int) =~= events@);
    r
}

/// The network door's reply: the answer on success, or a server error
/// carrying the failure's text as its body.
#[derive(Debug)]
pub enum HttpReply {
    Success { response: AiResponse },
    Failure { status: u16, body: String },
}

/// Maps the shared routine's result onto the network reply. Success
/// answers with the continuation; any loader or generation failure
/// becomes a server error whose body is the error's (never empty)
/// text — the very text the local door hands back, so the two doors
/// report the same condition identically.
pub fn ai_http_reply(result: Result<String, HubError>) -> (reply: HttpReply)
    ensures
        result matches Ok(t) ==> (reply matches HttpReply::Success { response } && response.response@
            == t@),
        result matches Err(e) ==> (reply matches HttpReply::Failure { status, body } && status == 500
            && body@ == message_spec(e) && body@.len() > 0),
{
    match result {
        Ok(t) => HttpReply::Success { response: AiResponse { response: t } },
        Err(e) => HttpReply::Failure { status: 500, body: e.message() },
    }
}

} // verus!
