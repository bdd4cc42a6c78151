//! Talking to the local model: what is sent, and what is made of the reply.

use crate::text::{
    is_blank, is_white_space, law_trim, lemma_trim_twice, of_chars, to_chars, trim, trim_chars,
};
use vstd::prelude::*;

verus! {

/// Where LM Studio listens.
pub const LM_ENDPOINT: &'static str = "http://localhost:1234/v1/chat/completions";

/// The model that is asked.
pub const LM_MODEL: &'static str = "qwen/qwen3.6-35b-a3b";

/// The longest reply that is asked for, in tokens.
pub const LM_MAX_TOKENS: u32 = 8000;

/// How long a reply may take. README regen and large refactor diffs run
/// multi-minute completions: 30 minutes cover both with margin.
pub const LM_TIMEOUT_SECS: u64 = 1800;

/// Where the text of the reply stands in the response, as a JSON pointer.
pub const REPLY_POINTER: &'static str = "/choices/0/message/content";

/// A chat completion request with one user message.
#[derive(Debug)]
pub struct ChatRequest {
    pub url: String,
    pub timeout_secs: u64,
    pub model: String,
    pub content: String,
    /// The sampling temperature in tenths.
    pub temperature_tenths: u8,
    pub max_tokens: u32,
    pub enable_thinking: bool,
}

/// Why a response of the model is of no use.
#[derive(Clone, Copy, Debug, PartialEq, Eq, Structural)]
pub enum LmError {
    /// The response is not JSON.
    Undecodable,
    /// The response holds no text at `REPLY_POINTER`.
    MissingContent,
    /// The text is empty or white space.
    Empty,
}

/// The error of `serde_json`, of which nothing is said.
#[verifier::external_type_specification]
#[verifier::external_body]
pub struct ExJsonError(serde_json::Error);

// ---------------------------------------------------------------------------
// The model
// ---------------------------------------------------------------------------

/// The string that stands at a JSON pointer in a JSON text: `None` where the
/// text is not JSON, and `Some(None)` where nothing, or no string, stands there.
pub uninterp spec fn json_text_at(json: Seq<u8>, pointer: Seq<char>) -> Option<Option<Seq<char>>>;

/// The texts of what was found at a JSON pointer.
pub open spec fn found_text(found: Option<Option<String>>) -> Option<Option<Seq<char>>> {
    match found {
        None => None,
        Some(None) => Some(None),
        Some(Some(s)) => Some(Some(s@)),
    }
}

/// The reply, from what was found in the response: the text without the white
/// space around it, which has to leave something.
pub open spec fn reply(found: Option<Option<Seq<char>>>) -> Result<Seq<char>, LmError> {
    match found {
        None => Err(LmError::Undecodable),
        Some(None) => Err(LmError::MissingContent),
        Some(Some(text)) => if trim(text).len() == 0 {
            Err(LmError::Empty)
        } else {
            Ok(trim(text))
        },
    }
}

/// Whether a result has this text, or is this error.
pub open spec fn text_result(
    r: Result<String, LmError>,
    expected: Result<Seq<char>, LmError>,
) -> bool {
    match r {
        Ok(s) => expected == Ok::<Seq<char>, LmError>(s@),
        Err(e) => expected == Err::<Seq<char>, LmError>(e),
    }
}

// ---------------------------------------------------------------------------
// The functions
// ---------------------------------------------------------------------------

/// The request that puts a prompt to the model.
pub fn chat_request(prompt: &str) -> (r: ChatRequest)
    ensures
        r.url@ == LM_ENDPOINT@,
        r.timeout_secs == LM_TIMEOUT_SECS,
        r.model@ == LM_MODEL@,
        r.content@ == prompt@,
        r.temperature_tenths == 2,
        r.max_tokens == LM_MAX_TOKENS,
        !r.enable_thinking,
{
    ChatRequest {
        url: LM_ENDPOINT.to_owned(),
        timeout_secs: LM_TIMEOUT_SECS,
        model: LM_MODEL.to_owned(),
        content: prompt.to_owned(),
        temperature_tenths: 2,
        max_tokens: LM_MAX_TOKENS,
        enable_thinking: false,
    }
}

/// `serde_json::from_slice` into a `serde_json::Value`, its `pointer`, and
/// `as_str` of what stands there: an error where the bytes are not JSON, else
/// the string at the pointer if one is there. Which of these, and which string,
/// is a function of the bytes and the pointer.
#[verifier::external_body]
fn json_string_at(json: &[u8], pointer: &str) -> (r: Result<Option<String>, serde_json::Error>)
    ensures
        match r {
            Ok(found) => json_text_at(json@, pointer@) == found_text(Some(found)),
            Err(_) => json_text_at(json@, pointer@) is None,
        },
{
    let value: serde_json::Value = serde_json::from_slice(json)?;
    Ok(value.pointer(pointer).and_then(|v| v.as_str()).map(|s| s.to_string()))
}

/// The reply, from what was found in the response: nothing where the response
/// is not JSON, and no string where none stands in the place of the text.
pub fn accept_reply(found: Option<Option<String>>) -> (r: Result<String, LmError>)
    ensures
        text_result(r, reply(found_text(found))),
{
    match found {
        None => Err(LmError::Undecodable),
        Some(None) => Err(LmError::MissingContent),
        Some(Some(text)) => {
            let all = to_chars(text.as_str());
            let message = trim_chars(all.as_slice());
            if message.len() == 0 {
                Err(LmError::Empty)
            } else {
                Ok(of_chars(message))
            }
        },
    }
}

/// The reply of the model, from the body of the response.
pub fn assistant_message(body: &[u8]) -> (r: Result<String, LmError>)
    ensures
        text_result(r, reply(json_text_at(body@, REPLY_POINTER@))),
{
    match json_string_at(body, REPLY_POINTER) {
        Ok(found) => accept_reply(Some(found)),
        Err(_) => accept_reply(None),
    }
}

// ---------------------------------------------------------------------------
// Laws
// ---------------------------------------------------------------------------

/// A reply is never empty, and no white space stands at either end of it.
pub proof fn law_reply_is_trimmed(found: Option<Option<Seq<char>>>)
    requires
        reply(found) is Ok,
    ensures
        reply(found)->Ok_0.len() > 0,
        trim(reply(found)->Ok_0) == reply(found)->Ok_0,
{
    lemma_trim_twice((found->0)->0);
}

/// A reply is the text that the model wrote, whatever it is, without the white
/// space around it; where nothing but white space is there, where no text is
/// there, and where the response cannot be read, this is said.
pub proof fn law_reply_is_what_was_written(a: Seq<char>, text: Seq<char>, b: Seq<char>)
    requires
        is_blank(a),
        is_blank(b),
        text.len() > 0 ==> !is_white_space(text[0]) && !is_white_space(text.last()),
    ensures
        text.len() > 0 ==> reply(Some(Some(a + text + b))) == Ok::<_, LmError>(text),
        text.len() == 0 ==> reply(Some(Some(a + text + b))) == Err::<Seq<char>, _>(LmError::Empty),
        reply(Some(None)) == Err::<Seq<char>, _>(LmError::MissingContent),
        reply(None) == Err::<Seq<char>, _>(LmError::Undecodable),
{
    law_trim(a, text, b);
}

/// What was found is taken as it is.
pub proof fn law_found_text(s: String)
    ensures
        found_text(Some(Some(s))) == Some(Some(s@)),
        found_text(Some(None)) == Some(None::<Seq<char>>),
        found_text(None) is None,
{
}

/// A result is as expected exactly where it holds the expected text, or is the
/// expected error.
pub proof fn law_text_result(r: Result<String, LmError>, expected: Result<Seq<char>, LmError>)
    requires
        text_result(r, expected),
    ensures
        r is Ok <==> expected is Ok,
        r is Ok ==> r->Ok_0@ == expected->Ok_0,
        r is Err ==> r->Err_0 == expected->Err_0,
{
}

} // verus!
