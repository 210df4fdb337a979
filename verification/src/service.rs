//! The joke service: the fixed prompt handed to the external completion
//! API, the fallback policy when that call fails, and the assembly of
//! the response for a client.

use vstd::prelude::*;

verus! {

/// The text of the fixed joke returned whenever external generation fails.
pub open spec fn fallback_joke_text() -> Seq<char> {
    "Why did the API call fail? Because it couldn't handle the dad joke pressure!"@
}

/// The fixed system message: persona and style constraints.
pub open spec fn system_prompt_text() -> Seq<char> {
    "You are a creative dad joke generator specializing in unique, clever wordplay. Each joke should be original and avoid common dad joke patterns. Respond with ONLY the joke text, no additional commentary. Keep it family-friendly and concise (1-2 sentences)"@
}

/// The fixed user message: the request for one joke.
pub open spec fn user_prompt_text() -> Seq<char> {
    "Generate a clever dad joke"@
}

/// The chat-completion model the service asks for.
pub open spec fn model_name() -> Seq<char> {
    "gpt-3.5-turbo"@
}

/// The literal fallback joke. Never empty, so a client always gets a
/// joke even when external generation failed.
pub fn fallback_joke() -> (joke: String)
    ensures
        joke@ == fallback_joke_text(),
        joke@.len() > 0,
{
    proof {
        reveal_strlit(
            "Why did the API call fail? Because it couldn't handle the dad joke pressure!",
        );
    }
    String::from_str(
        "Why did the API call fail? Because it couldn't handle the dad joke pressure!",
    )
}

/// Decide the joke to answer with, out of what the external generator
/// produced. `content` is the text of the first completion choice, or
/// `None` when the call failed, the response was malformed, or it held
/// no choice at all. A missing or empty text falls back to the fixed
/// joke; the result is never empty, so every request is answered.
pub fn joke_or_fallback(content: Option<String>) -> (joke: String)
    ensures
        joke@.len() > 0,
        match content {
            Some(text) => if text@.len() > 0 {
                joke == text
            } else {
                joke@ == fallback_joke_text()
            },
            None => joke@ == fallback_joke_text(),
        },
{
    match content {
        Some(text) => {
            let n: usize = text.as_str().unicode_len();
            if n > 0 {
                text
            } else {
                fallback_joke()
            }
        },
        None => fallback_joke(),
    }
}

/// The fixed two-message request handed to the external completion API.
pub struct JokePrompt {
    /// The system message fixing persona and style.
    pub system_message: String,
    /// The user message requesting one joke.
    pub user_message: String,
    /// The chat-completion model asked for.
    pub model: String,
    /// Upper bound on the tokens of the completion.
    pub max_tokens: u16,
    /// Sampling temperature, in tenths: the API takes it as 1.2.
    pub temperature_tenths: u8,
}

/// Build the fixed prompt with its sampling parameters. Every request
/// for a generated joke uses exactly this prompt.
pub fn joke_prompt() -> (p: JokePrompt)
    ensures
        p.system_message@ == system_prompt_text(),
        p.user_message@ == user_prompt_text(),
        p.model@ == model_name(),
        p.max_tokens == 100u16,
        p.temperature_tenths == 12u8,
{
    JokePrompt {
        system_message: String::from_str(
            "You are a creative dad joke generator specializing in unique, clever wordplay. Each joke should be original and avoid common dad joke patterns. Respond with ONLY the joke text, no additional commentary. Keep it family-friendly and concise (1-2 sentences)",
        ),
        user_message: String::from_str("Generate a clever dad joke"),
        model: String::from_str("gpt-3.5-turbo"),
        max_tokens: 100,
        temperature_tenths: 12,
    }
}

/// The body of a `/joke` response.
pub struct JokeResponse {
    /// The joke handed to the client.
    pub joke: String,
    /// The id under which the joke was stored, if it was.
    pub id: Option<i32>,
}

/// Assemble the `/joke` response: the joke text as produced, and the id
/// under which it was stored — `None` when storing failed or was never
/// attempted. The joke is returned either way; a storage failure is
/// never surfaced to the client here.
pub fn assemble_response(joke: String, saved: Option<i32>) -> (resp: JokeResponse)
    ensures
        resp.joke == joke,
        resp.id == saved,
{
    JokeResponse { joke, id: saved }
}

/// The body of a `/health` response.
pub fn health_message() -> (body: &'static str)
    ensures
        body@ == "OK"@,
{
    "OK"
}

} // verus!
