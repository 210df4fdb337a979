use dad_jokes::service::{
    assemble_response, fallback_joke, health_message, joke_or_fallback, joke_prompt,
};
use dad_jokes::Settings;

const FALLBACK: &str =
    "Why did the API call fail? Because it couldn't handle the dad joke pressure!";

#[test]
fn failed_call_yields_the_exact_fallback() {
    assert_eq!(joke_or_fallback(None), FALLBACK);
}

#[test]
fn missing_choice_text_yields_the_exact_fallback() {
    assert_eq!(joke_or_fallback(Some(String::new())), FALLBACK);
}

#[test]
fn successful_content_is_returned_verbatim() {
    let content = "I used to hate facial hair, but then it grew on me.".to_string();
    assert_eq!(joke_or_fallback(Some(content.clone())), content);
}

#[test]
fn fallback_is_nonempty_and_fixed() {
    let joke = fallback_joke();
    assert!(!joke.is_empty());
    assert_eq!(joke, FALLBACK);
}

#[test]
fn prompt_is_fixed() {
    let p = joke_prompt();
    assert_eq!(
        p.system_message,
        "You are a creative dad joke generator specializing in unique, clever wordplay. \
         Each joke should be original and avoid common dad joke patterns. Respond with \
         ONLY the joke text, no additional commentary. Keep it family-friendly and \
         concise (1-2 sentences)"
    );
    assert_eq!(p.user_message, "Generate a clever dad joke");
    assert_eq!(p.model, "gpt-3.5-turbo");
    assert_eq!(p.max_tokens, 100);
    assert_eq!(p.temperature_tenths, 12);
}

#[test]
fn response_keeps_joke_and_id() {
    let resp = assemble_response("a joke".to_string(), Some(5));
    assert_eq!(resp.joke, "a joke");
    assert_eq!(resp.id, Some(5));
}

#[test]
fn response_without_id_still_carries_the_joke() {
    let resp = assemble_response("unsaved".to_string(), None);
    assert_eq!(resp.joke, "unsaved");
    assert_eq!(resp.id, None);
}

#[test]
fn health_is_ok() {
    assert_eq!(health_message(), "OK");
}

#[test]
fn direct_api_key_wins() {
    let s = Settings::resolve(Some("direct".to_string()), "configured".to_string());
    assert_eq!(s.openai_api_key, "direct");
}

#[test]
fn configured_api_key_is_the_fallback() {
    let s = Settings::resolve(None, "configured".to_string());
    assert_eq!(s.openai_api_key, "configured");
}
