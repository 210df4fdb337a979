//! Service configuration: the API key for the external completion service.

use vstd::prelude::*;

verus! {

/// Settings of the running service. The only setting is the API key for
/// the external joke-completion service.
pub struct Settings {
    pub openai_api_key: String,
}

impl Settings {
    /// Resolve the API key: a key found directly in the well-known
    /// environment variable wins over one found through the prefixed
    /// configuration namespace. The caller reads both sources and hands
    /// in what it found.
    pub fn resolve(direct: Option<String>, configured: String) -> (s: Settings)
        ensures
            match direct {
                Some(key) => s.openai_api_key == key,
                None => s.openai_api_key == configured,
            },
    {
        match direct {
            Some(key) => Settings { openai_api_key: key },
            None => Settings { openai_api_key: configured },
        }
    }
}

} // verus!
