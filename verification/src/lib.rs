//! A typed client for a remote chat-completions HTTP API.
//!
//! The library builds the JSON request payload (model, sampling
//! temperature, ordered conversation history), and decodes the server's
//! reply — either the structured success payload or the structured error
//! payload — into typed values. The HTTP transport itself lives outside
//! this crate: callers hand the serialized body to their transport and
//! hand the status code and response text back to the decoder.

use vstd::prelude::*;

pub mod chat_completions;
pub mod credential;
pub mod error;
pub mod json;

pub use chat_completions::CompletionMessage;
pub use chat_completions::CompletionRoles;

use chat_completions::ChatCompletionsBuilder;
use error::OpenAiError;

verus! {

/// Owner of the request credential; the factory for request builders.
///
/// The credential is held in a [`secrecy::Secret`], which never renders
/// it through `Debug` or `Display`; this type deliberately has no
/// `Debug` implementation, so the key cannot be printed by accident.
pub struct Client {
    api_key: credential::SecretKey,
}

impl Client {
    /// The characters of the stored credential.
    pub closed spec fn api_key_chars(&self) -> Seq<char> {
        credential::secret_chars(self.api_key)
    }

    /// Stores the credential opaquely and yields a ready client.
    ///
    /// Transport configuration lives with the caller's HTTP layer, so
    /// construction itself cannot fail here; the `Result` mirrors the
    /// construction interface (a configuration error would surface from
    /// the transport layer instead).
    pub fn new(api_key: String) -> (r: Result<Client, OpenAiError>)
        ensures
            r matches Ok(c) && c.api_key_chars() == api_key@,
    {
        Ok(Client { api_key: credential::new_secret(api_key) })
    }

    /// Produces a fresh builder for the given model, scoped to this
    /// client's credential.
    pub fn chat_completions(&self, model: &str) -> (b: ChatCompletionsBuilder)
        ensures
            b@.model == model@,
            b@.temperature == chat_completions::default_temperature(),
            b@.messages == Seq::<chat_completions::CompletionMessageView>::empty(),
    {
        ChatCompletionsBuilder::new(model)
    }

    /// Reveals the stored credential, for attaching it as a bearer
    /// authorization header. This is the only way the key leaves the
    /// client.
    pub fn expose_api_key(&self) -> (r: &String)
        ensures
            r@ == self.api_key_chars(),
    {
        credential::expose_secret(&self.api_key)
    }
}

} // verus!
