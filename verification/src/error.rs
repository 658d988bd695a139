//! What can go wrong in the proxy.

use vstd::prelude::*;

verus! {

/// An error of the proxy, with its message.
pub enum ProxyError {
    /// The configuration lacks something that is needed.
    ConfigError(String),
    /// A backend process could not be started.
    BackendSpawnFailed(String),
    /// A backend cannot be reached.
    BackendUnavailable(String),
    /// A message was handed to the wrong kind of call.
    RoutingFailed(String),
    /// A backend did not answer in time.
    BackendTimeout(String),
    /// A job object could not be made or used.
    JobObjectError(String),
    /// A message could not be written as JSON.
    JsonError(String),
}

impl ProxyError {
    /// The message.
    pub open spec fn text(&self) -> Seq<char> {
        match *self {
            ProxyError::ConfigError(message) => message@,
            ProxyError::BackendSpawnFailed(message) => message@,
            ProxyError::BackendUnavailable(message) => message@,
            ProxyError::RoutingFailed(message) => message@,
            ProxyError::BackendTimeout(message) => message@,
            ProxyError::JobObjectError(message) => message@,
            ProxyError::JsonError(message) => message@,
        }
    }

    /// The message.
    pub fn message(&self) -> (res: &String)
        ensures
            res@ == self.text(),
    {
        match self {
            ProxyError::ConfigError(message) => message,
            ProxyError::BackendSpawnFailed(message) => message,
            ProxyError::BackendUnavailable(message) => message,
            ProxyError::RoutingFailed(message) => message,
            ProxyError::BackendTimeout(message) => message,
            ProxyError::JobObjectError(message) => message,
            ProxyError::JsonError(message) => message,
        }
    }
}

/// An error tells the message that it was made with, whatever its kind.
pub proof fn error_tells_its_message(message: String, error: ProxyError, told: &String)
    requires
        call_ensures(ProxyError::message, (&error,), told),
        error == ProxyError::ConfigError(message) || error == ProxyError::BackendSpawnFailed(message)
            || error == ProxyError::BackendUnavailable(message) || error
            == ProxyError::RoutingFailed(message) || error == ProxyError::BackendTimeout(message)
            || error == ProxyError::JobObjectError(message) || error == ProxyError::JsonError(
            message,
        ),
    ensures
        told@ == message@,
{
}

} // verus!
