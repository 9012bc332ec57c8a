//! The error taxonomy of the engine.

use vstd::prelude::*;

verus! {

/// Why an engine operation failed.
#[derive(Clone, Copy, Debug, PartialEq, Eq, Structural)]
pub enum EngineError {
    /// A configuration document was malformed or incomplete. Fatal to that
    /// load only, never to the engine.
    ConfigurationError,
    /// The operation needs an initialized engine.
    NotInitialized,
    /// A second initialization without a reset. This is a policy guard
    /// against clobbering the state of a long-lived process.
    AlreadyInitialized,
    /// No registered profile has the requested id.
    ProfileNotFound,
    /// The profile's schema has not been loaded.
    SchemaNotLoaded,
    /// The shared state could not be reached (a poisoned lock). Raised by the
    /// hosting layer that guards the engine, never by the engine itself.
    InternalError,
}

impl EngineError {
    /// The text of the message, as a sequence of characters.
    pub open spec fn message_text(self) -> Seq<char> {
        match self {
            EngineError::ConfigurationError => "Failed to parse configuration"@,
            EngineError::NotInitialized => "Engine not initialized"@,
            EngineError::AlreadyInitialized => "Engine already initialized"@,
            EngineError::ProfileNotFound => "Profile not found"@,
            EngineError::SchemaNotLoaded => "Schema not loaded"@,
            EngineError::InternalError => "Failed to acquire lock"@,
        }
    }

    /// A human-readable description of the error.
    pub fn message(&self) -> (text: String)
        ensures
            text@ == self.message_text(),
    {
        match self {
            EngineError::ConfigurationError => "Failed to parse configuration".to_owned(),
            EngineError::NotInitialized => "Engine not initialized".to_owned(),
            EngineError::AlreadyInitialized => "Engine already initialized".to_owned(),
            EngineError::ProfileNotFound => "Profile not found".to_owned(),
            EngineError::SchemaNotLoaded => "Schema not loaded".to_owned(),
            EngineError::InternalError => "Failed to acquire lock".to_owned(),
        }
    }
}

} // verus!
