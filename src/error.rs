use vstd::prelude::*;

verus! {

/// What can go wrong while serving a request.
#[derive(Debug, Clone, Copy, PartialEq, Eq, Structural)]
pub enum ConfigError {
    /// The remote document could not be fetched.
    Network,
    /// The remote payload is not base64, or its bytes are not UTF-8.
    Decode,
    /// A document text is malformed.
    Parse,
    /// The local file could not be read or written.
    Io,
    /// The credentials do not match the configured ones.
    Auth,
}

} // verus!
