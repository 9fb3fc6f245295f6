//! A verified core for a client that mirrors a university learning-management
//! portal onto a local filesystem: filename sanitization, collision-free path
//! uniquification, the download engine's overwrite/retry decision logic, term
//! filtering of modules, and the pure parts of the resource loaders.

use vstd::prelude::*;

pub mod api;
pub mod conferencing;
pub mod external_multimedia;
pub mod file;
pub mod module;
pub mod multimedia;
pub mod panopto;
pub mod resource;
pub mod streamer;
pub mod util;
pub mod weblecture;

verus! {

/// Errors carried by the library are constant strings, as the portal client
/// reports them verbatim to the user.
pub type Error = &'static str;

} // verus!
