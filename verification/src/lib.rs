//! Core logic of a WebDAV gateway to a remote cloud drive: credential
//! lifecycle, directory-entry caching, path resolution, retry policy and the
//! QR-code login state machine, all stated and proved; the network and
//! protocol plumbing around it stays outside.

pub mod adapter;
pub mod auth;
pub mod cache;
pub mod login;
pub mod pem;
pub mod resolver;
pub mod retry;
pub mod token;
pub mod entry;

use vstd::prelude::*;

verus! {

} // verus!
