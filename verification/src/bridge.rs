//! Callback bridge: the way a handler invokes a named host capability while
//! it processes a request. The call is synchronous; the host may answer with
//! bytes or reject the call, and nothing is assumed about which, so every
//! proof about a handler holds whatever the host does.
use vstd::prelude::*;

verus! {

/// The host rejected or failed a capability call.
pub struct HostError {
    pub message: String,
}

/// A connection to the host's capabilities. `binding` picks the host-side
/// instance, `capability` the kind, `operation` the verb; the payload is
/// opaque bytes. No contract constrains the result: callers must treat
/// failure as recoverable and may not rely on any particular answer.
pub trait HostBridge {
    fn host_call(
        &mut self,
        binding: &str,
        capability: &str,
        operation: &str,
        payload: &Vec<u8>,
    ) -> Result<Vec<u8>, HostError>;
}

/// A bridge with no host behind it: every capability call fails. Useful for
/// running handlers outside a host runtime.
pub struct NullBridge;

impl HostBridge for NullBridge {
    fn host_call(
        &mut self,
        _binding: &str,
        _capability: &str,
        _operation: &str,
        _payload: &Vec<u8>,
    ) -> Result<Vec<u8>, HostError> {
        Err(HostError { message: String::from_str("no host attached") })
    }
}

} // verus!
