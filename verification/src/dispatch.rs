//! Dispatcher: the single entry point the host invokes once per request. It
//! resolves the route in the handler table and relays the handler's outcome
//! verbatim; an unregistered route yields the explicit `Unimplemented`
//! signal, never a fault.
use vstd::prelude::*;
use crate::bridge::HostBridge;
use crate::table::HandlerTable;

verus! {

/// The error signal a dispatch can hand back to the host.
#[derive(Debug)]
pub enum GuestError {
    /// No handler is registered for the requested route.
    Unimplemented,
    /// The handler failed with the given message.
    Failed(String),
}

/// The outcome of one handler invocation, as seen by the host: response
/// bytes, or an error signal.
pub type CallResult = Result<Vec<u8>, GuestError>;

/// Whether the concrete outcome `r` realizes the modelled outcome `m`.
/// Handlers never answer `Unimplemented`; that signal is the dispatcher's.
pub open spec fn outcome_matches(r: CallResult, m: Result<Seq<u8>, Seq<char>>) -> bool {
    match r {
        Ok(bytes) => m matches Ok(mb) && bytes@ == mb,
        Err(GuestError::Failed(msg)) => m matches Err(mm) && msg@ == mm,
        Err(GuestError::Unimplemented) => false,
    }
}

/// A unit of behavior bound to one route. `spec_handle` is the outcome the
/// handler computes, a function of the payload alone: the result never
/// depends on what the bridge answered, so a failed or hostile callback
/// cannot change the response (callback failure isolation).
pub trait Handler: Sized {
    spec fn spec_handle(&self, payload: Seq<u8>) -> Result<Seq<u8>, Seq<char>>;

    fn handle<B: HostBridge>(&self, bridge: &mut B, payload: &Vec<u8>) -> (r: CallResult)
        ensures
            outcome_matches(r, self.spec_handle(payload@)),
    ;
}

/// Dispatch one request: resolve the route and forward the payload. The
/// table is read-only here and the outcome is determined by the table, the
/// route and the payload alone, for any payload bytes whatever.
pub fn dispatch<H: Handler, B: HostBridge>(
    table: &HandlerTable<H>,
    bridge: &mut B,
    route: &str,
    payload: &Vec<u8>,
) -> (r: CallResult)
    ensures
        table@.contains_key(route@) ==> outcome_matches(
            r,
            table@[route@].spec_handle(payload@),
        ),
        !table@.contains_key(route@) ==> (r matches Err(e) && e is Unimplemented),
{
    match table.resolve(route) {
        Some(handler) => handler.handle(bridge, payload),
        None => Err(GuestError::Unimplemented),
    }
}

} // verus!
