//! Why a provider could not be selected, and why an operation that was sent
//! to a network returned no answer.

use crate::capabilities::NodeCapabilities;
use crate::retry::CallError;
use vstd::prelude::*;
use vstd::string::*;

verus! {

/// A failure to select a provider. Both kinds describe the configuration, so
/// trying again cannot change them.
#[derive(Debug, PartialEq, Eq)]
pub enum NetworkError {
    /// No provider is registered under this network name.
    NetworkNotSupported(String),
    /// The network has no provider that offers these capabilities.
    NoEligibleEndpoint(NodeCapabilities),
}

/// Why an operation that was sent to a network did not return an answer:
/// no provider could be selected, or the selected providers were tried
/// without success.
#[derive(Debug, PartialEq, Eq)]
pub enum RoutingError<E> {
    /// No provider could be selected, so none was tried.
    Selection(NetworkError),
    /// The providers that were tried gave no answer.
    Call(CallError<E>),
}

/// `true` or `false`, spelled out.
pub open spec fn flag_text(flag: bool) -> Seq<char> {
    if flag {
        "true"@
    } else {
        "false"@
    }
}

/// The field-by-field rendering of a capability set.
pub open spec fn capabilities_text(capabilities: NodeCapabilities) -> Seq<char> {
    "NodeCapabilities { archive: "@ + flag_text(capabilities.archive) + ", traces: "@ + flag_text(
        capabilities.traces,
    ) + " }"@
}

fn flag_name(flag: bool) -> (name: &'static str)
    ensures
        name@ == flag_text(flag),
{
    if flag {
        "true"
    } else {
        "false"
    }
}

impl NetworkError {
    /// The text of the error message.
    pub open spec fn message_text(self) -> Seq<char> {
        match self {
            NetworkError::NetworkNotSupported(name) => "network not supported: "@ + name@,
            NetworkError::NoEligibleEndpoint(required) => "A matching Ethereum network with "@
                + capabilities_text(required) + " was not found."@,
        }
    }

    /// A message for logs and diagnostics.
    pub fn message(&self) -> (text: String)
        ensures
            text@ == self.message_text(),
    {
        match self {
            NetworkError::NetworkNotSupported(name) => {
                let mut text = String::from_str("network not supported: ");
                text.append(name.as_str());
                text
            },
            NetworkError::NoEligibleEndpoint(required) => {
                let mut text = String::from_str("A matching Ethereum network with ");
                text.append("NodeCapabilities { archive: ");
                text.append(flag_name(required.archive));
                text.append(", traces: ");
                text.append(flag_name(required.traces));
                text.append(" }");
                text.append(" was not found.");
                proof {
                    let a = "A matching Ethereum network with "@;
                    let b = "NodeCapabilities { archive: "@;
                    let c = flag_text(required.archive);
                    let d = ", traces: "@;
                    let e = flag_text(required.traces);
                    let f = " }"@;
                    let g = " was not found."@;
                    assert(a + b + c + d + e + f + g =~= a + (b + c + d + e + f) + g);
                }
                text
            },
        }
    }
}

} // verus!
