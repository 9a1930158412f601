//! What the agent reports to the interface, and the consent decision for sensitive tools.
use vstd::prelude::*;
use crate::chars::{to_chars, chars_eq};

verus! {

/// The events the agent sends towards the interface, as one object.
pub trait AgentSink {
    /// A piece of the streamed answer (tool calls and reasoning already hidden).
    fn on_token(&mut self, piece: &str);

    /// A tool is about to run (name and JSON arguments).
    fn on_tool(&mut self, name: &str, args: &str);

    /// The (capped) result of a tool that just ran.
    fn on_tool_result(&mut self, name: &str, result: &str);

    /// Consent for a sensitive tool: `true` when granted (asks the user when needed).
    fn on_consent(&mut self, tool: &str, action: &str) -> bool;
}

/// How a consent request is settled.
#[derive(Clone, Copy, Debug, PartialEq, Eq, Structural)]
pub enum ConsentDecision {
    /// A saved permission allows the tool.
    Allow,
    /// A saved permission denies it.
    Deny,
    /// Nothing saved (or anything else): ask the user.
    Ask,
}

/// A saved permission decides: `allow` grants, `deny` refuses, anything else (or nothing) asks.
pub open spec fn consent_for(saved: Option<Seq<char>>) -> ConsentDecision {
    match saved {
        Some(p) => if p == "allow"@ {
            ConsentDecision::Allow
        } else if p == "deny"@ {
            ConsentDecision::Deny
        } else {
            ConsentDecision::Ask
        },
        None => ConsentDecision::Ask,
    }
}

/// Settles a consent request from the saved permission of the tool (see [`consent_for`]).
pub fn consent_decision(saved: Option<&str>) -> (r: ConsentDecision)
    ensures
        r == consent_for(
            match saved {
                Some(p) => Some(p@),
                None => None,
            },
        ),
{
    match saved {
        Some(p) => {
            let v = to_chars(p);
            if chars_eq(&v, &to_chars("allow")) {
                ConsentDecision::Allow
            } else if chars_eq(&v, &to_chars("deny")) {
                ConsentDecision::Deny
            } else {
                ConsentDecision::Ask
            }
        },
        None => ConsentDecision::Ask,
    }
}

/// The answer of an interactive consent request: what the user answered, and a denial when
/// the wait ran out.
pub fn consent_answer(answer: Option<bool>) -> (r: bool)
    ensures
        r == (answer == Some(true)),
{
    match answer {
        Some(a) => a,
        None => false,
    }
}

} // verus!
