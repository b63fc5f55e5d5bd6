//! The dispatch mechanisms that can be put under test.

use crate::text::same_text;
use vstd::prelude::*;

verus! {

/// Which mechanism picks the worker of a new connection.
#[derive(Debug, Clone, Copy, PartialEq, Eq, Structural)]
pub enum Policy {
    /// Cascading filter in the workers, hash among the survivors in the dispatcher.
    Hermes,
    /// Exclusive wakeup: the wait queue's head worker first.
    Lifo,
    /// Stateless hash over all workers.
    ReuseportHash,
}

/// The name under which a policy is configured and reported.
pub open spec fn policy_name(p: Policy) -> Seq<char> {
    match p {
        Policy::Hermes => "hermes"@,
        Policy::Lifo => "lifo"@,
        Policy::ReuseportHash => "reuseport"@,
    }
}

/// The policy with the given name.
pub open spec fn policy_named(s: Seq<char>) -> Option<Policy> {
    if s == "hermes"@ {
        Some(Policy::Hermes)
    } else if s == "lifo"@ {
        Some(Policy::Lifo)
    } else if s == "reuseport"@ {
        Some(Policy::ReuseportHash)
    } else {
        None
    }
}

impl Policy {
    /// The policy's name.
    pub fn as_str(&self) -> (s: &'static str)
        ensures
            s@ == policy_name(*self),
    {
        match self {
            Policy::Hermes => "hermes",
            Policy::Lifo => "lifo",
            Policy::ReuseportHash => "reuseport",
        }
    }

    /// The policy with the given name.
    pub fn parse(s: &str) -> (p: Option<Policy>)
        ensures
            p == policy_named(s@),
    {
        if same_text(s, "hermes") {
            Some(Policy::Hermes)
        } else if same_text(s, "lifo") {
            Some(Policy::Lifo)
        } else if same_text(s, "reuseport") {
            Some(Policy::ReuseportHash)
        } else {
            None
        }
    }

    /// Whether workers run the scheduler and publish candidates.
    pub fn runs_scheduler(&self) -> (r: bool)
        ensures
            r == (*self == Policy::Hermes),
    {
        match self {
            Policy::Hermes => true,
            _ => false,
        }
    }

    /// The policy that a simulation's setting names; the full one where it names none.
    pub fn from_env_str(s: &str) -> (p: Policy)
        ensures
            p == (match policy_named(s@) {
                Some(q) => q,
                None => Policy::Hermes,
            }),
    {
        match Policy::parse(s) {
            Some(p) => p,
            None => Policy::Hermes,
        }
    }
}

/// A policy is found under its own name, and under no other.
pub proof fn law_policy_names_round_trip(p: Policy, s: Seq<char>)
    ensures
        policy_named(policy_name(p)) == Some(p),
        policy_named(s) == Some(p) <==> s == policy_name(p),
{
    reveal_strlit("hermes");
    reveal_strlit("lifo");
    reveal_strlit("reuseport");
    assert("hermes"@.len() == 6 && "lifo"@.len() == 4 && "reuseport"@.len() == 9);
}

} // verus!
