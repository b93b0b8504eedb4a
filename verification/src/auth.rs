//! Authentication requirements that guard a resolver.

use vstd::prelude::*;

verus! {

/// A source of credentials that a request is checked against.
#[derive(Clone, Debug, PartialEq, Eq)]
pub enum Provider {
    Basic { htpasswd: String },
    Jwt { jwks: String },
}

/// An authentication requirement: one provider, or a combination.
#[derive(Debug, PartialEq, Eq)]
pub enum Auth {
    Provider(Provider),
    And(Box<Auth>, Box<Auth>),
    Or(Box<Auth>, Box<Auth>),
}

impl Clone for Auth {
    fn clone(&self) -> (r: Self)
        decreases self,
    {
        match self {
            Auth::Provider(p) => Auth::Provider(p.clone()),
            Auth::And(a, b) => Auth::And(Box::new((**a).clone()), Box::new((**b).clone())),
            Auth::Or(a, b) => Auth::Or(Box::new((**a).clone()), Box::new((**b).clone())),
        }
    }
}

} // verus!
