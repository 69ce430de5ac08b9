//! Values kept one per method.

use crate::Method;
use vstd::prelude::*;

verus! {

/// One value for each method.
pub struct PerMethod<T> {
    pub prefix_enc: T,
    pub prefill: T,
    pub step: T,
}

impl<T> PerMethod<T> {
    /// The value of a method.
    pub open spec fn at(self, method: Method) -> T {
        match method {
            Method::PrefixEnc => self.prefix_enc,
            Method::Prefill => self.prefill,
            Method::Step => self.step,
        }
    }

    /// With another value for one method.
    pub open spec fn with(self, method: Method, value: T) -> PerMethod<T> {
        match method {
            Method::PrefixEnc => PerMethod { prefix_enc: value, ..self },
            Method::Prefill => PerMethod { prefill: value, ..self },
            Method::Step => PerMethod { step: value, ..self },
        }
    }

    /// The value of a method.
    pub fn get(&self, method: Method) -> (r: &T)
        ensures
            *r == self.at(method),
    {
        match method {
            Method::PrefixEnc => &self.prefix_enc,
            Method::Prefill => &self.prefill,
            Method::Step => &self.step,
        }
    }

    /// Changes the value of a method.
    pub fn set(&mut self, method: Method, value: T)
        ensures
            *final(self) == old(self).with(method, value),
    {
        match method {
            Method::PrefixEnc => self.prefix_enc = value,
            Method::Prefill => self.prefill = value,
            Method::Step => self.step = value,
        }
    }
}

/// What is kept for a method is read back for it, and for no other.
pub proof fn methods_are_kept_apart<T>(p: PerMethod<T>, method: Method, value: T, other: Method)
    ensures
        p.with(method, value).at(method) == value,
        other != method ==> p.with(method, value).at(other) == p.at(other),
        p.at(Method::PrefixEnc) == p.prefix_enc,
        p.at(Method::Prefill) == p.prefill,
        p.at(Method::Step) == p.step,
{
}

} // verus!
