//! Equality of headers, requests and responses. Headers are equal if they
//! map the same names to the same values, whatever their order.

use vstd::prelude::*;
use vstd::std_specs::cmp::PartialEqSpecImpl;
use crate::data::{Method, Request, Response};
use crate::headers::{Headers, distinct_names, lemma_as_map_value, lemma_same_map};
use crate::text::{Octets, Text, bytes_eq, opt_octets, str_eq};

verus! {

/// True if both fields are absent, or both are present with the same bytes.
pub fn same_bytes<B: Octets>(a: &Option<B>, b: &Option<B>) -> (r: bool)
    ensures
        r == (opt_octets(*a) == opt_octets(*b)),
{
    match a {
        Some(x) => match b {
            Some(y) => bytes_eq(x.as_octets(), y.as_octets()),
            None => false,
        },
        None => b.is_none(),
    }
}

/// True if both methods are the same.
pub fn same_method(a: &Method, b: &Method) -> (r: bool)
    ensures
        r == (a@ == b@),
{
    match *a {
        Method::Get => matches!(*b, Method::Get),
        Method::Head => matches!(*b, Method::Head),
        Method::Post => matches!(*b, Method::Post),
        Method::Ext(x) => match *b {
            Method::Ext(y) => str_eq(x, y),
            _ => false,
        },
    }
}

impl<K: Text, B: Octets> PartialEq for Headers<K, B> {
    /// True if both hold the same names with the same values.
    fn eq(&self, other: &Self) -> (r: bool) {
        let n: usize = self.len();
        if other.len() != n {
            return false;
        }
        let mut i: usize = 0;
        while i < n
            invariant
                i <= n,
                n == self.fields().len(),
                distinct_names(self.fields()),
                forall|j: int|
                    0 <= j < i ==> other@.contains_key((#[trigger] self.fields()[j]).0)
                        && other@[self.fields()[j].0] == self.fields()[j].1,
            decreases n - i,
        {
            proof {
                lemma_as_map_value(self.fields(), i as int);
            }
            match other.get(self.name_at(i).as_text()) {
                Some(value) => {
                    if !same_bytes(self.value_at(i), value) {
                        return false;
                    }
                },
                None => {
                    return false;
                },
            }
            i += 1;
        }
        proof {
            lemma_same_map(self.fields(), other.fields());
        }
        true
    }
}

impl<K: Text, B: Octets> PartialEqSpecImpl for Headers<K, B> {
    open spec fn obeys_eq_spec() -> bool {
        true
    }

    open spec fn eq_spec(&self, other: &Self) -> bool {
        self@ == other@
    }
}

impl<K: Text, B: Octets> Eq for Headers<K, B> {}

impl<'a> PartialEq for Request<'a> {
    /// True if both have the same path, method, version, headers and body.
    fn eq(&self, other: &Self) -> (r: bool) {
        str_eq(self.path, other.path) && same_method(&self.method, &other.method) && self.version
            == other.version && self.headers == other.headers && same_bytes(&self.body, &other.body)
    }
}

impl<'a> PartialEqSpecImpl for Request<'a> {
    open spec fn obeys_eq_spec() -> bool {
        true
    }

    open spec fn eq_spec(&self, other: &Self) -> bool {
        self@ == other@
    }
}

impl<'a> Eq for Request<'a> {}

impl PartialEq for Response {
    /// True if both have the same status, version, headers and body.
    fn eq(&self, other: &Self) -> (r: bool) {
        self.status == other.status && self.version == other.version && self.headers
            == other.headers && same_bytes(&self.body, &other.body)
    }
}

impl PartialEqSpecImpl for Response {
    open spec fn obeys_eq_spec() -> bool {
        true
    }

    /// Responses are equal if they have the same status, version and body
    /// and their headers map the same names to the same values.
    open spec fn eq_spec(&self, other: &Self) -> bool {
        &&& self.status == other.status
        &&& self.version == other.version
        &&& self.headers@ == other.headers@
        &&& opt_octets(self.body) == opt_octets(other.body)
    }
}

impl Eq for Response {}

} // verus!
