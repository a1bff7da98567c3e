//! A request target split into its path and its query.
use vstd::prelude::*;
use vstd::string::StringSliceAdditionalSpecFns;

use crate::bytes::{copy_range, find_byte, find_in, lemma_find_in_bounds};

verus! {

/// The part of a target before the first `?`.
pub open spec fn url_resource(t: Seq<u8>) -> Seq<u8> {
    let q = find_in(t, 63, 0, t.len() as int);
    if q < 0 {
        t
    } else {
        t.subrange(0, q)
    }
}

/// The part of a target after the first `?`, empty when there is none.
pub open spec fn url_query(t: Seq<u8>) -> Seq<u8> {
    let q = find_in(t, 63, 0, t.len() as int);
    if q < 0 {
        Seq::empty()
    } else {
        t.subrange(q + 1, t.len() as int)
    }
}

#[derive(Debug)]
pub struct Url {
    pub resource: Vec<u8>,
    pub query: Vec<u8>,
}

impl Url {
    pub fn new(data: &str) -> (r: Self)
        ensures
            r.resource@ == url_resource(data.spec_bytes()),
            r.query@ == url_query(data.spec_bytes()),
    {
        Self::from_bytes(data.as_bytes())
    }

    pub fn from_bytes(t: &[u8]) -> (r: Self)
        ensures
            r.resource@ == url_resource(t@),
            r.query@ == url_query(t@),
    {
        let n = t.len();
        assert(t@.subrange(0, n as int) =~= t@);
        proof {
            lemma_find_in_bounds(t@, 63, 0, n as int);
        }
        match find_byte(t, 63, 0, n) {
            Some(q) => Url { resource: copy_range(t, 0, q), query: copy_range(t, q + 1, n) },
            None => Url { resource: copy_range(t, 0, n), query: Vec::new() },
        }
    }

    pub fn resource(&self) -> (r: Vec<u8>)
        ensures
            r@ == self.resource@,
    {
        copy_range(self.resource.as_slice(), 0, self.resource.len())
    }

    pub fn query(&self) -> (r: Vec<u8>)
        ensures
            r@ == self.query@,
    {
        copy_range(self.query.as_slice(), 0, self.query.len())
    }

    pub fn duplicate(&self) -> (r: Self)
        ensures
            r.resource@ == self.resource@,
            r.query@ == self.query@,
    {
        Url { resource: self.resource(), query: self.query() }
    }
}

} // verus!
