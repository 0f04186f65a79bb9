//! Request targets: a path, and the query string after the first `?`, if
//! any.

use vstd::prelude::*;

verus! {

use vstd::utf8::valid_utf8;
use vstd::utf8::decode_utf8;
use vstd::utf8::encode_utf8;
use vstd::utf8::encode_utf8_valid_utf8;
use vstd::utf8::encode_utf8_decode_utf8;
use vstd::string::StringSliceAdditionalSpecFns;
use vstd::string::StrSliceExecFns;
use vstd::string::StringExecFns;
use crate::query_string::QueryString;
use crate::query_string::spec_query;
use crate::strutil::find_byte_from;
use crate::strutil::find_byte;
use crate::strutil::lemma_find_byte_from;
use crate::strutil::lemma_utf8_split_at;
use crate::strutil::subvec;
use crate::strutil::utf8_to_string;

/// A request target, split at the first `?`: the path before it, and the
/// decoded query after it. No percent-decoding is performed.
pub struct URL {
    pub path: String,
    pub query: Option<QueryString>,
}

impl URL {
    /// The split is well formed.
    pub open spec fn wf(&self) -> bool {
        match self.query {
            Some(q) => q.wf(),
            None => true,
        }
    }

    /// Splits a raw request target at the first `?`.
    pub fn from(value: &str) -> (r: URL)
        ensures
            r.wf(),
            match find_byte_from(value.spec_bytes(), 63, 0) {
                None => r.path@ == value@ && r.query is None,
                Some(i) => {
                    &&& r.path@ == decode_utf8(value.spec_bytes().take(i))
                    &&& match r.query {
                        Some(q) => q@ == spec_query(value.spec_bytes().skip(i + 1)),
                        None => false,
                    }
                },
            },
    {
        broadcast use encode_utf8_valid_utf8;
        broadcast use encode_utf8_decode_utf8;

        let bytes = value.as_bytes_vec();
        match find_byte(&bytes, 63, 0) {
            None => URL { path: String::from_str(value), query: None },
            Some(i) => {
                proof {
                    lemma_find_byte_from(bytes@, 63, 0);
                    lemma_utf8_split_at(bytes@, i as int);
                    lemma_utf8_split_at(bytes@.skip(i as int), 1);
                    assert(bytes@.skip(i as int).skip(1) =~= bytes@.skip(i + 1));
                }
                let pb = subvec(&bytes, 0, i);
                let qb = subvec(&bytes, i + 1, bytes.len());
                proof {
                    assert(pb@ =~= bytes@.take(i as int));
                    assert(qb@ =~= bytes@.skip(i + 1));
                }
                let path = match utf8_to_string(pb) {
                    Some(s) => s,
                    None => {
                        proof {
                            assert(false);
                        }
                        String::new()
                    },
                };
                let qs = match utf8_to_string(qb) {
                    Some(s) => s,
                    None => {
                        proof {
                            assert(false);
                        }
                        String::new()
                    },
                };
                let query = QueryString::from(qs.as_str());
                URL { path, query: Some(query) }
            },
        }
    }
}

} // verus!
