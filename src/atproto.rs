//! `at://` record uris.

use vstd::prelude::*;
use vstd::string::*;

use crate::text::{find_char, first_index, starts_with, substring};

verus! {

/// A record uri split into its authority, collection and record key.
#[derive(Debug, Clone)]
pub struct AtUri {
    pub did: String,
    pub collection: String,
    pub rkey: String,
}

/// The parts of an `at://` uri as character sequences.
pub struct AtUriView {
    pub did: Seq<char>,
    pub collection: Seq<char>,
    pub rkey: Seq<char>,
}

impl View for AtUri {
    type V = AtUriView;

    open spec fn view(&self) -> AtUriView {
        AtUriView { did: self.did@, collection: self.collection@, rkey: self.rkey@ }
    }
}

/// Why a string is not a record uri.
pub enum AtUriError {
    /// It does not begin with `at://`.
    MissingScheme,
    /// Its authority is not a `did:plc:` identifier.
    NotPlcDid,
    /// It lacks a collection or a record key.
    MissingPath,
}

/// How a string splits into a record uri: after `at://`, the text up to the
/// first `/` is the did, the text up to the next `/` the collection, and the
/// rest (slashes included) the record key.
pub open spec fn parse_at_uri(s: Seq<char>) -> Result<AtUriView, AtUriError> {
    if !("at://"@.is_prefix_of(s)) {
        Err(AtUriError::MissingScheme)
    } else {
        let rest = s.skip(5);
        let i = first_index(rest, '/');
        let did = rest.take(i);
        if !("did:plc:"@.is_prefix_of(did)) {
            Err(AtUriError::NotPlcDid)
        } else if i == rest.len() {
            Err(AtUriError::MissingPath)
        } else {
            let tail = rest.skip(i + 1);
            let j = first_index(tail, '/');
            if j == tail.len() {
                Err(AtUriError::MissingPath)
            } else {
                Ok(AtUriView { did, collection: tail.take(j), rkey: tail.skip(j + 1) })
            }
        }
    }
}

/// The text form `at://<did>/<collection>/<rkey>`.
pub open spec fn at_uri_text(did: Seq<char>, collection: Seq<char>, rkey: Seq<char>) -> Seq<char> {
    "at://"@ + did + "/"@ + collection + "/"@ + rkey
}

impl AtUriError {
    /// A human-readable description of the error.
    pub fn message(&self) -> (r: &'static str)
        ensures
            r@ == match self {
                AtUriError::MissingScheme => "record uri must start with \"at://\""@,
                AtUriError::NotPlcDid => "record uri must start with \"at://did:plc:\""@,
                AtUriError::MissingPath => "record uri must name a collection and a record key"@,
            },
    {
        match self {
            AtUriError::MissingScheme => "record uri must start with \"at://\"",
            AtUriError::NotPlcDid => "record uri must start with \"at://did:plc:\"",
            AtUriError::MissingPath => "record uri must name a collection and a record key",
        }
    }
}

impl AtUri {
    /// Splits a record uri into its parts.
    pub fn from_str(s: &str) -> (r: Result<AtUri, AtUriError>)
        ensures
            match (r, parse_at_uri(s@)) {
                (Ok(u), Ok(v)) => u@ == v,
                (Err(e), Err(f)) => e == f,
                _ => false,
            },
    {
        proof {
            reveal_strlit("at://");
            reveal_strlit("did:plc:");
        }
        if !starts_with(s, "at://") {
            return Err(AtUriError::MissingScheme);
        }
        let n = s.unicode_len();
        let rest_owned = substring(s, 5, n);
        let rest = rest_owned.as_str();
        assert(rest@ =~= s@.skip(5));
        let i = find_char(rest, '/');
        let did = substring(rest, 0, i);
        assert(did@ =~= rest@.take(i as int));
        if !starts_with(did.as_str(), "did:plc:") {
            return Err(AtUriError::NotPlcDid);
        }
        let rn = rest.unicode_len();
        if i == rn {
            return Err(AtUriError::MissingPath);
        }
        let tail_owned = substring(rest, i + 1, rn);
        let tail = tail_owned.as_str();
        assert(tail@ =~= rest@.skip(i + 1));
        let j = find_char(tail, '/');
        let tn = tail.unicode_len();
        if j == tn {
            return Err(AtUriError::MissingPath);
        }
        let collection = substring(tail, 0, j);
        let rkey = substring(tail, j + 1, tn);
        assert(collection@ =~= tail@.take(j as int));
        assert(rkey@ =~= tail@.skip(j + 1));
        Ok(AtUri { did, collection, rkey })
    }

    /// The text form `at://<did>/<collection>/<rkey>`.
    pub fn to_string(&self) -> (r: String)
        ensures
            r@ == at_uri_text(self.did@, self.collection@, self.rkey@),
    {
        let mut r = String::from_str("at://");
        r.append(self.did.as_str());
        r.append("/");
        r.append(self.collection.as_str());
        r.append("/");
        r.append(self.rkey.as_str());
        r
    }
}

} // verus!
