//! The configuration data model: a document is a mapping from profile names
//! to diff profiles, each pairing two request definitions with a
//! response-comparison policy.

use vstd::prelude::*;
use crate::method::Method;
use crate::yaml::{Yaml, YamlV, yaml_view, nodup_yaml};

verus! {

/// Error from loading or decoding a configuration document.
#[derive(Debug, PartialEq)]
pub enum ConfigError {
    /// The document could not be read.
    Io(String),
    /// The document is not valid YAML, or does not fit the schema.
    Parse(String),
}

/// One HTTP request definition: where to send the request and what to put
/// in it.
#[derive(Debug, PartialEq)]
pub struct RequestProfile {
    /// The HTTP verb; `GET` where the document names none.
    pub method: Method,
    /// The absolute URL the request goes to.
    pub url: String,
    /// Free-form query parameters, if any.
    pub params: Option<Yaml>,
    /// Header names and values, in document order; empty where the document
    /// names none.
    pub headers: Vec<(String, String)>,
    /// Free-form request body, if any.
    pub body: Option<Yaml>,
}

/// Comparison policy for two responses: what to leave out of the comparison.
#[derive(Debug, PartialEq)]
pub struct ResponseProfile {
    /// Header names excluded from the comparison.
    pub skip_headers: Vec<String>,
    /// Body paths excluded from the comparison.
    pub skip_body: Vec<String>,
}

/// One comparison scenario: two requests and a response policy.
#[derive(Debug, PartialEq)]
pub struct DiffProfile {
    pub req1: RequestProfile,
    pub req2: RequestProfile,
    pub res: ResponseProfile,
}

/// A whole configuration document: named diff profiles, in document order.
#[derive(Debug, PartialEq)]
pub struct DiffConfig {
    pub profiles: Vec<(String, DiffProfile)>,
}

/// The mathematical shape of a [`RequestProfile`].
#[verifier::ext_equal]
pub struct RequestProfileV {
    pub method: Method,
    pub url: Seq<char>,
    pub params: Option<YamlV>,
    pub headers: Seq<(Seq<char>, Seq<char>)>,
    pub body: Option<YamlV>,
}

/// The mathematical shape of a [`ResponseProfile`].
#[verifier::ext_equal]
pub struct ResponseProfileV {
    pub skip_headers: Seq<Seq<char>>,
    pub skip_body: Seq<Seq<char>>,
}

/// The mathematical shape of a [`DiffProfile`].
#[verifier::ext_equal]
pub struct DiffProfileV {
    pub req1: RequestProfileV,
    pub req2: RequestProfileV,
    pub res: ResponseProfileV,
}

/// The mathematical shape of a [`DiffConfig`].
#[verifier::ext_equal]
pub struct DiffConfigV {
    pub profiles: Seq<(Seq<char>, DiffProfileV)>,
}

/// The shape of a sequence of strings.
pub open spec fn strings_view(xs: Seq<String>) -> Seq<Seq<char>> {
    Seq::new(xs.len(), |i: int| xs[i]@)
}

/// The shape of a sequence of header entries.
pub open spec fn pairs_view(hs: Seq<(String, String)>) -> Seq<(Seq<char>, Seq<char>)> {
    Seq::new(hs.len(), |i: int| (hs[i].0@, hs[i].1@))
}

impl View for RequestProfile {
    type V = RequestProfileV;

    open spec fn view(&self) -> RequestProfileV {
        RequestProfileV {
            method: self.method,
            url: self.url@,
            params: match self.params {
                Some(v) => Some(yaml_view(v)),
                None => None,
            },
            headers: pairs_view(self.headers@),
            body: match self.body {
                Some(v) => Some(yaml_view(v)),
                None => None,
            },
        }
    }
}

impl View for ResponseProfile {
    type V = ResponseProfileV;

    open spec fn view(&self) -> ResponseProfileV {
        ResponseProfileV {
            skip_headers: strings_view(self.skip_headers@),
            skip_body: strings_view(self.skip_body@),
        }
    }
}

impl View for DiffProfile {
    type V = DiffProfileV;

    open spec fn view(&self) -> DiffProfileV {
        DiffProfileV { req1: self.req1@, req2: self.req2@, res: self.res@ }
    }
}

/// The shape of a sequence of named profiles.
pub open spec fn profiles_view(ps: Seq<(String, DiffProfile)>) -> Seq<(Seq<char>, DiffProfileV)> {
    Seq::new(ps.len(), |i: int| (ps[i].0@, ps[i].1@))
}

impl View for DiffConfig {
    type V = DiffConfigV;

    open spec fn view(&self) -> DiffConfigV {
        DiffConfigV { profiles: profiles_view(self.profiles@) }
    }
}

/// Whether a piece of text is a syntactically valid absolute URL, as the url
/// crate's parser judges it.
pub uninterp spec fn url_ok(s: Seq<char>) -> bool;

/// Relies on url::Url::parse: without a base URL it accepts exactly the
/// syntactically valid absolute URLs, and the verdict depends on the text
/// alone.
#[verifier::external_body]
pub(crate) fn url_is_absolute(s: &str) -> (r: bool)
    ensures
        r == url_ok(s@),
{
    url::Url::parse(s).is_ok()
}

/// Whether the names in a sequence of header entries are pairwise distinct.
pub open spec fn header_names_unique(hs: Seq<(Seq<char>, Seq<char>)>) -> bool {
    forall|i: int, j: int| 0 <= i < j < hs.len() ==> hs[i].0 != hs[j].0
}

/// Whether the names in a sequence of named profiles are pairwise distinct.
pub open spec fn profile_names_unique(ps: Seq<(Seq<char>, DiffProfileV)>) -> bool {
    forall|i: int, j: int| 0 <= i < j < ps.len() ==> ps[i].0 != ps[j].0
}

/// Whether every mapping a request carries has distinct keys: its headers,
/// and every mapping inside its free-form parameters and body.
pub open spec fn distinct_keys_request(r: RequestProfileV) -> bool {
    &&& header_names_unique(r.headers)
    &&& match r.params {
        Some(v) => nodup_yaml(v),
        None => true,
    }
    &&& match r.body {
        Some(v) => nodup_yaml(v),
        None => true,
    }
}

/// Whether every mapping a document carries has distinct keys.  Encoding a
/// document that satisfies this yields a tree whose mappings all have
/// distinct keys, which YAML requires.
pub open spec fn distinct_keys_config(c: DiffConfigV) -> bool {
    &&& profile_names_unique(c.profiles)
    &&& forall|i: int| 0 <= i < c.profiles.len() ==> distinct_keys_request(
        (#[trigger] c.profiles[i].1).req1,
    ) && distinct_keys_request(c.profiles[i].1.req2)
}

/// A well-formed request definition: the URL is absolute, the headers form a
/// mapping, and absent parameters and body are `None`, never an explicit
/// null.
pub open spec fn wf_request(r: RequestProfileV) -> bool {
    &&& url_ok(r.url)
    &&& r.params != Some(YamlV::Null)
    &&& r.body != Some(YamlV::Null)
    &&& distinct_keys_request(r)
}

/// A well-formed configuration document: profile names are non-empty and
/// pairwise distinct, and every request definition is well formed.  Decoding
/// only ever produces well-formed documents.
pub open spec fn wf_config(c: DiffConfigV) -> bool {
    &&& profile_names_unique(c.profiles)
    &&& forall|i: int| 0 <= i < c.profiles.len() ==> (#[trigger] c.profiles[i]).0.len() > 0
    &&& forall|i: int| 0 <= i < c.profiles.len() ==> wf_request(
        (#[trigger] c.profiles[i].1).req1,
    ) && wf_request(c.profiles[i].1.req2)
}

} // verus!
