//! The HTTP verb set that a request profile may name.

use vstd::prelude::*;
use crate::text::str_eq;

verus! {

/// One of the standard HTTP verbs.  A request profile that names no verb
/// defaults to `Get`.
#[derive(Clone, Copy, Debug, PartialEq, Eq, Structural)]
pub enum Method {
    Get,
    Post,
    Put,
    Delete,
    Head,
    Options,
    Connect,
    Patch,
    Trace,
}

/// The canonical spelling of a verb, as it stands in a document.
pub open spec fn method_text(m: Method) -> Seq<char> {
    match m {
        Method::Get => "GET"@,
        Method::Post => "POST"@,
        Method::Put => "PUT"@,
        Method::Delete => "DELETE"@,
        Method::Head => "HEAD"@,
        Method::Options => "OPTIONS"@,
        Method::Connect => "CONNECT"@,
        Method::Patch => "PATCH"@,
        Method::Trace => "TRACE"@,
    }
}

/// The verb a piece of text names, if any.  Only the canonical upper-case
/// spellings are recognized.
pub open spec fn method_of_text(s: Seq<char>) -> Option<Method> {
    if s == "GET"@ {
        Some(Method::Get)
    } else if s == "POST"@ {
        Some(Method::Post)
    } else if s == "PUT"@ {
        Some(Method::Put)
    } else if s == "DELETE"@ {
        Some(Method::Delete)
    } else if s == "HEAD"@ {
        Some(Method::Head)
    } else if s == "OPTIONS"@ {
        Some(Method::Options)
    } else if s == "CONNECT"@ {
        Some(Method::Connect)
    } else if s == "PATCH"@ {
        Some(Method::Patch)
    } else if s == "TRACE"@ {
        Some(Method::Trace)
    } else {
        None
    }
}

impl Method {
    /// The canonical spelling of this verb.
    pub fn name(&self) -> (r: &'static str)
        ensures
            r@ == method_text(*self),
    {
        match self {
            Method::Get => "GET",
            Method::Post => "POST",
            Method::Put => "PUT",
            Method::Delete => "DELETE",
            Method::Head => "HEAD",
            Method::Options => "OPTIONS",
            Method::Connect => "CONNECT",
            Method::Patch => "PATCH",
            Method::Trace => "TRACE",
        }
    }

    /// Recognizes a verb by its canonical spelling.
    pub fn from_name(s: &str) -> (r: Option<Method>)
        ensures
            r == method_of_text(s@),
    {
        if str_eq(s, "GET") {
            Some(Method::Get)
        } else if str_eq(s, "POST") {
            Some(Method::Post)
        } else if str_eq(s, "PUT") {
            Some(Method::Put)
        } else if str_eq(s, "DELETE") {
            Some(Method::Delete)
        } else if str_eq(s, "HEAD") {
            Some(Method::Head)
        } else if str_eq(s, "OPTIONS") {
            Some(Method::Options)
        } else if str_eq(s, "CONNECT") {
            Some(Method::Connect)
        } else if str_eq(s, "PATCH") {
            Some(Method::Patch)
        } else if str_eq(s, "TRACE") {
            Some(Method::Trace)
        } else {
            None
        }
    }
}

/// Rendering a verb and reading it back yields the same verb: the canonical
/// spellings are exactly the recognized ones.
pub proof fn lemma_method_text_roundtrip(m: Method)
    ensures
        method_of_text(method_text(m)) == Some(m),
{
    broadcast use vstd::string::group_string_axioms;

    reveal_strlit("GET");
    reveal_strlit("POST");
    reveal_strlit("PUT");
    reveal_strlit("DELETE");
    reveal_strlit("HEAD");
    reveal_strlit("OPTIONS");
    reveal_strlit("CONNECT");
    reveal_strlit("PATCH");
    reveal_strlit("TRACE");
    assert("GET"@.len() == 3);
    assert("POST"@.len() == 4);
    assert("PUT"@.len() == 3);
    assert("DELETE"@.len() == 6);
    assert("HEAD"@.len() == 4);
    assert("OPTIONS"@.len() == 7);
    assert("CONNECT"@.len() == 7);
    assert("PATCH"@.len() == 5);
    assert("TRACE"@.len() == 5);
    assert("PUT"@ != "GET"@) by {
        assert("GET"@[0] == 'G' && "PUT"@[0] == 'P');
    }
    assert("HEAD"@ != "POST"@) by {
        assert("POST"@[0] == 'P' && "HEAD"@[0] == 'H');
    }
    assert("CONNECT"@ != "OPTIONS"@) by {
        assert("OPTIONS"@[0] == 'O' && "CONNECT"@[0] == 'C');
    }
    assert("TRACE"@ != "PATCH"@) by {
        assert("PATCH"@[0] == 'P' && "TRACE"@[0] == 'T');
    }
}

} // verus!
