//! Plain request and response shapes.  The transport that carries them is
//! an external collaborator; the library only decides what is sent and
//! how a response binds back into the script context.
use crate::error::Error;
use crate::text::str_eqs;
use crate::value::Value;
use vstd::prelude::*;

verus! {

use vstd::string::StringExecFns;

/// The request methods the configuration accepts.
#[derive(Debug, PartialEq, Eq, Structural, Copy, Clone)]
pub enum Method {
    Get,
    Post,
    Put,
    Delete,
    Patch,
}

/// The method a configuration string denotes, if any.
pub open spec fn method_model(s: Seq<char>) -> Option<Method> {
    if s == "GET"@ {
        Some(Method::Get)
    } else if s == "POST"@ {
        Some(Method::Post)
    } else if s == "PUT"@ {
        Some(Method::Put)
    } else if s == "DELETE"@ {
        Some(Method::Delete)
    } else if s == "PATCH"@ {
        Some(Method::Patch)
    } else {
        None
    }
}

impl Method {
    /// Parses a configured method name; anything but the five supported
    /// verbs is a configuration error naming the method.
    pub fn from_str(s: &str) -> (r: Result<Method, Error>)
        ensures
            match r {
                Ok(m) => method_model(s@) == Some(m),
                Err(e) => method_model(s@) is None && (e matches Error::ConfigError(mm) && mm@
                    == "invalid method '"@ + s@ + "'"@),
            },
    {
        if str_eqs(s, "GET") {
            Ok(Method::Get)
        } else if str_eqs(s, "POST") {
            Ok(Method::Post)
        } else if str_eqs(s, "PUT") {
            Ok(Method::Put)
        } else if str_eqs(s, "DELETE") {
            Ok(Method::Delete)
        } else if str_eqs(s, "PATCH") {
            Ok(Method::Patch)
        } else {
            let msg = String::from_str("invalid method '").concat(s).concat("'");
            proof {
                assert(msg@ =~= "invalid method '"@ + s@ + "'"@);
            }
            Err(Error::ConfigError(msg))
        }
    }

    /// The method's configuration spelling.
    pub fn as_str(&self) -> (r: &'static str)
        ensures
            method_model(r@) == Some(*self),
    {
        proof {
            reveal_strlit("GET");
            reveal_strlit("POST");
            reveal_strlit("PUT");
            reveal_strlit("DELETE");
            reveal_strlit("PATCH");
            assert("GET"@.len() == 3);
            assert("POST"@.len() == 4);
            assert("PUT"@.len() == 3);
            assert("DELETE"@.len() == 6);
            assert("PATCH"@.len() == 5);
            assert("PUT"@[0] == 'P');
            assert("GET"@[0] == 'G');
        }
        match self {
            Method::Get => "GET",
            Method::Post => "POST",
            Method::Put => "PUT",
            Method::Delete => "DELETE",
            Method::Patch => "PATCH",
        }
    }
}

/// A request ready to hand to the transport: the full URI, the method,
/// the configured headers, the substituted JSON body text, and the
/// per-request timeout.
#[derive(Debug)]
pub struct HttpRequest {
    pub uri: String,
    pub method: Method,
    pub headers: Option<Vec<(String, String)>>,
    pub body: Option<String>,
    pub timeout_millis: u64,
}

/// A response as the transport hands it back: the status code, the
/// headers in arrival order (names may repeat), the body already
/// projected into the script value domain, when the request started, and
/// how many times it was retried.
#[derive(Debug)]
pub struct HttpResponse {
    pub status: u16,
    pub headers: Vec<(String, String)>,
    pub body: Option<Value>,
    pub request_start_micros: u64,
    pub retry_count: u32,
}

} // verus!
