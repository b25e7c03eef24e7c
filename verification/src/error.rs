//! The error type of the Kubernetes layer.
use vstd::prelude::*;

use crate::text::owned;

verus! {

/// Failures of the Kubernetes layer, each carrying its message.
#[derive(Debug)]
pub enum K8sError {
    /// The Kubernetes configuration could not be loaded.
    Config(String),
    /// The Kubernetes client could not be built.
    Build(String),
    /// A Kubernetes API request failed, or its input was rejected.
    Api(String),
    /// A command run inside a container failed.
    Container(String),
}

/// `e` is an API error whose message is `msg`.
pub open spec fn is_api_error(e: K8sError, msg: Seq<char>) -> bool {
    e matches K8sError::Api(m) && m@ == msg
}

impl K8sError {
    /// The message as shown to users: the variant's prefix followed by its
    /// text; a failed container command shows its own text.
    pub fn message(&self) -> (r: String)
        ensures
            r@ == self.spec_message(),
    {
        let (prefix, text) = match self {
            K8sError::Config(m) => ("failed to load Kubernetes config: ", m),
            K8sError::Build(m) => ("failed to build Kubernetes client: ", m),
            K8sError::Api(m) => ("Kubernetes API error: ", m),
            K8sError::Container(m) => ("", m),
        };
        proof {
            reveal_strlit("");
        }
        let mut r = owned(prefix);
        r.append(text.as_str());
        r
    }

    /// The user-facing message.
    pub open spec fn spec_message(&self) -> Seq<char> {
        match self {
            K8sError::Config(m) => "failed to load Kubernetes config: "@ + m@,
            K8sError::Build(m) => "failed to build Kubernetes client: "@ + m@,
            K8sError::Api(m) => "Kubernetes API error: "@ + m@,
            K8sError::Container(m) => m@,
        }
    }
}

/// Wraps a message as an API error.
pub fn api_err(message: &str) -> (e: K8sError)
    ensures
        is_api_error(e, message@),
{
    K8sError::Api(owned(message))
}

} // verus!
