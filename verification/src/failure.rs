//! What goes wrong, and what arrives where nothing does.

use vstd::prelude::*;

verus! {

/// A Stream that arrived, and where from.
#[derive(Clone, Debug, PartialEq, Eq)]
pub struct Arrived {
    pub origin_uri: String,
    pub bytes: Vec<u8>,
}

/// [`Arrived`] in specifications.
#[verifier::ext_equal]
pub struct ArrivedView {
    pub origin_uri: Seq<char>,
    pub bytes: Seq<u8>,
}

impl View for Arrived {
    type V = ArrivedView;

    open spec fn view(&self) -> ArrivedView {
        ArrivedView { origin_uri: self.origin_uri@, bytes: self.bytes@ }
    }
}

impl Arrived {
    /// The Stream `bytes` from `origin_uri`.
    pub fn new(origin_uri: String, bytes: Vec<u8>) -> (arrived: Self)
        ensures
            arrived.origin_uri == origin_uri,
            arrived.bytes == bytes,
    {
        Arrived { origin_uri, bytes }
    }
}

/// Why an exchange did not come about.
#[derive(Clone, Debug, PartialEq, Eq)]
pub enum Failure {
    /// What was asked for cannot be done, now or later.
    Permanent(String),
    /// The far end answered with something other than the API answers.
    Protocol(String),
    /// The far end answered with a status that is not success; `retryable`
    /// where HTTP says come back.
    Answered { message: String, retryable: bool },
    /// What the endpoint itself reports: it is no HTTP URL, or nobody
    /// listens there.
    Endpoint { message: String, retryable: bool },
}

/// [`Failure`] in specifications.
pub enum FailureView {
    Permanent(Seq<char>),
    Protocol(Seq<char>),
    Answered { message: Seq<char>, retryable: bool },
    Endpoint { message: Seq<char>, retryable: bool },
}

impl View for Failure {
    type V = FailureView;

    open spec fn view(&self) -> FailureView {
        match *self {
            Failure::Permanent(message) => FailureView::Permanent(message@),
            Failure::Protocol(message) => FailureView::Protocol(message@),
            Failure::Answered { message, retryable } => FailureView::Answered {
                message: message@,
                retryable,
            },
            Failure::Endpoint { message, retryable } => FailureView::Endpoint {
                message: message@,
                retryable,
            },
        }
    }
}

impl FailureView {
    /// What went wrong, in words.
    pub open spec fn message(self) -> Seq<char> {
        match self {
            FailureView::Permanent(message) => message,
            FailureView::Protocol(message) => message,
            FailureView::Answered { message, .. } => message,
            FailureView::Endpoint { message, .. } => message,
        }
    }

    /// Whether to try again; a broken protocol leaves it to the transport.
    pub open spec fn retryable(self) -> Option<bool> {
        match self {
            FailureView::Permanent(_) => Some(false),
            FailureView::Protocol(_) => None,
            FailureView::Answered { retryable, .. } => Some(retryable),
            FailureView::Endpoint { retryable, .. } => Some(retryable),
        }
    }
}

impl Failure {
    /// What went wrong, in words.
    pub fn message(&self) -> (message: &str)
        ensures
            message@ == self@.message(),
    {
        match self {
            Failure::Permanent(message) => message.as_str(),
            Failure::Protocol(message) => message.as_str(),
            Failure::Answered { message, .. } => message.as_str(),
            Failure::Endpoint { message, .. } => message.as_str(),
        }
    }

    /// Whether to try again; a broken protocol leaves it to the transport.
    pub fn retryable(&self) -> (again: Option<bool>)
        ensures
            again == self@.retryable(),
    {
        match self {
            Failure::Permanent(_) => Some(false),
            Failure::Protocol(_) => None,
            Failure::Answered { retryable, .. } => Some(*retryable),
            Failure::Endpoint { retryable, .. } => Some(*retryable),
        }
    }
}

} // verus!
