//! The errors a request can end with, and how each is shown to a client.

use vstd::prelude::*;
use crate::text::{decimal, push_decimal};

verus! {

/// Every way a proxied request can fail.
#[derive(Debug)]
pub enum ClewdrError {
    /// The pool is empty or every key is cooling down.
    NoKeyAvailable,
    /// The upstream answered with a non-success status.
    UpstreamHttp { code: u16, body: String },
    /// The upstream answered 2xx but without usable content, or the content
    /// failed the tag check.
    EmptyChoices,
    /// The request token was cancelled.
    RequestCancelled,
    /// An upstream body could not be decoded.
    Decode { msg: String },
    /// An I/O operation failed.
    Io { msg: String },
    /// The HTTP client could not be built.
    BuildClient { msg: String },
    /// Every attempt failed without a specific error.
    TooManyRetries,
    /// The request cannot be served as configured.
    BadRequest { msg: String },
}

/// The HTTP status a client sees for each error.
pub open spec fn status_of(e: ClewdrError) -> u16 {
    match e {
        ClewdrError::NoKeyAvailable => 503,
        ClewdrError::UpstreamHttp { .. } => 502,
        ClewdrError::EmptyChoices => 502,
        ClewdrError::RequestCancelled => 499,
        ClewdrError::Decode { .. } => 500,
        ClewdrError::Io { .. } => 500,
        ClewdrError::BuildClient { .. } => 500,
        ClewdrError::TooManyRetries => 502,
        ClewdrError::BadRequest { .. } => 400,
    }
}

/// The text that describes each error.
pub open spec fn message_of(e: ClewdrError) -> Seq<char> {
    match e {
        ClewdrError::NoKeyAvailable => "No key available"@,
        ClewdrError::UpstreamHttp { code, body } => "Upstream HTTP error "@ + decimal(code as nat) + ": "@ + body@,
        ClewdrError::EmptyChoices => "Empty choices in upstream response"@,
        ClewdrError::RequestCancelled => "Request cancelled"@,
        ClewdrError::Decode { msg } => "Decode error: "@ + msg@,
        ClewdrError::Io { msg } => "I/O error: "@ + msg@,
        ClewdrError::BuildClient { msg } => "Failed to build client: "@ + msg@,
        ClewdrError::TooManyRetries => "Too many retries"@,
        ClewdrError::BadRequest { msg } => msg@,
    }
}

impl ClewdrError {
    pub fn status_code(&self) -> (r: u16)
        ensures
            r == status_of(*self),
    {
        match self {
            ClewdrError::NoKeyAvailable => 503,
            ClewdrError::UpstreamHttp { .. } => 502,
            ClewdrError::EmptyChoices => 502,
            ClewdrError::RequestCancelled => 499,
            ClewdrError::Decode { .. } => 500,
            ClewdrError::Io { .. } => 500,
            ClewdrError::BuildClient { .. } => 500,
            ClewdrError::TooManyRetries => 502,
            ClewdrError::BadRequest { .. } => 400,
        }
    }

    pub fn message(&self) -> (r: String)
        ensures
            r@ == message_of(*self),
    {
        match self {
            ClewdrError::NoKeyAvailable => String::from_str("No key available"),
            ClewdrError::UpstreamHttp { code, body } => {
                let mut r = String::from_str("Upstream HTTP error ");
                push_decimal(&mut r, *code as u64);
                r.append(": ");
                r.append(body.as_str());
                r
            },
            ClewdrError::EmptyChoices => String::from_str("Empty choices in upstream response"),
            ClewdrError::RequestCancelled => String::from_str("Request cancelled"),
            ClewdrError::Decode { msg } => {
                let mut r = String::from_str("Decode error: ");
                r.append(msg.as_str());
                r
            },
            ClewdrError::Io { msg } => {
                let mut r = String::from_str("I/O error: ");
                r.append(msg.as_str());
                r
            },
            ClewdrError::BuildClient { msg } => {
                let mut r = String::from_str("Failed to build client: ");
                r.append(msg.as_str());
                r
            },
            ClewdrError::TooManyRetries => String::from_str("Too many retries"),
            ClewdrError::BadRequest { msg } => msg.clone(),
        }
    }
}

} // verus!
