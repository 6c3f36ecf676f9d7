//! The stats fetcher: its configuration, the resolved endpoint URL, and
//! the interpretation of one fetch cycle's transport outcome.

use crate::json;
use vstd::prelude::*;
use vstd::string::StringExecFns;

verus! {

/// Relies on `reqwest::Client` only as an opaque, cloneable handle: the
/// library stores the configured client and hands it back for the caller
/// to perform the transport with; no behaviour of it is assumed.
#[verifier::external_type_specification]
#[verifier::external_body]
pub struct ExClient(reqwest::Client);

/// Statistics of a repository, produced by one successful fetch cycle.
///
/// Both counters must be present in the response body as non-negative
/// integers, or the fetch fails as a whole; there is no partial record.
#[derive(Clone, Copy, Debug, PartialEq, Eq, Structural)]
pub struct RepoStats {
    /// Number of stars
    pub stargazers_count: u64,
    /// Open issues
    pub open_issues_count: u64,
}

/// Why one fetch cycle failed. The two classes are distinguishable:
/// transport failures become `Request`, everything that reached us but
/// did not decode into the expected shape becomes `Decode` (deliberately
/// including error payloads served with non-2xx status).
#[derive(Debug)]
pub enum FetchError {
    /// The request could not be sent or no response arrived.
    Request { url: String, cause: String },
    /// The response body did not decode into the two-field record.
    Decode { url: String, cause: String },
}

/// The endpoint URL for a repository identifier.
pub open spec fn url_of(repo: Seq<char>) -> Seq<char> {
    "https://api.github.com/repos/"@ + repo
}

impl FetchError {
    /// A log-ready description of the failure, carrying the resolved URL
    /// and, for transport failures, the underlying cause.
    pub fn describe(&self) -> (r: String)
        ensures
            match self {
                FetchError::Request { url, cause } => r@ == "Failed to send request at "@ + url@
                    + ": "@ + cause@,
                FetchError::Decode { url, cause } => r@ == "Failed to parse response from "@
                    + url@ + ": "@ + cause@,
            },
    {
        match self {
            FetchError::Request { url, cause } => {
                let mut m: String = "Failed to send request at ".to_owned();
                m.append(url.as_str());
                m.append(": ");
                m.append(cause.as_str());
                m
            },
            FetchError::Decode { url, cause } => {
                let mut m: String = "Failed to parse response from ".to_owned();
                m.append(url.as_str());
                m.append(": ");
                m.append(cause.as_str());
                m
            },
        }
    }
}

/// Owns the target repository identifier and the shared HTTP client.
pub struct StatsFetcher {
    repository: String,
    client: reqwest::Client,
}

impl StatsFetcher {
    /// The configured repository identifier.
    pub closed spec fn repository_spec(&self) -> Seq<char> {
        self.repository@
    }

    /// The stored HTTP client.
    pub closed spec fn client_spec(&self) -> reqwest::Client {
        self.client
    }

    pub fn new(repo: String, client: reqwest::Client) -> (r: Self)
        ensures
            r.repository_spec() == repo@,
            r.client_spec() == client,
    {
        StatsFetcher { repository: repo, client }
    }

    /// The resolved endpoint URL for the target repository.
    pub fn url(&self) -> (r: String)
        ensures
            r@ == url_of(self.repository_spec()),
    {
        let mut u: String = "https://api.github.com/repos/".to_owned();
        u.append(self.repository.as_str());
        u
    }

    /// The shared HTTP client this fetcher was configured with — exactly
    /// the one passed at construction; the transport itself is performed
    /// by the caller.
    pub fn client(&self) -> (r: &reqwest::Client)
        ensures
            *r == self.client_spec(),
    {
        &self.client
    }

    /// Interprets the transport outcome of one fetch cycle: a transport
    /// failure (carried as its description) becomes a request-class
    /// error; a received body yields the record exactly when it decodes,
    /// and a decode-class error otherwise.
    pub fn interpret_response(&self, outcome: Result<Vec<u8>, String>) -> (r: Result<
        RepoStats,
        FetchError,
    >)
        ensures
            match outcome {
                Err(cause) => r matches Err(FetchError::Request { url, cause: c }) && url@
                    == url_of(self.repository_spec()) && c@ == cause@,
                Ok(body) => match json::spec_decode(body@) {
                    Some(p) => r == Ok::<RepoStats, FetchError>(
                        RepoStats { stargazers_count: p.0, open_issues_count: p.1 },
                    ),
                    None => r matches Err(FetchError::Decode { url, cause }) && url@ == url_of(
                        self.repository_spec(),
                    ) && cause@ == "response body did not decode into the expected record"@,
                },
            },
    {
        match outcome {
            Err(cause) => Err(FetchError::Request { url: self.url(), cause }),
            Ok(body) => match json::decode_counts(body.as_slice()) {
                Some((stars, issues)) => Ok(
                    RepoStats { stargazers_count: stars, open_issues_count: issues },
                ),
                None => Err(
                    FetchError::Decode {
                        url: self.url(),
                        cause: "response body did not decode into the expected record".to_owned(),
                    },
                ),
            },
        }
    }
}

} // verus!
