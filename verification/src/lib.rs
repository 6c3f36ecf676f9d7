//! Periodically polled GitHub repository statistics: a verified decoder
//! for the metadata endpoint's response body, the fetcher configuration
//! around it, and the state machine of the poll-and-export loop.

pub mod json;
pub mod poll;
pub mod repository_stats;
