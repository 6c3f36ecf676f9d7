use github_stats_fetcher::poll::GaugeState;
use github_stats_fetcher::repository_stats::{FetchError, RepoStats, StatsFetcher};

fn fetcher_for(repo: &str) -> StatsFetcher {
    StatsFetcher::new(repo.to_string(), reqwest::Client::new())
}

#[test]
fn resolves_endpoint_url() {
    let fetcher = fetcher_for("octocat/Hello-World");
    assert_eq!(
        fetcher.url(),
        "https://api.github.com/repos/octocat/Hello-World"
    );
}

#[test]
fn valid_body_yields_exact_record() {
    let fetcher = fetcher_for("octocat/Hello-World");
    let body = r#"{"open_issues_count": 42, "stargazers_count": 1500, "name": "Hello-World"}"#;
    let result = fetcher.interpret_response(Ok(body.as_bytes().to_vec()));
    assert_eq!(
        result.unwrap(),
        RepoStats {
            stargazers_count: 1500,
            open_issues_count: 42
        }
    );
}

#[test]
fn transport_failure_is_request_class() {
    let fetcher = fetcher_for("octocat/Hello-World");
    let result = fetcher.interpret_response(Err("connection refused".to_string()));
    match result {
        Err(FetchError::Request { url, cause }) => {
            assert_eq!(url, "https://api.github.com/repos/octocat/Hello-World");
            assert_eq!(cause, "connection refused");
        }
        other => panic!("expected a request-class error, got {:?}", other),
    }
}

#[test]
fn error_payload_is_decode_class() {
    let fetcher = fetcher_for("octocat/Hello-World");
    let body = r#"{"message": "Not Found", "documentation_url": "https://docs.github.com"}"#;
    let result = fetcher.interpret_response(Ok(body.as_bytes().to_vec()));
    match result {
        Err(FetchError::Decode { url, cause }) => {
            assert_eq!(url, "https://api.github.com/repos/octocat/Hello-World");
            assert_eq!(cause, "response body did not decode into the expected record");
        }
        other => panic!("expected a decode-class error, got {:?}", other),
    }
}

#[test]
fn error_classes_are_distinguishable() {
    let fetcher = fetcher_for("o/r");
    let request = fetcher.interpret_response(Err("timeout".to_string()));
    let decode = fetcher.interpret_response(Ok(b"not json".to_vec()));
    assert!(matches!(request, Err(FetchError::Request { .. })));
    assert!(matches!(decode, Err(FetchError::Decode { .. })));
}

#[test]
fn describes_errors_with_url_and_cause() {
    let fetcher = fetcher_for("o/r");
    let request = fetcher.interpret_response(Err("timeout".to_string())).unwrap_err();
    assert_eq!(
        request.describe(),
        "Failed to send request at https://api.github.com/repos/o/r: timeout"
    );
    let decode = fetcher.interpret_response(Ok(b"{}".to_vec())).unwrap_err();
    assert_eq!(
        decode.describe(),
        "Failed to parse response from https://api.github.com/repos/o/r: response body did not decode into the expected record"
    );
}

fn stats(stars: u64, issues: u64) -> RepoStats {
    RepoStats {
        stargazers_count: stars,
        open_issues_count: issues,
    }
}

fn decode_error() -> FetchError {
    FetchError::Decode {
        url: "https://api.github.com/repos/o/r".to_string(),
        cause: "response body did not decode into the expected record".to_string(),
    }
}

#[test]
fn gauges_track_latest_success_across_alternating_ticks() {
    let mut state = GaugeState::new();
    assert_eq!(state.published, None);
    state.on_tick(Ok(stats(10, 1)));
    state.on_tick(Err(decode_error()));
    state.on_tick(Ok(stats(20, 2)));
    state.on_tick(Err(decode_error()));
    state.on_tick(Err(decode_error()));
    assert_eq!(state.published, Some(stats(20, 2)));
}

#[test]
fn gauges_stay_unset_until_first_success() {
    let mut state = GaugeState::new();
    state.on_tick(Err(decode_error()));
    state.on_tick(Err(decode_error()));
    assert_eq!(state.published, None);
    state.on_tick(Ok(stats(1, 1)));
    assert_eq!(state.published, Some(stats(1, 1)));
}

#[test]
fn example_scenario_gauges_read_fetched_values() {
    let fetcher = fetcher_for("octocat/Hello-World");
    let body = r#"{"open_issues_count": 42, "stargazers_count": 1500, "fork": false}"#;
    let mut state = GaugeState::new();
    state.on_tick(fetcher.interpret_response(Ok(body.as_bytes().to_vec())));
    assert_eq!(state.published, Some(stats(1500, 42)));
}

#[test]
fn example_scenario_not_found_leaves_gauges_unchanged() {
    let fetcher = fetcher_for("octocat/Hello-World");
    let mut state = GaugeState::new();
    state.on_tick(fetcher.interpret_response(Ok(
        br#"{"open_issues_count": 42, "stargazers_count": 1500}"#.to_vec(),
    )));
    let not_found = fetcher.interpret_response(Ok(br#"{"message":"Not Found"}"#.to_vec()));
    assert!(matches!(not_found, Err(FetchError::Decode { .. })));
    state.on_tick(not_found);
    assert_eq!(state.published, Some(stats(1500, 42)));
}
