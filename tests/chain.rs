use azure_identity_helpers::chained_token_credential::{
    format_aggregate_error, join_strings, ChainedTokenCredential, ChainedTokenCredentialOptions,
    Route, SearchState, SearchStep,
};
use azure_identity_helpers::error::ErrorKind;
use std::sync::Arc;

fn causes(c: &[&str]) -> Vec<String> {
    c.iter().map(|s| s.to_string()).collect()
}

/// Runs one search over sources whose outcome is `Ok(name)` or `Err(causes)`;
/// returns the winner or the aggregate error (kind and message), and the
/// sources asked.
fn run_search(
    chain: &ChainedTokenCredential<Result<&'static str, Vec<String>>>,
) -> (Result<usize, (ErrorKind, String)>, Vec<usize>) {
    let mut st: SearchState = chain.start_search();
    let mut asked = Vec::new();
    loop {
        match chain.search_step(&st) {
            SearchStep::Try(i) => {
                asked.push(i);
                match chain.source(i) {
                    Ok(_) => chain.record_success(&mut st),
                    Err(c) => chain.record_failure(&mut st, c.clone()),
                }
            }
            SearchStep::Done(i) => return (Ok(i), asked),
            SearchStep::Exhausted(e) => return (Err((e.kind, e.to_string())), asked),
        }
    }
}

fn chain(
    retry: bool,
    outcomes: Vec<Result<&'static str, Vec<String>>>,
) -> ChainedTokenCredential<Result<&'static str, Vec<String>>> {
    let mut c = ChainedTokenCredential::new(Some(ChainedTokenCredentialOptions { retry_sources: retry }));
    for o in outcomes {
        c.add_source(o);
    }
    c
}

#[test]
fn test_adding_azure_cli() {
    let mut credential: ChainedTokenCredential<Arc<dyn azure_core::credentials::TokenCredential>> =
        ChainedTokenCredential::new(None);
    let cli = azure_identity::AzureCliCredential::new(None).unwrap();
    credential.add_source(cli);
    assert_eq!(credential.len(), 1);
}

#[test]
fn default_options_pin() {
    assert!(!ChainedTokenCredentialOptions::default().retry_sources);
    let c: ChainedTokenCredential<u8> = ChainedTokenCredential::new(None);
    assert!(!c.retry_sources());
}

#[test]
fn first_success_wins_and_later_sources_are_not_asked() {
    let c = chain(true, vec![Err(causes(&["A failed"])), Ok("B"), Ok("C")]);
    for _ in 0..3 {
        let (r, asked) = run_search(&c);
        assert_eq!(r, Ok(1));
        assert_eq!(asked, vec![0, 1]);
    }
}

#[test]
fn pin_persists_through_failures() {
    let mut c = chain(false, vec![Err(causes(&["A failed"])), Ok("B"), Ok("C")]);
    assert!(matches!(c.route(), Route::Search));
    let (r, _) = run_search(&c);
    assert_eq!(r, Ok(1));
    c.finish_search(Some(1));
    for _ in 0..5 {
        assert!(matches!(c.route(), Route::Pinned(1)));
    }
    c.clear();
    assert!(matches!(c.route(), Route::Search));
}

#[test]
fn retry_sources_always_searches_from_first() {
    let mut c = chain(true, vec![Err(causes(&["A failed"])), Ok("B")]);
    for _ in 0..3 {
        assert!(matches!(c.route(), Route::Search));
        let (r, asked) = run_search(&c);
        assert_eq!(r, Ok(1));
        assert_eq!(asked, vec![0, 1]);
        c.finish_search(Some(1));
    }
}

#[test]
fn aggregate_error_lists_failures_in_order() {
    let c = chain(
        true,
        vec![Err(causes(&["not installed"])), Err(causes(&["denied", "bad password"]))],
    );
    let (r, asked) = run_search(&c);
    assert_eq!(asked, vec![0, 1]);
    let (kind, m) = r.unwrap_err();
    assert_eq!(kind, ErrorKind::Credential);
    assert_eq!(
        m,
        "Multiple errors were encountered while attempting to authenticate:\nnot installed\ndenied - bad password"
    );
    let a = m.find("not installed").unwrap();
    let b = m.find("denied").unwrap();
    assert!(a < b);
}

#[test]
fn empty_chain_fails_with_header_only() {
    let c = chain(false, vec![]);
    let (r, asked) = run_search(&c);
    assert!(asked.is_empty());
    assert_eq!(
        r,
        Err((
            ErrorKind::Credential,
            "Multiple errors were encountered while attempting to authenticate:\n".to_string()
        ))
    );
}

#[test]
fn concurrent_first_calls_search_once() {
    let mut c = chain(false, vec![Ok("slow")]);
    assert!(matches!(c.route(), Route::Search));
    for _ in 0..7 {
        assert!(matches!(c.route(), Route::AwaitSearch));
    }
    c.finish_search(Some(0));
    for _ in 0..8 {
        assert!(matches!(c.route(), Route::Pinned(0)));
    }
}

#[test]
fn failed_pinning_search_lets_next_request_search() {
    let mut c = chain(false, vec![Err(causes(&["x"]))]);
    assert!(matches!(c.route(), Route::Search));
    assert!(matches!(c.route(), Route::AwaitSearch));
    c.finish_search(None);
    assert!(matches!(c.route(), Route::Search));
}

#[test]
fn formatting_helpers() {
    assert_eq!(join_strings(&causes(&["a", "b", "c"]), ", "), "a, b, c");
    assert_eq!(join_strings(&causes(&[]), ", "), "");
    let errs = vec![causes(&["top", "cause"]), causes(&["other"])];
    assert_eq!(format_aggregate_error(&errs), "top - cause\nother");
}

#[test]
fn search_stops_at_first_success_and_stays_done() {
    let c = chain(true, vec![Ok("A"), Ok("B")]);
    let mut st = c.start_search();
    assert!(matches!(c.search_step(&st), SearchStep::Try(0)));
    c.record_success(&mut st);
    for _ in 0..3 {
        assert!(matches!(c.search_step(&st), SearchStep::Done(0)));
    }
}
