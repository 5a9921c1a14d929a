use webb::fetch::{Attempt, FetchClient, FetchStep, RETRIES, THROTTLE};
use webb::records::Error;

/// Runs one fetch against a stub whose first `failures` requests fail, and
/// returns the result with the number of requests that were made.
fn fetch_with(failures: u32) -> (Result<String, Error>, u32) {
    let client = FetchClient::new(THROTTLE);
    let mut fetch = client.fetch("https://example.org/page");
    let mut made = 0;
    loop {
        assert_eq!(fetch.url(), "https://example.org/page");
        made += 1;
        let attempt = if made <= failures {
            if made % 2 == 0 { Attempt::DecodeFailed } else { Attempt::TransportFailed }
        } else {
            Attempt::Body(format!("body after {}", failures))
        };
        match fetch.advance(attempt) {
            FetchStep::Retry(next) => fetch = next,
            FetchStep::Done(result) => return (result, made),
        }
    }
}

#[test]
fn constants() {
    assert_eq!(RETRIES, 5);
    assert_eq!(THROTTLE, 2);
}

#[test]
fn first_request_succeeds() {
    assert_eq!(fetch_with(0), (Ok("body after 0".to_string()), 1));
}

#[test]
fn success_after_fewer_failures_than_retries() {
    for failures in 1..RETRIES {
        assert_eq!(
            fetch_with(failures),
            (Ok(format!("body after {}", failures)), failures + 1)
        );
    }
}

#[test]
fn network_error_after_exactly_retries_requests() {
    assert_eq!(fetch_with(RETRIES), (Err(Error::NetworkError), RETRIES));
    assert_eq!(fetch_with(RETRIES + 3), (Err(Error::NetworkError), RETRIES));
}

#[test]
fn remaining_counts_down() {
    let client = FetchClient::new(1);
    let fetch = client.fetch("u");
    assert_eq!(fetch.remaining(), 5);
    match fetch.advance(Attempt::TransportFailed) {
        FetchStep::Retry(next) => assert_eq!(next.remaining(), 4),
        FetchStep::Done(_) => panic!("the fetch ended after one failure"),
    }
}

#[test]
fn permits_are_bounded() {
    let mut client = FetchClient::new(2);
    assert_eq!(client.throttle(), 2);
    assert_eq!(client.in_use(), 0);
    assert!(client.acquire());
    assert!(client.acquire());
    assert!(!client.acquire());
    assert_eq!(client.in_use(), 2);
    client.release();
    assert_eq!(client.in_use(), 1);
    assert!(client.acquire());
    assert!(!client.acquire());
    assert_eq!(client.in_use(), 2);
}

#[test]
fn client_without_permits_grants_none() {
    let mut client = FetchClient::new(0);
    assert!(!client.acquire());
    assert_eq!(client.in_use(), 0);
}
