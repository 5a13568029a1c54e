use wsgate::error::GatewayError;
use wsgate::gateway::{complete_response, error_response, respond, AppOutcome};
use wsgate::request::{translate, Request};
use wsgate::response::{parse_status_code, ResponseCollector};

fn collector_with(status: &[u8], headers: Vec<(&[u8], &[u8])>) -> ResponseCollector {
    let mut c = ResponseCollector::new();
    c.call(
        status.to_vec(),
        headers.into_iter().map(|(n, v)| (n.to_vec(), v.to_vec())).collect(),
    );
    c
}

#[test]
fn status_code_read_from_leading_token() {
    assert_eq!(parse_status_code(&b"200 OK".to_vec()), Some(200));
    assert_eq!(parse_status_code(&b"404 Not Found".to_vec()), Some(404));
    assert_eq!(parse_status_code(&b"204".to_vec()), Some(204));
    assert_eq!(parse_status_code(&b"000200 OK".to_vec()), Some(200));
}

#[test]
fn status_code_rejects_non_digit_tokens() {
    assert_eq!(parse_status_code(&b"abc OK".to_vec()), None);
    assert_eq!(parse_status_code(&b"20a OK".to_vec()), None);
    assert_eq!(parse_status_code(&b"+200 OK".to_vec()), None);
}

#[test]
fn status_code_rejects_empty_or_missing_token() {
    assert_eq!(parse_status_code(&b"".to_vec()), None);
    assert_eq!(parse_status_code(&b" OK".to_vec()), None);
}

#[test]
fn status_code_bounded_to_sixteen_bits() {
    assert_eq!(parse_status_code(&b"65535 x".to_vec()), Some(65535));
    assert_eq!(parse_status_code(&b"65536 x".to_vec()), None);
    assert_eq!(parse_status_code(&b"99999999999 x".to_vec()), None);
}

#[test]
fn collector_starts_empty_and_last_call_wins() {
    let mut c = ResponseCollector::new();
    assert_eq!(c.status, Vec::<u8>::new());
    assert_eq!(c.headers, Vec::<(Vec<u8>, Vec<u8>)>::new());
    c.call(b"200 OK".to_vec(), vec![(b"A".to_vec(), b"1".to_vec())]);
    c.call(b"404 Not Found".to_vec(), vec![(b"B".to_vec(), b"2".to_vec())]);
    assert_eq!(c.status, b"404 Not Found".to_vec());
    assert_eq!(c.headers, vec![(b"B".to_vec(), b"2".to_vec())]);
}

#[test]
fn committed_response_uses_captured_status_and_headers() {
    let c = collector_with(b"200 OK", vec![(b"Content-Type", b"text/plain")]);
    let (resp, failure) = respond(AppOutcome::Chunks(vec![b"ok".to_vec()]), &c);
    assert_eq!(failure, None);
    assert_eq!(resp.status_line, b"200 OK".to_vec());
    assert_eq!(parse_status_code(&resp.status_line), Some(200));
    assert_eq!(
        resp.headers,
        vec![(b"Content-Type".to_vec(), b"text/plain".to_vec())]
    );
}

#[test]
fn raised_invocation_yields_generic_500() {
    // whatever the collector recorded is discarded
    let c = collector_with(b"200 OK", vec![(b"Content-Type", b"text/plain")]);
    let (resp, failure) = respond(AppOutcome::Raised, &c);
    assert_eq!(failure, Some(GatewayError::ApplicationInvocation));
    assert_eq!(resp.status_line, b"500 Internal Server Error".to_vec());
    assert_eq!(resp.headers, Vec::<(Vec<u8>, Vec<u8>)>::new());
    assert_eq!(resp.body, b"Internal Server Error\n".to_vec());
}

#[test]
fn chunks_concatenated_in_order() {
    let c = collector_with(b"200 OK", vec![]);
    let chunks = vec![b"hello".to_vec(), b" ".to_vec(), b"world".to_vec()];
    let (resp, failure) = respond(AppOutcome::Chunks(chunks), &c);
    assert_eq!(failure, None);
    assert_eq!(resp.body, b"hello world".to_vec());
}

#[test]
fn malformed_target_answered_with_400() {
    let r = translate(Request {
        method: b"GET".to_vec(),
        target: b"example.com:80".to_vec(),
        protocol: b"HTTP/1.1".to_vec(),
        headers: vec![],
        body: vec![],
    });
    let e = r.err().expect("translation should fail");
    assert_eq!(e, GatewayError::MalformedRequest);
    let resp = error_response(e);
    assert_eq!(resp.status_line, b"400 Bad Request".to_vec());
    assert_eq!(resp.body, b"Bad Request\n".to_vec());
}

#[test]
fn uncalled_collector_is_a_status_parse_failure() {
    let c = ResponseCollector::new();
    let (resp, failure) = respond(AppOutcome::Chunks(vec![b"x".to_vec()]), &c);
    assert_eq!(failure, Some(GatewayError::StatusParse));
    assert_eq!(resp.status_line, b"500 Internal Server Error".to_vec());
    assert_eq!(resp.body, b"Internal Server Error\n".to_vec());
}

#[test]
fn unparsable_status_line_is_a_status_parse_failure() {
    let c = collector_with(b"OK 200", vec![]);
    let r = complete_response(AppOutcome::Chunks(vec![]), &c);
    assert!(matches!(r, Err(GatewayError::StatusParse)));
}

#[test]
fn missing_chunk_sequence_is_an_application_result_failure() {
    let c = collector_with(b"200 OK", vec![]);
    let r = complete_response(AppOutcome::NotChunkSequence, &c);
    assert!(matches!(r, Err(GatewayError::ApplicationResult)));
    let (resp, failure) = respond(AppOutcome::NotChunkSequence, &c);
    assert_eq!(failure, Some(GatewayError::ApplicationResult));
    assert_eq!(resp.status_line, b"500 Internal Server Error".to_vec());
}

#[test]
fn empty_chunk_sequence_yields_empty_body() {
    let c = collector_with(b"204 No Content", vec![]);
    let (resp, failure) = respond(AppOutcome::Chunks(vec![]), &c);
    assert_eq!(failure, None);
    assert_eq!(resp.body, Vec::<u8>::new());
}
