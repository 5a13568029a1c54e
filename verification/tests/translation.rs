use wsgate::error::GatewayError;
use wsgate::request::{translate, Environ, Request};
use wsgate::input::InputStream;

fn request(target: &[u8], headers: Vec<(&[u8], &[u8])>, body: &[u8]) -> Request {
    Request {
        method: b"GET".to_vec(),
        target: target.to_vec(),
        protocol: b"HTTP/1.1".to_vec(),
        headers: headers
            .into_iter()
            .map(|(n, v)| (n.to_vec(), v.to_vec()))
            .collect(),
        body: body.to_vec(),
    }
}

fn translated(target: &[u8], headers: Vec<(&[u8], &[u8])>, body: &[u8]) -> (Environ, InputStream) {
    translate(request(target, headers, body)).expect("translation should succeed")
}

#[test]
fn query_string_empty_without_marker() {
    let (env, _) = translated(b"/foo", vec![], b"");
    assert_eq!(env.path_info, b"/foo".to_vec());
    assert_eq!(env.query_string, Vec::<u8>::new());
}

#[test]
fn path_and_query_split_at_first_marker() {
    let (env, _) = translated(b"/foo?x=1", vec![], b"");
    assert_eq!(env.path_info, b"/foo".to_vec());
    assert_eq!(env.query_string, b"x=1".to_vec());

    let (env, _) = translated(b"/a?b?c", vec![], b"");
    assert_eq!(env.path_info, b"/a".to_vec());
    assert_eq!(env.query_string, b"b?c".to_vec());
}

#[test]
fn header_folds_to_http_key() {
    let (env, _) = translated(b"/", vec![(b"X-Foo", b"bar")], b"");
    assert_eq!(
        env.http_headers,
        vec![(b"HTTP_X_FOO".to_vec(), b"bar".to_vec())]
    );
}

#[test]
fn content_type_not_duplicated_as_http_entry() {
    let (env, _) = translated(b"/", vec![(b"Content-Type", b"text/plain")], b"");
    assert_eq!(env.content_type, Some(b"text/plain".to_vec()));
    assert_eq!(env.http_headers, Vec::<(Vec<u8>, Vec<u8>)>::new());
}

#[test]
fn content_keys_matched_case_insensitively() {
    let (env, _) = translated(
        b"/",
        vec![(b"CONTENT-LENGTH", b"42"), (b"content-type", b"a/b")],
        b"",
    );
    assert_eq!(env.content_length, Some(b"42".to_vec()));
    assert_eq!(env.content_type, Some(b"a/b".to_vec()));
    assert_eq!(env.http_headers, Vec::<(Vec<u8>, Vec<u8>)>::new());
}

#[test]
fn repeated_header_values_joined_in_order() {
    let (env, _) = translated(
        b"/",
        vec![(b"X-Foo", b"bar"), (b"Accept", b"text/html"), (b"x-foo", b"baz")],
        b"",
    );
    assert_eq!(
        env.http_headers,
        vec![
            (b"HTTP_X_FOO".to_vec(), b"bar, baz".to_vec()),
            (b"HTTP_ACCEPT".to_vec(), b"text/html".to_vec()),
        ]
    );
}

#[test]
fn repeated_content_type_values_joined() {
    let (env, _) = translated(
        b"/",
        vec![(b"Content-Type", b"a/b"), (b"Content-Type", b"c/d")],
        b"",
    );
    assert_eq!(env.content_type, Some(b"a/b, c/d".to_vec()));
}

#[test]
fn non_absolute_targets_rejected() {
    for target in [&b"http://example.com/"[..], b"*", b"", b"example.com:80"] {
        let r = translate(request(target, vec![], b""));
        assert!(matches!(r, Err(GatewayError::MalformedRequest)));
    }
}

#[test]
fn fixed_environment_metadata() {
    let (env, _) = translated(b"/p", vec![], b"");
    assert_eq!(env.request_method, b"GET".to_vec());
    assert_eq!(env.script_name, Vec::<u8>::new());
    assert_eq!(env.server_name, b"127.0.0.1".to_vec());
    assert_eq!(env.server_port, b"9000".to_vec());
    assert_eq!(env.server_protocol, b"HTTP/1.1".to_vec());
    assert_eq!(env.url_scheme, b"http".to_vec());
    assert_eq!(env.version_major, 1);
    assert_eq!(env.version_minor, 0);
    assert!(env.multithread);
    assert!(!env.multiprocess);
    assert!(!env.run_once);
}

#[test]
fn body_seeds_input_stream() {
    let (_, mut input) = translated(b"/", vec![], b"xyz");
    assert_eq!(input.read(10), b"xyz".to_vec());
}
