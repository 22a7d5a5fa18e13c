//! Opening requests: the limit on open streams, waiting, and what goes on the wire.

use ntex_http::uri::Scheme;
use ntex_http::{header, HeaderMap, Method};
use ntex_util::channel::mpsc::{channel, Receiver};
use raw_h2::client::simple2::{SendOutcome, SendStream, SimpleClient};
use raw_h2::frame::{Frame, Reason, StreamId, DEFAULT_WINDOW_SIZE};
use raw_h2::{Message, OperationError, Poll, Request};

fn connect(scheme: Scheme, authority: &str) -> (SimpleClient, Receiver<Message>) {
    let (tx, rx) = channel();
    let (client, _service) = SimpleClient::new(scheme, authority.to_string(), tx);
    (client, rx)
}

fn get(client: &mut SimpleClient, waker: u64) -> SendOutcome {
    client.send(Method::GET, "/".to_string(), HeaderMap::default(), false, waker)
}

fn opened(outcome: SendOutcome) -> SendStream {
    match outcome {
        SendOutcome::Opened(stream) => stream,
        other => panic!("not opened: {:?}", other),
    }
}

fn waiting(outcome: SendOutcome) -> Request {
    match outcome {
        SendOutcome::Waiting(request) => request,
        other => panic!("not waiting: {:?}", other),
    }
}

fn limit(client: &mut SimpleClient, max: u32) {
    client.connection_mut().apply_settings(Some(max), None, None).unwrap();
}

#[test]
fn test_max_concurrent_streams() {
    let (mut client, _rx) = connect(Scheme::HTTP, "localhost");
    limit(&mut client, 1);
    assert!(client.max_streams() == Some(1));

    let stream = opened(get(&mut client, 1));
    assert!(!client.is_ready());
    assert!(client.active_streams() == 1);

    let request = waiting(get(&mut client, 2));
    assert!(client.connection_mut().take_woken().is_empty());

    let rest = stream.send_payload(client.connection_mut(), ntex_bytes::Bytes::new(), true);
    assert!(matches!(rest, Ok(None)));
    assert!(!client.is_ready());
    client.connection_mut().peer_finished(stream.id());
    assert!(client.is_ready());
    assert_eq!(client.connection_mut().take_woken(), vec![2]);

    let second = opened(client.send(request.method, request.path, request.headers, request.eof, 2));
    assert!(!client.is_ready());
    second.release(client.connection_mut());
    assert!(client.is_ready());
}

#[test]
fn test_max_concurrent_streams_reset() {
    let (mut client, _rx) = connect(Scheme::HTTP, "localhost");
    limit(&mut client, 1);

    let stream = opened(get(&mut client, 1));
    assert!(!client.is_ready());

    let mut queue = vec![
        (2u64, waiting(get(&mut client, 2))),
        (3u64, waiting(get(&mut client, 3))),
        (4u64, waiting(get(&mut client, 4))),
    ];
    let mut count = 0;
    let chunk = ntex_bytes::Bytes::from_static(b"chunk");
    assert!(matches!(stream.send_payload(client.connection_mut(), chunk, false), Ok(None)));
    stream.reset(client.connection_mut(), Reason::NO_ERROR);
    while !queue.is_empty() {
        let woken = client.connection_mut().take_woken();
        assert_eq!(woken.len(), queue.len());
        let mut next = Vec::new();
        let mut current = None;
        for (waker, request) in queue {
            assert!(woken.contains(&waker));
            match client.send(request.method, request.path, request.headers, request.eof, waker) {
                SendOutcome::Opened(stream) => current = Some(stream),
                SendOutcome::Waiting(request) => next.push((waker, request)),
                SendOutcome::Failed(error) => panic!("{:?}", error),
            }
        }
        count += 1;
        let current = current.unwrap();
        if count == 1 {
            current.reset(client.connection_mut(), Reason::NO_ERROR);
        }
        current.release(client.connection_mut());
        queue = next;
    }
    assert!(client.is_ready());
    assert_eq!(count, 3);
}

#[test]
fn without_a_limit_every_request_is_opened() {
    let (mut client, _rx) = connect(Scheme::HTTP, "localhost");
    assert_eq!(client.max_streams(), None);
    for n in 0..50u32 {
        assert!(client.is_ready());
        assert_eq!(client.active_streams(), n);
        let stream = opened(get(&mut client, 1));
        assert_eq!(stream.id(), StreamId(2 * n + 1));
        let id: u32 = stream.stream().id().into();
        assert_eq!(id, 2 * n + 1);
    }
}

#[test]
fn a_limit_of_zero_admits_nothing() {
    let (mut client, _rx) = connect(Scheme::HTTP, "localhost");
    limit(&mut client, 0);
    assert!(!client.is_ready());
    waiting(get(&mut client, 9));
    assert_eq!(client.ready(10), Poll::Pending);
    limit(&mut client, 2);
    let mut woken = client.connection_mut().take_woken();
    woken.sort();
    assert_eq!(woken, vec![9, 10]);
    assert_eq!(client.ready(10), Poll::Ready(Ok(())));
}

#[test]
fn a_lower_limit_keeps_open_streams() {
    let (mut client, _rx) = connect(Scheme::HTTP, "localhost");
    let first = opened(get(&mut client, 1));
    let second = opened(get(&mut client, 1));
    limit(&mut client, 1);
    assert_eq!(client.active_streams(), 2);
    waiting(get(&mut client, 5));
    first.reset(client.connection_mut(), Reason::CANCEL);
    assert!(!client.is_ready());
    assert!(client.connection_mut().take_woken().is_empty());
    second.reset(client.connection_mut(), Reason::CANCEL);
    assert_eq!(client.connection_mut().take_woken(), vec![5]);
    assert!(client.is_ready());
}

#[test]
fn a_request_names_authority_scheme_and_headers() {
    for (scheme, expected) in [
        (Scheme::HTTP, false),
        (Scheme::HTTPS, true),
        ("https".parse::<Scheme>().unwrap(), true),
        ("HTTPS".parse::<Scheme>().unwrap(), false),
        ("ftp".parse::<Scheme>().unwrap(), false),
    ] {
        let (mut client, _rx) = connect(scheme, "example.com");
        assert_eq!(client.authority(), "example.com");
        let mut fields = HeaderMap::default();
        fields.insert(
            header::CONTENT_TYPE,
            header::HeaderValue::from_static("text/plain"),
        );
        let sent = client.send(Method::POST, "/upload".to_string(), fields.clone(), true, 1);
        assert_eq!(opened(sent).id(), StreamId(1));
        let frames = client.connection_mut().take_output();
        assert_eq!(frames.len(), 1);
        match &frames[0] {
            Frame::Headers { id, secure, authority, method, path, headers, eof } => {
                assert_eq!(*id, StreamId(1));
                assert_eq!(*secure, expected);
                assert_eq!(authority, "example.com");
                assert_eq!(*method, Method::POST);
                assert_eq!(path, "/upload");
                assert_eq!(*headers, fields);
                assert!(*eof);
            }
            other => panic!("{:?}", other),
        }
        assert!(client.connection_mut().take_output().is_empty());
    }
}

#[test]
fn a_waiting_request_comes_back_unchanged() {
    let (mut client, _rx) = connect(Scheme::HTTP, "localhost");
    limit(&mut client, 0);
    let mut fields = HeaderMap::default();
    fields.insert(header::ACCEPT, header::HeaderValue::from_static("*/*"));
    let request =
        waiting(client.send(Method::PUT, "/a".to_string(), fields.clone(), true, 3));
    assert_eq!(request.method, Method::PUT);
    assert_eq!(request.path, "/a");
    assert_eq!(request.headers, fields);
    assert!(request.eof);
    assert!(client.connection_mut().take_output().is_empty());
    assert_eq!(client.active_streams(), 0);
}

#[test]
fn a_complete_request_is_open_until_the_answer_ends() {
    let (mut client, _rx) = connect(Scheme::HTTP, "localhost");
    let sent = client.send(Method::GET, "/".to_string(), HeaderMap::default(), true, 1);
    let stream = opened(sent);
    assert_eq!(client.active_streams(), 1);
    assert_eq!(
        stream.send_payload(client.connection_mut(), ntex_bytes::Bytes::new(), true).unwrap_err(),
        OperationError::Closed(None)
    );
    client.connection_mut().peer_finished(stream.id());
    assert_eq!(client.active_streams(), 0);
    client.connection_mut().peer_finished(stream.id());
    assert_eq!(client.active_streams(), 0);
}

#[test]
fn a_lost_connection_refuses_requests() {
    let (mut client, _rx) = connect(Scheme::HTTP, "localhost");
    limit(&mut client, 1);
    let stream = opened(get(&mut client, 1));
    waiting(get(&mut client, 2));
    let pending = stream.poll_send_reset(client.connection_mut(), 3);
    assert_eq!(pending, Poll::Pending);
    client.connection_mut().disconnected(OperationError::Disconnected);
    assert!(client.is_closed());
    assert_eq!(client.active_streams(), 0);
    let mut woken = client.connection_mut().take_woken();
    woken.sort();
    assert_eq!(woken, vec![2, 3]);
    assert_eq!(client.ready(2), Poll::Ready(Err(OperationError::Disconnected)));
    match get(&mut client, 2) {
        SendOutcome::Failed(error) => assert_eq!(error, OperationError::Disconnected),
        other => panic!("{:?}", other),
    }
    assert_eq!(
        stream.poll_send_capacity(client.connection_mut(), 4),
        Poll::Ready(Err(OperationError::Disconnected))
    );
    client.connection_mut().disconnected(OperationError::Connection(Reason::PROTOCOL_ERROR));
    assert_eq!(client.ready(2), Poll::Ready(Err(OperationError::Disconnected)));
}

#[test]
fn a_new_stream_starts_with_the_default_window() {
    let (mut client, _rx) = connect(Scheme::HTTP, "localhost");
    let stream = opened(get(&mut client, 1));
    assert_eq!(stream.available_send_capacity(client.connection()), DEFAULT_WINDOW_SIZE);
}
