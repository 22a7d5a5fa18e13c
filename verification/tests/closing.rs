//! Closing a connection, and dropping what refers to it.

use ntex_http::uri::Scheme;
use ntex_http::{HeaderMap, Method};
use ntex_util::channel::mpsc::channel;
use raw_h2::client::simple2::{SendOutcome, SendStream, SimpleClient};
use raw_h2::frame::{Frame, Reason, StreamId};
use raw_h2::OperationError;

fn connect() -> SimpleClient {
    let (tx, _rx) = channel();
    SimpleClient::new(Scheme::HTTP, "localhost".to_string(), tx).0
}

fn request(client: &mut SimpleClient) -> SendStream {
    match client.send(Method::GET, "/".to_string(), HeaderMap::default(), true, 1) {
        SendOutcome::Opened(stream) => stream,
        other => panic!("{:?}", other),
    }
}

#[test]
fn an_idle_client_closes_at_once() {
    let mut client = connect();
    assert!(!client.is_closed());
    client.close();
    assert!(client.is_closed());
}

#[test]
fn a_graceful_close_waits_for_the_last_stream() {
    let mut client = connect();
    let first = request(&mut client);
    let second = request(&mut client);
    client.close();
    assert!(!client.is_closed());
    client.connection_mut().peer_finished(first.id());
    assert!(!client.is_closed());
    client.connection_mut().peer_reset(second.id(), Reason::INTERNAL_ERROR);
    assert!(client.is_closed());
}

#[test]
fn a_forced_close_does_not_wait() {
    let mut client = connect();
    let _stream = request(&mut client);
    client.force_close();
    assert!(client.is_closed());
    assert_eq!(client.active_streams(), 1);
}

#[test]
fn closed_stays_closed() {
    let mut client = connect();
    client.force_close();
    let stream = request(&mut client);
    client.close();
    stream.reset(client.connection_mut(), Reason::CANCEL);
    client.drop_handle(2);
    assert!(client.is_closed());
}

#[test]
fn only_the_last_handle_closes() {
    let mut client = connect();
    client.drop_handle(3);
    client.drop_handle(2);
    assert!(!client.is_closed());
    client.drop_handle(1);
    assert!(client.is_closed());

    let mut client = connect();
    let stream = request(&mut client);
    client.drop_handle(1);
    assert!(!client.is_closed());
    client.connection_mut().peer_finished(stream.id());
    assert!(client.is_closed());
}

#[test]
fn letting_go_of_a_finished_stream_does_not_reset_it() {
    let mut client = connect();
    let stream = request(&mut client);
    client.connection_mut().take_output();
    let id = stream.id();
    stream.release(client.connection_mut());
    assert_eq!(client.active_streams(), 1);
    assert!(client.connection_mut().take_output().is_empty());
    assert!(client.connection_mut().take_woken().is_empty());
    client.connection_mut().peer_finished(id);
    assert_eq!(client.active_streams(), 0);
}

#[test]
fn a_lost_transport_forgets_released_streams() {
    let mut client = connect();
    let kept = request(&mut client);
    let gone = request(&mut client);
    let id = gone.id();
    gone.release(client.connection_mut());
    client.connection_mut().disconnected(OperationError::Disconnected);
    assert_eq!(client.active_streams(), 0);
    client.connection_mut().peer_reset(id, Reason::CANCEL);
    client.connection_mut().peer_reset(kept.id(), Reason::CANCEL);
    assert_eq!(client.active_streams(), 0);
}

#[test]
fn letting_go_of_an_unfinished_stream_cancels_it() {
    let mut client = connect();
    client.connection_mut().apply_settings(Some(1), None, None).unwrap();
    let stream = match client.send(Method::PUT, "/".to_string(), HeaderMap::default(), false, 1) {
        SendOutcome::Opened(stream) => stream,
        other => panic!("{:?}", other),
    };
    client.connection_mut().take_output();
    assert!(client.ready(6) == raw_h2::Poll::Pending);
    assert!(stream.poll_send_reset(client.connection_mut(), 7) == raw_h2::Poll::Pending);
    stream.release(client.connection_mut());
    let frames = client.connection_mut().take_output();
    assert_eq!(frames.len(), 1);
    assert!(matches!(
        frames[0],
        Frame::Reset { id: StreamId(1), reason: Reason::CANCEL }
    ));
    let mut woken = client.connection_mut().take_woken();
    woken.sort();
    assert_eq!(woken, vec![6, 7]);
    assert_eq!(client.active_streams(), 0);
    assert!(client.is_ready());
}

#[test]
fn letting_go_of_the_last_unfinished_stream_completes_a_graceful_close() {
    let mut client = connect();
    let stream = match client.send(Method::PUT, "/".to_string(), HeaderMap::default(), false, 1) {
        SendOutcome::Opened(stream) => stream,
        other => panic!("{:?}", other),
    };
    client.close();
    assert!(!client.is_closed());
    stream.release(client.connection_mut());
    assert!(client.is_closed());
}

#[test]
fn the_authority_never_changes() {
    let (tx, _rx) = channel();
    let mut client = SimpleClient::new(Scheme::HTTPS, "Example.COM:8443".to_string(), tx).0;
    let stream = request(&mut client);
    client.ready(2);
    client.connection_mut().peer_reset(stream.id(), Reason::CANCEL);
    client.close();
    client.force_close();
    client.drop_handle(1);
    assert_eq!(client.authority(), "Example.COM:8443");
}

#[test]
fn open_streams_outlive_the_client() {
    let mut client = connect();
    let stream = request(&mut client);
    client.drop_handle(1);
    let mut con = client.into_connection();
    assert!(!con.is_closed());
    assert_eq!(con.active_streams(), 1);
    con.peer_finished(stream.id());
    assert!(con.is_closed());
}
