//! Messages on their way to the user of a client.

use std::task::{Context, Poll, Waker};

use ntex_bytes::Bytes;
use ntex_http::uri::Scheme;
use ntex_http::{HeaderMap, Method};
use ntex_util::channel::mpsc::{channel, Receiver};
use raw_h2::client::simple2::SimpleClient;
use raw_h2::frame::StreamId;
use raw_h2::{Message, MessageKind, OperationError, StreamEof, StreamRef};

fn message(id: u32, kind: MessageKind) -> Message {
    Message { stream: StreamRef::new(StreamId(id)), kind }
}

fn next(rx: &Receiver<Message>) -> Option<Message> {
    match rx.poll_recv(&mut Context::from_waker(Waker::noop())) {
        Poll::Ready(message) => message,
        Poll::Pending => None,
    }
}

#[test]
fn messages_arrive_in_order() {
    let (tx, rx) = channel();
    let (_client, mut service) = SimpleClient::new(Scheme::HTTP, "example.com".to_string(), tx);
    assert!(next(&rx).is_none());
    let headers = MessageKind::Headers { headers: HeaderMap::default(), eof: false };
    assert!(service.call(message(1, headers)).is_ok());
    assert!(service.call(message(3, MessageKind::Data(Bytes::from_static(b"ab"), 2))).is_ok());
    assert!(service.call(message(3, MessageKind::Pong(42))).is_ok());

    let first = next(&rx).unwrap();
    let id: u32 = first.stream.id().into();
    assert_eq!(id, 1);
    assert!(matches!(first.kind, MessageKind::Headers { eof: false, .. }));
    let second = next(&rx).unwrap();
    assert_eq!(second.stream.id(), StreamId(3));
    match second.kind {
        MessageKind::Data(data, size) => {
            assert_eq!(data, Bytes::from_static(b"ab"));
            assert_eq!(size, 2);
        }
        other => panic!("{:?}", other),
    }
    assert!(matches!(next(&rx).unwrap().kind, MessageKind::Pong(42)));
    assert!(next(&rx).is_none());

    let end = MessageKind::Eof(StreamEof::Trailers(HeaderMap::default()));
    assert!(service.call(message(3, end)).is_ok());
    assert!(matches!(
        next(&rx).unwrap().kind,
        MessageKind::Eof(StreamEof::Trailers(_))
    ));
}

#[test]
fn a_message_comes_back_when_nobody_listens() {
    let (tx, rx) = channel();
    let (_client, mut service) = SimpleClient::new(Scheme::HTTP, "example.com".to_string(), tx);
    drop(rx);
    let lost = MessageKind::Disconnect(OperationError::Disconnected);
    let back = service.call(message(5, lost)).unwrap_err();
    assert_eq!(back.stream.id(), StreamId(5));
    assert!(matches!(back.kind, MessageKind::Disconnect(OperationError::Disconnected)));
}

#[test]
fn the_queue_lasts_as_long_as_the_client() {
    let (tx, rx) = channel();
    let (client, mut service) = SimpleClient::new(Scheme::HTTP, "example.com".to_string(), tx);
    assert!(service.call(message(1, MessageKind::Pong(7))).is_ok());
    drop(service);
    assert!(matches!(next(&rx).unwrap().kind, MessageKind::Pong(7)));
    let cx = &mut Context::from_waker(Waker::noop());
    assert!(rx.poll_recv(cx).is_pending());
    let con = client.into_connection();
    assert!(matches!(rx.poll_recv(cx), Poll::Ready(None)));
    drop(con);
}

#[test]
fn every_service_passes_on_to_its_own_queue() {
    let (tx1, rx1) = channel();
    let (tx2, rx2) = channel();
    let (_one, mut first) = SimpleClient::new(Scheme::HTTP, "one".to_string(), tx1.clone());
    let (_two, mut second) = SimpleClient::new(Scheme::HTTP, "two".to_string(), tx2);
    let (_three, mut third) = SimpleClient::new(Scheme::HTTP, "three".to_string(), tx1);
    assert!(first.call(message(1, MessageKind::Pong(1))).is_ok());
    assert!(second.call(message(1, MessageKind::Pong(2))).is_ok());
    assert!(third.call(message(1, MessageKind::Pong(3))).is_ok());
    assert!(matches!(next(&rx1).unwrap().kind, MessageKind::Pong(1)));
    assert!(matches!(next(&rx1).unwrap().kind, MessageKind::Pong(3)));
    assert!(next(&rx1).is_none());
    assert!(matches!(next(&rx2).unwrap().kind, MessageKind::Pong(2)));
    assert!(next(&rx2).is_none());
}

#[test]
fn making_and_using_a_client_sends_no_message() {
    let (tx, rx) = channel();
    assert!(tx.send(message(9, MessageKind::Pong(1))).is_ok());
    let (mut client, _service) = SimpleClient::new(Scheme::HTTP, "example.com".to_string(), tx);
    client.send(Method::GET, "/".to_string(), HeaderMap::default(), true, 1);
    client.ready(1);
    client.close();
    client.force_close();
    client.drop_handle(1);
    assert!(matches!(next(&rx).unwrap().kind, MessageKind::Pong(1)));
    assert!(next(&rx).is_none());
    assert!(!rx.is_closed());
}
