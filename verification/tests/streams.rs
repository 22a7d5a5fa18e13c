//! Payload, trailers, resets and flow control of a stream.

use ntex_bytes::Bytes;
use ntex_http::uri::Scheme;
use ntex_http::{header, HeaderMap, Method};
use ntex_util::channel::mpsc::channel;
use raw_h2::client::simple2::{SendOutcome, SendStream, SimpleClient};
use raw_h2::frame::{
    Frame, Reason, StreamId, DEFAULT_WINDOW_SIZE, MAX_31_BITS, MAX_FRAME_SIZE, MIN_FRAME_SIZE,
};
use raw_h2::{OperationError, Poll};

fn connect() -> (SimpleClient, SendStream) {
    let (tx, _rx) = channel();
    let (mut client, _service) = SimpleClient::new(Scheme::HTTP, "localhost".to_string(), tx);
    let stream = request(&mut client);
    client.connection_mut().take_output();
    (client, stream)
}

fn request(client: &mut SimpleClient) -> SendStream {
    match client.send(Method::POST, "/".to_string(), HeaderMap::default(), false, 1) {
        SendOutcome::Opened(stream) => stream,
        other => panic!("{:?}", other),
    }
}

fn pattern(len: usize) -> Vec<u8> {
    (0..len).map(|i| (i * 7 % 251) as u8).collect()
}

fn written(client: &mut SimpleClient) -> Vec<(StreamId, Vec<u8>, bool)> {
    client
        .connection_mut()
        .take_output()
        .into_iter()
        .map(|frame| match frame {
            Frame::Data { id, payload, eof } => (id, payload.to_vec(), eof),
            other => panic!("{:?}", other),
        })
        .collect()
}

#[test]
fn a_small_payload_is_one_frame() {
    let (mut client, stream) = connect();
    let rest = stream.send_payload(client.connection_mut(), Bytes::from_static(b"testing"), true);
    assert!(matches!(rest, Ok(None)));
    assert_eq!(written(&mut client), vec![(StreamId(1), b"testing".to_vec(), true)]);
    assert_eq!(
        stream.available_send_capacity(client.connection()),
        DEFAULT_WINDOW_SIZE - 7
    );
    assert_eq!(
        stream.send_payload(client.connection_mut(), Bytes::from_static(b"x"), true).unwrap_err(),
        OperationError::Closed(None)
    );
}

#[test]
fn a_payload_is_cut_at_the_frame_size() {
    let (mut client, stream) = connect();
    let data = pattern(2 * MIN_FRAME_SIZE as usize + 10);
    let rest = stream.send_payload(client.connection_mut(), Bytes::from(data.clone()), true);
    assert!(matches!(rest, Ok(None)));
    let frames = written(&mut client);
    let sizes: Vec<(usize, bool)> = frames.iter().map(|f| (f.1.len(), f.2)).collect();
    assert_eq!(sizes, vec![(16384, false), (16384, false), (10, true)]);
    let joined: Vec<u8> = frames.into_iter().flat_map(|f| f.1).collect();
    assert_eq!(joined, data);
}

#[test]
fn a_payload_of_exactly_one_frame_is_not_cut() {
    let (mut client, stream) = connect();
    let data = pattern(MIN_FRAME_SIZE as usize);
    stream.send_payload(client.connection_mut(), Bytes::from(data.clone()), false).unwrap();
    assert_eq!(written(&mut client), vec![(StreamId(1), data, false)]);
}

#[test]
fn a_payload_waits_for_capacity() {
    let (mut client, stream) = connect();
    let data = pattern(DEFAULT_WINDOW_SIZE as usize + 100);
    let rest = stream
        .send_payload(client.connection_mut(), Bytes::from(data.clone()), true)
        .unwrap()
        .unwrap();
    assert_eq!(rest.len(), 100);
    let mut sent: Vec<u8> = Vec::new();
    for (_, payload, eof) in written(&mut client) {
        assert!(!eof);
        sent.extend(payload);
    }
    assert_eq!(sent.len(), DEFAULT_WINDOW_SIZE as usize);
    assert_eq!(stream.available_send_capacity(client.connection()), 0);
    assert_eq!(stream.send_capacity(client.connection_mut(), 7), Poll::Pending);

    let rest = stream.send_payload(client.connection_mut(), rest, true).unwrap().unwrap();
    assert_eq!(rest.len(), 100);
    assert!(written(&mut client).is_empty());

    client.connection_mut().stream_window_update(stream.id(), 60).unwrap();
    assert!(client.connection_mut().take_woken().is_empty());
    client.connection_mut().connection_window_update(500).unwrap();
    assert_eq!(client.connection_mut().take_woken(), vec![7]);
    assert_eq!(stream.poll_send_capacity(client.connection_mut(), 7), Poll::Ready(Ok(60)));

    let rest = stream.send_payload(client.connection_mut(), rest, true).unwrap().unwrap();
    assert_eq!(rest.len(), 40);
    client.connection_mut().stream_window_update(stream.id(), 1000).unwrap();
    assert_eq!(stream.available_send_capacity(client.connection()), 440);
    assert!(stream.send_payload(client.connection_mut(), rest, true).unwrap().is_none());
    let frames = written(&mut client);
    let sizes: Vec<(usize, bool)> = frames.iter().map(|f| (f.1.len(), f.2)).collect();
    assert_eq!(sizes, vec![(60, false), (40, true)]);
    sent.extend(frames.into_iter().flat_map(|f| f.1));
    assert_eq!(sent, data);
}

#[test]
fn an_empty_end_needs_no_capacity() {
    let (mut client, stream) = connect();
    let data = Bytes::from(pattern(DEFAULT_WINDOW_SIZE as usize));
    assert!(stream.send_payload(client.connection_mut(), data, false).unwrap().is_none());
    written(&mut client);
    let rest = stream.send_payload(client.connection_mut(), Bytes::new(), false).unwrap();
    assert_eq!(rest, Some(Bytes::new()));
    assert!(written(&mut client).is_empty());
    assert!(stream.send_payload(client.connection_mut(), Bytes::new(), true).unwrap().is_none());
    assert_eq!(written(&mut client), vec![(StreamId(1), vec![], true)]);
}

#[test]
fn streams_share_the_window_of_the_connection() {
    let (mut client, stream) = connect();
    let other = request(&mut client);
    let data = Bytes::from(pattern(60_000));
    assert!(stream.send_payload(client.connection_mut(), data, false).unwrap().is_none());
    assert_eq!(other.available_send_capacity(client.connection()), 5_535);
    assert_eq!(stream.available_send_capacity(client.connection()), 5_535);
    client.connection_mut().connection_window_update(100_000).unwrap();
    assert_eq!(other.available_send_capacity(client.connection()), 65_535);
    assert_eq!(stream.available_send_capacity(client.connection()), 5_535);
}

#[test]
fn trailers_end_the_sending_half() {
    let (mut client, stream) = connect();
    assert_eq!(stream.poll_send_reset(client.connection_mut(), 4), Poll::Pending);
    let mut fields = HeaderMap::default();
    fields.insert(header::ETAG, header::HeaderValue::from_static("abc"));
    stream.send_trailers(client.connection_mut(), fields.clone());
    let frames = client.connection_mut().take_output();
    assert_eq!(frames.len(), 1);
    assert!(matches!(&frames[0], Frame::Trailers { id, headers } if *id == StreamId(1) && *headers == fields));
    assert_eq!(client.connection_mut().take_woken(), vec![4]);
    assert_eq!(stream.poll_send_reset(client.connection_mut(), 4), Poll::Ready(Ok(())));
    stream.send_trailers(client.connection_mut(), fields);
    assert!(client.connection_mut().take_output().is_empty());
    assert_eq!(client.active_streams(), 1);
    client.connection_mut().peer_finished(stream.id());
    assert_eq!(client.active_streams(), 0);
}

#[test]
fn a_reset_cuts_the_stream_off() {
    let (mut client, stream) = connect();
    stream.reset(client.connection_mut(), Reason::CANCEL);
    let frames = client.connection_mut().take_output();
    assert_eq!(frames.len(), 1);
    assert!(matches!(
        frames[0],
        Frame::Reset { id: StreamId(1), reason: Reason::CANCEL }
    ));
    assert_eq!(client.active_streams(), 0);
    let error = OperationError::LocalReset(Reason::CANCEL);
    assert_eq!(stream.poll_send_capacity(client.connection_mut(), 1), Poll::Ready(Err(error)));
    assert_eq!(stream.poll_send_reset(client.connection_mut(), 1), Poll::Ready(Err(error)));
    assert_eq!(
        stream.send_payload(client.connection_mut(), Bytes::new(), true).unwrap_err(),
        OperationError::Closed(Some(Reason::CANCEL))
    );
    stream.reset(client.connection_mut(), Reason::NO_ERROR);
    client.connection_mut().peer_reset(stream.id(), Reason::NO_ERROR);
    assert!(client.connection_mut().take_output().is_empty());
    assert_eq!(stream.poll_send_reset(client.connection_mut(), 1), Poll::Ready(Err(error)));
}

#[test]
fn a_reset_by_the_peer_wakes_the_waiting() {
    let (mut client, stream) = connect();
    let data = Bytes::from(pattern(DEFAULT_WINDOW_SIZE as usize));
    stream.send_payload(client.connection_mut(), data, false).unwrap();
    client.connection_mut().take_output();
    assert_eq!(stream.poll_send_capacity(client.connection_mut(), 11), Poll::Pending);
    assert_eq!(stream.poll_send_reset(client.connection_mut(), 12), Poll::Pending);
    client.connection_mut().peer_reset(stream.id(), Reason::REFUSED_STREAM);
    let mut woken = client.connection_mut().take_woken();
    woken.sort();
    assert_eq!(woken, vec![11, 12]);
    assert!(client.connection_mut().take_output().is_empty());
    let error = OperationError::RemoteReset(Reason::REFUSED_STREAM);
    assert_eq!(stream.send_capacity(client.connection_mut(), 1), Poll::Ready(Err(error)));
    assert_eq!(stream.poll_send_reset(client.connection_mut(), 1), Poll::Ready(Err(error)));
}

#[test]
fn windows_refuse_bad_increments() {
    let (mut client, stream) = connect();
    let con = client.connection_mut();
    let room = MAX_31_BITS - DEFAULT_WINDOW_SIZE;
    assert_eq!(con.connection_window_update(0), Err(Reason::PROTOCOL_ERROR));
    assert_eq!(con.connection_window_update(MAX_31_BITS + 1), Err(Reason::PROTOCOL_ERROR));
    assert_eq!(con.connection_window_update(room + 1), Err(Reason::FLOW_CONTROL_ERROR));
    assert_eq!(con.connection_window_update(room), Ok(()));
    assert_eq!(con.stream_window_update(stream.id(), 0), Err(Reason::PROTOCOL_ERROR));
    assert_eq!(con.stream_window_update(stream.id(), room + 1), Err(Reason::FLOW_CONTROL_ERROR));
    assert_eq!(con.stream_window_update(stream.id(), room), Ok(()));
    assert_eq!(con.stream_window_update(StreamId(99), 0), Ok(()));
    assert_eq!(stream.available_send_capacity(client.connection()), MAX_31_BITS);
}

#[test]
fn settings_move_the_windows_of_open_streams() {
    let (mut client, stream) = connect();
    let data = Bytes::from(pattern(1_000));
    stream.send_payload(client.connection_mut(), data, false).unwrap();
    client.connection_mut().apply_settings(None, Some(500), None).unwrap();
    assert_eq!(stream.available_send_capacity(client.connection()), 0);
    assert_eq!(stream.poll_send_capacity(client.connection_mut(), 8), Poll::Pending);
    client.connection_mut().apply_settings(None, Some(900), None).unwrap();
    assert!(client.connection_mut().take_woken().is_empty());
    client.connection_mut().apply_settings(None, Some(1_200), None).unwrap();
    assert_eq!(client.connection_mut().take_woken(), vec![8]);
    assert_eq!(stream.available_send_capacity(client.connection()), 200);
    let fresh = request(&mut client);
    assert_eq!(fresh.available_send_capacity(client.connection()), 1_200);
}

#[test]
fn settings_out_of_range_are_refused() {
    let (mut client, stream) = connect();
    let con = client.connection_mut();
    assert_eq!(
        con.apply_settings(Some(5), None, Some(MIN_FRAME_SIZE - 1)),
        Err(Reason::PROTOCOL_ERROR)
    );
    assert_eq!(
        con.apply_settings(Some(5), None, Some(MAX_FRAME_SIZE + 1)),
        Err(Reason::PROTOCOL_ERROR)
    );
    assert_eq!(
        con.apply_settings(Some(5), Some(MAX_31_BITS + 1), None),
        Err(Reason::FLOW_CONTROL_ERROR)
    );
    con.stream_window_update(stream.id(), 10).unwrap();
    assert_eq!(
        con.apply_settings(Some(5), Some(MAX_31_BITS), None),
        Err(Reason::FLOW_CONTROL_ERROR)
    );
    assert_eq!(client.max_streams(), None);
    assert_eq!(client.connection_mut().apply_settings(Some(5), None, Some(MAX_FRAME_SIZE)), Ok(()));
    assert_eq!(client.max_streams(), Some(5));
    let data = Bytes::from(pattern(40_000));
    stream.send_payload(client.connection_mut(), data, false).unwrap();
    assert_eq!(written(&mut client).len(), 1);
}

#[test]
fn an_unknown_stream_is_over() {
    let (mut client, stream) = connect();
    stream.reset(client.connection_mut(), Reason::CANCEL);
    stream.release(client.connection_mut());
    client.connection_mut().take_output();
    client.connection_mut().peer_reset(StreamId(1), Reason::CANCEL);
    client.connection_mut().peer_finished(StreamId(1));
    client.connection_mut().peer_finished(StreamId(8));
    assert_eq!(client.active_streams(), 0);
    assert!(client.connection_mut().take_output().is_empty());
}

#[test]
fn a_payload_in_many_parts_arrives_whole() {
    let (mut client, stream) = connect();
    client.connection_mut().apply_settings(None, Some(0), None).unwrap();
    let data = pattern(1_000);
    let mut left = Some(Bytes::from(data.clone()));
    let mut sent: Vec<u8> = Vec::new();
    let mut parts = 0;
    while let Some(rest) = left {
        left = stream.send_payload(client.connection_mut(), rest, true).unwrap();
        for (_, payload, eof) in written(&mut client) {
            parts += 1;
            sent.extend(payload);
            assert_eq!(eof, left.is_none());
        }
        client.connection_mut().stream_window_update(stream.id(), 300).unwrap();
    }
    assert_eq!(parts, 4);
    assert_eq!(sent, data);
}
