//! What each operation does, told by the fields of a connection alone: which stream changes and
//! how, what is written, who is woken, and what stays as it was.

use ntex_http::HeaderMap;
use vstd::prelude::*;

use crate::client::simple2::{ClientView, ServiceView};
use crate::connection::Request;
use crate::error::OperationError;
use crate::frame::{Frame, FrameView, Reason, StreamId};
use crate::laws::ClientEvent;
use crate::message::Message;
use crate::model::{ConnectionView, RequestView};
use crate::stream::{HalfState, StreamState};
use crate::task::{Poll, WakerId};

verus! {

/// What only the peer's settings, a request, a graceful close or the loss of the transport
/// change is as it was.
pub open spec fn same_terms(before: ConnectionView, after: ConnectionView) -> bool {
    &&& after.secure == before.secure
    &&& after.closing == before.closing
    &&& after.error == before.error
    &&& after.max_streams == before.max_streams
    &&& after.next_id == before.next_id
    &&& after.initial_window == before.initial_window
    &&& after.max_frame_size == before.max_frame_size
}

/// Every stream but one is as it was.
pub open spec fn same_other_streams(
    before: ConnectionView,
    after: ConnectionView,
    key: int,
) -> bool {
    forall|other: int|
        other != key ==> (#[trigger] after.streams.dom().contains(other)
            == before.streams.dom().contains(other)) && (before.streams.dom().contains(other)
            ==> after.streams[other] == before.streams[other])
}

/// Besides the given tasks, exactly those are woken that waited for a request and can now have
/// one, and they wait no more. The connection closes if it only waited for its last stream.
pub open spec fn settled(
    before: ConnectionView,
    after: ConnectionView,
    first: Option<WakerId>,
    second: Option<WakerId>,
) -> bool {
    let room = match after.max_streams {
        Some(max) => after.active() < max,
        None => true,
    };
    &&& forall|w: WakerId| #[trigger]
        after.woken.contains(w) <==> before.woken.contains(w) || first == Some(w) || second == Some(
            w,
        ) || (room && before.waiting.contains(w))
    &&& forall|w: WakerId| #[trigger]
        after.waiting.contains(w) <==> !room && before.waiting.contains(w)
    &&& after.closed <==> before.closed || (before.closing && after.active() == 0)
}

/// A stream that the connection holds is what is known of it. Any other counts as closed, has no
/// window, and answers with an error.
pub proof fn law_known_and_unknown_streams(con: ConnectionView, id: StreamId)
    ensures
        con.streams.dom().contains(id.0 as int) ==> con.stream(id) == con.streams[id.0 as int],
        !con.streams.dom().contains(id.0 as int) ==> ({
            let st = con.stream(id);
            &&& st.send == HalfState::Closed(None)
            &&& st.recv == HalfState::Closed(None)
            &&& st.send_window == 0
            &&& st.error == Some(OperationError::Closed(None))
            &&& st.send_cap is None
            &&& st.send_reset is None
        }),
{
}

/// The active streams are those that are open in at least one direction, and a request is
/// possible while there are fewer of them than the peer allows, or it sets no limit.
pub proof fn law_active_streams_are_the_open_ones(con: ConnectionView, key: int)
    ensures
        con.open_ids().contains(key) <==> con.streams.dom().contains(key) && (
        con.streams[key].send is Open || con.streams[key].recv is Open),
        con.active() == con.open_ids().len(),
        con.max_streams is None ==> con.can_create_new_stream(),
        con.max_streams matches Some(max) ==> (con.can_create_new_stream() <==> con.active()
            < max),
{
}

/// A stream is open while at least one of its directions is.
pub proof fn law_open_in_some_direction(st: StreamState)
    ensures
        st.is_open() <==> st.send == HalfState::Open || st.recv == HalfState::Open,
{
}

/// A task that asks for room is told the failure of a failed connection, else that a request is
/// possible if it is, and else it waits.
pub proof fn law_ready_tells(con: ConnectionView, error: OperationError)
    ensures
        con.ready() == Poll::<Result<(), OperationError>>::Ready(Err(error)) <==> con.error
            == Some(error),
        con.ready() == Poll::<Result<(), OperationError>>::Ready(Ok(())) <==> con.error is None && (
        con.max_streams is None || con.active() < con.max_streams->0),
        con.ready() is Pending <==> con.error is None && con.max_streams is Some && con.active()
            >= con.max_streams->0,
{
}

/// The capacity of a stream is the smaller of its own window and the connection's, and none where
/// either is used up or the stream is not known.
pub proof fn law_capacity_is_the_smaller_window(con: ConnectionView, id: StreamId)
    ensures
        ({
            let known = con.streams.dom().contains(id.0 as int);
            let own = con.streams[id.0 as int].send_window;
            &&& !known ==> con.capacity(id) == 0
            &&& known && (own <= 0 || con.send_window <= 0) ==> con.capacity(id) == 0
            &&& known && own > 0 && con.send_window > 0 ==> 0 < con.capacity(id) <= own
                && con.capacity(id) <= con.send_window && (con.capacity(id) == own || con.capacity(
                id,
            ) == con.send_window)
        }),
{
}

/// A task that asks for capacity is told a number of bytes only if that is what is available on
/// the stream at that moment: more than nothing, and no more than the stream's window or the
/// connection's. It is told the failure of the stream, or else of the connection, and waits only
/// where there is neither a failure nor capacity.
pub proof fn law_capacity_told_is_available(con: ConnectionView, id: StreamId)
    requires
        con.valid(),
    ensures
        con.send_capacity(id) matches Poll::Ready(Ok(bytes)) ==> ({
            &&& bytes > 0
            &&& bytes == con.capacity(id)
            &&& con.streams.dom().contains(id.0 as int)
            &&& bytes <= con.streams[id.0 as int].send_window
            &&& bytes <= con.send_window
            &&& con.streams[id.0 as int].error is None
            &&& con.error is None
        }),
        con.send_capacity(id) matches Poll::Ready(Err(error)) ==> (if con.streams.dom().contains(
            id.0 as int,
        ) {
            con.streams[id.0 as int].error == Some(error) || (con.streams[id.0 as int].error is None
                && con.error == Some(error))
        } else {
            error == OperationError::Closed(None)
        }),
        con.send_capacity(id) is Pending <==> con.streams.dom().contains(id.0 as int)
            && con.streams[id.0 as int].error is None && con.error is None && (
        con.streams[id.0 as int].send_window <= 0 || con.send_window <= 0),
{
}

/// A task that asks whether the sending half of a stream is over is told the failure of the
/// stream, or else of the connection; else it is told so exactly where the half is closed.
pub proof fn law_end_of_sending_half_is_told(con: ConnectionView, id: StreamId)
    ensures
        con.send_reset(id) matches Poll::Ready(Err(error)) ==> (if con.streams.dom().contains(
            id.0 as int,
        ) {
            con.streams[id.0 as int].error == Some(error) || (con.streams[id.0 as int].error is None
                && con.error == Some(error))
        } else {
            error == OperationError::Closed(None)
        }),
        con.send_reset(id) == Poll::<Result<(), OperationError>>::Ready(Ok(()))
            <==> con.streams.dom().contains(id.0 as int) && con.streams[id.0 as int].error is None
            && con.error is None && con.streams[id.0 as int].send is Closed,
        con.send_reset(id) is Pending <==> con.streams.dom().contains(id.0 as int)
            && con.streams[id.0 as int].error is None && con.error is None
            && con.streams[id.0 as int].send is Open,
{
}

/// A new connection is open and idle, knows of no limit, starts with stream 1, and has nothing to
/// write and nobody to wake.
pub proof fn law_new_connection_is_idle(secure: bool, window: int, frame_size: int)
    ensures
        ({
            let con = ConnectionView::initial(secure, window, frame_size);
            &&& con.secure == secure
            &&& !con.closed
            &&& !con.closing
            &&& con.error is None
            &&& con.max_streams is None
            &&& con.next_id == 1
            &&& con.send_window == window
            &&& con.initial_window == window
            &&& con.max_frame_size == frame_size
            &&& con.active() == 0
            &&& con.can_create_new_stream()
            &&& con.output.len() == 0
            &&& forall|key: int| !#[trigger] con.streams.dom().contains(key)
            &&& forall|w: WakerId| !#[trigger] con.woken.contains(w)
            &&& forall|w: WakerId| !#[trigger] con.waiting.contains(w)
        }),
{
    assert(ConnectionView::initial(secure, window, frame_size).open_ids() =~= Set::<int>::empty());
}

/// The limits of the protocol.
pub proof fn law_protocol_limits()
    ensures
        crate::frame::MAX_31_BITS == 0x7fff_ffff,
        crate::frame::DEFAULT_WINDOW_SIZE == 65_535,
        crate::frame::MIN_FRAME_SIZE == 16_384,
        crate::frame::MAX_FRAME_SIZE == 16_777_215,
{
}

/// Opening a request adds one open stream under the next identifier, with the window that streams
/// start with, and one frame that says all that the request says. It changes nothing else.
pub proof fn law_request_opens_one_stream(
    con: ConnectionView,
    authority: Seq<char>,
    request: RequestView,
)
    requires
        con.valid(),
        con.error is None,
        con.next_id <= 0x7fff_ffff,
    ensures
        ({
            let after = con.request_opened(authority, request);
            let id = StreamId(con.next_id as u32);
            &&& !con.streams.dom().contains(con.next_id)
            &&& after.streams.dom().contains(con.next_id)
            &&& after.streams[con.next_id] == (StreamState {
                id,
                send: if request.eof {
                    HalfState::Closed(None)
                } else {
                    HalfState::Open
                },
                recv: HalfState::Open,
                send_window: con.initial_window as i64,
                error: None,
                send_cap: None,
                send_reset: None,
                released: false,
            })
            &&& same_other_streams(con, after, con.next_id)
            &&& after.next_id == con.next_id + 2
            &&& after.active() == con.active() + 1
            &&& after.output == con.output.push(
                FrameView::Headers {
                    id,
                    secure: con.secure,
                    authority,
                    method: request.method,
                    path: request.path,
                    headers: request.headers,
                    eof: request.eof,
                },
            )
            &&& after == (ConnectionView {
                streams: after.streams,
                next_id: after.next_id,
                output: after.output,
                ..con
            })
        }),
{
    con.lemma_request_opened(authority, request);
}

/// A request that is handed in is opened where the connection has not failed, there is room, and
/// an identifier is left. Where there is no room, the task that handed it in waits. Else nothing
/// happens.
pub proof fn law_request_is_opened_or_waits(
    con: ConnectionView,
    authority: Seq<char>,
    request: RequestView,
    waker: WakerId,
)
    requires
        con.valid(),
    ensures
        ({
            let after = con.request_sent(authority, request, waker);
            let room = con.max_streams is None || con.active() < con.max_streams->0;
            &&& con.error is None && room && con.next_id <= 0x7fff_ffff ==> after
                == con.request_opened(authority, request) && after.active() == con.active() + 1
                && after.output.len() == con.output.len() + 1
            &&& con.error is None && !room ==> after == (ConnectionView {
                waiting: con.waiting.insert(waker),
                ..con
            })
            &&& con.error is Some || (room && con.next_id > 0x7fff_ffff) ==> after == con
        }),
{
    if con.error is None && con.next_id <= 0x7fff_ffff {
        con.lemma_request_opened(authority, request);
    }
}

/// A task that asks for room waits where the connection has not failed and there is none; else
/// nothing changes.
pub proof fn law_asking_for_room_only_waits(con: ConnectionView, waker: WakerId)
    ensures
        ({
            let after = con.asked_ready(waker);
            let room = con.max_streams is None || con.active() < con.max_streams->0;
            &&& con.error is None && !room ==> after == (ConnectionView {
                waiting: con.waiting.insert(waker),
                ..con
            })
            &&& con.error is Some || room ==> after == con
            &&& con.wait_for_slot(waker) == (ConnectionView {
                waiting: con.waiting.insert(waker),
                ..con
            })
        }),
{
}

/// A forced close closes the connection, whatever its state and however many streams are open,
/// and changes nothing else.
pub proof fn law_forced_close_closes(con: ConnectionView)
    ensures
        con.closed_now().closed,
        con.closed_now() == (ConnectionView { closed: true, ..con }),
{
}

/// A graceful close closes a connection without open streams, makes any other close with its last
/// stream, and changes nothing else.
pub proof fn law_graceful_close_closes_or_waits(con: ConnectionView)
    ensures
        ({
            let after = con.closing_when_ready();
            &&& after.closed <==> con.closed || con.active() == 0
            &&& after.closing <==> con.closing || con.active() > 0
            &&& after == (ConnectionView { closed: after.closed, closing: after.closing, ..con })
        }),
{
}

/// A reset from this side writes one frame and cuts an open stream off in both directions. It does
/// nothing to a stream that is over.
pub proof fn law_reset_effect(con: ConnectionView, id: StreamId, reason: Reason)
    requires
        con.valid(),
    ensures
        ({
            let after = con.reset(id, reason);
            let key = id.0 as int;
            let st = con.streams[key];
            let open = con.streams.dom().contains(key) && (st.send is Open || st.recv is Open);
            &&& !open ==> after == con
            &&& open ==> {
                &&& after.output == con.output.push(FrameView::Reset { id, reason })
                &&& after.streams.dom().contains(key) <==> !st.released
                &&& !st.released ==> after.streams[key] == (StreamState {
                    id,
                    send: HalfState::Closed(Some(reason)),
                    recv: HalfState::Closed(Some(reason)),
                    send_window: st.send_window,
                    error: Some(OperationError::LocalReset(reason)),
                    send_cap: None,
                    send_reset: None,
                    released: false,
                })
                &&& same_other_streams(con, after, key)
                &&& same_terms(con, after)
                &&& after.send_window == con.send_window
                &&& after.active() == con.active() - 1
                &&& settled(con, after, st.send_cap, st.send_reset)
            }
        }),
{
    if con.stream(id).is_open() {
        con.lemma_known(id);
        let next = con.emit(FrameView::Reset { id, reason });
        assert(next.open_ids() =~= con.open_ids());
        next.lemma_stream_cut_off(id, reason, OperationError::LocalReset(reason));
        let st = con.stream(id);
        let last = next.put(st.cut_off(Some(reason), OperationError::LocalReset(reason))).wake(
            st.send_cap,
        ).wake(st.send_reset);
        assert(last.open_ids() =~= last.settle().open_ids());
    }
}

/// A reset by the peer cuts an open stream off in both directions and writes nothing. It does
/// nothing to a stream that is over.
pub proof fn law_peer_reset_effect(con: ConnectionView, id: StreamId, reason: Reason)
    requires
        con.valid(),
    ensures
        ({
            let after = con.peer_reset(id, reason);
            let key = id.0 as int;
            let st = con.streams[key];
            let open = con.streams.dom().contains(key) && (st.send is Open || st.recv is Open);
            &&& !open ==> after == con
            &&& open ==> {
                &&& after.output == con.output
                &&& after.streams.dom().contains(key) <==> !st.released
                &&& !st.released ==> after.streams[key] == (StreamState {
                    id,
                    send: HalfState::Closed(Some(reason)),
                    recv: HalfState::Closed(Some(reason)),
                    send_window: st.send_window,
                    error: Some(OperationError::RemoteReset(reason)),
                    send_cap: None,
                    send_reset: None,
                    released: false,
                })
                &&& same_other_streams(con, after, key)
                &&& same_terms(con, after)
                &&& after.send_window == con.send_window
                &&& after.active() == con.active() - 1
                &&& settled(con, after, st.send_cap, st.send_reset)
            }
        }),
{
    if con.stream(id).is_open() {
        con.lemma_known(id);
        con.lemma_stream_cut_off(id, reason, OperationError::RemoteReset(reason));
        let st = con.stream(id);
        let last = con.put(st.cut_off(Some(reason), OperationError::RemoteReset(reason))).wake(
            st.send_cap,
        ).wake(st.send_reset);
        assert(last.open_ids() =~= last.settle().open_ids());
    }
}

/// Once the peer has sent its last on a stream, the receiving half is closed, whatever the state
/// of the sending half. The stream is over, and one stream fewer is open, exactly where the
/// sending half was closed before.
pub proof fn law_peer_finished_effect(con: ConnectionView, id: StreamId)
    requires
        con.valid(),
    ensures
        ({
            let after = con.peer_finished(id);
            let key = id.0 as int;
            let st = con.streams[key];
            let receiving = con.streams.dom().contains(key) && st.recv is Open;
            &&& !receiving ==> after == con
            &&& receiving ==> {
                &&& after.output == con.output
                &&& after.streams.dom().contains(key) <==> st.send is Open || !st.released
                &&& after.streams.dom().contains(key) ==> after.streams[key] == (StreamState {
                    id,
                    send: st.send,
                    recv: HalfState::Closed(None),
                    send_window: st.send_window,
                    error: st.error,
                    send_cap: st.send_cap,
                    send_reset: st.send_reset,
                    released: st.released,
                })
                &&& same_other_streams(con, after, key)
                &&& same_terms(con, after)
                &&& after.send_window == con.send_window
                &&& after.active() == con.active() - (if st.send is Open {
                    0int
                } else {
                    1
                })
                &&& settled(con, after, None, None)
            }
        }),
{
    con.lemma_peer_finished(id);
    if con.stream(id).recv is Open {
        con.lemma_known(id);
        let last = con.put(con.stream(id).finished_receiving());
        assert(last.open_ids() =~= last.settle().open_ids());
    }
}

/// Trailers on an open sending half are written as exactly one frame with the given fields,
/// however much payload went out before, and close that half. On a closed one they do nothing.
pub proof fn law_trailers_effect(con: ConnectionView, id: StreamId, headers: HeaderMap)
    requires
        con.valid(),
    ensures
        ({
            let after = con.trailers(id, headers);
            let key = id.0 as int;
            let st = con.streams[key];
            let sending = con.streams.dom().contains(key) && st.send is Open;
            &&& !sending ==> after == con
            &&& sending ==> {
                &&& after.output == con.output.push(FrameView::Trailers { id, headers })
                &&& after.streams.dom().contains(key) <==> st.recv is Open || !st.released
                &&& after.streams.dom().contains(key) ==> after.streams[key] == (StreamState {
                    id,
                    send: HalfState::Closed(None),
                    recv: st.recv,
                    send_window: st.send_window,
                    error: st.error,
                    send_cap: st.send_cap,
                    send_reset: None,
                    released: st.released,
                })
                &&& same_other_streams(con, after, key)
                &&& same_terms(con, after)
                &&& after.send_window == con.send_window
                &&& after.active() == con.active() - (if st.recv is Open {
                    0int
                } else {
                    1
                })
                &&& settled(con, after, st.send_reset, None)
            }
        }),
{
    if con.stream(id).send is Open {
        con.lemma_known(id);
        let next = con.emit(FrameView::Trailers { id, headers });
        assert(next.open_ids() =~= con.open_ids());
        next.lemma_finished_sending(id);
        let st = con.stream(id);
        let last = next.put(st.finished_sending()).wake(st.send_reset);
        assert(last.open_ids() =~= last.settle().open_ids());
    }
}

/// Whichever side finishes first, once the client has sent trailers and the peer its last, the
/// stream is over, one stream fewer is open, and the connection is the same.
pub proof fn law_either_side_may_finish_first(con: ConnectionView, id: StreamId, headers: HeaderMap)
    requires
        con.valid(),
        con.stream(id).send is Open,
        con.stream(id).recv is Open,
    ensures
        ({
            let peer_first = con.peer_finished(id).trailers(id, headers);
            let client_first = con.trailers(id, headers).peer_finished(id);
            &&& peer_first.stream(id).send is Closed
            &&& peer_first.stream(id).recv is Closed
            &&& client_first.stream(id).send is Closed
            &&& client_first.stream(id).recv is Closed
            &&& peer_first.active() == con.active() - 1
            &&& client_first.active() == con.active() - 1
            &&& peer_first == client_first
        }),
{
    let key = id.0 as int;
    let peer = con.peer_finished(id);
    let client = con.trailers(id, headers);
    con.lemma_known(id);
    con.lemma_peer_finished(id);
    law_peer_finished_effect(con, id);
    law_trailers_effect(con, id, headers);
    assert(peer.streams.dom().contains(key));
    assert(client.streams.dom().contains(key));
    law_trailers_effect(peer, id, headers);
    crate::laws::law_every_event_keeps_validity(
        con,
        crate::laws::Event::Trailers { id, headers },
    );
    law_peer_finished_effect(client, id);
    let peer_first = peer.trailers(id, headers);
    let client_first = client.peer_finished(id);
    assert(peer_first.streams =~= client_first.streams);
    assert(peer_first =~= client_first);
}

/// Likewise where the client ends with the last of its payload.
pub proof fn law_either_side_may_finish_first_with_payload(
    con: ConnectionView,
    id: StreamId,
    data: Seq<u8>,
)
    requires
        con.valid(),
        con.stream(id).send is Open,
        con.stream(id).recv is Open,
        data.len() == 0 || (data.len() <= con.stream(id).send_window && data.len()
            <= con.send_window),
    ensures
        ({
            let peer_first = con.peer_finished(id).payload(id, data, true);
            let client_first = con.payload(id, data, true).peer_finished(id);
            &&& peer_first.stream(id).send is Closed
            &&& peer_first.stream(id).recv is Closed
            &&& client_first.stream(id).send is Closed
            &&& client_first.stream(id).recv is Closed
            &&& peer_first.active() == con.active() - 1
            &&& client_first.active() == con.active() - 1
            &&& peer_first == client_first
        }),
{
    let key = id.0 as int;
    let peer = con.peer_finished(id);
    let client = con.payload(id, data, true);
    con.lemma_known(id);
    con.lemma_peer_finished(id);
    law_peer_finished_effect(con, id);
    law_payload_effect(con, id, data, true);
    assert(peer.streams.dom().contains(key));
    assert(client.streams.dom().contains(key));
    law_payload_effect(peer, id, data, true);
    con.lemma_payload(id, data, true);
    law_peer_finished_effect(client, id);
    let peer_first = peer.payload(id, data, true);
    let client_first = client.peer_finished(id);
    assert(peer_first.streams =~= client_first.streams);
    assert(peer_first =~= client_first);
}

/// What goes out of a payload at once is as much of it as both windows let through. The payload
/// is all out with it if nothing is left, except that an empty payload without an end needs some
/// capacity to go out.
pub proof fn law_as_much_is_sent_as_fits(
    con: ConnectionView,
    id: StreamId,
    data: Seq<u8>,
    eof: bool,
)
    requires
        con.streams.dom().contains(id.0 as int),
    ensures
        ({
            let sent = con.sendable(id, data);
            let own = con.streams[id.0 as int].send_window;
            &&& 0 <= sent <= data.len()
            &&& sent > 0 ==> sent <= own && sent <= con.send_window
            &&& sent < data.len() ==> sent >= own || sent >= con.send_window
            &&& con.sends_all(id, data, eof) <==> sent == data.len() && (data.len() > 0 || eof || (
            own > 0 && con.send_window > 0))
        }),
{
}

/// Payload on an open sending half takes what is sent from both windows, and from nothing else.
/// What is written carries exactly that, in frames of which only the last is not full. The end of
/// the stream goes with the last byte and closes the sending half.
pub proof fn law_payload_effect(con: ConnectionView, id: StreamId, data: Seq<u8>, eof: bool)
    requires
        con.valid(),
        con.streams.dom().contains(id.0 as int),
        con.streams[id.0 as int].send is Open,
    ensures
        ({
            let after = con.payload(id, data, eof);
            let key = id.0 as int;
            let st = con.streams[key];
            let sent = con.sendable(id, data);
            let ends = eof && sent == data.len();
            let written = after.output.skip(con.output.len() as int);
            &&& after.send_window == con.send_window - sent
            &&& after.streams.dom().contains(key) <==> !ends || st.recv is Open || !st.released
            &&& after.streams.dom().contains(key) ==> after.streams[key] == (StreamState {
                id,
                send: if ends {
                    HalfState::Closed(None)
                } else {
                    HalfState::Open
                },
                recv: st.recv,
                send_window: (st.send_window - sent) as i64,
                error: st.error,
                send_cap: st.send_cap,
                send_reset: if ends {
                    None
                } else {
                    st.send_reset
                },
                released: st.released,
            })
            &&& same_other_streams(con, after, key)
            &&& same_terms(con, after)
            &&& after.active() == con.active() - (if ends && st.recv is Closed {
                1int
            } else {
                0
            })
            &&& settled(
                con,
                after,
                if ends {
                    st.send_reset
                } else {
                    None
                },
                None,
            )
            &&& after.output == con.output + written
            &&& crate::laws::carried(written) == data.take(sent)
            &&& written.len() == 0 <==> !ends && (st.send_window <= 0 || con.send_window <= 0)
            &&& 0 < sent <= con.max_frame_size ==> written.len() == 1
            &&& sent == 0 ==> written.len() <= 1
            &&& forall|i: int|
                0 <= i < written.len() ==> (#[trigger] written[i] matches FrameView::Data {
                    id: to,
                    payload,
                    eof: last,
                } && to == id && last == (ends && i == written.len() - 1) && (if i < written.len()
                    - 1 {
                    payload.len() == con.max_frame_size
                } else {
                    payload.len() <= con.max_frame_size && (sent > 0 ==> payload.len() > 0)
                }))
        }),
{
    con.lemma_known(id);
    con.lemma_payload(id, data, eof);
    let st = con.stream(id);
    let sent = con.sendable(id, data);
    let all = con.sends_all(id, data, eof);
    let after = con.payload(id, data, eof);
    let written = after.output.skip(con.output.len() as int);
    law_as_much_is_sent_as_fits(con, id, data, eof);
    crate::laws::law_payload_fits_windows(con, id, data, eof);
    if !all && sent == 0 {
        assert(written =~= Seq::empty());
    } else {
        let frames = crate::frame::data_frames(
            id,
            data.take(sent),
            con.max_frame_size as nat,
            eof && all,
        );
        law_only_last_frame_is_not_full(id, data.take(sent), con.max_frame_size as nat, eof && all);
        assert(written =~= frames);
        let moved = ConnectionView {
            output: con.output + frames,
            send_window: con.send_window - sent,
            ..con
        }.put(StreamState { send_window: (st.send_window - sent) as i64, ..st });
        if eof && all {
            let last = moved.put(moved.stream(id).finished_sending()).wake(st.send_reset);
            assert(last.open_ids() =~= last.settle().open_ids());
        }
    }
}

/// A payload is cut into full frames but for the last, which holds the rest: at least one byte
/// where there is any. A payload that fits one frame is not cut.
pub proof fn law_only_last_frame_is_not_full(id: StreamId, data: Seq<u8>, size: nat, eof: bool)
    requires
        size > 0,
    ensures
        ({
            let frames = crate::frame::data_frames(id, data, size, eof);
            &&& frames.len() > 0
            &&& crate::laws::carried(frames) == data
            &&& data.len() <= size ==> frames.len() == 1
            &&& forall|i: int|
                0 <= i < frames.len() ==> (#[trigger] frames[i] matches FrameView::Data {
                    id: to,
                    payload,
                    eof: last,
                } && to == id && last == (eof && i == frames.len() - 1) && (if i < frames.len() - 1 {
                    payload.len() == size
                } else {
                    payload.len() <= size && (data.len() > 0 ==> payload.len() > 0)
                }))
        }),
    decreases data.len(),
{
    crate::laws::law_frames_carry_payload(id, data, size, eof);
    let frames = crate::frame::data_frames(id, data, size, eof);
    if data.len() > size {
        let rest = data.skip(size as int);
        law_only_last_frame_is_not_full(id, rest, size, eof);
        let tail = crate::frame::data_frames(id, rest, size, eof);
        assert forall|i: int| 0 <= i < frames.len() implies (#[trigger] frames[i] matches FrameView::Data {
            id: to,
            payload,
            eof: last,
        } && to == id && last == (eof && i == frames.len() - 1) && (if i < frames.len() - 1 {
            payload.len() == size
        } else {
            payload.len() <= size && (data.len() > 0 ==> payload.len() > 0)
        })) by {
            if i > 0 {
                assert(frames[i] == tail[i - 1]);
            }
        }
    }
}

/// A task that waits on a stream takes the place of the one that waited there for the same
/// thing, and nothing else changes.
pub proof fn law_waiting_on_a_stream_only_waits(con: ConnectionView, id: StreamId, waker: WakerId)
    requires
        con.valid(),
        con.streams.dom().contains(id.0 as int),
    ensures
        con.wait_for_capacity(id, waker) == (ConnectionView {
            streams: con.streams.insert(
                id.0 as int,
                StreamState { send_cap: Some(waker), ..con.streams[id.0 as int] },
            ),
            ..con
        }),
        con.wait_for_reset(id, waker) == (ConnectionView {
            streams: con.streams.insert(
                id.0 as int,
                StreamState { send_reset: Some(waker), ..con.streams[id.0 as int] },
            ),
            ..con
        }),
{
}

/// Letting go of a stream with an open sending half cancels it for good. Any other stream is only
/// forgotten, at once or when the peer is done.
pub proof fn law_release_effect(con: ConnectionView, id: StreamId)
    requires
        con.valid(),
    ensures
        ({
            let after = con.released(id);
            let key = id.0 as int;
            let st = con.streams[key];
            &&& !con.streams.dom().contains(key) ==> after == con
            &&& con.streams.dom().contains(key) && st.send is Closed ==> {
                &&& after == (ConnectionView { streams: after.streams, ..con })
                &&& after.streams.dom().contains(key) <==> st.recv is Open
                &&& st.recv is Open ==> after.streams[key] == (StreamState { released: true, ..st })
                &&& same_other_streams(con, after, key)
                &&& after.active() == con.active()
            }
            &&& con.streams.dom().contains(key) && st.send is Open ==> {
                &&& after.output == con.output.push(FrameView::Reset { id, reason: Reason::CANCEL })
                &&& !after.streams.dom().contains(key)
                &&& same_other_streams(con, after, key)
                &&& same_terms(con, after)
                &&& after.send_window == con.send_window
                &&& after.active() == con.active() - 1
                &&& settled(con, after, st.send_cap, st.send_reset)
            }
        }),
{
    con.lemma_released(id);
    if con.streams.dom().contains(id.0 as int) {
        let st = StreamState { released: true, ..con.stream(id) };
        con.lemma_put_valid(st);
        if st.send is Open {
            law_reset_effect(con.put(st), id, Reason::CANCEL);
        }
    }
}

/// The loss of the transport closes the connection, keeps the first failure as the reason, ends
/// every stream in both directions, forgets those that nobody holds, and wakes all who wait.
pub proof fn law_disconnect_effect(con: ConnectionView, error: OperationError)
    requires
        con.valid(),
    ensures
        ({
            let after = con.disconnected(error);
            &&& after.closed
            &&& con.error is None ==> after.error == Some(error)
            &&& con.error is Some ==> after.error == con.error
            &&& after.active() == 0
            &&& after.output == con.output
            &&& after == (ConnectionView {
                closed: after.closed,
                error: after.error,
                streams: after.streams,
                waiting: after.waiting,
                woken: after.woken,
                ..con
            })
            &&& forall|key: int| #[trigger]
                after.streams.dom().contains(key) <==> con.streams.dom().contains(key)
                    && !con.streams[key].released
            &&& forall|key: int| #[trigger]
                after.streams.dom().contains(key) ==> {
                    let st = con.streams[key];
                    after.streams[key] == if st.send is Open || st.recv is Open {
                        StreamState {
                            id: st.id,
                            send: HalfState::Closed(None),
                            recv: HalfState::Closed(None),
                            send_window: st.send_window,
                            error: Some(error),
                            send_cap: None,
                            send_reset: None,
                            released: false,
                        }
                    } else {
                        StreamState { send_cap: None, ..st }
                    }
                }
            &&& forall|w: WakerId| !#[trigger] after.waiting.contains(w)
            &&& forall|w: WakerId| #[trigger]
                after.woken.contains(w) <==> con.woken.contains(w) || con.waiting.contains(w)
                    || exists|key: int| #[trigger]
                    con.streams.dom().contains(key) && (con.streams[key].send_cap == Some(w)
                        || con.streams[key].send_reset == Some(w))
        }),
{
    con.lemma_disconnected(error);
}

/// A window grows by an increment of 31 bits that is not zero and does not carry the window over
/// 31 bits. Else the increment is refused: as such, or because of where it leads.
pub proof fn law_increment_is_checked(window: int, increment: u32)
    ensures
        ({
            let error = ConnectionView::increment_error(window, increment);
            let proper = 1 <= increment <= 0x7fff_ffff;
            &&& error is None <==> proper && window + increment <= 0x7fff_ffff
            &&& error == Some(Reason::PROTOCOL_ERROR) <==> !proper
            &&& error == Some(Reason::FLOW_CONTROL_ERROR) <==> proper && window + increment
                > 0x7fff_ffff
        }),
{
}

/// A larger window of the connection is larger by exactly the increment. Every stream keeps its
/// own. Exactly those are woken that waited for capacity on a stream with a window of its own,
/// and they wait no more.
pub proof fn law_connection_window_effect(con: ConnectionView, increment: u32)
    requires
        con.valid(),
        1 <= increment,
        con.send_window + increment <= 0x7fff_ffff,
    ensures
        ({
            let after = con.connection_window(increment);
            &&& after.send_window == con.send_window + increment
            &&& after == (ConnectionView {
                send_window: after.send_window,
                streams: after.streams,
                woken: after.woken,
                ..con
            })
            &&& after.active() == con.active()
            &&& forall|key: int| #[trigger]
                after.streams.dom().contains(key) <==> con.streams.dom().contains(key)
            &&& forall|key: int| #[trigger]
                after.streams.dom().contains(key) ==> after.streams[key] == (StreamState {
                    send_cap: if con.streams[key].send_window > 0 {
                        None
                    } else {
                        con.streams[key].send_cap
                    },
                    ..con.streams[key]
                })
            &&& forall|w: WakerId| #[trigger]
                after.woken.contains(w) <==> con.woken.contains(w) || exists|key: int| #[trigger]
                    con.streams.dom().contains(key) && con.streams[key].send_cap == Some(w)
                        && con.streams[key].send_window > 0
        }),
{
    con.lemma_connection_window(increment);
}

/// A larger window of an open stream is larger by exactly the increment, and no other window
/// changes. The task that waited for capacity there is woken exactly if there is some now.
pub proof fn law_stream_window_effect(con: ConnectionView, id: StreamId, increment: u32)
    requires
        con.valid(),
        con.streams.dom().contains(id.0 as int),
        con.streams[id.0 as int].send is Open || con.streams[id.0 as int].recv is Open,
        1 <= increment <= 0x7fff_ffff,
        con.streams[id.0 as int].send_window + increment <= 0x7fff_ffff,
    ensures
        ({
            let after = con.stream_window(id, increment);
            let key = id.0 as int;
            let st = con.streams[key];
            let told = st.send_window + increment > 0 && con.send_window > 0;
            &&& after == (ConnectionView { streams: after.streams, woken: after.woken, ..con })
            &&& after.active() == con.active()
            &&& after.streams.dom().contains(key)
            &&& after.streams[key] == (StreamState {
                send_window: (st.send_window + increment) as i64,
                send_cap: if told {
                    None
                } else {
                    st.send_cap
                },
                ..st
            })
            &&& after.streams[key].send_window == st.send_window + increment
            &&& same_other_streams(con, after, key)
            &&& forall|w: WakerId| #[trigger]
                after.woken.contains(w) <==> con.woken.contains(w) || (told && st.send_cap == Some(
                    w,
                ))
        }),
{
    con.lemma_known(id);
    con.lemma_stream_window(id, increment);
    let key = id.0 as int;
    let st = con.streams[key];
    let moved = con.put(StreamState { send_window: (st.send_window + increment) as i64, ..st });
    let after = con.stream_window(id, increment);
    assert(con.stream_valid(st));
    assert(moved.streams.dom().contains(key));
    assert forall|other: int| other != key implies (#[trigger] after.streams.dom().contains(other)
        == con.streams.dom().contains(other)) && (con.streams.dom().contains(other)
        ==> after.streams[other] == con.streams[other]) by {
        if con.streams.dom().contains(other) {
            assert(con.stream_valid(con.streams[other]));
        }
    }
    assert forall|w: WakerId| #[trigger] after.woken.contains(w) implies con.woken.contains(w) || (
    st.send_window + increment > 0 && con.send_window > 0 && st.send_cap == Some(w)) by {
        if !con.woken.contains(w) {
            let at = choose|at: int| #[trigger]
                moved.streams.dom().contains(at) && moved.streams[at].send_cap == Some(w)
                    && moved.streams[at].capacity(moved.send_window) > 0;
            if at != key {
                assert(con.streams.dom().contains(at));
                assert(con.stream_valid(con.streams[at]));
            }
        }
    }
}

/// Settings are refused for a frame size out of range, or else for a window that is too large or
/// would carry an open stream's window too far, and for nothing else.
pub proof fn law_settings_are_checked(
    con: ConnectionView,
    initial_window: Option<u32>,
    max_frame_size: Option<u32>,
)
    ensures
        ({
            let error = con.settings_error(initial_window, max_frame_size);
            let size_fits = max_frame_size is None || 16_384 <= max_frame_size->0 <= 16_777_215;
            let window_fits = initial_window is None || (initial_window->0 <= 0x7fff_ffff && (
            forall|key: int| #[trigger]
                con.streams.dom().contains(key) && (con.streams[key].send is Open
                    || con.streams[key].recv is Open) ==> con.streams[key].send_window
                    + initial_window->0 - con.initial_window <= 0x7fff_ffff));
            &&& error is None <==> size_fits && window_fits
            &&& error == Some(Reason::PROTOCOL_ERROR) <==> !size_fits
            &&& error == Some(Reason::FLOW_CONTROL_ERROR) <==> size_fits && !window_fits
        }),
{
}

/// Of the three settings, each that is named takes effect as announced, and each that is not named
/// stays as it was, whatever the others are. With the window that streams start with, the windows
/// of the open streams move by the same amount. Who waited for room or capacity and now has some
/// is woken, and nobody else. Nothing else changes.
pub proof fn law_settings_effect(
    con: ConnectionView,
    max_streams: Option<u32>,
    initial_window: Option<u32>,
    max_frame_size: Option<u32>,
)
    requires
        con.valid(),
        con.settings_error(initial_window, max_frame_size) is None,
    ensures
        ({
            let after = con.settings(max_streams, initial_window, max_frame_size);
            let moved = |key: int|
                con.streams[key].send_window + (if con.streams[key].send is Open
                    || con.streams[key].recv is Open {
                    after.initial_window - con.initial_window
                } else {
                    0
                });
            let told = |key: int| moved(key) > 0 && con.send_window > 0;
            let room = after.max_streams is None || con.active() < after.max_streams->0;
            &&& max_streams is Some ==> after.max_streams == max_streams
            &&& max_streams is None ==> after.max_streams == con.max_streams
            &&& initial_window matches Some(window) ==> after.initial_window == window
            &&& initial_window is None ==> after.initial_window == con.initial_window
            &&& max_frame_size matches Some(size) ==> after.max_frame_size == size
            &&& max_frame_size is None ==> after.max_frame_size == con.max_frame_size
            &&& after == (ConnectionView {
                max_streams: after.max_streams,
                initial_window: after.initial_window,
                max_frame_size: after.max_frame_size,
                streams: after.streams,
                waiting: after.waiting,
                woken: after.woken,
                ..con
            })
            &&& after.active() == con.active()
            &&& forall|key: int| #[trigger]
                after.streams.dom().contains(key) <==> con.streams.dom().contains(key)
            &&& forall|key: int| #[trigger]
                after.streams.dom().contains(key) ==> after.streams[key].send_window == moved(key)
            &&& forall|key: int| #[trigger]
                after.streams.dom().contains(key) ==> after.streams[key] == (StreamState {
                    send_window: after.streams[key].send_window,
                    send_cap: if told(key) {
                        None
                    } else {
                        con.streams[key].send_cap
                    },
                    ..con.streams[key]
                })
            &&& forall|w: WakerId| #[trigger]
                after.waiting.contains(w) <==> !room && con.waiting.contains(w)
            &&& forall|w: WakerId| #[trigger]
                after.woken.contains(w) <==> con.woken.contains(w) || (room
                    && con.waiting.contains(w)) || exists|key: int| #[trigger]
                    con.streams.dom().contains(key) && con.streams[key].send_cap == Some(w) && told(
                        key,
                    )
        }),
{
    con.lemma_settings(max_streams, initial_window, max_frame_size);
    let after = con.settings(max_streams, initial_window, max_frame_size);
    let delta = after.initial_window - con.initial_window;
    let shifted = con.streams.map_values(|st: StreamState| st.shifted(delta));
    assert forall|key: int| #[trigger] con.streams.dom().contains(key) implies shifted[key]
        == con.streams[key].shifted(delta) && i64::MIN <= con.streams[key].send_window + delta
        <= i64::MAX by {
        assert(con.stream_valid(con.streams[key]));
    }
    let early = ConnectionView {
        max_streams: after.max_streams,
        initial_window: after.initial_window,
        max_frame_size: after.max_frame_size,
        streams: shifted,
        ..con
    };
    let late = early.wake_capacity();
    assert(late.open_ids() =~= con.open_ids());
    assert(after == late.wake_waiting());
    assert forall|w: WakerId| #[trigger]
        crate::model::tasks_with_capacity(shifted, con.send_window).contains(w) <==> exists|key: int|
        #[trigger]
        con.streams.dom().contains(key) && con.streams[key].send_cap == Some(w) && shifted[key].capacity(
            con.send_window,
        ) > 0 by {
        if crate::model::tasks_with_capacity(shifted, con.send_window).contains(w) {
            let at = choose|at: int| #[trigger]
                shifted.dom().contains(at) && shifted[at].send_cap == Some(w)
                    && shifted[at].capacity(con.send_window) > 0;
            assert(con.streams.dom().contains(at));
        }
        if exists|key: int| #[trigger]
            con.streams.dom().contains(key) && con.streams[key].send_cap == Some(w)
                && shifted[key].capacity(con.send_window) > 0 {
            let at = choose|key: int| #[trigger]
                con.streams.dom().contains(key) && con.streams[key].send_cap == Some(w)
                    && shifted[key].capacity(con.send_window) > 0;
            assert(shifted.dom().contains(at));
        }
    }
}

/// A frame and its view say the same.
pub proof fn law_frame_says_what_it_holds(frame: Frame)
    ensures
        match frame {
            Frame::Headers { id, secure, authority, method, path, headers, eof } => frame@
                == FrameView::Headers {
                id,
                secure,
                authority: authority@,
                method,
                path: path@,
                headers,
                eof,
            },
            Frame::Data { id, payload, eof } => frame@ == FrameView::Data {
                id,
                payload: crate::foreign::bytes_contents(payload),
                eof,
            },
            Frame::Trailers { id, headers } => frame@ == FrameView::Trailers { id, headers },
            Frame::Reset { id, reason } => frame@ == FrameView::Reset { id, reason },
        },
{
}

/// A request and its view say the same.
pub proof fn law_request_says_what_it_holds(request: Request)
    ensures
        request@.method == request.method,
        request@.path == request.path@,
        request@.headers == request.headers,
        request@.eof == request.eof,
{
}

/// An identifier turns into its own number, so that no two turn into the same.
pub proof fn law_identifier_is_its_number(first: StreamId, second: StreamId)
    ensures
        <u32 as vstd::std_specs::convert::FromSpec<StreamId>>::obeys_from_spec(),
        <u32 as vstd::std_specs::convert::FromSpec<StreamId>>::from_spec(first) == first.0,
        first != second ==> <u32 as vstd::std_specs::convert::FromSpec<StreamId>>::from_spec(first)
            != <u32 as vstd::std_specs::convert::FromSpec<StreamId>>::from_spec(second),
{
}

/// What a client's calls make of its connection: a request names the client's own authority, a
/// forced close closes it in whatever state it was, and only the last handle closes it gracefully.
pub proof fn law_client_acts_on_its_connection(
    client: ClientView,
    request: RequestView,
    waker: WakerId,
    handles: usize,
    con: ConnectionView,
)
    ensures
        client.with_connection(con) == (ClientView { con, ..client }),
        client.step(ClientEvent::ForceClose).con.closed,
        client.step(ClientEvent::ForceClose).con == (ConnectionView { closed: true, ..client.con }),
        client.step(ClientEvent::Close).con.closed <==> client.con.closed || client.con.active()
            == 0,
        handles == 1 ==> client.step(ClientEvent::DropHandle { handles }) == client.step(
            ClientEvent::Close,
        ),
        handles != 1 ==> client.step(ClientEvent::DropHandle { handles }) == client,
        client.step(ClientEvent::Send { request, waker }).con.output.len() > client.con.output.len()
            ==> (client.step(ClientEvent::Send { request, waker }).con.output.last() matches
            FrameView::Headers { authority, .. } && authority == client.authority),
{
}

/// A call of a service adds the message, and whether the queue took it, at the end of what was
/// sent, and leaves the queue the same.
pub proof fn law_call_adds_one_message(service: ServiceView, msg: Message, took: bool)
    ensures
        service.called(msg, took).queue == service.queue,
        service.called(msg, took).offered == service.offered.push((msg, took)),
        took ==> service.called(msg, took).handed() == service.handed().push(msg),
        !took ==> service.called(msg, took).handed() == service.handed(),
        service.offered.len() == 0 ==> service.handed().len() == 0,
{
    assert(service.called(msg, took).offered.drop_last() =~= service.offered);
}

} // verus!
