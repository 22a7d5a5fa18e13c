//! What holds of a connection over several operations.

use ntex_http::HeaderMap;
use vstd::prelude::*;

use crate::client::simple2::{ClientView, ServiceView};
use crate::error::OperationError;
use crate::frame::{FrameView, Reason, StreamId, MAX_31_BITS};
use crate::message::Message;
use crate::model::{ConnectionView, RequestView};
use crate::stream::{HalfState, StreamState};
use crate::task::{Poll, WakerId};

verus! {

/// Everything that can happen to a connection.
pub enum Event {
    RequestOpened { authority: Seq<char>, request: RequestView },
    WaitForSlot { waker: WakerId },
    CloseWhenReady,
    CloseNow,
    Payload { id: StreamId, data: Seq<u8>, eof: bool },
    Trailers { id: StreamId, headers: HeaderMap },
    Reset { id: StreamId, reason: Reason },
    WaitForCapacity { id: StreamId, waker: WakerId },
    WaitForReset { id: StreamId, waker: WakerId },
    Release { id: StreamId },
    PeerFinished { id: StreamId },
    PeerReset { id: StreamId, reason: Reason },
    ConnectionWindow { increment: u32 },
    StreamWindow { id: StreamId, increment: u32 },
    Settings {
        max_streams: Option<u32>,
        initial_window: Option<u32>,
        max_frame_size: Option<u32>,
    },
    Disconnected { error: OperationError },
    OutputTaken,
    WokenTaken,
}

impl ConnectionView {
    /// Whether the event can happen to the connection as it is.
    pub open spec fn admits(self, event: Event) -> bool {
        match event {
            Event::RequestOpened { .. } => self.error is None && self.can_create_new_stream()
                && self.next_id <= MAX_31_BITS,
            Event::WaitForSlot { .. } => self.ready() is Pending,
            Event::Payload { id, .. } => self.stream(id).send is Open,
            Event::WaitForCapacity { id, .. } => self.send_capacity(id) is Pending,
            Event::WaitForReset { id, .. } => self.send_reset(id) is Pending,
            Event::ConnectionWindow { increment } => Self::increment_error(
                self.send_window,
                increment,
            ) is None,
            Event::StreamWindow { id, increment } => self.stream(id).is_open()
                && Self::increment_error(self.stream(id).send_window as int, increment) is None,
            Event::Settings { initial_window, max_frame_size, .. } => self.settings_error(
                initial_window,
                max_frame_size,
            ) is None,
            _ => true,
        }
    }

    /// The connection after the event.
    pub open spec fn step(self, event: Event) -> ConnectionView {
        match event {
            Event::RequestOpened { authority, request } => self.request_opened(authority, request),
            Event::WaitForSlot { waker } => self.wait_for_slot(waker),
            Event::CloseWhenReady => self.closing_when_ready(),
            Event::CloseNow => self.closed_now(),
            Event::Payload { id, data, eof } => self.payload(id, data, eof),
            Event::Trailers { id, headers } => self.trailers(id, headers),
            Event::Reset { id, reason } => self.reset(id, reason),
            Event::WaitForCapacity { id, waker } => self.wait_for_capacity(id, waker),
            Event::WaitForReset { id, waker } => self.wait_for_reset(id, waker),
            Event::Release { id } => self.released(id),
            Event::PeerFinished { id } => self.peer_finished(id),
            Event::PeerReset { id, reason } => self.peer_reset(id, reason),
            Event::ConnectionWindow { increment } => self.connection_window(increment),
            Event::StreamWindow { id, increment } => self.stream_window(id, increment),
            Event::Settings { max_streams, initial_window, max_frame_size } => self.settings(
                max_streams,
                initial_window,
                max_frame_size,
            ),
            Event::Disconnected { error } => self.disconnected(error),
            Event::OutputTaken => ConnectionView { output: Seq::empty(), ..self },
            Event::WokenTaken => ConnectionView { woken: Set::empty(), ..self },
        }
    }

    /// Whether the events can happen one after the other.
    pub open spec fn admits_all(self, events: Seq<Event>) -> bool
        decreases events.len(),
    {
        events.len() == 0 || (self.admits_all(events.drop_last()) && self.run(
            events.drop_last(),
        ).admits(events.last()))
    }

    /// The connection after the events, one after the other.
    pub open spec fn run(self, events: Seq<Event>) -> ConnectionView
        decreases events.len(),
    {
        if events.len() == 0 {
            self
        } else {
            self.run(events.drop_last()).step(events.last())
        }
    }
}

/// Whatever can happen to a valid connection leaves it valid.
pub proof fn law_every_event_keeps_validity(con: ConnectionView, event: Event)
    requires
        con.valid(),
        con.admits(event),
    ensures
        con.step(event).valid(),
{
    match event {
        Event::RequestOpened { authority, request } => {
            con.lemma_request_opened(authority, request);
        },
        Event::Payload { id, data, eof } => {
            con.lemma_payload(id, data, eof);
        },
        Event::Trailers { id, headers } => {
            if con.stream(id).send is Open {
                let next = con.emit(FrameView::Trailers { id, headers });
                next.lemma_finished_sending(id);
            }
        },
        Event::Reset { id, reason } => {
            if con.stream(id).is_open() {
                let next = con.emit(FrameView::Reset { id, reason });
                next.lemma_stream_cut_off(id, reason, OperationError::LocalReset(reason));
            }
        },
        Event::PeerReset { id, reason } => {
            if con.stream(id).is_open() {
                con.lemma_stream_cut_off(id, reason, OperationError::RemoteReset(reason));
            }
        },
        Event::PeerFinished { id } => {
            con.lemma_peer_finished(id);
        },
        Event::WaitForCapacity { id, waker } => {
            con.lemma_known(id);
            con.lemma_put_valid(StreamState { send_cap: Some(waker), ..con.stream(id) });
        },
        Event::WaitForReset { id, waker } => {
            con.lemma_known(id);
            con.lemma_put_valid(StreamState { send_reset: Some(waker), ..con.stream(id) });
        },
        Event::Release { id } => {
            con.lemma_released(id);
        },
        Event::ConnectionWindow { increment } => {
            con.lemma_connection_window(increment);
        },
        Event::StreamWindow { id, increment } => {
            con.lemma_stream_window(id, increment);
        },
        Event::Settings { max_streams, initial_window, max_frame_size } => {
            con.lemma_settings(max_streams, initial_window, max_frame_size);
        },
        Event::Disconnected { error } => {
            con.lemma_disconnected(error);
        },
        _ => {
            assert(con.step(event).open_ids() =~= con.open_ids());
        },
    }
}

/// Every state that a connection reaches is valid.
pub proof fn law_always_valid(con: ConnectionView, events: Seq<Event>)
    requires
        con.valid(),
        con.admits_all(events),
    ensures
        con.run(events).valid(),
    decreases events.len(),
{
    if events.len() > 0 {
        law_always_valid(con, events.drop_last());
        law_every_event_keeps_validity(con.run(events.drop_last()), events.last());
    }
}

/// A client is ready exactly when it is possible to start a new stream: the connection has
/// not failed, and fewer streams are open than the peer allows.
pub proof fn law_ready_when_stream_possible(con: ConnectionView)
    ensures
        con.ready() == Poll::<Result<(), OperationError>>::Ready(Ok(())) <==> con.error is None
            && con.can_create_new_stream(),
        con.ready() is Pending <==> con.error is None && !con.can_create_new_stream(),
{
}

/// A request takes one stream, and never one more than the peer allows.
pub proof fn law_requests_respect_limit(
    con: ConnectionView,
    authority: Seq<char>,
    request: RequestView,
)
    requires
        con.valid(),
        con.admits(Event::RequestOpened { authority, request }),
    ensures
        con.request_opened(authority, request).active() == con.active() + 1,
        con.max_streams matches Some(max) ==> con.request_opened(authority, request).active()
            <= max,
{
    con.lemma_request_opened(authority, request);
}

/// A request goes out as the one next frame, under the scheme of the connection and with the
/// authority it was given, on a stream that no request had before.
pub proof fn law_request_goes_out_once(
    con: ConnectionView,
    authority: Seq<char>,
    request: RequestView,
)
    requires
        con.valid(),
        con.admits(Event::RequestOpened { authority, request }),
    ensures
        ({
            let id = StreamId(con.next_id as u32);
            let after = con.request_opened(authority, request);
            &&& !con.streams.dom().contains(con.next_id)
            &&& after.stream(id).is_open()
            &&& after.next_id > con.next_id
            &&& after.output == con.output.push(
                FrameView::Headers {
                    id,
                    secure: con.secure,
                    authority,
                    method: request.method,
                    path: request.path,
                    headers: request.headers,
                    eof: request.eof,
                },
            )
        }),
{
}

/// No identifier is ever given out again.
pub proof fn law_identifiers_only_grow(con: ConnectionView, event: Event)
    ensures
        con.step(event).next_id >= con.next_id,
        event is RequestOpened ==> con.step(event).next_id > con.next_id,
{
}

/// When a stream ends, by whichever side and in whichever way, one stream fewer is open. If
/// the peer's limit was kept, a request is possible again, and every task that waited for
/// that is woken.
pub proof fn law_ended_stream_makes_room(con: ConnectionView, event: Event, id: StreamId)
    requires
        con.valid(),
        con.admits(event),
        event !is Disconnected,
        con.stream(id).is_open(),
        !con.step(event).stream(id).is_open(),
    ensures
        con.step(event).active() == con.active() - 1,
        con.max_streams matches Some(max) ==> con.active() <= max ==> con.step(
            event,
        ).can_create_new_stream(),
        con.step(event).can_create_new_stream() ==> con.step(event).waiting == Set::<
            WakerId,
        >::empty() && con.waiting.subset_of(con.step(event).woken),
{
    con.lemma_known(id);
    match event {
        Event::Payload { id: on, data, eof } => {
            con.lemma_payload(on, data, eof);
        },
        Event::Trailers { id: on, headers } => {
            let next = con.emit(FrameView::Trailers { id: on, headers });
            assert(next.open_ids() =~= con.open_ids());
            next.lemma_finished_sending(on);
        },
        Event::Reset { id: on, reason } => {
            let next = con.emit(FrameView::Reset { id: on, reason });
            assert(next.open_ids() =~= con.open_ids());
            next.lemma_stream_cut_off(on, reason, OperationError::LocalReset(reason));
        },
        Event::PeerReset { id: on, reason } => {
            con.lemma_stream_cut_off(on, reason, OperationError::RemoteReset(reason));
        },
        Event::PeerFinished { id: on } => {
            con.lemma_peer_finished(on);
        },
        Event::Release { id: on } => {
            con.lemma_released(on);
        },
        _ => {},
    }
    law_waiting_task_is_not_forgotten(con, event);
}

/// No task is forgotten that waits for a request to be possible: it goes on waiting or is
/// woken.
pub proof fn law_waiting_task_is_not_forgotten(con: ConnectionView, event: Event)
    requires
        event !is WokenTaken,
    ensures
        con.waiting.subset_of(con.step(event).waiting.union(con.step(event).woken)),
        con.woken.subset_of(con.step(event).woken),
{
}

/// No task is forgotten that waits on a stream whose handle is held, whatever happens to this
/// stream or another: it goes on waiting or is woken, unless another task takes its place.
pub proof fn law_stream_task_is_not_forgotten(
    con: ConnectionView,
    event: Event,
    id: StreamId,
    waker: WakerId,
)
    requires
        con.valid(),
        con.admits(event),
        event !is WokenTaken,
        !(event matches Event::Release { id: on } && on == id),
        !con.stream(id).released,
    ensures
        con.stream(id).send_cap == Some(waker) && !(event matches Event::WaitForCapacity {
            id: on,
            ..
        } && on == id) ==> con.step(event).stream(id).send_cap == Some(waker) || con.step(
            event,
        ).woken.contains(waker),
        con.stream(id).send_reset == Some(waker) && !(event matches Event::WaitForReset {
            id: on,
            ..
        } && on == id) ==> con.step(event).stream(id).send_reset == Some(waker) || con.step(
            event,
        ).woken.contains(waker),
{
    match event {
        Event::Payload { id: on, .. } => {
            con.lemma_known(on);
        },
        Event::Trailers { id: on, .. } => {
            if con.stream(on).send is Open {
                con.lemma_known(on);
            }
        },
        Event::Reset { id: on, .. } => {
            if con.stream(on).is_open() {
                con.lemma_known(on);
            }
        },
        Event::PeerReset { id: on, .. } => {
            if con.stream(on).is_open() {
                con.lemma_known(on);
            }
        },
        Event::PeerFinished { id: on } => {
            if con.stream(on).is_open() {
                con.lemma_known(on);
            }
        },
        Event::StreamWindow { id: on, .. } => {
            con.lemma_known(on);
        },
        Event::WaitForCapacity { id: on, .. } => {
            con.lemma_known(on);
        },
        Event::WaitForReset { id: on, .. } => {
            con.lemma_known(on);
        },
        Event::Release { .. } => {},
        Event::ConnectionWindow { .. } => {},
        Event::Settings { .. } => {},
        Event::Disconnected { .. } => {
            assert(con.streams.dom().contains(id.0 as int));
        },
        _ => {},
    }
}

/// Nobody waits for what is there already: neither for a request that is possible, nor for
/// capacity, nor for the end of a sending half.
pub proof fn law_nobody_waits_in_vain(con: ConnectionView, id: StreamId, waker: WakerId)
    requires
        con.valid(),
    ensures
        con.waiting.contains(waker) ==> con.ready() is Pending,
        con.stream(id).send_cap is Some ==> con.send_capacity(id) is Pending,
        con.stream(id).send_reset is Some ==> con.send_reset(id) is Pending,
{
}

/// Once closed, a connection stays closed; once failed, it stays failed for the same reason.
pub proof fn law_closed_for_good(con: ConnectionView, event: Event)
    ensures
        con.closed ==> con.step(event).closed,
        con.error is Some ==> con.step(event).error == con.error,
{
    match event {
        Event::Payload { .. } => {},
        Event::Trailers { .. } => {},
        Event::Reset { .. } => {},
        Event::PeerReset { .. } => {},
        Event::PeerFinished { .. } => {},
        Event::Settings { .. } => {},
        _ => {},
    }
}

/// The scheme that a connection's requests go out under never changes.
pub proof fn law_scheme_is_fixed(con: ConnectionView, event: Event)
    ensures
        con.step(event).secure == con.secure,
{
}

/// A graceful close takes effect at once where no stream is open. Else the connection stays
/// open, and its streams and frames are left alone.
pub proof fn law_graceful_close_spares_streams(con: ConnectionView)
    ensures
        con.closing_when_ready().closed <==> con.closed || con.active() == 0,
        con.closing_when_ready().streams == con.streams,
        con.closing_when_ready().output == con.output,
        con.active() > 0 ==> con.closing_when_ready().closing,
{
}

/// A connection that was closed gracefully closes with the event that ends its last stream,
/// and not before, unless it is closed by force or lost.
pub proof fn law_graceful_close_comes_with_last_stream(con: ConnectionView, event: Event)
    requires
        con.valid(),
        con.admits(event),
        con.closing,
    ensures
        con.step(event).closing,
        con.step(event).active() == 0 ==> con.step(event).closed,
        !con.closed && con.step(event).active() > 0 && event !is CloseNow && event !is Disconnected
            ==> !con.step(event).closed,
{
    law_every_event_keeps_validity(con, event);
    match event {
        Event::CloseWhenReady => {
            assert(con.step(event).open_ids() =~= con.open_ids());
        },
        Event::Payload { id, data, eof } => {
            con.lemma_payload(id, data, eof);
        },
        Event::Trailers { .. } => {},
        Event::Reset { .. } => {},
        Event::PeerReset { .. } => {},
        Event::PeerFinished { .. } => {},
        _ => {},
    }
}

/// A reset of an open stream goes out as a frame, and closes both directions for the given
/// reason: its user is told so from then on.
pub proof fn law_reset_ends_stream(con: ConnectionView, id: StreamId, reason: Reason)
    requires
        con.valid(),
        con.stream(id).is_open(),
        !con.stream(id).released,
    ensures
        ({
            let after = con.reset(id, reason);
            let error = OperationError::LocalReset(reason);
            &&& after.output == con.output.push(FrameView::Reset { id, reason })
            &&& after.stream(id).send == HalfState::Closed(Some(reason))
            &&& after.stream(id).recv == HalfState::Closed(Some(reason))
            &&& after.send_capacity(id) == Poll::<Result<u32, OperationError>>::Ready(Err(error))
            &&& after.send_reset(id) == Poll::<Result<(), OperationError>>::Ready(Err(error))
        }),
{
    con.lemma_known(id);
}

/// A reset by the peer is seen by the user of the stream, and a task that waits on the stream
/// is woken to see it.
pub proof fn law_peer_reset_is_seen(con: ConnectionView, id: StreamId, reason: Reason)
    requires
        con.valid(),
        con.stream(id).is_open(),
        !con.stream(id).released,
    ensures
        ({
            let after = con.peer_reset(id, reason);
            let error = OperationError::RemoteReset(reason);
            &&& after.output == con.output
            &&& after.stream(id).send == HalfState::Closed(Some(reason))
            &&& after.send_capacity(id) == Poll::<Result<u32, OperationError>>::Ready(Err(error))
            &&& after.send_reset(id) == Poll::<Result<(), OperationError>>::Ready(Err(error))
            &&& con.stream(id).send_cap matches Some(waker) ==> after.woken.contains(waker)
            &&& con.stream(id).send_reset matches Some(waker) ==> after.woken.contains(waker)
        }),
{
    con.lemma_known(id);
}

/// A stream that is over cannot be reset again, from either side.
pub proof fn law_reset_once(con: ConnectionView, id: StreamId, first: Reason, second: Reason)
    requires
        con.valid(),
    ensures
        con.reset(id, first).reset(id, second) == con.reset(id, first),
        con.reset(id, first).peer_reset(id, second) == con.reset(id, first),
        con.peer_reset(id, first).reset(id, second) == con.peer_reset(id, first),
{
    if con.stream(id).is_open() {
        con.lemma_known(id);
    }
}

/// Letting go of a stream on which everything has been sent neither resets nor ends it:
/// nothing is written, nobody is woken, and the same streams are open as before.
pub proof fn law_release_is_silent(con: ConnectionView, id: StreamId)
    requires
        con.valid(),
        con.stream(id).send is Closed,
    ensures
        ({
            let after = con.released(id);
            &&& after.output == con.output
            &&& after.woken == con.woken
            &&& after.waiting == con.waiting
            &&& after.closed == con.closed
            &&& after.open_ids() == con.open_ids()
            &&& con.stream(id).is_open() ==> after.stream(id) == (StreamState {
                released: true,
                ..con.stream(id)
            })
        }),
{
    assert(con.released(id).open_ids() =~= con.open_ids());
}

/// Letting go of a stream on which not everything has been sent cancels it and makes room: the
/// peer is told, one stream fewer is open, and if the peer's limit was kept, a request is
/// possible again and every task that waited for that is woken.
pub proof fn law_release_of_unfinished_makes_room(con: ConnectionView, id: StreamId)
    requires
        con.valid(),
        con.stream(id).send is Open,
    ensures
        ({
            let after = con.released(id);
            &&& after.output == con.output.push(
                FrameView::Reset { id, reason: Reason::CANCEL },
            )
            &&& !after.stream(id).is_open()
            &&& after.active() == con.active() - 1
            &&& con.max_streams matches Some(max) ==> con.active() <= max
                ==> after.can_create_new_stream()
            &&& after.can_create_new_stream() ==> con.waiting.subset_of(after.woken)
        }),
{
    con.lemma_known(id);
    law_ended_stream_makes_room(con, Event::Release { id }, id);
}

/// When the transport is lost, the connection is closed, no stream stays open, everybody who
/// waits is woken, and every later question is answered with the failure.
pub proof fn law_disconnect_fails_everything(
    con: ConnectionView,
    error: OperationError,
    id: StreamId,
)
    requires
        con.valid(),
        con.error is None,
    ensures
        ({
            let after = con.disconnected(error);
            &&& after.closed
            &&& after.active() == 0
            &&& con.waiting.subset_of(after.woken)
            &&& crate::model::all_tasks(con.streams).subset_of(after.woken)
            &&& after.ready() == Poll::<Result<(), OperationError>>::Ready(Err(error))
            &&& con.stream(id).is_open() && !con.stream(id).released ==> after.send_capacity(id)
                == Poll::<Result<u32, OperationError>>::Ready(Err(error))
            &&& after.send_capacity(id) !is Pending
            &&& after.send_reset(id) !is Pending
            &&& after.stream(id).send is Closed
        }),
{
    con.lemma_disconnected(error);
}

/// The payload that frames carry, put together again.
pub open spec fn carried(frames: Seq<FrameView>) -> Seq<u8>
    decreases frames.len(),
{
    if frames.len() == 0 {
        Seq::empty()
    } else {
        (match frames.first() {
            FrameView::Data { payload, .. } => payload,
            _ => Seq::empty(),
        }) + carried(frames.drop_first())
    }
}

/// Cutting a payload into frames loses nothing and reorders nothing; no frame is larger than
/// allowed, and only the last can end the stream.
pub proof fn law_frames_carry_payload(id: StreamId, data: Seq<u8>, size: nat, eof: bool)
    requires
        size > 0,
    ensures
        ({
            let frames = crate::frame::data_frames(id, data, size, eof);
            &&& frames.len() > 0
            &&& carried(frames) == data
            &&& forall|i: int|
                0 <= i < frames.len() ==> (#[trigger] frames[i] matches FrameView::Data {
                    id: to,
                    payload,
                    eof: last,
                } && to == id && payload.len() <= size && last == (eof && i == frames.len() - 1))
        }),
    decreases data.len(),
{
    let frames = crate::frame::data_frames(id, data, size, eof);
    reveal_with_fuel(carried, 2);
    if data.len() <= size {
        assert(frames.drop_first() =~= Seq::empty());
        assert(carried(frames) =~= data);
    } else {
        let rest = data.skip(size as int);
        law_frames_carry_payload(id, rest, size, eof);
        let tail = crate::frame::data_frames(id, rest, size, eof);
        assert(frames.drop_first() =~= tail);
        assert(carried(frames) =~= data.take(size as int) + rest);
        assert(data.take(size as int) + rest =~= data);
        assert forall|i: int| 0 <= i < frames.len() implies (#[trigger] frames[i] matches FrameView::Data {
            id: to,
            payload,
            eof: last,
        } && to == id && payload.len() <= size && last == (eof && i == frames.len() - 1)) by {
            if i > 0 {
                assert(frames[i] == tail[i - 1]);
            }
        }
    }
}

/// Sending payload writes its first bytes and hands back the others, takes from both windows
/// what was written, and never overdraws either.
pub proof fn law_payload_fits_windows(con: ConnectionView, id: StreamId, data: Seq<u8>, eof: bool)
    requires
        con.valid(),
        con.stream(id).send is Open,
    ensures
        ({
            let sent = con.sendable(id, data);
            let after = con.payload(id, data, eof);
            let written = after.output.skip(con.output.len() as int);
            &&& 0 <= sent <= con.stream(id).send_window || sent == 0
            &&& 0 <= sent <= con.send_window
            &&& after.output == con.output + written
            &&& carried(written) == data.take(sent)
            &&& data.take(sent) + data.skip(sent) == data
            &&& con.sends_all(id, data, eof) ==> sent == data.len()
            &&& after.send_window == con.send_window - sent
            &&& after.streams.dom().contains(id.0 as int) ==> after.stream(id).send_window
                == con.stream(id).send_window - sent
        }),
{
    con.lemma_known(id);
    let sent = con.sendable(id, data);
    let all = con.sends_all(id, data, eof);
    let after = con.payload(id, data, eof);
    let written = after.output.skip(con.output.len() as int);
    assert(data.take(sent) + data.skip(sent) =~= data);
    if !all && sent == 0 {
        assert(written =~= Seq::empty());
        assert(data.take(sent) =~= Seq::empty());
        assert(after.output =~= con.output + written);
    } else {
        let frames = crate::frame::data_frames(
            id,
            data.take(sent),
            con.max_frame_size as nat,
            eof && all,
        );
        law_frames_carry_payload(id, data.take(sent), con.max_frame_size as nat, eof && all);
        assert(written =~= frames);
    }
}

/// What is left of a payload after each of the connections, one after the other, sent what it
/// could of what the one before had left.
pub open spec fn left_after(cons: Seq<ConnectionView>, id: StreamId, data: Seq<u8>) -> Seq<u8>
    decreases cons.len(),
{
    if cons.len() == 0 {
        data
    } else {
        let rest = left_after(cons.drop_last(), id, data);
        rest.skip(cons.last().sendable(id, rest))
    }
}

/// The payload that the connections wrote in doing so, put together.
pub open spec fn joined(
    cons: Seq<ConnectionView>,
    id: StreamId,
    data: Seq<u8>,
    eof: bool,
) -> Seq<u8>
    decreases cons.len(),
{
    if cons.len() == 0 {
        Seq::empty()
    } else {
        let con = cons.last();
        let rest = left_after(cons.drop_last(), id, data);
        let written = con.payload(id, rest, eof).output.skip(con.output.len() as int);
        joined(cons.drop_last(), id, data, eof) + carried(written)
    }
}

/// In however many parts a payload goes out, and whatever happens to the connection between
/// them, what is written and what is left make up the payload, in order. Once a part goes out
/// to its end, the whole payload has been written.
pub proof fn law_payload_arrives_whole(
    cons: Seq<ConnectionView>,
    id: StreamId,
    data: Seq<u8>,
    eof: bool,
)
    requires
        forall|i: int|
            0 <= i < cons.len() ==> (#[trigger] cons[i]).valid() && cons[i].stream(id).send is Open,
    ensures
        joined(cons, id, data, eof) + left_after(cons, id, data) == data,
        cons.len() > 0 && cons.last().sends_all(id, left_after(cons.drop_last(), id, data), eof)
            ==> joined(cons, id, data, eof) == data,
    decreases cons.len(),
{
    if cons.len() == 0 {
        assert(joined(cons, id, data, eof) + data =~= data);
    } else {
        let before = cons.drop_last();
        let rest = left_after(before, id, data);
        let con = cons.last();
        assert forall|i: int| 0 <= i < before.len() implies (#[trigger] before[i]).valid()
            && before[i].stream(id).send is Open by {
            assert(before[i] == cons[i]);
        }
        law_payload_arrives_whole(before, id, data, eof);
        law_payload_fits_windows(con, id, rest, eof);
        let sent = con.sendable(id, rest);
        let earlier = joined(before, id, data, eof);
        assert((earlier + rest.take(sent)) + rest.skip(sent) =~= earlier + (rest.take(sent)
            + rest.skip(sent)));
        if con.sends_all(id, rest, eof) {
            assert(rest.take(sent) =~= rest);
        }
    }
}

/// The end of a stream's payload is announced with its last byte, and not before: as long as
/// something is left to send, or more is to come, the sending half stays open.
pub proof fn law_end_comes_with_last_byte(
    con: ConnectionView,
    id: StreamId,
    data: Seq<u8>,
    eof: bool,
)
    requires
        con.valid(),
        con.stream(id).send is Open,
    ensures
        ({
            let after = con.payload(id, data, eof);
            let written = after.output.skip(con.output.len() as int);
            let ends = eof && con.sends_all(id, data, eof);
            &&& ends ==> written.len() > 0 && (written.last() matches FrameView::Data {
                eof: last,
                ..
            } && last)
            &&& forall|i: int|
                0 <= i < written.len() && !(ends && i == written.len() - 1) ==> (
                #[trigger] written[i] matches FrameView::Data { eof: last, .. } && !last)
            &&& after.stream(id).send is Closed <==> ends
        }),
{
    con.lemma_known(id);
    let sent = con.sendable(id, data);
    let all = con.sends_all(id, data, eof);
    let after = con.payload(id, data, eof);
    let written = after.output.skip(con.output.len() as int);
    if all || sent != 0 {
        law_frames_carry_payload(id, data.take(sent), con.max_frame_size as nat, eof && all);
        assert(written =~= crate::frame::data_frames(
            id,
            data.take(sent),
            con.max_frame_size as nat,
            eof && all,
        ));
    }
}

/// Everything that can happen to a client.
pub enum ClientEvent {
    Send { request: RequestView, waker: WakerId },
    Ready { waker: WakerId },
    Close,
    ForceClose,
    DropHandle { handles: usize },
    /// Whatever its streams and its peer make of its connection.
    Connection { after: ConnectionView },
}

impl ClientView {
    /// The client after the event.
    pub open spec fn step(self, event: ClientEvent) -> ClientView {
        self.with_connection(
            match event {
                ClientEvent::Send { request, waker } => self.con.request_sent(
                    self.authority,
                    request,
                    waker,
                ),
                ClientEvent::Ready { waker } => self.con.asked_ready(waker),
                ClientEvent::Close => self.con.closing_when_ready(),
                ClientEvent::ForceClose => self.con.closed_now(),
                ClientEvent::DropHandle { handles } => if handles == 1 {
                    self.con.closing_when_ready()
                } else {
                    self.con
                },
                ClientEvent::Connection { after } => after,
            },
        )
    }

    /// The client after the events, one after the other.
    pub open spec fn run(self, events: Seq<ClientEvent>) -> ClientView
        decreases events.len(),
    {
        if events.len() == 0 {
            self
        } else {
            self.run(events.drop_last()).step(events.last())
        }
    }
}

/// Whatever is done with a client, its authority stays what it was, character for character.
pub proof fn law_authority_never_changes(client: ClientView, events: Seq<ClientEvent>)
    ensures
        client.run(events).authority == client.authority,
    decreases events.len(),
{
    if events.len() > 0 {
        law_authority_never_changes(client, events.drop_last());
    }
}

/// Whatever is done with a client, it holds a sending end of the same queue, so that the queue
/// does not end while the client is there.
pub proof fn law_client_holds_its_queue(client: ClientView, events: Seq<ClientEvent>)
    ensures
        client.run(events).queue == client.queue,
    decreases events.len(),
{
    if events.len() > 0 {
        law_client_holds_its_queue(client, events.drop_last());
    }
}

impl ServiceView {
    /// The service after it was given messages one after the other.
    pub open spec fn run(self, calls: Seq<(Message, bool)>) -> ServiceView
        decreases calls.len(),
    {
        if calls.len() == 0 {
            self
        } else {
            self.run(calls.drop_last()).called(calls.last().0, calls.last().1)
        }
    }
}

/// A service sends each message that it is given, once, unchanged and in the order in which it
/// was given, to its own queue and no other. So what it has passed on is what that queue took.
pub proof fn law_messages_keep_their_order(service: ServiceView, calls: Seq<(Message, bool)>)
    ensures
        service.run(calls).queue == service.queue,
        service.run(calls).offered == service.offered + calls,
        service.run(calls).handed() == service.handed() + crate::message::taken(calls),
    decreases calls.len(),
{
    let after = service.run(calls);
    if calls.len() > 0 {
        law_messages_keep_their_order(service, calls.drop_last());
        assert(after.offered =~= service.offered + calls);
        assert(after.offered.drop_last() =~= service.run(calls.drop_last()).offered);
    } else {
        assert(after.offered =~= service.offered + calls);
    }
    assert(after.handed() =~= service.handed() + crate::message::taken(calls));
}

/// Whatever is done with a client, nothing goes to its queue through the client's own end: only
/// its service sends there.
pub proof fn law_client_sends_no_message(client: ClientView, events: Seq<ClientEvent>)
    ensures
        client.run(events).offered == client.offered,
    decreases events.len(),
{
    if events.len() > 0 {
        law_client_sends_no_message(client, events.drop_last());
    }
}

} // verus!
