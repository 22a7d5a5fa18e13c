//! The state machine behind the client: what it answers, and what it has the transport do.

use ntex_bytes::Bytes;
use ntex_http::{HeaderMap, Method};
use vstd::prelude::*;

use crate::error::OperationError;
use crate::foreign::{bytes_len, bytes_split_to};
use crate::frame::{
    Frame, Reason, StreamId, WindowSize, DEFAULT_WINDOW_SIZE, MAX_31_BITS, MAX_FRAME_SIZE,
    MIN_FRAME_SIZE,
};
use crate::model::{ConnectionView, RequestView};
use crate::stream::{HalfState, StreamRef, StreamState};
use crate::table::StreamTable;
use crate::task::{Poll, WakerId};

verus! {

/// A request that has not been opened yet.
#[derive(Debug)]
pub struct Request {
    pub method: Method,
    pub path: String,
    pub headers: HeaderMap,
    /// Whether the request is complete with its header block.
    pub eof: bool,
}

impl View for Request {
    type V = RequestView;

    open spec fn view(&self) -> RequestView {
        RequestView {
            method: self.method,
            path: self.path@,
            headers: self.headers,
            eof: self.eof,
        }
    }
}

/// What became of a request.
#[derive(Debug)]
pub enum RequestOutcome {
    /// It went out on this stream.
    Opened(StreamRef),
    /// No stream is free. The task that asked is woken when one may be.
    Waiting(Request),
    /// It cannot go out on this connection.
    Failed(OperationError),
}

/// The client's end of an HTTP/2 connection.
#[derive(Debug)]
pub struct Connection {
    secure: bool,
    closed: bool,
    closing: bool,
    error: Option<OperationError>,
    max_streams: Option<u32>,
    active: u32,
    next_id: u32,
    send_window: i64,
    initial_window: i64,
    max_frame_size: u32,
    streams: StreamTable,
    waiting: Vec<WakerId>,
    woken: Vec<WakerId>,
    output: Vec<Frame>,
}

impl View for Connection {
    type V = ConnectionView;

    closed spec fn view(&self) -> ConnectionView {
        ConnectionView {
            secure: self.secure,
            closed: self.closed,
            closing: self.closing,
            error: self.error,
            max_streams: self.max_streams,
            next_id: self.next_id as int,
            send_window: self.send_window as int,
            initial_window: self.initial_window as int,
            max_frame_size: self.max_frame_size as int,
            streams: self.streams@,
            waiting: self.waiting@.to_set(),
            woken: self.woken@.to_set(),
            output: self.output@.map_values(|frame: Frame| frame@),
        }
    }
}

impl Connection {
    /// The stored count is the number of open streams.
    spec fn counted(self) -> bool {
        &&& self.streams.wf()
        &&& self.active == self@.active()
        &&& self@.ids_valid()
    }

    /// The connection is in a state that its own operations lead to.
    pub closed spec fn wf(self) -> bool {
        &&& self.counted()
        &&& self@.valid()
    }

    /// What the well-formedness of a connection says of its value.
    pub proof fn lemma_wf(self)
        requires
            self.wf(),
        ensures
            self@.valid(),
    {
    }

    /// A connection to a peer that has sent nothing yet.
    pub fn new() -> (con: Connection)
        ensures
            con.wf(),
            con@ == ConnectionView::initial(
                false,
                DEFAULT_WINDOW_SIZE as int,
                MIN_FRAME_SIZE as int,
            ),
    {
        let con = Connection {
            secure: false,
            closed: false,
            closing: false,
            error: None,
            max_streams: None,
            active: 0,
            next_id: 1,
            send_window: DEFAULT_WINDOW_SIZE as i64,
            initial_window: DEFAULT_WINDOW_SIZE as i64,
            max_frame_size: MIN_FRAME_SIZE,
            streams: StreamTable::new(),
            waiting: Vec::new(),
            woken: Vec::new(),
            output: Vec::new(),
        };
        proof {
            assert(con@ =~= ConnectionView::initial(
                false,
                DEFAULT_WINDOW_SIZE as int,
                MIN_FRAME_SIZE as int,
            ));
            assert(con@.open_ids() =~= Set::<int>::empty());
        }
        con
    }

    /// The stream as the connection knows it.
    fn lookup(&self, id: StreamId) -> (st: StreamState)
        requires
            self.counted(),
        ensures
            st == self@.stream(id),
    {
        match self.streams.get(id) {
            Some(st) => st,
            None => StreamState {
                id,
                send: HalfState::Closed(None),
                recv: HalfState::Closed(None),
                send_window: 0,
                error: Some(OperationError::Closed(None)),
                send_cap: None,
                send_reset: None,
                released: true,
            },
        }
    }

    /// Stores a stream, and keeps the count of open streams.
    fn put(&mut self, st: StreamState)
        requires
            old(self).counted(),
            1 <= st.id.0 < old(self)@.next_id,
            st.id.0 % 2 == 1,
        ensures
            final(self).counted(),
            final(self)@ == old(self)@.put(st),
    {
        let was_open = self.lookup(st.id).has_open_half();
        let is_open = st.has_open_half();
        proof {
            self@.lemma_put(st);
        }
        if is_open || !st.released {
            self.streams.insert(st);
        } else {
            self.streams.remove(st.id);
        }
        if is_open && !was_open {
            self.active = self.active + 1;
        } else if was_open && !is_open {
            self.active = self.active - 1;
        }
        assert(self@ =~= old(self)@.put(st));
    }

    /// Has a frame written.
    fn emit(&mut self, frame: Frame)
        requires
            old(self).counted(),
        ensures
            final(self).counted(),
            final(self)@ == old(self)@.emit(frame@),
    {
        self.output.push(frame);
        assert(self@ =~= old(self)@.emit(frame@));
    }

    /// Has a task woken, if there is one.
    fn wake(&mut self, task: Option<WakerId>)
        requires
            old(self).counted(),
        ensures
            final(self).counted(),
            final(self)@ == old(self)@.wake(task),
    {
        if let Some(waker) = task {
            self.woken.push(waker);
            proof {
                crate::table::lemma_push_contains(old(self).woken@, waker);
                assert(self.woken@.to_set() =~= old(self).woken@.to_set().insert(waker));
            }
        }
        assert(self@ =~= old(self)@.wake(task));
    }

    /// Whether a request can be opened now.
    pub fn can_create_new_stream(&self) -> (can: bool)
        requires
            self.wf(),
        ensures
            can == self@.can_create_new_stream(),
    {
        self.has_free_slot()
    }

    /// Whether the peer's limit leaves room for one more stream.
    fn has_free_slot(&self) -> (can: bool)
        requires
            self.counted(),
        ensures
            can == self@.can_create_new_stream(),
    {
        match self.max_streams {
            Some(max) => self.active < max,
            None => true,
        }
    }

    /// Has the tasks woken that wait for a request to be possible, if one is.
    fn wake_waiting(&mut self)
        requires
            old(self).counted(),
        ensures
            final(self).counted(),
            final(self)@ == old(self)@.wake_waiting(),
    {
        if self.has_free_slot() {
            self.wake_all_waiting();
        }
        assert(self@ =~= old(self)@.wake_waiting());
    }

    /// Has every task woken that waits for a request to be possible.
    fn wake_all_waiting(&mut self)
        requires
            old(self).counted(),
        ensures
            final(self).counted(),
            final(self)@ == (ConnectionView {
                woken: old(self)@.woken.union(old(self)@.waiting),
                waiting: Set::empty(),
                ..old(self)@
            }),
    {
        let ghost before = self.woken@;
        self.woken.append(&mut self.waiting);
        proof {
            let added = old(self).waiting@;
            assert forall|w: WakerId| #[trigger] (before + added).contains(w) == (before.contains(w)
                || added.contains(w)) by {
                if before.contains(w) {
                    assert((before + added)[before.index_of(w)] == w);
                }
                if added.contains(w) {
                    assert((before + added)[before.len() + added.index_of(w)] == w);
                }
            }
            assert(self.woken@.to_set() =~= before.to_set().union(added.to_set()));
            assert(self.waiting@.to_set() =~= Set::<WakerId>::empty());
        }
    }

    /// What follows when a stream may have closed.
    fn settle(&mut self)
        requires
            old(self).counted(),
        ensures
            final(self).counted(),
            final(self)@ == old(self)@.settle(),
    {
        self.wake_waiting();
        if self.closing && self.active == 0 {
            self.closed = true;
        }
        assert(self@ =~= old(self)@.settle());
    }

    /// Chooses whether requests go out under the `https` scheme.
    pub fn set_secure(&mut self, secure: bool)
        requires
            old(self).wf(),
        ensures
            final(self).wf(),
            final(self)@ == (ConnectionView { secure, ..old(self)@ }),
    {
        self.secure = secure;
        assert(self@ =~= ConnectionView { secure, ..old(self)@ });
        assert(self@.open_ids() =~= old(self)@.open_ids());
    }

    /// Whether a request can be opened. Where the answer is open, the task is woken when
    /// it should ask again.
    pub fn ready(&mut self, waker: WakerId) -> (ready: Poll<Result<(), OperationError>>)
        requires
            old(self).wf(),
        ensures
            final(self).wf(),
            ready == old(self)@.ready(),
            final(self)@ == if ready is Pending {
                old(self)@.wait_for_slot(waker)
            } else {
                old(self)@
            },
    {
        if let Some(error) = self.error {
            Poll::Ready(Err(error))
        } else if self.has_free_slot() {
            Poll::Ready(Ok(()))
        } else {
            self.waiting.push(waker);
            proof {
                crate::table::lemma_push_contains(old(self).waiting@, waker);
                assert(self.waiting@.to_set() =~= old(self).waiting@.to_set().insert(waker));
                assert(self@ =~= old(self)@.wait_for_slot(waker));
                assert(self@.open_ids() =~= old(self)@.open_ids());
            }
            Poll::Pending
        }
    }

    /// Opens a request on a new stream if one is free.
    pub fn send_request(
        &mut self,
        authority: String,
        request: Request,
        waker: WakerId,
    ) -> (outcome: RequestOutcome)
        requires
            old(self).wf(),
        ensures
            final(self).wf(),
            match outcome {
                RequestOutcome::Opened(stream) => {
                    &&& old(self)@.ready() == Poll::<Result<(), OperationError>>::Ready(Ok(()))
                    &&& old(self)@.next_id <= MAX_31_BITS
                    &&& stream.spec_id().0 == old(self)@.next_id
                    &&& final(self)@ == old(self)@.request_opened(authority@, request@)
                },
                RequestOutcome::Waiting(back) => {
                    &&& old(self)@.ready() is Pending
                    &&& back == request
                    &&& final(self)@ == old(self)@.wait_for_slot(waker)
                },
                RequestOutcome::Failed(error) => {
                    &&& old(self)@.ready() == Poll::<Result<(), OperationError>>::Ready(
                        if old(self)@.error is Some {
                            Err(error)
                        } else {
                            Ok(())
                        },
                    )
                    &&& old(self)@.error is None ==> old(self)@.next_id > MAX_31_BITS && error
                        == OperationError::OverflowedStreamId
                    &&& final(self)@ == old(self)@
                },
            },
    {
        match self.ready(waker) {
            Poll::Pending => RequestOutcome::Waiting(request),
            Poll::Ready(Err(error)) => RequestOutcome::Failed(error),
            Poll::Ready(Ok(())) => {
                if self.next_id > MAX_31_BITS {
                    return RequestOutcome::Failed(OperationError::OverflowedStreamId);
                }
                proof {
                    self@.lemma_request_opened(authority@, request@);
                }
                let id = StreamId(self.next_id);
                let st = StreamState {
                    id,
                    send: if request.eof {
                        HalfState::Closed(None)
                    } else {
                        HalfState::Open
                    },
                    recv: HalfState::Open,
                    send_window: self.initial_window,
                    error: None,
                    send_cap: None,
                    send_reset: None,
                    released: false,
                };
                let frame = Frame::Headers {
                    id,
                    secure: self.secure,
                    authority,
                    method: request.method,
                    path: request.path,
                    headers: request.headers,
                    eof: request.eof,
                };
                self.next_id = self.next_id + 2;
                proof {
                    assert(self@.streams == old(self)@.streams);
                    assert(self@.open_ids() =~= old(self)@.open_ids());
                }
                self.emit(frame);
                self.put(st);
                assert(self@ =~= old(self)@.request_opened(authority@, request@));
                RequestOutcome::Opened(StreamRef::new(id))
            },
        }
    }

    /// Closes the connection when no stream is open any more, at once where none is.
    pub fn disconnect_when_ready(&mut self)
        requires
            old(self).wf(),
        ensures
            final(self).wf(),
            final(self)@ == old(self)@.closing_when_ready(),
    {
        if self.active == 0 {
            self.closed = true;
        } else {
            self.closing = true;
        }
        assert(self@ =~= old(self)@.closing_when_ready());
        assert(self@.open_ids() =~= old(self)@.open_ids());
    }

    /// Closes the connection without regard to its streams.
    pub fn close(&mut self)
        requires
            old(self).wf(),
        ensures
            final(self).wf(),
            final(self)@ == old(self)@.closed_now(),
    {
        self.closed = true;
        assert(self@ =~= old(self)@.closed_now());
        assert(self@.open_ids() =~= old(self)@.open_ids());
    }

    /// Whether the connection is closed.
    pub fn is_closed(&self) -> (closed: bool)
        ensures
            closed == self@.closed,
    {
        self.closed
    }

    /// How many streams the peer lets be open at once.
    pub fn max_streams(&self) -> (max: Option<u32>)
        ensures
            max == self@.max_streams,
    {
        self.max_streams
    }

    /// How many streams are open.
    pub fn active_streams(&self) -> (active: u32)
        requires
            self.wf(),
        ensures
            active == self@.active(),
    {
        self.active
    }

    /// Bytes of payload that may be sent on a stream now.
    pub(crate) fn available_send_capacity(&self, id: StreamId) -> (bytes: WindowSize)
        requires
            self.wf(),
        ensures
            bytes == self@.capacity(id),
    {
        let st = self.lookup(id);
        proof {
            if self@.streams.dom().contains(id.0 as int) {
                assert(self@.stream_valid(st));
            }
        }
        st.capacity_within(self.send_window) as u32
    }

    /// Tells a task the capacity of a stream, or has it wait for some.
    pub(crate) fn poll_send_capacity(&mut self, id: StreamId, waker: WakerId) -> (capacity: Poll<
        Result<WindowSize, OperationError>,
    >)
        requires
            old(self).wf(),
        ensures
            final(self).wf(),
            capacity == old(self)@.send_capacity(id),
            final(self)@ == if capacity is Pending {
                old(self)@.wait_for_capacity(id, waker)
            } else {
                old(self)@
            },
    {
        let mut st = self.lookup(id);
        if let Some(error) = st.error {
            return Poll::Ready(Err(error));
        }
        if let Some(error) = self.error {
            return Poll::Ready(Err(error));
        }
        let bytes = self.available_send_capacity(id);
        if bytes > 0 {
            return Poll::Ready(Ok(bytes));
        }
        st.send_cap = Some(waker);
        proof {
            self@.lemma_known(id);
            self@.lemma_put_valid(st);
        }
        self.put(st);
        Poll::Pending
    }

    /// Tells a task whether the sending half of a stream is over, or has it wait for that.
    pub(crate) fn poll_send_reset(&mut self, id: StreamId, waker: WakerId) -> (over: Poll<
        Result<(), OperationError>,
    >)
        requires
            old(self).wf(),
        ensures
            final(self).wf(),
            over == old(self)@.send_reset(id),
            final(self)@ == if over is Pending {
                old(self)@.wait_for_reset(id, waker)
            } else {
                old(self)@
            },
    {
        let mut st = self.lookup(id);
        if let Some(error) = st.error {
            return Poll::Ready(Err(error));
        }
        if let Some(error) = self.error {
            return Poll::Ready(Err(error));
        }
        if let HalfState::Closed(_) = st.send {
            return Poll::Ready(Ok(()));
        }
        st.send_reset = Some(waker);
        proof {
            self@.lemma_known(id);
            self@.lemma_put_valid(st);
        }
        self.put(st);
        Poll::Pending
    }

    /// Cuts an open stream off in both directions.
    fn cut_off(&mut self, id: StreamId, reason: Reason, error: OperationError)
        requires
            old(self).counted(),
            old(self)@.consistent(),
            old(self)@.stream(id).is_open(),
        ensures
            final(self).wf(),
            final(self)@ == old(self)@.stream_cut_off(id, reason, error),
    {
        proof {
            self@.lemma_known(id);
            self@.lemma_stream_cut_off(id, reason, error);
        }
        let st = self.lookup(id);
        self.put(st.cut(Some(reason), error));
        self.wake(st.send_cap);
        self.wake(st.send_reset);
        self.settle();
    }

    /// Resets a stream. A stream that is over stays as it is.
    pub(crate) fn reset_stream(&mut self, id: StreamId, reason: Reason)
        requires
            old(self).wf(),
        ensures
            final(self).wf(),
            final(self)@ == old(self)@.reset(id, reason),
    {
        if self.lookup(id).has_open_half() {
            self.emit(Frame::Reset { id, reason });
            assert(self@.stream(id) == old(self)@.stream(id));
            self.cut_off(id, reason, OperationError::LocalReset(reason));
        }
    }

    /// Takes note that the peer reset a stream.
    pub fn peer_reset(&mut self, id: StreamId, reason: Reason)
        requires
            old(self).wf(),
        ensures
            final(self).wf(),
            final(self)@ == old(self)@.peer_reset(id, reason),
    {
        if self.lookup(id).has_open_half() {
            self.cut_off(id, reason, OperationError::RemoteReset(reason));
        }
    }

    /// Takes note that the peer has sent the last it has to say on a stream.
    pub fn peer_finished(&mut self, id: StreamId)
        requires
            old(self).wf(),
        ensures
            final(self).wf(),
            final(self)@ == old(self)@.peer_finished(id),
    {
        let mut st = self.lookup(id);
        if let HalfState::Open = st.recv {
            proof {
                self@.lemma_known(id);
                self@.lemma_peer_finished(id);
            }
            st.recv = HalfState::Closed(None);
            self.put(st);
            self.settle();
        }
    }

    /// Closes the sending half of a stream.
    fn finish_sending(&mut self, id: StreamId)
        requires
            old(self).counted(),
            old(self)@.consistent(),
            old(self)@.stream(id).send is Open,
        ensures
            final(self).wf(),
            final(self)@ == old(self)@.finished_sending(id),
    {
        proof {
            self@.lemma_known(id);
            self@.lemma_finished_sending(id);
        }
        let mut st = self.lookup(id);
        let waiting = st.send_reset;
        st.send = HalfState::Closed(None);
        st.send_reset = None;
        self.put(st);
        self.wake(waiting);
        self.settle();
    }

    /// Sends trailers, which end the sending half. They go nowhere once it is closed.
    pub(crate) fn send_trailers(&mut self, id: StreamId, headers: HeaderMap)
        requires
            old(self).wf(),
        ensures
            final(self).wf(),
            final(self)@ == old(self)@.trailers(id, headers),
    {
        if let HalfState::Open = self.lookup(id).send {
            self.emit(Frame::Trailers { id, headers });
            assert(self@.stream(id) == old(self)@.stream(id));
            self.finish_sending(id);
        }
    }

    /// Takes note that the handle of a stream is gone. A stream on which not everything has
    /// been sent is cancelled.
    pub(crate) fn release(&mut self, id: StreamId)
        requires
            old(self).wf(),
        ensures
            final(self).wf(),
            final(self)@ == old(self)@.released(id),
    {
        if let Some(found) = self.streams.get(id) {
            let mut st = found;
            st.released = true;
            proof {
                assert(self@.stream_valid(found));
                self@.lemma_put_valid(st);
            }
            self.put(st);
            if let HalfState::Open = st.send {
                self.reset_stream(id, Reason::CANCEL);
            }
        }
    }

    /// Takes note that the transport is lost.
    pub fn disconnected(&mut self, error: OperationError)
        requires
            old(self).wf(),
        ensures
            final(self).wf(),
            final(self)@ == old(self)@.disconnected(error),
    {
        proof {
            self@.lemma_disconnected(error);
        }
        self.wake_all_waiting();
        self.streams.disconnect(error, &mut self.woken);
        self.closed = true;
        self.active = 0;
        if self.error.is_none() {
            self.error = Some(error);
        }
        assert(self@ =~= old(self)@.disconnected(error));
    }

    /// Has the tasks woken that wait for capacity on a stream that has some.
    fn wake_capacity(&mut self)
        requires
            old(self).counted(),
        ensures
            final(self).counted(),
            final(self)@ == old(self)@.wake_capacity(),
    {
        self.streams.wake_capacity(self.send_window, &mut self.woken);
        assert(self@ =~= old(self)@.wake_capacity());
        assert(self@.open_ids() =~= old(self)@.open_ids());
    }

    /// Why a window cannot grow by an increment, if it cannot.
    fn check_increment(window: i64, increment: u32) -> (error: Option<Reason>)
        requires
            window <= MAX_31_BITS,
        ensures
            error == ConnectionView::increment_error(window as int, increment),
    {
        if increment == 0 || increment > MAX_31_BITS {
            Some(Reason::PROTOCOL_ERROR)
        } else if window + increment as i64 > MAX_31_BITS as i64 {
            Some(Reason::FLOW_CONTROL_ERROR)
        } else {
            None
        }
    }

    /// Takes note that the peer enlarged the window of the connection. An increment that
    /// is no valid one, or leads too far, is refused.
    pub fn connection_window_update(&mut self, increment: u32) -> (accepted: Result<(), Reason>)
        requires
            old(self).wf(),
        ensures
            final(self).wf(),
            match ConnectionView::increment_error(old(self)@.send_window, increment) {
                Some(reason) => accepted == Err::<(), Reason>(reason) && final(self)@ == old(self)@,
                None => accepted is Ok && final(self)@ == old(self)@.connection_window(increment),
            },
    {
        if let Some(reason) = Self::check_increment(self.send_window, increment) {
            return Err(reason);
        }
        proof {
            self@.lemma_connection_window(increment);
        }
        self.send_window = self.send_window + increment as i64;
        proof {
            assert(self@ =~= ConnectionView {
                send_window: old(self)@.send_window + increment,
                ..old(self)@
            });
            assert(self@.open_ids() =~= old(self)@.open_ids());
        }
        self.wake_capacity();
        Ok(())
    }

    /// Takes note that the peer enlarged the window of a stream. It means nothing for a
    /// stream that is over; else an increment that is no valid one, or leads too far, is
    /// refused.
    pub fn stream_window_update(&mut self, id: StreamId, increment: u32) -> (accepted: Result<
        (),
        Reason,
    >)
        requires
            old(self).wf(),
        ensures
            final(self).wf(),
            !old(self)@.stream(id).is_open() ==> accepted is Ok && final(self)@ == old(self)@,
            old(self)@.stream(id).is_open() ==> match ConnectionView::increment_error(
                old(self)@.stream(id).send_window as int,
                increment,
            ) {
                Some(reason) => accepted == Err::<(), Reason>(reason) && final(self)@ == old(self)@,
                None => accepted is Ok && final(self)@ == old(self)@.stream_window(id, increment),
            },
    {
        let mut st = self.lookup(id);
        if !st.has_open_half() {
            return Ok(());
        }
        proof {
            self@.lemma_known(id);
        }
        if let Some(reason) = Self::check_increment(st.send_window, increment) {
            return Err(reason);
        }
        proof {
            self@.lemma_stream_window(id, increment);
        }
        st.send_window = st.send_window + increment as i64;
        self.put(st);
        self.wake_capacity();
        Ok(())
    }

    /// Takes note of the peer's settings: how many streams may be open, the window that a
    /// stream starts with, and the most that one frame may carry. Values out of range, and
    /// a window that would carry an open stream too far, are refused.
    pub fn apply_settings(
        &mut self,
        max_streams: Option<u32>,
        initial_window: Option<u32>,
        max_frame_size: Option<u32>,
    ) -> (accepted: Result<(), Reason>)
        requires
            old(self).wf(),
        ensures
            final(self).wf(),
            match old(self)@.settings_error(initial_window, max_frame_size) {
                Some(reason) => accepted == Err::<(), Reason>(reason) && final(self)@ == old(self)@,
                None => accepted is Ok && final(self)@ == old(self)@.settings(
                    max_streams,
                    initial_window,
                    max_frame_size,
                ),
            },
    {
        if let Some(size) = max_frame_size {
            if size < MIN_FRAME_SIZE || size > MAX_FRAME_SIZE {
                return Err(Reason::PROTOCOL_ERROR);
            }
        }
        let window: i64 = match initial_window {
            Some(window) => {
                if window > MAX_31_BITS {
                    return Err(Reason::FLOW_CONTROL_ERROR);
                }
                window as i64
            },
            None => self.initial_window,
        };
        let delta: i64 = window - self.initial_window;
        proof {
            assert forall|id: int| #[trigger] self.streams@.dom().contains(id) implies i64::MIN
                <= self.streams@[id].send_window + delta <= i64::MAX by {
                assert(self@.streams.dom().contains(id));
            }
        }
        if !self.streams.shift_fits(delta, MAX_31_BITS as i64) {
            proof {
                let id = choose|id: int| #[trigger]
                    self.streams@.dom().contains(id) && self.streams@[id].is_open()
                        && self.streams@[id].send_window + delta > MAX_31_BITS;
                assert(self@.streams.dom().contains(id));
                assert(initial_window is Some);
            }
            return Err(Reason::FLOW_CONTROL_ERROR);
        }
        proof {
            assert(self@.streams == self.streams@);
            self@.lemma_settings(max_streams, initial_window, max_frame_size);
        }
        self.streams.shift(delta);
        self.initial_window = window;
        if max_streams.is_some() {
            self.max_streams = max_streams;
        }
        if let Some(size) = max_frame_size {
            self.max_frame_size = size;
        }
        assert(self@.open_ids() =~= old(self)@.open_ids());
        self.wake_capacity();
        self.wake_waiting();
        assert(self@ =~= old(self)@.settings(max_streams, initial_window, max_frame_size));
        Ok(())
    }

    /// Sends as much of a payload as the windows let through, and returns what is left of
    /// it, if the payload is not all out. Once it is, `eof` ends the sending half. A closed
    /// sending half takes nothing.
    pub(crate) fn send_payload(&mut self, id: StreamId, data: Bytes, eof: bool) -> (rest: Result<
        Option<Bytes>,
        OperationError,
    >)
        requires
            old(self).wf(),
        ensures
            final(self).wf(),
            match old(self)@.stream(id).send {
                HalfState::Closed(reason) => {
                    &&& rest == Err::<Option<Bytes>, OperationError>(OperationError::Closed(reason))
                    &&& final(self)@ == old(self)@
                },
                HalfState::Open => {
                    let all = crate::foreign::bytes_contents(data);
                    &&& final(self)@ == old(self)@.payload(id, all, eof)
                    &&& rest is Ok
                    &&& rest->Ok_0 is None <==> old(self)@.sends_all(id, all, eof)
                    &&& rest->Ok_0 matches Some(left) ==> crate::foreign::bytes_contents(left)
                        == all.skip(old(self)@.sendable(id, all))
                },
            },
    {
        let mut st = self.lookup(id);
        if let HalfState::Closed(reason) = st.send {
            return Err(OperationError::Closed(reason));
        }
        let ghost all = crate::foreign::bytes_contents(data);
        let ghost sent = self@.sendable(id, all);
        let len = bytes_len(&data);
        let window: usize = self.available_send_capacity(id) as usize;
        let complete = if len == 0 && eof {
            true
        } else {
            window > 0 && len <= window
        };
        if !complete && window == 0 {
            assert(all.skip(0) =~= all);
            return Ok(Some(data));
        }
        let total: usize = if len <= window {
            len
        } else {
            window
        };
        proof {
            self@.lemma_known(id);
            self@.lemma_payload(id, all, eof);
        }
        let mut rest = data;
        self.send_frames(id, &mut rest, total, eof && complete);
        self.send_window = self.send_window - total as i64;
        st.send_window = st.send_window - total as i64;
        let ghost moved = ConnectionView {
            output: old(self)@.output + crate::frame::data_frames(
                id,
                all.take(sent),
                old(self)@.max_frame_size as nat,
                eof && complete,
            ),
            send_window: old(self)@.send_window - sent,
            ..old(self)@
        };
        proof {
            assert(self@ =~= moved);
            assert(self@.open_ids() =~= old(self)@.open_ids());
            assert(moved.consistent());
            moved.lemma_put_consistent(st);
        }
        self.put(st);
        if eof && complete {
            self.finish_sending(id);
        }
        if complete {
            Ok(None)
        } else {
            Ok(Some(rest))
        }
    }

    /// Has the first `total` bytes of a payload written, in frames of at most the size that
    /// the peer accepts.
    fn send_frames(&mut self, id: StreamId, data: &mut Bytes, total: usize, eof: bool)
        requires
            old(self).counted(),
            0 < old(self)@.max_frame_size,
            total <= crate::foreign::bytes_contents(*old(data)).len(),
        ensures
            final(self).counted(),
            final(self)@ == (ConnectionView {
                output: old(self)@.output + crate::frame::data_frames(
                    id,
                    crate::foreign::bytes_contents(*old(data)).take(total as int),
                    old(self)@.max_frame_size as nat,
                    eof,
                ),
                ..old(self)@
            }),
            crate::foreign::bytes_contents(*final(data)) == crate::foreign::bytes_contents(
                *old(data),
            ).skip(total as int),
    {
        let ghost all = crate::foreign::bytes_contents(*data);
        let ghost before = self@;
        let ghost size = before.max_frame_size as nat;
        let ghost expected = before.output + crate::frame::data_frames(
            id,
            all.take(total as int),
            size,
            eof,
        );
        let limit: usize = self.max_frame_size as usize;
        let mut left: usize = total;
        assert(all.skip(0) =~= all);
        while left > limit
            invariant
                self.counted(),
                left <= total <= all.len(),
                limit == size,
                size > 0,
                crate::foreign::bytes_contents(*data) == all.skip(total - left),
                self@ == (ConnectionView { output: self@.output, ..before }),
                self@.output + crate::frame::data_frames(
                    id,
                    all.skip(total - left).take(left as int),
                    size,
                    eof,
                ) == expected,
            decreases left,
        {
            let ghost rest = all.skip(total - left).take(left as int);
            let ghost output = self@.output;
            let payload = bytes_split_to(data, limit);
            let frame = Frame::Data { id, payload, eof: false };
            self.emit(frame);
            proof {
                assert(rest.take(size as int) =~= all.skip(total - left).take(size as int));
                assert(rest.skip(size as int) =~= all.skip(total - (left - limit)).take(
                    left - limit,
                ));
                assert(all.skip(total - left).skip(size as int) =~= all.skip(
                    total - (left - limit),
                ));
                let head = seq![frame@];
                let tail = crate::frame::data_frames(id, rest.skip(size as int), size, eof);
                assert(crate::frame::data_frames(id, rest, size, eof) == head + tail);
                assert(output.push(frame@) + tail =~= output + (head + tail));
            }
            left = left - limit;
        }
        let ghost rest = all.skip(total - left).take(left as int);
        let ghost output = self@.output;
        let payload = bytes_split_to(data, left);
        let frame = Frame::Data { id, payload, eof };
        self.emit(frame);
        proof {
            assert(crate::frame::data_frames(id, rest, size, eof) == seq![frame@]);
            assert(output.push(frame@) =~= output + seq![frame@]);
            assert(all.skip(total - left).skip(left as int) =~= all.skip(total as int));
        }
    }

    /// Hands over the frames to write, the oldest first.
    pub fn take_output(&mut self) -> (frames: Vec<Frame>)
        requires
            old(self).wf(),
        ensures
            final(self).wf(),
            frames@.map_values(|frame: Frame| frame@) == old(self)@.output,
            final(self)@ == (ConnectionView { output: Seq::empty(), ..old(self)@ }),
    {
        let mut frames: Vec<Frame> = Vec::new();
        frames.append(&mut self.output);
        proof {
            assert(self@ =~= ConnectionView { output: Seq::empty(), ..old(self)@ });
            assert(self@.open_ids() =~= old(self)@.open_ids());
            assert(frames@ =~= old(self).output@);
        }
        frames
    }

    /// Hands over the tasks to wake.
    pub fn take_woken(&mut self) -> (tasks: Vec<WakerId>)
        requires
            old(self).wf(),
        ensures
            final(self).wf(),
            tasks@.to_set() == old(self)@.woken,
            final(self)@ == (ConnectionView { woken: Set::empty(), ..old(self)@ }),
    {
        let mut tasks: Vec<WakerId> = Vec::new();
        tasks.append(&mut self.woken);
        proof {
            assert(self.woken@.to_set() =~= Set::<WakerId>::empty());
            assert(self@ =~= ConnectionView { woken: Set::empty(), ..old(self)@ });
            assert(self@.open_ids() =~= old(self)@.open_ids());
            assert(tasks@ =~= old(self).woken@);
        }
        tasks
    }
}

} // verus!
