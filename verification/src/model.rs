//! A connection as a mathematical value, and what each event makes of it.

use ntex_http::{HeaderMap, Method};
use vstd::prelude::*;

use crate::error::OperationError;
use crate::frame::{FrameView, Reason, StreamId, MAX_31_BITS, MAX_FRAME_SIZE, MIN_FRAME_SIZE};
use crate::stream::{HalfState, StreamState};
use crate::task::{Poll, WakerId};

verus! {

/// Everything that the answers of a connection depend on.
#[verifier::ext_equal]
pub struct ConnectionView {
    /// Whether requests go out under the `https` scheme.
    pub secure: bool,
    /// Whether the connection is closed.
    pub closed: bool,
    /// Whether the connection closes as soon as no stream is open.
    pub closing: bool,
    /// Why the connection failed, if it did.
    pub error: Option<OperationError>,
    /// How many streams the peer lets be open at once.
    pub max_streams: Option<u32>,
    /// The identifier that the next request takes.
    pub next_id: int,
    /// Bytes of payload that the peer is still willing to take on the connection.
    pub send_window: int,
    /// The window that a new stream starts with.
    pub initial_window: int,
    /// The most bytes of payload that one frame may carry.
    pub max_frame_size: int,
    /// The streams by identifier: those that are open, and those whose end may still be
    /// asked about.
    pub streams: Map<int, StreamState>,
    /// The tasks that wait until a request can be opened.
    pub waiting: Set<WakerId>,
    /// The tasks to wake.
    pub woken: Set<WakerId>,
    /// The frames to write, the oldest first.
    pub output: Seq<FrameView>,
}

/// A request as its sender states it.
#[verifier::ext_equal]
pub struct RequestView {
    pub method: Method,
    pub path: Seq<char>,
    pub headers: HeaderMap,
    pub eof: bool,
}

/// The tasks that wait for capacity on a stream that has some.
pub open spec fn tasks_with_capacity(streams: Map<int, StreamState>, window: int) -> Set<WakerId> {
    Set::new(
        |waker: WakerId|
            exists|id: int| #[trigger]
                streams.dom().contains(id) && streams[id].send_cap == Some(waker)
                    && streams[id].capacity(window) > 0,
    )
}

/// The tasks that wait for anything on any stream.
pub open spec fn all_tasks(streams: Map<int, StreamState>) -> Set<WakerId> {
    Set::new(
        |waker: WakerId|
            exists|id: int| #[trigger]
                streams.dom().contains(id) && (streams[id].send_cap == Some(waker)
                    || streams[id].send_reset == Some(waker)),
    )
}

impl ConnectionView {
    /// The identifiers of the streams that are open in at least one direction.
    pub open spec fn open_ids(self) -> Set<int> {
        self.streams.dom().filter(|id: int| self.streams[id].is_open())
    }

    /// How many streams are open.
    pub open spec fn active(self) -> nat {
        self.open_ids().len()
    }

    /// Whether a request can be opened now: fewer streams are open than the peer allows.
    pub open spec fn can_create_new_stream(self) -> bool {
        match self.max_streams {
            Some(max) => self.active() < max,
            None => true,
        }
    }

    /// What is known of a stream.
    pub open spec fn stream(self, id: StreamId) -> StreamState {
        if self.streams.dom().contains(id.0 as int) {
            self.streams[id.0 as int]
        } else {
            StreamState::unknown(id)
        }
    }

    /// Bytes of payload that may be sent on a stream now.
    pub open spec fn capacity(self, id: StreamId) -> int {
        self.stream(id).capacity(self.send_window)
    }

    /// The streams are counted under their own, odd identifiers, all given out before.
    pub open spec fn ids_valid(self) -> bool {
        &&& 1 <= self.next_id <= MAX_31_BITS + 2
        &&& self.next_id % 2 == 1
        &&& forall|id: int| #[trigger]
            self.streams.dom().contains(id) ==> 1 <= id < self.next_id && id % 2 == 1
                && self.streams[id].id.0 == id
    }

    /// What holds of each stream.
    pub open spec fn stream_valid(self, st: StreamState) -> bool {
        &&& -MAX_31_BITS <= st.send_window <= MAX_31_BITS
        &&& st.is_open() ==> self.initial_window - MAX_31_BITS <= st.send_window
        &&& st.is_open() ==> st.error is None && self.error is None
        &&& st.send_cap is Some ==> st.capacity(self.send_window) == 0 && st.error is None
            && self.error is None
        &&& st.send_reset is Some ==> st.send is Open
    }

    /// What holds of a connection at any moment.
    pub open spec fn consistent(self) -> bool {
        &&& self.ids_valid()
        &&& 0 <= self.send_window <= MAX_31_BITS
        &&& 0 <= self.initial_window <= MAX_31_BITS
        &&& MIN_FRAME_SIZE <= self.max_frame_size <= MAX_FRAME_SIZE
        &&& forall|id: int| #[trigger]
            self.streams.dom().contains(id) ==> self.stream_valid(self.streams[id]) && (
            self.streams[id].released ==> self.streams[id].is_open())
        &&& self.error is Some ==> self.waiting == Set::<WakerId>::empty()
    }

    /// What holds of a connection between any two events. No task waits for what it
    /// could already have: a request that can be opened, capacity that is there, or the
    /// end of a sending half that is over. And a connection that is to close once no
    /// stream is open has closed if none is.
    pub open spec fn valid(self) -> bool {
        &&& self.consistent()
        &&& self.can_create_new_stream() ==> self.waiting == Set::<WakerId>::empty()
        &&& self.closing && self.active() == 0 ==> self.closed
    }

    /// A connection to a peer that has sent nothing yet.
    pub open spec fn initial(secure: bool, window: int, frame_size: int) -> ConnectionView {
        ConnectionView {
            secure,
            closed: false,
            closing: false,
            error: None,
            max_streams: None,
            next_id: 1,
            send_window: window,
            initial_window: window,
            max_frame_size: frame_size,
            streams: Map::empty(),
            waiting: Set::empty(),
            woken: Set::empty(),
            output: Seq::empty(),
        }
    }

    /// With one more frame to write.
    pub open spec fn emit(self, frame: FrameView) -> ConnectionView {
        ConnectionView { output: self.output.push(frame), ..self }
    }

    /// With one more task to wake, if there is one.
    pub open spec fn wake(self, task: Option<WakerId>) -> ConnectionView {
        match task {
            Some(waker) => ConnectionView { woken: self.woken.insert(waker), ..self },
            None => self,
        }
    }

    /// With the stream as it is given, kept while it is open or its end may be asked about.
    pub open spec fn put(self, st: StreamState) -> ConnectionView {
        ConnectionView {
            streams: if st.is_open() || !st.released {
                self.streams.insert(st.id.0 as int, st)
            } else {
                self.streams.remove(st.id.0 as int)
            },
            ..self
        }
    }

    /// With the tasks to wake that wait for a request to be possible, if one is.
    pub open spec fn wake_waiting(self) -> ConnectionView {
        if self.can_create_new_stream() {
            ConnectionView {
                woken: self.woken.union(self.waiting),
                waiting: Set::empty(),
                ..self
            }
        } else {
            self
        }
    }

    /// What follows when a stream may have closed: a request may have become possible, and
    /// a connection that only waited for its last stream closes.
    pub open spec fn settle(self) -> ConnectionView {
        let next = self.wake_waiting();
        ConnectionView { closed: next.closed || (next.closing && next.active() == 0), ..next }
    }

    /// With the tasks to wake that wait for capacity on a stream that has some.
    pub open spec fn wake_capacity(self) -> ConnectionView {
        ConnectionView {
            streams: self.streams.map_values(
                |st: StreamState| st.told_of_capacity(self.send_window),
            ),
            woken: self.woken.union(
                tasks_with_capacity(self.streams, self.send_window),
            ),
            ..self
        }
    }

    /// After a request was opened.
    pub open spec fn request_opened(
        self,
        authority: Seq<char>,
        request: RequestView,
    ) -> ConnectionView {
        let id = StreamId(self.next_id as u32);
        let next = self.emit(
            FrameView::Headers {
                id,
                secure: self.secure,
                authority,
                method: request.method,
                path: request.path,
                headers: request.headers,
                eof: request.eof,
            },
        ).put(StreamState::opened(id, request.eof, self.initial_window));
        ConnectionView { next_id: self.next_id + 2, ..next }
    }

    /// After a task began to wait until a request can be opened.
    pub open spec fn wait_for_slot(self, waker: WakerId) -> ConnectionView {
        ConnectionView { waiting: self.waiting.insert(waker), ..self }
    }

    /// After a task asked whether a request can be opened.
    pub open spec fn asked_ready(self, waker: WakerId) -> ConnectionView {
        if self.ready() is Pending {
            self.wait_for_slot(waker)
        } else {
            self
        }
    }

    /// After a request was handed in: opened if that is possible, or left to wait until it is.
    pub open spec fn request_sent(
        self,
        authority: Seq<char>,
        request: RequestView,
        waker: WakerId,
    ) -> ConnectionView {
        if self.error is None && self.can_create_new_stream() && self.next_id <= MAX_31_BITS {
            self.request_opened(authority, request)
        } else {
            self.asked_ready(waker)
        }
    }

    /// What a task is told that asks whether a request can be opened.
    pub open spec fn ready(self) -> Poll<Result<(), OperationError>> {
        match self.error {
            Some(error) => Poll::Ready(Err(error)),
            None => if self.can_create_new_stream() {
                Poll::Ready(Ok(()))
            } else {
                Poll::Pending
            },
        }
    }

    /// After the connection was asked to close when its streams are done.
    pub open spec fn closing_when_ready(self) -> ConnectionView {
        if self.active() == 0 {
            ConnectionView { closed: true, ..self }
        } else {
            ConnectionView { closing: true, ..self }
        }
    }

    /// After the connection was closed without regard to its streams.
    pub open spec fn closed_now(self) -> ConnectionView {
        ConnectionView { closed: true, ..self }
    }

    /// After an open stream was cut off, from either side.
    pub open spec fn stream_cut_off(
        self,
        id: StreamId,
        reason: Reason,
        error: OperationError,
    ) -> ConnectionView {
        let st = self.stream(id);
        self.put(st.cut_off(Some(reason), error)).wake(st.send_cap).wake(st.send_reset).settle()
    }

    /// After the client reset a stream. A stream that is over stays as it is.
    pub open spec fn reset(self, id: StreamId, reason: Reason) -> ConnectionView {
        if self.stream(id).is_open() {
            self.emit(FrameView::Reset { id, reason }).stream_cut_off(
                id,
                reason,
                OperationError::LocalReset(reason),
            )
        } else {
            self
        }
    }

    /// After the peer reset a stream.
    pub open spec fn peer_reset(self, id: StreamId, reason: Reason) -> ConnectionView {
        if self.stream(id).is_open() {
            self.stream_cut_off(id, reason, OperationError::RemoteReset(reason))
        } else {
            self
        }
    }

    /// After the peer sent the last it has to say on a stream.
    pub open spec fn peer_finished(self, id: StreamId) -> ConnectionView {
        let st = self.stream(id);
        if st.recv is Open {
            self.put(st.finished_receiving()).settle()
        } else {
            self
        }
    }

    /// After the client sent the last it has to say on a stream.
    pub open spec fn finished_sending(self, id: StreamId) -> ConnectionView {
        let st = self.stream(id);
        self.put(st.finished_sending()).wake(st.send_reset).settle()
    }

    /// After the client sent trailers. They go nowhere once the sending half is closed.
    pub open spec fn trailers(self, id: StreamId, headers: HeaderMap) -> ConnectionView {
        if self.stream(id).send is Open {
            self.emit(FrameView::Trailers { id, headers }).finished_sending(id)
        } else {
            self
        }
    }

    /// How many bytes of a payload can go out at once on a stream.
    pub open spec fn sendable(self, id: StreamId, data: Seq<u8>) -> int {
        if data.len() <= self.capacity(id) {
            data.len() as int
        } else {
            self.capacity(id)
        }
    }

    /// Whether a payload can go out at once to its end. An empty payload that ends the
    /// stream needs no capacity; any other needs some.
    pub open spec fn sends_all(self, id: StreamId, data: Seq<u8>, eof: bool) -> bool {
        (data.len() == 0 && eof) || (self.capacity(id) > 0 && data.len() <= self.capacity(id))
    }

    /// After as much of a payload went out on an open sending half as the windows let
    /// through.
    pub open spec fn payload(self, id: StreamId, data: Seq<u8>, eof: bool) -> ConnectionView {
        let st = self.stream(id);
        let sent = self.sendable(id, data);
        let all = self.sends_all(id, data, eof);
        if !all && sent == 0 {
            self
        } else {
            let next = ConnectionView {
                output: self.output + crate::frame::data_frames(
                    id,
                    data.take(sent),
                    self.max_frame_size as nat,
                    eof && all,
                ),
                send_window: self.send_window - sent,
                ..self
            }.put(StreamState { send_window: (st.send_window - sent) as i64, ..st });
            if eof && all {
                next.finished_sending(id)
            } else {
                next
            }
        }
    }

    /// What a task is told that asks for capacity on a stream.
    pub open spec fn send_capacity(self, id: StreamId) -> Poll<Result<u32, OperationError>> {
        match self.stream(id).error {
            Some(error) => Poll::Ready(Err(error)),
            None => match self.error {
                Some(error) => Poll::Ready(Err(error)),
                None => if self.capacity(id) > 0 {
                    Poll::Ready(Ok(self.capacity(id) as u32))
                } else {
                    Poll::Pending
                },
            },
        }
    }

    /// After a task began to wait for capacity on a stream.
    pub open spec fn wait_for_capacity(self, id: StreamId, waker: WakerId) -> ConnectionView {
        self.put(StreamState { send_cap: Some(waker), ..self.stream(id) })
    }

    /// What a task is told that asks whether the sending half of a stream is over.
    pub open spec fn send_reset(self, id: StreamId) -> Poll<Result<(), OperationError>> {
        match self.stream(id).error {
            Some(error) => Poll::Ready(Err(error)),
            None => match self.error {
                Some(error) => Poll::Ready(Err(error)),
                None => match self.stream(id).send {
                    HalfState::Closed(_) => Poll::Ready(Ok(())),
                    HalfState::Open => Poll::Pending,
                },
            },
        }
    }

    /// After a task began to wait for the end of the sending half of a stream.
    pub open spec fn wait_for_reset(self, id: StreamId, waker: WakerId) -> ConnectionView {
        self.put(StreamState { send_reset: Some(waker), ..self.stream(id) })
    }

    /// After the handle of a stream was dropped. A stream on which the client has not sent
    /// everything is cancelled with it; any other goes on until the peer is done.
    pub open spec fn released(self, id: StreamId) -> ConnectionView {
        if self.streams.dom().contains(id.0 as int) {
            let next = self.put(StreamState { released: true, ..self.stream(id) });
            if self.stream(id).send is Open {
                next.reset(id, Reason::CANCEL)
            } else {
                next
            }
        } else {
            self
        }
    }

    /// After the transport was lost.
    pub open spec fn disconnected(self, error: OperationError) -> ConnectionView {
        ConnectionView {
            closed: true,
            error: if self.error is Some {
                self.error
            } else {
                Some(error)
            },
            streams: Map::new(
                |id: int| self.streams.dom().contains(id) && !self.streams[id].released,
                |id: int| self.streams[id].disconnected(error),
            ),
            waiting: Set::empty(),
            woken: self.woken.union(self.waiting).union(
                all_tasks(self.streams),
            ),
            ..self
        }
    }

    /// Whether a window may grow by an increment.
    pub open spec fn increment_error(window: int, increment: u32) -> Option<Reason> {
        if increment == 0 || increment > MAX_31_BITS {
            Some(Reason::PROTOCOL_ERROR)
        } else if window + increment > MAX_31_BITS {
            Some(Reason::FLOW_CONTROL_ERROR)
        } else {
            None
        }
    }

    /// After the peer enlarged the window of the connection.
    pub open spec fn connection_window(self, increment: u32) -> ConnectionView {
        ConnectionView { send_window: self.send_window + increment, ..self }.wake_capacity()
    }

    /// After the peer enlarged the window of a stream.
    pub open spec fn stream_window(self, id: StreamId, increment: u32) -> ConnectionView {
        let st = self.stream(id);
        self.put(
            StreamState { send_window: (st.send_window + increment) as i64, ..st },
        ).wake_capacity()
    }

    /// Why the peer's settings are refused, if they are.
    pub open spec fn settings_error(
        self,
        initial_window: Option<u32>,
        max_frame_size: Option<u32>,
    ) -> Option<Reason> {
        if max_frame_size matches Some(size) && !(MIN_FRAME_SIZE <= size <= MAX_FRAME_SIZE) {
            Some(Reason::PROTOCOL_ERROR)
        } else if initial_window matches Some(window) && (window > MAX_31_BITS || exists|id: int|
            #[trigger]
            self.streams.dom().contains(id) && self.streams[id].is_open()
                && self.streams[id].send_window + window - self.initial_window > MAX_31_BITS) {
            Some(Reason::FLOW_CONTROL_ERROR)
        } else {
            None
        }
    }

    /// After the peer's settings took effect.
    pub open spec fn settings(
        self,
        max_streams: Option<u32>,
        initial_window: Option<u32>,
        max_frame_size: Option<u32>,
    ) -> ConnectionView {
        let window = match initial_window {
            Some(window) => window as int,
            None => self.initial_window,
        };
        let delta = window - self.initial_window;
        ConnectionView {
            max_streams: if max_streams is Some {
                max_streams
            } else {
                self.max_streams
            },
            initial_window: window,
            max_frame_size: match max_frame_size {
                Some(size) => size as int,
                None => self.max_frame_size,
            },
            streams: self.streams.map_values(|st: StreamState| st.shifted(delta)),
            ..self
        }.wake_capacity().wake_waiting()
    }

    /// There are finitely many streams, fewer than the identifiers given out.
    pub proof fn lemma_finite(self)
        requires
            self.ids_valid(),
        ensures
            self.streams.dom().finite(),
            self.open_ids().finite(),
            self.active() < self.next_id,
    {
        let given_out = vstd::set_lib::set_int_range(1, self.next_id);
        vstd::set_lib::lemma_int_range(1, self.next_id);
        assert(self.streams.dom().subset_of(given_out));
        vstd::set_lib::lemma_set_subset_finite(given_out, self.streams.dom());
        assert(self.open_ids().subset_of(given_out));
        vstd::set_lib::lemma_set_subset_finite(given_out, self.open_ids());
        vstd::set_lib::lemma_len_subset(self.open_ids(), given_out);
    }

    /// Storing a stream moves the number of open streams by that stream alone.
    pub proof fn lemma_put(self, st: StreamState)
        requires
            self.ids_valid(),
            1 <= st.id.0 < self.next_id,
            st.id.0 % 2 == 1,
        ensures
            self.put(st).ids_valid(),
            self.stream(st.id).is_open() ==> self.active() > 0,
            self.active() < self.next_id,
            self.put(st).active() == self.active() + (if st.is_open() {
                1int
            } else {
                0
            }) - (if self.stream(st.id).is_open() {
                1int
            } else {
                0
            }),
    {
        let id = st.id.0 as int;
        self.lemma_finite();
        assert(self.stream(st.id).is_open() <==> self.open_ids().contains(id));
        if st.is_open() {
            assert(self.put(st).open_ids() =~= self.open_ids().insert(id));
        } else {
            assert(self.put(st).open_ids() =~= self.open_ids().remove(id));
        }
    }

    /// A consistent connection stays consistent when a valid stream is stored.
    pub proof fn lemma_put_consistent(self, st: StreamState)
        requires
            self.consistent(),
            self.stream_valid(st),
            1 <= st.id.0 < self.next_id,
            st.id.0 % 2 == 1,
        ensures
            self.put(st).consistent(),
    {
        self.lemma_put(st);
    }

    /// Settling a consistent connection makes it valid.
    pub proof fn lemma_settle_valid(self)
        requires
            self.consistent(),
        ensures
            self.settle().valid(),
            self.settle().active() == self.active(),
    {
        assert(self.settle().open_ids() =~= self.open_ids());
    }

    /// A stream that is open in some direction is one of the connection's own.
    pub proof fn lemma_known(self, id: StreamId)
        requires
            self.consistent(),
            self.stream(id).error is None,
        ensures
            self.streams.dom().contains(id.0 as int),
            self.stream(id) == self.streams[id.0 as int],
            self.stream(id).id == id,
            1 <= id.0 < self.next_id,
            id.0 % 2 == 1,
            self.stream_valid(self.stream(id)),
    {
    }

    /// Opening a request keeps the connection valid.
    pub proof fn lemma_request_opened(self, authority: Seq<char>, request: RequestView)
        requires
            self.valid(),
            self.error is None,
            self.next_id <= MAX_31_BITS,
        ensures
            self.request_opened(authority, request).consistent(),
            self.can_create_new_stream() ==> self.request_opened(authority, request).valid(),
            self.request_opened(authority, request).active() == self.active() + 1,
    {
        let id = StreamId(self.next_id as u32);
        let st = StreamState::opened(id, request.eof, self.initial_window);
        let later = ConnectionView { next_id: self.next_id + 2, ..self };
        assert(later.open_ids() =~= self.open_ids());
        later.lemma_put_consistent(st);
        later.lemma_put(st);
        let next = self.request_opened(authority, request);
        assert(next.open_ids() =~= later.put(st).open_ids());
    }

    /// Cutting an open stream off keeps the connection valid.
    pub proof fn lemma_stream_cut_off(self, id: StreamId, reason: Reason, error: OperationError)
        requires
            self.consistent(),
            self.stream(id).is_open(),
        ensures
            self.stream_cut_off(id, reason, error).valid(),
            self.stream_cut_off(id, reason, error).active() == self.active() - 1,
    {
        self.lemma_known(id);
        let st = self.stream(id);
        self.lemma_put_consistent(st.cut_off(Some(reason), error));
        self.lemma_put(st.cut_off(Some(reason), error));
        let next = self.put(st.cut_off(Some(reason), error)).wake(st.send_cap).wake(st.send_reset);
        assert(next.open_ids() =~= self.put(st.cut_off(Some(reason), error)).open_ids());
        next.lemma_settle_valid();
    }

    /// The end of a sending half keeps the connection valid.
    pub proof fn lemma_finished_sending(self, id: StreamId)
        requires
            self.consistent(),
            self.stream(id).send is Open,
        ensures
            self.finished_sending(id).valid(),
            self.finished_sending(id).active() == self.active() - (if self.stream(id).recv is Open {
                0int
            } else {
                1
            }),
    {
        self.lemma_known(id);
        let st = self.stream(id);
        self.lemma_put_consistent(st.finished_sending());
        self.lemma_put(st.finished_sending());
        let next = self.put(st.finished_sending()).wake(st.send_reset);
        assert(next.open_ids() =~= self.put(st.finished_sending()).open_ids());
        next.lemma_settle_valid();
    }

    /// The end of a receiving half keeps the connection valid.
    pub proof fn lemma_peer_finished(self, id: StreamId)
        requires
            self.valid(),
        ensures
            self.peer_finished(id).valid(),
            self.peer_finished(id).active() == self.active() - (if self.stream(id).recv is Open
                && self.stream(id).send is Closed {
                1int
            } else {
                0
            }),
    {
        let st = self.stream(id);
        if st.recv is Open {
            self.lemma_known(id);
            self.lemma_put_consistent(st.finished_receiving());
            self.lemma_put(st.finished_receiving());
            self.put(st.finished_receiving()).lemma_settle_valid();
        }
    }

    /// A stored stream that is as open as before keeps the connection valid.
    pub proof fn lemma_put_valid(self, st: StreamState)
        requires
            self.valid(),
            self.stream_valid(st),
            1 <= st.id.0 < self.next_id,
            st.id.0 % 2 == 1,
            st.is_open() == self.stream(st.id).is_open(),
        ensures
            self.put(st).valid(),
            self.put(st).active() == self.active(),
    {
        self.lemma_put_consistent(st);
        self.lemma_put(st);
    }

    /// Dropping the handle of a stream keeps the connection valid, and ends the stream only
    /// where its sending half was open.
    pub proof fn lemma_released(self, id: StreamId)
        requires
            self.valid(),
        ensures
            self.released(id).valid(),
            self.released(id).active() == self.active() - (if self.stream(id).send is Open {
                1int
            } else {
                0
            }),
    {
        if self.streams.dom().contains(id.0 as int) {
            let st = StreamState { released: true, ..self.stream(id) };
            self.lemma_put_valid(st);
            if st.send is Open {
                let next = self.put(st).emit(FrameView::Reset { id, reason: Reason::CANCEL });
                assert(next.open_ids() =~= self.put(st).open_ids());
                next.lemma_stream_cut_off(
                    id,
                    Reason::CANCEL,
                    OperationError::LocalReset(Reason::CANCEL),
                );
            }
        }
    }

    /// The loss of the transport leaves no stream open and the connection valid.
    pub proof fn lemma_disconnected(self, error: OperationError)
        requires
            self.valid(),
        ensures
            self.disconnected(error).valid(),
            self.disconnected(error).active() == 0,
    {
        let next = self.disconnected(error);
        assert(next.open_ids() =~= Set::<int>::empty());
    }

    /// A larger window of the connection keeps it valid.
    pub proof fn lemma_connection_window(self, increment: u32)
        requires
            self.valid(),
            Self::increment_error(self.send_window, increment) is None,
        ensures
            self.connection_window(increment).valid(),
            self.connection_window(increment).active() == self.active(),
    {
        assert(self.connection_window(increment).open_ids() =~= self.open_ids());
    }

    /// A larger window of a stream keeps the connection valid.
    pub proof fn lemma_stream_window(self, id: StreamId, increment: u32)
        requires
            self.valid(),
            self.stream(id).is_open(),
            Self::increment_error(self.stream(id).send_window as int, increment) is None,
        ensures
            self.stream_window(id, increment).valid(),
            self.stream_window(id, increment).active() == self.active(),
    {
        self.lemma_known(id);
        assert(self.stream_window(id, increment).open_ids() =~= self.open_ids());
    }

    /// Accepted settings keep the connection valid.
    pub proof fn lemma_settings(
        self,
        max_streams: Option<u32>,
        initial_window: Option<u32>,
        max_frame_size: Option<u32>,
    )
        requires
            self.valid(),
            self.settings_error(initial_window, max_frame_size) is None,
        ensures
            self.settings(max_streams, initial_window, max_frame_size).valid(),
            self.settings(max_streams, initial_window, max_frame_size).active() == self.active(),
    {
        let next = self.settings(max_streams, initial_window, max_frame_size);
        assert(next.open_ids() =~= self.open_ids());
    }

    /// Sending payload keeps the connection valid.
    pub proof fn lemma_payload(self, id: StreamId, data: Seq<u8>, eof: bool)
        requires
            self.valid(),
            self.stream(id).send is Open,
        ensures
            self.payload(id, data, eof).valid(),
            self.payload(id, data, eof).active() == self.active() - (if eof && self.sends_all(
                id,
                data,
                eof,
            ) && self.stream(id).recv is Closed {
                1int
            } else {
                0
            }),
    {
        self.lemma_known(id);
        let st = self.stream(id);
        let sent = self.sendable(id, data);
        let all = self.sends_all(id, data, eof);
        if all || sent != 0 {
            let smaller = StreamState { send_window: (st.send_window - sent) as i64, ..st };
            let moved = ConnectionView {
                output: self.output + crate::frame::data_frames(
                    id,
                    data.take(sent),
                    self.max_frame_size as nat,
                    eof && all,
                ),
                send_window: self.send_window - sent,
                ..self
            };
            assert(moved.open_ids() =~= self.open_ids());
            assert(moved.consistent());
            moved.lemma_put_valid(smaller);
            if eof && all {
                moved.put(smaller).lemma_finished_sending(id);
            }
        }
    }
}

} // verus!
