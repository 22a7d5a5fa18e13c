//! A client of one connection that hands what the peer says to its user as messages.

use ntex_bytes::Bytes;
use ntex_http::uri::Scheme;
use ntex_http::{HeaderMap, Method};
use ntex_util::channel::mpsc::Sender;
use vstd::prelude::*;

use crate::connection::{Connection, Request, RequestOutcome};
use crate::error::OperationError;
use crate::foreign::{clone_sender, scheme_is_https, send_message};
use crate::frame::{Reason, StreamId, WindowSize, DEFAULT_WINDOW_SIZE, MAX_31_BITS, MIN_FRAME_SIZE};
use crate::message::Message;
use crate::model::{ConnectionView, RequestView};
use crate::stream::{HalfState, StreamRef};
use crate::task::{Poll, WakerId};

verus! {

/// Http2 client
pub struct SimpleClient(ClientRef);

/// What the handles of a client share.
struct ClientRef {
    con: Connection,
    authority: String,
    message_tx: Sender<Message>,
}

/// A client as a mathematical value.
#[verifier::ext_equal]
pub struct ClientView {
    /// Its connection.
    pub con: ConnectionView,
    /// The authority that its requests name.
    pub authority: Seq<char>,
    /// The queue that its messages go to. The client holds a sending end of it, so that the
    /// queue does not end before the client does.
    pub queue: int,
    /// What was sent to the queue through the client's own end, each message with whether the
    /// queue took it.
    pub offered: Seq<(Message, bool)>,
}

impl ClientView {
    /// The client with its connection in another state.
    pub open spec fn with_connection(self, con: ConnectionView) -> ClientView {
        ClientView { con, ..self }
    }
}

/// What became of a request.
#[derive(Debug)]
pub enum SendOutcome {
    /// It went out on this stream.
    Opened(SendStream),
    /// No stream is free. The task that asked is woken when one may be.
    Waiting(Request),
    /// It cannot go out on this connection.
    Failed(OperationError),
}

impl View for SimpleClient {
    type V = ClientView;

    closed spec fn view(&self) -> ClientView {
        ClientView {
            con: self.0.con@,
            authority: self.0.authority@,
            queue: crate::foreign::queue_of(self.0.message_tx),
            offered: crate::foreign::offered(self.0.message_tx),
        }
    }
}

impl SimpleClient {
    /// The client is in a state that its own operations lead to.
    pub closed spec fn wf(self) -> bool {
        self.0.con.wf()
    }

    /// The client's connection.
    pub closed spec fn spec_connection(self) -> Connection {
        self.0.con
    }

    /// What the connection of a client says of the client.
    pub proof fn lemma_connection(self)
        ensures
            self.wf() == self.spec_connection().wf(),
            self@.con == self.spec_connection()@,
    {
    }

    /// Construct new `Client` instance, together with the service that is to pass the
    /// connection's messages on to `message_tx`.
    pub fn new(scheme: Scheme, authority: String, message_tx: Sender<Message>) -> (made: (
        SimpleClient,
        HandleService,
    ))
        ensures
            made.0.wf(),
            made.0@.con == ConnectionView::initial(
                crate::foreign::scheme_text(scheme) == "https"@,
                DEFAULT_WINDOW_SIZE as int,
                MIN_FRAME_SIZE as int,
            ),
            made.0@.authority == authority@,
            made.0@.queue == crate::foreign::queue_of(message_tx),
            made.0@.offered == crate::foreign::offered(message_tx),
            made.1@.queue == crate::foreign::queue_of(message_tx),
            made.1@.offered == Seq::<(Message, bool)>::empty(),
    {
        SimpleClient::with_params(scheme, authority, message_tx)
    }

    /// A client whose requests go out under `scheme`, and the service for its messages.
    pub(crate) fn with_params(
        scheme: Scheme,
        authority: String,
        message_tx: Sender<Message>,
    ) -> (made: (SimpleClient, HandleService))
        ensures
            made.0.wf(),
            made.0@.con == ConnectionView::initial(
                crate::foreign::scheme_text(scheme) == "https"@,
                DEFAULT_WINDOW_SIZE as int,
                MIN_FRAME_SIZE as int,
            ),
            made.0@.authority == authority@,
            made.0@.queue == crate::foreign::queue_of(message_tx),
            made.0@.offered == crate::foreign::offered(message_tx),
            made.1@.queue == crate::foreign::queue_of(message_tx),
            made.1@.offered == Seq::<(Message, bool)>::empty(),
    {
        let mut con = Connection::new();
        con.set_secure(scheme_is_https(&scheme));
        let service = HandleService::new(clone_sender(&message_tx));
        (SimpleClient(ClientRef { con, authority, message_tx }), service)
    }

    /// Send request to the peer
    pub fn send(
        &mut self,
        method: Method,
        path: String,
        headers: HeaderMap,
        eof: bool,
        waker: WakerId,
    ) -> (outcome: SendOutcome)
        requires
            old(self).wf(),
        ensures
            final(self).wf(),
            final(self)@ == old(self)@.with_connection(
                old(self)@.con.request_sent(
                    old(self)@.authority,
                    RequestView { method, path: path@, headers, eof },
                    waker,
                ),
            ),
            ({
                let before = old(self)@.con;
                let request = RequestView { method, path: path@, headers, eof };
                match outcome {
                    SendOutcome::Opened(stream) => {
                        &&& before.error is None
                        &&& before.can_create_new_stream()
                        &&& before.next_id <= MAX_31_BITS
                        &&& stream.spec_id().0 == before.next_id
                    },
                    SendOutcome::Waiting(back) => {
                        &&& before.error is None
                        &&& !before.can_create_new_stream()
                        &&& back@ == request
                    },
                    SendOutcome::Failed(error) => match before.error {
                        Some(cause) => error == cause,
                        None => before.can_create_new_stream() && before.next_id > MAX_31_BITS
                            && error == OperationError::OverflowedStreamId,
                    },
                }
            }),
    {
        let request = Request { method, path, headers, eof };
        match self.0.con.send_request(self.0.authority.clone(), request, waker) {
            RequestOutcome::Opened(stream) => SendOutcome::Opened(SendStream(stream)),
            RequestOutcome::Waiting(back) => SendOutcome::Waiting(back),
            RequestOutcome::Failed(error) => SendOutcome::Failed(error),
        }
    }

    /// Check if client is allowed to send new request
    ///
    /// Readiness depends on number of opened streams and max concurrency setting
    pub fn is_ready(&self) -> (ready: bool)
        requires
            self.wf(),
        ensures
            ready == self@.con.can_create_new_stream(),
    {
        self.0.con.can_create_new_stream()
    }

    /// Check client readiness
    ///
    /// Client is ready when it is possible to start new stream. Where it is not, the task is
    /// woken when it should ask again.
    pub fn ready(&mut self, waker: WakerId) -> (ready: Poll<Result<(), OperationError>>)
        requires
            old(self).wf(),
        ensures
            final(self).wf(),
            ready == old(self)@.con.ready(),
            final(self)@ == old(self)@.with_connection(old(self)@.con.asked_ready(waker)),
    {
        self.0.con.ready(waker)
    }

    /// Gracefully close connection
    pub fn close(&mut self)
        requires
            old(self).wf(),
        ensures
            final(self).wf(),
            final(self)@ == old(self)@.with_connection(old(self)@.con.closing_when_ready()),
    {
        self.0.con.disconnect_when_ready()
    }

    /// Close connection
    pub fn force_close(&mut self)
        requires
            old(self).wf(),
        ensures
            final(self).wf(),
            final(self)@ == old(self)@.with_connection(old(self)@.con.closed_now()),
    {
        self.0.con.close()
    }

    /// Check if connection is closed
    pub fn is_closed(&self) -> (closed: bool)
        ensures
            closed == self@.con.closed,
    {
        self.0.con.is_closed()
    }

    /// Client's authority
    pub fn authority(&self) -> (authority: &String)
        ensures
            authority@ == self@.authority,
    {
        &self.0.authority
    }

    /// Get max number of active streams
    pub fn max_streams(&self) -> (max: Option<u32>)
        ensures
            max == self@.con.max_streams,
    {
        self.0.con.max_streams()
    }

    /// Get number of active streams
    pub fn active_streams(&self) -> (active: u32)
        requires
            self.wf(),
        ensures
            active == self@.con.active(),
    {
        self.0.con.active_streams()
    }

    /// Takes note that one of `handles` handles of the client is dropped. With the last
    /// one the connection is closed gracefully.
    pub fn drop_handle(&mut self, handles: usize)
        requires
            old(self).wf(),
        ensures
            final(self).wf(),
            final(self)@ == if handles == 1 {
                old(self)@.with_connection(old(self)@.con.closing_when_ready())
            } else {
                old(self)@
            },
    {
        if handles == 1 {
            self.0.con.disconnect_when_ready()
        }
    }

    /// The client's connection, to ask about it.
    pub fn connection(&self) -> (con: &Connection)
        ensures
            *con == self.spec_connection(),
    {
        &self.0.con
    }

    /// The client's connection, for its streams and for what the peer sends.
    pub fn connection_mut(&mut self) -> (con: &mut Connection)
        ensures
            *con == old(self).spec_connection(),
            final(self).spec_connection() == *final(con),
            final(self)@ == old(self)@.with_connection(final(con)@),
    {
        &mut self.0.con
    }

    /// What is left of a client without handles: the connection, for the streams that are
    /// still open. The authority and the sending end of the queue are given up.
    pub fn into_connection(self) -> (con: Connection)
        ensures
            con == self.spec_connection(),
    {
        self.0.con
    }
}

/// Send part of the client stream
#[derive(Debug)]
pub struct SendStream(StreamRef);

impl SendStream {
    /// The identifier of the stream.
    pub closed spec fn spec_id(self) -> StreamId {
        self.0.spec_id()
    }

    /// The identifier of the stream.
    pub fn id(&self) -> (id: StreamId)
        ensures
            id == self.spec_id(),
    {
        self.0.id()
    }

    /// The stream itself.
    pub fn stream(&self) -> (stream: &StreamRef)
        ensures
            stream.spec_id() == self.spec_id(),
    {
        &self.0
    }

    /// Bytes of payload that may be sent now.
    pub fn available_send_capacity(&self, con: &Connection) -> (bytes: WindowSize)
        requires
            con.wf(),
        ensures
            bytes == con@.capacity(self.spec_id()),
    {
        con.available_send_capacity(self.0.id())
    }

    /// Waits for send capacity: tells how much there is, or has the task woken when it
    /// should ask again.
    pub fn send_capacity(&self, con: &mut Connection, waker: WakerId) -> (capacity: Poll<
        Result<WindowSize, OperationError>,
    >)
        requires
            old(con).wf(),
        ensures
            final(con).wf(),
            capacity == old(con)@.send_capacity(self.spec_id()),
            final(con)@ == if capacity is Pending {
                old(con)@.wait_for_capacity(self.spec_id(), waker)
            } else {
                old(con)@
            },
    {
        self.poll_send_capacity(con, waker)
    }

    /// Send payload
    ///
    /// As much goes out as the windows let through; what is left is returned, to be sent
    /// when there is capacity again.
    pub fn send_payload(&self, con: &mut Connection, res: Bytes, eof: bool) -> (rest: Result<
        Option<Bytes>,
        OperationError,
    >)
        requires
            old(con).wf(),
        ensures
            final(con).wf(),
            ({
                let id = self.spec_id();
                let data = crate::foreign::bytes_contents(res);
                match old(con)@.stream(id).send {
                    HalfState::Closed(reason) => {
                        &&& rest == Err::<Option<Bytes>, OperationError>(
                            OperationError::Closed(reason),
                        )
                        &&& final(con)@ == old(con)@
                    },
                    HalfState::Open => {
                        &&& final(con)@ == old(con)@.payload(id, data, eof)
                        &&& rest is Ok
                        &&& rest->Ok_0 is None <==> old(con)@.sends_all(id, data, eof)
                        &&& rest->Ok_0 matches Some(left) ==> crate::foreign::bytes_contents(left)
                            == data.skip(old(con)@.sendable(id, data))
                    },
                }
            }),
    {
        con.send_payload(self.0.id(), res, eof)
    }

    /// Sends trailers, which end the stream's sending half.
    pub fn send_trailers(&self, con: &mut Connection, map: HeaderMap)
        requires
            old(con).wf(),
        ensures
            final(con).wf(),
            final(con)@ == old(con)@.trailers(self.spec_id(), map),
    {
        con.send_trailers(self.0.id(), map)
    }

    /// Reset stream
    pub fn reset(&self, con: &mut Connection, reason: Reason)
        requires
            old(con).wf(),
        ensures
            final(con).wf(),
            final(con)@ == old(con)@.reset(self.spec_id(), reason),
    {
        con.reset_stream(self.0.id(), reason)
    }

    /// Check for available send capacity
    pub fn poll_send_capacity(&self, con: &mut Connection, waker: WakerId) -> (capacity: Poll<
        Result<WindowSize, OperationError>,
    >)
        requires
            old(con).wf(),
        ensures
            final(con).wf(),
            capacity == old(con)@.send_capacity(self.spec_id()),
            final(con)@ == if capacity is Pending {
                old(con)@.wait_for_capacity(self.spec_id(), waker)
            } else {
                old(con)@
            },
    {
        con.poll_send_capacity(self.0.id(), waker)
    }

    /// Check if send part of stream get reset
    pub fn poll_send_reset(&self, con: &mut Connection, waker: WakerId) -> (over: Poll<
        Result<(), OperationError>,
    >)
        requires
            old(con).wf(),
        ensures
            final(con).wf(),
            over == old(con)@.send_reset(self.spec_id()),
            final(con)@ == if over is Pending {
                old(con)@.wait_for_reset(self.spec_id(), waker)
            } else {
                old(con)@
            },
    {
        con.poll_send_reset(self.0.id(), waker)
    }

    /// Lets go of the stream. Where not everything has been sent, the stream is cancelled and
    /// makes room for another; else the peer may go on to answer.
    pub fn release(self, con: &mut Connection)
        requires
            old(con).wf(),
        ensures
            final(con).wf(),
            final(con)@ == old(con)@.released(self.spec_id()),
    {
        con.release(self.0.id())
    }
}

/// Passes the messages of a connection on to the user of the client.
pub struct HandleService(Sender<Message>);

/// A message service as a mathematical value.
#[verifier::ext_equal]
pub struct ServiceView {
    /// The queue that messages are passed on to.
    pub queue: int,
    /// The messages that were sent to it, the oldest first, each with whether it took them.
    pub offered: Seq<(Message, bool)>,
}

impl ServiceView {
    /// The messages that have been passed on, the oldest first.
    pub open spec fn handed(self) -> Seq<Message> {
        crate::message::taken(self.offered)
    }

    /// The service after it sent a message that the queue took or did not take.
    pub open spec fn called(self, msg: Message, took: bool) -> ServiceView {
        ServiceView { offered: self.offered.push((msg, took)), ..self }
    }
}

impl View for HandleService {
    type V = ServiceView;

    closed spec fn view(&self) -> ServiceView {
        ServiceView {
            queue: crate::foreign::queue_of(self.0),
            offered: crate::foreign::offered(self.0),
        }
    }
}

impl HandleService {
    /// A service that passes messages on to the queue of `message_tx`.
    pub(crate) fn new(message_tx: Sender<Message>) -> (service: HandleService)
        ensures
            service@.queue == crate::foreign::queue_of(message_tx),
            service@.offered == crate::foreign::offered(message_tx),
    {
        HandleService(message_tx)
    }

    /// Sends a message to the queue. It comes back where the user takes no more, which is for
    /// the receiving end of the queue to say.
    pub fn call(&mut self, msg: Message) -> (passed: Result<(), Message>)
        ensures
            final(self)@ == old(self)@.called(msg, passed is Ok),
            passed matches Err(back) ==> back == msg,
    {
        send_message(&mut self.0, msg)
    }
}

} // verus!
