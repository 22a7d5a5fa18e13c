//! The types and functions of other crates that the library relies on.

use ntex_bytes::Bytes;
use ntex_http::uri::Scheme;
use ntex_http::{HeaderMap, Method};
use ntex_util::channel::mpsc::Sender;
use vstd::prelude::*;

use crate::message::Message;

verus! {

/// `ntex_bytes::Bytes`: an immutable byte buffer.
#[verifier::external_type_specification]
#[verifier::external_body]
pub struct ExBytes(Bytes);

/// `ntex_http::HeaderMap`: the header fields of a message, carried through as they are.
#[verifier::external_type_specification]
#[verifier::external_body]
pub struct ExHeaderMap(HeaderMap);

/// `ntex_http::Method`: a request method, carried through as it is.
#[verifier::external_type_specification]
#[verifier::external_body]
pub struct ExMethod(Method);

/// `ntex_http::uri::Scheme`: a URI scheme.
#[verifier::external_type_specification]
#[verifier::external_body]
pub struct ExScheme(Scheme);

/// `ntex_util::channel::mpsc::Sender`: the sending end of a queue.
#[verifier::external_type_specification]
#[verifier::external_body]
#[verifier::reject_recursive_types(T)]
pub struct ExSender<T>(Sender<T>);

/// The bytes that a buffer holds.
pub uninterp spec fn bytes_contents(data: Bytes) -> Seq<u8>;

/// The characters of a scheme, as `Scheme::as_str` shows them.
pub uninterp spec fn scheme_text(scheme: Scheme) -> Seq<char>;

/// Which queue a sending end belongs to. An end belongs to the same queue all its life.
pub uninterp spec fn queue_of(tx: Sender<Message>) -> int;

/// The messages that were sent through this very end, the oldest first, each with whether the
/// queue took it. What goes through its copies, and what the receiving end takes out, makes no
/// difference to it.
pub uninterp spec fn offered(tx: Sender<Message>) -> Seq<(Message, bool)>;

/// `Bytes::len`: the number of bytes in the buffer.
#[verifier::external_body]
pub(crate) fn bytes_len(data: &Bytes) -> (len: usize)
    ensures
        len == bytes_contents(*data).len(),
{
    data.len()
}

/// `Bytes::split_to`: cuts the first `at` bytes off the buffer and returns them;
/// the buffer keeps the others. It panics where `at` exceeds the length.
#[verifier::external_body]
pub(crate) fn bytes_split_to(data: &mut Bytes, at: usize) -> (head: Bytes)
    requires
        at <= bytes_contents(*old(data)).len(),
    ensures
        bytes_contents(head) == bytes_contents(*old(data)).take(at as int),
        bytes_contents(*final(data)) == bytes_contents(*old(data)).skip(at as int),
{
    data.split_to(at)
}

/// `Scheme::eq`, held against `Scheme::HTTPS`: only the scheme written `https`, in
/// lower case, is equal to it.
#[verifier::external_body]
pub(crate) fn scheme_is_https(scheme: &Scheme) -> (https: bool)
    ensures
        https == (scheme_text(*scheme) == "https"@),
{
    *scheme == Scheme::HTTPS
}

/// `Sender::clone`: another sending end of the same queue, through which nothing was sent yet.
#[verifier::external_body]
pub(crate) fn clone_sender(tx: &Sender<Message>) -> (copy: Sender<Message>)
    ensures
        queue_of(copy) == queue_of(*tx),
        offered(copy) == Seq::<(Message, bool)>::empty(),
{
    tx.clone()
}

/// `Sender::send`: puts the message at the end of the queue, or hands it back where the
/// queue takes no more. Which of the two happens is up to the receiving end at that moment,
/// and is left open.
#[verifier::external_body]
pub(crate) fn send_message(tx: &mut Sender<Message>, msg: Message) -> (sent: Result<(), Message>)
    ensures
        queue_of(*final(tx)) == queue_of(*old(tx)),
        offered(*final(tx)) == offered(*old(tx)).push((msg, sent is Ok)),
        sent matches Err(back) ==> back == msg,
{
    tx.send(msg).map_err(|unsent| unsent.into_inner())
}

} // verus!
