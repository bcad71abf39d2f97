//! The server: where it listens, how much of a request it reads, and what
//! it answers to one message.
use crate::handler::Handler;
use crate::httprequest::{parsed, well_formed, HttpRequest};
use crate::httpresponse::ResponseView;
use crate::router::{answered_by, sends, Router};
use vstd::prelude::*;

verus! {

/// The number of bytes that are read of one request; what a message holds
/// beyond them is never seen.
pub const READ_BUFFER_SIZE: usize = 512;

/// A server for one socket address.
pub struct Server<'a> {
    socket_addr: &'a str,
}

impl<'a> View for Server<'a> {
    type V = Seq<char>;

    /// The socket address.
    closed spec fn view(&self) -> Seq<char> {
        self.socket_addr@
    }
}

impl<'a> Server<'a> {
    /// The server that is to listen at `socket_addr`.
    pub fn new(socket_addr: &'a str) -> (server: Server<'a>)
        ensures
            server@ == socket_addr@,
    {
        Server { socket_addr }
    }

    /// The address at which the server is to listen.
    pub fn socket_addr(&self) -> (addr: &'a str)
        ensures
            addr@ == self@,
    {
        self.socket_addr
    }
}

/// Answers the message `message`: reads the request that it stands for and
/// lets the router write the answer to the end of `out`, where `A` serves
/// `/api` and `S` the pages. A message with a request line that lacks a
/// token gets no answer, and `out` stays as it is.
pub fn answer<A: Handler, S: Handler>(message: String, out: &mut Vec<u8>) -> (answered: bool)
    ensures
        answered == well_formed(message@),
        answered ==> exists|resp: ResponseView|
            {
                &&& resp.body is Some
                &&& resp.coherent()
                &&& answered_by::<A, S>(parsed(message@), resp)
                &&& #[trigger] sends(resp, old(out)@, final(out)@)
            },
        !answered ==> final(out)@ == old(out)@,
{
    match HttpRequest::try_parse(message) {
        Some(request) => {
            Router::router::<A, S>(request, out);
            true
        },
        None => false,
    }
}

} // verus!
