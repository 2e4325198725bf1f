//! A minimal HTTP/1.1 server core: a request/response message model with a
//! total parser and serializer, and the per-connection dispatch step that
//! turns the bytes read from one connection into the bytes to write back.
//!
//! The host program owns the sockets: it reads one buffer from an accepted
//! connection, hands the bytes to [`dispatch`] together with its handler,
//! and writes the returned bytes back. A handler is a stateless capability
//! of signature `(Request) -> Response`, invoked once per connection.

pub mod http;

use vstd::prelude::*;
use vstd::utf8::{decode_utf8, valid_utf8};
use crate::http::{models, parse_model, render, Request, Response};

verus! {

/// A per-connection failure: the bytes read could not be decoded as text,
/// or the serialized response could not be written back. Either aborts only
/// its own connection.
#[derive(Clone, Copy, Debug, PartialEq, Eq, Structural)]
pub enum ConnectionError {
    Decode,
    Write,
}

/// What happened with one accepted connection, as the accept loop sees it.
#[derive(Clone, Copy, Debug, PartialEq, Eq, Structural)]
pub enum ConnectionOutcome {
    /// The accept itself failed; no stream was obtained.
    AcceptFailed,
    /// The connection was served: a response was written back.
    Served,
    /// The connection was aborted by a per-connection failure.
    Aborted(ConnectionError),
}

/// The accept loop's failure-isolation policy: no outcome of one connection
/// ever stops the loop, so one bad connection cannot take the server down.
/// The loop always goes on to accept the next connection; only a bind
/// failure, which precedes the loop, is fatal.
pub fn continue_after(outcome: &ConnectionOutcome) -> (go_on: bool)
    ensures
        go_on,
{
    match outcome {
        ConnectionOutcome::AcceptFailed => true,
        ConnectionOutcome::Served => true,
        ConnectionOutcome::Aborted(_) => true,
    }
}

/// Relies on `String::from_utf8`: it returns `Ok` exactly when the bytes are
/// valid UTF-8, and then decodes those bytes.
#[verifier::external_body]
fn decode_text(bytes: Vec<u8>) -> (r: Option<String>)
    ensures
        r is Some <==> valid_utf8(bytes@),
        r is Some ==> r.unwrap()@ == decode_utf8(bytes@),
{
    match String::from_utf8(bytes) {
        Ok(s) => Some(s),
        Err(_) => None,
    }
}

/// One connection's dispatch step: decode the bytes read as text, parse them
/// into a request, invoke the handler exactly once, and serialize its
/// response into the bytes to write back.
///
/// Bytes that do not decode abort the connection with a decode failure and
/// no response; parsing itself never fails, so every decodable input gets a
/// response.
pub fn dispatch<F: Fn(Request) -> Response>(bytes: Vec<u8>, handler: F) -> (out: Result<
    String,
    ConnectionError,
>)
    requires
        forall|req: Request| call_requires(handler, (req,)),
    ensures
        out is Ok <==> valid_utf8(bytes@),
        out is Err ==> out->Err_0 == ConnectionError::Decode,
        out is Ok ==> exists|req: Request, resp: Response|
            models(req, parse_model(decode_utf8(bytes@))) && call_ensures(handler, (req,), resp)
                && out->Ok_0@ == render(resp.status, resp.message@),
{
    let ghost bs = bytes@;
    let text = match decode_text(bytes) {
        None => {
            return Err(ConnectionError::Decode);
        },
        Some(t) => t,
    };
    let request = Request::from(text.as_str());
    let ghost greq = request;
    let response = handler(request);
    let ghost gresp = response;
    let rendered = response.to_string();
    proof {
        assert(models(greq, parse_model(decode_utf8(bs))) && call_ensures(handler, (greq,), gresp)
            && rendered@ == render(gresp.status, gresp.message@));
    }
    Ok(rendered)
}

} // verus!
