use vstd::prelude::*;
use vstd::utf8::{decode_utf8, encode_utf8, valid_utf8};
use std::sync::Arc;
use crate::requests::{parse_request, Method, Request};
use crate::text::decimal;
use crate::response::{head_text, lookup, new_view, not_found_view, wire_headers_only, wire_with_body, Response, ResponseView};
use crate::router::{first_match, Handler, Router};

verus! {

/// What `String::from_utf8_lossy` makes of a byte sequence.
pub uninterp spec fn lossy_text(b: Seq<u8>) -> Seq<char>;

/// Relies on `String::from_utf8_lossy`: the text of the bytes, with each invalid
/// sequence replaced; bytes that are valid UTF-8 decode exactly.
#[verifier::external_body]
fn decode_lossy(b: &[u8]) -> (r: String)
    ensures
        r@ == lossy_text(b@),
        valid_utf8(b@) ==> r@ == decode_utf8(b@),
{
    String::from_utf8_lossy(b).into_owned()
}

/// The size of the one read made on each connection.
pub const READ_BUFFER_SIZE: usize = 4096;

/// The bytes of "Bad Request".
pub open spec fn bad_request_body() -> Seq<u8> {
    "Bad Request"@.map_values(|c: char| c as u8)
}

/// The bytes written for a response to a request with method `m`: no body for HEAD.
pub open spec fn wire_for(m: Method, r: ResponseView) -> Seq<u8> {
    if m == Method::HEAD {
        wire_headers_only(r)
    } else {
        wire_with_body(r)
    }
}

/// A response to a HEAD request keeps the Content-Length of the full body while
/// no byte of the body is written.
pub proof fn lemma_head_keeps_length(code: u16, body: Seq<u8>)
    ensures
        wire_for(Method::HEAD, new_view(code, body)) == encode_utf8(head_text(new_view(code, body))),
        lookup(new_view(code, body).headers, "Content-Length"@) == Some(decimal(body.len())),
{
    let hs = new_view(code, body).headers;
    assert(hs.drop_last() =~= seq![("Content-Type"@, "text/plain; charset=utf-8"@), ("Connection"@, "close"@)]);
}

/// A listening address and the routes that answer on it.
pub struct Server<H> {
    address: String,
    router: Arc<Router<H>>,
}

impl<H> Server<H> {
    pub closed spec fn address_view(&self) -> Seq<char> {
        self.address@
    }

    pub closed spec fn router_view(&self) -> Router<H> {
        *self.router
    }

    /// A server for `address` ("IP:PORT") answering with `router`.
    pub fn new(address: &str, router: Router<H>) -> (r: Server<H>)
        ensures
            r.address_view() == address@,
            r.router_view() == router,
    {
        Server { address: address.to_owned(), router: Arc::new(router) }
    }

    /// The address to bind.
    pub fn address(&self) -> (r: &str)
        ensures
            r@ == self.address_view(),
    {
        self.address.as_str()
    }

    /// The shared router.
    pub fn router(&self) -> (r: &Arc<Router<H>>)
        ensures
            **r == self.router_view(),
    {
        &self.router
    }
}

/// Serializes a response for a request with method `method`: without the body for HEAD.
pub fn to_wire_for(method: Method, resp: &Response) -> (r: Vec<u8>)
    ensures
        r@ == wire_for(method, resp@),
{
    if method == Method::HEAD {
        resp.to_http_bytes_head_only()
    } else {
        resp.to_http_bytes()
    }
}

/// The fixed 400 response for a request that does not parse.
pub fn bad_request() -> (r: Response)
    ensures
        r@ == new_view(400, bad_request_body()),
{
    let body: Vec<u8> = vec![66u8, 97, 100, 32, 82, 101, 113, 117, 101, 115, 116];
    proof {
        reveal_strlit("Bad Request");
        assert(body@ =~= bad_request_body());
    }
    Response::new(400, body)
}

/// The bytes to write back for the request text `raw`.
pub fn reply_to_text<H: Handler>(router: &Router<H>, raw: &str) -> (r: Vec<u8>)
    ensures
        match parse_request(raw@) {
            None => r@ == wire_with_body(new_view(400, bad_request_body())),
            Some(req) => {
                &&& first_match(router.table(), req.0, req.1) is None ==> r@ == wire_for(
                    req.0,
                    not_found_view(),
                )
                &&& forall|i: int|
                    first_match(router.table(), req.0, req.1) == Some(i) ==> exists|
                        resp: ResponseView,
                    |
                        router.handler_at(i).answers(req, resp) && r@ == wire_for(req.0, resp)
            },
        },
{
    match Request::from_raw(raw) {
        None => bad_request().to_http_bytes(),
        Some(request) => {
            let method = request.method;
            let response = router.dispatch(request);
            to_wire_for(method, &response)
        },
    }
}

/// The bytes to write back on a connection that delivered `received` in its one
/// read: nothing for an empty read, else the answer to the decoded text.
pub fn reply<H: Handler>(router: &Router<H>, received: &[u8]) -> (r: Vec<u8>)
    ensures
        received@.len() == 0 ==> r@.len() == 0,
        received@.len() > 0 ==> match parse_request(lossy_text(received@)) {
            None => r@ == wire_with_body(new_view(400, bad_request_body())),
            Some(req) => {
                &&& first_match(router.table(), req.0, req.1) is None ==> r@ == wire_for(
                    req.0,
                    not_found_view(),
                )
                &&& forall|i: int|
                    first_match(router.table(), req.0, req.1) == Some(i) ==> exists|
                        resp: ResponseView,
                    |
                        router.handler_at(i).answers(req, resp) && r@ == wire_for(req.0, resp)
            },
        },
{
    if received.len() == 0 {
        return Vec::new();
    }
    let text = decode_lossy(received);
    reply_to_text(router, text.as_str())
}

} // verus!
