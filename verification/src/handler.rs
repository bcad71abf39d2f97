//! Handlers: what answers a request once the router has chosen who does.
use crate::httprequest::{HttpRequest, RequestView};
use crate::httpresponse::{default_fields, HttpResponse, ResponseView};
use vstd::prelude::*;

verus! {

/// One way of answering requests. A handler always gives a whole response,
/// body included; what goes wrong inside it shows as a status, never as a
/// failure.
pub trait Handler {
    /// Whether `resp` is a response that this handler may give to `req`:
    /// any, unless the handler says more.
    open spec fn answers(req: RequestView, resp: ResponseView) -> bool {
        true
    }

    /// The response to `req`.
    fn handle(req: &HttpRequest) -> (resp: HttpResponse)
        ensures
            resp@.body is Some,
            resp@.coherent(),
            Self::answers(req@, resp@),
    ;
}

/// The body of the answer to a request that nothing serves.
pub const NOT_FOUND_BODY: &'static str = "<h1>404 Not Found</h1>";

/// The answer to a request that nothing serves: status 404 with its text,
/// the default header fields and a fixed body.
pub open spec fn not_found() -> ResponseView {
    ResponseView {
        version: "HTTP/1.1"@,
        status_code: "404"@,
        status_text: "not found"@,
        headers: Some(default_fields()),
        body: Some(NOT_FOUND_BODY@),
    }
}

/// Answers every request alike, with `not_found()`.
pub struct PageNotFoundHandler;

impl Handler for PageNotFoundHandler {
    open spec fn answers(req: RequestView, resp: ResponseView) -> bool {
        resp == not_found()
    }

    fn handle(_req: &HttpRequest) -> (resp: HttpResponse) {
        proof {
            reveal_strlit("200");
            reveal_strlit("400");
            reveal_strlit("404");
            assert("404"@[0] != "200"@[0]);
            assert("404"@[2] != "400"@[2]);
        }
        HttpResponse::new("404", None, Some(String::from_str(NOT_FOUND_BODY)))
    }
}

} // verus!
