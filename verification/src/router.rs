//! Routing: which handler answers a request, and the answer on the wire.
use crate::handler::{Handler, PageNotFoundHandler};
use crate::httprequest::{HttpRequest, Method, RequestView, Resource};
use crate::httpresponse::ResponseView;
use crate::text::{chars_of, find_char, index_of, lemma_index_of, same_text};
use vstd::prelude::*;
use vstd::utf8::encode_utf8;

verus! {

/// The pieces of `path` between its slashes. A path without a slash is one
/// piece; a slash at the start or at the end has an empty piece beside it.
pub open spec fn segments(path: Seq<char>) -> Seq<Seq<char>>
    decreases path.len(),
{
    let n = index_of(path, '/') as int;
    if n >= path.len() {
        seq![path]
    } else {
        seq![path.take(n)] + segments(path.skip(n + 1))
    }
}

/// Who answers a request.
#[derive(Debug, PartialEq, Eq, Clone, Copy, Structural)]
pub enum Route {
    /// The handler of the service under `/api`.
    Api,
    /// The handler of pages.
    StaticPage,
    /// The handler of what nothing serves.
    NotFound,
}

/// Who answers a request with method `method` for the target `path`: for
/// any method but `GET` the not-found handler; for `GET` the service where
/// the piece after the first slash is `api`, and the pages otherwise, also
/// where the path has no slash at all.
pub open spec fn route_of(method: Method, path: Seq<char>) -> Route {
    if method != Method::Get {
        Route::NotFound
    } else if segments(path).len() >= 2 && segments(path)[1] == "api"@ {
        Route::Api
    } else {
        Route::StaticPage
    }
}

/// Whether `resp` may be the answer to `req` when `A` serves `/api` and `S`
/// serves the pages.
pub open spec fn answered_by<A: Handler, S: Handler>(req: RequestView, resp: ResponseView) -> bool {
    match route_of(req.method, req.resource) {
        Route::Api => A::answers(req, resp),
        Route::StaticPage => S::answers(req, resp),
        Route::NotFound => PageNotFoundHandler::answers(req, resp),
    }
}

/// Whether `after` is `before` with the response `resp` written behind it.
pub open spec fn sends(resp: ResponseView, before: Seq<u8>, after: Seq<u8>) -> bool {
    after == before + encode_utf8(resp.wire_text())
}

/// The piece of `path` with index `k`, counted from zero, if `path` has so
/// many pieces.
pub fn path_segment(path: &str, k: usize) -> (piece: Option<String>)
    ensures
        match piece {
            Some(p) => k < segments(path@).len() && p@ == segments(path@)[k as int],
            None => k >= segments(path@).len(),
        },
{
    let chars = chars_of(path);
    let ghost mut done: Seq<Seq<char>> = Seq::empty();
    let mut pos: usize = 0;
    let mut index: usize = 0;
    assert(chars@.skip(0) =~= chars@);
    assert(done + segments(chars@) =~= segments(chars@));
    loop
        invariant
            chars@ == path@,
            pos <= chars.len(),
            index <= k,
            done.len() == index,
            segments(path@) == done + segments(chars@.skip(pos as int)),
        decreases chars.len() - pos,
    {
        let ghost rest = chars@.skip(pos as int);
        let end: usize = find_char(&chars, pos, '/');
        proof {
            lemma_index_of(rest, '/');
            assert(segments(rest)[0] =~= chars@.subrange(pos as int, end as int));
        }
        if index == k {
            return Some(String::from_str(path.substring_char(pos, end)));
        }
        if end == chars.len() {
            return None;
        }
        proof {
            assert(rest.skip(end - pos + 1) =~= chars@.skip(end + 1));
            assert(done + (seq![segments(rest)[0]] + segments(chars@.skip(end + 1))) =~= done.push(
                segments(rest)[0],
            ) + segments(chars@.skip(end + 1)));
            done = done.push(segments(rest)[0]);
        }
        pos = end + 1;
        index += 1;
    }
}

/// Chooses the handler for a request and has the answer written.
pub struct Router;

impl Router {
    /// Who answers `req`.
    pub fn route(req: &HttpRequest) -> (route: Route)
        ensures
            route == route_of(req@.method, req@.resource),
    {
        match req.method {
            Method::Get => match &req.resource {
                Resource::Path(path) => match path_segment(path.as_str(), 1) {
                    Some(piece) => if same_text(piece.as_str(), "api") {
                        Route::Api
                    } else {
                        Route::StaticPage
                    },
                    None => Route::StaticPage,
                },
            },
            _ => Route::NotFound,
        }
    }

    /// Answers `req`: lets the handler that `route` names make a response
    /// and writes it, as it goes over the wire, to the end of `stream`.
    pub fn router<A: Handler, S: Handler>(req: HttpRequest, stream: &mut Vec<u8>)
        ensures
            exists|resp: ResponseView|
                {
                    &&& resp.body is Some
                    &&& resp.coherent()
                    &&& answered_by::<A, S>(req@, resp)
                    &&& #[trigger] sends(resp, old(stream)@, final(stream)@)
                },
    {
        let ghost before = stream@;
        match Router::route(&req) {
            Route::Api => {
                let resp = A::handle(&req);
                resp.send_response(stream);
                assert(sends(resp@, before, stream@));
            },
            Route::StaticPage => {
                let resp = S::handle(&req);
                resp.send_response(stream);
                assert(sends(resp@, before, stream@));
            },
            Route::NotFound => {
                let resp = PageNotFoundHandler::handle(&req);
                resp.send_response(stream);
                assert(sends(resp@, before, stream@));
            },
        }
    }
}

} // verus!
