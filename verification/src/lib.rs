//! A small HTTP/1.1 server core: requests are read from the text of a
//! message, routed by method and path to a handler, and the handler's
//! response is written out in wire format.
pub mod handler;
pub mod headers;
pub mod httprequest;
pub mod httpresponse;
pub mod router;
pub mod server;
pub mod text;
