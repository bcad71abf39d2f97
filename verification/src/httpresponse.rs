//! Responses: a status with the text that belongs to it, header fields and
//! a body, and their form on the wire.
use crate::headers::{header_block, Headers};
use crate::text::{decimal, decimal_string, same_text};
use vstd::prelude::*;
use vstd::utf8::encode_utf8;

verus! {

/// The text that belongs to the status `code`.
pub open spec fn status_text_of(code: Seq<char>) -> Seq<char> {
    if code == "200"@ {
        "OK"@
    } else if code == "400"@ {
        "bad request"@
    } else if code == "404"@ {
        "not found"@
    } else if code == "500"@ {
        "internal server error"@
    } else {
        "not found"@
    }
}

/// The header fields of a response that was given none.
pub open spec fn default_fields() -> Seq<(Seq<char>, Seq<char>)> {
    seq![("Content-Type"@, "text/html"@)]
}

/// The default header fields: the single field `Content-Type` with value
/// `text/html`.
fn default_headers() -> (h: Headers)
    ensures
        h.fields() == default_fields(),
{
    let mut h = Headers::new();
    h.insert(String::from_str("Content-Type"), String::from_str("text/html"));
    assert(h.fields() =~= default_fields());
    h
}

/// What a response holds. The header fields are in the order in which they
/// go out.
pub struct ResponseView {
    pub version: Seq<char>,
    pub status_code: Seq<char>,
    pub status_text: Seq<char>,
    pub headers: Option<Seq<(Seq<char>, Seq<char>)>>,
    pub body: Option<Seq<char>>,
}

impl ResponseView {
    /// The version is `HTTP/1.1`, and the status text is the one that
    /// belongs to the status code.
    pub open spec fn coherent(self) -> bool {
        &&& self.version == "HTTP/1.1"@
        &&& self.status_text == status_text_of(self.status_code)
    }

    /// The header fields that go out: those that were given, or the default
    /// ones.
    pub open spec fn sent_fields(self) -> Seq<(Seq<char>, Seq<char>)> {
        match self.headers {
            Some(fields) => fields,
            None => default_fields(),
        }
    }

    /// The response on the wire: the status line, the header lines, the
    /// length of the body in bytes, an empty line, the body.
    pub open spec fn wire_text(self) -> Seq<char>
        recommends
            self.body is Some,
    {
        self.version + " "@ + self.status_code + " "@ + self.status_text + "\r\n"@ + header_block(
            self.sent_fields(),
        ) + "Content-Length:"@ + decimal(encode_utf8(self.body->0).len()) + "\r\n\r\n"@
            + self.body->0
    }
}

/// A response. Its status text always belongs to its status code.
#[derive(Debug, PartialEq)]
pub struct HttpResponse<'a> {
    version: &'a str,
    status_code: &'a str,
    status_text: &'a str,
    headers: Option<Headers>,
    body: Option<String>,
}

impl<'a> View for HttpResponse<'a> {
    type V = ResponseView;

    /// What the response holds, with the header fields in their order.
    closed spec fn view(&self) -> ResponseView {
        ResponseView {
            version: self.version@,
            status_code: self.status_code@,
            status_text: self.status_text@,
            headers: match self.headers {
                Some(h) => Some(h.fields()),
                None => None,
            },
            body: match self.body {
                Some(b) => Some(b@),
                None => None,
            },
        }
    }
}

impl<'a> Default for HttpResponse<'a> {
    /// `200 OK`, with neither header fields nor a body.
    fn default() -> (r: HttpResponse<'a>)
        ensures
            r@ == (ResponseView {
                version: "HTTP/1.1"@,
                status_code: "200"@,
                status_text: "OK"@,
                headers: None,
                body: None,
            }),
            r@.coherent(),
    {
        HttpResponse {
            version: "HTTP/1.1",
            status_code: "200",
            status_text: "OK",
            headers: None,
            body: None,
        }
    }
}

impl<'a> HttpResponse<'a> {
    #[verifier::type_invariant]
    spec fn text_belongs_to_code(&self) -> bool {
        self@.coherent()
    }

    /// The response with status `status_code`, the text that belongs to it,
    /// the header fields `headers` or else the single field `Content-Type`
    /// with value `text/html`, and the body `body`.
    pub fn new(status_code: &'a str, headers: Option<Headers>, body: Option<String>) -> (r:
        HttpResponse<'a>)
        ensures
            r@ == (ResponseView {
                version: "HTTP/1.1"@,
                status_code: status_code@,
                status_text: status_text_of(status_code@),
                headers: Some(
                    match headers {
                        Some(h) => h.fields(),
                        None => default_fields(),
                    },
                ),
                body: match body {
                    Some(b) => Some(b@),
                    None => None,
                },
            }),
            r@.coherent(),
    {
        let headers = match headers {
            Some(h) => h,
            None => default_headers(),
        };
        let status_text = if same_text(status_code, "200") {
            "OK"
        } else if same_text(status_code, "400") {
            "bad request"
        } else if same_text(status_code, "404") {
            "not found"
        } else if same_text(status_code, "500") {
            "internal server error"
        } else {
            "not found"
        };
        HttpResponse { version: "HTTP/1.1", status_code, status_text, headers: Some(headers), body }
    }
}

impl<'a> Clone for HttpResponse<'a> {
    /// A copy that holds the same as `self`.
    fn clone(&self) -> (copy: HttpResponse<'a>)
        ensures
            copy@ == self@,
    {
        proof {
            use_type_invariant(self);
        }
        HttpResponse {
            version: self.version,
            status_code: self.status_code,
            status_text: self.status_text,
            headers: match &self.headers {
                Some(h) => Some(h.clone()),
                None => None,
            },
            body: match &self.body {
                Some(b) => Some(b.clone()),
                None => None,
            },
        }
    }
}

impl<'a> HttpResponse<'a> {
    /// The version, which is `HTTP/1.1`.
    pub fn version(&self) -> (version: &str)
        ensures
            version@ == self@.version,
            self@.coherent(),
    {
        proof {
            use_type_invariant(self);
        }
        self.version
    }

    /// The status code.
    pub fn status_code(&self) -> (code: &str)
        ensures
            code@ == self@.status_code,
    {
        self.status_code
    }

    /// The status text, which is the one that belongs to the status code.
    pub fn status_text(&self) -> (text: &str)
        ensures
            text@ == self@.status_text,
            self@.coherent(),
    {
        proof {
            use_type_invariant(self);
        }
        self.status_text
    }

    /// The header fields that the response was given, if any.
    pub fn header_fields(&self) -> (fields: Option<&Headers>)
        ensures
            match fields {
                Some(h) => self@.headers == Some(h.fields()),
                None => self@.headers is None,
            },
    {
        match &self.headers {
            Some(h) => Some(h),
            None => None,
        }
    }

    /// The header lines as they go out: those of the fields that were
    /// given, or else the line of the default field.
    pub fn headers(&self) -> (text: String)
        ensures
            text@ == header_block(self@.sent_fields()),
    {
        match &self.headers {
            Some(h) => h.wire_text(),
            None => default_headers().wire_text(),
        }
    }

    /// Whether the response has a body, be it an empty one.
    pub fn has_body(&self) -> (b: bool)
        ensures
            b == (self@.body is Some),
    {
        self.body.is_some()
    }

    /// The body; the empty text where there is none.
    pub fn body(&self) -> (body: &str)
        ensures
            body@ == match self@.body {
                Some(b) => b,
                None => Seq::empty(),
            },
    {
        match &self.body {
            Some(b) => b.as_str(),
            None => {
                let none = "";
                proof {
                    reveal_strlit("");
                }
                assert(none@ =~= Seq::<char>::empty());
                none
            },
        }
    }

    /// The response as it goes over the wire.
    pub fn serialize(&self) -> (text: String)
        requires
            self@.body is Some,
        ensures
            text@ == self@.wire_text(),
            self@.coherent(),
    {
        proof {
            use_type_invariant(self);
        }
        let body = self.body();
        let mut text = String::from_str(self.version);
        text.append(" ");
        text.append(self.status_code);
        text.append(" ");
        text.append(self.status_text);
        text.append("\r\n");
        text.append(self.headers().as_str());
        text.append("Content-Length:");
        text.append(decimal_string(body.as_bytes().len()).as_str());
        text.append("\r\n\r\n");
        text.append(body);
        text
    }

    /// Writes the response, as it goes over the wire, to the end of
    /// `write_stream`.
    pub fn send_response(&self, write_stream: &mut Vec<u8>)
        requires
            self@.body is Some,
        ensures
            final(write_stream)@ == old(write_stream)@ + encode_utf8(self@.wire_text()),
            self@.coherent(),
    {
        let text = self.serialize();
        write_stream.extend_from_slice(text.as_str().as_bytes());
    }
}

/// Writing one response out twice gives the same text, and so the same
/// bytes: whatever `serialize` returns for `r` is the wire text of `r`.
pub proof fn lemma_serialize_repeatable(r: HttpResponse, first: String, second: String)
    requires
        r@.body is Some,
        call_ensures(HttpResponse::serialize, (&r,), first),
        call_ensures(HttpResponse::serialize, (&r,), second),
    ensures
        first@ == second@,
        encode_utf8(first@) == encode_utf8(second@),
{
}

} // verus!
