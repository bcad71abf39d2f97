//! Requests: the method, version and target of the request line, the header
//! fields and a one-line body, read permissively from the text of a message.
use crate::headers::Headers;
use crate::text;
use crate::text::{
    chars_of, contains, find_char, has_substring, index_of, lemma_index_of, lines, next_line,
    same_text, token_ranges, tokens,
};
use vstd::prelude::*;

verus! {

/// The request method. A verb that is not recognized is `Uninitialization`.
#[derive(Debug, PartialEq, Eq, Clone, Copy, Structural)]
pub enum Method {
    Get,
    Post,
    Uninitialization,
}

/// The method that the token `verb` names.
pub open spec fn method_of(verb: Seq<char>) -> Method {
    if verb == "GET"@ {
        Method::Get
    } else if verb == "POST"@ {
        Method::Post
    } else {
        Method::Uninitialization
    }
}

impl From<&str> for Method {
    /// The method that `value` names.
    fn from(value: &str) -> (method: Method) {
        if same_text(value, "GET") {
            Method::Get
        } else if same_text(value, "POST") {
            Method::Post
        } else {
            Method::Uninitialization
        }
    }
}

impl vstd::std_specs::convert::FromSpecImpl<&str> for Method {
    open spec fn obeys_from_spec() -> bool {
        true
    }

    open spec fn from_spec(value: &str) -> Method {
        method_of(value@)
    }
}

/// The protocol version. Anything but `HTTP/1.1` is `Uninitialization`.
#[derive(Debug, PartialEq, Eq, Clone, Copy, Structural)]
pub enum Version {
    V1_1,
    Uninitialization,
}

/// The version that the token `name` names.
pub open spec fn version_of(name: Seq<char>) -> Version {
    if name == "HTTP/1.1"@ {
        Version::V1_1
    } else {
        Version::Uninitialization
    }
}

impl From<&str> for Version {
    /// The version that `value` names.
    fn from(value: &str) -> (version: Version) {
        if same_text(value, "HTTP/1.1") {
            Version::V1_1
        } else {
            Version::Uninitialization
        }
    }
}

impl vstd::std_specs::convert::FromSpecImpl<&str> for Version {
    open spec fn obeys_from_spec() -> bool {
        true
    }

    open spec fn from_spec(value: &str) -> Version {
        version_of(value@)
    }
}

/// The request target, kept as it was written.
#[derive(Debug, PartialEq)]
pub enum Resource {
    Path(String),
}

impl View for Resource {
    type V = Seq<char>;

    /// The characters of the path.
    open spec fn view(&self) -> Seq<char> {
        match self {
            Resource::Path(path) => path@,
        }
    }
}

/// What a request line states: the method, the target and the version that
/// its first three tokens name.
pub open spec fn request_line(line: Seq<char>) -> (Method, Seq<char>, Version) {
    (method_of(tokens(line)[0]), tokens(line)[1], version_of(tokens(line)[2]))
}

/// The method, the target and the version of the request line `s`: its
/// first three whitespace-separated tokens, further tokens being ignored.
pub fn req_line(s: &str) -> (parts: (Method, Resource, Version))
    requires
        tokens(s@).len() >= 3,
    ensures
        (parts.0, parts.1@, parts.2) == request_line(s@),
{
    let chars = chars_of(s);
    let ranges = token_ranges(&chars);
    assert(text::is_token_place(chars@, ranges@, 0));
    assert(text::is_token_place(chars@, ranges@, 1));
    assert(text::is_token_place(chars@, ranges@, 2));
    let method = s.substring_char(ranges[0].0, ranges[0].1);
    let resource = s.substring_char(ranges[1].0, ranges[1].1);
    let version = s.substring_char(ranges[2].0, ranges[2].1);
    (Method::from(method), Resource::Path(String::from_str(resource)), Version::from(version))
}

/// The name of the header line `line`: what stands before its first colon.
pub open spec fn header_key(line: Seq<char>) -> Seq<char> {
    line.take(index_of(line, ':') as int)
}

/// The value of the header line `line`: all that follows its first colon,
/// further colons and spaces included.
pub open spec fn header_value(line: Seq<char>) -> Seq<char> {
    if line.contains(':') {
        line.skip(index_of(line, ':') as int + 1)
    } else {
        Seq::empty()
    }
}

/// The name and the value of the header line `s`, split at its first colon
/// and nowhere else; nothing is trimmed. A line without a colon is all name.
pub fn header_line(s: &str) -> (field: (String, String))
    ensures
        field.0@ == header_key(s@),
        field.1@ == header_value(s@),
{
    let chars = chars_of(s);
    let colon: usize = find_char(&chars, 0, ':');
    proof {
        assert(chars@.skip(0) =~= s@);
        lemma_index_of(s@, ':');
    }
    let key = s.substring_char(0, colon);
    assert(key@ =~= header_key(s@));
    if colon < chars.len() {
        let value = s.substring_char(colon + 1, chars.len());
        assert(value@ =~= header_value(s@));
        (String::from_str(key), String::from_str(value))
    } else {
        (String::from_str(key), String::new())
    }
}

/// A request as it was read from one message.
#[derive(Debug)]
pub struct HttpRequest {
    pub method: Method,
    pub version: Version,
    pub resource: Resource,
    pub headers: Headers,
    pub msg_body: String,
}

/// What a request holds: the target and the body as character sequences,
/// the header fields as a map from names to values.
pub struct RequestView {
    pub method: Method,
    pub version: Version,
    pub resource: Seq<char>,
    pub headers: Map<Seq<char>, Seq<char>>,
    pub msg_body: Seq<char>,
}

impl View for HttpRequest {
    type V = RequestView;

    /// What the request holds.
    open spec fn view(&self) -> RequestView {
        RequestView {
            method: self.method,
            version: self.version,
            resource: self.resource@,
            headers: self.headers@,
            msg_body: self.msg_body@,
        }
    }
}

/// A line that holds `HTTP` somewhere is a request line.
pub open spec fn is_request_line(line: Seq<char>) -> bool {
    contains(line, "HTTP"@)
}

/// The request before any line was read: neither method nor version, an
/// empty target, no header fields, an empty body.
pub open spec fn blank() -> RequestView {
    RequestView {
        method: Method::Uninitialization,
        version: Version::Uninitialization,
        resource: Seq::empty(),
        headers: Map::empty(),
        msg_body: Seq::empty(),
    }
}

/// The request `r` after `line` was read. A request line sets method,
/// target and version anew; any other line with a colon sets a header
/// field, replacing an earlier one of that name; an empty line changes
/// nothing; every other line becomes the body in place of an earlier one.
pub open spec fn absorb(r: RequestView, line: Seq<char>) -> RequestView {
    if is_request_line(line) {
        RequestView {
            method: request_line(line).0,
            resource: request_line(line).1,
            version: request_line(line).2,
            ..r
        }
    } else if line.contains(':') {
        RequestView { headers: r.headers.insert(header_key(line), header_value(line)), ..r }
    } else if line.len() == 0 {
        r
    } else {
        RequestView { msg_body: line, ..r }
    }
}

/// The request after the lines `ls` were read one after the other.
pub open spec fn absorb_all(ls: Seq<Seq<char>>) -> RequestView
    decreases ls.len(),
{
    if ls.len() == 0 {
        blank()
    } else {
        absorb(absorb_all(ls.drop_last()), ls.last())
    }
}

/// The request that the message `raw` stands for.
pub open spec fn parsed(raw: Seq<char>) -> RequestView {
    absorb_all(lines(raw))
}

/// Every request line among `ls` has a method, a target and a version.
pub open spec fn complete(ls: Seq<Seq<char>>) -> bool {
    forall|k: int| 0 <= k < ls.len() && is_request_line(#[trigger] ls[k]) ==> tokens(ls[k]).len() >= 3
}

/// Every request line of the message `raw` has its three tokens.
pub open spec fn well_formed(raw: Seq<char>) -> bool {
    complete(lines(raw))
}

/// The last request line decides method, target and version.
pub proof fn lemma_last_request_line_wins(ls: Seq<Seq<char>>, k: int)
    requires
        0 <= k < ls.len(),
        is_request_line(ls[k]),
        forall|j: int| k < j < ls.len() ==> !is_request_line(#[trigger] ls[j]),
    ensures
        absorb_all(ls).method == request_line(ls[k]).0,
        absorb_all(ls).resource == request_line(ls[k]).1,
        absorb_all(ls).version == request_line(ls[k]).2,
    decreases ls.len(),
{
    if k < ls.len() - 1 {
        let before = ls.drop_last();
        assert(!is_request_line(ls[ls.len() - 1]));
        assert forall|j: int| k < j < before.len() implies !is_request_line(
            #[trigger] before[j],
        ) by {
            assert(before[j] == ls[j]);
        }
        lemma_last_request_line_wins(before, k);
    }
}

/// A header field has the value that the last header line of its name
/// gives it.
pub proof fn lemma_last_header_line_wins(ls: Seq<Seq<char>>, k: int)
    requires
        0 <= k < ls.len(),
        !is_request_line(ls[k]),
        ls[k].contains(':'),
        forall|j: int|
            k < j < ls.len() && !is_request_line(#[trigger] ls[j]) && ls[j].contains(':')
                ==> header_key(ls[j]) != header_key(ls[k]),
    ensures
        absorb_all(ls).headers.contains_key(header_key(ls[k])),
        absorb_all(ls).headers[header_key(ls[k])] == header_value(ls[k]),
    decreases ls.len(),
{
    if k < ls.len() - 1 {
        let before = ls.drop_last();
        let last = ls[ls.len() - 1];
        assert(!is_request_line(last) && last.contains(':') ==> header_key(last) != header_key(
            ls[k],
        ));
        assert forall|j: int|
            k < j < before.len() && !is_request_line(#[trigger] before[j]) && before[j].contains(
                ':',
            ) implies header_key(before[j]) != header_key(before[k]) by {
            assert(before[j] == ls[j]);
        }
        lemma_last_header_line_wins(before, k);
    }
}

/// The last line that is neither empty nor a request line nor a header
/// line is the body.
pub proof fn lemma_last_body_line_wins(ls: Seq<Seq<char>>, k: int)
    requires
        0 <= k < ls.len(),
        !is_request_line(ls[k]) && !ls[k].contains(':') && ls[k].len() > 0,
        forall|j: int|
            k < j < ls.len() ==> is_request_line(#[trigger] ls[j]) || ls[j].contains(':')
                || ls[j].len() == 0,
    ensures
        absorb_all(ls).msg_body == ls[k],
    decreases ls.len(),
{
    if k < ls.len() - 1 {
        let before = ls.drop_last();
        let last = ls[ls.len() - 1];
        assert(is_request_line(last) || last.contains(':') || last.len() == 0);
        assert forall|j: int| k < j < before.len() implies is_request_line(#[trigger] before[j])
            || before[j].contains(':') || before[j].len() == 0 by {
            assert(before[j] == ls[j]);
        }
        lemma_last_body_line_wins(before, k);
    }
}

/// Lines without a request line among them leave method, version and
/// target as they are at the start, and leave the header fields empty
/// exactly when none of the lines holds a colon.
pub proof fn lemma_absorb_without_request_line(ls: Seq<Seq<char>>)
    requires
        forall|k: int| 0 <= k < ls.len() ==> !is_request_line(#[trigger] ls[k]),
    ensures
        absorb_all(ls).method == Method::Uninitialization,
        absorb_all(ls).version == Version::Uninitialization,
        absorb_all(ls).resource == Seq::<char>::empty(),
        absorb_all(ls).headers == Map::<Seq<char>, Seq<char>>::empty() <==> forall|k: int|
            0 <= k < ls.len() ==> !(#[trigger] ls[k]).contains(':'),
    decreases ls.len(),
{
    if ls.len() > 0 {
        let before = ls.drop_last();
        let line = ls.last();
        lemma_absorb_without_request_line(before);
        assert(!is_request_line(line));
        if line.contains(':') {
            assert(absorb_all(ls).headers.contains_key(header_key(line)));
            assert(ls[ls.len() - 1].contains(':'));
        } else {
            assert(absorb_all(ls).headers == absorb_all(before).headers);
            if forall|k: int| 0 <= k < before.len() ==> !(#[trigger] before[k]).contains(':') {
                assert forall|k: int| 0 <= k < ls.len() implies !(#[trigger] ls[k]).contains(
                    ':',
                ) by {
                    if k < before.len() {
                        assert(ls[k] == before[k]);
                    }
                }
            } else {
                let k = choose|k: int| 0 <= k < before.len() && (#[trigger] before[k]).contains(':');
                assert(ls[k] == before[k]);
            }
        }
    }
}

/// A message that holds `HTTP` nowhere is well formed and gives a request
/// with neither method nor version and an empty target, and with no header
/// fields unless the message holds a colon.
pub proof fn lemma_parse_without_http(raw: Seq<char>)
    requires
        !contains(raw, "HTTP"@),
    ensures
        well_formed(raw),
        parsed(raw).method == Method::Uninitialization,
        parsed(raw).version == Version::Uninitialization,
        parsed(raw).resource == Seq::<char>::empty(),
        parsed(raw).headers == Map::<Seq<char>, Seq<char>>::empty() <==> !raw.contains(':'),
{
    let ls = lines(raw);
    text::lemma_lines_are_pieces(raw);
    assert forall|k: int| 0 <= k < ls.len() implies !is_request_line(#[trigger] ls[k]) by {
        if is_request_line(ls[k]) {
            text::lemma_piece_contains(ls[k], raw, "HTTP"@);
        }
    }
    lemma_absorb_without_request_line(ls);
    text::lemma_lines_keep(raw, ':');
}

impl HttpRequest {
    /// Reads the message `req` line by line. There is no request unless
    /// every request line of the message has a method, a target and a
    /// version.
    pub fn try_parse(req: String) -> (request: Option<HttpRequest>)
        ensures
            request is Some <==> well_formed(req@),
            request matches Some(r) ==> r@ == parsed(req@),
    {
        let chars = chars_of(req.as_str());
        let mark = chars_of("HTTP");
        let mut request = HttpRequest {
            method: Method::Uninitialization,
            version: Version::Uninitialization,
            resource: Resource::Path(String::new()),
            headers: Headers::new(),
            msg_body: String::new(),
        };
        let ghost mut done: Seq<Seq<char>> = Seq::empty();
        let mut pos: usize = 0;
        assert(chars@.skip(0) =~= chars@);
        assert(done + lines(chars@) =~= lines(chars@));
        while pos < chars.len()
            invariant
                chars@ == req@,
                mark@ == "HTTP"@,
                pos <= chars.len(),
                lines(req@) == done + lines(chars@.skip(pos as int)),
                request@ == absorb_all(done),
                complete(done),
            decreases chars.len() - pos,
        {
            let (end, next) = next_line(&chars, pos);
            let line = req.as_str().substring_char(pos, end);
            let line_chars = chars_of(line);
            proof {
                assert(done + (seq![line@] + lines(chars@.skip(next as int))) =~= done.push(line@)
                    + lines(chars@.skip(next as int)));
                assert(lines(req@)[done.len() as int] == line@);
                assert(done.push(line@).drop_last() =~= done);
                assert(line_chars@.skip(0) =~= line@);
                lemma_index_of(line@, ':');
            }
            if has_substring(&line_chars, &mark) {
                if token_ranges(&line_chars).len() < 3 {
                    return None;
                }
                let (method, resource, version) = req_line(line);
                request.method = method;
                request.resource = resource;
                request.version = version;
            } else if find_char(&line_chars, 0, ':') < line_chars.len() {
                let (key, value) = header_line(line);
                request.headers.insert(key, value);
            } else if line_chars.len() != 0 {
                request.msg_body = String::from_str(line);
            }
            proof {
                done = done.push(line@);
            }
            pos = next;
        }
        assert(lines(chars@.skip(pos as int)) =~= Seq::<Seq<char>>::empty());
        assert(done + Seq::<Seq<char>>::empty() =~= done);
        Some(request)
    }

    /// Reads the message `req` line by line.
    pub fn parse(req: String) -> (request: HttpRequest)
        requires
            well_formed(req@),
        ensures
            request@ == parsed(req@),
    {
        HttpRequest::try_parse(req).unwrap()
    }
}

} // verus!
