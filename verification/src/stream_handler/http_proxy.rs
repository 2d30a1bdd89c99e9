use vstd::prelude::*;

use vstd::utf8::{decode_utf8, encode_utf8, valid_utf8};

use crate::codec::{decode_url_safe_base64, string_from_utf8, url_safe_base64_decoded};
use crate::text::{
    append_decimal, chars_of, decimal, lemma_split_once_char, lemma_split_once_rejoin, pair_view, split_once,
    split_once_spec, str_eq,
};
use crate::url_parts::{UrlParts, parse_url, parsed_url};

verus! {

broadcast use vstd::string::group_string_axioms;

/// Carriage return and line feed, the line break of HTTP.
pub open spec fn crlf() -> Seq<char> {
    seq!['\r', '\n']
}

/// The separator between a header's name and its value.
pub open spec fn colon_space() -> Seq<char> {
    seq![':', ' ']
}

// ---------------------------------------------------------------------------
// Credentials
// ---------------------------------------------------------------------------

/// The username and password that clients must present.
#[derive(Debug, Clone)]
pub struct AuthConfig {
    username: String,
    password: String,
}

impl View for AuthConfig {
    type V = (Seq<char>, Seq<char>);

    closed spec fn view(&self) -> Self::V {
        (self.username@, self.password@)
    }
}

impl AuthConfig {
    pub fn new(username: &str, password: &str) -> (r: Self)
        ensures
            r@ == (username@, password@),
    {
        AuthConfig { username: username.to_owned(), password: password.to_owned() }
    }

    /// Both the username and the password match.
    pub fn verify(&self, username: &str, password: &str) -> (r: bool)
        ensures
            r == (username@ == self@.0 && password@ == self@.1),
    {
        str_eq(username, self.username.as_str()) && str_eq(password, self.password.as_str())
    }
}

/// The view of an optional reference to an `AuthConfig`.
pub open spec fn auth_config_view(c: Option<&AuthConfig>) -> Option<(Seq<char>, Seq<char>)> {
    match c {
        Some(c) => Some(c@),
        None => None,
    }
}

/// An HTTP proxy; where `auth_config` is set, clients must authenticate.
#[derive(Debug, Clone)]
pub struct HttpProxy {
    auth_config: Option<AuthConfig>,
}

impl View for HttpProxy {
    type V = Option<(Seq<char>, Seq<char>)>;

    closed spec fn view(&self) -> Self::V {
        match self.auth_config {
            Some(c) => Some(c@),
            None => None,
        }
    }
}

impl HttpProxy {
    pub fn new(auth_config: Option<AuthConfig>) -> (r: HttpProxy)
        ensures
            r@ == match auth_config {
                Some(c) => Some(c@),
                None => None,
            },
    {
        HttpProxy { auth_config }
    }

    /// The credentials that clients must present, if any.
    pub fn auth_config(&self) -> (r: Option<&AuthConfig>)
        ensures
            auth_config_view(r) == self@,
    {
        match &self.auth_config {
            Some(c) => Some(c),
            None => None,
        }
    }
}

// ---------------------------------------------------------------------------
// The request line
// ---------------------------------------------------------------------------

/// The first three fields of `line`, split at single spaces as
/// `split(' ')` splits it; `None` when the line has fewer than three.
pub open spec fn request_line_fields(line: Seq<char>) -> Option<(Seq<char>, Seq<char>, Seq<char>)> {
    match split_once_spec(line, seq![' ']) {
        None => None,
        Some((method, rest)) => match split_once_spec(rest, seq![' ']) {
            None => None,
            Some((uri, rest)) => Some(
                (
                    method,
                    uri,
                    match split_once_spec(rest, seq![' ']) {
                        Some((version, _)) => version,
                        None => rest,
                    },
                ),
            ),
        },
    }
}

/// The method, URI and HTTP version of a request.
pub struct HttpRequestLine {
    pub method: String,
    pub uri: String,
    pub version: String,
}

impl View for HttpRequestLine {
    type V = (Seq<char>, Seq<char>, Seq<char>);

    open spec fn view(&self) -> Self::V {
        (self.method@, self.uri@, self.version@)
    }
}

impl HttpRequestLine {
    /// Splits a request line into its first three space-separated fields.
    pub fn parse(line: String) -> (r: Self)
        requires
            request_line_fields(line@) is Some,
        ensures
            Some(r@) == request_line_fields(line@),
    {
        proof {
            reveal_strlit(" ");
        }
        let sp = " ";
        assert(sp@ =~= seq![' ']);
        match split_once(line.as_str(), sp) {
            Some((method, rest)) => match split_once(rest.as_str(), sp) {
                Some((uri, rest)) => {
                    let version = match split_once(rest.as_str(), sp) {
                        Some((version, _)) => version,
                        None => rest,
                    };
                    HttpRequestLine { method, uri, version }
                },
                None => {
                    assert(false);
                    HttpRequestLine { method, uri: rest, version: String::new() }
                },
            },
            None => {
                assert(false);
                HttpRequestLine { method: String::new(), uri: String::new(), version: String::new() }
            },
        }
    }
}

// ---------------------------------------------------------------------------
// Headers
// ---------------------------------------------------------------------------

/// The view of a list of headers.
pub open spec fn headers_view(h: Seq<(String, String)>) -> Seq<(Seq<char>, Seq<char>)> {
    h.map_values(|p: (String, String)| (p.0@, p.1@))
}

/// A header as it stands on its line: `name: value`.
pub open spec fn header_line(h: (Seq<char>, Seq<char>)) -> Seq<char> {
    h.0 + colon_space() + h.1
}

/// `lines` joined with CRLF between them.
pub open spec fn join_lines(lines: Seq<Seq<char>>) -> Seq<char>
    decreases lines.len(),
{
    if lines.len() == 0 {
        Seq::empty()
    } else if lines.len() == 1 {
        lines[0]
    } else {
        join_lines(lines.drop_last()) + crlf() + lines.last()
    }
}

/// The header block of a request: one `name: value` line per header, each
/// ended by CRLF, then the empty line that ends the head. With no headers it is
/// CRLF CRLF.
pub open spec fn headers_block(h: Seq<(Seq<char>, Seq<char>)>) -> Seq<char> {
    join_lines(h.map_values(|p: (Seq<char>, Seq<char>)| header_line(p))) + crlf() + crlf()
}

/// Writes headers as the header block of a request.
pub fn serialize_headers(headers: &Vec<(String, String)>) -> (r: String)
    ensures
        r@ == headers_block(headers_view(headers@)),
{
    proof {
        reveal_strlit("\r\n");
        reveal_strlit(": ");
        reveal_strlit("\r\n\r\n");
    }
    let line_break = "\r\n";
    let separator = ": ";
    let end_of_head = "\r\n\r\n";
    assert(line_break@ =~= crlf());
    assert(separator@ =~= colon_space());
    assert(end_of_head@ =~= crlf() + crlf());
    let ghost lines = headers_view(headers@).map_values(|p: (Seq<char>, Seq<char>)| header_line(p));
    let mut out = String::new();
    let mut i: usize = 0;
    while i < headers.len()
        invariant
            i <= headers@.len(),
            lines.len() == headers@.len(),
            lines == headers_view(headers@).map_values(|p: (Seq<char>, Seq<char>)| header_line(p)),
            out@ == join_lines(lines.take(i as int)),
            line_break@ == crlf(),
            separator@ == colon_space(),
        decreases headers@.len() - i,
    {
        let ghost before = out@;
        if i > 0 {
            out.append(line_break);
        }
        out.append(headers[i].0.as_str());
        out.append(separator);
        out.append(headers[i].1.as_str());
        proof {
            assert(lines[i as int] == header_line((headers@[i as int].0@, headers@[i as int].1@)));
            assert(lines.take(i + 1).drop_last() =~= lines.take(i as int));
            if i == 0 {
                assert(out@ =~= lines[0]);
            } else {
                assert(out@ =~= before + crlf() + lines[i as int]);
            }
        }
        i = i + 1;
    }
    assert(lines.take(headers@.len() as int) =~= lines);
    out.append(end_of_head);
    out
}

// ---------------------------------------------------------------------------
// Requests
// ---------------------------------------------------------------------------

/// A request as the proxy reads it: the request line, the credentials of a
/// `Proxy-Authorization` header, and the other headers in the order they came.
pub struct HttpRequest {
    pub request_line: HttpRequestLine,
    pub auth: Option<(String, String)>,
    pub headers: Vec<(String, String)>,
}

/// The view of a request.
pub struct RequestView {
    pub request_line: (Seq<char>, Seq<char>, Seq<char>),
    pub auth: Option<(Seq<char>, Seq<char>)>,
    pub headers: Seq<(Seq<char>, Seq<char>)>,
}

impl View for HttpRequest {
    type V = RequestView;

    open spec fn view(&self) -> RequestView {
        RequestView {
            request_line: self.request_line@,
            auth: pair_view(self.auth),
            headers: headers_view(self.headers@),
        }
    }
}

/// Whether a request with credentials `auth` passes a proxy configured with
/// `config`: with no configuration every request passes; with one, the
/// request must carry exactly the configured username and password.
pub open spec fn authenticated(
    config: Option<(Seq<char>, Seq<char>)>,
    auth: Option<(Seq<char>, Seq<char>)>,
) -> bool {
    match (config, auth) {
        (Some(c), Some(a)) => c == a,
        _ => config is None,
    }
}

/// Checks the credentials of `request` against `auth_config`.
pub fn authenticate(auth_config: Option<&AuthConfig>, request: &HttpRequest) -> (r: bool)
    ensures
        r == authenticated(auth_config_view(auth_config), request@.auth),
{
    match (auth_config, &request.auth) {
        (Some(auth_config), Some((username, password))) => auth_config.verify(
            username.as_str(),
            password.as_str(),
        ),
        _ => auth_config.is_none(),
    }
}

// ---------------------------------------------------------------------------
// Reading the request head
// ---------------------------------------------------------------------------

/// Why a request head is not accepted.
///
/// The first three are errors that the connection's handler returns. The
/// `Malformed*` ones are input that the proxy does not handle at all: on them
/// the task that serves the connection aborts.
#[derive(Debug, Clone, Copy, PartialEq, Eq, Structural)]
pub enum HeadError {
    /// The stream ended before a request line.
    MissingRequestLine,
    /// The credentials of `Proxy-Authorization` are not URL-safe base64.
    InvalidBase64,
    /// The decoded credentials are not UTF-8.
    InvalidUtf8,
    /// The request line has fewer than three fields.
    MalformedRequestLine,
    /// A header line holds no `": "`.
    MalformedHeader,
    /// The value of `Proxy-Authorization` holds no space.
    MalformedAuthorization,
    /// The decoded credentials hold no `:`.
    MalformedCredentials,
}

impl HeadError {
    /// The input is malformed rather than failing one of the checks.
    pub fn is_malformed(&self) -> (r: bool)
        ensures
            r == !(*self is MissingRequestLine || *self is InvalidBase64 || *self is InvalidUtf8),
    {
        match self {
            HeadError::MissingRequestLine | HeadError::InvalidBase64 | HeadError::InvalidUtf8 => false,
            _ => true,
        }
    }
}

/// The lower-case name of the header that carries the proxy credentials.
pub open spec fn proxy_authorization_name() -> Seq<char> {
    seq!['p', 'r', 'o', 'x', 'y', '-', 'a', 'u', 't', 'h', 'o', 'r', 'i', 'z', 'a', 't', 'i', 'o', 'n']
}

/// The code of `c` with ASCII upper-case letters made lower-case.
pub open spec fn ascii_lower_code(c: char) -> u32 {
    if 'A' <= c && c <= 'Z' {
        (c as u32 + 32) as u32
    } else {
        c as u32
    }
}

/// `name` is `Proxy-Authorization` in any case.
///
/// This is what `name.to_lowercase() == "proxy-authorization"` decides: the
/// only characters beyond ASCII whose lower case is an ASCII letter lower-case
/// to `k` (or to `i` followed by a combining mark), which the name does not hold.
pub open spec fn is_proxy_authorization(name: Seq<char>) -> bool {
    name.len() == proxy_authorization_name().len() && forall|i: int|
        0 <= i < name.len() ==> ascii_lower_code(#[trigger] name[i]) == proxy_authorization_name()[i] as u32
}

fn is_proxy_authorization_exec(name: &str) -> (r: bool)
    ensures
        r == is_proxy_authorization(name@),
{
    proof {
        reveal_strlit("proxy-authorization");
    }
    let expected = chars_of("proxy-authorization");
    assert(expected@ =~= proxy_authorization_name());
    let actual = chars_of(name);
    if actual.len() != expected.len() {
        return false;
    }
    let mut i: usize = 0;
    while i < actual.len()
        invariant
            actual@ == name@,
            expected@ == proxy_authorization_name(),
            actual@.len() == expected@.len(),
            i <= actual@.len(),
            forall|j: int| 0 <= j < i ==> ascii_lower_code(#[trigger] actual@[j]) == expected@[j] as u32,
        decreases actual@.len() - i,
    {
        let c = actual[i];
        let code: u32 = if 'A' <= c && c <= 'Z' {
            c as u32 + 32
        } else {
            c as u32
        };
        if code != expected[i] as u32 {
            return false;
        }
        i = i + 1;
    }
    true
}

/// What the credentials decode to once the base64 is undone: the bytes must
/// be UTF-8, and the text must hold a `:` between username and password.
pub open spec fn credentials_from_bytes(bytes: Seq<u8>) -> Result<(Seq<char>, Seq<char>), HeadError> {
    if !valid_utf8(bytes) {
        Err(HeadError::InvalidUtf8)
    } else {
        match split_once_spec(decode_utf8(bytes), seq![':']) {
            Some(p) => Ok(p),
            None => Err(HeadError::MalformedCredentials),
        }
    }
}

/// The credentials in the value of a `Proxy-Authorization` header: the value
/// holds a scheme and, after the first space, the URL-safe base64 of
/// `username:password`.
pub open spec fn credentials_of(value: Seq<char>) -> Result<(Seq<char>, Seq<char>), HeadError> {
    match split_once_spec(value, seq![' ']) {
        None => Err(HeadError::MalformedAuthorization),
        Some((_, token)) => match url_safe_base64_decoded(encode_utf8(token)) {
            None => Err(HeadError::InvalidBase64),
            Some(bytes) => credentials_from_bytes(bytes),
        },
    }
}

/// The view of a credentials result.
pub open spec fn credentials_view(r: Result<(String, String), HeadError>) -> Result<(Seq<char>, Seq<char>), HeadError> {
    match r {
        Ok((u, p)) => Ok((u@, p@)),
        Err(e) => Err(e),
    }
}

/// Reads the credentials from what base64 decoding gave (`None` where it
/// failed).
pub fn credentials_from_decoded(decoded: Option<Vec<u8>>) -> (r: Result<(String, String), HeadError>)
    ensures
        credentials_view(r) == match decoded {
            None => Err(HeadError::InvalidBase64),
            Some(bytes) => credentials_from_bytes(bytes@),
        },
{
    match decoded {
        None => Err(HeadError::InvalidBase64),
        Some(bytes) => match string_from_utf8(bytes) {
            None => Err(HeadError::InvalidUtf8),
            Some(text) => {
                proof {
                    reveal_strlit(":");
                }
                let colon = ":";
                assert(colon@ =~= seq![':']);
                match split_once(text.as_str(), colon) {
                    Some(p) => Ok(p),
                    None => Err(HeadError::MalformedCredentials),
                }
            },
        },
    }
}

/// Reads the credentials from the value of a `Proxy-Authorization` header.
pub fn decode_credentials(value: &str) -> (r: Result<(String, String), HeadError>)
    ensures
        credentials_view(r) == credentials_of(value@),
{
    proof {
        reveal_strlit(" ");
    }
    let space = " ";
    assert(space@ =~= seq![' ']);
    match split_once(value, space) {
        None => Err(HeadError::MalformedAuthorization),
        Some((_, token)) => {
            let decoded = decode_url_safe_base64(token.as_str().as_bytes());
            credentials_from_decoded(decoded)
        },
    }
}

/// What the reader has taken in so far: the request line once it has been
/// read, the credentials of the last `Proxy-Authorization` header, and the
/// other headers in order.
pub struct RequestHeadParser {
    request_line: Option<HttpRequestLine>,
    auth: Option<(String, String)>,
    headers: Vec<(String, String)>,
}

/// The view of a `RequestHeadParser`.
pub struct ParserView {
    pub request_line: Option<(Seq<char>, Seq<char>, Seq<char>)>,
    pub auth: Option<(Seq<char>, Seq<char>)>,
    pub headers: Seq<(Seq<char>, Seq<char>)>,
}

impl View for RequestHeadParser {
    type V = ParserView;

    closed spec fn view(&self) -> ParserView {
        ParserView {
            request_line: match self.request_line {
                Some(l) => Some(l@),
                None => None,
            },
            auth: pair_view(self.auth),
            headers: headers_view(self.headers@),
        }
    }
}

/// What reading one more line leads to.
pub enum HeadStep {
    /// Read the next line.
    Continue(RequestHeadParser),
    /// The head is complete.
    Complete(HttpRequest),
}

/// The view of a `HeadStep`.
pub enum StepView {
    Continue(ParserView),
    Complete(RequestView),
}

/// The view of the result of reading a line.
pub open spec fn step_view(r: Result<HeadStep, HeadError>) -> Result<StepView, HeadError> {
    match r {
        Ok(HeadStep::Continue(p)) => Ok(StepView::Continue(p@)),
        Ok(HeadStep::Complete(req)) => Ok(StepView::Complete(req@)),
        Err(e) => Err(e),
    }
}

/// The state before any line has been read.
pub open spec fn initial_parser() -> ParserView {
    ParserView { request_line: None, auth: None, headers: Seq::empty() }
}

/// The request that a parser holding `line` has read.
pub open spec fn request_of(st: ParserView, line: (Seq<char>, Seq<char>, Seq<char>)) -> RequestView {
    RequestView { request_line: line, auth: st.auth, headers: st.headers }
}

/// The step that reading `line` takes from `st` (`None`: the stream ended).
///
/// The first line is the request line. After it, each line is a header, up to
/// an empty line or the end of the stream. A `Proxy-Authorization` header
/// (in any case) gives the credentials and is not kept among the headers.
pub open spec fn feed_spec(st: ParserView, line: Option<Seq<char>>) -> Result<StepView, HeadError> {
    match st.request_line {
        None => match line {
            None => Err(HeadError::MissingRequestLine),
            Some(l) => match request_line_fields(l) {
                None => Err(HeadError::MalformedRequestLine),
                Some(f) => Ok(
                    StepView::Continue(ParserView { request_line: Some(f), auth: st.auth, headers: st.headers }),
                ),
            },
        },
        Some(f) => match line {
            None => Ok(StepView::Complete(request_of(st, f))),
            Some(l) => if l.len() == 0 {
                Ok(StepView::Complete(request_of(st, f)))
            } else {
                match split_once_spec(l, colon_space()) {
                    None => Err(HeadError::MalformedHeader),
                    Some((name, value)) => if is_proxy_authorization(name) {
                        match credentials_of(value) {
                            Ok(c) => Ok(
                                StepView::Continue(
                                    ParserView { request_line: st.request_line, auth: Some(c), headers: st.headers },
                                ),
                            ),
                            Err(e) => Err(e),
                        }
                    } else {
                        Ok(
                            StepView::Continue(
                                ParserView {
                                    request_line: st.request_line,
                                    auth: st.auth,
                                    headers: st.headers.push((name, value)),
                                },
                            ),
                        )
                    },
                }
            },
        },
    }
}

impl RequestHeadParser {
    pub fn new() -> (r: Self)
        ensures
            r@ == initial_parser(),
    {
        let r = RequestHeadParser { request_line: None, auth: None, headers: Vec::new() };
        assert(headers_view(r.headers@) =~= Seq::empty());
        r
    }

    /// Takes in the next line of the stream (`None`: the stream ended).
    pub fn feed(self, line: Option<String>) -> (r: Result<HeadStep, HeadError>)
        ensures
            step_view(r) == feed_spec(self@, match line {
                Some(l) => Some(l@),
                None => None,
            }),
    {
        let RequestHeadParser { request_line, auth, mut headers } = self;
        match request_line {
            None => match line {
                None => Err(HeadError::MissingRequestLine),
                Some(l) => {
                    if !has_request_line_fields(l.as_str()) {
                        return Err(HeadError::MalformedRequestLine);
                    }
                    let parsed = HttpRequestLine::parse(l);
                    Ok(HeadStep::Continue(RequestHeadParser { request_line: Some(parsed), auth, headers }))
                },
            },
            Some(request_line) => match line {
                None => Ok(HeadStep::Complete(HttpRequest { request_line, auth, headers })),
                Some(l) => {
                    if l.as_str().is_empty() {
                        return Ok(HeadStep::Complete(HttpRequest { request_line, auth, headers }));
                    }
                    proof {
                        reveal_strlit(": ");
                    }
                    let separator = ": ";
                    assert(separator@ =~= colon_space());
                    match split_once(l.as_str(), separator) {
                        None => Err(HeadError::MalformedHeader),
                        Some((name, value)) => {
                            if is_proxy_authorization_exec(name.as_str()) {
                                match decode_credentials(value.as_str()) {
                                    Ok(c) => Ok(
                                        HeadStep::Continue(
                                            RequestHeadParser {
                                                request_line: Some(request_line),
                                                auth: Some(c),
                                                headers,
                                            },
                                        ),
                                    ),
                                    Err(e) => Err(e),
                                }
                            } else {
                                let ghost old_headers = headers@;
                                headers.push((name, value));
                                assert(headers_view(headers@) =~= headers_view(old_headers).push((name@, value@)));
                                Ok(
                                    HeadStep::Continue(
                                        RequestHeadParser { request_line: Some(request_line), auth, headers },
                                    ),
                                )
                            }
                        },
                    }
                },
            },
        }
    }
}

/// Whether `line` has the three fields of a request line.
pub fn has_request_line_fields(line: &str) -> (r: bool)
    ensures
        r == request_line_fields(line@) is Some,
{
    proof {
        reveal_strlit(" ");
    }
    let sp = " ";
    assert(sp@ =~= seq![' ']);
    match split_once(line, sp) {
        Some((_, rest)) => split_once(rest.as_str(), sp).is_some(),
        None => false,
    }
}

// ---------------------------------------------------------------------------
// Answering a request
// ---------------------------------------------------------------------------

/// The answer to a request whose credentials do not pass.
pub open spec fn auth_required_response() -> Seq<char> {
    "HTTP/1.1 407 Proxy Authentication Required\r\nProxy-Authenticate: Basic realm=\"QUIC Proxy\"\r\n\r\n"@
}

/// The answer to a `CONNECT` request once the tunnel is open.
pub open spec fn connection_established_response() -> Seq<char> {
    "HTTP/1.1 200 Connection Established\r\n\r\n"@
}

/// The method that asks for a tunnel.
pub open spec fn connect_method() -> Seq<char> {
    seq!['C', 'O', 'N', 'N', 'E', 'C', 'T']
}

/// The port of plain HTTP, used where the URI names none.
pub open spec fn default_http_port() -> nat {
    80
}

/// Writes the answer to a request whose credentials do not pass.
pub fn auth_required() -> (r: String)
    ensures
        r@ == auth_required_response(),
{
    "HTTP/1.1 407 Proxy Authentication Required\r\nProxy-Authenticate: Basic realm=\"QUIC Proxy\"\r\n\r\n".to_owned()
}

/// Writes the answer to a `CONNECT` request once the tunnel is open.
pub fn connection_established() -> (r: String)
    ensures
        r@ == connection_established_response(),
{
    "HTTP/1.1 200 Connection Established\r\n\r\n".to_owned()
}

/// Why a request that is not `CONNECT` cannot be forwarded.
#[derive(Debug, Clone, Copy, PartialEq, Eq, Structural)]
pub enum ForwardError {
    /// The URI does not parse as a URL: the handler returns this error.
    InvalidUri,
    /// The URL has no host: the proxy does not handle such a request, and the
    /// task that serves the connection aborts.
    MissingHost,
}

/// The request line sent upstream: the method, the path (with query and
/// fragment) of the URI, and the version.
pub open spec fn upstream_request_line(method: Seq<char>, from_path: Seq<char>, version: Seq<char>) -> Seq<char> {
    method + seq![' '] + from_path + seq![' '] + version + crlf()
}

/// Where a plain HTTP request goes and what is sent there first, given what
/// the URL parser made of its URI: the address `host:port` (port 80 where the
/// URI gives none) and the head, whose headers are those of the request.
pub open spec fn forward_of(
    request: RequestView,
    url: Option<(Seq<char>, Option<Seq<char>>, Option<u16>, Seq<char>)>,
) -> Result<(Seq<char>, Seq<char>), ForwardError> {
    match url {
        None => Err(ForwardError::InvalidUri),
        Some((_, host, port, from_path)) => match host {
            None => Err(ForwardError::MissingHost),
            Some(h) => Ok(
                (
                    h + seq![':'] + decimal(
                        match port {
                            Some(p) => p as nat,
                            None => default_http_port(),
                        },
                    ),
                    upstream_request_line(request.request_line.0, from_path, request.request_line.2)
                        + headers_block(request.headers),
                ),
            ),
        },
    }
}

/// The view of a forwarding result.
pub open spec fn forward_view(r: Result<(String, String), ForwardError>) -> Result<(Seq<char>, Seq<char>), ForwardError> {
    match r {
        Ok((a, b)) => Ok((a@, b@)),
        Err(e) => Err(e),
    }
}

/// Where a plain HTTP request goes and what is sent there first, from the
/// parsed URI (`None` where it did not parse).
pub fn forward_request(request: &HttpRequest, url: Option<UrlParts>) -> (r: Result<(String, String), ForwardError>)
    ensures
        forward_view(r) == forward_of(request@, match url {
            Some(u) => Some(u@),
            None => None,
        }),
{
    match url {
        None => Err(ForwardError::InvalidUri),
        Some(u) => match u.host {
            None => Err(ForwardError::MissingHost),
            Some(host) => {
                proof {
                    reveal_strlit(":");
                    reveal_strlit(" ");
                    reveal_strlit("\r\n");
                }
                let colon = ":";
                let space = " ";
                let line_break = "\r\n";
                assert(colon@ =~= seq![':']);
                assert(space@ =~= seq![' ']);
                assert(line_break@ =~= crlf());
                let port: u16 = match u.port {
                    Some(p) => p,
                    None => 80,
                };
                let mut target = host;
                target.append(colon);
                append_decimal(&mut target, port);
                let mut head = String::new();
                head.append(request.request_line.method.as_str());
                head.append(space);
                head.append(u.from_path.as_str());
                head.append(space);
                head.append(request.request_line.version.as_str());
                head.append(line_break);
                let headers = serialize_headers(&request.headers);
                head.append(headers.as_str());
                assert(head@ =~= upstream_request_line(request@.request_line.0, u@.3, request@.request_line.2)
                    + headers_block(request@.headers));
                Ok((target, head))
            },
        },
    }
}

/// What the proxy does with a request.
pub enum ProxyAction {
    /// Answer with `response`; nothing else is done.
    Reject { response: String },
    /// Connect to `target`, answer the client with `reply`, then relay the
    /// bytes both ways.
    Tunnel { target: String, reply: String },
    /// Connect to `target`, send `head` there, then relay the bytes both ways.
    Forward { target: String, head: String },
}

/// The view of a `ProxyAction`.
pub enum ActionView {
    Reject { response: Seq<char> },
    Tunnel { target: Seq<char>, reply: Seq<char> },
    Forward { target: Seq<char>, head: Seq<char> },
}

/// The view of the result of planning.
pub open spec fn action_view(r: Result<ProxyAction, ForwardError>) -> Result<ActionView, ForwardError> {
    match r {
        Ok(ProxyAction::Reject { response }) => Ok(ActionView::Reject { response: response@ }),
        Ok(ProxyAction::Tunnel { target, reply }) => Ok(ActionView::Tunnel { target: target@, reply: reply@ }),
        Ok(ProxyAction::Forward { target, head }) => Ok(ActionView::Forward { target: target@, head: head@ }),
        Err(e) => Err(e),
    }
}

/// What a proxy with credentials `config` does with `request`: a request
/// whose credentials do not pass is answered 407; a `CONNECT` request is
/// tunnelled to its URI; any other is forwarded to the host of its URI.
pub open spec fn plan_spec(config: Option<(Seq<char>, Seq<char>)>, request: RequestView) -> Result<ActionView, ForwardError> {
    if !authenticated(config, request.auth) {
        Ok(ActionView::Reject { response: auth_required_response() })
    } else if request.request_line.0 == connect_method() {
        Ok(ActionView::Tunnel { target: request.request_line.1, reply: connection_established_response() })
    } else {
        match forward_of(request, parsed_url(request.request_line.1)) {
            Ok((target, head)) => Ok(ActionView::Forward { target, head }),
            Err(e) => Err(e),
        }
    }
}

impl HttpProxy {
    /// Decides what to do with a request that has been read.
    pub fn plan(&self, request: &HttpRequest) -> (r: Result<ProxyAction, ForwardError>)
        ensures
            action_view(r) == plan_spec(self@, request@),
    {
        if !authenticate(self.auth_config(), request) {
            return Ok(ProxyAction::Reject { response: auth_required() });
        }
        proof {
            reveal_strlit("CONNECT");
        }
        let connect = "CONNECT";
        assert(connect@ =~= connect_method());
        if str_eq(request.request_line.method.as_str(), connect) {
            let target = request.request_line.uri.as_str().to_owned();
            Ok(ProxyAction::Tunnel { target, reply: connection_established() })
        } else {
            let url = parse_url(request.request_line.uri.as_str());
            match forward_request(request, url) {
                Ok((target, head)) => Ok(ProxyAction::Forward { target, head }),
                Err(e) => Err(e),
            }
        }
    }
}

// ---------------------------------------------------------------------------
// Laws of reading and forwarding a request head
// ---------------------------------------------------------------------------

/// Reading `lines` one after another from `st`, up to the first step that
/// does not continue.
pub open spec fn feed_lines(st: ParserView, lines: Seq<Seq<char>>) -> Result<StepView, HeadError>
    decreases lines.len(),
{
    if lines.len() == 0 {
        Ok(StepView::Continue(st))
    } else {
        match feed_lines(st, lines.drop_last()) {
            Ok(StepView::Continue(next)) => feed_spec(next, Some(lines.last())),
            other => other,
        }
    }
}

/// `line` is a `Proxy-Authorization` header line.
pub open spec fn is_authorization_line(line: Seq<char>) -> bool {
    match split_once_spec(line, colon_space()) {
        Some((name, _)) => is_proxy_authorization(name),
        None => false,
    }
}

/// A header line that the reader takes in: not empty, with a name and a
/// value, and with credentials that decode where it is `Proxy-Authorization`.
pub open spec fn accepted_header_line(line: Seq<char>) -> bool {
    line.len() > 0 && match split_once_spec(line, colon_space()) {
        Some((name, value)) => is_proxy_authorization(name) ==> credentials_of(value) is Ok,
        None => false,
    }
}

/// The header lines that are passed on: all but the `Proxy-Authorization` ones.
pub open spec fn forwarded_lines(lines: Seq<Seq<char>>) -> Seq<Seq<char>>
    decreases lines.len(),
{
    if lines.len() == 0 {
        Seq::empty()
    } else if is_authorization_line(lines.last()) {
        forwarded_lines(lines.drop_last())
    } else {
        forwarded_lines(lines.drop_last()).push(lines.last())
    }
}

/// The credentials of the last `Proxy-Authorization` line among `lines`.
pub open spec fn last_credentials(lines: Seq<Seq<char>>) -> Option<(Seq<char>, Seq<char>)>
    decreases lines.len(),
{
    if lines.len() == 0 {
        None
    } else if is_authorization_line(lines.last()) {
        match split_once_spec(lines.last(), colon_space()) {
            Some((_, value)) => match credentials_of(value) {
                Ok(c) => Some(c),
                Err(_) => None,
            },
            None => None,
        }
    } else {
        last_credentials(lines.drop_last())
    }
}

/// The name and value of a header line: the text before and after its first
/// `": "`.
pub open spec fn split_header(line: Seq<char>) -> (Seq<char>, Seq<char>) {
    match split_once_spec(line, colon_space()) {
        Some(h) => h,
        None => (line, Seq::empty()),
    }
}

/// The headers that are passed on: the name and value of every header line
/// but the `Proxy-Authorization` ones, in order.
pub open spec fn forwarded_headers(lines: Seq<Seq<char>>) -> Seq<(Seq<char>, Seq<char>)> {
    forwarded_lines(lines).map_values(|l: Seq<char>| split_header(l))
}

/// The header lines of a list of headers.
pub open spec fn lines_of(h: Seq<(Seq<char>, Seq<char>)>) -> Seq<Seq<char>> {
    h.map_values(|p: (Seq<char>, Seq<char>)| header_line(p))
}

/// Reading a line first and then `lines` is reading `[line] + lines`.
pub proof fn lemma_feed_lines_cons(st: ParserView, line: Seq<char>, lines: Seq<Seq<char>>)
    ensures
        feed_lines(st, seq![line] + lines) == match feed_spec(st, Some(line)) {
            Ok(StepView::Continue(next)) => feed_lines(next, lines),
            other => other,
        },
    decreases lines.len(),
{
    let all = seq![line] + lines;
    if lines.len() == 0 {
        assert(all.drop_last() =~= Seq::<Seq<char>>::empty());
        assert(feed_lines(st, all.drop_last()) == Ok::<StepView, HeadError>(StepView::Continue(st)));
        assert(all.last() == line);
        match feed_spec(st, Some(line)) {
            Ok(StepView::Continue(next)) => {
                assert(feed_lines(next, lines) == Ok::<StepView, HeadError>(StepView::Continue(next)));
            },
            _ => {},
        }
    } else {
        lemma_feed_lines_cons(st, line, lines.drop_last());
        assert(all.drop_last() =~= seq![line] + lines.drop_last());
        assert(all.last() == lines.last());
        match feed_spec(st, Some(line)) {
            Ok(StepView::Continue(next)) => {
                assert(feed_lines(st, all) == match feed_lines(next, lines.drop_last()) {
                    Ok(StepView::Continue(n2)) => feed_spec(n2, Some(lines.last())),
                    other => other,
                });
            },
            _ => {},
        }
    }
}

/// After the request line, accepted header lines keep the request line, add
/// every line but the `Proxy-Authorization` ones to the headers, and take the
/// credentials of the last `Proxy-Authorization` line.
pub proof fn lemma_feed_header_lines(st: ParserView, lines: Seq<Seq<char>>)
    requires
        st.request_line is Some,
        forall|i: int| 0 <= i < lines.len() ==> accepted_header_line(#[trigger] lines[i]),
    ensures
        feed_lines(st, lines) matches Ok(StepView::Continue(next)) && {
            &&& next.request_line == st.request_line
            &&& lines_of(next.headers) == lines_of(st.headers) + forwarded_lines(lines)
            &&& next.headers == st.headers + forwarded_headers(lines)
            &&& next.auth == match last_credentials(lines) {
                Some(c) => Some(c),
                None => st.auth,
            }
        },
    decreases lines.len(),
{
    if lines.len() == 0 {
        assert(lines_of(st.headers) + forwarded_lines(lines) =~= lines_of(st.headers));
        assert(st.headers + forwarded_headers(lines) =~= st.headers);
    } else {
        let prefix = lines.drop_last();
        let l = lines.last();
        assert forall|i: int| 0 <= i < prefix.len() implies accepted_header_line(#[trigger] prefix[i]) by {
            assert(prefix[i] == lines[i]);
        }
        lemma_feed_header_lines(st, prefix);
        let next = feed_lines(st, prefix)->Ok_0->Continue_0;
        assert(accepted_header_line(lines[lines.len() - 1]));
        lemma_split_once_rejoin(l, colon_space());
        let (name, value) = split_once_spec(l, colon_space())->0;
        if is_proxy_authorization(name) {
            assert(is_authorization_line(l));
            assert(forwarded_headers(lines) =~= forwarded_headers(prefix));
        } else {
            assert(!is_authorization_line(l));
            let after = next.headers.push((name, value));
            assert(lines_of(after) =~= lines_of(next.headers).push(header_line((name, value))));
            assert(lines_of(st.headers) + forwarded_lines(lines) =~= (lines_of(st.headers) + forwarded_lines(
                prefix,
            )).push(l));
            assert(split_header(l) == (name, value));
            assert(forwarded_headers(lines) =~= forwarded_headers(prefix).push((name, value)));
            assert(st.headers + forwarded_headers(lines) =~= (st.headers + forwarded_headers(prefix)).push(
                (name, value),
            ));
        }
    }
}

/// The head that the proxy reads and passes on keeps the client's header
/// lines: reading a request line and accepted header lines, then the empty
/// line (or the end of the stream), completes the head with a request that
/// has that request line and the credentials of the last
/// `Proxy-Authorization` line, whose headers are the name and value, split at
/// the first `": "`, of each other header line in order, and whose header
/// block is those lines, each ended by CRLF, then CRLF.
pub proof fn forwarded_head_keeps_client_headers(request_line: Seq<char>, lines: Seq<Seq<char>>)
    requires
        request_line_fields(request_line) is Some,
        forall|i: int| 0 <= i < lines.len() ==> accepted_header_line(#[trigger] lines[i]),
    ensures
        feed_lines(initial_parser(), seq![request_line] + lines) matches Ok(StepView::Continue(st)) && {
            &&& feed_spec(st, None) == feed_spec(st, Some(Seq::empty()))
            &&& feed_spec(st, None) matches Ok(StepView::Complete(request)) && {
                &&& Some(request.request_line) == request_line_fields(request_line)
                &&& request.auth == last_credentials(lines)
                &&& request.headers == forwarded_headers(lines)
                &&& lines_of(request.headers) == forwarded_lines(lines)
                &&& headers_block(request.headers) == join_lines(forwarded_lines(lines)) + crlf() + crlf()
            }
        },
{
    let st0 = initial_parser();
    lemma_feed_lines_cons(st0, request_line, lines);
    let st1 = feed_spec(st0, Some(request_line))->Ok_0->Continue_0;
    lemma_feed_header_lines(st1, lines);
    assert(lines_of(st1.headers) =~= Seq::<Seq<char>>::empty());
    let st = feed_lines(st1, lines)->Ok_0->Continue_0;
    assert(lines_of(st.headers) =~= forwarded_lines(lines));
}

/// A request line made of three fields without spaces reads back as those
/// fields.
pub proof fn request_line_round_trip(method: Seq<char>, uri: Seq<char>, version: Seq<char>)
    requires
        !method.contains(' '),
        !uri.contains(' '),
        !version.contains(' '),
    ensures
        request_line_fields(method + seq![' '] + uri + seq![' '] + version) == Some((method, uri, version)),
{
    let rest = uri + seq![' '] + version;
    assert(method + seq![' '] + uri + seq![' '] + version =~= method + seq![' '] + rest);
    lemma_split_once_char(method, ' ', rest);
    lemma_split_once_char(uri, ' ', version);
    lemma_no_occurrence(version, ' ');
}

/// Text without `c` does not split at `c`.
pub proof fn lemma_no_occurrence(s: Seq<char>, c: char)
    requires
        !s.contains(c),
    ensures
        split_once_spec(s, seq![c]) is None,
{
    if exists|i: int| crate::text::first_occurrence(s, seq![c], i) {
        let i = choose|i: int| crate::text::first_occurrence(s, seq![c], i);
        assert(s.subrange(i, i + 1)[0] == s[i]);
    }
}

/// A proxy answers 407 exactly to the requests whose credentials do not
/// pass; with no credentials configured it answers none of them so.
pub proof fn rejected_iff_not_authenticated(config: Option<(Seq<char>, Seq<char>)>, request: RequestView)
    ensures
        (plan_spec(config, request) matches Ok(ActionView::Reject { response }) && response
            == auth_required_response()) <==> !authenticated(config, request.auth),
        config is None ==> !(plan_spec(config, request) matches Ok(ActionView::Reject { .. })),
{
}

/// Credentials that a client writes as `username:password`, with no `:` in
/// the username, read back as that username and password once the base64 is
/// undone.
pub proof fn credentials_round_trip(username: Seq<char>, password: Seq<char>)
    requires
        !username.contains(':'),
    ensures
        credentials_from_bytes(encode_utf8(username + seq![':'] + password)) == Ok::<
            (Seq<char>, Seq<char>),
            HeadError,
        >((username, password)),
{
    let text = username + seq![':'] + password;
    vstd::utf8::encode_utf8_valid_utf8(text);
    vstd::utf8::encode_utf8_decode_utf8(text);
    lemma_split_once_char(username, ':', password);
}

/// A header name is taken for proxy credentials exactly when it is
/// `proxy-authorization` up to the case of ASCII letters: nineteen characters,
/// each equal, once an ASCII capital is lowered, to the letter of
/// `proxy-authorization` at its place. Any other name, `Authorization` among
/// them, is an ordinary header.
pub proof fn proxy_authorization_names(name: Seq<char>)
    ensures
        is_proxy_authorization(name) <==> (name.len() == 19 && forall|i: int|
            0 <= i < 19 ==> {
                let c = #[trigger] name[i];
                let lowered: u32 = if 'A' <= c && c <= 'Z' {
                    (c as u32 + 32) as u32
                } else {
                    c as u32
                };
                lowered == seq![
                    'p', 'r', 'o', 'x', 'y', '-', 'a', 'u', 't', 'h', 'o', 'r', 'i', 'z', 'a', 't', 'i', 'o', 'n'
                ][i] as u32
            }),
        !is_proxy_authorization(seq!['A', 'u', 't', 'h', 'o', 'r', 'i', 'z', 'a', 't', 'i', 'o', 'n']),
{
    assert(proxy_authorization_name() =~= seq![
        'p', 'r', 'o', 'x', 'y', '-', 'a', 'u', 't', 'h', 'o', 'r', 'i', 'z', 'a', 't', 'i', 'o', 'n'
    ]);
}

/// After the request line, a header line whose name is not
/// `Proxy-Authorization` is kept, split at its first `": "`, after the headers
/// read before it, and the credentials stay as they were.
pub proof fn other_headers_are_kept(st: ParserView, line: Seq<char>)
    requires
        st.request_line is Some,
        line.len() > 0,
        split_once_spec(line, seq![':', ' ']) matches Some((name, _)) && !is_proxy_authorization(name),
    ensures
        feed_spec(st, Some(line)) matches Ok(StepView::Continue(next)) && {
            &&& next.request_line == st.request_line
            &&& next.auth == st.auth
            &&& next.headers.len() == st.headers.len() + 1
            &&& next.headers.take(st.headers.len() as int) == st.headers
            &&& next.headers.last().0 + seq![':', ' '] + next.headers.last().1 == line
        },
{
    assert(colon_space() =~= seq![':', ' ']);
    lemma_split_once_rejoin(line, seq![':', ' ']);
    let next = feed_spec(st, Some(line))->Ok_0->Continue_0;
    assert(next.headers.take(st.headers.len() as int) =~= st.headers);
}

/// A proxy with credentials `(username, password)` lets a request pass
/// exactly when the request carries that same username and that same
/// password; a request without credentials does not pass; with no
/// credentials configured every request passes.
pub proof fn authentication_needs_both(
    username: Seq<char>,
    password: Seq<char>,
    given: Option<(Seq<char>, Seq<char>)>,
)
    ensures
        authenticated(Some((username, password)), given) <==> (given matches Some((u, p)) && u == username
            && p == password),
        authenticated(None, given),
{
}

/// A plain request is forwarded, whatever port its URL gives, to
/// `host:port` (port 80 where none is given) with the head: method, space,
/// the URL from its path on, space, version, CRLF, then the header block of
/// all the request's own headers.
pub proof fn forwarded_head_carries_request_headers(
    request: RequestView,
    scheme: Seq<char>,
    host: Seq<char>,
    port: Option<u16>,
    from_path: Seq<char>,
)
    ensures
        forward_of(request, Some((scheme, Some(host), port, from_path))) == Ok::<
            (Seq<char>, Seq<char>),
            ForwardError,
        >(
            (
                host + seq![':'] + decimal(
                    match port {
                        Some(p) => p as nat,
                        None => 80,
                    },
                ),
                request.request_line.0 + seq![' '] + from_path + seq![' '] + request.request_line.2 + seq![
                    '\r',
                    '\n',
                ] + headers_block(request.headers),
            ),
        ),
        forward_of(request, Some((scheme, None, port, from_path))) == Err::<(Seq<char>, Seq<char>), ForwardError>(
            ForwardError::MissingHost,
        ),
        forward_of(request, None) == Err::<(Seq<char>, Seq<char>), ForwardError>(ForwardError::InvalidUri),
{
}

/// `[x] + lines` joined with CRLF is `x`, CRLF, then `lines` joined, when
/// `lines` is not empty.
pub proof fn lemma_join_lines_cons(x: Seq<char>, lines: Seq<Seq<char>>)
    requires
        lines.len() > 0,
    ensures
        join_lines(seq![x] + lines) == x + crlf() + join_lines(lines),
    decreases lines.len(),
{
    let all = seq![x] + lines;
    assert(all.drop_last() =~= seq![x] + lines.drop_last());
    assert(all.last() == lines.last());
    if lines.len() == 1 {
        assert(seq![x].drop_last() =~= Seq::<Seq<char>>::empty());
        assert(join_lines(seq![x]) == x);
        assert(join_lines(all) == x + crlf() + lines[0]);
    } else {
        lemma_join_lines_cons(x, lines.drop_last());
        assert(join_lines(all) == join_lines(seq![x] + lines.drop_last()) + crlf() + lines.last());
        assert(join_lines(all) =~= x + crlf() + join_lines(lines));
    }
}

/// The header block holds every header, however many: with no headers it is
/// CRLF CRLF; one header gives `name: value` CRLF CRLF; and a header put in
/// front of a non-empty list adds its line `name: value` CRLF in front of the
/// list's block. So each header of a list stands in its block, in order, and
/// none is left out.
pub proof fn header_block_holds_every_header(x: (Seq<char>, Seq<char>), h: Seq<(Seq<char>, Seq<char>)>)
    ensures
        headers_block(Seq::empty()) == seq!['\r', '\n', '\r', '\n'],
        headers_block(seq![x]) == x.0 + seq![':', ' '] + x.1 + seq!['\r', '\n', '\r', '\n'],
        h.len() > 0 ==> headers_block(seq![x] + h) == x.0 + seq![':', ' '] + x.1 + seq!['\r', '\n']
            + headers_block(h),
{
    let empty: Seq<(Seq<char>, Seq<char>)> = Seq::empty();
    assert(lines_of(empty) =~= Seq::<Seq<char>>::empty());
    assert(headers_block(empty) =~= seq!['\r', '\n', '\r', '\n']);
    assert(lines_of(seq![x]) =~= seq![header_line(x)]);
    assert(headers_block(seq![x]) =~= x.0 + seq![':', ' '] + x.1 + seq!['\r', '\n', '\r', '\n']);
    if h.len() > 0 {
        assert(lines_of(seq![x] + h) =~= seq![header_line(x)] + lines_of(h));
        lemma_join_lines_cons(header_line(x), lines_of(h));
        assert(headers_block(seq![x] + h) =~= x.0 + seq![':', ' '] + x.1 + seq!['\r', '\n'] + headers_block(
            h,
        ));
    }
}

/// What a proxy does with a request whose credentials pass: a `CONNECT`
/// request is tunnelled to its URI, answered `HTTP/1.1 200 Connection
/// Established` and an empty line; any other request is forwarded as its URI
/// says. A request whose credentials do not pass is answered with the 407
/// text, asking for Basic credentials.
pub proof fn plan_answers(config: Option<(Seq<char>, Seq<char>)>, request: RequestView)
    ensures
        !authenticated(config, request.auth) ==> plan_spec(config, request) == Ok::<ActionView, ForwardError>(
            ActionView::Reject {
                response:
                    "HTTP/1.1 407 Proxy Authentication Required\r\nProxy-Authenticate: Basic realm=\"QUIC Proxy\"\r\n\r\n"@,
            },
        ),
        authenticated(config, request.auth) && request.request_line.0 == seq!['C', 'O', 'N', 'N', 'E', 'C', 'T']
            ==> plan_spec(config, request) == Ok::<ActionView, ForwardError>(
            ActionView::Tunnel {
                target: request.request_line.1,
                reply: "HTTP/1.1 200 Connection Established\r\n\r\n"@,
            },
        ),
        authenticated(config, request.auth) && request.request_line.0 != seq!['C', 'O', 'N', 'N', 'E', 'C', 'T']
            ==> plan_spec(config, request) == match forward_of(request, parsed_url(request.request_line.1)) {
            Ok((target, head)) => Ok::<ActionView, ForwardError>(ActionView::Forward { target, head }),
            Err(e) => Err(e),
        },
{
}

/// A line with fewer than two spaces is no request line.
pub proof fn short_lines_are_not_request_lines(a: Seq<char>, b: Seq<char>)
    requires
        !a.contains(' '),
        !b.contains(' '),
    ensures
        request_line_fields(a) is None,
        request_line_fields(a + seq![' '] + b) is None,
{
    lemma_no_occurrence(a, ' ');
    lemma_split_once_char(a, ' ', b);
    lemma_no_occurrence(b, ' ');
}

/// Decoded credentials that are not UTF-8 are refused as such; UTF-8 text
/// without a `:` is malformed; otherwise the username is the text before the
/// first `:` and the password the rest.
pub proof fn credentials_from_text(bytes: Seq<u8>)
    ensures
        !valid_utf8(bytes) ==> credentials_from_bytes(bytes) == Err::<(Seq<char>, Seq<char>), HeadError>(
            HeadError::InvalidUtf8,
        ),
        valid_utf8(bytes) && !decode_utf8(bytes).contains(':') ==> credentials_from_bytes(bytes) == Err::<
            (Seq<char>, Seq<char>),
            HeadError,
        >(HeadError::MalformedCredentials),
        valid_utf8(bytes) && decode_utf8(bytes).contains(':') ==> (credentials_from_bytes(bytes) matches Ok((u, p))
            && !u.contains(':') && u + seq![':'] + p == decode_utf8(bytes)),
{
    if valid_utf8(bytes) {
        let text = decode_utf8(bytes);
        if !text.contains(':') {
            lemma_no_occurrence(text, ':');
        } else {
            let i = choose|i: int| 0 <= i < text.len() && text[i] == ':';
            assert(crate::text::occurs_at(text, seq![':'], i)) by {
                assert(text.subrange(i, i + 1) =~= seq![':']);
            }
            crate::text::lemma_some_first_occurrence(text, seq![':'], i);
            lemma_split_once_rejoin(text, seq![':']);
            let k = choose|k: int| crate::text::first_occurrence(text, seq![':'], k);
            let u = text.take(k);
            assert forall|j: int| 0 <= j < u.len() implies u[j] != ':' by {
                assert(!crate::text::occurs_at(text, seq![':'], j));
                if u[j] == ':' {
                    assert(text.subrange(j, j + 1) =~= seq![':']);
                }
            }
        }
    }
}

/// A `Proxy-Authorization` value is read as a scheme, a space, and the
/// URL-safe base64 of the credentials: with no space in the scheme, the
/// credentials are what the token decodes to; a value without a space is
/// malformed.
pub proof fn credentials_follow_the_scheme(scheme: Seq<char>, token: Seq<char>)
    requires
        !scheme.contains(' '),
    ensures
        credentials_of(scheme) == Err::<(Seq<char>, Seq<char>), HeadError>(HeadError::MalformedAuthorization),
        credentials_of(scheme + seq![' '] + token) == match url_safe_base64_decoded(encode_utf8(token)) {
            None => Err::<(Seq<char>, Seq<char>), HeadError>(HeadError::InvalidBase64),
            Some(bytes) => credentials_from_bytes(bytes),
        },
{
    lemma_no_occurrence(scheme, ' ');
    lemma_split_once_char(scheme, ' ', token);
}

} // verus!
