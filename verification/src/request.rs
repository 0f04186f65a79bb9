//! The request parser: reads a byte source incrementally until the
//! CRLFCRLF header boundary, validates the request line, builds the header
//! map and a length-bounded body stream.

use vstd::prelude::*;

verus! {

use vstd::utf8::valid_utf8;
use vstd::utf8::decode_utf8;
use vstd::utf8::encode_utf8;
use vstd::utf8::encode_utf8_valid_utf8;
use vstd::utf8::encode_utf8_decode_utf8;
use vstd::string::StringSliceAdditionalSpecFns;
use vstd::string::StrSliceExecFns;
use vstd::string::StringExecFns;
use crate::header::Headers;
use crate::header::spec_headers;
use crate::header::spec_content_length;
use crate::query_string::QueryString;
use crate::query_string::spec_query;
use crate::stream::ByteSource;
use crate::stream::ReadFault;
use crate::strutil::find_byte_from;
use crate::strutil::find_byte;
use crate::strutil::lemma_find_byte_from;
use crate::strutil::lemma_utf8_split_at;
use crate::strutil::subvec;
use crate::strutil::utf8_to_string;
use crate::strutil::str_eq;
use crate::url::URL;

/// Bytes asked of the source per read.
pub const READ_BUFFER_SIZE: usize = 1024;

/// Hard ceiling on the bytes read while searching for the header boundary.
pub const READ_LIMIT: usize = 32 * 1024;

/// Why a request could not be parsed.
#[derive(Debug, Clone, Copy, PartialEq, Eq, Structural)]
pub enum ParseError {
    /// The underlying read failed.
    ReadError,
    /// The request line is malformed, or a body-carrying request has no
    /// usable `content-length`.
    InvalidRequest,
    /// The method token is not a known verb.
    InvalidMethod,
    /// The protocol token is not `HTTP/1.1`.
    InvalidProtocol,
    /// The header block is not UTF-8.
    InvalidEncoding,
    /// The source ended before the header boundary appeared.
    MissingBody,
    /// The header block exceeded the ceiling without a boundary.
    RequestTooBig,
}

impl ParseError {
    /// The fixed description of the error.
    pub open spec fn spec_message(self) -> Seq<char> {
        match self {
            ParseError::ReadError => "failed to read request"@,
            ParseError::InvalidRequest => "invalid request"@,
            ParseError::InvalidMethod => "invalid HTTP method"@,
            ParseError::InvalidProtocol => "invalid HTTP protocol"@,
            ParseError::InvalidEncoding => "invalid encoding"@,
            ParseError::MissingBody => "missing request body"@,
            ParseError::RequestTooBig => "request too big"@,
        }
    }

    /// The fixed description of the error.
    pub fn message(&self) -> (r: &'static str)
        ensures
            r@ == self.spec_message(),
    {
        match self {
            ParseError::ReadError => "failed to read request",
            ParseError::InvalidRequest => "invalid request",
            ParseError::InvalidMethod => "invalid HTTP method",
            ParseError::InvalidProtocol => "invalid HTTP protocol",
            ParseError::InvalidEncoding => "invalid encoding",
            ParseError::MissingBody => "missing request body",
            ParseError::RequestTooBig => "request too big",
        }
    }
}

/// The request methods the server knows.
#[derive(Debug, Clone, Copy, PartialEq, Eq, Structural)]
pub enum Method {
    GET,
    POST,
    PUT,
    HEAD,
    DELETE,
    OPTIONS,
    CONNECT,
    TRACE,
    PATCH,
}

/// The method token is not a known verb.
#[derive(Debug, Clone, Copy, PartialEq, Eq, Structural)]
pub struct InvalidMethod;

/// The method named by an upper-case token, if any.
pub open spec fn spec_method_of(s: Seq<char>) -> Option<Method> {
    if s == "GET"@ {
        Some(Method::GET)
    } else if s == "POST"@ {
        Some(Method::POST)
    } else if s == "PUT"@ {
        Some(Method::PUT)
    } else if s == "HEAD"@ {
        Some(Method::HEAD)
    } else if s == "DELETE"@ {
        Some(Method::DELETE)
    } else if s == "OPTIONS"@ {
        Some(Method::OPTIONS)
    } else if s == "CONNECT"@ {
        Some(Method::CONNECT)
    } else if s == "TRACE"@ {
        Some(Method::TRACE)
    } else if s == "PATCH"@ {
        Some(Method::PATCH)
    } else {
        None
    }
}

impl Method {
    /// The token of the method.
    pub open spec fn spec_name(self) -> Seq<char> {
        match self {
            Method::GET => "GET"@,
            Method::POST => "POST"@,
            Method::PUT => "PUT"@,
            Method::HEAD => "HEAD"@,
            Method::DELETE => "DELETE"@,
            Method::OPTIONS => "OPTIONS"@,
            Method::CONNECT => "CONNECT"@,
            Method::TRACE => "TRACE"@,
            Method::PATCH => "PATCH"@,
        }
    }

    /// The token of the method.
    pub fn as_str(&self) -> (r: &'static str)
        ensures
            r@ == self.spec_name(),
    {
        match self {
            Method::GET => "GET",
            Method::POST => "POST",
            Method::PUT => "PUT",
            Method::HEAD => "HEAD",
            Method::DELETE => "DELETE",
            Method::OPTIONS => "OPTIONS",
            Method::CONNECT => "CONNECT",
            Method::TRACE => "TRACE",
            Method::PATCH => "PATCH",
        }
    }

    /// Parses an upper-case method token.
    pub fn from_str(s: &str) -> (r: Result<Method, InvalidMethod>)
        ensures
            match spec_method_of(s@) {
                Some(m) => r == Ok::<Method, InvalidMethod>(m),
                None => r == Err::<Method, InvalidMethod>(InvalidMethod),
            },
    {
        if str_eq(s, "GET") {
            Ok(Method::GET)
        } else if str_eq(s, "POST") {
            Ok(Method::POST)
        } else if str_eq(s, "PUT") {
            Ok(Method::PUT)
        } else if str_eq(s, "HEAD") {
            Ok(Method::HEAD)
        } else if str_eq(s, "DELETE") {
            Ok(Method::DELETE)
        } else if str_eq(s, "OPTIONS") {
            Ok(Method::OPTIONS)
        } else if str_eq(s, "CONNECT") {
            Ok(Method::CONNECT)
        } else if str_eq(s, "TRACE") {
            Ok(Method::TRACE)
        } else if str_eq(s, "PATCH") {
            Ok(Method::PATCH)
        } else {
            Err(InvalidMethod)
        }
    }

    /// True of the methods that conventionally carry a body.
    pub open spec fn spec_carries_body(self) -> bool {
        self == Method::POST || self == Method::PUT || self == Method::PATCH
    }

    /// True of the methods that conventionally carry a body.
    pub fn carries_body(&self) -> (r: bool)
        ensures
            r == self.spec_carries_body(),
    {
        match self {
            Method::POST => true,
            Method::PUT => true,
            Method::PATCH => true,
            _ => false,
        }
    }
}

/// True when the four-byte header boundary CRLFCRLF sits at `i`.
pub open spec fn delim_at(b: Seq<u8>, i: int) -> bool {
    &&& 0 <= i
    &&& i + 4 <= b.len()
    &&& b[i] == 13
    &&& b[i + 1] == 10
    &&& b[i + 2] == 13
    &&& b[i + 3] == 10
}

/// Index of the first header boundary at or after `i`.
pub open spec fn find_delim_from(b: Seq<u8>, i: int) -> Option<int>
    decreases b.len() - i,
    when 0 <= i <= b.len()
{
    if i + 4 > b.len() {
        None
    } else if delim_at(b, i) {
        Some(i)
    } else {
        find_delim_from(b, i + 1)
    }
}

pub proof fn lemma_find_delim_from(b: Seq<u8>, i: int)
    requires
        0 <= i <= b.len(),
    ensures
        match find_delim_from(b, i) {
            Some(j) => i <= j && delim_at(b, j) && (forall|k: int| i <= k < j ==> !delim_at(b, k)),
            None => forall|k: int| i <= k ==> !delim_at(b, k),
        },
    decreases b.len() - i,
{
    if i + 4 <= b.len() && !delim_at(b, i) {
        lemma_find_delim_from(b, i + 1);
    }
}

/// The first position of the boundary, from its characterization.
pub proof fn lemma_find_delim_inverse(b: Seq<u8>, j: int)
    requires
        delim_at(b, j),
        forall|k: int| 0 <= k < j ==> !delim_at(b, k),
    ensures
        find_delim_from(b, 0) == Some(j),
{
    lemma_find_delim_from(b, 0);
    if find_delim_from(b, 0) is None {
        assert(!delim_at(b, j));
    } else {
        let j2 = find_delim_from(b, 0)->Some_0;
        if j2 < j {
            assert(!delim_at(b, j2));
        } else if j < j2 {
            assert(!delim_at(b, j));
        }
    }
}

/// A boundary inside a prefix is a boundary of the whole, and conversely.
pub proof fn lemma_delim_prefix(b: Seq<u8>, n: int, i: int)
    requires
        0 <= n <= b.len(),
        i + 4 <= n,
    ensures
        delim_at(b.take(n), i) == delim_at(b, i),
{
}

/// First header boundary in `b`, scanning from the front.
fn find_body_delimiter(b: &Vec<u8>) -> (r: Option<usize>)
    ensures
        match r {
            Some(j) => j + 4 <= b@.len() && delim_at(b@, j as int) && (forall|k: int|
                0 <= k < j ==> !delim_at(b@, k)),
            None => forall|k: int| !delim_at(b@, k),
        },
{
    let n = b.len();
    if n < 4 {
        return None;
    }
    let mut i: usize = 0;
    while i <= n - 4
        invariant
            0 <= i <= n - 3,
            n == b@.len(),
            n >= 4,
            forall|k: int| 0 <= k < i ==> !delim_at(b@, k),
        decreases n - i,
    {
        if b[i] == 13 && b[i + 1] == 10 && b[i + 2] == 13 && b[i + 3] == 10 {
            return Some(i);
        }
        i = i + 1;
    }
    None
}

/// Reads the source in fixed-size chunks until the header boundary
/// CRLFCRLF appears in the buffer.
///
/// Returns the buffer read so far together with the offset just past the
/// boundary. A chunk shorter than requested means the source is exhausted:
/// if the boundary still has not appeared that is `MissingBody`; if the
/// ceiling is reached first, `RequestTooBig`.
fn read_until_payload<S: ByteSource>(src: &mut S) -> (r: Result<(Vec<u8>, usize), ParseError>)
    ensures
        match r {
            Ok((buff, off)) => {
                &&& find_delim_from(old(src).remaining(), 0) == Some(off - 4)
                &&& 4 <= off <= buff@.len() <= READ_LIMIT
                &&& buff@.len() <= old(src).remaining().len()
                &&& buff@ == old(src).remaining().take(buff@.len() as int)
                &&& final(src).remaining() == old(src).remaining().skip(buff@.len() as int)
                &&& final(src).reliable() == old(src).reliable()
            },
            Err(ParseError::MissingBody) => {
                &&& find_delim_from(old(src).remaining(), 0) is None
                &&& old(src).remaining().len() < READ_LIMIT
                &&& final(src).remaining().len() == 0
                &&& final(src).reliable() == old(src).reliable()
            },
            Err(ParseError::RequestTooBig) => {
                &&& match find_delim_from(old(src).remaining(), 0) {
                    None => old(src).remaining().len() >= READ_LIMIT,
                    Some(d) => d + 4 > READ_LIMIT,
                }
                &&& final(src).reliable() == old(src).reliable()
            },
            Err(ParseError::ReadError) => !old(src).reliable(),
            Err(_) => false,
        },
{
    let ghost stream = src.remaining();
    let mut buff: Vec<u8> = Vec::new();
    let mut can_continue = true;
    proof {
        assert(buff@ =~= stream.take(0));
    }
    loop
        invariant
            buff@.len() <= READ_LIMIT,
            buff@.len() <= stream.len(),
            can_continue ==> buff@.len() % 1024 == 0,
            !can_continue ==> src.remaining().len() == 0 && buff@.len() < READ_LIMIT,
            buff@ == stream.take(buff@.len() as int),
            src.remaining() == stream.skip(buff@.len() as int),
            src.reliable() == old(src).reliable(),
            stream == old(src).remaining(),
        decreases READ_LIMIT - buff@.len() + (if can_continue {
            1int
        } else {
            0int
        }),
    {
        let blen = buff.len();
        match find_body_delimiter(&buff) {
            Some(end_offset) => {
                proof {
                    assert(forall|k: int|
                        0 <= k < end_offset ==> !delim_at(stream, k) && !delim_at(
                            buff@,
                            k,
                        )) by {
                        assert forall|k: int| 0 <= k < end_offset implies !delim_at(stream, k) by {
                            assert(!delim_at(buff@, k));
                            lemma_delim_prefix(stream, buff@.len() as int, k);
                        }
                    }
                    lemma_delim_prefix(stream, buff@.len() as int, end_offset as int);
                    lemma_find_delim_inverse(stream, end_offset as int);
                }
                return Ok((buff, end_offset + 4));
            },
            None => {
                if !can_continue {
                    proof {
                        assert(stream.skip(buff@.len() as int).len() == 0);
                        assert(buff@ =~= stream);
                        lemma_find_delim_from(stream, 0);
                        match find_delim_from(stream, 0) {
                            Some(d) => {
                                assert(!delim_at(stream, d));
                            },
                            None => {},
                        }
                    }
                    return Err(ParseError::MissingBody);
                }
                if blen >= READ_LIMIT {
                    proof {
                        lemma_find_delim_from(stream, 0);
                        match find_delim_from(stream, 0) {
                            Some(d) => {
                                if d + 4 <= READ_LIMIT {
                                    lemma_delim_prefix(stream, buff@.len() as int, d);
                                    assert(delim_at(buff@, d));
                                }
                            },
                            None => {},
                        }
                    }
                    return Err(ParseError::RequestTooBig);
                }
                let chunk = match src.read_chunk(READ_BUFFER_SIZE) {
                    Ok(c) => c,
                    Err(_) => {
                        return Err(ParseError::ReadError);
                    },
                };
                can_continue = chunk.len() == READ_BUFFER_SIZE;
                let mut chunk = chunk;
                buff.append(&mut chunk);
                proof {
                    assert(buff@ =~= stream.take(buff@.len() as int));
                    assert(src.remaining() =~= stream.skip(buff@.len() as int));
                }
            },
        }
    }
}

/// What the parser returns, stated over the raw stream: the method, the
/// raw request target, the header map, and the body bytes owed by the
/// stream.
pub struct SpecRequest {
    pub method: Method,
    pub target: Seq<u8>,
    pub headers: Map<Seq<char>, Seq<char>>,
    pub body: Option<Seq<u8>>,
}

/// The longest prefix of `s` of length at most `n`.
pub open spec fn take_up_to(s: Seq<u8>, n: int) -> Seq<u8> {
    if n <= s.len() {
        s.take(n)
    } else {
        s
    }
}

/// The body owed by `stream` when the boundary ends at `off` and the
/// declared length is `cl`: exactly `cl` bytes, or what the stream still
/// holds if that is less.
pub open spec fn spec_body_bytes(stream: Seq<u8>, off: int, cl: u64) -> Seq<u8> {
    take_up_to(stream.skip(off), cl as int)
}

/// Parsing the request line out of the header bytes: three
/// space-separated tokens before the first CR, the protocol token
/// exactly `HTTP/1.1`, the method token a known verb.
pub open spec fn spec_parse_proto(head: Seq<u8>) -> Result<(Method, Seq<u8>, int), ParseError> {
    match find_byte_from(head, 13, 0) {
        None => Err(ParseError::InvalidRequest),
        Some(r) => {
            let line = head.take(r);
            match find_byte_from(line, 32, 0) {
                None => Err(ParseError::InvalidRequest),
                Some(s1) => match find_byte_from(line, 32, s1 + 1) {
                    None => Err(ParseError::InvalidRequest),
                    Some(s2) => if decode_utf8(line.skip(s2 + 1)) != "HTTP/1.1"@ {
                        Err(ParseError::InvalidProtocol)
                    } else {
                        match spec_method_of(decode_utf8(line.take(s1))) {
                            None => Err(ParseError::InvalidMethod),
                            Some(m) => Ok((m, line.subrange(s1 + 1, s2), r)),
                        }
                    },
                },
            }
        },
    }
}

/// How a `URL` value relates to the raw target bytes it was split from.
pub open spec fn url_matches(url: URL, target: Seq<u8>) -> bool {
    &&& url.wf()
    &&& match find_byte_from(target, 63, 0) {
        None => url.path@ == decode_utf8(target) && url.query is None,
        Some(i) => {
            &&& url.path@ == decode_utf8(target.take(i))
            &&& match url.query {
                Some(q) => q@ == spec_query(target.skip(i + 1)),
                None => false,
            }
        },
    }
}

/// The whole parse, stated over the raw stream.
pub open spec fn spec_request(stream: Seq<u8>) -> Result<SpecRequest, ParseError> {
    match find_delim_from(stream, 0) {
        None => if stream.len() >= READ_LIMIT {
            Err(ParseError::RequestTooBig)
        } else {
            Err(ParseError::MissingBody)
        },
        Some(d) => if d + 4 > READ_LIMIT {
            Err(ParseError::RequestTooBig)
        } else {
            let head = stream.take(d + 4);
            if !valid_utf8(head) {
                Err(ParseError::InvalidEncoding)
            } else {
                match spec_parse_proto(head) {
                    Err(e) => Err(e),
                    Ok((m, target, line_end)) => {
                        let hmap = spec_headers(head.skip(line_end));
                        if m.spec_carries_body() {
                            match spec_content_length(hmap) {
                                None => Err(ParseError::InvalidRequest),
                                Some(cl) => Ok(
                                    SpecRequest {
                                        method: m,
                                        target,
                                        headers: hmap,
                                        body: Some(spec_body_bytes(stream, d + 4, cl)),
                                    },
                                ),
                            }
                        } else {
                            Ok(SpecRequest { method: m, target, headers: hmap, body: None })
                        }
                    },
                }
            }
        },
    }
}

/// A length-bounded request body: leftover bytes the parser over-read are
/// served first, then at most the still-owed count is pulled from the
/// connection. Past its bound it never yields more.
pub struct Body<S: ByteSource> {
    buffered: Vec<u8>,
    cursor: usize,
    to_pull: u64,
    source: S,
}

impl<S: ByteSource> Body<S> {
    pub closed spec fn wf(&self) -> bool {
        self.cursor <= self.buffered@.len()
    }

    /// The bytes this body will still yield.
    pub closed spec fn pending(&self) -> Seq<u8> {
        self.buffered@.skip(self.cursor as int) + take_up_to(
            self.source.remaining(),
            self.to_pull as int,
        )
    }

    /// Whether the underlying source is reliable.
    pub closed spec fn src_reliable(&self) -> bool {
        self.source.reliable()
    }

    /// Wraps leftover bytes and the still-owed pull count over a source.
    fn new(buffered: Vec<u8>, to_pull: u64, source: S) -> (r: Body<S>)
        ensures
            r.wf(),
            r.pending() == buffered@ + take_up_to(source.remaining(), to_pull as int),
            r.src_reliable() == source.reliable(),
    {
        let r = Body { buffered, cursor: 0, to_pull, source };
        proof {
            assert(r.buffered@.skip(0) =~= r.buffered@);
        }
        r
    }

    /// Reads up to `max` bytes of the body; an empty chunk means the body
    /// is exhausted.
    pub fn read_chunk(&mut self, max: usize) -> (r: Result<Vec<u8>, ReadFault>)
        requires
            old(self).wf(),
            max >= 1,
        ensures
            final(self).wf(),
            match r {
                Ok(chunk) => {
                    &&& chunk@.len() <= max
                    &&& chunk@.len() <= old(self).pending().len()
                    &&& chunk@ == old(self).pending().take(chunk@.len() as int)
                    &&& final(self).pending() == old(self).pending().skip(chunk@.len() as int)
                    &&& (chunk@.len() == 0 <==> old(self).pending().len() == 0)
                    &&& final(self).src_reliable() == old(self).src_reliable()
                },
                Err(_) => {
                    &&& !old(self).src_reliable()
                    &&& final(self).pending() == old(self).pending()
                    &&& final(self).src_reliable() == old(self).src_reliable()
                },
            },
    {
        let blen = self.buffered.len();
        if self.cursor < blen {
            let avail = blen - self.cursor;
            let n = if avail < max {
                avail
            } else {
                max
            };
            let chunk = subvec(&self.buffered, self.cursor, self.cursor + n);
            self.cursor = self.cursor + n;
            proof {
                assert(chunk@ =~= old(self).pending().take(n as int));
                assert(self.pending() =~= old(self).pending().skip(n as int));
            }
            Ok(chunk)
        } else if self.to_pull > 0 {
            let want: u64 = if (max as u64) < self.to_pull {
                max as u64
            } else {
                self.to_pull
            };
            let want_usize: usize = want as usize;
            match self.source.read_chunk(want_usize) {
                Ok(c) => {
                    let got = c.len();
                    self.to_pull = self.to_pull - (got as u64);
                    proof {
                        assert(c@ =~= old(self).pending().take(got as int));
                        assert(self.pending() =~= old(self).pending().skip(got as int));
                    }
                    Ok(c)
                },
                Err(e) => Err(e),
            }
        } else {
            proof {
                assert(old(self).pending() =~= Seq::<u8>::empty());
                assert(self.pending() =~= old(self).pending().skip(0));
            }
            Ok(Vec::new())
        }
    }
}

/// A parsed request. The body, when present, is a forward-only stream
/// bounded to the declared content length.
pub struct Request<S: ByteSource> {
    pub method: Method,
    pub url: URL,
    pub headers: Headers,
    pub body: Option<Body<S>>,
}

impl<S: ByteSource> Request<S> {
    pub open spec fn wf(&self) -> bool {
        &&& self.headers.wf()
        &&& self.url.wf()
        &&& match self.body {
            Some(b) => b.wf(),
            None => true,
        }
    }

    /// Whether the request carries a body stream.
    pub open spec fn has_body(&self) -> bool {
        self.body is Some
    }

    /// The bytes the body will still yield; empty when there is no body.
    pub open spec fn body_pending(&self) -> Seq<u8> {
        match self.body {
            Some(b) => b.pending(),
            None => Seq::empty(),
        }
    }

    /// Whether the body's underlying source is reliable.
    pub open spec fn body_reliable(&self) -> bool {
        match self.body {
            Some(b) => b.src_reliable(),
            None => true,
        }
    }

    /// The request path.
    pub fn path(&self) -> (r: &str)
        ensures
            r@ == self.url.path@,
    {
        self.url.path.as_str()
    }

    /// The decoded query parameters, if the target had any.
    pub fn query_string(&self) -> (r: Option<&QueryString>)
        ensures
            match r {
                Some(q) => self.url.query matches Some(qq) && *q == qq,
                None => self.url.query is None,
            },
    {
        self.url.query.as_ref()
    }

    /// Reads up to `max` bytes of the body; a request without a body
    /// always yields an empty chunk.
    pub fn read(&mut self, max: usize) -> (r: Result<Vec<u8>, ReadFault>)
        requires
            old(self).wf(),
            max >= 1,
        ensures
            final(self).wf(),
            final(self).method == old(self).method,
            final(self).url == old(self).url,
            final(self).headers == old(self).headers,
            final(self).has_body() == old(self).has_body(),
            final(self).body_reliable() == old(self).body_reliable(),
            match r {
                Ok(chunk) => {
                    &&& chunk@.len() <= max
                    &&& chunk@.len() <= old(self).body_pending().len()
                    &&& chunk@ == old(self).body_pending().take(chunk@.len() as int)
                    &&& final(self).body_pending() == old(self).body_pending().skip(
                        chunk@.len() as int,
                    )
                    &&& (chunk@.len() == 0 <==> old(self).body_pending().len() == 0)
                },
                Err(_) => {
                    &&& !old(self).body_reliable()
                    &&& final(self).body_pending() == old(self).body_pending()
                },
            },
    {
        match &mut self.body {
            Some(b) => b.read_chunk(max),
            None => {
                proof {
                    assert(old(self).body_pending().skip(0) =~= old(self).body_pending());
                }
                Ok(Vec::new())
            },
        }
    }

    /// Reads the whole body into one buffer.
    pub fn read_to_end(&mut self) -> (r: Result<Vec<u8>, ReadFault>)
        requires
            old(self).wf(),
        ensures
            final(self).wf(),
            match r {
                Ok(all) => all@ == old(self).body_pending() && final(self).body_pending().len()
                    == 0,
                Err(_) => !old(self).body_reliable(),
            },
    {
        let mut out: Vec<u8> = Vec::new();
        proof {
            assert(out@ + self.body_pending() =~= self.body_pending());
        }
        loop
            invariant
                self.wf(),
                out@ + self.body_pending() == old(self).body_pending(),
                self.body_reliable() == old(self).body_reliable(),
            decreases self.body_pending().len(),
        {
            let mut chunk = match self.read(READ_BUFFER_SIZE) {
                Ok(c) => c,
                Err(e) => {
                    return Err(e);
                },
            };
            if chunk.len() == 0 {
                proof {
                    assert(out@ =~= old(self).body_pending());
                }
                return Ok(out);
            }
            out.append(&mut chunk);
            proof {
                assert(out@ + self.body_pending() =~= old(self).body_pending());
            }
        }
    }

    /// Parses one request off a byte source. The source moves into the
    /// request so that the body, when one is owed, can keep pulling from
    /// it.
    pub fn from_reader(reader: S) -> (r: Result<Request<S>, ParseError>)
        ensures
            match r {
                Ok(req) => ({
                    let sr = spec_request(reader.remaining());
                    &&& sr matches Ok(m) && req.method == m.method && req.headers.as_map()
                        == m.headers && url_matches(req.url, m.target) && (req.has_body() <==> m.body
                        is Some) && (m.body matches Some(bb) ==> req.body_pending() == bb)
                    &&& req.wf()
                    &&& req.has_body() ==> req.body_reliable() == reader.reliable()
                }),
                Err(e) => if e == ParseError::ReadError {
                    !reader.reliable()
                } else {
                    spec_request(reader.remaining()) == Err::<SpecRequest, ParseError>(e)
                },
            },
    {
        broadcast use encode_utf8_decode_utf8;

        let mut src = reader;
        let ghost stream = src.remaining();
        let (buff, body_offset) = match read_until_payload(&mut src) {
            Ok(x) => x,
            Err(e) => {
                return Err(e);
            },
        };
        let ghost d = body_offset - 4;
        let ghost head_bytes = stream.take(d + 4);
        proof {
            assert(buff@.take(body_offset as int) =~= head_bytes);
        }
        let head = subvec(&buff, 0, body_offset);
        if utf8_to_string(subvec(&buff, 0, body_offset)).is_none() {
            return Err(ParseError::InvalidEncoding);
        }
        let (url, method, line_end) = match parse_proto(&head) {
            Ok(x) => x,
            Err(e) => {
                return Err(e);
            },
        };
        proof {
            lemma_find_byte_from(head@, 13, 0);
            lemma_utf8_split_at(head@, line_end as int);
        }
        let block = subvec(&head, line_end, head.len());
        let headers = match utf8_to_string(block) {
            Some(hs) => {
                let h = Headers::from(hs.as_str());
                proof {
                    assert(encode_utf8(hs@) == head_bytes.skip(line_end as int));
                }
                h
            },
            None => {
                proof {
                    assert(false);
                }
                Headers::new()
            },
        };
        if method.carries_body() {
            let cl = match headers.content_length() {
                Some(cl) => cl,
                None => {
                    return Err(ParseError::InvalidRequest);
                },
            };
            let leftover = subvec(&buff, body_offset, buff.len());
            let llen = leftover.len();
            proof {
                assert(leftover@ =~= stream.subrange(d + 4, buff@.len() as int));
            }
            let body = if (llen as u64) >= cl {
                let served = subvec(&leftover, 0, cl as usize);
                proof {
                    assert(served@ =~= stream.skip(d + 4).take(cl as int));
                }
                let b = Body::new(served, 0, src);
                proof {
                    assert(b.pending() =~= spec_body_bytes(stream, d + 4, cl));
                }
                b
            } else {
                let b = Body::new(leftover, cl - (llen as u64), src);
                proof {
                    assert(b.pending() =~= spec_body_bytes(stream, d + 4, cl));
                }
                b
            };
            Ok(Request { method, url, headers, body: Some(body) })
        } else {
            Ok(Request { method, url, headers, body: None })
        }
    }
}

/// Parses the request line out of the validated header bytes: method,
/// target and protocol, and where the header block starts.
fn parse_proto(head: &Vec<u8>) -> (r: Result<(URL, Method, usize), ParseError>)
    requires
        valid_utf8(head@),
    ensures
        match spec_parse_proto(head@) {
            Ok((m, target, line_end)) => r matches Ok(p) && p.1 == m && p.2 == line_end
                && url_matches(p.0, target) && 0 <= line_end < head@.len() && head@[line_end] == 13,
            Err(e) => r matches Err(e2) && e2 == e,
        },
{
    broadcast use encode_utf8_decode_utf8;
    broadcast use encode_utf8_valid_utf8;

    let rpos = match find_byte(head, 13, 0) {
        Some(i) => i,
        None => {
            return Err(ParseError::InvalidRequest);
        },
    };
    proof {
        lemma_find_byte_from(head@, 13, 0);
        lemma_utf8_split_at(head@, rpos as int);
    }
    let line = subvec(head, 0, rpos);
    let ghost lineg = head@.take(rpos as int);
    let s1 = match find_byte(&line, 32, 0) {
        Some(i) => i,
        None => {
            return Err(ParseError::InvalidRequest);
        },
    };
    proof {
        lemma_find_byte_from(lineg, 32, 0);
    }
    let s2 = match find_byte(&line, 32, s1 + 1) {
        Some(i) => i,
        None => {
            return Err(ParseError::InvalidRequest);
        },
    };
    proof {
        lemma_find_byte_from(lineg, 32, s1 + 1 as int);
        lemma_utf8_split_at(lineg, s1 as int);
        lemma_utf8_split_at(lineg.skip(s1 as int), 1);
        assert(lineg.skip(s1 as int).skip(1) =~= lineg.skip(s1 + 1));
        lemma_utf8_split_at(lineg.skip(s1 + 1), s2 - s1 - 1 as int);
        assert(lineg.skip(s1 + 1)[s2 - s1 - 1 as int] == lineg[s2 as int]);
        assert(lineg.skip(s1 + 1).take(s2 - s1 - 1 as int) =~= lineg.subrange(s1 + 1, s2 as int));
        lemma_utf8_split_at(lineg, s2 as int);
        lemma_utf8_split_at(lineg.skip(s2 as int), 1);
        assert(lineg.skip(s2 as int).skip(1) =~= lineg.skip(s2 + 1));
    }
    let pb = subvec(&line, s2 + 1, line.len());
    let ps = match utf8_to_string(pb) {
        Some(s) => s,
        None => {
            proof {
                assert(false);
            }
            return Err(ParseError::InvalidProtocol);
        },
    };
    if !str_eq(ps.as_str(), "HTTP/1.1") {
        return Err(ParseError::InvalidProtocol);
    }
    let mb = subvec(&line, 0, s1);
    let ms = match utf8_to_string(mb) {
        Some(s) => s,
        None => {
            proof {
                assert(false);
            }
            return Err(ParseError::InvalidMethod);
        },
    };
    let method = match Method::from_str(ms.as_str()) {
        Ok(m) => m,
        Err(_) => {
            return Err(ParseError::InvalidMethod);
        },
    };
    let tb = subvec(&line, s1 + 1, s2);
    let ts = match utf8_to_string(tb) {
        Some(s) => s,
        None => {
            proof {
                assert(false);
            }
            return Err(ParseError::InvalidRequest);
        },
    };
    let url = URL::from(ts.as_str());
    proof {
        assert(encode_utf8(ts@) == lineg.subrange(s1 + 1, s2 as int));
    }
    Ok((url, method, rpos))
}


} // verus!
