//! Per-connection protocol engine: parse a request off a byte source,
//! dispatch it to the handler, and serialize the response. Accepting
//! connections and moving bytes on the wire is the caller's concern.

use vstd::prelude::*;

verus! {

use vstd::string::StringExecFns;
use crate::strutil::assoc_map;
use crate::request::ParseError;
use crate::request::Request;
use crate::response::Response;
use crate::response::spec_render;
use crate::status::StatusCode;
use crate::stream::ByteSource;
use crate::strutil::lemma_lower_id;
use crate::strutil::lower_chars;

/// What the engine dispatches requests to. Implementations decide the
/// response; the engine only demands that its headers are well formed.
pub trait Handler {
    /// Called exactly once per successfully parsed request.
    fn handle_request<S: ByteSource>(&self, req: Request<S>) -> (r: Response)
        requires
            req.wf(),
        ensures
            r.wf(),
    ;

    /// Called exactly once when parsing fails, with the typed error.
    fn handle_bad_request(&self, err: &ParseError) -> (r: Response)
        ensures
            r.wf(),
    ;
}

/// A server: an address to listen on and the handler that answers
/// requests. The listening loop itself lives outside the engine.
pub struct Server<H: Handler> {
    address: String,
    handler: H,
}

impl<H: Handler> Server<H> {
    /// The configured address.
    pub closed spec fn spec_address(&self) -> Seq<char> {
        self.address@
    }

    pub fn new(address: String, handler: H) -> (r: Server<H>)
        ensures
            r.spec_address() == address@,
    {
        Server { address, handler }
    }

    /// The configured address.
    pub fn address(&self) -> (r: &str)
        ensures
            r@ == self.spec_address(),
    {
        self.address.as_str()
    }

    /// Runs one connection: parses the request off the source, dispatches
    /// it (to the bad-request entry point when parsing failed), stamps the
    /// default headers, and returns the serialized response to be written
    /// back. The result is always a complete rendering of some response
    /// that names the server.
    pub fn handle_request<S: ByteSource>(&self, stream: S) -> (out: Vec<u8>)
        ensures
            exists|
                code: StatusCode,
                pairs: Seq<(Seq<char>, Seq<char>)>,
                body: Option<Seq<u8>>,
                chunked: bool,
            |
                {
                    &&& out@ == #[trigger] spec_render(code, pairs, body, chunked)
                    &&& assoc_map(pairs).contains_key("server"@)
                    &&& assoc_map(pairs).contains_key("x-powered-by"@)
                },
    {
        let mut rsp = match Request::from_reader(stream) {
            Ok(req) => self.handler.handle_request(req),
            Err(err) => self.handler.handle_bad_request(&err),
        };
        proof {
            reveal_strlit("server");
            reveal_strlit("Server");
            reveal_strlit("x-powered-by");
            reveal_strlit("X-Powered-By");
            lemma_lower_id("server"@);
            lemma_lower_id("x-powered-by"@);
            assert(lower_chars("Server"@) =~= "server"@);
            assert(lower_chars("X-Powered-By"@) =~= "x-powered-by"@);
        }
        rsp.headers.insert("Server", "Really bad Rust server");
        rsp.headers.insert("X-Powered-By", "PHP/5.3.0");
        let mut out: Vec<u8> = Vec::new();
        let ghost code = rsp.status_code;
        let ghost body = rsp.spec_body();
        let ghost chunked = rsp.body is Some && !rsp.headers.as_map().contains_key(
            "content-length"@,
        );
        rsp.send(&mut out);
        proof {
            assert(out@ == spec_render(code, rsp.headers.pairs(), body, chunked));
            assert(assoc_map(rsp.headers.pairs()).contains_key("server"@));
            assert(assoc_map(rsp.headers.pairs()).contains_key("x-powered-by"@));
        }
        out
    }
}

} // verus!
