//! Demo handlers built on the engine: echoing requests back.

use vstd::prelude::*;

verus! {

use vstd::utf8::encode_utf8;
use vstd::string::StringExecFns;
use crate::header::Names;
use crate::header::lemma_names_lower;
use crate::header::spec_content_length;
use crate::request::ParseError;
use crate::request::Request;
use crate::response::Response;
use crate::status::StatusCode;
use crate::server::Handler;
use crate::stream::ByteSource;
use crate::strutil::dec_chars;
use crate::strutil::rfind_byte;
use crate::strutil::rfind_byte_in;
use crate::strutil::lemma_rfind_byte;
use crate::strutil::lemma_utf8_split_at;
use crate::strutil::subvec;
use crate::strutil::utf8_to_string;
use crate::strutil::str_eq;
use vstd::utf8::valid_utf8;
use vstd::utf8::decode_utf8;
use vstd::utf8::encode_utf8_valid_utf8;
use vstd::utf8::encode_utf8_decode_utf8;
use vstd::string::StringSliceAdditionalSpecFns;
use vstd::string::StrSliceExecFns;

/// The largest declared body an echoing handler will read back.
pub const MAX_REQUEST_SIZE: u64 = 1024 * 1024;

/// Echoes a request's body back: the response carries the body bytes, the
/// request's content type (or an octet-stream default) and the declared
/// content length. Requests without a usable length, or with one over the
/// ceiling, are answered with an error response instead.
pub fn dump_request<S: ByteSource>(req: Request<S>) -> (r: Response)
    requires
        req.wf(),
    ensures
        r.wf(),
        match spec_content_length(req.headers.as_map()) {
            None => r.status_code == StatusCode::BadRequest && r.spec_body() == Some(
                encode_utf8("missing content length"@),
            ),
            Some(cl) => if cl > MAX_REQUEST_SIZE {
                r.status_code == StatusCode::PayloadTooLarge && r.spec_body() == Some(
                    encode_utf8("Request entity too large"@),
                )
            } else if r.status_code == StatusCode::OK {
                &&& r.spec_body() == Some(req.body_pending())
                &&& r.headers.as_map().contains_key("content-length"@)
                &&& r.headers.as_map()["content-length"@] == dec_chars(cl as nat)
                &&& r.headers.as_map().contains_key("content-type"@)
                &&& r.headers.as_map()["content-type"@] == (if req.headers.as_map().contains_key(
                    "content-type"@,
                ) {
                    req.headers.as_map()["content-type"@]
                } else {
                    "application/otcet-stream"@
                })
            } else {
                r.status_code == StatusCode::BadRequest && !req.body_reliable()
            },
        },
{
    proof {
        lemma_names_lower();
    }
    let mut req = req;
    let len = match req.headers.content_length() {
        Some(len) => {
            if len > MAX_REQUEST_SIZE {
                return Response::string(
                    StatusCode::PayloadTooLarge,
                    String::from_str("Request entity too large"),
                );
            }
            len
        },
        None => {
            return Response::string(
                StatusCode::BadRequest,
                String::from_str("missing content length"),
            );
        },
    };
    let content_type = match req.headers.get(Names::ContentType.as_str()) {
        Some(ct) => String::from_str(ct),
        None => String::from_str("application/otcet-stream"),
    };
    let body = match req.read_to_end() {
        Ok(b) => b,
        Err(_) => {
            return Response::string(
                StatusCode::BadRequest,
                String::from_str("Failed to read request body"),
            );
        },
    };
    proof {
        reveal_strlit("content-type");
        reveal_strlit("transfer-encoding");
        reveal_strlit("content-length");
        assert("content-type"@.len() == 12);
        assert("transfer-encoding"@.len() == 17);
        assert("content-length"@.len() == 14);
    }
    Response::new(StatusCode::OK).with_content_type(content_type).with_content_length(
        len,
    ).with_body(body)
}

/// A demo handler: answers every request by describing it, echoing the
/// body back for the methods that carry one.
pub struct EchoHandler;

impl EchoHandler {
    pub fn new() -> (r: EchoHandler) {
        EchoHandler
    }
}

impl Handler for EchoHandler {
    fn handle_request<S: ByteSource>(&self, req: Request<S>) -> (r: Response) {
        if req.method.carries_body() {
            dump_request(req)
        } else {
            let mut text = String::from_str("Echo: ");
            text.append(req.method.as_str());
            text.append(" ");
            text.append(req.path());
            Response::string(StatusCode::OK, text)
        }
    }

    fn handle_bad_request(&self, err: &ParseError) -> (r: Response) {
        Response::error(StatusCode::BadRequest, err)
    }
}

/// The file-name extension: the text after the last `.` of the last path
/// component, absent for names without a dot or hidden names whose only
/// dot leads.
pub open spec fn spec_ext(b: Seq<u8>) -> Option<Seq<u8>> {
    let comp = match rfind_byte(b, 47) {
        Some(i) => b.skip(i + 1),
        None => b,
    };
    match rfind_byte(comp, 46) {
        Some(p) => if p > 0 {
            Some(comp.skip(p + 1))
        } else {
            None
        },
        None => None,
    }
}

/// The content type guessed for an extension.
pub open spec fn spec_guess(ext: Option<Seq<u8>>) -> Seq<char> {
    match ext {
        None => "application/otcet-stream"@,
        Some(e) => {
            let ec = decode_utf8(e);
            if ec == "jpg"@ || ec == "jpeg"@ || ec == "png"@ || ec == "gif"@ || ec == "webp"@ {
                "image/"@ + ec
            } else if ec == "html"@ || ec == "txt"@ || ec == "css"@ {
                "text/"@ + ec + "; charset=utf-8"@
            } else if ec == "wasm"@ || ec == "js"@ || ec == "pdf"@ {
                "application/"@ + ec
            } else {
                "application/otcet-stream"@
            }
        },
    }
}

/// Guesses a content type from a file name's extension; unknown
/// extensions fall back to an octet-stream type.
pub fn guess_content_type(filename: &str) -> (r: String)
    ensures
        r@ == spec_guess(spec_ext(filename.spec_bytes())),
{
    broadcast use encode_utf8_valid_utf8;
    broadcast use encode_utf8_decode_utf8;

    let bytes = filename.as_bytes_vec();
    let comp = match rfind_byte_in(&bytes, 47) {
        Some(i) => {
            proof {
                lemma_rfind_byte(bytes@, 47);
                lemma_utf8_split_at(bytes@, i + 1 as int);
            }
            let c = subvec(&bytes, i + 1, bytes.len());
            proof {
                assert(c@ =~= bytes@.skip(i + 1));
            }
            c
        },
        None => {
            let c = subvec(&bytes, 0, bytes.len());
            proof {
                assert(c@ =~= bytes@);
            }
            c
        },
    };
    let p = match rfind_byte_in(&comp, 46) {
        Some(p) => p,
        None => {
            return String::from_str("application/otcet-stream");
        },
    };
    if p == 0 {
        return String::from_str("application/otcet-stream");
    }
    proof {
        lemma_rfind_byte(comp@, 46);
        lemma_utf8_split_at(comp@, p + 1 as int);
    }
    let eb = subvec(&comp, p + 1, comp.len());
    proof {
        assert(eb@ =~= comp@.skip(p + 1));
    }
    let ext = match utf8_to_string(eb) {
        Some(s) => s,
        None => {
            proof {
                assert(false);
            }
            return String::from_str("application/otcet-stream");
        },
    };
    let e = ext.as_str();
    if str_eq(e, "jpg") || str_eq(e, "jpeg") || str_eq(e, "png") || str_eq(e, "gif") || str_eq(
        e,
        "webp",
    ) {
        let mut r = String::from_str("image/");
        r.append(e);
        r
    } else if str_eq(e, "html") || str_eq(e, "txt") || str_eq(e, "css") {
        let mut r = String::from_str("text/");
        r.append(e);
        r.append("; charset=utf-8");
        r
    } else if str_eq(e, "wasm") || str_eq(e, "js") || str_eq(e, "pdf") {
        let mut r = String::from_str("application/");
        r.append(e);
        r
    } else {
        String::from_str("application/otcet-stream")
    }
}

} // verus!
