//! The response writer: status line, headers, and a framed body,
//! serialized onto a byte sink exactly once.

use vstd::prelude::*;

verus! {

use vstd::utf8::encode_utf8;
use vstd::string::StringSliceAdditionalSpecFns;
use vstd::string::StrSliceExecFns;
use vstd::string::StringExecFns;
use vstd::utf8::valid_utf8;
use vstd::utf8::decode_utf8;
use vstd::utf8::is_ascii_chars;
use crate::header::Headers;
use crate::header::Names;
use crate::header::join_pairs;
use crate::header::pair_line;
use crate::header::pairs_wf;
use crate::header::text_wf;
use crate::header::lemma_pair_line_props;
use crate::header::lemma_join_props;
use crate::header::lemma_join_front;
use crate::header::lemma_names_lower;
use crate::header::spec_headers;
use crate::header::spec_headers_from;
use crate::header::spec_insert_line;
use crate::strutil::assoc_map;
use crate::strutil::is_digit;
use crate::strutil::spec_parse_u64;
use crate::strutil::lemma_dec_chars;
use crate::strutil::lemma_parse_dec_chars;
use crate::strutil::lemma_ascii_encode;
use crate::strutil::lemma_ascii_byte_is;
use crate::strutil::lemma_ascii_slice;
use crate::strutil::find_byte_from;
use crate::strutil::find_pair_from;
use crate::strutil::lemma_find_byte_inverse;
use crate::strutil::lemma_find_pair_inverse;
use crate::request::delim_at;
use crate::request::find_delim_from;
use crate::request::lemma_find_delim_inverse;
use crate::status::StatusCode;
use crate::strutil::dec_chars;
use crate::strutil::u64_to_string;
use crate::strutil::lower_chars;
use crate::strutil::subvec;
use crate::request::ParseError;

/// The serialized status line.
pub open spec fn spec_status_line(code: StatusCode) -> Seq<char> {
    "HTTP/1.1 "@ + dec_chars(code.spec_code() as nat) + " "@ + code.spec_phrase() + "\r\n"@
}

/// The serialized head: status line, header block, blank-line separator.
pub open spec fn spec_head_chars(code: StatusCode, pairs: Seq<(Seq<char>, Seq<char>)>) -> Seq<
    char,
> {
    spec_status_line(code) + join_pairs(pairs) + "\r\n\r\n"@
}

/// The full serialization of a response: the head, the body copied
/// byte-for-byte, and the terminating marker when the transfer was marked
/// chunked.
pub open spec fn spec_render(
    code: StatusCode,
    pairs: Seq<(Seq<char>, Seq<char>)>,
    body: Option<Seq<u8>>,
    chunked: bool,
) -> Seq<u8> {
    encode_utf8(spec_head_chars(code, pairs)) + (match body {
        Some(b) => b,
        None => Seq::empty(),
    }) + (if chunked {
        encode_utf8("\r\n\r\n"@)
    } else {
        Seq::empty()
    })
}

/// A response: status code, headers, and an optional body. Headers are
/// mutable until the response is serialized.
pub struct Response {
    pub status_code: StatusCode,
    pub body: Option<Vec<u8>>,
    pub headers: Headers,
}

impl Response {
    /// The headers are well formed.
    pub open spec fn wf(&self) -> bool {
        self.headers.wf()
    }

    /// The view of the body.
    pub open spec fn spec_body(&self) -> Option<Seq<u8>> {
        match self.body {
            Some(b) => Some(b@),
            None => None,
        }
    }

    /// An empty response with the given status.
    pub fn new(status_code: StatusCode) -> (r: Response)
        ensures
            r.wf(),
            r.status_code == status_code,
            r.body is None,
            r.headers.as_map() == Map::<Seq<char>, Seq<char>>::empty(),
    {
        Response { status_code, body: None, headers: Headers::new() }
    }

    /// A response carrying the given text, with its content length set.
    pub fn string(status_code: StatusCode, body: String) -> (r: Response)
        ensures
            r.wf(),
            r.status_code == status_code,
            r.spec_body() == Some(encode_utf8(body@)),
            r.headers.as_map() == Map::<Seq<char>, Seq<char>>::empty().insert(
                "content-length"@,
                dec_chars(encode_utf8(body@).len()),
            ),
    {
        let bytes = body.as_str().as_bytes_vec();
        let mut headers = Headers::new();
        headers.set_content_length(bytes.len() as u64);
        proof {
            assert(headers.as_map() =~= Map::<Seq<char>, Seq<char>>::empty().insert(
                "content-length"@,
                dec_chars(encode_utf8(body@).len()),
            ));
        }
        Response { status_code, headers, body: Some(bytes) }
    }

    /// A response carrying a parse error's description.
    pub fn error(status_code: StatusCode, err: &ParseError) -> (r: Response)
        ensures
            r.wf(),
            r.status_code == status_code,
            r.spec_body() == Some(encode_utf8(err.spec_message())),
            r.headers.as_map() == Map::<Seq<char>, Seq<char>>::empty().insert(
                "content-length"@,
                dec_chars(encode_utf8(err.spec_message()).len()),
            ),
    {
        Response::string(status_code, String::from_str(err.message()))
    }

    /// Replaces the body.
    pub fn with_body(self, body: Vec<u8>) -> (r: Response)
        ensures
            r.status_code == self.status_code,
            r.headers == self.headers,
            r.spec_body() == Some(body@),
    {
        Response { body: Some(body), ..self }
    }

    /// Adds one header.
    pub fn with_header(self, key: &str, val: &str) -> (r: Response)
        requires
            self.wf(),
        ensures
            r.wf(),
            r.status_code == self.status_code,
            r.spec_body() == self.spec_body(),
            r.headers.as_map() == self.headers.as_map().insert(lower_chars(key@), val@),
    {
        let mut r = self;
        r.headers.add(String::from_str(key), String::from_str(val));
        r
    }

    /// Sets the content type.
    pub fn with_content_type(self, content_type: String) -> (r: Response)
        requires
            self.wf(),
        ensures
            r.wf(),
            r.status_code == self.status_code,
            r.spec_body() == self.spec_body(),
            r.headers.as_map() == self.headers.as_map().insert("content-type"@, content_type@),
    {
        proof {
            lemma_names_lower();
        }
        let mut r = self;
        r.headers.add(String::from_str(Names::ContentType.as_str()), content_type);
        r
    }

    /// Sets an explicit content length, clearing any chunked marker.
    pub fn with_content_length(self, len: u64) -> (r: Response)
        requires
            self.wf(),
        ensures
            r.wf(),
            r.status_code == self.status_code,
            r.spec_body() == self.spec_body(),
            r.headers.as_map() == self.headers.as_map().remove("transfer-encoding"@).insert(
                "content-length"@,
                dec_chars(len as nat),
            ),
    {
        let mut r = self;
        r.headers.set_content_length(len);
        r
    }

    /// Serializes the response onto `out`: the status line, each header as
    /// `name: value` joined by CRLF, a blank-line separator, then the body.
    /// A response with a body but no explicit content length is marked
    /// chunked and a terminating marker follows the body.
    pub fn send(&mut self, out: &mut Vec<u8>)
        requires
            old(self).wf(),
        ensures
            final(self).wf(),
            final(self).status_code == old(self).status_code,
            final(self).body == old(self).body,
            ({
                let chunked = old(self).body is Some && !old(self).headers.as_map().contains_key(
                    "content-length"@,
                );
                &&& final(self).headers.as_map() == (if chunked {
                    old(self).headers.as_map().insert("transfer-encoding"@, "chunked"@)
                } else {
                    old(self).headers.as_map()
                })
                &&& final(out)@ == old(out)@ + spec_render(
                    old(self).status_code,
                    final(self).headers.pairs(),
                    old(self).spec_body(),
                    chunked,
                )
            }),
    {
        proof {
            lemma_names_lower();
        }
        let is_chunked = self.body.is_some() && !self.headers.has(Names::ContentLength.as_str());
        if is_chunked {
            self.headers.add(
                String::from_str(Names::TransferEncoding.as_str()),
                String::from_str("chunked"),
            );
        }
        let mut head = String::new();
        head.append("HTTP/1.1 ");
        let code_s = u64_to_string(self.status_code.code() as u64);
        head.append(code_s.as_str());
        head.append(" ");
        head.append(self.status_code.phrase());
        head.append("\r\n");
        self.headers.send(&mut head);
        head.append("\r\n\r\n");
        proof {
            assert(head@ == spec_head_chars(self.status_code, self.headers.pairs()));
        }
        let mut hb = head.as_str().as_bytes_vec();
        out.append(&mut hb);
        match &self.body {
            Some(b) => {
                let mut bb = subvec(b, 0, b.len());
                out.append(&mut bb);
            },
            None => {},
        }
        if is_chunked {
            let mut tail = "\r\n\r\n".as_bytes_vec();
            out.append(&mut tail);
        }
        proof {
            assert(final(out)@ =~= old(out)@ + spec_render(
                old(self).status_code,
                final(self).headers.pairs(),
                old(self).spec_body(),
                old(self).body is Some && !old(self).headers.as_map().contains_key(
                    "content-length"@,
                ),
            ));
        }
    }
}

/// Inserting the pairs into a map, first pair first, later pairs
/// overriding earlier ones.
pub open spec fn fold_onto(
    m: Map<Seq<char>, Seq<char>>,
    ps: Seq<(Seq<char>, Seq<char>)>,
) -> Map<Seq<char>, Seq<char>>
    decreases ps.len(),
{
    if ps.len() == 0 {
        m
    } else {
        fold_onto(m.insert(ps[0].0, ps[0].1), ps.drop_first())
    }
}

proof fn lemma_fold_onto_push(
    m: Map<Seq<char>, Seq<char>>,
    ps: Seq<(Seq<char>, Seq<char>)>,
    p: (Seq<char>, Seq<char>),
)
    ensures
        fold_onto(m, ps.push(p)) == fold_onto(m, ps).insert(p.0, p.1),
    decreases ps.len(),
{
    if ps.len() == 0 {
        assert(ps.push(p).drop_first() =~= Seq::<(Seq<char>, Seq<char>)>::empty());
        assert(ps.push(p)[0] == p);
        assert(fold_onto(m.insert(p.0, p.1), Seq::<(Seq<char>, Seq<char>)>::empty()) == m.insert(
            p.0,
            p.1,
        ));
        assert(fold_onto(m, ps.push(p)) == m.insert(p.0, p.1));
        assert(fold_onto(m, ps) == m);
    } else {
        assert(ps.push(p)[0] == ps[0]);
        assert(ps.push(p).drop_first() =~= ps.drop_first().push(p));
        lemma_fold_onto_push(m.insert(ps[0].0, ps[0].1), ps.drop_first(), p);
        assert(fold_onto(m, ps.push(p)) == fold_onto(
            m.insert(ps[0].0, ps[0].1),
            ps.drop_first().push(p),
        ));
        assert(fold_onto(m, ps) == fold_onto(m.insert(ps[0].0, ps[0].1), ps.drop_first()));
    }
}

/// Folding the pairs in order builds exactly the association map.
pub proof fn lemma_fold_onto_assoc(ps: Seq<(Seq<char>, Seq<char>)>)
    ensures
        fold_onto(Map::empty(), ps) == assoc_map(ps),
    decreases ps.len(),
{
    if ps.len() > 0 {
        lemma_fold_onto_assoc(ps.drop_last());
        assert(ps.drop_last().push(ps.last()) =~= ps);
        lemma_fold_onto_push(Map::empty(), ps.drop_last(), ps.last());
    }
}

proof fn lemma_digit_char_range(c: char)
    requires
        48 <= (c as u32) <= 57,
    ensures
        '\0' <= c <= '\u{7f}',
        c != '\r' && c != '\n' && c != ' ',
{
}

/// The status line: one CR, at its end; the first space after the fixed
/// protocol token; the code digits between the two spaces.
proof fn lemma_status_line_props(code: StatusCode)
    ensures
        ({
            let sl = spec_status_line(code);
            let dn = dec_chars(code.spec_code() as nat);
            &&& is_ascii_chars(sl)
            &&& sl.len() == 12 + dn.len() + code.spec_phrase().len()
            &&& sl[sl.len() - 2] == '\r' && sl[sl.len() - 1] == '\n'
            &&& (forall|i: int| 0 <= i < sl.len() - 2 ==> (#[trigger] sl[i]) != '\r' && sl[i] != '\n')
            &&& sl[8] == ' '
            &&& (forall|i: int| 0 <= i < 8 ==> (#[trigger] sl[i]) != ' ')
            &&& sl[9 + dn.len() as int] == ' '
            &&& (forall|i: int| 9 <= i < 9 + dn.len() ==> (#[trigger] sl[i]) != ' ')
            &&& sl.subrange(9, 9 + dn.len() as int) == dn
            &&& sl.subrange(10 + dn.len() as int, sl.len() - 2) == code.spec_phrase()
        }),
{
    reveal_strlit("HTTP/1.1 ");
    reveal_strlit(" ");
    reveal_strlit("\r\n");
    crate::status::lemma_phrase_wf(code);
    lemma_dec_chars(code.spec_code() as nat);
    let sl = spec_status_line(code);
    let dn = dec_chars(code.spec_code() as nat);
    let ph = code.spec_phrase();
    assert("HTTP/1.1 "@.len() == 9);
    assert(" "@.len() == 1 && " "@[0] == ' ');
    assert("\r\n"@.len() == 2 && "\r\n"@[0] == '\r' && "\r\n"@[1] == '\n');
    assert(sl.len() == 12 + dn.len() + ph.len());
    assert(sl.subrange(9, 9 + dn.len() as int) =~= dn);
    assert(sl.subrange(10 + dn.len() as int, sl.len() - 2) =~= ph);
    assert forall|i: int| 0 <= i < dn.len() implies is_digit(#[trigger] dn[i]) && '\0' <= dn[i]
        <= '\u{7f}' && dn[i] != '\r' && dn[i] != '\n' && dn[i] != ' ' by {
        assert(is_digit(dn[i]));
        lemma_digit_char_range(dn[i]);
    }
    assert forall|i: int| 0 <= i < sl.len() implies '\0' <= (#[trigger] sl[i]) <= '\u{7f}' by {
        if i < 9 {
            assert(sl[i] == "HTTP/1.1 "@[i]);
        } else if i < 9 + dn.len() {
            assert(sl[i] == dn[i - 9]);
        } else if i == 9 + dn.len() {
            assert(sl[i] == ' ');
        } else if i < sl.len() - 2 {
            assert(sl[i] == ph[i - 10 - dn.len()]);
        } else {
            assert(sl[i] == "\r\n"@[i - (sl.len() - 2)]);
        }
    }
    assert(is_ascii_chars(sl));
    assert forall|i: int| 0 <= i < sl.len() - 2 implies (#[trigger] sl[i]) != '\r' && sl[i]
        != '\n' by {
        if i < 9 {
            assert(sl[i] == "HTTP/1.1 "@[i]);
        } else if i < 9 + dn.len() {
            assert(sl[i] == dn[i - 9]);
        } else if i == 9 + dn.len() {
            assert(sl[i] == ' ');
        } else {
            assert(sl[i] == ph[i - 10 - dn.len()]);
        }
    }
    assert forall|i: int| 0 <= i < 8 implies (#[trigger] sl[i]) != ' ' by {
        assert(sl[i] == "HTTP/1.1 "@[i]);
    }
    assert forall|i: int| 9 <= i < 9 + dn.len() implies (#[trigger] sl[i]) != ' ' by {
        assert(sl[i] == dn[i - 9]);
    }
    assert(sl[8] == "HTTP/1.1 "@[8]);
    assert(sl[9 + dn.len() as int] == ' ');
    assert(sl[sl.len() - 2] == '\r' && sl[sl.len() - 1] == '\n');
}

/// The serialized head is ASCII and holds the boundary exactly once, at
/// its end.
proof fn lemma_head_props(code: StatusCode, pairs: Seq<(Seq<char>, Seq<char>)>)
    requires
        pairs_wf(pairs),
        pairs.len() > 0,
    ensures
        ({
            let head = spec_head_chars(code, pairs);
            let sl = spec_status_line(code);
            let j = join_pairs(pairs);
            &&& is_ascii_chars(head)
            &&& head.len() == sl.len() + j.len() + 4
            &&& head.len() >= 16
            &&& head[head.len() - 4] == '\r' && head[head.len() - 3] == '\n' && head[head.len()
                - 2] == '\r' && head[head.len() - 1] == '\n'
            &&& (forall|p: int|
                0 <= p < head.len() - 4 ==> !((#[trigger] head[p]) == '\r' && head[p + 1] == '\n'
                    && head[p + 2] == '\r' && head[p + 3] == '\n'))
            &&& (forall|i: int| 0 <= i < sl.len() - 2 ==> #[trigger] head[i] == sl[i])
            &&& head.skip(sl.len() - 2) == "\r\n"@ + join_pairs(pairs) + "\r\n\r\n"@
        }),
{
    reveal_strlit("\r\n\r\n");
    reveal_strlit("\r\n");
    assert("\r\n\r\n"@.len() == 4);
    assert("\r\n\r\n"@[0] == '\r' && "\r\n\r\n"@[1] == '\n' && "\r\n\r\n"@[2] == '\r'
        && "\r\n\r\n"@[3] == '\n');
    lemma_status_line_props(code);
    lemma_join_props(pairs);
    let head = spec_head_chars(code, pairs);
    let sl = spec_status_line(code);
    let j = join_pairs(pairs);
    let ss = sl.len() as int;
    let m = j.len() as int;
    let ll = ss + m;
    assert(head.len() == ll + 4);
    assert forall|i: int| 0 <= i < head.len() implies '\0' <= (#[trigger] head[i])
        <= '\u{7f}' by {
        if i < ss {
            assert(head[i] == sl[i]);
        } else if i < ll {
            assert(head[i] == j[i - ss]);
            assert(is_ascii_chars(j));
        } else {
            assert(head[i] == "\r\n\r\n"@[i - ll]);
            assert('\0' <= '\r' <= '\u{7f}' && '\0' <= '\n' <= '\u{7f}');
        }
    }
    assert(is_ascii_chars(head));
    assert(head[ll] == '\r' && head[ll + 1] == '\n' && head[ll + 2] == '\r' && head[ll + 3]
        == '\n');
    assert forall|p: int|
        0 <= p < head.len() - 4 implies !((#[trigger] head[p]) == '\r' && head[p + 1] == '\n'
            && head[p + 2] == '\r' && head[p + 3] == '\n') by {
        if head[p] == '\r' && head[p + 1] == '\n' && head[p + 2] == '\r' && head[p + 3] == '\n' {
            if p < ss - 2 {
                assert(head[p] == sl[p]);
                assert(sl[p] != '\r');
            } else if p == ss - 2 {
                assert(head[p + 2] == j[0]);
                assert(j[0] != '\r');
            } else if p == ss - 1 {
                assert(head[p] == sl[ss - 1]);
                assert(sl[ss - 1] == '\n');
            } else {
                // p lies in the joined header block
                assert(ss <= p < ll);
                assert(head[p] == j[p - ss]);
                assert(j[p - ss] == '\r');
                assert(p - ss + 2 < m && j[p - ss + 1] == '\n' && j[p - ss + 2] != '\r');
                assert(head[p + 2] == j[p - ss + 2]);
            }
        }
    }
    assert forall|i: int| 0 <= i < ss - 2 implies #[trigger] head[i] == sl[i] by {}
    assert(head.skip(ss - 2) =~= "\r\n"@ + j + "\r\n\r\n"@);
}

/// Reparsing the serialized header block of well-formed pairs gives back
/// exactly their map.
proof fn lemma_block_reparse(m: Map<Seq<char>, Seq<char>>, ps: Seq<(Seq<char>, Seq<char>)>)
    requires
        pairs_wf(ps),
        ps.len() >= 1,
    ensures
        spec_headers_from(m, encode_utf8(join_pairs(ps) + "\r\n\r\n"@)) == fold_onto(m, ps),
    decreases ps.len(),
{
    reveal_strlit("\r\n\r\n");
    reveal_strlit("\r\n");
    assert("\r\n\r\n"@.len() == 4);
    assert("\r\n\r\n"@[0] == '\r' && "\r\n\r\n"@[1] == '\n' && "\r\n\r\n"@[2] == '\r'
        && "\r\n\r\n"@[3] == '\n');
    assert("\r\n"@.len() == 2 && "\r\n"@[0] == '\r' && "\r\n"@[1] == '\n');
    lemma_pair_line_props(ps[0]);
    lemma_join_props(ps);
    let line = pair_line(ps[0]);
    let nl = ps[0].0.len() as int;
    let le = line.len() as int;
    if ps.len() == 1 {
        let tail = join_pairs(ps) + "\r\n\r\n"@;
        assert(join_pairs(ps) == line);
        assert(is_ascii_chars(tail)) by {
            assert forall|i: int| 0 <= i < tail.len() implies '\0' <= (#[trigger] tail[i])
                <= '\u{7f}' by {
                if i < le {
                    assert(tail[i] == line[i]);
                } else {
                    assert(tail[i] == "\r\n\r\n"@[i - le]);
                }
            }
        }
        lemma_ascii_encode(tail);
        let tb = encode_utf8(tail);
        assert(tail.take(le) =~= line);
        assert(tail[le] == "\r\n\r\n"@[0] && tail[le + 1] == "\r\n\r\n"@[1]);
        lemma_tail_step(m, tail, line, ps[0]);
        // after the line: the remaining "\r\n" closes the block with no entry
        let rest = tail.skip(le + 2);
        assert(rest =~= "\r\n"@);
        lemma_empty_close(spec_insert_line_value(m, ps[0]));
        assert(fold_onto(m, ps) == m.insert(ps[0].0, ps[0].1)) by {
            assert(ps.drop_first() =~= Seq::<(Seq<char>, Seq<char>)>::empty());
            assert(fold_onto(
                m.insert(ps[0].0, ps[0].1),
                Seq::<(Seq<char>, Seq<char>)>::empty(),
            ) == m.insert(ps[0].0, ps[0].1));
        }
        assert(encode_utf8(tail).skip(le + 2) == encode_utf8("\r\n"@));
        assert(spec_headers_from(m, tb) == fold_onto(m, ps));
    } else {
        lemma_join_front(ps);
        let tail = join_pairs(ps) + "\r\n\r\n"@;
        let rest_pairs = ps.drop_first();
        assert(forall|k: int| 0 <= k < rest_pairs.len() ==> (#[trigger] rest_pairs[k]) == ps[k
            + 1]);
        assert(pairs_wf(rest_pairs));
        let rest_tail = join_pairs(rest_pairs) + "\r\n\r\n"@;
        assert(tail =~= line + "\r\n"@ + rest_tail);
        assert(is_ascii_chars(tail)) by {
            lemma_join_props(rest_pairs);
            assert forall|i: int| 0 <= i < tail.len() implies '\0' <= (#[trigger] tail[i])
                <= '\u{7f}' by {
                if i < le {
                    assert(tail[i] == line[i]);
                } else if i < le + 2 {
                    assert(tail[i] == "\r\n"@[i - le]);
                } else if i < le + 2 + join_pairs(rest_pairs).len() {
                    assert(tail[i] == join_pairs(rest_pairs)[i - le - 2]);
                } else {
                    assert(tail[i] == "\r\n\r\n"@[i - le - 2 - join_pairs(rest_pairs).len()]);
                }
            }
        }
        lemma_ascii_encode(tail);
        assert(tail.take(le) =~= line);
        assert(tail[le] == "\r\n"@[0] && tail[le + 1] == "\r\n"@[1]);
        lemma_tail_step(m, tail, line, ps[0]);
        assert(tail.skip(le + 2) =~= rest_tail);
        lemma_block_reparse(spec_insert_line_value(m, ps[0]), rest_pairs);
        assert(fold_onto(m, ps) == fold_onto(m.insert(ps[0].0, ps[0].1), rest_pairs));
    }
}

/// What one well-formed line inserts.
pub open spec fn spec_insert_line_value(
    m: Map<Seq<char>, Seq<char>>,
    p: (Seq<char>, Seq<char>),
) -> Map<Seq<char>, Seq<char>> {
    m.insert(p.0, p.1)
}

/// One step of header-block reparsing: the first line of `tail` is
/// consumed and inserted, leaving the rest.
proof fn lemma_tail_step(
    m: Map<Seq<char>, Seq<char>>,
    tail: Seq<char>,
    line: Seq<char>,
    p: (Seq<char>, Seq<char>),
)
    requires
        is_ascii_chars(tail),
        text_wf(p.0),
        text_wf(p.1),
        p.0.len() > 0,
        lower_chars(p.0) == p.0,
        forall|i: int|
            0 <= i && i + 1 < p.0.len() ==> !((#[trigger] p.0[i]) == ':' && p.0[i + 1] == ' '),
        line == pair_line(p),
        tail.len() >= line.len() + 2,
        tail.take(line.len() as int) == line,
        tail[line.len() as int] == '\r',
        tail[line.len() + 1 as int] == '\n',
    ensures
        spec_headers_from(m, encode_utf8(tail)) == spec_headers_from(
            spec_insert_line_value(m, p),
            encode_utf8(tail).skip(line.len() + 2 as int),
        ),
        encode_utf8(tail).skip(line.len() + 2 as int) == encode_utf8(
            tail.skip(line.len() + 2 as int),
        ),
{
    reveal_strlit(": ");
    lemma_pair_line_props(p);
    lemma_ascii_encode(tail);
    let tb = encode_utf8(tail);
    let le = line.len() as int;
    let nl = p.0.len() as int;
    // the first CRLF sits exactly after the line
    assert forall|k: int| 0 <= k < le implies !(#[trigger] tb[k] == 13 && tb[k + 1] == 10) by {
        lemma_ascii_byte_is(tail, k, 13);
        assert(tail[k] == line[k]);
        if tail[k] == '\r' {
            assert(text_wf(line));
        }
    }
    assert(tb[le] == 13 && tb[le + 1] == 10) by {
        lemma_ascii_byte_is(tail, le, 13);
        lemma_ascii_byte_is(tail, le + 1, 10);
    }
    lemma_find_pair_inverse(tb, 13, 10, 0, le);
    // the line's bytes
    lemma_ascii_slice(tail, 0, le);
    let lb = tb.take(le);
    assert(lb == encode_utf8(line)) by {
        assert(tb.take(le) =~= tb.subrange(0, le));
        assert(tail.subrange(0, le) == line) by {
            assert(tail.take(le) =~= tail.subrange(0, le));
        }
    }
    // the first `": "` in the line sits exactly after the name
    assert(is_ascii_chars(line)) by {
        assert forall|i: int| 0 <= i < line.len() implies '\0' <= (#[trigger] line[i])
            <= '\u{7f}' by {
            assert(line[i] == tail[i]);
        }
    }
    lemma_ascii_encode(line);
    let lbv = encode_utf8(line);
    assert forall|k: int| 0 <= k < nl implies !(#[trigger] lbv[k] == 58 && lbv[k + 1] == 32) by {
        lemma_ascii_byte_is(line, k, 58);
        lemma_ascii_byte_is(line, k + 1, 32);
        assert(!(line[k] == ':' && line[k + 1] == ' '));
    }
    assert(lbv[nl] == 58 && lbv[nl + 1] == 32) by {
        lemma_ascii_byte_is(line, nl, 58);
        lemma_ascii_byte_is(line, nl + 1, 32);
    }
    lemma_find_pair_inverse(lbv, 58, 32, 0, nl);
    // decoding the two pieces gives the pair back
    lemma_ascii_slice(line, 0, nl);
    lemma_ascii_slice(line, nl + 2, le);
    assert(lbv.take(nl) =~= lbv.subrange(0, nl));
    assert(lbv.skip(nl + 2) =~= lbv.subrange(nl + 2, le));
    assert(line.subrange(0, nl) == p.0) by {
        assert(line.take(nl) =~= line.subrange(0, nl));
    }
    assert(line.subrange(nl + 2, le) == p.1) by {
        assert(line.skip(nl + 2) =~= line.subrange(nl + 2, le));
    }
    lemma_ascii_encode(p.0);
    lemma_ascii_encode(p.1);
    assert(decode_utf8(lbv.take(nl)) == p.0);
    assert(decode_utf8(lbv.skip(nl + 2)) == p.1);
    assert(spec_insert_line(m, lb) == m.insert(p.0, p.1));
    // the recursion steps past the line and its CRLF
    lemma_ascii_slice(tail, le + 2, tail.len() as int);
    assert(tb.skip(le + 2) =~= tb.subrange(le + 2, tb.len() as int));
    assert(tail.skip(le + 2) =~= tail.subrange(le + 2, tail.len() as int));
}

/// The final `"\r\n"` of a block inserts nothing.
proof fn lemma_empty_close(m: Map<Seq<char>, Seq<char>>)
    ensures
        spec_headers_from(m, encode_utf8("\r\n"@)) == m,
{
    reveal_strlit("\r\n");
    assert(is_ascii_chars("\r\n"@)) by {
        assert forall|i: int| 0 <= i < "\r\n"@.len() implies '\0' <= (#[trigger] "\r\n"@[i])
            <= '\u{7f}' by {}
    }
    lemma_ascii_encode("\r\n"@);
    let b = encode_utf8("\r\n"@);
    assert(b.len() == 2);
    assert(b[0] == 13 && b[1] == 10) by {
        lemma_ascii_byte_is("\r\n"@, 0, 13);
        lemma_ascii_byte_is("\r\n"@, 1, 10);
    }
    lemma_find_pair_inverse(b, 13, 10, 0, 0);
    assert(spec_insert_line(m, b.take(0)) == m) by {
        assert(b.take(0) =~= Seq::<u8>::empty());
        assert(find_pair_from(b.take(0), 58, 32, 0) is None);
    }
    let rest = b.skip(2);
    assert(rest =~= Seq::<u8>::empty());
    assert(find_pair_from(rest, 13, 10, 0) is None);
    assert(find_pair_from(rest, 58, 32, 0) is None);
    assert(spec_insert_line(m, rest) == m);
    assert(spec_headers_from(m, rest) == m);
    assert(spec_headers_from(m, b) == spec_headers_from(spec_insert_line(m, b.take(0)), b.skip(2)));
}

/// Round-trip framing: for a response serialized with well-formed headers
/// that include an explicit content length, the emitted bytes reparse to
/// the same status code, the same header set, and the same body bytes:
/// the boundary is found exactly at the end of the head, the status-line
/// tokens are the protocol, the decimal code and the phrase, and the
/// header block decodes back to exactly the map that was serialized.
#[verifier::rlimit(100)]
pub proof fn lemma_response_round_trip(
    code: StatusCode,
    pairs: Seq<(Seq<char>, Seq<char>)>,
    body: Seq<u8>,
)
    requires
        pairs_wf(pairs),
        pairs.len() > 0,
        assoc_map(pairs).contains_key("content-length"@),
    ensures
        ({
            let head = spec_head_chars(code, pairs);
            let bytes = spec_render(code, pairs, Some(body), false);
            let hb = encode_utf8(head);
            let hl = head.len() as int;
            let sl = spec_status_line(code).len() as int;
            let dn = dec_chars(code.spec_code() as nat);
            &&& hb.len() == hl
            &&& valid_utf8(hb)
            &&& decode_utf8(hb) == head
            &&& bytes.len() == hl + body.len()
            &&& find_delim_from(bytes, 0) == Some(hl - 4)
            &&& bytes.take(hl) == hb
            &&& bytes.skip(hl) == body
            &&& find_byte_from(hb, 13, 0) == Some(sl - 2)
            &&& ({
                let line = hb.take(sl - 2);
                &&& find_byte_from(line, 32, 0) == Some(8int)
                &&& find_byte_from(line, 32, 9) == Some(9 + dn.len() as int)
                &&& decode_utf8(line.subrange(0, 8)) == "HTTP/1.1"@
                &&& decode_utf8(line.subrange(9, 9 + dn.len() as int)) == dn
                &&& spec_parse_u64(dn) == Some(code.spec_code() as u64)
                &&& decode_utf8(line.skip(10 + dn.len() as int)) == code.spec_phrase()
            })
            &&& spec_headers(hb.skip(sl - 2)) == assoc_map(pairs)
        }),
{
    reveal_strlit("HTTP/1.1 ");
    reveal_strlit("HTTP/1.1");
    reveal_strlit("\r\n\r\n");
    reveal_strlit("\r\n");
    lemma_status_line_props(code);
    lemma_join_props(pairs);
    lemma_head_props(code, pairs);
    let head = spec_head_chars(code, pairs);
    let slc = spec_status_line(code);
    let j = join_pairs(pairs);
    let dn = dec_chars(code.spec_code() as nat);
    let ph = code.spec_phrase();
    lemma_ascii_encode(head);
    let hb = encode_utf8(head);
    let hl = head.len() as int;
    let sl = slc.len() as int;
    let bytes = spec_render(code, pairs, Some(body), false);
    assert(bytes =~= hb + body);
    assert(bytes.take(hl) =~= hb);
    assert(bytes.skip(hl) =~= body);
    // the boundary sits exactly at the end of the head
    assert(delim_at(bytes, hl - 4)) by {
        lemma_ascii_byte_is(head, hl - 4, 13);
        lemma_ascii_byte_is(head, hl - 3, 10);
        lemma_ascii_byte_is(head, hl - 2, 13);
        lemma_ascii_byte_is(head, hl - 1, 10);
        assert(bytes[hl - 4] == hb[hl - 4] && bytes[hl - 3] == hb[hl - 3] && bytes[hl - 2] == hb[hl
            - 2] && bytes[hl - 1] == hb[hl - 1]);
    }
    assert forall|k: int| 0 <= k < hl - 4 implies !delim_at(bytes, k) by {
        if delim_at(bytes, k) {
            assert(bytes[k] == hb[k] && bytes[k + 1] == hb[k + 1] && bytes[k + 2] == hb[k + 2]
                && bytes[k + 3] == hb[k + 3]);
            lemma_ascii_byte_is(head, k, 13);
            lemma_ascii_byte_is(head, k + 1, 10);
            lemma_ascii_byte_is(head, k + 2, 13);
            lemma_ascii_byte_is(head, k + 3, 10);
            assert(head[k] == '\r' && head[k + 1] == '\n' && head[k + 2] == '\r' && head[k + 3]
                == '\n');
        }
    }
    lemma_find_delim_inverse(bytes, hl - 4);
    // the status line ends at the first CR
    let bc = head.skip(sl - 2);
    assert(bc == "\r\n"@ + j + "\r\n\r\n"@);
    assert(head[sl - 2] == '\r' && head[sl - 1] == '\n') by {
        assert(bc[0] == '\r' && bc[1] == '\n');
        assert(bc[0] == head[sl - 2] && bc[1] == head[sl - 1]);
    }
    assert forall|k: int| 0 <= k < sl - 2 implies hb[k] != 13 by {
        lemma_ascii_byte_is(head, k, 13);
        assert(head[k] == slc[k]);
    }
    assert(hb[sl - 2] == 13) by {
        lemma_ascii_byte_is(head, sl - 2, 13);
    }
    lemma_find_byte_inverse(hb, 13, 0, sl - 2);
    // the line's tokens
    let lc = slc.take(sl - 2);
    assert(head.subrange(0, sl - 2) =~= lc);
    lemma_ascii_slice(head, 0, sl - 2);
    let line = hb.take(sl - 2);
    assert(line =~= hb.subrange(0, sl - 2));
    assert(line == encode_utf8(lc));
    lemma_ascii_encode(lc);
    assert forall|k: int| 0 <= k < 8 implies line[k] != 32 by {
        lemma_ascii_byte_is(lc, k, 32);
        assert(lc[k] == slc[k]);
    }
    assert(line[8] == 32) by {
        lemma_ascii_byte_is(lc, 8, 32);
        assert(lc[8] == slc[8]);
    }
    lemma_find_byte_inverse(line, 32, 0, 8);
    assert forall|k: int| 9 <= k < 9 + dn.len() implies line[k] != 32 by {
        lemma_ascii_byte_is(lc, k, 32);
        assert(lc[k] == slc[k]);
    }
    assert(line[9 + dn.len() as int] == 32) by {
        lemma_ascii_byte_is(lc, 9 + dn.len() as int, 32);
        assert(lc[9 + dn.len() as int] == slc[9 + dn.len() as int]);
    }
    lemma_find_byte_inverse(line, 32, 9, 9 + dn.len() as int);
    lemma_ascii_slice(lc, 0, 8);
    assert(lc.subrange(0, 8) =~= "HTTP/1.1"@);
    lemma_ascii_encode(lc.subrange(0, 8));
    assert(decode_utf8(line.subrange(0, 8)) == "HTTP/1.1"@);
    lemma_ascii_slice(lc, 9, 9 + dn.len() as int);
    assert(lc.subrange(9, 9 + dn.len() as int) =~= dn) by {
        assert(slc.subrange(9, 9 + dn.len() as int) == dn);
        assert forall|k: int| 0 <= k < dn.len() implies lc.subrange(9, 9 + dn.len() as int)[k]
            == dn[k] by {
            assert(lc.subrange(9, 9 + dn.len() as int)[k] == slc[9 + k]);
            assert(slc.subrange(9, 9 + dn.len() as int)[k] == slc[9 + k]);
        }
    }
    lemma_ascii_encode(dn);
    assert(decode_utf8(line.subrange(9, 9 + dn.len() as int)) == dn);
    lemma_parse_dec_chars(code.spec_code() as nat);
    lemma_ascii_slice(lc, 10 + dn.len() as int, sl - 2);
    assert(line.skip(10 + dn.len() as int) =~= line.subrange(10 + dn.len() as int, sl - 2));
    assert(lc.subrange(10 + dn.len() as int, sl - 2) =~= ph) by {
        assert(slc.subrange(10 + dn.len() as int, sl - 2) == ph);
        assert forall|k: int| 0 <= k < ph.len() implies lc.subrange(
            10 + dn.len() as int,
            sl - 2,
        )[k] == ph[k] by {
            assert(lc.subrange(10 + dn.len() as int, sl - 2)[k] == slc[10 + dn.len() + k]);
            assert(slc.subrange(10 + dn.len() as int, sl - 2)[k] == slc[10 + dn.len() + k]);
        }
    }
    lemma_ascii_encode(ph);
    assert(decode_utf8(line.skip(10 + dn.len() as int)) == ph);
    // the header block reparses to the same map
    lemma_ascii_slice(head, sl - 2, hl);
    let blockb = hb.skip(sl - 2);
    assert(blockb =~= hb.subrange(sl - 2, hl));
    assert(head.subrange(sl - 2, hl) =~= bc);
    assert(blockb == encode_utf8(bc));
    assert(is_ascii_chars(bc)) by {
        assert forall|i: int| 0 <= i < bc.len() implies '\0' <= (#[trigger] bc[i]) <= '\u{7f}' by {
            assert(bc[i] == head[sl - 2 + i]);
        }
    }
    lemma_ascii_encode(bc);
    assert(blockb[0] == 13 && blockb[1] == 10) by {
        lemma_ascii_byte_is(bc, 0, 13);
        lemma_ascii_byte_is(bc, 1, 10);
    }
    lemma_find_pair_inverse(blockb, 13, 10, 0, 0);
    assert(spec_insert_line(Map::empty(), blockb.take(0)) == Map::<Seq<char>, Seq<char>>::empty())
        by {
        assert(blockb.take(0) =~= Seq::<u8>::empty());
        assert(find_pair_from(blockb.take(0), 58, 32, 0) is None);
    }
    let tailc = j + "\r\n\r\n"@;
    lemma_ascii_slice(bc, 2, bc.len() as int);
    assert(bc.skip(2) =~= bc.subrange(2, bc.len() as int));
    assert(bc.skip(2) =~= tailc);
    assert(blockb.skip(2) =~= blockb.subrange(2, blockb.len() as int));
    assert(blockb.skip(2) == encode_utf8(tailc));
    assert(spec_headers_from(Map::empty(), blockb) == spec_headers_from(
        Map::<Seq<char>, Seq<char>>::empty(),
        blockb.skip(2),
    ));
    lemma_block_reparse(Map::empty(), pairs);
    lemma_fold_onto_assoc(pairs);
    assert(spec_headers(blockb) == assoc_map(pairs));
}

} // verus!
