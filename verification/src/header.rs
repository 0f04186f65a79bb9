//! Case-insensitive header map: names are stored lower-cased and the last
//! written value for a name wins.

use vstd::prelude::*;

verus! {

use vstd::utf8::valid_utf8;
use vstd::utf8::decode_utf8;
use vstd::utf8::encode_utf8;
use vstd::utf8::encode_utf8_valid_utf8;
use vstd::utf8::encode_utf8_decode_utf8;
use vstd::string::StringSliceAdditionalSpecFns;
use vstd::string::StrSliceExecFns;
use vstd::string::StringExecFns;
use crate::strutil::assoc_map;
use crate::strutil::unique_keys;
use crate::strutil::lemma_assoc_contains;
use crate::strutil::lemma_assoc_lookup;
use crate::strutil::lemma_assoc_remove;
use crate::strutil::lower_chars;
use crate::strutil::lower_str;
use crate::strutil::lemma_lower_id;
use crate::strutil::lemma_lower_idem;
use crate::strutil::spec_parse_u64;
use crate::strutil::parse_u64_str;
use crate::strutil::u64_to_string;
use crate::strutil::dec_chars;
use crate::strutil::str_eq;
use crate::strutil::find_pair_from;
use crate::strutil::find_pair;
use crate::strutil::lemma_find_pair_from;
use crate::strutil::lemma_find_pair_shift;
use crate::strutil::lemma_utf8_split_at;
use crate::strutil::subvec;
use crate::strutil::utf8_to_string;

/// The header names the engine itself reads or writes.
#[derive(Copy, Clone, Debug, PartialEq, Eq, Structural)]
pub enum Names {
    ContentLength,
    TransferEncoding,
    ContentType,
}

impl Names {
    /// The wire form of the name, already lower-cased.
    pub open spec fn spec_str(self) -> Seq<char> {
        match self {
            Names::ContentLength => "content-length"@,
            Names::TransferEncoding => "transfer-encoding"@,
            Names::ContentType => "content-type"@,
        }
    }

    /// The wire form of the name, already lower-cased.
    pub fn as_str(&self) -> (r: &'static str)
        ensures
            r@ == self.spec_str(),
    {
        match self {
            Names::ContentLength => "content-length",
            Names::TransferEncoding => "transfer-encoding",
            Names::ContentType => "content-type",
        }
    }
}

/// Inserting a header line into a partial header map: split at the first
/// `": "`, drop the line when there is none or the name is empty.
pub open spec fn spec_insert_line(m: Map<Seq<char>, Seq<char>>, line: Seq<u8>) -> Map<
    Seq<char>,
    Seq<char>,
> {
    match find_pair_from(line, 58, 32, 0) {
        None => m,
        Some(i) => if i == 0 {
            m
        } else {
            m.insert(lower_chars(decode_utf8(line.take(i))), decode_utf8(line.skip(i + 2)))
        },
    }
}

/// The header map described by the raw header block `b`, inserted on top of
/// `m`: one header per CRLF-separated line.
pub open spec fn spec_headers_from(m: Map<Seq<char>, Seq<char>>, b: Seq<u8>) -> Map<
    Seq<char>,
    Seq<char>,
>
    decreases b.len(),
{
    match find_pair_from(b, 13, 10, 0) {
        None => spec_insert_line(m, b),
        Some(i) => if 0 <= i && i + 2 <= b.len() {
            spec_headers_from(spec_insert_line(m, b.take(i)), b.skip(i + 2))
        } else {
            m
        },
    }
}

/// The header map described by a raw header block.
pub open spec fn spec_headers(b: Seq<u8>) -> Map<Seq<char>, Seq<char>> {
    spec_headers_from(Map::empty(), b)
}

/// Case-insensitive header map. Names are stored lower-cased; writing a
/// name again replaces its value.
pub struct Headers {
    entries: Vec<(String, String)>,
}

/// The view of one stored pair.
pub open spec fn pair_view(e: (String, String)) -> (Seq<char>, Seq<char>) {
    let (k, v) = e;
    (k@, v@)
}

impl Headers {
    /// The stored (name, value) pairs, in serialization order.
    pub closed spec fn pairs(&self) -> Seq<(Seq<char>, Seq<char>)> {
        self.entries@.map_values(|e: (String, String)| pair_view(e))
    }

    /// The map from lower-cased names to their last written values.
    pub open spec fn as_map(&self) -> Map<Seq<char>, Seq<char>> {
        assoc_map(self.pairs())
    }

    /// Names are lower-cased and unique.
    pub open spec fn wf(&self) -> bool {
        &&& unique_keys(self.pairs())
        &&& forall|i: int|
            0 <= i < self.pairs().len() ==> lower_chars((#[trigger] self.pairs()[i]).0)
                == self.pairs()[i].0
    }

    /// An empty header map.
    pub fn new() -> (r: Headers)
        ensures
            r.wf(),
            r.as_map() == Map::<Seq<char>, Seq<char>>::empty(),
            r.pairs().len() == 0,
    {
        let r = Headers { entries: Vec::new() };
        proof {
            assert(r.pairs() =~= Seq::<(Seq<char>, Seq<char>)>::empty());
        }
        r
    }

    /// Looks a name up; the caller passes the name already lower-cased.
    pub fn get(&self, key: &str) -> (r: Option<&str>)
        requires
            self.wf(),
        ensures
            match r {
                Some(v) => self.as_map().contains_key(key@) && v@ == self.as_map()[key@],
                None => !self.as_map().contains_key(key@),
            },
    {
        let n = self.entries.len();
        let mut i: usize = 0;
        while i < n
            invariant
                self.wf(),
                0 <= i <= n == self.entries@.len(),
                forall|j: int| 0 <= j < i ==> (#[trigger] self.pairs()[j]).0 != key@,
            decreases n - i,
        {
            if str_eq(self.entries[i].0.as_str(), key) {
                proof {
                    lemma_assoc_lookup(self.pairs(), i as int);
                }
                return Some(self.entries[i].1.as_str());
            }
            i = i + 1;
        }
        proof {
            lemma_assoc_contains(self.pairs(), key@);
        }
        None
    }

    /// True when the (lower-cased) name is present.
    pub fn has(&self, key: &str) -> (r: bool)
        requires
            self.wf(),
        ensures
            r == self.as_map().contains_key(key@),
    {
        self.get(key).is_some()
    }

    /// Stores `value` under the lower-cased `key`, replacing any earlier
    /// value of that name.
    pub fn add(&mut self, key: String, value: String)
        requires
            old(self).wf(),
        ensures
            final(self).wf(),
            final(self).as_map() == old(self).as_map().insert(lower_chars(key@), value@),
    {
        let lk = lower_str(key.as_str());
        proof {
            lemma_lower_idem(key@);
        }
        self.upsert(lk, value);
    }

    /// Stores `value` under the lower-cased `key`.
    pub fn insert(&mut self, key: &str, value: &str)
        requires
            old(self).wf(),
        ensures
            final(self).wf(),
            final(self).as_map() == old(self).as_map().insert(lower_chars(key@), value@),
    {
        self.add(String::from_str(key), String::from_str(value));
    }

    /// Stores `value` under `key`, which is already lower-cased.
    fn upsert(&mut self, key: String, value: String)
        requires
            old(self).wf(),
            lower_chars(key@) == key@,
        ensures
            final(self).wf(),
            final(self).as_map() == old(self).as_map().insert(key@, value@),
    {
        let ghost ps = self.pairs();
        let n = self.entries.len();
        let mut i: usize = 0;
        while i < n
            invariant
                self.wf(),
                ps == self.pairs(),
                ps == old(self).pairs(),
                lower_chars(key@) == key@,
                0 <= i <= n == self.entries@.len(),
                forall|j: int| 0 <= j < i ==> (#[trigger] self.pairs()[j]).0 != key@,
            decreases n - i,
        {
            if str_eq(self.entries[i].0.as_str(), key.as_str()) {
                proof {
                    lemma_assoc_remove(ps, i as int);
                }
                self.entries.remove(i);
                proof {
                    assert(self.pairs() =~= ps.remove(i as int));
                }
                self.entries.push((key, value));
                proof {
                    assert(self.pairs() =~= ps.remove(i as int).push((key@, value@)));
                    assert(self.pairs().drop_last() =~= ps.remove(i as int));
                    assert(self.as_map() =~= assoc_map(ps).insert(key@, value@));
                    // well-formedness: every remaining key differs from `key`
                    assert(forall|m: int|
                        0 <= m < ps.remove(i as int).len() ==> (#[trigger] ps.remove(i as int)[m]).0
                            != key@);
                }
                return;
            }
            i = i + 1;
        }
        proof {
            lemma_assoc_contains(ps, key@);
        }
        self.entries.push((key, value));
        proof {
            assert(self.pairs() =~= ps.push((key@, value@)));
            assert(self.pairs().drop_last() =~= ps);
        }
    }

    /// The parsed `content-length` value, absent when the header is missing
    /// or not a decimal number.
    pub fn content_length(&self) -> (r: Option<u64>)
        requires
            self.wf(),
        ensures
            r == spec_content_length(self.as_map()),
    {
        proof {
            reveal_strlit("content-length");
        }
        match self.get("content-length") {
            Some(s) => parse_u64_str(s),
            None => None,
        }
    }

    /// Sets `content-length` and clears any `transfer-encoding` marker: the
    /// two framing signals are mutually exclusive.
    pub fn set_content_length(&mut self, length: u64)
        requires
            old(self).wf(),
        ensures
            final(self).wf(),
            final(self).as_map() == old(self).as_map().remove("transfer-encoding"@).insert(
                "content-length"@,
                dec_chars(length as nat),
            ),
    {
        proof {
            lemma_names_lower();
        }
        self.remove_entry(Names::TransferEncoding.as_str());
        let v = u64_to_string(length);
        self.upsert(String::from_str(Names::ContentLength.as_str()), v);
    }

    /// Removes the entry for the (lower-cased) name, if any.
    fn remove_entry(&mut self, key: &str)
        requires
            old(self).wf(),
        ensures
            final(self).wf(),
            final(self).as_map() == old(self).as_map().remove(key@),
    {
        let ghost ps = self.pairs();
        let n = self.entries.len();
        let mut i: usize = 0;
        while i < n
            invariant
                self.wf(),
                ps == self.pairs(),
                ps == old(self).pairs(),
                0 <= i <= n == self.entries@.len(),
                forall|j: int| 0 <= j < i ==> (#[trigger] self.pairs()[j]).0 != key@,
            decreases n - i,
        {
            if str_eq(self.entries[i].0.as_str(), key) {
                proof {
                    lemma_assoc_remove(ps, i as int);
                }
                self.entries.remove(i);
                proof {
                    assert(self.pairs() =~= ps.remove(i as int));
                }
                return;
            }
            i = i + 1;
        }
        proof {
            lemma_assoc_contains(ps, key@);
            assert(self.as_map() =~= self.as_map().remove(key@));
        }
    }

    /// Appends the serialized header block, `name: value` pairs joined by
    /// CRLF with no trailing CRLF, onto `out`.
    pub fn send(&self, out: &mut String)
        ensures
            final(out)@ == old(out)@ + join_pairs(self.pairs()),
    {
        let n = self.entries.len();
        let mut i: usize = 0;
        while i < n
            invariant
                0 <= i <= n == self.entries@.len(),
                out@ == old(out)@ + join_pairs(self.pairs().take(i as int)),
            decreases n - i,
        {
            if i > 0 {
                out.append("\r\n");
            }
            out.append(self.entries[i].0.as_str());
            out.append(": ");
            out.append(self.entries[i].1.as_str());
            proof {
                assert(self.pairs().take(i + 1 as int).drop_last() =~= self.pairs().take(i as int));
                assert(out@ == old(out)@ + join_pairs(self.pairs().take(i + 1 as int)));
            }
            i = i + 1;
        }
        proof {
            assert(self.pairs().take(n as int) =~= self.pairs());
        }
    }

    /// Parses a raw header block: one header per line, split at the first
    /// `": "`; lines without the separator or with an empty name are
    /// dropped.
    pub fn from(value: &str) -> (r: Headers)
        ensures
            r.wf(),
            r.as_map() == spec_headers(value.spec_bytes()),
    {
        broadcast use encode_utf8_valid_utf8;

        let bytes = value.as_bytes_vec();
        let mut h = Headers::new();
        let mut pos: usize = 0;
        proof {
            assert(bytes@.skip(0) =~= bytes@);
        }
        loop
            invariant
                h.wf(),
                pos <= bytes@.len(),
                valid_utf8(bytes@),
                pos == 0 || bytes@[pos as int - 1] < 128,
                spec_headers(value.spec_bytes()) == spec_headers_from(
                    h.as_map(),
                    bytes@.skip(pos as int),
                ),
                bytes@ == value.spec_bytes(),
            decreases bytes@.len() - pos,
        {
            let blen = bytes.len();
            match find_pair(&bytes, 13, 10, pos) {
                Some(i) => {
                    proof {
                        lemma_find_pair_from(bytes@, 13, 10, pos as int);
                        lemma_find_pair_shift(bytes@, 13, 10, pos as int, pos as int);
                    }
                    h.insert_line(&bytes, pos, i);
                    proof {
                        assert(bytes@.skip(pos as int).skip(i + 2 - pos as int) =~= bytes@.skip(
                            i + 2,
                        ));
                        assert(bytes@.skip(pos as int).take(i - pos as int) =~= bytes@.subrange(
                            pos as int,
                            i as int,
                        ));
                    }
                    pos = i + 2;
                },
                None => {
                    proof {
                        lemma_find_pair_shift(bytes@, 13, 10, pos as int, pos as int);
                        assert(bytes@.skip(pos as int) =~= bytes@.subrange(
                            pos as int,
                            bytes@.len() as int,
                        ));
                    }
                    h.insert_line(&bytes, pos, bytes.len());
                    return h;
                },
            }
        }
    }

    /// Parses the single header line `bytes[lo..hi]` into the map.
    fn insert_line(&mut self, bytes: &Vec<u8>, lo: usize, hi: usize)
        requires
            old(self).wf(),
            lo <= hi <= bytes@.len(),
            valid_utf8(bytes@),
            lo == 0 || bytes@[lo as int - 1] < 128,
            hi == bytes@.len() || bytes@[hi as int] < 128,
        ensures
            final(self).wf(),
            final(self).as_map() == spec_insert_line(
                old(self).as_map(),
                bytes@.subrange(lo as int, hi as int),
            ),
    {
        broadcast use encode_utf8_decode_utf8;

        let ghost line = bytes@.subrange(lo as int, hi as int);
        proof {
            lemma_utf8_split_at(bytes@, lo as int);
            lemma_utf8_split_at(bytes@.skip(lo as int), hi - lo as int);
            assert(bytes@.skip(lo as int).take(hi - lo as int) =~= line);
            assert(valid_utf8(line));
        }
        let lv = subvec(bytes, lo, hi);
        match find_pair(&lv, 58, 32, 0) {
            Some(i) => {
                if i == 0 {
                    return;
                }
                proof {
                    lemma_find_pair_from(line, 58, 32, 0);
                    lemma_utf8_split_at(line, i as int);
                    lemma_utf8_split_at(line.skip(i as int), 2);
                    assert(line.skip(i as int).skip(2) =~= line.skip(i + 2));
                    assert(line.skip(i as int)[1] == line[i + 1]);
                }
                let kb = subvec(&lv, 0, i);
                let vb = subvec(&lv, i + 2, lv.len());
                proof {
                    assert(kb@ =~= line.take(i as int));
                    assert(vb@ =~= line.skip(i + 2));
                }
                let ks = match utf8_to_string(kb) {
                    Some(s) => s,
                    None => {
                        proof {
                            assert(false);
                        }
                        return;
                    },
                };
                let vs = match utf8_to_string(vb) {
                    Some(s) => s,
                    None => {
                        proof {
                            assert(false);
                        }
                        return;
                    },
                };
                self.add(ks, vs);
            },
            None => {},
        }
    }
}

/// The parsed `content-length` of a header map.
pub open spec fn spec_content_length(m: Map<Seq<char>, Seq<char>>) -> Option<u64> {
    if m.contains_key("content-length"@) {
        spec_parse_u64(m["content-length"@])
    } else {
        None
    }
}

/// The serialized header block: `name: value` pairs joined by CRLF.
pub open spec fn join_pairs(ps: Seq<(Seq<char>, Seq<char>)>) -> Seq<char>
    decreases ps.len(),
{
    if ps.len() == 0 {
        Seq::empty()
    } else if ps.len() == 1 {
        ps[0].0 + ": "@ + ps[0].1
    } else {
        join_pairs(ps.drop_last()) + "\r\n"@ + ps.last().0 + ": "@ + ps.last().1
    }
}

/// The engine's own header names are lower-case.
pub proof fn lemma_names_lower()
    ensures
        lower_chars("content-length"@) == "content-length"@,
        lower_chars("transfer-encoding"@) == "transfer-encoding"@,
        lower_chars("content-type"@) == "content-type"@,
{
    reveal_strlit("content-length");
    reveal_strlit("transfer-encoding");
    reveal_strlit("content-type");
    lemma_lower_id("content-length"@);
    lemma_lower_id("transfer-encoding"@);
    lemma_lower_id("content-type"@);
}

/// Plain header text: ASCII with no line breaks.
pub open spec fn text_wf(s: Seq<char>) -> bool {
    forall|i: int|
        0 <= i < s.len() ==> '\0' <= (#[trigger] s[i]) <= '\u{7f}' && s[i] != '\r' && s[i]
            != '\n'
}

/// Pairs that serialize and reparse cleanly: names are non-empty,
/// lower-cased, hold no `": "`, and names and values are plain text.
pub open spec fn pairs_wf(ps: Seq<(Seq<char>, Seq<char>)>) -> bool {
    forall|k: int|
        0 <= k < ps.len() ==> {
            &&& text_wf((#[trigger] ps[k]).0)
            &&& text_wf(ps[k].1)
            &&& ps[k].0.len() > 0
            &&& lower_chars(ps[k].0) == ps[k].0
            &&& (forall|i: int|
                0 <= i && i + 1 < ps[k].0.len() ==> !((#[trigger] ps[k].0[i]) == ':'
                    && ps[k].0[i + 1] == ' '))
        }
}

/// The serialized form of one pair.
pub open spec fn pair_line(p: (Seq<char>, Seq<char>)) -> Seq<char> {
    p.0 + ": "@ + p.1
}

/// A serialized line of a well-formed pair is plain text with the first
/// `": "` exactly at the end of the name.
pub proof fn lemma_pair_line_props(p: (Seq<char>, Seq<char>))
    requires
        text_wf(p.0),
        text_wf(p.1),
        p.0.len() > 0,
        forall|i: int|
            0 <= i && i + 1 < p.0.len() ==> !((#[trigger] p.0[i]) == ':' && p.0[i + 1] == ' '),
    ensures
        ({
            let line = pair_line(p);
            &&& line.len() == p.0.len() + 2 + p.1.len()
            &&& text_wf(line)
            &&& line[p.0.len() as int] == ':'
            &&& line[p.0.len() + 1 as int] == ' '
            &&& forall|i: int|
                0 <= i < p.0.len() ==> !((#[trigger] line[i]) == ':' && line[i + 1] == ' ')
            &&& line.take(p.0.len() as int) == p.0
            &&& line.skip(p.0.len() + 2 as int) == p.1
        }),
{
    reveal_strlit(": ");
    let line = pair_line(p);
    let n = p.0.len() as int;
    assert(": "@.len() == 2);
    assert(": "@[0] == ':' && ": "@[1] == ' ');
    assert(line.take(n) =~= p.0);
    assert(line.skip(n + 2) =~= p.1);
    assert(line.skip(p.0.len() + 2 as int) == line.skip(n + 2));
    assert('\0' <= ':' <= '\u{7f}' && '\0' <= ' ' <= '\u{7f}');
    assert(':' != '\r' && ':' != '\n' && ' ' != '\r' && ' ' != '\n');
    assert forall|i: int| 0 <= i < line.len() implies '\0' <= (#[trigger] line[i]) <= '\u{7f}'
        && line[i] != '\r' && line[i] != '\n' by {
        if i < n {
            assert(line[i] == p.0[i]);
        } else if i < n + 2 {
            assert(line[i] == ": "@[i - n]);
        } else {
            assert(line[i] == p.1[i - n - 2]);
        }
    }
    assert forall|i: int| 0 <= i < n implies !((#[trigger] line[i]) == ':' && line[i + 1]
        == ' ') by {
        if i + 1 < n {
            assert(line[i] == p.0[i] && line[i + 1] == p.0[i + 1]);
        } else {
            assert(line[i] == p.0[i] && line[i + 1] == ':');
        }
    }
}

/// The serialized header block of well-formed pairs: every CR starts a
/// CRLF separator that is followed by more text, every LF ends one, and
/// the block neither starts nor ends mid-separator.
pub proof fn lemma_join_props(ps: Seq<(Seq<char>, Seq<char>)>)
    requires
        pairs_wf(ps),
        ps.len() > 0,
    ensures
        ({
            let j = join_pairs(ps);
            &&& j.len() >= 3
            &&& vstd::utf8::is_ascii_chars(j)
            &&& j[0] != '\r' && j[0] != '\n'
            &&& j.last() != '\r' && j.last() != '\n'
            &&& (forall|i: int|
                0 <= i < j.len() && (#[trigger] j[i]) == '\r' ==> i + 2 < j.len() && j[i + 1]
                    == '\n' && j[i + 2] != '\r')
            &&& (forall|i: int|
                0 <= i < j.len() && (#[trigger] j[i]) == '\n' ==> i >= 1 && j[i - 1] == '\r')
        }),
    decreases ps.len(),
{
    reveal_strlit("\r\n");
    assert("\r\n"@.len() == 2 && "\r\n"@[0] == '\r' && "\r\n"@[1] == '\n');
    let j = join_pairs(ps);
    if ps.len() == 1 {
        lemma_pair_line_props(ps[0]);
        let line = pair_line(ps[0]);
        assert(j =~= line);
        assert(j[0] == ps[0].0[0]);
        assert(j.last() != '\r' && j.last() != '\n');
        assert forall|i: int| 0 <= i < j.len() implies (#[trigger] j[i]) != '\r' && j[i]
            != '\n' && '\0' <= j[i] <= '\u{7f}' by {
            assert(j[i] == line[i]);
        }
        assert(vstd::utf8::is_ascii_chars(j));
    } else {
        let dl = ps.drop_last();
        assert(forall|k: int| 0 <= k < dl.len() ==> (#[trigger] dl[k]) == ps[k]);
        lemma_join_props(dl);
        let jd = join_pairs(dl);
        lemma_pair_line_props(ps.last());
        let line = pair_line(ps.last());
        assert(j =~= jd + "\r\n"@ + line);
        let m = jd.len() as int;
        assert(line.len() >= 3);
        assert(j[0] == jd[0]);
        assert(j.last() == line.last());
        assert forall|i: int| 0 <= i < j.len() implies '\0' <= (#[trigger] j[i])
            <= '\u{7f}' by {
            if i < m {
                assert(j[i] == jd[i]);
                assert(vstd::utf8::is_ascii_chars(jd));
            } else if i < m + 2 {
                assert(j[i] == "\r\n"@[i - m]);
                assert('\0' <= '\r' <= '\u{7f}' && '\0' <= '\n' <= '\u{7f}');
            } else {
                assert(j[i] == line[i - m - 2]);
            }
        }
        assert(vstd::utf8::is_ascii_chars(j));
        assert forall|i: int| 0 <= i < j.len() && (#[trigger] j[i]) == '\r' implies i + 2
            < j.len() && j[i + 1] == '\n' && j[i + 2] != '\r' by {
            if i < m {
                assert(j[i] == jd[i]);
                assert(jd[i] == '\r');
                assert(i + 2 < m);
                assert(j[i + 1] == jd[i + 1] && j[i + 2] == jd[i + 2]);
            } else if i == m {
                assert(j[i + 1] == "\r\n"@[1]);
                assert(j[i + 2] == line[0]);
                assert(line[0] == ps.last().0[0]);
            } else if i == m + 1 {
                assert(j[i] == '\n');
            } else {
                assert(j[i] == line[i - m - 2]);
            }
        }
        assert forall|i: int| 0 <= i < j.len() && (#[trigger] j[i]) == '\n' implies i >= 1 && j[i
            - 1] == '\r' by {
            if i < m {
                assert(j[i] == jd[i]);
                assert(jd[i] == '\n');
                assert(i >= 1 && j[i - 1] == jd[i - 1]);
            } else if i == m {
                assert(j[i] == '\r');
            } else if i == m + 1 {
                assert(j[i - 1] == "\r\n"@[0]);
            } else {
                assert(j[i] == line[i - m - 2]);
            }
        }
    }
}

/// Splitting the serialized block at the first separator.
pub proof fn lemma_join_front(ps: Seq<(Seq<char>, Seq<char>)>)
    requires
        ps.len() >= 2,
    ensures
        join_pairs(ps) == pair_line(ps[0]) + "\r\n"@ + join_pairs(ps.drop_first()),
    decreases ps.len(),
{
    if ps.len() == 2 {
        assert(ps.drop_last() =~= seq![ps[0]]);
        assert(ps.drop_first() =~= seq![ps[1]]);
        assert(join_pairs(seq![ps[0]]) == pair_line(ps[0]));
        assert(join_pairs(seq![ps[1]]) == pair_line(ps[1]));
        assert(join_pairs(ps) =~= pair_line(ps[0]) + "\r\n"@ + join_pairs(ps.drop_first()));
    } else {
        let dl = ps.drop_last();
        lemma_join_front(dl);
        assert(ps.drop_first().drop_last() =~= dl.drop_first());
        assert(ps.drop_first().last() == ps.last());
        assert(ps.drop_first().len() >= 2);
        assert(join_pairs(ps.drop_first()) == join_pairs(dl.drop_first()) + "\r\n"@ + pair_line(
            ps.last(),
        ));
        assert(join_pairs(ps) =~= pair_line(ps[0]) + "\r\n"@ + join_pairs(ps.drop_first()));
    }
}

} // verus!
