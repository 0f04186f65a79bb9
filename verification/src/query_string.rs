//! Query-string decoding: `key=value` pairs separated by `&`. A repeated
//! key is promoted from a single value to an ordered list of values.

use vstd::prelude::*;

verus! {

use vstd::utf8::valid_utf8;
use vstd::utf8::decode_utf8;
use vstd::utf8::encode_utf8;
use vstd::utf8::encode_utf8_valid_utf8;
use vstd::utf8::encode_utf8_decode_utf8;
use vstd::string::StringSliceAdditionalSpecFns;
use vstd::string::StrSliceExecFns;
use vstd::string::StringExecFns;
use crate::strutil::assoc_map;
use crate::strutil::unique_keys;
use crate::strutil::lemma_assoc_contains;
use crate::strutil::lemma_assoc_lookup;
use crate::strutil::lemma_assoc_remove;
use crate::strutil::find_byte_from;
use crate::strutil::find_byte;
use crate::strutil::lemma_find_byte_from;
use crate::strutil::lemma_find_byte_shift;
use crate::strutil::lemma_utf8_split_at;
use crate::strutil::subvec;
use crate::strutil::utf8_to_string;
use crate::strutil::str_eq;

/// The value(s) stored under one query key: a single value, or the ordered
/// list a repeated key was promoted to.
#[derive(Debug, Clone, PartialEq, Eq)]
pub enum QueryParam {
    Single(String),
    Multiple(Vec<String>),
}

/// The mathematical value of a `QueryParam`.
pub enum ParamValue {
    Single(Seq<char>),
    Multiple(Seq<Seq<char>>),
}

impl View for QueryParam {
    type V = ParamValue;

    open spec fn view(&self) -> ParamValue {
        match self {
            QueryParam::Single(s) => ParamValue::Single(s@),
            QueryParam::Multiple(v) => ParamValue::Multiple(v.deep_view()),
        }
    }
}

/// Splits one `key=value` part; a part without `=` is a key with the empty
/// value.
pub open spec fn spec_param_insert(m: Map<Seq<char>, ParamValue>, part: Seq<u8>) -> Map<
    Seq<char>,
    ParamValue,
> {
    let kb = match find_byte_from(part, 61, 0) {
        Some(i) => part.take(i),
        None => part,
    };
    let vb = match find_byte_from(part, 61, 0) {
        Some(i) => part.skip(i + 1),
        None => Seq::empty(),
    };
    let k = decode_utf8(kb);
    let v = decode_utf8(vb);
    if m.contains_key(k) {
        match m[k] {
            ParamValue::Single(o) => m.insert(k, ParamValue::Multiple(seq![o, v])),
            ParamValue::Multiple(vs) => m.insert(k, ParamValue::Multiple(vs.push(v))),
        }
    } else {
        m.insert(k, ParamValue::Single(v))
    }
}

/// The query map described by the raw bytes `b`, inserted on top of `m`:
/// parts separated by `&`, in order.
pub open spec fn spec_query_from(m: Map<Seq<char>, ParamValue>, b: Seq<u8>) -> Map<
    Seq<char>,
    ParamValue,
>
    decreases b.len(),
{
    match find_byte_from(b, 38, 0) {
        None => spec_param_insert(m, b),
        Some(i) => if 0 <= i < b.len() {
            spec_query_from(spec_param_insert(m, b.take(i)), b.skip(i + 1))
        } else {
            m
        },
    }
}

/// The query map described by a raw query string.
pub open spec fn spec_query(b: Seq<u8>) -> Map<Seq<char>, ParamValue> {
    spec_query_from(Map::empty(), b)
}

/// A decoded query string.
pub struct QueryString {
    items: Vec<(String, QueryParam)>,
}

impl View for QueryString {
    type V = Map<Seq<char>, ParamValue>;

    closed spec fn view(&self) -> Map<Seq<char>, ParamValue> {
        assoc_map(self.params())
    }
}

impl QueryString {
    /// The stored (key, value) pairs.
    pub closed spec fn params(&self) -> Seq<(Seq<char>, ParamValue)> {
        self.items@.map_values(|e: (String, QueryParam)| param_view(e))
    }

    /// Keys are unique.
    pub open spec fn wf(&self) -> bool {
        unique_keys(self.params())
    }

    /// Looks a key up.
    pub fn get(&self, key: &str) -> (r: Option<&QueryParam>)
        requires
            self.wf(),
        ensures
            match r {
                Some(p) => self@.contains_key(key@) && p@ == self@[key@],
                None => !self@.contains_key(key@),
            },
    {
        let n = self.items.len();
        let mut i: usize = 0;
        while i < n
            invariant
                self.wf(),
                0 <= i <= n == self.items@.len(),
                forall|j: int| 0 <= j < i ==> (#[trigger] self.params()[j]).0 != key@,
            decreases n - i,
        {
            if str_eq(self.items[i].0.as_str(), key) {
                proof {
                    lemma_assoc_lookup(self.params(), i as int);
                }
                return Some(&self.items[i].1);
            }
            i = i + 1;
        }
        proof {
            lemma_assoc_contains(self.params(), key@);
        }
        None
    }

    /// Renders the decoded parameters back as `?key=value&...`, with a `&`
    /// after every value.
    pub fn to_string(&self) -> (r: String)
        ensures
            r@ == seq!['?'] + render_params(self.params()),
    {
        let mut out = String::new();
        crate::strutil::push_char(&mut out, '?');
        let n = self.items.len();
        let mut i: usize = 0;
        while i < n
            invariant
                0 <= i <= n == self.items@.len(),
                out@ == seq!['?'] + render_params(self.params().take(i as int)),
            decreases n - i,
        {
            match &self.items[i].1 {
                QueryParam::Single(v) => {
                    out.append(self.items[i].0.as_str());
                    out.append("=");
                    out.append(v.as_str());
                    out.append("&");
                },
                QueryParam::Multiple(values) => {
                    let ghost k = self.params()[i as int].0;
                    let ghost vs = values.deep_view();
                    let m = values.len();
                    let mut j: usize = 0;
                    while j < m
                        invariant
                            0 <= j <= m == values@.len(),
                            vs == values.deep_view(),
                            k == self.items@[i as int].0@,
                            i < self.items@.len(),
                            out@ == seq!['?'] + render_params(self.params().take(i as int))
                                + render_multi(k, vs.take(j as int)),
                        decreases m - j,
                    {
                        out.append(self.items[i].0.as_str());
                        out.append("=");
                        out.append(values[j].as_str());
                        out.append("&");
                        proof {
                            assert(vs.take(j + 1 as int).drop_last() =~= vs.take(j as int));
                            assert(vs.take(j + 1 as int).last() == values@[j as int]@);
                        }
                        j = j + 1;
                    }
                    proof {
                        assert(vs.take(m as int) =~= vs);
                    }
                },
            }
            proof {
                assert(self.params().take(i + 1 as int).drop_last() =~= self.params().take(
                    i as int,
                ));
            }
            i = i + 1;
        }
        proof {
            assert(self.params().take(n as int) =~= self.params());
        }
        out
    }

    /// Decodes a raw query string.
    pub fn from(buf: &str) -> (r: QueryString)
        ensures
            r.wf(),
            r@ == spec_query(buf.spec_bytes()),
    {
        broadcast use encode_utf8_valid_utf8;

        let bytes = buf.as_bytes_vec();
        let mut q = QueryString { items: Vec::new() };
        proof {
            assert(q.params() =~= Seq::<(Seq<char>, ParamValue)>::empty());
            assert(bytes@.skip(0) =~= bytes@);
        }
        let mut pos: usize = 0;
        loop
            invariant
                q.wf(),
                pos <= bytes@.len(),
                valid_utf8(bytes@),
                pos == 0 || bytes@[pos as int - 1] < 128,
                spec_query(buf.spec_bytes()) == spec_query_from(q@, bytes@.skip(pos as int)),
                bytes@ == buf.spec_bytes(),
            decreases bytes@.len() - pos,
        {
            match find_byte(&bytes, 38, pos) {
                Some(i) => {
                    proof {
                        lemma_find_byte_from(bytes@, 38, pos as int);
                        lemma_find_byte_shift(bytes@, 38, pos as int, pos as int);
                        assert(i < bytes@.len());
                    }
                    let blen = bytes.len();
                    let next: usize = i + 1;
                    q.param_insert(&bytes, pos, i);
                    proof {
                        assert(bytes@.skip(pos as int).skip(i + 1 - pos as int) =~= bytes@.skip(
                            i + 1,
                        ));
                        assert(bytes@.skip(pos as int).take(i - pos as int) =~= bytes@.subrange(
                            pos as int,
                            i as int,
                        ));
                    }
                    pos = next;
                },
                None => {
                    proof {
                        lemma_find_byte_shift(bytes@, 38, pos as int, pos as int);
                        assert(bytes@.skip(pos as int) =~= bytes@.subrange(
                            pos as int,
                            bytes@.len() as int,
                        ));
                    }
                    q.param_insert(&bytes, pos, bytes.len());
                    return q;
                },
            }
        }
    }

    /// Decodes the single part `bytes[lo..hi]` into the map, promoting a
    /// repeated key to `Multiple`.
    fn param_insert(&mut self, bytes: &Vec<u8>, lo: usize, hi: usize)
        requires
            old(self).wf(),
            lo <= hi <= bytes@.len(),
            valid_utf8(bytes@),
            lo == 0 || bytes@[lo as int - 1] < 128,
            hi == bytes@.len() || bytes@[hi as int] < 128,
        ensures
            final(self).wf(),
            final(self)@ == spec_param_insert(old(self)@, bytes@.subrange(lo as int, hi as int)),
    {
        broadcast use encode_utf8_decode_utf8;

        let ghost part = bytes@.subrange(lo as int, hi as int);
        proof {
            lemma_utf8_split_at(bytes@, lo as int);
            lemma_utf8_split_at(bytes@.skip(lo as int), hi - lo as int);
            assert(bytes@.skip(lo as int).take(hi - lo as int) =~= part);
            assert(valid_utf8(part));
        }
        let pv = subvec(bytes, lo, hi);
        let (kb, vb) = match find_byte(&pv, 61, 0) {
            Some(i) => {
                proof {
                    lemma_find_byte_from(part, 61, 0);
                    lemma_utf8_split_at(part, i as int);
                    lemma_utf8_split_at(part.skip(i as int), 1);
                    assert(part.skip(i as int).skip(1) =~= part.skip(i + 1));
                }
                let kb = subvec(&pv, 0, i);
                let vb = subvec(&pv, i + 1, pv.len());
                proof {
                    assert(kb@ =~= part.take(i as int));
                    assert(vb@ =~= part.skip(i + 1));
                }
                (kb, vb)
            },
            None => {
                let kb = subvec(&pv, 0, pv.len());
                let vb: Vec<u8> = Vec::new();
                proof {
                    assert(kb@ =~= part);
                    assert(vb@ =~= Seq::<u8>::empty());
                    assert(valid_utf8(vb@));
                    assert(decode_utf8(vb@) =~= Seq::<char>::empty());
                }
                (kb, vb)
            },
        };
        let ks = match utf8_to_string(kb) {
            Some(s) => s,
            None => {
                proof {
                    assert(false);
                }
                return;
            },
        };
        let vs = match utf8_to_string(vb) {
            Some(s) => s,
            None => {
                proof {
                    assert(false);
                }
                return;
            },
        };
        self.promote_insert(ks, vs);
    }

    /// Stores `value` under `key`; a key seen before is promoted to
    /// `Multiple`, keeping the order values were seen in.
    fn promote_insert(&mut self, key: String, value: String)
        requires
            old(self).wf(),
        ensures
            final(self).wf(),
            final(self)@ == (if old(self)@.contains_key(key@) {
                match old(self)@[key@] {
                    ParamValue::Single(o) => old(self)@.insert(
                        key@,
                        ParamValue::Multiple(seq![o, value@]),
                    ),
                    ParamValue::Multiple(vs) => old(self)@.insert(
                        key@,
                        ParamValue::Multiple(vs.push(value@)),
                    ),
                }
            } else {
                old(self)@.insert(key@, ParamValue::Single(value@))
            }),
    {
        let ghost ps = self.params();
        let n = self.items.len();
        let mut i: usize = 0;
        while i < n
            invariant
                self.wf(),
                ps == self.params(),
                ps == old(self).params(),
                0 <= i <= n == self.items@.len(),
                forall|j: int| 0 <= j < i ==> (#[trigger] self.params()[j]).0 != key@,
            decreases n - i,
        {
            if str_eq(self.items[i].0.as_str(), key.as_str()) {
                proof {
                    assert(ps[i as int].0 == key@);
                    lemma_assoc_lookup(ps, i as int);
                    lemma_assoc_remove(ps, i as int);
                    assert(old(self)@[key@] == ps[i as int].1);
                }
                let entry = self.items.remove(i);
                proof {
                    assert(self.params() =~= ps.remove(i as int));
                }
                let promoted = match entry.1 {
                    QueryParam::Single(o) => {
                        let mut vv: Vec<String> = Vec::new();
                        vv.push(o);
                        vv.push(value);
                        proof {
                            assert(vv.deep_view() =~= seq![
                                ps[i as int].1->Single_0,
                                value@,
                            ]);
                        }
                        QueryParam::Multiple(vv)
                    },
                    QueryParam::Multiple(mut vv) => {
                        let ghost oldvs = vv.deep_view();
                        vv.push(value);
                        proof {
                            assert(vv.deep_view() =~= oldvs.push(value@));
                        }
                        QueryParam::Multiple(vv)
                    },
                };
                self.items.push((entry.0, promoted));
                proof {
                    assert(self.params() =~= ps.remove(i as int).push((
                        key@,
                        promoted@,
                    )));
                    assert(self.params().drop_last() =~= ps.remove(i as int));
                    assert(self@ =~= assoc_map(ps).insert(key@, promoted@));
                    assert(forall|m: int|
                        0 <= m < ps.remove(i as int).len() ==> (#[trigger] ps.remove(i as int)[m]).0
                            != key@);
                }
                return;
            }
            i = i + 1;
        }
        proof {
            lemma_assoc_contains(ps, key@);
        }
        self.items.push((key, QueryParam::Single(value)));
        proof {
            assert(self.params() =~= ps.push((key@, ParamValue::Single(value@))));
            assert(self.params().drop_last() =~= ps);
        }
    }
}

/// The view of one stored (key, value) pair.
pub open spec fn param_view(e: (String, QueryParam)) -> (Seq<char>, ParamValue) {
    let (k, v) = e;
    (k@, v@)
}

/// `key=value&` for every value stored under `key`, in order.
pub open spec fn render_multi(k: Seq<char>, vs: Seq<Seq<char>>) -> Seq<char>
    decreases vs.len(),
{
    if vs.len() == 0 {
        Seq::empty()
    } else {
        render_multi(k, vs.drop_last()) + k + "="@ + vs.last() + "&"@
    }
}

/// The rendering of one decoded parameter.
pub open spec fn render_param(k: Seq<char>, p: ParamValue) -> Seq<char> {
    match p {
        ParamValue::Single(v) => k + "="@ + v + "&"@,
        ParamValue::Multiple(vs) => render_multi(k, vs),
    }
}

/// The rendering of a parameter list.
pub open spec fn render_params(ps: Seq<(Seq<char>, ParamValue)>) -> Seq<char>
    decreases ps.len(),
{
    if ps.len() == 0 {
        Seq::empty()
    } else {
        render_params(ps.drop_last()) + render_param(ps.last().0, ps.last().1)
    }
}

} // verus!
