//! Small verified text utilities: byte searching, ASCII lower-casing,
//! decimal parsing and formatting, and UTF-8 conversion.

use vstd::prelude::*;

verus! {

use vstd::utf8::valid_utf8;
use vstd::utf8::encode_utf8;
use vstd::utf8::decode_utf8;
use vstd::utf8::encode_utf8_valid_utf8;
use vstd::utf8::encode_utf8_decode_utf8;
use vstd::utf8::is_char_boundary;
use vstd::utf8::is_char_boundary_start_end_of_seq;
use vstd::utf8::is_char_boundary_iff_not_is_continuation_byte;
use vstd::utf8::valid_utf8_split;
use vstd::utf8::decode_utf8_split;
use vstd::utf8::pop_first_scalar;
use vstd::utf8::length_of_first_scalar;
use vstd::string::StringSliceAdditionalSpecFns;
use vstd::string::StrSliceExecFns;
use vstd::string::StringExecFns;

/// Index of the first occurrence of `x` in `b` at or after `i`.
pub open spec fn find_byte_from(b: Seq<u8>, x: u8, i: int) -> Option<int>
    decreases b.len() - i,
    when 0 <= i <= b.len()
{
    if i >= b.len() {
        None
    } else if b[i] == x {
        Some(i)
    } else {
        find_byte_from(b, x, i + 1)
    }
}

pub proof fn lemma_find_byte_from(b: Seq<u8>, x: u8, i: int)
    requires
        0 <= i <= b.len(),
    ensures
        match find_byte_from(b, x, i) {
            Some(j) => i <= j < b.len() && b[j] == x && (forall|k: int| i <= k < j ==> b[k] != x),
            None => forall|k: int| i <= k < b.len() ==> b[k] != x,
        },
    decreases b.len() - i,
{
    if i < b.len() && b[i] != x {
        lemma_find_byte_from(b, x, i + 1);
    }
}

/// First occurrence of `x` in `b` at or after `from`.
pub fn find_byte(b: &Vec<u8>, x: u8, from: usize) -> (r: Option<usize>)
    requires
        from <= b@.len(),
    ensures
        match r {
            Some(j) => from <= j && find_byte_from(b@, x, from as int) == Some(j as int),
            None => find_byte_from(b@, x, from as int) is None,
        },
{
    let mut i: usize = from;
    while i < b.len()
        invariant
            from <= i <= b@.len(),
            find_byte_from(b@, x, from as int) == find_byte_from(b@, x, i as int),
        decreases b@.len() - i,
    {
        if b[i] == x {
            return Some(i);
        }
        i = i + 1;
    }
    None
}

/// Index of the first position `j` at or after `i` with `b[j] == x` and `b[j + 1] == y`.
pub open spec fn find_pair_from(b: Seq<u8>, x: u8, y: u8, i: int) -> Option<int>
    decreases b.len() - i,
    when 0 <= i <= b.len()
{
    if i + 2 > b.len() {
        None
    } else if b[i] == x && b[i + 1] == y {
        Some(i)
    } else {
        find_pair_from(b, x, y, i + 1)
    }
}

pub proof fn lemma_find_pair_from(b: Seq<u8>, x: u8, y: u8, i: int)
    requires
        0 <= i <= b.len(),
    ensures
        match find_pair_from(b, x, y, i) {
            Some(j) => i <= j && j + 2 <= b.len() && b[j] == x && b[j + 1] == y && (forall|k: int|
                i <= k < j ==> !(#[trigger] b[k] == x && b[k + 1] == y)),
            None => forall|k: int| i <= k && k + 2 <= b.len() ==> !(#[trigger] b[k] == x && b[k + 1]
                == y),
        },
    decreases b.len() - i,
{
    if i + 2 <= b.len() && !(b[i] == x && b[i + 1] == y) {
        lemma_find_pair_from(b, x, y, i + 1);
    }
}

/// First position at or after `from` where the pair `x`, `y` occurs in `b`.
pub fn find_pair(b: &Vec<u8>, x: u8, y: u8, from: usize) -> (r: Option<usize>)
    requires
        from <= b@.len(),
    ensures
        match r {
            Some(j) => from <= j && find_pair_from(b@, x, y, from as int) == Some(j as int),
            None => find_pair_from(b@, x, y, from as int) is None,
        },
{
    if b.len() < 2 {
        return None;
    }
    let mut i: usize = from;
    while i <= b.len() - 2
        invariant
            from <= i <= b@.len(),
            b@.len() >= 2,
            find_pair_from(b@, x, y, from as int) == find_pair_from(b@, x, y, i as int),
        decreases b@.len() - i,
    {
        if b[i] == x && b[i + 1] == y {
            return Some(i);
        }
        i = i + 1;
    }
    None
}

/// Copy of `v[a..b]` as a fresh vector.
pub fn subvec(v: &Vec<u8>, a: usize, b: usize) -> (r: Vec<u8>)
    requires
        a <= b <= v@.len(),
    ensures
        r@ == v@.subrange(a as int, b as int),
{
    let mut r: Vec<u8> = Vec::new();
    let mut i: usize = a;
    while i < b
        invariant
            a <= i <= b <= v@.len(),
            r@ == v@.subrange(a as int, i as int),
        decreases b - i,
    {
        let x = v[i];
        r.push(x);
        proof {
            assert(r@ =~= v@.subrange(a as int, i + 1 as int));
        }
        i = i + 1;
    }
    r
}

/// Element-wise equality of two byte vectors.
pub fn bytes_eq(a: &Vec<u8>, b: &Vec<u8>) -> (r: bool)
    ensures
        r == (a@ == b@),
{
    if a.len() != b.len() {
        return false;
    }
    let mut i: usize = 0;
    while i < a.len()
        invariant
            0 <= i <= a@.len(),
            a@.len() == b@.len(),
            forall|k: int| 0 <= k < i ==> a@[k] == b@[k],
        decreases a@.len() - i,
    {
        if a[i] != b[i] {
            return false;
        }
        i = i + 1;
    }
    proof {
        assert(a@ =~= b@);
    }
    true
}

/// Equality of two string slices, decided through their UTF-8 bytes.
pub fn str_eq(a: &str, b: &str) -> (r: bool)
    ensures
        r == (a@ == b@),
{
    broadcast use encode_utf8_decode_utf8;

    let av = a.as_bytes_vec();
    let bv = b.as_bytes_vec();
    let r = bytes_eq(&av, &bv);
    proof {
        if r {
            assert(decode_utf8(encode_utf8(a@)) == decode_utf8(encode_utf8(b@)));
        }
    }
    r
}

/// Relies on `String::push`: appends the given character to the string.
#[verifier::external_body]
pub(crate) fn push_char(s: &mut String, c: char)
    ensures
        final(s)@ == old(s)@.push(c),
{
    s.push(c);
}

/// Relies on `String::from_utf8`: returns the string when the bytes are
/// valid UTF-8 (and then the string's UTF-8 bytes are exactly the input),
/// and nothing otherwise.
#[verifier::external_body]
pub(crate) fn utf8_to_string(v: Vec<u8>) -> (r: Option<String>)
    ensures
        r is Some <==> valid_utf8(v@),
        r matches Some(s) ==> encode_utf8(s@) == v@,
{
    String::from_utf8(v).ok()
}

/// The map described by an association list, later entries overriding
/// earlier ones.
pub open spec fn assoc_map<V>(ps: Seq<(Seq<char>, V)>) -> Map<Seq<char>, V>
    decreases ps.len(),
{
    if ps.len() == 0 {
        Map::empty()
    } else {
        assoc_map(ps.drop_last()).insert(ps.last().0, ps.last().1)
    }
}

/// No key occurs twice.
pub open spec fn unique_keys<V>(ps: Seq<(Seq<char>, V)>) -> bool {
    forall|i: int, j: int| 0 <= i < j < ps.len() ==> (#[trigger] ps[i]).0 != (#[trigger] ps[j]).0
}

pub proof fn lemma_assoc_contains<V>(ps: Seq<(Seq<char>, V)>, k: Seq<char>)
    ensures
        assoc_map(ps).contains_key(k) <==> exists|i: int|
            0 <= i < ps.len() && (#[trigger] ps[i]).0 == k,
    decreases ps.len(),
{
    if ps.len() > 0 {
        lemma_assoc_contains(ps.drop_last(), k);
        if ps.last().0 == k {
            assert(ps[ps.len() - 1].0 == k);
        } else if assoc_map(ps).contains_key(k) {
            let i = choose|i: int| 0 <= i < ps.drop_last().len() && (#[trigger] ps.drop_last()[i]).0
                == k;
            assert(ps[i].0 == k);
        } else {
            assert(forall|i: int|
                0 <= i < ps.len() - 1 ==> (#[trigger] ps[i]).0 == ps.drop_last()[i].0);
        }
    }
}

pub proof fn lemma_assoc_lookup<V>(ps: Seq<(Seq<char>, V)>, i: int)
    requires
        unique_keys(ps),
        0 <= i < ps.len(),
    ensures
        assoc_map(ps).contains_key(ps[i].0),
        assoc_map(ps)[ps[i].0] == ps[i].1,
    decreases ps.len(),
{
    if i == ps.len() - 1 {
    } else {
        assert(forall|m: int, n: int|
            0 <= m < n < ps.len() - 1 ==> (#[trigger] ps.drop_last()[m]).0
                != (#[trigger] ps.drop_last()[n]).0);
        lemma_assoc_lookup(ps.drop_last(), i);
        assert(ps.last().0 != ps[i].0);
    }
}

pub proof fn lemma_assoc_remove<V>(ps: Seq<(Seq<char>, V)>, i: int)
    requires
        unique_keys(ps),
        0 <= i < ps.len(),
    ensures
        assoc_map(ps.remove(i)) == assoc_map(ps).remove(ps[i].0),
    decreases ps.len(),
{
    if i == ps.len() - 1 {
        assert(ps.remove(i) =~= ps.drop_last());
        lemma_assoc_contains(ps.drop_last(), ps[i].0);
        assert(forall|m: int|
            0 <= m < ps.len() - 1 ==> (#[trigger] ps.drop_last()[m]).0 == ps[m].0);
        assert(!assoc_map(ps.drop_last()).contains_key(ps[i].0));
        assert(assoc_map(ps.remove(i)) =~= assoc_map(ps).remove(ps[i].0));
    } else {
        let q = ps.remove(i);
        assert(q.drop_last() =~= ps.drop_last().remove(i));
        assert(forall|m: int, n: int|
            0 <= m < n < ps.len() - 1 ==> (#[trigger] ps.drop_last()[m]).0
                != (#[trigger] ps.drop_last()[n]).0);
        lemma_assoc_remove(ps.drop_last(), i);
        assert(q.last() == ps.last());
        assert(ps.last().0 != ps[i].0);
        assert(ps.drop_last()[i] == ps[i]);
        assert(assoc_map(q) =~= assoc_map(ps).remove(ps[i].0));
    }
}

/// The first occurrence, from its characterization.
pub proof fn lemma_find_byte_inverse(b: Seq<u8>, x: u8, start: int, j: int)
    requires
        0 <= start <= j < b.len(),
        b[j] == x,
        forall|k: int| start <= k < j ==> b[k] != x,
    ensures
        find_byte_from(b, x, start) == Some(j),
    decreases j - start,
{
    if start < j {
        lemma_find_byte_inverse(b, x, start + 1, j);
    }
}

/// The first pair occurrence, from its characterization.
pub proof fn lemma_find_pair_inverse(b: Seq<u8>, x: u8, y: u8, start: int, j: int)
    requires
        0 <= start <= j,
        j + 2 <= b.len(),
        b[j] == x && b[j + 1] == y,
        forall|k: int| start <= k < j ==> !(#[trigger] b[k] == x && b[k + 1] == y),
    ensures
        find_pair_from(b, x, y, start) == Some(j),
    decreases j - start,
{
    if start < j {
        lemma_find_pair_inverse(b, x, y, start + 1, j);
    }
}

/// No occurrence, from its characterization.
pub proof fn lemma_find_pair_none(b: Seq<u8>, x: u8, y: u8, start: int)
    requires
        0 <= start <= b.len(),
        forall|k: int| start <= k && k + 2 <= b.len() ==> !(#[trigger] b[k] == x && b[k + 1] == y),
    ensures
        find_pair_from(b, x, y, start) is None,
{
    lemma_find_pair_from(b, x, y, start);
    match find_pair_from(b, x, y, start) {
        Some(j) => {
            assert(!(b[j] == x && b[j + 1] == y));
        },
        None => {},
    }
}

/// ASCII text encodes byte-for-byte: the UTF-8 bytes are the characters'
/// code points, and decoding gives the characters back.
pub proof fn lemma_ascii_encode(s: Seq<char>)
    requires
        vstd::utf8::is_ascii_chars(s),
    ensures
        encode_utf8(s).len() == s.len(),
        valid_utf8(encode_utf8(s)),
        decode_utf8(encode_utf8(s)) == s,
        forall|i: int| 0 <= i < s.len() ==> encode_utf8(s)[i] == (#[trigger] s[i]) as u8,
{
    vstd::utf8::is_ascii_chars_encode_utf8(s);
    encode_utf8_valid_utf8(s);
    encode_utf8_decode_utf8(s);
    assert(encode_utf8(s) =~= Seq::new(s.len(), |i: int| s[i] as u8));
}

/// For ASCII text, a byte of the encoding has a given value exactly when
/// the character there is that code point.
pub proof fn lemma_ascii_byte_is(s: Seq<char>, i: int, b: u8)
    requires
        vstd::utf8::is_ascii_chars(s),
        0 <= i < s.len(),
        b < 128,
    ensures
        (encode_utf8(s)[i] == b) == (s[i] == b as char),
{
    lemma_ascii_encode(s);
    assert((s[i] as u32) < 128);
    if (s[i] as u8) == b {
        vstd::utf8::char_u32_cast(s[i], s[i] as u32);
        assert(s[i] as u32 == b as u32);
        assert(s[i] == b as char);
    }
    if s[i] == (b as char) {
        assert((s[i] as u8) == b);
    }
}

/// A slice of ASCII text encodes to the matching slice of the encoding.
pub proof fn lemma_ascii_slice(s: Seq<char>, a: int, b: int)
    requires
        vstd::utf8::is_ascii_chars(s),
        0 <= a <= b <= s.len(),
    ensures
        vstd::utf8::is_ascii_chars(s.subrange(a, b)),
        encode_utf8(s).subrange(a, b) == encode_utf8(s.subrange(a, b)),
{
    lemma_ascii_encode(s);
    assert forall|i: int| 0 <= i < s.subrange(a, b).len() implies '\0' <= (#[trigger] s.subrange(
        a,
        b,
    )[i]) <= '\u{7f}' by {
        assert(s.subrange(a, b)[i] == s[a + i]);
    }
    lemma_ascii_encode(s.subrange(a, b));
    assert forall|i: int| 0 <= i < b - a implies encode_utf8(s).subrange(a, b)[i] == encode_utf8(
        s.subrange(a, b),
    )[i] by {
        assert(encode_utf8(s).subrange(a, b)[i] == encode_utf8(s)[a + i]);
        assert(encode_utf8(s)[a + i] == s[a + i] as u8);
        assert(s.subrange(a, b)[i] == s[a + i]);
        assert(encode_utf8(s.subrange(a, b))[i] == s.subrange(a, b)[i] as u8);
    }
    assert(encode_utf8(s).subrange(a, b) =~= encode_utf8(s.subrange(a, b)));
}

/// Index of the last occurrence of `x` in `b`.
pub open spec fn rfind_byte(b: Seq<u8>, x: u8) -> Option<int>
    decreases b.len(),
{
    if b.len() == 0 {
        None
    } else if b.last() == x {
        Some(b.len() - 1)
    } else {
        rfind_byte(b.drop_last(), x)
    }
}

pub proof fn lemma_rfind_byte(b: Seq<u8>, x: u8)
    ensures
        match rfind_byte(b, x) {
            Some(j) => 0 <= j < b.len() && b[j] == x && (forall|k: int|
                j < k < b.len() ==> b[k] != x),
            None => forall|k: int| 0 <= k < b.len() ==> b[k] != x,
        },
    decreases b.len(),
{
    if b.len() > 0 && b.last() != x {
        lemma_rfind_byte(b.drop_last(), x);
        assert(forall|k: int| 0 <= k < b.len() - 1 ==> b.drop_last()[k] == b[k]);
    }
}

/// Last occurrence of `x` in `b`.
pub fn rfind_byte_in(b: &Vec<u8>, x: u8) -> (r: Option<usize>)
    ensures
        match r {
            Some(j) => rfind_byte(b@, x) == Some(j as int),
            None => rfind_byte(b@, x) is None,
        },
{
    let mut i: usize = b.len();
    while i > 0
        invariant
            0 <= i <= b@.len(),
            forall|k: int| i <= k < b@.len() ==> b@[k] != x,
        decreases i,
    {
        i = i - 1;
        if b[i] == x {
            proof {
                lemma_rfind_inverse(b@, x, i as int);
            }
            return Some(i);
        }
    }
    proof {
        lemma_rfind_byte(b@, x);
        match rfind_byte(b@, x) {
            Some(j) => {
                assert(b@[j] != x);
            },
            None => {},
        }
    }
    None
}

proof fn lemma_rfind_inverse(b: Seq<u8>, x: u8, j: int)
    requires
        0 <= j < b.len(),
        b[j] == x,
        forall|k: int| j < k < b.len() ==> b[k] != x,
    ensures
        rfind_byte(b, x) == Some(j),
    decreases b.len(),
{
    if j == b.len() - 1 {
    } else {
        assert(b.last() != x);
        assert(forall|k: int| 0 <= k < b.len() - 1 ==> b.drop_last()[k] == b[k]);
        lemma_rfind_inverse(b.drop_last(), x, j);
    }
}

/// Shifting the start of a byte search.
pub proof fn lemma_find_byte_shift(b: Seq<u8>, x: u8, s: int, i: int)
    requires
        0 <= s <= i <= b.len(),
    ensures
        find_byte_from(b, x, i) == match find_byte_from(b.skip(s), x, i - s) {
            Some(j) => Some(j + s),
            None => None::<int>,
        },
    decreases b.len() - i,
{
    if i < b.len() {
        assert(b.skip(s)[i - s] == b[i]);
        if b[i] != x {
            lemma_find_byte_shift(b, x, s, i + 1);
        }
    }
}

/// Shifting the start of a pair search.
pub proof fn lemma_find_pair_shift(b: Seq<u8>, x: u8, y: u8, s: int, i: int)
    requires
        0 <= s <= i <= b.len(),
    ensures
        find_pair_from(b, x, y, i) == match find_pair_from(b.skip(s), x, y, i - s) {
            Some(j) => Some(j + s),
            None => None::<int>,
        },
    decreases b.len() - i,
{
    if i + 2 <= b.len() {
        assert(b.skip(s)[i - s] == b[i]);
        assert(b.skip(s)[i + 1 - s] == b[i + 1]);
        if !(b[i] == x && b[i + 1] == y) {
            lemma_find_pair_shift(b, x, y, s, i + 1);
        }
    }
}

/// Splitting a valid UTF-8 byte sequence at `j` is safe, and splits the
/// decoding, whenever the byte at `j` or the byte before `j` is ASCII.
pub proof fn lemma_utf8_split_at(b: Seq<u8>, j: int)
    requires
        valid_utf8(b),
        0 <= j <= b.len(),
        j == 0 || j == b.len() || b[j] < 128 || (j > 0 && b[j - 1] < 128),
    ensures
        valid_utf8(b.take(j)),
        valid_utf8(b.skip(j)),
        decode_utf8(b) == decode_utf8(b.take(j)) + decode_utf8(b.skip(j)),
{
    if j == 0 {
        is_char_boundary_start_end_of_seq(b);
    } else if j == b.len() {
        is_char_boundary_start_end_of_seq(b);
    } else if b[j] < 128 {
        is_char_boundary_iff_not_is_continuation_byte(b, j);
    } else {
        // The byte before `j` is ASCII, so it is a one-byte scalar of its
        // own; the byte at `j` starts the next scalar.
        is_char_boundary_iff_not_is_continuation_byte(b, j - 1);
        valid_utf8_split(b, j - 1);
        let tail = b.subrange(j - 1, b.len() as int);
        assert(valid_utf8(tail));
        assert(tail[0] == b[j - 1]);
        assert(length_of_first_scalar(tail) == 1);
        assert(pop_first_scalar(tail) =~= b.subrange(j, b.len() as int));
        assert(valid_utf8(b.subrange(j, b.len() as int)));
        is_char_boundary_iff_not_is_continuation_byte(b, j);
    }
    assert(is_char_boundary(b, j));
    valid_utf8_split(b, j);
    decode_utf8_split(b, j);
    assert(b.take(j) =~= b.subrange(0, j));
    assert(b.skip(j) =~= b.subrange(j, b.len() as int));
}

/// The lower-case form of an ASCII letter; any other character is unchanged.
pub open spec fn lower_char(c: char) -> char {
    if 65 <= c as u32 && c as u32 <= 90 {
        ((c as u32 + 32) as u8) as char
    } else {
        c
    }
}

/// Character-wise ASCII lower-casing.
pub open spec fn lower_chars(s: Seq<char>) -> Seq<char> {
    s.map_values(|c: char| lower_char(c))
}

/// Lower-casing a sequence without upper-case ASCII letters changes nothing.
pub proof fn lemma_lower_id(s: Seq<char>)
    requires
        forall|i: int| 0 <= i < s.len() ==> !(65 <= (#[trigger] s[i]) as u32 <= 90),
    ensures
        lower_chars(s) == s,
{
    assert(lower_chars(s) =~= s);
}

/// Lower-casing is idempotent.
pub proof fn lemma_lower_idem(s: Seq<char>)
    ensures
        lower_chars(lower_chars(s)) == lower_chars(s),
{
    assert(lower_chars(lower_chars(s)) =~= lower_chars(s));
}

/// ASCII lower-casing of a string.
pub fn lower_str(s: &str) -> (r: String)
    ensures
        r@ == lower_chars(s@),
{
    let n = s.unicode_len();
    let mut out = String::new();
    let mut i: usize = 0;
    while i < n
        invariant
            0 <= i <= n == s@.len(),
            out@ == lower_chars(s@.take(i as int)),
        decreases n - i,
    {
        let c = s.get_char(i);
        let u = c as u32;
        let lc: char = if 65 <= u && u <= 90 {
            ((u + 32) as u8) as char
        } else {
            c
        };
        push_char(&mut out, lc);
        proof {
            assert(lc == lower_char(s@[i as int]));
            assert(out@ =~= lower_chars(s@.take(i + 1 as int)));
        }
        i = i + 1;
    }
    proof {
        assert(s@.take(n as int) =~= s@);
    }
    out
}

/// The decimal digit character for `d` (0 through 9).
pub open spec fn digit_char(d: int) -> char {
    ((d + 48) as u8) as char
}

/// The decimal rendering of `n`, most significant digit first.
pub open spec fn dec_chars(n: nat) -> Seq<char>
    decreases n,
{
    if n < 10 {
        seq![digit_char(n as int)]
    } else {
        dec_chars(n / 10).push(digit_char((n % 10) as int))
    }
}

/// Renders `n` in decimal.
pub fn u64_to_string(n: u64) -> (r: String)
    ensures
        r@ == dec_chars(n as nat),
    decreases n,
{
    if n < 10 {
        let mut s = String::new();
        let c: char = ((n as u8) + 48) as char;
        push_char(&mut s, c);
        proof {
            assert(s@ =~= dec_chars(n as nat));
        }
        s
    } else {
        proof {
            assert(n / 10 < n) by (nonlinear_arith)
                requires n >= 10;
        }
        let mut s = u64_to_string(n / 10);
        let c: char = (((n % 10) as u8) + 48) as char;
        push_char(&mut s, c);
        proof {
            assert(s@ =~= dec_chars(n as nat));
        }
        s
    }
}

pub proof fn lemma_dec_chars(n: nat)
    ensures
        dec_chars(n).len() >= 1,
        all_digits(dec_chars(n)),
        dec_val(dec_chars(n)) == n,
    decreases n,
{
    if n < 10 {
        let s0 = seq![digit_char(n as int)];
        assert(dec_chars(n) =~= s0);
        assert(s0.drop_last() =~= Seq::<char>::empty());
        assert(dec_val(Seq::<char>::empty()) == 0);
        assert(is_digit(s0.last()));
        assert(dec_val(s0) == n);
        assert(dec_val(dec_chars(n)) == n);
    } else {
        lemma_dec_chars(n / 10);
        assert(dec_chars(n).drop_last() =~= dec_chars(n / 10));
        assert(dec_chars(n).last() == digit_char((n % 10) as int));
        assert(digit_char((n % 10) as int) as u32 == (n % 10) + 48);
        assert(is_digit(dec_chars(n).last()));
        assert(dec_val(dec_chars(n)) == dec_val(dec_chars(n / 10)) * 10 + (n % 10));
        assert(n == (n / 10) * 10 + (n % 10));
        assert(dec_val(dec_chars(n)) == n);
    }
}

/// Decimal rendering parses back to the same number.
pub proof fn lemma_parse_dec_chars(n: nat)
    requires
        n <= u64::MAX,
    ensures
        spec_parse_u64(dec_chars(n)) == Some(n as u64),
{
    lemma_dec_chars(n);
    let s = dec_chars(n);
    assert(is_digit(s[0]));
    assert(s[0] as u32 != 43);
    assert('+' as u32 == 43);
    assert(s[0] != '+');
}

/// True when `c` is a decimal digit.
pub open spec fn is_digit(c: char) -> bool {
    48 <= c as u32 <= 57
}

pub open spec fn all_digits(s: Seq<char>) -> bool {
    forall|i: int| 0 <= i < s.len() ==> is_digit(#[trigger] s[i])
}

/// Numeric value of a digit string, most significant digit first.
pub open spec fn dec_val(s: Seq<char>) -> nat
    decreases s.len(),
{
    if s.len() == 0 {
        0
    } else {
        dec_val(s.drop_last()) * 10 + (if is_digit(s.last()) {
            (s.last() as u32 - 48) as nat
        } else {
            0
        })
    }
}

proof fn lemma_dec_val_prefix(s: Seq<char>, j: int)
    requires
        0 <= j <= s.len(),
    ensures
        dec_val(s) >= dec_val(s.take(j)),
    decreases s.len(),
{
    if j < s.len() {
        assert(s.drop_last().take(j) =~= s.take(j));
        lemma_dec_val_prefix(s.drop_last(), j);
        assert(dec_val(s) >= dec_val(s.drop_last()));
    } else {
        assert(s.take(j) =~= s);
    }
}

/// What `str::parse::<u64>` accepts: an optional leading `+`, then one or
/// more decimal digits whose value fits in a `u64`.
pub open spec fn spec_parse_u64(s: Seq<char>) -> Option<u64> {
    let t = if s.len() > 0 && s[0] == '+' {
        s.drop_first()
    } else {
        s
    };
    if t.len() > 0 && all_digits(t) && dec_val(t) <= u64::MAX {
        Some(dec_val(t) as u64)
    } else {
        None
    }
}

/// Parses a decimal `u64`, accepting exactly what `str::parse::<u64>` does.
pub fn parse_u64_str(s: &str) -> (r: Option<u64>)
    ensures
        r == spec_parse_u64(s@),
{
    let n = s.unicode_len();
    let mut start: usize = 0;
    if n > 0 && s.get_char(0) == '+' {
        start = 1;
    }
    let ghost t = if s@.len() > 0 && s@[0] == '+' {
        s@.drop_first()
    } else {
        s@
    };
    proof {
        assert(t =~= s@.subrange(start as int, n as int));
    }
    if start >= n {
        return None;
    }
    let mut acc: u64 = 0;
    let mut i: usize = start;
    while i < n
        invariant
            start <= i <= n == s@.len(),
            start < n,
            t == (if s@.len() > 0 && s@[0] == '+' { s@.drop_first() } else { s@ }),
            t == s@.subrange(start as int, n as int),
            all_digits(t.take(i - start)),
            acc == dec_val(t.take(i - start)),
        decreases n - i,
    {
        let c = s.get_char(i);
        let u = c as u32;
        if u < 48 || u > 57 {
            proof {
                assert(!is_digit(t[i - start]));
                assert(!all_digits(t));
            }
            return None;
        }
        let d = (u - 48) as u64;
        let m = match acc.checked_mul(10) {
            Some(m) => m,
            None => {
                proof {
                    assert(t.take(i - start + 1).drop_last() =~= t.take(i - start));
                    assert(dec_val(t.take(i - start + 1)) > u64::MAX);
                    lemma_dec_val_prefix(t, i - start + 1);
                }
                return None;
            },
        };
        let v = match m.checked_add(d) {
            Some(v) => v,
            None => {
                proof {
                    assert(t.take(i - start + 1).drop_last() =~= t.take(i - start));
                    assert(dec_val(t.take(i - start + 1)) > u64::MAX);
                    lemma_dec_val_prefix(t, i - start + 1);
                }
                return None;
            },
        };
        acc = v;
        proof {
            assert(t.take(i - start + 1).drop_last() =~= t.take(i - start));
            assert(is_digit(t[i - start]));
            assert(acc == dec_val(t.take(i - start + 1)));
        }
        i = i + 1;
    }
    proof {
        assert(t.take(n - start) =~= t);
    }
    Some(acc)
}

} // verus!
