//! HTTP header names, values and status codes, as the `http` types behind
//! `hyper` accept them, and the header lists the server builds from them.

use vstd::prelude::*;
use vstd::slice::{slice_subrange, slice_to_vec};
use vstd::string::*;
use crate::asgi::dict::copy_bytes;
use crate::text::{find_byte, lemma_split_once_at, lemma_split_once_parts, split, split_bytes, split_once};

verus! {

/// The byte a header-name byte is normalised to, or 0 when the byte may not
/// appear in a header name: token characters and `"` are accepted, upper-case
/// letters are lowered.
pub open spec fn header_name_byte(b: u8) -> u8 {
    if 65 <= b <= 90 {
        (b + 32) as u8
    } else if (33 <= b <= 39) || b == 42 || b == 43 || b == 45 || b == 46 || (48 <= b <= 57) || (94
        <= b <= 122) || b == 124 || b == 126 {
        b
    } else {
        0
    }
}

/// Whether `s` is a header name: 1 to 65535 accepted bytes.
pub open spec fn is_header_name(s: Seq<u8>) -> bool {
    &&& 0 < s.len() <= 65535
    &&& forall|i: int| 0 <= i < s.len() ==> header_name_byte(#[trigger] s[i]) != 0
}

/// The normalised (lower-case) form of a header name.
pub open spec fn normalize_header_name(s: Seq<u8>) -> Seq<u8> {
    s.map_values(|b: u8| header_name_byte(b))
}

/// Whether a byte may appear in a header value: visible bytes, space and
/// tab, but not DEL.
pub open spec fn is_header_value_byte(b: u8) -> bool {
    (b >= 32 && b != 127) || b == 9
}

pub open spec fn is_header_value(s: Seq<u8>) -> bool {
    forall|i: int| 0 <= i < s.len() ==> is_header_value_byte(#[trigger] s[i])
}

/// Whether `code` is an HTTP status code: three decimal digits.
pub open spec fn is_status_code(code: u16) -> bool {
    100 <= code < 1000
}

/// `hyper::header::HeaderName::from_bytes`: the name is accepted exactly
/// when it is a header name, and comes back normalised.
#[verifier::external_body]
pub(crate) fn header_name_from_bytes(src: &[u8]) -> (r: Option<Vec<u8>>)
    ensures
        match r {
            Some(n) => is_header_name(src@) && n@ == normalize_header_name(src@),
            None => !is_header_name(src@),
        },
{
    match hyper::header::HeaderName::from_bytes(src) {
        Ok(name) => Some(name.as_str().as_bytes().to_vec()),
        Err(_) => None,
    }
}

/// `hyper::header::HeaderValue::from_bytes`: accepted exactly when every byte
/// may appear in a header value.
#[verifier::external_body]
pub(crate) fn header_value_from_bytes(src: &[u8]) -> (ok: bool)
    ensures
        ok == is_header_value(src@),
{
    match hyper::header::HeaderValue::from_bytes(src) {
        Ok(_) => true,
        Err(_) => false,
    }
}

/// `hyper::StatusCode::from_u16`: accepted exactly when the code has three
/// digits, and then kept as it is.
#[verifier::external_body]
pub(crate) fn status_code_from_u16(code: u16) -> (r: Option<u16>)
    ensures
        r == (if is_status_code(code) { Some(code) } else { None::<u16> }),
{
    match hyper::StatusCode::from_u16(code) {
        Ok(status) => Some(status.as_u16()),
        Err(_) => None,
    }
}

/// Why a `name:value` header line was refused.
#[derive(Clone, Copy, Debug, PartialEq, Eq, Structural)]
pub enum HeaderError {
    /// The line holds no `:`.
    MissingColon,
    /// The part before the first `:` is not a header name.
    InvalidName,
    /// The part after the first `:` is not a header value.
    InvalidValue,
}

/// The header a `name:value` line stands for: split at the first `:`, the
/// name normalised, the value kept byte for byte.
pub open spec fn header_line(line: Seq<u8>) -> Result<(Seq<u8>, Seq<u8>), HeaderError> {
    match split_once(line, 58u8) {
        None => Err(HeaderError::MissingColon),
        Some((k, v)) => if !is_header_name(k) {
            Err(HeaderError::InvalidName)
        } else if !is_header_value(v) {
            Err(HeaderError::InvalidValue)
        } else {
            Ok((normalize_header_name(k), v))
        },
    }
}

/// Parses a `name:value` header line given on the command line.
pub fn try_parse_header(header: &str) -> (r: Result<(Vec<u8>, Vec<u8>), HeaderError>)
    ensures
        match r {
            Ok((k, v)) => header_line(header.spec_bytes()) == Ok::<_, HeaderError>((k@, v@)),
            Err(e) => header_line(header.spec_bytes()) == Err::<(Seq<u8>, Seq<u8>), _>(e),
        },
{
    let bytes = header.as_bytes();
    let i = find_byte(bytes, 58u8);
    proof {
        lemma_split_once_at(bytes@, 58u8, i as int);
    }
    if i == bytes.len() {
        return Err(HeaderError::MissingColon);
    }
    let k = slice_subrange(bytes, 0, i);
    let v = slice_subrange(bytes, i + 1, bytes.len());
    assert(k@ =~= bytes@.take(i as int));
    assert(v@ =~= bytes@.skip(i + 1));
    let name = match header_name_from_bytes(k) {
        Some(n) => n,
        None => {
            return Err(HeaderError::InvalidName);
        },
    };
    if !header_value_from_bytes(v) {
        return Err(HeaderError::InvalidValue);
    }
    Ok((name, slice_to_vec(v)))
}


/// A line is accepted as a header exactly when it holds a colon, the text
/// before its first colon is a header name and the text after it a header
/// value; the header is then that name, normalised, and that value, byte for
/// byte, so the line is the name as given, a colon and the value.
pub proof fn lemma_header_line_parts(line: Seq<u8>)
    ensures
        header_line(line) matches Ok((k, v)) ==> {
            let n = line.len() - v.len() - 1;
            &&& 0 <= n
            &&& line == line.take(n) + seq![58u8] + v
            &&& forall|j: int| 0 <= j < n ==> line[j] != 58u8
            &&& k == normalize_header_name(line.take(n))
            &&& is_header_name(line.take(n))
            &&& is_header_value(v)
        },
        forall|i: int|
            0 <= i < line.len() && line[i] == 58u8 && (forall|j: int| 0 <= j < i ==> line[j] != 58u8)
                ==> header_line(line) == (if !is_header_name(#[trigger] line.take(i)) {
                    Err(HeaderError::InvalidName)
                } else if !is_header_value(line.skip(i + 1)) {
                    Err(HeaderError::InvalidValue)
                } else {
                    Ok((normalize_header_name(line.take(i)), line.skip(i + 1)))
                }),
        (forall|j: int| 0 <= j < line.len() ==> line[j] != 58u8) ==> header_line(line)
            == Err::<(Seq<u8>, Seq<u8>), _>(HeaderError::MissingColon),
{
    lemma_split_once_parts(line, 58u8);
    if let Some((a, b)) = split_once(line, 58u8) {
        assert(line.take(a.len() as int) =~= a);
    }
    assert forall|i: int|
        0 <= i < line.len() && line[i] == 58u8 && (forall|j: int| 0 <= j < i ==> line[j] != 58u8)
        implies header_line(line) == (if !is_header_name(#[trigger] line.take(i)) {
            Err(HeaderError::InvalidName)
        } else if !is_header_value(line.skip(i + 1)) {
            Err(HeaderError::InvalidValue)
        } else {
            Ok((normalize_header_name(line.take(i)), line.skip(i + 1)))
        }) by {
        lemma_split_once_at(line, 58u8, i);
    }
    if forall|j: int| 0 <= j < line.len() ==> line[j] != 58u8 {
        lemma_split_once_at(line, 58u8, line.len() as int);
    }
}

/// A header list as the server handles it: `(name, value)` byte strings.
pub type HeaderPairs = Vec<(Vec<u8>, Vec<u8>)>;

/// One header checked as `hyper` checks it when it is added to a response:
/// the name first, then the value.
pub open spec fn checked_header(h: (Seq<u8>, Seq<u8>)) -> Result<(Seq<u8>, Seq<u8>), HeaderError> {
    if !is_header_name(h.0) {
        Err(HeaderError::InvalidName)
    } else if !is_header_value(h.1) {
        Err(HeaderError::InvalidValue)
    } else {
        Ok((normalize_header_name(h.0), h.1))
    }
}

/// A header list checked in order; the first bad header decides the error.
pub open spec fn checked_headers(hs: Seq<(Seq<u8>, Seq<u8>)>) -> Result<Seq<(Seq<u8>, Seq<u8>)>, HeaderError>
    decreases hs.len(),
{
    if hs.len() == 0 {
        Ok(Seq::empty())
    } else {
        match checked_header(hs[0]) {
            Err(e) => Err(e),
            Ok(h) => match checked_headers(hs.skip(1)) {
                Ok(rest) => Ok(seq![h] + rest),
                Err(e) => Err(e),
            },
        }
    }
}

/// Checks a header list and normalises its names.
pub fn check_headers(hs: &HeaderPairs) -> (r: Result<HeaderPairs, HeaderError>)
    ensures
        match r {
            Ok(c) => checked_headers(hs.deep_view()) == Ok::<_, HeaderError>(c.deep_view()),
            Err(e) => checked_headers(hs.deep_view()) == Err::<Seq<(Seq<u8>, Seq<u8>)>, _>(e),
        },
{
    let ghost all = hs.deep_view();
    let mut out: HeaderPairs = Vec::new();
    let mut i: usize = 0;
    assert(all.skip(0) =~= all);
    while i < hs.len()
        invariant
            i <= hs.len(),
            all == hs.deep_view(),
            checked_headers(all) == match checked_headers(all.skip(i as int)) {
                Ok(rest) => Ok(out.deep_view() + rest),
                Err(e) => Err(e),
            },
        decreases hs.len() - i,
    {
        let ghost rest = all.skip(i as int);
        assert(rest[0] == hs@[i as int].deep_view());
        assert(rest.skip(1) =~= all.skip(i + 1));
        assert(hs@[i as int].0.deep_view() =~= hs@[i as int].0@);
        assert(hs@[i as int].1.deep_view() =~= hs@[i as int].1@);
        let name = match header_name_from_bytes(hs[i].0.as_slice()) {
            Some(n) => n,
            None => {
                return Err(HeaderError::InvalidName);
            },
        };
        if !header_value_from_bytes(hs[i].1.as_slice()) {
            return Err(HeaderError::InvalidValue);
        }
        let value = slice_to_vec(hs[i].1.as_slice());
        let pair = (name, value);
        assert(pair.0.deep_view() =~= pair.0@);
        assert(pair.1.deep_view() =~= pair.1@);
        let ghost prev = out.deep_view();
        assert(checked_header(rest[0]) == Ok::<_, HeaderError>(pair.deep_view()));
        out.push(pair);
        assert(out.deep_view() =~= prev.push(pair.deep_view()));
        assert forall|s: Seq<(Seq<u8>, Seq<u8>)>|
            #![trigger prev + (seq![pair.deep_view()] + s)]
            (prev + (seq![pair.deep_view()] + s)) == (out.deep_view() + s) by {
            assert((prev + (seq![pair.deep_view()] + s)) =~= (out.deep_view() + s));
        }
        i = i + 1;
    }
    assert(all.skip(i as int) =~= Seq::<(Seq<u8>, Seq<u8>)>::empty());
    assert(out.deep_view() + Seq::<(Seq<u8>, Seq<u8>)>::empty() =~= out.deep_view());
    Ok(out)
}

/// Whether every header of the list has a valid name and value, as those of
/// a received request have.
pub open spec fn all_valid(hs: Seq<(Seq<u8>, Seq<u8>)>) -> bool {
    forall|i: int| 0 <= i < hs.len() ==> is_header_name(#[trigger] hs[i].0) && is_header_value(hs[i].1)
}

/// A header with its name normalised and its value unchanged.
pub open spec fn normalized_header(h: (Seq<u8>, Seq<u8>)) -> (Seq<u8>, Seq<u8>) {
    (normalize_header_name(h.0), h.1)
}

/// A list of valid headers passes the check whole, in order: each header
/// keeps its value and has its name normalised.
pub proof fn lemma_valid_headers_pass(hs: Seq<(Seq<u8>, Seq<u8>)>)
    requires
        all_valid(hs),
    ensures
        checked_headers(hs) == Ok::<_, HeaderError>(hs.map_values(|h: (Seq<u8>, Seq<u8>)| normalized_header(h))),
    decreases hs.len(),
{
    let f = |h: (Seq<u8>, Seq<u8>)| normalized_header(h);
    if hs.len() == 0 {
        assert(hs.map_values(f) =~= Seq::<(Seq<u8>, Seq<u8>)>::empty());
    } else {
        let tail = hs.skip(1);
        assert forall|i: int| 0 <= i < tail.len() implies is_header_name(#[trigger] tail[i].0)
            && is_header_value(tail[i].1) by {
            assert(tail[i] == hs[i + 1]);
        }
        lemma_valid_headers_pass(tail);
        assert(is_header_name(hs[0].0) && is_header_value(hs[0].1));
        assert(seq![normalized_header(hs[0])] + tail.map_values(f) =~= hs.map_values(f));
    }
}

/// Whether two byte strings are equal.
pub fn bytes_eq(a: &[u8], b: &[u8]) -> (r: bool)
    ensures
        r == (a@ == b@),
{
    if a.len() != b.len() {
        return false;
    }
    let mut i: usize = 0;
    while i < a.len()
        invariant
            a@.len() == b@.len(),
            i <= a@.len(),
            forall|j: int| 0 <= j < i ==> a@[j] == b@[j],
        decreases a@.len() - i,
    {
        if a[i] != b[i] {
            return false;
        }
        i = i + 1;
    }
    assert(a@ =~= b@);
    true
}

/// The normalised name `connection`.
pub open spec fn connection_name() -> Seq<u8> {
    seq![99u8, 111u8, 110u8, 110u8, 101u8, 99u8, 116u8, 105u8, 111u8, 110u8]
}

/// The value `close`.
pub open spec fn close_value() -> Seq<u8> {
    seq![99u8, 108u8, 111u8, 115u8, 101u8]
}

pub fn connection_name_bytes() -> (r: Vec<u8>)
    ensures
        r@ == connection_name(),
{
    let r: Vec<u8> = vec![99u8, 111u8, 110u8, 110u8, 101u8, 99u8, 116u8, 105u8, 111u8, 110u8];
    assert(r@ =~= connection_name());
    r
}

pub fn close_value_bytes() -> (r: Vec<u8>)
    ensures
        r@ == close_value(),
{
    let r: Vec<u8> = vec![99u8, 108u8, 111u8, 115u8, 101u8];
    assert(r@ =~= close_value());
    r
}

/// The first value of the header `name`, as a header map looks it up.
pub open spec fn first_value(hs: Seq<(Seq<u8>, Seq<u8>)>, name: Seq<u8>) -> Option<Seq<u8>>
    decreases hs.len(),
{
    if hs.len() == 0 {
        None
    } else if hs[0].0 == name {
        Some(hs[0].1)
    } else {
        first_value(hs.skip(1), name)
    }
}

/// Whether a request asks for its connection to be closed: its first
/// `connection` header is exactly `close`.
pub open spec fn requests_close(hs: Seq<(Seq<u8>, Seq<u8>)>) -> bool {
    first_value(hs, connection_name()) == Some(close_value())
}

/// Whether a request's (normalised) headers ask for the connection to be
/// closed.
pub fn connection_close(hs: &HeaderPairs) -> (r: bool)
    ensures
        r == requests_close(hs.deep_view()),
{
    let ghost all = hs.deep_view();
    let name = connection_name_bytes();
    let close = close_value_bytes();
    let mut i: usize = 0;
    assert(all.skip(0) =~= all);
    while i < hs.len()
        invariant
            i <= hs.len(),
            all == hs.deep_view(),
            name@ == connection_name(),
            close@ == close_value(),
            first_value(all, connection_name()) == first_value(all.skip(i as int), connection_name()),
        decreases hs.len() - i,
    {
        let ghost rest = all.skip(i as int);
        assert(rest[0] == hs@[i as int].deep_view());
        assert(rest.skip(1) =~= all.skip(i + 1));
        assert(hs@[i as int].0.deep_view() =~= hs@[i as int].0@);
        assert(hs@[i as int].1.deep_view() =~= hs@[i as int].1@);
        if bytes_eq(hs[i].0.as_slice(), name.as_slice()) {
            return bytes_eq(hs[i].1.as_slice(), close.as_slice());
        }
        i = i + 1;
    }
    assert(all.skip(i as int).len() == 0);
    false
}

/// The list without the entries named `name`.
pub open spec fn without_name(hs: Seq<(Seq<u8>, Seq<u8>)>, name: Seq<u8>) -> Seq<(Seq<u8>, Seq<u8>)>
    decreases hs.len(),
{
    if hs.len() == 0 {
        Seq::empty()
    } else if hs[0].0 == name {
        without_name(hs.skip(1), name)
    } else {
        seq![hs[0]] + without_name(hs.skip(1), name)
    }
}

/// The list after a header map's `insert(name, value)`: the first entry
/// named `name` takes the value and later ones go; with none, the header is
/// added at the end.
pub open spec fn insert_header(hs: Seq<(Seq<u8>, Seq<u8>)>, name: Seq<u8>, value: Seq<u8>) -> Seq<(Seq<u8>, Seq<u8>)>
    decreases hs.len(),
{
    if hs.len() == 0 {
        seq![(name, value)]
    } else if hs[0].0 == name {
        seq![(name, value)] + without_name(hs.skip(1), name)
    } else {
        seq![hs[0]] + insert_header(hs.skip(1), name, value)
    }
}

/// Sets the header `name` to the single value `value`, as a header map's
/// `insert` does.
pub fn insert_header_value(hs: HeaderPairs, name: Vec<u8>, value: Vec<u8>) -> (r: HeaderPairs)
    ensures
        r.deep_view() == insert_header(hs.deep_view(), name@, value@),
{
    let ghost all = hs.deep_view();
    let mut out: HeaderPairs = Vec::new();
    let mut replaced = false;
    let mut i: usize = 0;
    assert(all.skip(0) =~= all);
    assert(name.deep_view() =~= name@);
    assert(value.deep_view() =~= value@);
    while i < hs.len()
        invariant
            i <= hs.len(),
            all == hs.deep_view(),
            insert_header(all, name@, value@) == out.deep_view() + (if replaced {
                without_name(all.skip(i as int), name@)
            } else {
                insert_header(all.skip(i as int), name@, value@)
            }),
        decreases hs.len() - i,
    {
        let ghost rest = all.skip(i as int);
        let ghost prev = out.deep_view();
        assert(rest[0] == hs@[i as int].deep_view());
        assert(rest.skip(1) =~= all.skip(i + 1));
        assert(hs@[i as int].0.deep_view() =~= hs@[i as int].0@);
        assert(hs@[i as int].1.deep_view() =~= hs@[i as int].1@);
        if bytes_eq(hs[i].0.as_slice(), name.as_slice()) {
            if !replaced {
                let pair = (copy_bytes(&name), copy_bytes(&value));
                assert(pair.0.deep_view() =~= name@);
                assert(pair.1.deep_view() =~= value@);
                out.push(pair);
                assert(out.deep_view() =~= prev.push((name@, value@)));
                assert(prev + (seq![(name@, value@)] + without_name(all.skip(i + 1), name@))
                    =~= out.deep_view() + without_name(all.skip(i + 1), name@));
                replaced = true;
            }
        } else {
            let pair = (copy_bytes(&hs[i].0), copy_bytes(&hs[i].1));
            assert(pair.0.deep_view() =~= hs@[i as int].0@);
            assert(pair.1.deep_view() =~= hs@[i as int].1@);
            out.push(pair);
            assert(out.deep_view() =~= prev.push(rest[0]));
            assert(prev + (seq![rest[0]] + without_name(all.skip(i + 1), name@))
                =~= out.deep_view() + without_name(all.skip(i + 1), name@));
            assert(prev + (seq![rest[0]] + insert_header(all.skip(i + 1), name@, value@))
                =~= out.deep_view() + insert_header(all.skip(i + 1), name@, value@));
        }
        i = i + 1;
    }
    assert(all.skip(i as int) =~= Seq::<(Seq<u8>, Seq<u8>)>::empty());
    if !replaced {
        let ghost prev = out.deep_view();
        out.push((name, value));
        assert(out.deep_view() =~= prev + seq![(name@, value@)]);
    } else {
        assert(out.deep_view() + Seq::<(Seq<u8>, Seq<u8>)>::empty() =~= out.deep_view());
    }
    out
}

/// The list without pseudo-headers (names starting with `:`).
pub open spec fn without_pseudo_headers(hs: Seq<(Seq<u8>, Seq<u8>)>) -> Seq<(Seq<u8>, Seq<u8>)>
    decreases hs.len(),
{
    if hs.len() == 0 {
        Seq::empty()
    } else if hs[0].0.len() > 0 && hs[0].0[0] == 58u8 {
        without_pseudo_headers(hs.skip(1))
    } else {
        seq![hs[0]] + without_pseudo_headers(hs.skip(1))
    }
}

/// Whether a header name is a pseudo-header's: it starts with `:`.
pub open spec fn is_pseudo_header(name: Seq<u8>) -> bool {
    name.len() > 0 && name[0] == 58u8
}

/// Leaving pseudo-headers out keeps every other header and adds none: what
/// remains is exactly the headers that are not pseudo-headers.
pub proof fn lemma_without_pseudo_headers_keeps(hs: Seq<(Seq<u8>, Seq<u8>)>)
    ensures
        forall|k: int| 0 <= k < without_pseudo_headers(hs).len()
            ==> !is_pseudo_header((#[trigger] without_pseudo_headers(hs)[k]).0)
                && hs.contains(without_pseudo_headers(hs)[k]),
        forall|k: int| 0 <= k < hs.len() && !is_pseudo_header((#[trigger] hs[k]).0)
            ==> without_pseudo_headers(hs).contains(hs[k]),
    decreases hs.len(),
{
    if hs.len() > 0 {
        let tail = hs.skip(1);
        lemma_without_pseudo_headers_keeps(tail);
        let rest = without_pseudo_headers(tail);
        let r = without_pseudo_headers(hs);
        assert forall|k: int| 0 <= k < r.len() implies !is_pseudo_header((#[trigger] r[k]).0)
            && hs.contains(r[k]) by {
            if is_pseudo_header(hs[0].0) {
                assert(r[k] == rest[k]);
                let idx = choose|idx: int| 0 <= idx < tail.len() && tail[idx] == rest[k];
                assert(hs[idx + 1] == tail[idx]);
            } else if k == 0 {
                assert(r[0] == hs[0]);
            } else {
                assert(r[k] == rest[k - 1]);
                let idx = choose|idx: int| 0 <= idx < tail.len() && tail[idx] == rest[k - 1];
                assert(hs[idx + 1] == tail[idx]);
            }
        }
        assert forall|k: int| 0 <= k < hs.len() && !is_pseudo_header((#[trigger] hs[k]).0)
            implies r.contains(hs[k]) by {
            if k == 0 {
                assert(r[0] == hs[0]);
            } else {
                assert(hs[k] == tail[k - 1]);
                let idx = choose|idx: int| 0 <= idx < rest.len() && rest[idx] == hs[k];
                if is_pseudo_header(hs[0].0) {
                    assert(r[idx] == rest[idx]);
                } else {
                    assert(r[idx + 1] == rest[idx]);
                }
            }
        }
    }
}

/// Drops pseudo-headers from a request's header list.
pub fn drop_pseudo_headers(hs: HeaderPairs) -> (r: HeaderPairs)
    ensures
        r.deep_view() == without_pseudo_headers(hs.deep_view()),
{
    let ghost all = hs.deep_view();
    let mut out: HeaderPairs = Vec::new();
    let mut i: usize = 0;
    assert(all.skip(0) =~= all);
    while i < hs.len()
        invariant
            i <= hs.len(),
            all == hs.deep_view(),
            without_pseudo_headers(all) == out.deep_view() + without_pseudo_headers(all.skip(i as int)),
        decreases hs.len() - i,
    {
        let ghost rest = all.skip(i as int);
        let ghost prev = out.deep_view();
        assert(rest[0] == hs@[i as int].deep_view());
        assert(rest.skip(1) =~= all.skip(i + 1));
        assert(hs@[i as int].0.deep_view() =~= hs@[i as int].0@);
        assert(hs@[i as int].1.deep_view() =~= hs@[i as int].1@);
        let pseudo = hs[i].0.len() > 0 && hs[i].0[0] == 58u8;
        if !pseudo {
            let pair = (copy_bytes(&hs[i].0), copy_bytes(&hs[i].1));
            assert(pair.0.deep_view() =~= hs@[i as int].0@);
            assert(pair.1.deep_view() =~= hs@[i as int].1@);
            out.push(pair);
            assert(out.deep_view() =~= prev.push(rest[0]));
            assert(prev + (seq![rest[0]] + without_pseudo_headers(all.skip(i + 1)))
                =~= out.deep_view() + without_pseudo_headers(all.skip(i + 1)));
        }
        i = i + 1;
    }
    assert(all.skip(i as int) =~= Seq::<(Seq<u8>, Seq<u8>)>::empty());
    assert(out.deep_view() + Seq::<(Seq<u8>, Seq<u8>)>::empty() =~= out.deep_view());
    out
}


proof fn lemma_without_name_drops(hs: Seq<(Seq<u8>, Seq<u8>)>, name: Seq<u8>)
    ensures
        forall|k: int| 0 <= k < without_name(hs, name).len() ==> (#[trigger] without_name(hs, name)[k]).0 != name,
    decreases hs.len(),
{
    if hs.len() > 0 {
        lemma_without_name_drops(hs.skip(1), name);
        let rest = without_name(hs.skip(1), name);
        if hs[0].0 != name {
            assert forall|k: int| 0 <= k < without_name(hs, name).len() implies (
            #[trigger] without_name(hs, name)[k]).0 != name by {
                if k > 0 {
                    assert(without_name(hs, name)[k] == rest[k - 1]);
                }
            }
        }
    }
}

proof fn lemma_without_name_keeps(hs: Seq<(Seq<u8>, Seq<u8>)>, name: Seq<u8>)
    ensures
        forall|k: int| 0 <= k < hs.len() && (#[trigger] hs[k]).0 != name ==> without_name(hs, name).contains(hs[k]),
    decreases hs.len(),
{
    if hs.len() > 0 {
        let tail = hs.skip(1);
        lemma_without_name_keeps(tail, name);
        let rest = without_name(tail, name);
        let r = without_name(hs, name);
        assert forall|k: int| 0 <= k < hs.len() && (#[trigger] hs[k]).0 != name implies r.contains(hs[k]) by {
            if k == 0 {
                assert(r[0] == hs[0]);
            } else {
                assert(hs[k] == tail[k - 1]);
                let idx = choose|idx: int| 0 <= idx < rest.len() && rest[idx] == hs[k];
                if hs[0].0 != name {
                    assert(r[idx + 1] == rest[idx]);
                }
            }
        }
    }
}

/// A header map's `insert` keeps every entry of another name.
pub proof fn lemma_insert_header_keeps(hs: Seq<(Seq<u8>, Seq<u8>)>, name: Seq<u8>, value: Seq<u8>)
    ensures
        forall|k: int|
            0 <= k < hs.len() && (#[trigger] hs[k]).0 != name ==> insert_header(hs, name, value).contains(hs[k]),
    decreases hs.len(),
{
    if hs.len() > 0 {
        let tail = hs.skip(1);
        let r = insert_header(hs, name, value);
        if hs[0].0 == name {
            lemma_without_name_keeps(tail, name);
            let rest = without_name(tail, name);
            assert forall|k: int| 0 <= k < hs.len() && (#[trigger] hs[k]).0 != name implies r.contains(hs[k]) by {
                assert(hs[k] == tail[k - 1]);
                let idx = choose|idx: int| 0 <= idx < rest.len() && rest[idx] == hs[k];
                assert(r[idx + 1] == rest[idx]);
            }
        } else {
            lemma_insert_header_keeps(tail, name, value);
            let rest = insert_header(tail, name, value);
            assert forall|k: int| 0 <= k < hs.len() && (#[trigger] hs[k]).0 != name implies r.contains(hs[k]) by {
                if k == 0 {
                    assert(r[0] == hs[0]);
                } else {
                    assert(hs[k] == tail[k - 1]);
                    let idx = choose|idx: int| 0 <= idx < rest.len() && rest[idx] == hs[k];
                    assert(r[idx + 1] == rest[idx]);
                }
            }
        }
    }
}

/// After a header map's `insert`, the header has exactly one entry, which
/// holds the inserted value.
pub proof fn lemma_insert_header_sets(hs: Seq<(Seq<u8>, Seq<u8>)>, name: Seq<u8>, value: Seq<u8>)
    ensures
        first_value(insert_header(hs, name, value), name) == Some(value),
        forall|i: int, j: int|
            0 <= i < insert_header(hs, name, value).len() && 0 <= j < insert_header(hs, name, value).len()
            && (#[trigger] insert_header(hs, name, value)[i]).0 == name
            && (#[trigger] insert_header(hs, name, value)[j]).0 == name ==> i == j,
    decreases hs.len(),
{
    let r = insert_header(hs, name, value);
    if hs.len() == 0 {
    } else if hs[0].0 == name {
        lemma_without_name_drops(hs.skip(1), name);
        let rest = without_name(hs.skip(1), name);
        assert(r == seq![(name, value)] + rest);
        assert forall|i: int, j: int|
            0 <= i < r.len() && 0 <= j < r.len() && (#[trigger] r[i]).0 == name && (#[trigger] r[j]).0
                == name implies i == j by {
            if i > 0 {
                assert(r[i] == rest[i - 1]);
            }
            if j > 0 {
                assert(r[j] == rest[j - 1]);
            }
        }
    } else {
        lemma_insert_header_sets(hs.skip(1), name, value);
        let rest = insert_header(hs.skip(1), name, value);
        assert(r == seq![hs[0]] + rest);
        assert(r.skip(1) =~= rest);
        assert forall|i: int, j: int|
            0 <= i < r.len() && 0 <= j < r.len() && (#[trigger] r[i]).0 == name && (#[trigger] r[j]).0
                == name implies i == j by {
            assert(i > 0 && j > 0);
            assert(r[i] == rest[i - 1]);
            assert(r[j] == rest[j - 1]);
        }
    }
}


/// A normalised header name is a header name, and normalising it again
/// changes nothing.
pub proof fn lemma_normalized_name_is_stable(s: Seq<u8>)
    requires
        is_header_name(s),
    ensures
        is_header_name(normalize_header_name(s)),
        normalize_header_name(normalize_header_name(s)) == normalize_header_name(s),
{
    let n = normalize_header_name(s);
    assert forall|i: int| 0 <= i < n.len() implies header_name_byte(#[trigger] n[i]) == n[i] by {
        assert(header_name_byte(s[i]) != 0);
    }
    assert(normalize_header_name(n) =~= n);
}

/// A header accepted on the command line is accepted again, unchanged,
/// when it is added to a response.
pub proof fn lemma_parsed_header_rechecks(line: Seq<u8>)
    ensures
        header_line(line) matches Ok((k, v)) ==> checked_header((k, v)) == Ok::<_, HeaderError>((k, v)),
{
    if let Some((k, v)) = split_once(line, 58u8) {
        if is_header_name(k) && is_header_value(v) {
            lemma_normalized_name_is_stable(k);
        }
    }
}


/// Whether a byte is ASCII whitespace, as `u8::is_ascii_whitespace` has
/// it: space, tab, line feed, form feed or carriage return.
pub open spec fn is_ascii_ws(b: u8) -> bool {
    b == 32 || b == 9 || b == 10 || b == 12 || b == 13
}

/// `s` without its leading ASCII whitespace.
pub open spec fn trim_start(s: Seq<u8>) -> Seq<u8>
    decreases s.len(),
{
    if s.len() > 0 && is_ascii_ws(s[0]) {
        trim_start(s.skip(1))
    } else {
        s
    }
}

/// `s` without its trailing ASCII whitespace.
pub open spec fn trim_end(s: Seq<u8>) -> Seq<u8>
    decreases s.len(),
{
    if s.len() > 0 && is_ascii_ws(s.last()) {
        trim_end(s.drop_last())
    } else {
        s
    }
}

/// `s` without leading and trailing ASCII whitespace.
pub open spec fn trim(s: Seq<u8>) -> Seq<u8> {
    trim_end(trim_start(s))
}

/// The ASCII lower-case form of a byte.
pub open spec fn ascii_lower(b: u8) -> u8 {
    if 65 <= b <= 90 {
        (b + 32) as u8
    } else {
        b
    }
}

/// Whether two byte strings are equal when ASCII letters are compared
/// without regard to case.
pub open spec fn eq_ignore_ascii_case(a: Seq<u8>, b: Seq<u8>) -> bool {
    &&& a.len() == b.len()
    &&& forall|i: int| 0 <= i < a.len() ==> ascii_lower(#[trigger] a[i]) == ascii_lower(b[i])
}

/// Whether a comma-separated header value lists `token`: some item,
/// trimmed of ASCII whitespace, equals it up to ASCII case.
pub open spec fn lists_token(value: Seq<u8>, token: Seq<u8>) -> bool {
    exists|i: int|
        0 <= i < split(value, 44u8).len() && eq_ignore_ascii_case(
            trim(#[trigger] split(value, 44u8)[i]),
            token,
        )
}

/// Whether some header named `name` lists `token`.
pub open spec fn has_token(hs: Seq<(Seq<u8>, Seq<u8>)>, name: Seq<u8>, token: Seq<u8>) -> bool {
    exists|i: int| 0 <= i < hs.len() && (#[trigger] hs[i]).0 == name && lists_token(hs[i].1, token)
}

/// The normalised name `upgrade`, which is also the token a `connection`
/// header lists to ask for an upgrade.
pub open spec fn upgrade_name() -> Seq<u8> {
    seq![117u8, 112u8, 103u8, 114u8, 97u8, 100u8, 101u8]
}

/// The token `websocket`.
pub open spec fn websocket_token() -> Seq<u8> {
    seq![119u8, 101u8, 98u8, 115u8, 111u8, 99u8, 107u8, 101u8, 116u8]
}

/// Whether a request with these headers asks to be upgraded to a websocket,
/// as `hyper_tungstenite::is_upgrade_request` decides it: a `connection`
/// header lists `upgrade` and an `upgrade` header lists `websocket`.
pub open spec fn websocket_upgrade(hs: Seq<(Seq<u8>, Seq<u8>)>) -> bool {
    has_token(hs, connection_name(), upgrade_name()) && has_token(hs, upgrade_name(), websocket_token())
}

proof fn lemma_trim_start_at(s: Seq<u8>, k: int)
    requires
        0 <= k <= s.len(),
        forall|j: int| 0 <= j < k ==> is_ascii_ws(s[j]),
        k < s.len() ==> !is_ascii_ws(s[k]),
    ensures
        trim_start(s) == s.skip(k),
    decreases k,
{
    if k == 0 {
        assert(s.skip(0) =~= s);
    } else {
        lemma_trim_start_at(s.skip(1), k - 1);
        assert(s.skip(1).skip(k - 1) =~= s.skip(k));
    }
}

proof fn lemma_trim_end_at(s: Seq<u8>, m: int)
    requires
        0 <= m <= s.len(),
        forall|j: int| m <= j < s.len() ==> is_ascii_ws(s[j]),
        m > 0 ==> !is_ascii_ws(s[m - 1]),
    ensures
        trim_end(s) == s.take(m),
    decreases s.len() - m,
{
    if m == s.len() {
        assert(s.take(m) =~= s);
    } else {
        lemma_trim_end_at(s.drop_last(), m);
        assert(s.drop_last().take(m) =~= s.take(m));
    }
}

fn is_ascii_whitespace_byte(b: u8) -> (r: bool)
    ensures
        r == is_ascii_ws(b),
{
    b == 32 || b == 9 || b == 10 || b == 12 || b == 13
}

/// The bounds of `s` trimmed of ASCII whitespace.
fn trim_bounds(s: &[u8]) -> (r: (usize, usize))
    ensures
        r.0 <= r.1 <= s@.len(),
        s@.subrange(r.0 as int, r.1 as int) == trim(s@),
{
    let n = s.len();
    let mut start: usize = 0;
    while start < n && is_ascii_whitespace_byte(s[start])
        invariant
            start <= n == s@.len(),
            forall|j: int| 0 <= j < start ==> is_ascii_ws(s@[j]),
        decreases n - start,
    {
        start = start + 1;
    }
    let mut end: usize = n;
    while end > start && is_ascii_whitespace_byte(s[end - 1])
        invariant
            start <= end <= n == s@.len(),
            forall|j: int| end <= j < n ==> is_ascii_ws(s@[j]),
        decreases end,
    {
        end = end - 1;
    }
    proof {
        lemma_trim_start_at(s@, start as int);
        let t = s@.skip(start as int);
        lemma_trim_end_at(t, end - start);
        assert(t.take(end - start) =~= s@.subrange(start as int, end as int));
    }
    (start, end)
}

fn lower(b: u8) -> (r: u8)
    ensures
        r == ascii_lower(b),
{
    if 65 <= b && b <= 90 {
        b + 32
    } else {
        b
    }
}

/// Whether `s[from..to]` equals `token` up to ASCII case.
fn range_eq_ignore_ascii_case(s: &[u8], from: usize, to: usize, token: &[u8]) -> (r: bool)
    requires
        from <= to <= s@.len(),
    ensures
        r == eq_ignore_ascii_case(s@.subrange(from as int, to as int), token@),
{
    let ghost part = s@.subrange(from as int, to as int);
    if to - from != token.len() {
        return false;
    }
    let mut i: usize = 0;
    while i < token.len()
        invariant
            from <= to <= s@.len(),
            to - from == token@.len(),
            part == s@.subrange(from as int, to as int),
            i <= token@.len(),
            forall|j: int| 0 <= j < i ==> ascii_lower(#[trigger] part[j]) == ascii_lower(token@[j]),
        decreases token@.len() - i,
    {
        if lower(s[from + i]) != lower(token[i]) {
            assert(part[i as int] == s@[from + i]);
            return false;
        }
        assert(part[i as int] == s@[from + i]);
        i = i + 1;
    }
    true
}

/// Whether a comma-separated header value lists `token`.
fn value_lists_token(value: &[u8], token: &[u8]) -> (r: bool)
    ensures
        r == lists_token(value@, token@),
{
    let pieces = split_bytes(value, 44u8);
    let ghost parts = split(value@, 44u8);
    let mut i: usize = 0;
    while i < pieces.len()
        invariant
            pieces.deep_view() == parts,
            parts == split(value@, 44u8),
            i <= pieces@.len(),
            forall|j: int| 0 <= j < i ==> !eq_ignore_ascii_case(trim(#[trigger] parts[j]), token@),
        decreases pieces@.len() - i,
    {
        assert(pieces@[i as int].deep_view() =~= pieces@[i as int]@);
        let piece = pieces[i].as_slice();
        let (a, b) = trim_bounds(piece);
        if range_eq_ignore_ascii_case(piece, a, b, token) {
            assert(parts[i as int] == piece@);
            return true;
        }
        i = i + 1;
    }
    false
}

/// Whether some header named `name` lists `token`.
fn headers_list_token(hs: &HeaderPairs, name: &[u8], token: &[u8]) -> (r: bool)
    ensures
        r == has_token(hs.deep_view(), name@, token@),
{
    let ghost all = hs.deep_view();
    let mut i: usize = 0;
    while i < hs.len()
        invariant
            all == hs.deep_view(),
            i <= hs@.len(),
            forall|j: int| 0 <= j < i ==> !((#[trigger] all[j]).0 == name@ && lists_token(all[j].1, token@)),
        decreases hs@.len() - i,
    {
        assert(hs@[i as int].0.deep_view() =~= hs@[i as int].0@);
        assert(hs@[i as int].1.deep_view() =~= hs@[i as int].1@);
        assert(all[i as int] == (hs@[i as int].0@, hs@[i as int].1@));
        if bytes_eq(hs[i].0.as_slice(), name) && value_lists_token(hs[i].1.as_slice(), token) {
            return true;
        }
        i = i + 1;
    }
    false
}

/// Whether a request with these headers asks to be upgraded to a
/// websocket.
pub fn upgrade_requested(hs: &HeaderPairs) -> (r: bool)
    ensures
        r == websocket_upgrade(hs.deep_view()),
{
    let connection = connection_name_bytes();
    let upgrade: Vec<u8> = vec![117u8, 112u8, 103u8, 114u8, 97u8, 100u8, 101u8];
    let websocket: Vec<u8> = vec![119u8, 101u8, 98u8, 115u8, 111u8, 99u8, 107u8, 101u8, 116u8];
    assert(upgrade@ =~= upgrade_name());
    assert(websocket@ =~= websocket_token());
    headers_list_token(hs, connection.as_slice(), upgrade.as_slice())
        && headers_list_token(hs, upgrade.as_slice(), websocket.as_slice())
}

/// Whether every header of the list is valid and has a normalised name.
pub open spec fn all_normalized(hs: Seq<(Seq<u8>, Seq<u8>)>) -> bool {
    &&& all_valid(hs)
    &&& forall|i: int| 0 <= i < hs.len() ==> normalize_header_name(#[trigger] hs[i].0) == hs[i].0
}

/// Checked headers are valid and have normalised names.
pub proof fn lemma_checked_headers_normalized(hs: Seq<(Seq<u8>, Seq<u8>)>)
    ensures
        checked_headers(hs) matches Ok(c) ==> all_normalized(c),
    decreases hs.len(),
{
    if hs.len() > 0 {
        lemma_checked_headers_normalized(hs.skip(1));
        if let Ok(h) = checked_header(hs[0]) {
            if let Ok(rest) = checked_headers(hs.skip(1)) {
                lemma_normalized_name_is_stable(hs[0].0);
                let c = seq![h] + rest;
                assert forall|i: int| 0 <= i < c.len() implies is_header_name(#[trigger] c[i].0)
                    && is_header_value(c[i].1) && normalize_header_name(c[i].0) == c[i].0 by {
                    if i > 0 {
                        assert(c[i] == rest[i - 1]);
                    }
                }
            }
        }
    }
}

proof fn lemma_without_name_normalized(hs: Seq<(Seq<u8>, Seq<u8>)>, name: Seq<u8>)
    requires
        all_normalized(hs),
    ensures
        all_normalized(without_name(hs, name)),
    decreases hs.len(),
{
    if hs.len() > 0 {
        assert(all_normalized(hs.skip(1))) by {
            assert forall|i: int| 0 <= i < hs.skip(1).len() implies is_header_name(#[trigger] hs.skip(1)[i].0)
                && is_header_value(hs.skip(1)[i].1) && normalize_header_name(hs.skip(1)[i].0)
                == hs.skip(1)[i].0 by {
                assert(hs.skip(1)[i] == hs[i + 1]);
            }
        }
        lemma_without_name_normalized(hs.skip(1), name);
        let rest = without_name(hs.skip(1), name);
        if hs[0].0 != name {
            let c = seq![hs[0]] + rest;
            assert forall|i: int| 0 <= i < c.len() implies is_header_name(#[trigger] c[i].0)
                && is_header_value(c[i].1) && normalize_header_name(c[i].0) == c[i].0 by {
                if i > 0 {
                    assert(c[i] == rest[i - 1]);
                }
            }
        }
    }
}

/// Setting a valid, normalised header keeps a list valid and normalised.
pub proof fn lemma_insert_header_normalized(hs: Seq<(Seq<u8>, Seq<u8>)>, name: Seq<u8>, value: Seq<u8>)
    requires
        all_normalized(hs),
        is_header_name(name),
        normalize_header_name(name) == name,
        is_header_value(value),
    ensures
        all_normalized(insert_header(hs, name, value)),
    decreases hs.len(),
{
    if hs.len() > 0 {
        assert(all_normalized(hs.skip(1))) by {
            assert forall|i: int| 0 <= i < hs.skip(1).len() implies is_header_name(#[trigger] hs.skip(1)[i].0)
                && is_header_value(hs.skip(1)[i].1) && normalize_header_name(hs.skip(1)[i].0)
                == hs.skip(1)[i].0 by {
                assert(hs.skip(1)[i] == hs[i + 1]);
            }
        }
        let first = if hs[0].0 == name { (name, value) } else { hs[0] };
        let rest = if hs[0].0 == name {
            lemma_without_name_normalized(hs.skip(1), name);
            without_name(hs.skip(1), name)
        } else {
            lemma_insert_header_normalized(hs.skip(1), name, value);
            insert_header(hs.skip(1), name, value)
        };
        let c = seq![first] + rest;
        assert(insert_header(hs, name, value) == c);
        assert forall|i: int| 0 <= i < c.len() implies is_header_name(#[trigger] c[i].0)
            && is_header_value(c[i].1) && normalize_header_name(c[i].0) == c[i].0 by {
            if i > 0 {
                assert(c[i] == rest[i - 1]);
            }
        }
    }
}

/// `connection: close` is a valid, normalised header.
pub proof fn lemma_connection_close_valid()
    ensures
        is_header_name(connection_name()),
        normalize_header_name(connection_name()) == connection_name(),
        is_header_value(close_value()),
{
    assert(normalize_header_name(connection_name()) =~= connection_name());
}

} // verus!
