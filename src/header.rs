//! Header names and values, and the ordered multi-map of a response's headers.

use crate::error::Error;
use vstd::prelude::*;

verus! {

/// A token character: a byte that may stand in a header name.
pub open spec fn is_token_byte(b: u8) -> bool {
    ||| 0x30 <= b <= 0x39
    ||| 0x41 <= b <= 0x5a
    ||| 0x61 <= b <= 0x7a
    ||| b == 0x21 || b == 0x23 || b == 0x24 || b == 0x25 || b == 0x26 || b == 0x27
    ||| b == 0x2a || b == 0x2b || b == 0x2d || b == 0x2e
    ||| b == 0x5e || b == 0x5f || b == 0x60 || b == 0x7c || b == 0x7e
}

/// An ASCII letter in lower case; every other byte as it is.
pub open spec fn to_lower(b: u8) -> u8 {
    if 0x41 <= b <= 0x5a {
        (b + 0x20) as u8
    } else {
        b
    }
}

/// Every byte of `s` through `to_lower`.
pub open spec fn lowercase(s: Seq<u8>) -> Seq<u8> {
    s.map_values(|b: u8| to_lower(b))
}

/// The longest header name that http takes.
pub const MAX_HEADER_NAME_LEN: usize = 65535;

/// A valid header name: 1 to `MAX_HEADER_NAME_LEN` token characters.
pub open spec fn is_header_name(s: Seq<u8>) -> bool {
    &&& 1 <= s.len() <= MAX_HEADER_NAME_LEN
    &&& forall|i: int| 0 <= i < s.len() ==> is_token_byte(#[trigger] s[i])
}

/// A byte that may stand in a header value: a visible or non-ASCII byte, a
/// space or a tab.
pub open spec fn is_value_byte(b: u8) -> bool {
    (b >= 0x20 && b != 0x7f) || b == 0x09
}

/// A valid header value.
pub open spec fn is_header_value(s: Seq<u8>) -> bool {
    forall|i: int| 0 <= i < s.len() ==> is_value_byte(#[trigger] s[i])
}

/// Relies on `http::HeaderName::from_bytes`: it accepts exactly the names of 1
/// to 65535 token characters, and the name it builds reads, through
/// `HeaderName::as_str`, as those bytes in lower case.
#[verifier::external_body]
fn header_name_from_bytes(b: &[u8]) -> (r: Result<Vec<u8>, http::header::InvalidHeaderName>)
    ensures
        r is Ok <==> is_header_name(b@),
        r matches Ok(n) ==> n@ == lowercase(b@),
{
    match http::header::HeaderName::from_bytes(b) {
        Ok(n) => Ok(n.as_str().as_bytes().to_vec()),
        Err(e) => Err(e),
    }
}

/// Relies on `http::HeaderValue::from_bytes`: it accepts exactly the byte
/// strings whose every byte `is_value_byte` admits, and keeps them as they are
/// (`HeaderValue::as_bytes`).
#[verifier::external_body]
fn header_value_from_bytes(b: &[u8]) -> (r: Result<Vec<u8>, http::header::InvalidHeaderValue>)
    ensures
        r is Ok <==> is_header_value(b@),
        r matches Ok(v) ==> v@ == b@,
{
    match http::header::HeaderValue::from_bytes(b) {
        Ok(v) => Ok(v.as_bytes().to_vec()),
        Err(e) => Err(e),
    }
}

/// Validates a header name and puts it in lower case.
pub fn header_name(b: &[u8]) -> (r: Result<Vec<u8>, Error>)
    ensures
        is_header_name(b@) ==> (r matches Ok(n) && n@ == lowercase(b@)),
        !is_header_name(b@) ==> r matches Err(Error::InvalidHeaderName(_)),
{
    match header_name_from_bytes(b) {
        Ok(n) => Ok(n),
        Err(e) => Err(Error::InvalidHeaderName(e)),
    }
}

/// Validates a header value.
pub fn header_value(b: &[u8]) -> (r: Result<Vec<u8>, Error>)
    ensures
        is_header_value(b@) ==> (r matches Ok(v) && v@ == b@),
        !is_header_value(b@) ==> r matches Err(Error::InvalidHeaderValue(_)),
{
    match header_value_from_bytes(b) {
        Ok(v) => Ok(v),
        Err(e) => Err(Error::InvalidHeaderValue(e)),
    }
}

/// The entries of `hs` whose name is `key`, in order.
pub open spec fn entries_named(hs: Seq<(Seq<u8>, Seq<u8>)>, key: Seq<u8>) -> Seq<(Seq<u8>, Seq<u8>)> {
    hs.filter(|e: (Seq<u8>, Seq<u8>)| e.0 == key)
}

/// The entries of `hs` whose name is not `key`, in order.
pub open spec fn entries_not_named(hs: Seq<(Seq<u8>, Seq<u8>)>, key: Seq<u8>) -> Seq<(Seq<u8>, Seq<u8>)> {
    hs.filter(|e: (Seq<u8>, Seq<u8>)| e.0 != key)
}

/// The values of the entries of `hs` whose name is `key`, in order.
pub open spec fn values_named(hs: Seq<(Seq<u8>, Seq<u8>)>, key: Seq<u8>) -> Seq<Seq<u8>> {
    entries_named(hs, key).map_values(|e: (Seq<u8>, Seq<u8>)| e.1)
}

/// `i` is the position of the first entry of `hs` named `key`.
pub open spec fn is_first_named(hs: Seq<(Seq<u8>, Seq<u8>)>, key: Seq<u8>, i: int) -> bool {
    &&& 0 <= i < hs.len()
    &&& hs[i].0 == key
    &&& forall|j: int| 0 <= j < i ==> hs[j].0 != key
}

/// The headers of a response: (name, value) pairs in the order in which they
/// came, a name repeated as often as it came. Names are kept in lower case,
/// so that a lookup ignores case.
#[derive(Debug)]
pub struct Headers {
    entries: Vec<(Vec<u8>, Vec<u8>)>,
}

impl View for Headers {
    type V = Seq<(Seq<u8>, Seq<u8>)>;

    closed spec fn view(&self) -> Seq<(Seq<u8>, Seq<u8>)> {
        self.entries@.map_values(|e: (Vec<u8>, Vec<u8>)| (e.0@, e.1@))
    }
}

/// Bytes equal to `b`, in a fresh vector.
fn copy_bytes(b: &[u8]) -> (r: Vec<u8>)
    ensures
        r@ == b@,
{
    let mut r: Vec<u8> = Vec::new();
    let mut i: usize = 0;
    while i < b.len()
        invariant
            i <= b@.len(),
            r@ == b@.subrange(0, i as int),
        decreases b.len() - i,
    {
        r.push(b[i]);
        i = i + 1;
    }
    r
}

/// `b` in lower case.
fn lowercase_bytes(b: &[u8]) -> (r: Vec<u8>)
    ensures
        r@ == lowercase(b@),
{
    let mut r: Vec<u8> = Vec::new();
    let mut i: usize = 0;
    while i < b.len()
        invariant
            i <= b@.len(),
            r@ == lowercase(b@.subrange(0, i as int)),
        decreases b.len() - i,
    {
        let c = b[i];
        let l: u8 = if 0x41 <= c && c <= 0x5a {
            c + 0x20
        } else {
            c
        };
        r.push(l);
        proof {
            assert(lowercase(b@.subrange(0, i + 1)) =~= lowercase(b@.subrange(0, i as int)).push(l));
        }
        i = i + 1;
    }
    proof {
        assert(b@.subrange(0, b@.len() as int) =~= b@);
    }
    r
}

/// Whether two byte strings are equal.
fn bytes_eq(a: &[u8], b: &[u8]) -> (r: bool)
    ensures
        r == (a@ == b@),
{
    if a.len() != b.len() {
        return false;
    }
    let mut i: usize = 0;
    while i < a.len()
        invariant
            i <= a@.len() == b@.len(),
            forall|j: int| 0 <= j < i ==> a@[j] == b@[j],
        decreases a.len() - i,
    {
        if a[i] != b[i] {
            return false;
        }
        i = i + 1;
    }
    assert(a@ =~= b@);
    true
}

impl Headers {
    /// No headers.
    pub fn new() -> (r: Headers)
        ensures
            r@ == Seq::<(Seq<u8>, Seq<u8>)>::empty(),
    {
        let r = Headers { entries: Vec::new() };
        assert(r@ =~= Seq::<(Seq<u8>, Seq<u8>)>::empty());
        r
    }

    /// The number of entries, a repeated name counted once for each time.
    pub fn len(&self) -> (r: usize)
        ensures
            r == self@.len(),
    {
        self.entries.len()
    }

    /// Whether there is no entry.
    pub fn is_empty(&self) -> (r: bool)
        ensures
            r == (self@.len() == 0),
    {
        self.entries.len() == 0
    }

    /// Adds an entry after the others, beside any of the same name.
    pub fn append(&mut self, name: Vec<u8>, value: Vec<u8>)
        ensures
            final(self)@ == old(self)@.push((name@, value@)),
    {
        self.entries.push((name, value));
        assert(final(self)@ =~= old(self)@.push((name@, value@)));
    }

    /// The name of the entry at `i`.
    pub fn name_at(&self, i: usize) -> (r: &[u8])
        requires
            i < self@.len(),
        ensures
            r@ == self@[i as int].0,
    {
        self.entries[i].0.as_slice()
    }

    /// The value of the entry at `i`.
    pub fn value_at(&self, i: usize) -> (r: &[u8])
        requires
            i < self@.len(),
        ensures
            r@ == self@[i as int].1,
    {
        self.entries[i].1.as_slice()
    }

    /// The value of the first entry named `name`, case ignored.
    pub fn get(&self, name: &[u8]) -> (r: Option<&[u8]>)
        ensures
            r is None <==> forall|i: int| 0 <= i < self@.len() ==> self@[i].0 != lowercase(name@),
            r matches Some(v) ==> exists|i: int|
                is_first_named(self@, lowercase(name@), i) && v@ == self@[i].1,
    {
        let key = lowercase_bytes(name);
        let mut i: usize = 0;
        while i < self.entries.len()
            invariant
                i <= self@.len(),
                key@ == lowercase(name@),
                forall|j: int| 0 <= j < i ==> self@[j].0 != key@,
            decreases self.entries.len() - i,
        {
            if bytes_eq(self.entries[i].0.as_slice(), key.as_slice()) {
                assert(is_first_named(self@, key@, i as int));
                return Some(self.entries[i].1.as_slice());
            }
            i = i + 1;
        }
        None
    }

    /// The values of all entries named `name`, case ignored, in order.
    pub fn get_all(&self, name: &[u8]) -> (r: Vec<Vec<u8>>)
        ensures
            r@.map_values(|v: Vec<u8>| v@) == values_named(self@, lowercase(name@)),
    {
        let key = lowercase_bytes(name);
        let ghost pred = |e: (Seq<u8>, Seq<u8>)| e.0 == key@;
        let mut r: Vec<Vec<u8>> = Vec::new();
        let mut i: usize = 0;
        while i < self.entries.len()
            invariant
                i <= self@.len(),
                key@ == lowercase(name@),
                pred == (|e: (Seq<u8>, Seq<u8>)| e.0 == key@),
                r@.map_values(|v: Vec<u8>| v@) == self@.subrange(0, i as int).filter(pred).map_values(
                    |e: (Seq<u8>, Seq<u8>)| e.1,
                ),
            decreases self.entries.len() - i,
        {
            let ghost prev = self@.subrange(0, i as int);
            let ghost next = self@.subrange(0, i + 1);
            proof {
                assert(next.drop_last() =~= prev);
                reveal(Seq::filter);
            }
            if bytes_eq(self.entries[i].0.as_slice(), key.as_slice()) {
                let ghost before = r@;
                let value = copy_bytes(self.entries[i].1.as_slice());
                assert(value@ == self@[i as int].1);
                r.push(value);
                proof {
                    assert(next.last() == self@[i as int]);
                    assert(r@.map_values(|v: Vec<u8>| v@) =~= before.map_values(|v: Vec<u8>| v@).push(
                        value@,
                    ));
                    assert(next.filter(pred) == prev.filter(pred).push(next.last()));
                    assert(r@.map_values(|v: Vec<u8>| v@) =~= next.filter(pred).map_values(
                        |e: (Seq<u8>, Seq<u8>)| e.1,
                    ));
                }
            } else {
                assert(next.filter(pred) == prev.filter(pred));
            }
            i = i + 1;
        }
        assert(self@.subrange(0, self@.len() as int) =~= self@);
        r
    }

    /// Drops every entry named `name`, case ignored, and keeps the others in
    /// their order.
    pub fn remove(&mut self, name: &[u8])
        ensures
            final(self)@ == entries_not_named(old(self)@, lowercase(name@)),
            forall|i: int| 0 <= i < final(self)@.len() ==> final(self)@[i].0 != lowercase(name@),
    {
        let key = lowercase_bytes(name);
        let ghost pred = |e: (Seq<u8>, Seq<u8>)| e.0 != key@;
        let ghost old_view = self@;
        let mut kept: Vec<(Vec<u8>, Vec<u8>)> = Vec::new();
        let mut i: usize = 0;
        while i < self.entries.len()
            invariant
                i <= self@.len(),
                old_view == self@,
                key@ == lowercase(name@),
                pred == (|e: (Seq<u8>, Seq<u8>)| e.0 != key@),
                kept@.map_values(|e: (Vec<u8>, Vec<u8>)| (e.0@, e.1@)) == old_view.subrange(
                    0,
                    i as int,
                ).filter(pred),
            decreases self.entries.len() - i,
        {
            let ghost prev = old_view.subrange(0, i as int);
            let ghost next = old_view.subrange(0, i + 1);
            proof {
                assert(next.drop_last() =~= prev);
                reveal(Seq::filter);
            }
            let (n, v) = (&self.entries[i].0, &self.entries[i].1);
            if !bytes_eq(n.as_slice(), key.as_slice()) {
                kept.push((copy_bytes(n.as_slice()), copy_bytes(v.as_slice())));
                proof {
                    assert(next.filter(pred) == prev.filter(pred).push(next.last()));
                    assert(kept@.map_values(|e: (Vec<u8>, Vec<u8>)| (e.0@, e.1@)) =~= next.filter(
                        pred,
                    ));
                }
            } else {
                assert(next.filter(pred) == prev.filter(pred));
            }
            i = i + 1;
        }
        assert(old_view.subrange(0, old_view.len() as int) =~= old_view);
        self.entries = kept;
        proof {
            assert forall|i: int| 0 <= i < final(self)@.len() implies final(self)@[i].0 != lowercase(name@) by {
                old_view.lemma_filter_pred(pred, i);
            }
        }
    }
}

} // verus!
