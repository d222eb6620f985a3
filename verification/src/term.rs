//! Terms: the posting-list keys.  A term pairs a field ordinal with payload
//! bytes; text payloads are the UTF-8 encoding of the value, u32 payloads its
//! big-endian four bytes.  Terms are ordered lexicographically by
//! (field ordinal, payload bytes).

use vstd::prelude::*;
use vstd::string::StrSliceExecFns;
use vstd::string::StringSliceAdditionalSpecFns;

use crate::schema::Field;

verus! {

/// Mathematical model of a `Term`.
pub struct TermModel {
    pub field: usize,
    pub payload: Seq<u8>,
}

/// A posting-list key.
#[derive(Clone, PartialEq, Eq, Debug)]
pub struct Term {
    field: usize,
    payload: Vec<u8>,
}

impl View for Term {
    type V = TermModel;

    closed spec fn view(&self) -> TermModel {
        TermModel { field: self.field, payload: self.payload@ }
    }
}

/// The big-endian four bytes of a u32.
pub open spec fn u32_be_bytes(v: u32) -> Seq<u8> {
    seq![
        ((v >> 24) & 0xff) as u8,
        ((v >> 16) & 0xff) as u8,
        ((v >> 8) & 0xff) as u8,
        (v & 0xff) as u8,
    ]
}

impl Term {
    /// The term of a text token: the field and the token's UTF-8 bytes.
    pub fn from_field_text(field: Field, text: &str) -> (t: Term)
        ensures
            t@.field == field.ord,
            t@.payload == text.spec_bytes(),
    {
        Term { field: field.ord, payload: text.as_bytes_vec() }
    }

    /// The term of an indexed u32 value: the field and the value's
    /// big-endian bytes.
    pub fn from_field_u32(field: Field, value: u32) -> (t: Term)
        ensures
            t@.field == field.ord,
            t@.payload == u32_be_bytes(value),
    {
        proof {
            assert((value >> 24) & 0xff < 256 && (value >> 16) & 0xff < 256 && (value >> 8) & 0xff
                < 256 && value & 0xff < 256) by (bit_vector);
        }
        let b0 = ((value >> 24) & 0xff) as u8;
        let b1 = ((value >> 16) & 0xff) as u8;
        let b2 = ((value >> 8) & 0xff) as u8;
        let b3 = (value & 0xff) as u8;
        let payload = vec![b0, b1, b2, b3];
        let t = Term { field: field.ord, payload };
        proof {
            assert(t@.payload =~= u32_be_bytes(value));
        }
        t
    }

    pub fn field(&self) -> (f: Field)
        ensures
            f.ord == self@.field,
    {
        Field { ord: self.field }
    }

    pub fn payload(&self) -> (p: &Vec<u8>)
        ensures
            p@ == self@.payload,
    {
        &self.payload
    }

    /// A fresh term with the same key.
    pub fn duplicate(&self) -> (t: Term)
        ensures
            t@ == self@,
    {
        Term { field: self.field, payload: copy_vec(&self.payload) }
    }
}

/// A fresh vector with the same elements.
pub fn copy_vec<T: Copy>(v: &Vec<T>) -> (r: Vec<T>)
    ensures
        r@ == v@,
{
    let n = v.len();
    let mut r: Vec<T> = Vec::new();
    let mut i: usize = 0;
    while i < n
        invariant
            n == v@.len(),
            i <= n,
            r@ == v@.take(i as int),
        decreases n - i,
    {
        r.push(v[i]);
        i = i + 1;
        proof {
            assert(r@ =~= v@.take(i as int));
        }
    }
    proof {
        assert(r@ =~= v@);
    }
    r
}

/// The term key of one text token of a field: the token's UTF-8 bytes.
pub open spec fn text_term(field_ord: usize, token: Seq<char>) -> TermModel {
    TermModel { field: field_ord, payload: vstd::utf8::encode_utf8(token) }
}

/// The term key of one indexed u32 value of a field.
pub open spec fn u32_term(field_ord: usize, value: u32) -> TermModel {
    TermModel { field: field_ord, payload: u32_be_bytes(value) }
}

/// Strict lexicographic order on byte strings.
pub open spec fn bytes_lt(a: Seq<u8>, b: Seq<u8>) -> bool
    decreases a.len(), b.len(),
{
    if b.len() == 0 {
        false
    } else if a.len() == 0 {
        true
    } else if a[0] < b[0] {
        true
    } else if a[0] > b[0] {
        false
    } else {
        bytes_lt(a.drop_first(), b.drop_first())
    }
}

/// Strict order on terms: by field ordinal, then by payload bytes.
pub open spec fn term_lt(a: TermModel, b: TermModel) -> bool {
    a.field < b.field || (a.field == b.field && bytes_lt(a.payload, b.payload))
}

pub proof fn lemma_bytes_lt_irrefl(a: Seq<u8>)
    ensures
        !bytes_lt(a, a),
    decreases a.len(),
{
    if a.len() > 0 {
        lemma_bytes_lt_irrefl(a.drop_first());
    }
}

pub proof fn lemma_bytes_lt_trans(a: Seq<u8>, b: Seq<u8>, c: Seq<u8>)
    requires
        bytes_lt(a, b),
        bytes_lt(b, c),
    ensures
        bytes_lt(a, c),
    decreases a.len(),
{
    if a.len() > 0 && b.len() > 0 && c.len() > 0 && a[0] == b[0] && b[0] == c[0] {
        lemma_bytes_lt_trans(a.drop_first(), b.drop_first(), c.drop_first());
    }
}

/// Any two byte strings are ordered or equal.
pub proof fn lemma_bytes_lt_total(a: Seq<u8>, b: Seq<u8>)
    ensures
        bytes_lt(a, b) || bytes_lt(b, a) || a == b,
    decreases a.len(),
{
    if a.len() > 0 && b.len() > 0 && a[0] == b[0] {
        lemma_bytes_lt_total(a.drop_first(), b.drop_first());
        if a.drop_first() == b.drop_first() {
            assert(a.drop_first().len() == b.drop_first().len());
            assert(a.len() == b.len());
            assert forall|i: int| 0 <= i < a.len() implies a[i] == b[i] by {
                if i > 0 {
                    assert(a[i] == a.drop_first()[i - 1]);
                    assert(b[i] == b.drop_first()[i - 1]);
                }
            }
            assert(a =~= b);
        }
    } else if a.len() == 0 && b.len() == 0 {
        assert(a =~= b);
    }
}

pub proof fn lemma_term_lt_irrefl(a: TermModel)
    ensures
        !term_lt(a, a),
{
    lemma_bytes_lt_irrefl(a.payload);
}

pub proof fn lemma_term_lt_trans(a: TermModel, b: TermModel, c: TermModel)
    requires
        term_lt(a, b),
        term_lt(b, c),
    ensures
        term_lt(a, c),
{
    if a.field == b.field && b.field == c.field {
        lemma_bytes_lt_trans(a.payload, b.payload, c.payload);
    }
}

/// Any two terms are ordered or equal.
pub proof fn lemma_term_lt_total(a: TermModel, b: TermModel)
    ensures
        term_lt(a, b) || term_lt(b, a) || a == b,
{
    if a.field == b.field {
        lemma_bytes_lt_total(a.payload, b.payload);
    }
}

/// Whether `a` comes strictly before `b` in serialized term order.
pub fn term_cmp_lt(a: &Term, b: &Term) -> (r: bool)
    ensures
        r == term_lt(a@, b@),
{
    if a.field < b.field {
        return true;
    }
    if a.field > b.field {
        return false;
    }
    let na = a.payload.len();
    let nb = b.payload.len();
    let mut i: usize = 0;
    proof {
        assert(a.payload@.skip(0) =~= a.payload@);
        assert(b.payload@.skip(0) =~= b.payload@);
    }
    while i < na && i < nb
        invariant
            na == a.payload@.len(),
            nb == b.payload@.len(),
            i <= na,
            i <= nb,
            a@.field == b@.field,
            bytes_lt(a.payload@, b.payload@) == bytes_lt(
                a.payload@.skip(i as int),
                b.payload@.skip(i as int),
            ),
            forall|j: int| 0 <= j < i ==> a.payload@[j] == b.payload@[j],
        decreases na - i,
    {
        let x = a.payload[i];
        let y = b.payload[i];
        proof {
            assert(a.payload@.skip(i as int)[0] == a.payload@[i as int]);
            assert(b.payload@.skip(i as int)[0] == b.payload@[i as int]);
        }
        if x < y {
            return true;
        }
        if x > y {
            return false;
        }
        proof {
            assert(a.payload@.skip(i as int).drop_first() =~= a.payload@.skip(i + 1));
            assert(b.payload@.skip(i as int).drop_first() =~= b.payload@.skip(i + 1));
        }
        i = i + 1;
    }
    proof {
        if i >= nb {
            assert(b.payload@.skip(i as int) =~= Seq::<u8>::empty());
        } else {
            assert(a.payload@.skip(i as int) =~= Seq::<u8>::empty());
        }
    }
    na < nb
}

/// Whether the two terms are the same key.
pub fn term_key_eq(a: &Term, b: &Term) -> (r: bool)
    ensures
        r == (a@ == b@),
{
    if a.field != b.field {
        return false;
    }
    let na = a.payload.len();
    let nb = b.payload.len();
    if na != nb {
        proof {
            assert(a@.payload.len() != b@.payload.len());
        }
        return false;
    }
    let mut i: usize = 0;
    while i < na
        invariant
            na == a.payload@.len(),
            na == b.payload@.len(),
            i <= na,
            a.field == b.field,
            forall|j: int| 0 <= j < i ==> a.payload@[j] == b.payload@[j],
        decreases na - i,
    {
        if a.payload[i] != b.payload[i] {
            return false;
        }
        i = i + 1;
    }
    proof {
        assert(a.payload@ =~= b.payload@);
    }
    true
}

} // verus!
