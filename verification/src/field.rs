//! Elements of the degree-12 extension field and their canonical encoding.
//!
//! An element is twelve base-field coefficients, in the order of the tower
//! (degree 2 inside degree 6 inside degree 12). Each coefficient is written as
//! 32 little-endian bytes that spell a number below the base-field modulus, so
//! that every element has exactly one encoding of 384 bytes.

use vstd::prelude::*;
use vstd::slice::slice_to_vec;
use crate::backend::{
    conjugate_element, cyclotomic_square_element, fq12_conjugate, fq12_cyclotomic_square,
    fq12_frobenius, fq12_inverse, fq12_mul, fq12_square, frobenius_element, inverse_element,
    mul_elements, square_element,
};
use crate::error::StepError;

verus! {

/// Width in bytes of one encoded element.
pub const BN254_DATA_LEN: usize = 384;

/// The base-field modulus of BN254, spelled by its four 64-bit limbs from the
/// least significant up.
pub open spec fn modulus() -> nat {
    0x3c208c16d87cfd47nat + 0x1_0000_0000_0000_0000nat * (0x97816a916871ca8dnat
        + 0x1_0000_0000_0000_0000nat * (0xb85045b68181585dnat + 0x1_0000_0000_0000_0000nat
        * 0x30644e72e131a029nat))
}

/// The little-endian bytes of the base-field modulus.
pub open spec fn modulus_bytes() -> Seq<u8> {
    seq![
        0x47u8, 0xfd, 0x7c, 0xd8, 0x16, 0x8c, 0x20, 0x3c,
        0x8d, 0xca, 0x71, 0x68, 0x91, 0x6a, 0x81, 0x97,
        0x5d, 0x58, 0x81, 0x81, 0xb6, 0x45, 0x50, 0xb8,
        0x29, 0xa0, 0x31, 0xe1, 0x72, 0x4e, 0x64, 0x30,
    ]
}

/// The number that the `len` bytes of `s` from position `from` on spell in
/// little-endian order.
pub open spec fn le_value(s: Seq<u8>, from: int, len: nat) -> nat
    decreases len,
{
    if len == 0 {
        0
    } else {
        s[from] as nat + 256 * le_value(s, from + 1, (len - 1) as nat)
    }
}

/// Byte `k` of the little-endian spelling of `n`.
pub open spec fn le_byte(n: nat, k: nat) -> nat
    decreases k,
{
    if k == 0 {
        n % 256
    } else {
        le_byte(n / 256, (k - 1) as nat)
    }
}

/// Two hundred and fifty-six to the power `k`.
pub open spec fn pow256(k: nat) -> nat
    decreases k,
{
    if k == 0 {
        1
    } else {
        256 * pow256((k - 1) as nat)
    }
}

/// Coefficient `i` of the element that `s` encodes.
pub open spec fn coefficient(s: Seq<u8>, i: int) -> nat {
    le_value(s, 32 * i, 32)
}

/// The twelve coefficients that `s` encodes.
pub open spec fn coefficients(s: Seq<u8>) -> Seq<nat> {
    Seq::new(12, |i: int| coefficient(s, i))
}

/// `s` is the encoding of an element: 384 bytes, each coefficient below the
/// modulus.
pub open spec fn canonical(s: Seq<u8>) -> bool {
    &&& s.len() == 384
    &&& forall|i: int| 0 <= i < 12 ==> #[trigger] coefficient(s, i) < modulus()
}

/// `c` is the coefficient sequence of an element.
pub open spec fn valid_coefficients(c: Seq<nat>) -> bool {
    &&& c.len() == 12
    &&& forall|i: int| 0 <= i < 12 ==> #[trigger] c[i] < modulus()
}

/// The encoding of the element with coefficients `c`.
pub open spec fn encode_spec(c: Seq<nat>) -> Seq<u8> {
    Seq::new(384, |p: int| le_byte(c[p / 32], (p % 32) as nat) as u8)
}

/// What decoding `s` gives: its coefficients where `s` is canonical, a decode
/// error otherwise.
pub open spec fn decode_spec(s: Seq<u8>) -> Result<Seq<nat>, StepError> {
    if canonical(s) {
        Ok(coefficients(s))
    } else {
        Err(StepError::Decode)
    }
}

/// The coefficients of the multiplicative identity.
pub open spec fn identity() -> Seq<nat> {
    Seq::new(12, |i: int| if i == 0 { 1nat } else { 0nat })
}

/// The coefficients of zero.
pub open spec fn zero() -> Seq<nat> {
    Seq::new(12, |i: int| 0nat)
}

pub proof fn lemma_modulus_bytes()
    ensures
        modulus_bytes().len() == 32,
        le_value(modulus_bytes(), 0, 32) == modulus(),
{
    let m = modulus_bytes();
    reveal_with_fuel(le_value, 9);
    assert(le_value(m, 32, 0) == 0);
    assert(le_value(m, 24, 8) == 0x30644e72e131a029nat);
    assert(le_value(m, 16, 16) == 0xb85045b68181585dnat + 0x1_0000_0000_0000_0000nat * le_value(
        m,
        24,
        8,
    ));
    assert(le_value(m, 8, 24) == 0x97816a916871ca8dnat + 0x1_0000_0000_0000_0000nat * le_value(
        m,
        16,
        16,
    ));
    assert(le_value(m, 0, 32) == 0x3c208c16d87cfd47nat + 0x1_0000_0000_0000_0000nat * le_value(
        m,
        8,
        24,
    ));
}

/// Spans that agree byte by byte spell the same number.
pub proof fn lemma_le_value_eq(a: Seq<u8>, oa: int, b: Seq<u8>, ob: int, len: nat)
    requires
        forall|j: int| oa <= j < oa + len ==> #[trigger] a[j] == b[j - oa + ob],
    ensures
        le_value(a, oa, len) == le_value(b, ob, len),
    decreases len,
{
    if len > 0 {
        assert(a[oa] == b[oa - oa + ob]);
        assert forall|j: int| oa + 1 <= j < oa + 1 + (len - 1) implies #[trigger] a[j] == b[j - (oa
            + 1) + (ob + 1)] by {
            assert(a[j] == b[j - oa + ob]);
        }
        lemma_le_value_eq(a, oa + 1, b, ob + 1, (len - 1) as nat);
    }
}

/// Of two spans that agree above position `k`, the one with the smaller byte
/// at `k` spells the smaller number.
pub proof fn lemma_le_value_lt(a: Seq<u8>, oa: int, b: Seq<u8>, ob: int, len: nat, k: int)
    requires
        0 <= k < len,
        a[oa + k] < b[ob + k],
        forall|j: int| oa + k < j < oa + len ==> #[trigger] a[j] == b[j - oa + ob],
    ensures
        le_value(a, oa, len) < le_value(b, ob, len),
    decreases len,
{
    let rest_a = le_value(a, oa + 1, (len - 1) as nat);
    let rest_b = le_value(b, ob + 1, (len - 1) as nat);
    if k == 0 {
        assert forall|j: int| oa + 1 <= j < oa + 1 + (len - 1) implies #[trigger] a[j] == b[j - (oa
            + 1) + (ob + 1)] by {
            assert(a[j] == b[j - oa + ob]);
        }
        lemma_le_value_eq(a, oa + 1, b, ob + 1, (len - 1) as nat);
    } else {
        assert forall|j: int| oa + 1 + (k - 1) < j < oa + 1 + (len - 1) implies #[trigger] a[j]
            == b[j - (oa + 1) + (ob + 1)] by {
            assert(a[j] == b[j - oa + ob]);
        }
        lemma_le_value_lt(a, oa + 1, b, ob + 1, (len - 1) as nat, k - 1);
        assert(rest_a + 1 <= rest_b);
    }
}

/// Byte `k` of the number that a span spells is the span's byte `k`.
pub proof fn lemma_le_byte_of_value(s: Seq<u8>, from: int, len: nat, k: nat)
    requires
        k < len,
    ensures
        le_byte(le_value(s, from, len), k) == s[from + k],
    decreases k,
{
    let rest = le_value(s, from + 1, (len - 1) as nat);
    let v = le_value(s, from, len);
    assert(v == s[from] as nat + 256 * rest);
    assert(v % 256 == s[from] as nat);
    assert(v / 256 == rest);
    if k > 0 {
        lemma_le_byte_of_value(s, from + 1, (len - 1) as nat, (k - 1) as nat);
    }
}

/// A span of `len` bytes spells a number below 256 to the power `len`.
pub proof fn lemma_le_value_bound(s: Seq<u8>, from: int, len: nat)
    ensures
        le_value(s, from, len) < pow256(len),
    decreases len,
{
    if len > 0 {
        lemma_le_value_bound(s, from + 1, (len - 1) as nat);
    }
}

/// The bytes of a number below 256 to the power `len`, read back from any
/// sequence that holds them, spell that number.
pub proof fn lemma_value_of_le_bytes(s: Seq<u8>, from: int, len: nat, n: nat)
    requires
        n < pow256(len),
        forall|j: int| from <= j < from + len ==> #[trigger] s[j] as nat == le_byte(
            n,
            (j - from) as nat,
        ),
    ensures
        le_value(s, from, len) == n,
    decreases len,
{
    if len > 0 {
        assert(s[from] as nat == le_byte(n, 0));
        assert forall|j: int| from + 1 <= j < from + 1 + (len - 1) implies #[trigger] s[j] as nat
            == le_byte(n / 256, (j - (from + 1)) as nat) by {
            assert(s[j] as nat == le_byte(n, (j - from) as nat));
        }
        lemma_value_of_le_bytes(s, from + 1, (len - 1) as nat, n / 256);
    }
}

/// The modulus lies below 256 to the power 32, so every coefficient fits its
/// 32 bytes.
pub proof fn lemma_modulus_fits()
    ensures
        modulus() < pow256(32),
{
    lemma_modulus_bytes();
    lemma_le_value_bound(modulus_bytes(), 0, 32);
}

/// Encoding the coefficients that canonical bytes hold gives those bytes back.
pub proof fn lemma_encode_of_coefficients(s: Seq<u8>)
    requires
        s.len() == 384,
    ensures
        encode_spec(coefficients(s)) == s,
{
    let e = encode_spec(coefficients(s));
    assert forall|p: int| 0 <= p < 384 implies e[p] == s[p] by {
        let i = p / 32;
        let k = p % 32;
        lemma_le_byte_of_value(s, 32 * i, 32, k as nat);
        assert(coefficients(s)[i] == le_value(s, 32 * i, 32));
    }
    assert(e =~= s);
}

/// The encoding of valid coefficients is canonical and holds exactly them.
pub proof fn lemma_coefficients_of_encode(c: Seq<nat>)
    requires
        valid_coefficients(c),
    ensures
        canonical(encode_spec(c)),
        coefficients(encode_spec(c)) == c,
{
    let s = encode_spec(c);
    lemma_modulus_fits();
    assert forall|i: int| 0 <= i < 12 implies #[trigger] coefficient(s, i) == c[i] by {
        assert(c[i] < modulus());
        assert forall|j: int| 32 * i <= j < 32 * i + 32 implies #[trigger] s[j] as nat == le_byte(
            c[i],
            (j - 32 * i) as nat,
        ) by {
            assert(j / 32 == i);
            assert(j % 32 == j - 32 * i);
            lemma_le_byte_below_256(c[i], (j % 32) as nat);
        }
        lemma_value_of_le_bytes(s, 32 * i, 32, c[i]);
    }
    assert(coefficients(s) =~= c);
}

/// Every byte of a little-endian spelling is a byte.
pub proof fn lemma_le_byte_below_256(n: nat, k: nat)
    ensures
        le_byte(n, k) < 256,
    decreases k,
{
    if k > 0 {
        lemma_le_byte_below_256(n / 256, (k - 1) as nat);
    }
}

/// Canonical encodings of the same coefficients are the same bytes.
pub proof fn lemma_encoding_unique(a: Seq<u8>, b: Seq<u8>)
    requires
        a.len() == 384,
        b.len() == 384,
        coefficients(a) == coefficients(b),
    ensures
        a == b,
{
    lemma_encode_of_coefficients(a);
    lemma_encode_of_coefficients(b);
}

const MODULUS_LE: [u8; 32] = [
    0x47, 0xfd, 0x7c, 0xd8, 0x16, 0x8c, 0x20, 0x3c,
    0x8d, 0xca, 0x71, 0x68, 0x91, 0x6a, 0x81, 0x97,
    0x5d, 0x58, 0x81, 0x81, 0xb6, 0x45, 0x50, 0xb8,
    0x29, 0xa0, 0x31, 0xe1, 0x72, 0x4e, 0x64, 0x30,
];

fn modulus_byte(k: usize) -> (b: u8)
    requires
        k < 32,
    ensures
        b == modulus_bytes()[k as int],
{
    MODULUS_LE[k]
}

/// Whether coefficient `i` of a 384-byte string lies below the modulus.
fn coefficient_in_range(bytes: &[u8], i: usize) -> (below: bool)
    requires
        bytes@.len() == 384,
        i < 12,
    ensures
        below == (coefficient(bytes@, i as int) < modulus()),
{
    let base: usize = i * 32;
    let mut k: usize = 32;
    while k > 0
        invariant
            k <= 32,
            base == i * 32,
            i < 12,
            bytes@.len() == 384,
            forall|j: int| base + k <= j < base + 32 ==> #[trigger] bytes@[j] == modulus_bytes()[j
                - base + 0],
        decreases k,
    {
        k = k - 1;
        let b: u8 = bytes[base + k];
        let m: u8 = modulus_byte(k);
        if b < m {
            proof {
                lemma_modulus_bytes();
                lemma_le_value_lt(bytes@, base as int, modulus_bytes(), 0, 32, k as int);
            }
            return true;
        }
        if b > m {
            proof {
                lemma_modulus_bytes();
                assert forall|j: int| 0 + k < j < 0 + 32 implies #[trigger] modulus_bytes()[j]
                    == bytes@[j - 0 + base] by {
                    assert(bytes@[j + base] == modulus_bytes()[j + base - base + 0]);
                }
                lemma_le_value_lt(modulus_bytes(), 0, bytes@, base as int, 32, k as int);
            }
            return false;
        }
    }
    proof {
        lemma_modulus_bytes();
        lemma_le_value_eq(bytes@, base as int, modulus_bytes(), 0, 32);
    }
    false
}

/// Whether `bytes` is the encoding of an element.
pub fn is_canonical(bytes: &[u8]) -> (ok: bool)
    ensures
        ok == canonical(bytes@),
{
    if bytes.len() != BN254_DATA_LEN {
        return false;
    }
    let mut i: usize = 0;
    while i < 12
        invariant
            i <= 12,
            bytes@.len() == 384,
            forall|t: int| 0 <= t < i ==> #[trigger] coefficient(bytes@, t) < modulus(),
        decreases 12 - i,
    {
        if !coefficient_in_range(bytes, i) {
            return false;
        }
        i = i + 1;
    }
    true
}

/// An element of the degree-12 extension field, held as its encoding.
#[derive(Debug, PartialEq, Eq)]
pub struct Element {
    pub(crate) bytes: Vec<u8>,
}

impl Clone for Element {
    fn clone(&self) -> (e: Element)
        ensures
            e.wf(),
            e@ == self@,
    {
        proof {
            use_type_invariant(self);
        }
        Element { bytes: slice_to_vec(self.bytes.as_slice()) }
    }
}

impl View for Element {
    type V = Seq<nat>;

    /// The twelve coefficients of the element.
    closed spec fn view(&self) -> Seq<nat> {
        coefficients(self.bytes@)
    }
}

impl Element {
    /// The bytes held are the encoding of an element.
    #[verifier::type_invariant]
    pub closed spec fn wf(&self) -> bool {
        canonical(self.bytes@)
    }

    /// A well-formed element has twelve coefficients below the modulus.
    pub proof fn lemma_valid(&self)
        requires
            self.wf(),
        ensures
            valid_coefficients(self@),
    {
    }

    /// The multiplicative identity.
    pub fn one() -> (e: Element)
        ensures
            e.wf(),
            e@ == identity(),
    {
        let mut bytes: Vec<u8> = Vec::new();
        bytes.push(1u8);
        while bytes.len() < BN254_DATA_LEN
            invariant
                1 <= bytes@.len() <= 384,
                bytes@[0] == 1,
                forall|j: int| 1 <= j < bytes@.len() ==> #[trigger] bytes@[j] == 0,
            decreases 384 - bytes@.len(),
        {
            bytes.push(0u8);
        }
        proof {
            lemma_identity_bytes(bytes@);
        }
        Element { bytes }
    }

    /// Decodes an element: succeeds exactly on the canonical encodings, with
    /// the coefficients that the bytes spell.
    pub fn decode(bytes: &[u8]) -> (r: Result<Element, StepError>)
        ensures
            holds(r, decode_spec(bytes@)),
    {
        if is_canonical(bytes) {
            Ok(Element { bytes: slice_to_vec(bytes) })
        } else {
            Err(StepError::Decode)
        }
    }

    /// The encoding of the element: 384 bytes, which decode to the element
    /// again.
    pub fn encode(&self) -> (bytes: Vec<u8>)
        ensures
            bytes@ == encode_spec(self@),
            decode_spec(bytes@) == Ok::<Seq<nat>, StepError>(self@),
    {
        proof {
            use_type_invariant(self);
            lemma_encode_of_coefficients(self.bytes@);
        }
        slice_to_vec(self.bytes.as_slice())
    }

    /// Whether two elements are the same element.
    pub fn equals(&self, other: &Element) -> (same: bool)
        ensures
            same == (self@ == other@),
    {
        proof {
            use_type_invariant(self);
            use_type_invariant(other);
        }
        let mut p: usize = 0;
        while p < BN254_DATA_LEN
            invariant
                p <= 384,
                self.bytes@.len() == 384,
                other.bytes@.len() == 384,
                forall|j: int| 0 <= j < p ==> self.bytes@[j] == other.bytes@[j],
            decreases 384 - p,
        {
            if self.bytes[p] != other.bytes[p] {
                proof {
                    if self@ == other@ {
                        lemma_encoding_unique(self.bytes@, other.bytes@);
                    }
                }
                return false;
            }
            p = p + 1;
        }
        assert(self.bytes@ =~= other.bytes@);
        true
    }

    /// The product of two elements.
    pub fn mul(&self, other: &Element) -> (e: Element)
        ensures
            e.wf(),
            e@ == fq12_mul(self@, other@),
    {
        proof {
            use_type_invariant(self);
            use_type_invariant(other);
        }
        mul_elements(self, other)
    }

    /// The square of an element.
    pub fn square(&self) -> (e: Element)
        ensures
            e.wf(),
            e@ == fq12_square(self@),
    {
        proof {
            use_type_invariant(self);
        }
        square_element(self)
    }

    /// The square of an element by the formula for the cyclotomic subgroup.
    pub fn cyclotomic_square(&self) -> (e: Element)
        ensures
            e.wf(),
            e@ == fq12_cyclotomic_square(self@),
    {
        proof {
            use_type_invariant(self);
        }
        cyclotomic_square_element(self)
    }

    /// The conjugate of an element over the degree-6 subfield.
    pub fn conjugate(&self) -> (e: Element)
        ensures
            e.wf(),
            e@ == fq12_conjugate(self@),
    {
        proof {
            use_type_invariant(self);
        }
        conjugate_element(self)
    }

    /// The inverse of an element; zero has none.
    pub fn inverse(&self) -> (r: Option<Element>)
        ensures
            r is Some == fq12_inverse(self@) is Some,
            r is Some ==> r.unwrap().wf() && r.unwrap()@ == fq12_inverse(self@).unwrap(),
            r is None == (self@ == zero()),
    {
        proof {
            use_type_invariant(self);
        }
        inverse_element(self)
    }

    /// The image of an element under the Frobenius map applied `power` times.
    pub fn frobenius_map(&self, power: usize) -> (e: Element)
        ensures
            e.wf(),
            e@ == fq12_frobenius(self@, power as nat),
    {
        proof {
            use_type_invariant(self);
        }
        frobenius_element(self, power)
    }
}

/// A result over elements says what a result over coefficients says.
pub open spec fn holds(r: Result<Element, StepError>, m: Result<Seq<nat>, StepError>) -> bool {
    match r {
        Ok(e) => e.wf() && m == Ok::<Seq<nat>, StepError>(e@),
        Err(err) => m == Err::<Seq<nat>, StepError>(err),
    }
}

/// A 1 followed by 383 zero bytes encodes the identity.
proof fn lemma_identity_bytes(s: Seq<u8>)
    requires
        s.len() == 384,
        s[0] == 1,
        forall|j: int| 1 <= j < 384 ==> #[trigger] s[j] == 0,
    ensures
        canonical(s),
        coefficients(s) == identity(),
{
    assert forall|i: int| 0 <= i < 12 implies #[trigger] coefficient(s, i) == identity()[i] by {
        lemma_zero_span(s, 32 * i + 1, 31);
    }
    assert(coefficients(s) =~= identity());
}

/// A span of zero bytes spells zero.
proof fn lemma_zero_span(s: Seq<u8>, from: int, len: nat)
    requires
        forall|j: int| from <= j < from + len ==> #[trigger] s[j] == 0,
    ensures
        le_value(s, from, len) == 0,
    decreases len,
{
    if len > 0 {
        assert(s[from] == 0);
        lemma_zero_span(s, from + 1, (len - 1) as nat);
    }
}

/// Round trip: decoding the encoding of an element gives the element back.
pub proof fn lemma_decode_encode(c: Seq<nat>)
    requires
        valid_coefficients(c),
    ensures
        decode_spec(encode_spec(c)) == Ok::<Seq<nat>, StepError>(c),
{
    lemma_coefficients_of_encode(c);
}

/// Round trip: encoding what canonical bytes decode to gives the bytes back,
/// and no other bytes decode to the same element.
pub proof fn lemma_encode_decode(s: Seq<u8>)
    requires
        canonical(s),
    ensures
        valid_coefficients(coefficients(s)),
        encode_spec(coefficients(s)) == s,
{
    lemma_encode_of_coefficients(s);
}

/// The identity is an element, and its encoding is a 1 followed by zeros.
pub proof fn lemma_identity()
    ensures
        valid_coefficients(identity()),
        encode_spec(identity()).len() == 384,
        encode_spec(identity())[0] == 1,
        forall|p: int| 1 <= p < 384 ==> #[trigger] encode_spec(identity())[p] == 0,
{
    let s = Seq::new(384, |p: int| if p == 0 { 1u8 } else { 0u8 });
    lemma_identity_bytes(s);
    lemma_encode_of_coefficients(s);
}

/// The conjugate of an element is an element, conjugating twice gives the
/// element back, and the identity is its own conjugate.
pub proof fn lemma_conjugate(c: Seq<nat>)
    requires
        valid_coefficients(c),
    ensures
        valid_coefficients(fq12_conjugate(c)),
        fq12_conjugate(fq12_conjugate(c)) == c,
        fq12_conjugate(identity()) == identity(),
{
    assert forall|i: int| 0 <= i < 12 implies #[trigger] fq12_conjugate(c)[i] < modulus() by {
        assert(c[i] < modulus());
    }
    assert(fq12_conjugate(fq12_conjugate(c)) =~= c);
    assert(fq12_conjugate(identity()) =~= identity());
}

} // verus!
