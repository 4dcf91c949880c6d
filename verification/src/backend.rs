//! The field arithmetic that the library takes from `ark_ff` and `ark_bn254`.
//!
//! Nothing in this file is proved. Each function decodes the bytes of its
//! elements into `ark_bn254::Fq12` with `ark_ff::FromBytes::read`, makes one
//! call and encodes what came back with `ark_ff::ToBytes::write`; its
//! contract is an assumption about that call. `read` and `write` spell the twelve
//! coefficients in the order of the tower, each as the 32 little-endian bytes
//! of its representative below the modulus, and `read` fails on anything
//! else. The results of multiplication, squaring, inversion and the Frobenius
//! map are only named; conjugation is stated in full.

use vstd::prelude::*;
use ark_bn254::Fq12;
use ark_ff::{Field, FromBytes, ToBytes};
use crate::field::{modulus, zero, Element};

verus! {

/// The coefficients of the product of two elements.
pub uninterp spec fn fq12_mul(a: Seq<nat>, b: Seq<nat>) -> Seq<nat>;

/// The coefficients of the square of an element.
pub uninterp spec fn fq12_square(a: Seq<nat>) -> Seq<nat>;

/// The coefficients that the cyclotomic squaring formula gives for an
/// element.
pub uninterp spec fn fq12_cyclotomic_square(a: Seq<nat>) -> Seq<nat>;

/// The coefficients of the inverse of an element, where it has one: every
/// element but zero has.
pub uninterp spec fn fq12_inverse(a: Seq<nat>) -> Option<Seq<nat>>;

/// The coefficients of the image of an element under the Frobenius map
/// applied `power` times.
pub uninterp spec fn fq12_frobenius(a: Seq<nat>, power: nat) -> Seq<nat>;

/// The coefficients of the conjugate of an element over the degree-6
/// subfield: the upper six coefficients are negated in the base field.
pub open spec fn fq12_conjugate(a: Seq<nat>) -> Seq<nat> {
    Seq::new(
        12,
        |i: int|
            if i < 6 || a[i] == 0 {
                a[i]
            } else {
                (modulus() - a[i]) as nat
            },
    )
}

/// `core::ops::Mul::mul` of `ark_ff::QuadExtField`, at `Fq12`: the result is
/// an element, and its coefficients are named by [`fq12_mul`].
#[verifier::external_body]
pub(crate) fn mul_elements(a: &Element, b: &Element) -> (r: Element)
    requires
        a.wf(),
        b.wf(),
    ensures
        r.wf(),
        r@ == fq12_mul(a@, b@),
{
    let x = Fq12::read(a.bytes.as_slice()).unwrap();
    let y = Fq12::read(b.bytes.as_slice()).unwrap();
    let mut bytes = Vec::new();
    (x * y).write(&mut bytes).unwrap();
    Element { bytes }
}

/// `ark_ff::Field::square_in_place` of `ark_ff::QuadExtField`, at `Fq12`: the
/// result is an element, and its coefficients are named by [`fq12_square`].
#[verifier::external_body]
pub(crate) fn square_element(a: &Element) -> (r: Element)
    requires
        a.wf(),
    ensures
        r.wf(),
        r@ == fq12_square(a@),
{
    let mut x = Fq12::read(a.bytes.as_slice()).unwrap();
    x.square_in_place();
    let mut bytes = Vec::new();
    x.write(&mut bytes).unwrap();
    Element { bytes }
}

/// `ark_ff::Fp12::cyclotomic_square`, at `Fq12`: the result is an element,
/// and its coefficients are named by [`fq12_cyclotomic_square`].
#[verifier::external_body]
pub(crate) fn cyclotomic_square_element(a: &Element) -> (r: Element)
    requires
        a.wf(),
    ensures
        r.wf(),
        r@ == fq12_cyclotomic_square(a@),
{
    let x = Fq12::read(a.bytes.as_slice()).unwrap();
    let mut bytes = Vec::new();
    x.cyclotomic_square().write(&mut bytes).unwrap();
    Element { bytes }
}

/// `ark_ff::QuadExtField::conjugate`, at `Fq12`: the result is an element;
/// its lower six coefficients are those of the argument, and each of the
/// upper six is the negative of the argument's in the base field, which is
/// the modulus less the coefficient, and zero for zero.
#[verifier::external_body]
pub(crate) fn conjugate_element(a: &Element) -> (r: Element)
    requires
        a.wf(),
    ensures
        r.wf(),
        r@ == fq12_conjugate(a@),
{
    let mut x = Fq12::read(a.bytes.as_slice()).unwrap();
    x.conjugate();
    let mut bytes = Vec::new();
    x.write(&mut bytes).unwrap();
    Element { bytes }
}

/// `ark_ff::Field::inverse` of `ark_ff::QuadExtField`, at `Fq12`: `None` or
/// an element, as [`fq12_inverse`] names it; it is `None` for zero and for
/// zero alone.
#[verifier::external_body]
pub(crate) fn inverse_element(a: &Element) -> (r: Option<Element>)
    requires
        a.wf(),
    ensures
        r is Some == fq12_inverse(a@) is Some,
        r is Some ==> r.unwrap().wf() && r.unwrap()@ == fq12_inverse(a@).unwrap(),
        r is None == (a@ == zero()),
{
    let x = Fq12::read(a.bytes.as_slice()).unwrap();
    match x.inverse() {
        Some(y) => {
            let mut bytes = Vec::new();
            y.write(&mut bytes).unwrap();
            Some(Element { bytes })
        },
        None => None,
    }
}

/// `ark_ff::Field::frobenius_map` of `ark_ff::QuadExtField`, at `Fq12`: the
/// result is an element, and its coefficients are named by
/// [`fq12_frobenius`].
#[verifier::external_body]
pub(crate) fn frobenius_element(a: &Element, power: usize) -> (r: Element)
    requires
        a.wf(),
    ensures
        r.wf(),
        r@ == fq12_frobenius(a@, power as nat),
{
    let mut x = Fq12::read(a.bytes.as_slice()).unwrap();
    x.frobenius_map(power);
    let mut bytes = Vec::new();
    x.write(&mut bytes).unwrap();
    Element { bytes }
}

} // verus!
