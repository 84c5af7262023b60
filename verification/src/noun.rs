//! Nouns: atoms and cells, with shared ownership of sub-nouns.
use std::rc::Rc;
use vstd::prelude::*;
use crate::digits::{digits_value, digits_eq};

verus! {

/// A wrapper for referencing noun-like patterns: an atom's digits, or a
/// cell's two parts.
pub enum Shape<A, N> {
    Atom(A),
    Cell(N, N),
}

/// The mathematical value of a noun: an unbounded natural number, or an
/// ordered pair of noun values. Atom padding disappears here, so equality of
/// views is the canonical structural equality of nouns.
pub enum NounView {
    Atom(nat),
    Cell(Box<NounView>, Box<NounView>),
}

#[derive(Debug)]
enum Inner {
    Atom(Rc<Vec<u8>>),
    Cell(Rc<Noun>, Rc<Noun>),
}

/// A Nock noun, the basic unit of representation.
///
/// A noun is an atom or a cell. An atom is any natural number, stored as a
/// little-endian sequence of 8-bit digits. A cell is any ordered pair of
/// nouns. Sub-nouns are shared, never mutated.
#[derive(Debug)]
pub struct Noun {
    inner: Inner,
}

/// Shapes over borrowed noun parts.
pub type NounShape<'a> = Shape<&'a [u8], &'a Noun>;

pub closed spec fn noun_view(n: Noun) -> NounView
    decreases n,
{
    match n.inner {
        Inner::Atom(d) => NounView::Atom(digits_value(d@)),
        Inner::Cell(a, b) => NounView::Cell(Box::new(noun_view(*a)), Box::new(noun_view(*b))),
    }
}

impl View for Noun {
    type V = NounView;

    open spec fn view(&self) -> NounView {
        noun_view(*self)
    }
}

/// Relies on std's `Rc::clone`, which hands out a second owner of the same
/// noun; vstd gives it no specification.
#[verifier::external_body]
fn rc_noun_dup(p: &Rc<Noun>) -> (r: Rc<Noun>)
    ensures
        r == *p,
{
    Rc::clone(p)
}

/// Relies on std's `Rc::clone` for an atom's shared digit vector; vstd gives
/// it no specification.
#[verifier::external_body]
fn rc_digits_dup(p: &Rc<Vec<u8>>) -> (r: Rc<Vec<u8>>)
    ensures
        r == *p,
{
    Rc::clone(p)
}

impl Clone for Noun {
    /// Hand out another owner of the same noun; the value is unchanged.
    fn clone(&self) -> (r: Self)
        ensures
            r@ == self@,
    {
        match &self.inner {
            Inner::Atom(d) => Noun { inner: Inner::Atom(rc_digits_dup(d)) },
            Inner::Cell(a, b) => Noun { inner: Inner::Cell(rc_noun_dup(a), rc_noun_dup(b)) },
        }
    }
}

impl Noun {
    /// Borrow the noun's shape: its digits if an atom, its two parts if a
    /// cell.
    pub fn get<'a>(&'a self) -> (r: NounShape<'a>)
        ensures
            match r {
                Shape::Atom(d) => self@ == NounView::Atom(digits_value(d@)),
                Shape::Cell(a, b) => self@ == NounView::Cell(Box::new(a@), Box::new(b@))
                    && (decreases_to!(*self => *a)) && (decreases_to!(*self => *b)),
            },
    {
        match &self.inner {
            Inner::Atom(d) => Shape::Atom(d.as_slice()),
            Inner::Cell(a, b) => Shape::Cell(&**a, &**b),
        }
    }

    /// Build a new atom noun from a little-endian 8-bit digit sequence.
    pub fn atom(digits: &[u8]) -> (r: Noun)
        ensures
            r@ == NounView::Atom(digits_value(digits@)),
    {
        Noun { inner: Inner::Atom(Rc::new(vstd::slice::slice_to_vec(digits))) }
    }

    /// Build a new atom noun from an owned digit vector.
    pub fn atom_from_vec(digits: Vec<u8>) -> (r: Noun)
        ensures
            r@ == NounView::Atom(digits_value(digits@)),
    {
        Noun { inner: Inner::Atom(Rc::new(digits)) }
    }

    /// Build a new cell noun from two existing nouns.
    pub fn cell(a: Noun, b: Noun) -> (r: Noun)
        ensures
            r@ == NounView::Cell(Box::new(a@), Box::new(b@)),
    {
        Noun { inner: Inner::Cell(Rc::new(a), Rc::new(b)) }
    }

    /// Structural equality: atoms are equal when their values are equal,
    /// whatever padding their digit sequences carry; cells are equal when
    /// both parts are.
    pub fn equals(&self, other: &Noun) -> (r: bool)
        ensures
            r == (self@ == other@),
        decreases *self,
    {
        match (&self.inner, &other.inner) {
            (Inner::Atom(a), Inner::Atom(b)) => digits_eq(a.as_slice(), b.as_slice()),
            (Inner::Cell(a1, b1), Inner::Cell(a2, b2)) => {
                let h = (**a1).equals(&**a2);
                let t = (**b1).equals(&**b2);
                h && t
            },
            _ => false,
        }
    }

    /// Pattern-match a noun with shape `[p [q r]]`.
    ///
    /// The digit sequence shows the branch length of each leaf node in the
    /// expression being matched: 122 has the leftmost leaf one step from the
    /// root and the two leaves on the right both two steps from the root.
    pub fn get_122<'a>(&'a self) -> (r: Option<(&'a Noun, &'a Noun, &'a Noun)>)
        ensures
            match r {
                Some((p, q, s)) => self@ == NounView::Cell(
                    Box::new(p@),
                    Box::new(NounView::Cell(Box::new(q@), Box::new(s@))),
                ),
                None => forall|p: NounView, q: NounView, s: NounView|
                    self@ != NounView::Cell(
                        Box::new(p),
                        Box::new(NounView::Cell(Box::new(q), Box::new(s))),
                    ),
            },
    {
        proof {
            reveal_with_fuel(noun_view, 3);
        }
        match &self.inner {
            Inner::Cell(a, rest) => match &(**rest).inner {
                Inner::Cell(b, c) => Some((&**a, &**b, &**c)),
                _ => None,
            },
            _ => None,
        }
    }

    /// Pattern-match a noun with shape `[[p q] r]`.
    pub fn get_221<'a>(&'a self) -> (r: Option<(&'a Noun, &'a Noun, &'a Noun)>)
        ensures
            match r {
                Some((p, q, s)) => self@ == NounView::Cell(
                    Box::new(NounView::Cell(Box::new(p@), Box::new(q@))),
                    Box::new(s@),
                ),
                None => forall|p: NounView, q: NounView, s: NounView|
                    self@ != NounView::Cell(
                        Box::new(NounView::Cell(Box::new(p), Box::new(q))),
                        Box::new(s),
                    ),
            },
    {
        proof {
            reveal_with_fuel(noun_view, 3);
        }
        match &self.inner {
            Inner::Cell(rest, c) => match &(**rest).inner {
                Inner::Cell(a, b) => Some((&**a, &**b, &**c)),
                _ => None,
            },
            _ => None,
        }
    }
}

impl PartialEq for Noun {
    /// Structural, canonical equality of nouns.
    fn eq(&self, other: &Noun) -> (r: bool) {
        self.equals(other)
    }
}

impl vstd::std_specs::cmp::PartialEqSpecImpl for Noun {
    open spec fn obeys_eq_spec() -> bool {
        true
    }

    open spec fn eq_spec(&self, other: &Noun) -> bool {
        self@ == other@
    }
}

impl Eq for Noun {

}

/// Structural equality is an equivalence relation: reflexive, symmetric and
/// transitive.
pub proof fn lemma_equality_equivalence(a: &Noun, b: &Noun, c: &Noun)
    ensures
        a@ == a@,
        a@ == b@ ==> b@ == a@,
        a@ == b@ && b@ == c@ ==> a@ == c@,
{
}

/// Equality of atoms ignores digit padding: an atom built from a digit
/// sequence equals one built from the same sequence with extra zero digits.
pub proof fn lemma_atom_padding(d: Seq<u8>, n: nat)
    ensures
        NounView::Atom(digits_value(d + crate::digits::zero_digits(n))) == NounView::Atom(
            digits_value(d),
        ),
{
    crate::digits::lemma_padding(d, n);
}

} // verus!
