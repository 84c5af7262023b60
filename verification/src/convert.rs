//! Conversions between host values and nouns, and the cell-chain builder.
use num::BigUint;
use vstd::prelude::*;
use crate::bignum::{big_to_digits, biguint_value};
use crate::digits::{atom_value_u64, digits_value, u64_to_digits};
use crate::noun::{Noun, NounView, Shape};

verus! {

/// Trait for types that can convert themselves to a noun.
pub trait ToNoun {
    /// The atom value the conversion produces.
    spec fn noun_value(&self) -> nat;

    /// Build the atom noun holding this value.
    fn to_noun(&self) -> (r: Noun)
        ensures
            r@ == NounView::Atom(self.noun_value()),
    ;
}

impl ToNoun for u8 {
    open spec fn noun_value(&self) -> nat {
        *self as nat
    }

    fn to_noun(&self) -> (r: Noun) {
        Noun::atom_from_vec(u64_to_digits(*self as u64))
    }
}

impl ToNoun for u16 {
    open spec fn noun_value(&self) -> nat {
        *self as nat
    }

    fn to_noun(&self) -> (r: Noun) {
        Noun::atom_from_vec(u64_to_digits(*self as u64))
    }
}

impl ToNoun for u32 {
    open spec fn noun_value(&self) -> nat {
        *self as nat
    }

    fn to_noun(&self) -> (r: Noun) {
        Noun::atom_from_vec(u64_to_digits(*self as u64))
    }
}

impl ToNoun for u64 {
    open spec fn noun_value(&self) -> nat {
        *self as nat
    }

    fn to_noun(&self) -> (r: Noun) {
        Noun::atom_from_vec(u64_to_digits(*self))
    }
}

impl ToNoun for usize {
    open spec fn noun_value(&self) -> nat {
        *self as nat
    }

    fn to_noun(&self) -> (r: Noun) {
        Noun::atom_from_vec(u64_to_digits(*self as u64))
    }
}

impl ToNoun for BigUint {
    open spec fn noun_value(&self) -> nat {
        biguint_value(*self)
    }

    fn to_noun(&self) -> (r: Noun) {
        Noun::atom_from_vec(big_to_digits(self))
    }
}

/// A trait for types that can be instantiated from a Nock noun.
pub trait FromNoun: Sized {
    /// Whether a noun of this view converts to the type.
    spec fn convertible(v: NounView) -> bool;

    /// The value a convertible noun converts to.
    spec fn converted(v: NounView) -> Self;

    /// Try to convert a noun to an instance of the type.
    fn from_noun(n: &Noun) -> (r: Result<Self, ()>)
        ensures
            r is Ok <==> Self::convertible(n@),
            r matches Ok(t) ==> t == Self::converted(n@),
    ;
}

impl FromNoun for u32 {
    open spec fn convertible(v: NounView) -> bool {
        match v {
            NounView::Atom(x) => x < 0x100000000,
            _ => false,
        }
    }

    open spec fn converted(v: NounView) -> u32 {
        match v {
            NounView::Atom(x) => x as u32,
            _ => 0,
        }
    }

    fn from_noun(n: &Noun) -> (r: Result<Self, ()>) {
        match n.get() {
            Shape::Atom(d) => match atom_value_u64(d) {
                Some(v) => if v <= 0xFFFFFFFF {
                    Ok(v as u32)
                } else {
                    Err(())
                },
                None => Err(()),
            },
            Shape::Cell(_, _) => Err(()),
        }
    }
}

impl FromNoun for u64 {
    open spec fn convertible(v: NounView) -> bool {
        match v {
            NounView::Atom(x) => x <= u64::MAX,
            _ => false,
        }
    }

    open spec fn converted(v: NounView) -> u64 {
        match v {
            NounView::Atom(x) => x as u64,
            _ => 0,
        }
    }

    fn from_noun(n: &Noun) -> (r: Result<Self, ()>) {
        match n.get() {
            Shape::Atom(d) => match atom_value_u64(d) {
                Some(v) => Ok(v),
                None => Err(()),
            },
            Shape::Cell(_, _) => Err(()),
        }
    }
}

impl<T: FromNoun, U: FromNoun> FromNoun for (T, U) {
    open spec fn convertible(v: NounView) -> bool {
        match v {
            NounView::Cell(a, b) => T::convertible(*a) && U::convertible(*b),
            _ => false,
        }
    }

    open spec fn converted(v: NounView) -> (T, U) {
        match v {
            NounView::Cell(a, b) => (T::converted(*a), U::converted(*b)),
            _ => vstd::pervasive::arbitrary(),
        }
    }

    fn from_noun(n: &Noun) -> (r: Result<Self, ()>) {
        match n.get() {
            Shape::Cell(a, b) => {
                let t = match T::from_noun(a) {
                    Ok(t) => t,
                    Err(_) => {
                        return Err(());
                    },
                };
                let u = match U::from_noun(b) {
                    Ok(u) => u,
                    Err(_) => {
                        return Err(());
                    },
                };
                Ok((t, u))
            },
            Shape::Atom(_) => Err(()),
        }
    }
}

impl Noun {
    /// Build a noun from a convertible value.
    pub fn from<T: ToNoun>(item: T) -> (r: Noun)
        ensures
            r@ == NounView::Atom(item.noun_value()),
    {
        item.to_noun()
    }

    /// Match the noun if it is an atom whose value fits a `u32`: the value,
    /// exactly when it is below two to the thirty-second power.
    pub fn as_u32(&self) -> (r: Option<u32>)
        ensures
            match r {
                Some(v) => self@ == NounView::Atom(v as nat),
                None => forall|x: nat| x < 0x100000000 ==> self@ != NounView::Atom(x),
            },
    {
        match self.get() {
            Shape::Atom(d) => match atom_value_u64(d) {
                Some(v) => if v <= 0xFFFFFFFF {
                    Some(v as u32)
                } else {
                    None
                },
                None => None,
            },
            Shape::Cell(_, _) => None,
        }
    }
}

/// The right-fold of a non-empty run of noun values into nested cells:
/// `[a b c]` stands for `[a [b c]]`.
pub open spec fn fold_nouns(vs: Seq<NounView>) -> NounView
    recommends
        vs.len() >= 1,
    decreases vs.len(),
{
    if vs.len() <= 1 {
        if vs.len() == 1 {
            vs[0]
        } else {
            vstd::pervasive::arbitrary()
        }
    } else {
        NounView::Cell(Box::new(vs[0]), Box::new(fold_nouns(vs.drop_first())))
    }
}

/// The views of a run of nouns.
pub open spec fn views_of(s: Seq<Noun>) -> Seq<NounView> {
    s.map_values(|n: Noun| n@)
}

/// Build one noun from two or more nouns by right-folding them into nested
/// cells, mirroring the cell literal convention `[a b c]` = `[a [b c]]`.
pub fn noun_list(elts: Vec<Noun>) -> (r: Noun)
    requires
        elts@.len() >= 1,
    ensures
        r@ == fold_nouns(views_of(elts@)),
{
    let ghost vs = views_of(elts@);
    let mut v = elts;
    let mut acc = match v.pop() {
        Some(x) => x,
        None => {
            proof {
                assert(false);
            }
            Noun::atom_from_vec(Vec::new())
        },
    };
    proof {
        assert(views_of(v@) =~= vs.take(v@.len() as int));
        assert(vs.skip(v@.len() as int) =~= seq![vs[v@.len() as int]]);
        assert(acc@ == fold_nouns(vs.skip(v@.len() as int)));
    }
    while v.len() > 0
        invariant
            v@.len() < vs.len(),
            views_of(v@) =~= vs.take(v@.len() as int),
            acc@ == fold_nouns(vs.skip(v@.len() as int)),
        decreases v@.len(),
    {
        let ghost i = v@.len() as int;
        let ghost prev = v@;
        let x = match v.pop() {
            Some(x) => x,
            None => {
                proof {
                    assert(false);
                }
                Noun::atom_from_vec(Vec::new())
            },
        };
        acc = Noun::cell(x, acc);
        proof {
            assert(x@ == views_of(prev)[i - 1]);
            assert(views_of(prev)[i - 1] == vs.take(i)[i - 1]);
            assert(x@ == vs[i - 1]);
            assert(v@ =~= prev.drop_last());
            assert(views_of(v@) =~= vs.take(v@.len() as int));
            assert(vs.skip(i - 1).len() >= 2);
            assert(vs.skip(i - 1)[0] == vs[i - 1]);
            assert(vs.skip(i - 1).drop_first() =~= vs.skip(i));
            assert(acc@ == fold_nouns(vs.skip(i - 1)));
        }
    }
    proof {
        assert(vs.skip(0) =~= vs);
    }
    acc
}

} // verus!
