//! Generic bottom-up traversal of a noun, and structural hashing as its main
//! instance.
//!
//! The combining operation sees an atom through its value, never through its
//! digit padding, so every fold — the hash included — is canonical: equal
//! nouns fold to equal results.
use vstd::prelude::*;
use vstd::arithmetic::div_mod::lemma_fundamental_div_mod_converse;
use crate::digits::{digits_value, digits_zero_from, lemma_skip_unfold};
use crate::noun::{Noun, NounView, Shape};

verus! {

/// A combining operation for `Noun::fold`: one result from an atom's value,
/// one from a cell's two already-combined parts.
pub trait FoldOp {
    type Out;

    /// The result for an atom of the given value.
    spec fn atom_spec(&self, value: nat) -> Self::Out;

    /// The result for a cell from its parts' results.
    spec fn cell_spec(&self, a: Self::Out, b: Self::Out) -> Self::Out;

    /// Combine an atom, given its little-endian digits.
    fn on_atom(&self, digits: &[u8]) -> (r: Self::Out)
        ensures
            r == self.atom_spec(digits_value(digits@)),
    ;

    /// Combine a cell from its parts' results.
    fn on_cell(&self, a: Self::Out, b: Self::Out) -> (r: Self::Out)
        ensures
            r == self.cell_spec(a, b),
    ;
}

/// The bottom-up fold of a combining operation over a noun value.
pub open spec fn fold_spec<Op: FoldOp>(op: &Op, v: NounView) -> Op::Out
    decreases v,
{
    match v {
        NounView::Atom(n) => op.atom_spec(n),
        NounView::Cell(a, b) => op.cell_spec(fold_spec(op, *a), fold_spec(op, *b)),
    }
}

impl Noun {
    /// Run a bottom-up fold over the noun.
    pub fn fold<Op: FoldOp>(&self, op: &Op) -> (r: Op::Out)
        ensures
            r == fold_spec(op, self@),
        decreases *self,
    {
        match self.get() {
            Shape::Atom(d) => op.on_atom(d),
            Shape::Cell(a, b) => {
                let x = a.fold(op);
                let y = b.fold(op);
                op.on_cell(x, y)
            },
        }
    }

    /// Structural hash of the noun: a pure function of the noun's value, so
    /// equal nouns always hash equal, whatever their digit padding.
    pub fn hash(&self) -> (r: u64)
        ensures
            r == spec_hash(self@),
    {
        self.fold(&(HashOp {  }))
    }
}

pub const HASH_SEED: u64 = 0xcbf29ce484222325;

pub const HASH_PRIME: u64 = 0x100000001b3;

pub const HASH_CELL_SEED: u64 = 0x9e3779b97f4a7c15;

/// One hashing step: fold one byte into the running state.
pub open spec fn hash_step(h: u64, b: u8) -> u64 {
    vstd::wrapping::u64_specs::wrapping_mul(h ^ (b as u64), HASH_PRIME)
}

/// The hash of a natural number: its base-256 digits folded into the running
/// state, least significant first.
pub open spec fn hash_nat(h: u64, n: nat) -> u64
    decreases n,
{
    if n == 0 {
        h
    } else {
        hash_nat(hash_step(h, (n % 256) as u8), n / 256)
    }
}

/// The combination of the hashes of a cell's two parts.
pub open spec fn hash_cell(a: u64, b: u64) -> u64 {
    vstd::wrapping::u64_specs::wrapping_mul(
        vstd::wrapping::u64_specs::wrapping_mul(HASH_CELL_SEED ^ a, HASH_PRIME) ^ b,
        HASH_PRIME,
    )
}

/// The structural hash of a noun value.
pub open spec fn spec_hash(v: NounView) -> u64 {
    fold_spec(&(HashOp {  }), v)
}

/// The hashing instance of the fold.
pub struct HashOp {}

impl FoldOp for HashOp {
    type Out = u64;

    open spec fn atom_spec(&self, value: nat) -> u64 {
        hash_nat(HASH_SEED, value)
    }

    open spec fn cell_spec(&self, a: u64, b: u64) -> u64 {
        hash_cell(a, b)
    }

    fn on_atom(&self, digits: &[u8]) -> (r: u64) {
        let mut h: u64 = HASH_SEED;
        let mut i: usize = 0;
        proof {
            assert(digits@.skip(0) =~= digits@);
        }
        loop
            invariant
                i <= digits@.len(),
                hash_nat(HASH_SEED, digits_value(digits@)) == hash_nat(
                    h,
                    digits_value(digits@.skip(i as int)),
                ),
            ensures
                h == hash_nat(HASH_SEED, digits_value(digits@)),
            decreases digits@.len() - i,
        {
            if digits_zero_from(digits, i) {
                break ;
            }
            proof {
                if i == digits@.len() {
                    assert(digits@.skip(i as int) =~= Seq::<u8>::empty());
                }
            }
            let b = digits[i];
            proof {
                lemma_skip_unfold(digits@, i as int);
                lemma_fundamental_div_mod_converse(
                    digits_value(digits@.skip(i as int)) as int,
                    256,
                    digits_value(digits@.skip(i as int + 1)) as int,
                    digits@[i as int] as int,
                );
            }
            h = (h ^ (b as u64)).wrapping_mul(HASH_PRIME);
            i = i + 1;
        }
        h
    }

    fn on_cell(&self, a: u64, b: u64) -> (r: u64) {
        ((HASH_CELL_SEED ^ a).wrapping_mul(HASH_PRIME) ^ b).wrapping_mul(HASH_PRIME)
    }
}

/// Hash consistency: the hash is a function of the noun's value, so nouns
/// that are structurally equal always hash equal; two hashes differ only
/// when the noun values themselves differ.
pub proof fn lemma_hash_consistent(a: &Noun, b: &Noun)
    ensures
        a@ == b@ ==> spec_hash(a@) == spec_hash(b@),
{
}

} // verus!
