//! The evaluator: the rewrite `*[subject formula]`.
//!
//! `nock_spec` is the mathematical step-indexed semantics: with enough fuel it
//! returns `Some(Ok(result))` or `Some(Err(()))`, and `None` when the fuel
//! runs out. One fuel unit is one rewrite of the pair (subject, formula).
//! `nock_on` runs the rewrite loop with the largest machine-representable
//! fuel, so a failure result means either a genuinely ill-formed evaluation
//! or a computation of more than `u64::MAX` rewrite steps.
use vstd::prelude::*;
use vstd::arithmetic::div_mod::lemma_mod_multiples_vanish;
use crate::digits::{
    atom_value_u64,
    digits_is_one,
    digits_is_zero,
    digits_value,
    lemma_head_tail,
    u64_to_digits,
};
use crate::noun::{Noun, NounView, Shape};

verus! {

/// The single evaluation error: the formula does not match any recognized
/// shape, an operand has the wrong shape, or axis descent runs off the tree.
#[derive(Copy, Clone, PartialEq, Eq, Debug, Structural)]
pub struct NockError;

pub type NockResult = Result<Noun, NockError>;

enum Halt {
    Fail,
    Spent,
}

/// The sub-noun of `v` at binary tree address `a`. Axis 1 is the whole noun;
/// for a larger even axis descend left, for an odd one descend right, and
/// halve the axis. Axis 0, and descent into an atom, are undefined.
pub open spec fn axis_spec(a: nat, v: NounView) -> Option<NounView>
    decreases a,
{
    if a == 0 {
        None
    } else if a == 1 {
        Some(v)
    } else {
        match v {
            NounView::Atom(_) => None,
            NounView::Cell(l, r) => axis_spec(
                a / 2,
                if a % 2 == 0 {
                    *l
                } else {
                    *r
                },
            ),
        }
    }
}

/// Step-indexed semantics of `*[s f]`. `None` means the fuel ran out before
/// the rewriting finished; `Some(Err(()))` means the evaluation fails.
pub open spec fn nock_spec(fuel: nat, s: NounView, f: NounView) -> Option<Result<NounView, ()>>
    decreases fuel, 0nat,
{
    if fuel == 0 {
        None
    } else {
        let m = (fuel - 1) as nat;
        match f {
            NounView::Atom(_) => Some(Err(())),
            NounView::Cell(op, tail) => match *op {
                NounView::Cell(_, _) => match nock_spec(m, s, *op) {
                    None => None,
                    Some(Err(e)) => Some(Err(e)),
                    Some(Ok(a)) => match nock_spec(m, s, *tail) {
                        None => None,
                        Some(Err(e)) => Some(Err(e)),
                        Some(Ok(b)) => Some(Ok(NounView::Cell(Box::new(a), Box::new(b)))),
                    },
                },
                NounView::Atom(opn) => nock_op_spec(m, opn, s, *tail),
            },
        }
    }
}

/// One opcode dispatch of the semantics, with `m` fuel for sub-evaluations.
pub open spec fn nock_op_spec(m: nat, opn: nat, s: NounView, tail: NounView) -> Option<
    Result<NounView, ()>,
>
    decreases m, 1nat,
{
    if opn == 0 {
        match tail {
            NounView::Atom(a) => match axis_spec(a, s) {
                Some(n) => Some(Ok(n)),
                None => Some(Err(())),
            },
            _ => Some(Err(())),
        }
    } else if opn == 1 {
        Some(Ok(tail))
    } else if opn == 2 {
        match tail {
            NounView::Cell(b, c) => match nock_spec(m, s, *b) {
                None => None,
                Some(Err(e)) => Some(Err(e)),
                Some(Ok(p)) => match nock_spec(m, s, *c) {
                    None => None,
                    Some(Err(e)) => Some(Err(e)),
                    Some(Ok(q)) => nock_spec(m, p, q),
                },
            },
            _ => Some(Err(())),
        }
    } else if opn == 3 {
        match nock_spec(m, s, tail) {
            None => None,
            Some(Err(e)) => Some(Err(e)),
            Some(Ok(p)) => match p {
                NounView::Cell(_, _) => Some(Ok(NounView::Atom(0))),
                NounView::Atom(_) => Some(Ok(NounView::Atom(1))),
            },
        }
    } else if opn == 4 {
        match nock_spec(m, s, tail) {
            None => None,
            Some(Err(e)) => Some(Err(e)),
            Some(Ok(p)) => match p {
                NounView::Atom(x) => Some(Ok(NounView::Atom(x + 1))),
                _ => Some(Err(())),
            },
        }
    } else if opn == 5 {
        match nock_spec(m, s, tail) {
            None => None,
            Some(Err(e)) => Some(Err(e)),
            Some(Ok(p)) => match p {
                NounView::Cell(x, y) => Some(
                    Ok(
                        if *x == *y {
                            NounView::Atom(0)
                        } else {
                            NounView::Atom(1)
                        },
                    ),
                ),
                _ => Some(Err(())),
            },
        }
    } else if opn == 6 {
        match tail {
            NounView::Cell(b, cd) => match *cd {
                NounView::Cell(c, d) => match nock_spec(m, s, *b) {
                    None => None,
                    Some(Err(e)) => Some(Err(e)),
                    Some(Ok(p)) => if p == NounView::Atom(0) {
                        nock_spec(m, s, *c)
                    } else if p == NounView::Atom(1) {
                        nock_spec(m, s, *d)
                    } else {
                        Some(Err(()))
                    },
                },
                _ => Some(Err(())),
            },
            _ => Some(Err(())),
        }
    } else if opn == 7 {
        match tail {
            NounView::Cell(b, c) => match nock_spec(m, s, *b) {
                None => None,
                Some(Err(e)) => Some(Err(e)),
                Some(Ok(p)) => nock_spec(m, p, *c),
            },
            _ => Some(Err(())),
        }
    } else if opn == 8 {
        match tail {
            NounView::Cell(b, c) => match nock_spec(m, s, *b) {
                None => None,
                Some(Err(e)) => Some(Err(e)),
                Some(Ok(p)) => nock_spec(m, NounView::Cell(Box::new(p), Box::new(s)), *c),
            },
            _ => Some(Err(())),
        }
    } else if opn == 9 {
        match tail {
            NounView::Cell(b, c) => match nock_spec(m, s, *c) {
                None => None,
                Some(Err(e)) => Some(Err(e)),
                Some(Ok(p)) => match nock_spec(
                    m,
                    p,
                    NounView::Cell(Box::new(NounView::Atom(0)), b),
                ) {
                    None => None,
                    Some(Err(e)) => Some(Err(e)),
                    Some(Ok(q)) => nock_spec(m, p, q),
                },
            },
            _ => Some(Err(())),
        }
    } else if opn == 10 {
        match tail {
            NounView::Cell(_b, c) => nock_spec(m, s, *c),
            _ => Some(Err(())),
        }
    } else {
        Some(Err(()))
    }
}

/// The halving of a little-endian digit sequence, digit by digit.
pub open spec fn half_seq(s: Seq<u8>) -> Seq<u8> {
    Seq::new(
        s.len(),
        |i: int|
            ((s[i] as nat) / 2 + if i + 1 < s.len() {
                ((s[i + 1] as nat) % 2) * 128
            } else {
                0
            }) as u8,
    )
}

/// Halving the digits halves the value.
pub proof fn lemma_half(s: Seq<u8>)
    ensures
        digits_value(half_seq(s)) == digits_value(s) / 2,
    decreases s.len(),
{
    if s.len() == 0 {
    } else if s.len() == 1 {
        assert(half_seq(s).drop_first() =~= Seq::<u8>::empty());
        assert(s.drop_first() =~= Seq::<u8>::empty());
        assert(half_seq(s).len() == 1);
        assert(digits_value(Seq::<u8>::empty()) == 0);
        assert(half_seq(s)[0] as nat == (s[0] as nat) / 2);
        assert(digits_value(half_seq(s)) == half_seq(s)[0] as nat + 256 * digits_value(
            half_seq(s).drop_first(),
        ));
        assert(digits_value(half_seq(s)) == (s[0] as nat) / 2);
        assert(digits_value(s) == s[0] as nat);
    } else {
        let t = s.drop_first();
        lemma_half(t);
        assert(half_seq(s).drop_first() =~= half_seq(t));
        let s0 = s[0] as nat;
        let s1 = s[1] as nat;
        let r2 = digits_value(t.drop_first());
        assert(digits_value(t) == s1 + 256 * r2);
        assert(digits_value(half_seq(s)) == s0 / 2 + (s1 % 2) * 128 + 256 * ((s1 + 256 * r2)
            / 2));
        assert((s1 + 256 * r2) / 2 == s1 / 2 + 128 * r2) by (nonlinear_arith);
        assert((s0 + 256 * (s1 + 256 * r2)) / 2 == s0 / 2 + 128 * (s1 + 256 * r2))
            by (nonlinear_arith);
        assert(s0 / 2 + (s1 % 2) * 128 + 256 * (s1 / 2 + 128 * r2) == s0 / 2 + 128 * s1 + 128 * (
        256 * r2)) by (nonlinear_arith);
        assert(128 * (s1 + 256 * r2) == 128 * s1 + 128 * (256 * r2)) by (nonlinear_arith);
        assert(digits_value(s) == s0 + 256 * (s1 + 256 * r2));
    }
}

/// Exec halving of a digit vector.
fn half_digits(d: &Vec<u8>) -> (r: Vec<u8>)
    ensures
        r@ == half_seq(d@),
{
    let mut r: Vec<u8> = Vec::new();
    let mut i: usize = 0;
    while i < d.len()
        invariant
            0 <= i <= d@.len(),
            r@ =~= half_seq(d@).take(i as int),
        decreases d@.len() - i,
    {
        let carry: u8 = if i + 1 < d.len() {
            (d[i + 1] % 2) * 128
        } else {
            0
        };
        r.push(d[i] / 2 + carry);
        i = i + 1;
    }
    proof {
        assert(half_seq(d@).take(d@.len() as int) =~= half_seq(d@));
    }
    r
}

/// The sub-noun of `subject` at the axis encoded by the digits `a`.
pub fn axis(a: &[u8], subject: &Noun) -> (r: NockResult)
    ensures
        match r {
            Ok(n) => axis_spec(digits_value(a@), subject@) == Some(n@),
            Err(_) => axis_spec(digits_value(a@), subject@) is None,
        },
{
    let mut cur: Vec<u8> = vstd::slice::slice_to_vec(a);
    let mut node: &Noun = subject;
    loop
        invariant
            axis_spec(digits_value(cur@), node@) == axis_spec(digits_value(a@), subject@),
        decreases digits_value(cur@),
    {
        if digits_is_zero(cur.as_slice()) {
            return Err(NockError);
        }
        if digits_is_one(cur.as_slice()) {
            return Ok(node.clone());
        }
        let stepped: &Noun = node;
        match stepped.get() {
            Shape::Atom(_) => {
                return Err(NockError);
            },
            Shape::Cell(l, rgt) => {
                proof {
                    if cur@.len() == 0 {
                        assert(digits_value(cur@) == 0);
                    }
                }
                let odd: bool = cur[0] % 2 == 1;
                proof {
                    let v = digits_value(cur@);
                    lemma_head_tail(cur@);
                    lemma_mod_multiples_vanish(
                        128 * digits_value(cur@.drop_first()) as int,
                        cur@[0] as int,
                        2,
                    );
                    assert(256 * digits_value(cur@.drop_first()) == 2 * (128 * digits_value(
                        cur@.drop_first(),
                    )));
                    assert(v % 2 == cur@[0] % 2);
                    lemma_half(cur@);
                }
                node = if odd {
                    rgt
                } else {
                    l
                };
                cur = half_digits(&cur);
            },
        }
    }
}

/// One run of the rewrite loop, with explicit fuel. The result matches
/// `nock_spec` at exactly the given fuel.
#[verifier::rlimit(100)]
fn nock_with_fuel(subject: Noun, formula: Noun, fuel: u64) -> (r: Result<Noun, Halt>)
    ensures
        match r {
            Ok(n) => nock_spec(fuel as nat, subject@, formula@) == Some(Ok::<NounView, ()>(n@)),
            Err(Halt::Fail) => nock_spec(fuel as nat, subject@, formula@) == Some(
                Err::<NounView, ()>(()),
            ),
            Err(Halt::Spent) => nock_spec(fuel as nat, subject@, formula@) is None,
        },
    decreases fuel,
{
    let mut cs = subject;
    let mut cfm = formula;
    let mut cf = fuel;
    loop
        invariant
            cf <= fuel,
            nock_spec(cf as nat, cs@, cfm@) == nock_spec(fuel as nat, subject@, formula@),
        decreases cf,
    {
        if cf == 0 {
            return Err(Halt::Spent);
        }
        let ghost m = (cf - 1) as nat;
        let (opn, tailn): (Noun, Noun) = {
            let fref: &Noun = &cfm;
            match fref.get() {
                Shape::Cell(a, b) => (a.clone(), b.clone()),
                Shape::Atom(_) => {
                    return Err(Halt::Fail);
                },
            }
        };
        proof {
            assert(cfm@ == NounView::Cell(Box::new(opn@), Box::new(tailn@)));
        }
        let opref: &Noun = &opn;
        match opref.get() {
            Shape::Cell(_, _) => {
                // Autocons: the formula's head is itself a formula.
                let a = match nock_with_fuel(cs.clone(), opn.clone(), cf - 1) {
                    Ok(x) => x,
                    Err(h) => {
                        return Err(h);
                    },
                };
                let b = match nock_with_fuel(cs.clone(), tailn, cf - 1) {
                    Ok(x) => x,
                    Err(h) => {
                        return Err(h);
                    },
                };
                proof {
                    assert(nock_spec(cf as nat, cs@, cfm@) == Some(
                        Ok::<NounView, ()>(NounView::Cell(Box::new(a@), Box::new(b@))),
                    ));
                }
                return Ok(Noun::cell(a, b));
            },
            Shape::Atom(opd) => {
                let opv = match atom_value_u64(opd) {
                    Some(v) => v,
                    None => {
                        // An opcode beyond any machine word is not an opcode.
                        return Err(Halt::Fail);
                    },
                };
                proof {
                    assert(nock_spec(cf as nat, cs@, cfm@) == nock_op_spec(
                        (cf - 1) as nat,
                        digits_value(opd@),
                        cs@,
                        tailn@,
                    ));
                }
                if opv == 0 {
                    // Axis
                    match tailn.get() {
                        Shape::Atom(ad) => {
                            return match axis(ad, &cs) {
                                Ok(n) => Ok(n),
                                Err(_) => Err(Halt::Fail),
                            };
                        },
                        Shape::Cell(_, _) => {
                            return Err(Halt::Fail);
                        },
                    }
                } else if opv == 1 {
                    // Just
                    return Ok(tailn);
                } else if opv == 2 {
                    // Fire
                    let (bn, cn): (Noun, Noun) = match tailn.get() {
                        Shape::Cell(b, c) => (b.clone(), c.clone()),
                        Shape::Atom(_) => {
                            return Err(Halt::Fail);
                        },
                    };
                    let p = match nock_with_fuel(cs.clone(), bn, cf - 1) {
                        Ok(x) => x,
                        Err(h) => {
                            return Err(h);
                        },
                    };
                    let q = match nock_with_fuel(cs.clone(), cn, cf - 1) {
                        Ok(x) => x,
                        Err(h) => {
                            return Err(h);
                        },
                    };
                    cs = p;
                    cfm = q;
                    cf = cf - 1;
                } else if opv == 3 {
                    // Depth
                    let p = match nock_with_fuel(cs.clone(), tailn, cf - 1) {
                        Ok(x) => x,
                        Err(h) => {
                            return Err(h);
                        },
                    };
                    let bit: u64 = match p.get() {
                        Shape::Cell(_, _) => 0,
                        Shape::Atom(_) => 1,
                    };
                    return Ok(Noun::atom_from_vec(u64_to_digits(bit)));
                } else if opv == 4 {
                    // Bump
                    let p = match nock_with_fuel(cs.clone(), tailn, cf - 1) {
                        Ok(x) => x,
                        Err(h) => {
                            return Err(h);
                        },
                    };
                    match p.get() {
                        Shape::Atom(pd) => {
                            let big = crate::bignum::big_from_digits(pd);
                            let next = crate::bignum::big_succ(&big);
                            let nd = crate::bignum::big_to_digits(&next);
                            return Ok(Noun::atom_from_vec(nd));
                        },
                        Shape::Cell(_, _) => {
                            return Err(Halt::Fail);
                        },
                    }
                } else if opv == 5 {
                    // Same
                    let p = match nock_with_fuel(cs.clone(), tailn, cf - 1) {
                        Ok(x) => x,
                        Err(h) => {
                            return Err(h);
                        },
                    };
                    match p.get() {
                        Shape::Cell(x, y) => {
                            let bit: u64 = if x.equals(y) {
                                0
                            } else {
                                1
                            };
                            return Ok(Noun::atom_from_vec(u64_to_digits(bit)));
                        },
                        Shape::Atom(_) => {
                            return Err(Halt::Fail);
                        },
                    }
                } else if opv == 6 {
                    // If
                    let (bn, cn, dn): (Noun, Noun, Noun) = {
                        let tref: &Noun = &tailn;
                        match tref.get() {
                            Shape::Cell(b, cd) => match cd.get() {
                                Shape::Cell(c, d) => (b.clone(), c.clone(), d.clone()),
                                Shape::Atom(_) => {
                                    return Err(Halt::Fail);
                                },
                            },
                            Shape::Atom(_) => {
                                return Err(Halt::Fail);
                            },
                        }
                    };
                    let p = match nock_with_fuel(cs.clone(), bn, cf - 1) {
                        Ok(x) => x,
                        Err(h) => {
                            return Err(h);
                        },
                    };
                    match p.get() {
                        Shape::Atom(pd) => {
                            if digits_is_zero(pd) {
                                cfm = cn;
                                cf = cf - 1;
                            } else if digits_is_one(pd) {
                                cfm = dn;
                                cf = cf - 1;
                            } else {
                                return Err(Halt::Fail);
                            }
                        },
                        Shape::Cell(_, _) => {
                            return Err(Halt::Fail);
                        },
                    }
                } else if opv == 7 {
                    // Compose
                    let (bn, cn): (Noun, Noun) = match tailn.get() {
                        Shape::Cell(b, c) => (b.clone(), c.clone()),
                        Shape::Atom(_) => {
                            return Err(Halt::Fail);
                        },
                    };
                    let p = match nock_with_fuel(cs.clone(), bn, cf - 1) {
                        Ok(x) => x,
                        Err(h) => {
                            return Err(h);
                        },
                    };
                    cs = p;
                    cfm = cn;
                    cf = cf - 1;
                } else if opv == 8 {
                    // Push
                    let (bn, cn): (Noun, Noun) = match tailn.get() {
                        Shape::Cell(b, c) => (b.clone(), c.clone()),
                        Shape::Atom(_) => {
                            return Err(Halt::Fail);
                        },
                    };
                    let p = match nock_with_fuel(cs.clone(), bn, cf - 1) {
                        Ok(x) => x,
                        Err(h) => {
                            return Err(h);
                        },
                    };
                    cs = Noun::cell(p, cs);
                    cfm = cn;
                    cf = cf - 1;
                } else if opv == 9 {
                    // Call
                    let (bn, cn): (Noun, Noun) = match tailn.get() {
                        Shape::Cell(b, c) => (b.clone(), c.clone()),
                        Shape::Atom(_) => {
                            return Err(Halt::Fail);
                        },
                    };
                    let p = match nock_with_fuel(cs.clone(), cn, cf - 1) {
                        Ok(x) => x,
                        Err(h) => {
                            return Err(h);
                        },
                    };
                    let slot_formula = Noun::cell(Noun::atom_from_vec(u64_to_digits(0)), bn);
                    let q = match nock_with_fuel(p.clone(), slot_formula, cf - 1) {
                        Ok(x) => x,
                        Err(h) => {
                            return Err(h);
                        },
                    };
                    cs = p;
                    cfm = q;
                    cf = cf - 1;
                } else if opv == 10 {
                    // Hint: the head of the tail is discarded.
                    let cn: Noun = match tailn.get() {
                        Shape::Cell(_b, c) => c.clone(),
                        Shape::Atom(_) => {
                            return Err(Halt::Fail);
                        },
                    };
                    cfm = cn;
                    cf = cf - 1;
                } else {
                    return Err(Halt::Fail);
                }
            },
        }
    }
}

/// Evaluate the nock `*[subject formula]`.
///
/// The rewrite loop is run with `u64::MAX` fuel, one unit per rewrite of the
/// (subject, formula) pair; an evaluation that would take more steps than
/// that reports failure instead of diverging.
pub fn nock_on(subject: Noun, formula: Noun) -> (r: NockResult)
    ensures
        match r {
            Ok(n) => nock_spec(u64::MAX as nat, subject@, formula@) == Some(
                Ok::<NounView, ()>(n@),
            ),
            Err(_) => !(nock_spec(u64::MAX as nat, subject@, formula@) matches Some(Ok(_))),
        },
{
    match nock_with_fuel(subject, formula, u64::MAX) {
        Ok(n) => Ok(n),
        Err(_) => Err(NockError),
    }
}

} // verus!
