//! Little-endian base-256 digit sequences and their numeric value.
//!
//! An atom is stored as a sequence of 8-bit digits, least significant first.
//! Trailing zero digits do not change the value, so equality of values is the
//! canonical equality of atoms.
use vstd::prelude::*;
use vstd::arithmetic::div_mod::{lemma_fundamental_div_mod_converse, lemma_mod_multiples_vanish};

verus! {

/// Numeric value of a little-endian sequence of base-256 digits.
pub open spec fn digits_value(s: Seq<u8>) -> nat
    decreases s.len(),
{
    if s.len() == 0 {
        0
    } else {
        s[0] as nat + 256 * digits_value(s.drop_first())
    }
}

/// Every digit of the sequence is zero.
pub open spec fn all_zero(s: Seq<u8>) -> bool {
    forall|i: int| 0 <= i < s.len() ==> s[i] == 0
}

/// A sequence of `n` zero digits.
pub open spec fn zero_digits(n: nat) -> Seq<u8> {
    Seq::new(n, |i: int| 0u8)
}

/// A digit sequence has value zero exactly when all its digits are zero.
pub proof fn lemma_zero_value(s: Seq<u8>)
    ensures
        digits_value(s) == 0 <==> all_zero(s),
    decreases s.len(),
{
    if s.len() > 0 {
        lemma_zero_value(s.drop_first());
        assert(all_zero(s) ==> s[0] == 0 && all_zero(s.drop_first())) by {
            if all_zero(s) {
                assert(forall|i: int|
                    0 <= i < s.drop_first().len() ==> s.drop_first()[i] == s[i + 1] && s[i + 1]
                        == 0);
            }
        }
        if s[0] == 0 && all_zero(s.drop_first()) {
            assert(all_zero(s)) by {
                assert(forall|i: int| 1 <= i < s.len() ==> s[i] == s.drop_first()[i - 1]);
            }
        }
    }
}

/// The base-256 decomposition of a value is unique: head digit and tail value
/// are determined by the whole value.
pub proof fn lemma_head_tail(s: Seq<u8>)
    requires
        s.len() > 0,
    ensures
        digits_value(s) % 256 == s[0] as nat,
        digits_value(s) / 256 == digits_value(s.drop_first()),
{
    lemma_fundamental_div_mod_converse(
        digits_value(s) as int,
        256,
        digits_value(s.drop_first()) as int,
        s[0] as int,
    );
}

/// Two digit sequences have the same value exactly when they agree digit by
/// digit, reading a missing position as zero.
pub open spec fn digit_at(s: Seq<u8>, i: int) -> u8 {
    if 0 <= i < s.len() {
        s[i]
    } else {
        0
    }
}

pub open spec fn same_digits(a: Seq<u8>, b: Seq<u8>) -> bool {
    forall|i: int| 0 <= i ==> digit_at(a, i) == digit_at(b, i)
}

pub proof fn lemma_value_eq(a: Seq<u8>, b: Seq<u8>)
    ensures
        digits_value(a) == digits_value(b) <==> same_digits(a, b),
    decreases a.len() + b.len(),
{
    if a.len() == 0 && b.len() == 0 {
        assert(same_digits(a, b)) by {
            assert(forall|i: int| 0 <= i ==> digit_at(a, i) == 0 && digit_at(b, i) == 0);
        }
    } else if a.len() == 0 {
        lemma_zero_value(b);
        assert(same_digits(a, b) <==> all_zero(b)) by {
            assert(forall|i: int| 0 <= i ==> digit_at(a, i) == 0);
            assert(forall|i: int| 0 <= i < b.len() ==> digit_at(b, i) == b[i]);
        }
    } else if b.len() == 0 {
        lemma_zero_value(a);
        assert(same_digits(a, b) <==> all_zero(a)) by {
            assert(forall|i: int| 0 <= i ==> digit_at(b, i) == 0);
            assert(forall|i: int| 0 <= i < a.len() ==> digit_at(a, i) == a[i]);
        }
    } else {
        lemma_head_tail(a);
        lemma_head_tail(b);
        lemma_value_eq(a.drop_first(), b.drop_first());
        assert(forall|i: int|
            1 <= i ==> digit_at(a, i) == digit_at(a.drop_first(), i - 1) && digit_at(b, i)
                == digit_at(b.drop_first(), i - 1));
        if same_digits(a, b) {
            assert(digit_at(a, 0) == digit_at(b, 0));
            assert(forall|i: int| 0 <= i ==> digit_at(a.drop_first(), i) == digit_at(a, i + 1));
            assert(forall|i: int| 0 <= i ==> digit_at(b.drop_first(), i) == digit_at(b, i + 1));
            assert(same_digits(a.drop_first(), b.drop_first()));
        }
        if a[0] == b[0] && same_digits(a.drop_first(), b.drop_first()) {
            assert(forall|i: int| 0 <= i ==> #[trigger] digit_at(a, i) == digit_at(b, i)) by {
                assert(forall|i: int|
                    1 <= i ==> digit_at(a, i) == digit_at(a.drop_first(), i - 1) && digit_at(b, i)
                        == digit_at(b.drop_first(), i - 1) && #[trigger] digit_at(
                        a.drop_first(),
                        i - 1,
                    ) == digit_at(b.drop_first(), i - 1));
            }
            assert(same_digits(a, b));
        }
    }
}

/// Appending zero digits does not change the value of an atom's digits.
pub proof fn lemma_padding(d: Seq<u8>, n: nat)
    ensures
        digits_value(d + zero_digits(n)) == digits_value(d),
{
    assert(same_digits(d + zero_digits(n), d)) by {
        assert(forall|i: int| 0 <= i < d.len() ==> (d + zero_digits(n))[i] == d[i]);
        assert(forall|i: int|
            d.len() <= i < d.len() + n ==> (d + zero_digits(n))[i] == zero_digits(n)[i - d.len()]
                && zero_digits(n)[i - d.len()] == 0);
    }
    lemma_value_eq(d + zero_digits(n), d);
}

/// The value of the tail of a sequence, one position further along.
pub proof fn lemma_skip_unfold(s: Seq<u8>, i: int)
    requires
        0 <= i < s.len(),
    ensures
        digits_value(s.skip(i)) == s[i] as nat + 256 * digits_value(s.skip(i + 1)),
{
    assert(s.skip(i).len() > 0);
    assert(s.skip(i)[0] == s[i]);
    assert(s.skip(i).drop_first() =~= s.skip(i + 1));
}

/// Exec comparison of two digit sequences by value.
pub fn digits_eq(a: &[u8], b: &[u8]) -> (r: bool)
    ensures
        r == (digits_value(a@) == digits_value(b@)),
{
    let m: usize = if a.len() > b.len() {
        a.len()
    } else {
        b.len()
    };
    let mut i: usize = 0;
    let mut ok: bool = true;
    while i < m
        invariant
            0 <= i <= m,
            m == if a@.len() > b@.len() {
                a@.len()
            } else {
                b@.len()
            },
            ok == (forall|j: int| 0 <= j < i ==> digit_at(a@, j) == digit_at(b@, j)),
        decreases m - i,
    {
        let da: u8 = if i < a.len() {
            a[i]
        } else {
            0
        };
        let db: u8 = if i < b.len() {
            b[i]
        } else {
            0
        };
        proof {
            assert(da == digit_at(a@, i as int));
            assert(db == digit_at(b@, i as int));
        }
        ok = ok && da == db;
        i = i + 1;
    }
    proof {
        lemma_value_eq(a@, b@);
        if ok {
            assert(same_digits(a@, b@)) by {
                assert(forall|j: int| 0 <= j ==> j >= m ==> digit_at(a@, j) == 0 && digit_at(b@, j) == 0);
            }
        }
    }
    ok
}

/// Exec test that the digits from position `i` on all have value zero.
pub fn digits_zero_from(d: &[u8], i: usize) -> (r: bool)
    requires
        i <= d@.len(),
    ensures
        r == (digits_value(d@.skip(i as int)) == 0),
{
    let mut j: usize = i;
    let mut ok: bool = true;
    while j < d.len()
        invariant
            i <= j <= d@.len(),
            ok == (forall|k: int| i <= k < j ==> d@[k] == 0),
        decreases d@.len() - j,
    {
        ok = ok && d[j] == 0;
        j = j + 1;
    }
    proof {
        lemma_zero_value(d@.skip(i as int));
        assert(forall|k: int|
            0 <= k < d@.skip(i as int).len() ==> d@.skip(i as int)[k] == d@[k + i]);
        if ok {
            assert(all_zero(d@.skip(i as int)));
        } else {
            assert(exists|k: int| i <= k < d@.len() && d@[k] != 0);
            let k = choose|k: int| i <= k < d@.len() && d@[k] != 0;
            assert(d@.skip(i as int)[k - i] != 0);
            assert(!all_zero(d@.skip(i as int)));
        }
    }
    ok
}

/// Exec test that a digit sequence has value zero.
pub fn digits_is_zero(d: &[u8]) -> (r: bool)
    ensures
        r == (digits_value(d@) == 0),
{
    let r = digits_zero_from(d, 0);
    proof {
        assert(d@.skip(0) =~= d@);
    }
    r
}

/// Exec test that a digit sequence has value one.
pub fn digits_is_one(d: &[u8]) -> (r: bool)
    ensures
        r == (digits_value(d@) == 1),
{
    if d.len() == 0 {
        return false;
    }
    let head_one: bool = d[0] == 1;
    let rest_zero = digits_zero_from(d, 1);
    proof {
        lemma_head_tail(d@);
        assert(d@.drop_first() =~= d@.skip(1));
        if head_one && rest_zero {
            assert(digits_value(d@) == 1);
        }
        if digits_value(d@) == 1 {
            assert(d@[0] == 1 && digits_value(d@.skip(1)) == 0);
        }
    }
    head_one && rest_zero
}

/// Exec extraction of the value of a digit suffix, when it fits in `u64`.
fn value_u64_from(d: &[u8], i: usize) -> (r: Option<u64>)
    requires
        i <= d@.len(),
    ensures
        match r {
            Some(v) => digits_value(d@.skip(i as int)) == v as nat,
            None => digits_value(d@.skip(i as int)) > u64::MAX,
        },
    decreases d@.len() - i,
{
    if i == d.len() {
        proof {
            assert(d@.skip(i as int) =~= Seq::<u8>::empty());
        }
        return Some(0);
    }
    let d0 = d[i];
    proof {
        lemma_skip_unfold(d@, i as int);
    }
    match value_u64_from(d, i + 1) {
        None => None,
        Some(rv) => {
            let limit: u64 = (u64::MAX - d0 as u64) / 256;
            if rv <= limit {
                proof {
                    assert(256 * rv as nat <= (u64::MAX - d0 as u64) as nat) by (nonlinear_arith)
                        requires
                            rv as nat <= (u64::MAX - d0 as u64) as nat / 256,
                    ;
                }
                Some(d0 as u64 + 256 * rv)
            } else {
                proof {
                    assert(d0 as nat + 256 * rv as nat > u64::MAX as nat) by (nonlinear_arith)
                        requires
                            rv as nat > (u64::MAX - d0 as u64) as nat / 256,
                            d0 < 256,
                    ;
                }
                None
            }
        },
    }
}

/// Exec extraction of an atom's value when it fits in `u64`; reports exactly
/// whether it fits.
pub fn atom_value_u64(d: &[u8]) -> (r: Option<u64>)
    ensures
        match r {
            Some(v) => digits_value(d@) == v as nat,
            None => digits_value(d@) > u64::MAX,
        },
{
    let r = value_u64_from(d, 0);
    proof {
        assert(d@.skip(0) =~= d@);
    }
    r
}

/// Exec construction of the little-endian digits of a machine integer.
pub fn u64_to_digits(v: u64) -> (r: Vec<u8>)
    ensures
        digits_value(r@) == v as nat,
    decreases v,
{
    if v == 0 {
        let r: Vec<u8> = Vec::new();
        proof {
            assert(r@ =~= Seq::<u8>::empty());
        }
        r
    } else {
        let low: u8 = (v % 256) as u8;
        let mut rest = u64_to_digits(v / 256);
        let ghost prev = rest@;
        rest.insert(0, low);
        proof {
            assert(rest@.drop_first() =~= prev);
            assert(rest@[0] == low);
            assert(low as nat + 256 * ((v / 256) as nat) == v as nat) by (nonlinear_arith)
                requires
                    low == v % 256,
            ;
        }
        rest
    }
}

/// A decimal digit character.
pub open spec fn is_dec_digit(c: char) -> bool {
    48 <= c as u32 <= 57
}

/// Numeric value of a decimal digit character.
pub open spec fn dec_digit_val(c: char) -> nat {
    (c as u32 - 48) as nat
}

/// Value of a most-significant-first run of decimal digit characters.
pub open spec fn decimal_value(ds: Seq<char>) -> nat
    decreases ds.len(),
{
    if ds.len() == 0 {
        0
    } else {
        decimal_value(ds.drop_last()) * 10 + dec_digit_val(ds.last())
    }
}

/// The decimal digit character for a value below ten.
pub open spec fn dec_digit_char(d: nat) -> char {
    if d == 0 {
        '0'
    } else if d == 1 {
        '1'
    } else if d == 2 {
        '2'
    } else if d == 3 {
        '3'
    } else if d == 4 {
        '4'
    } else if d == 5 {
        '5'
    } else if d == 6 {
        '6'
    } else if d == 7 {
        '7'
    } else if d == 8 {
        '8'
    } else {
        '9'
    }
}

/// The canonical decimal rendering of a natural number: no leading zeros,
/// and a single `0` for zero.
pub open spec fn decimal_of(n: nat) -> Seq<char>
    decreases n,
{
    if n < 10 {
        seq![dec_digit_char(n)]
    } else {
        decimal_of(n / 10).push(dec_digit_char(n % 10))
    }
}

} // verus!
