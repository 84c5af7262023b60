//! The textual noun grammar: a recursive-descent reader and a structural
//! pretty-printer.
//!
//! An atom is a run of decimal digits with `.` allowed anywhere in the run as
//! an ignorable grouping separator; a cell is `[` followed by two or more
//! nouns and `]`, right-folded. The printer writes atoms in decimal with `.`
//! every three digits from the right, and flattens right-nested cells into
//! the same list shorthand the reader accepts.
use vstd::prelude::*;
use crate::bignum::{big_from_decimal, big_from_digits, big_to_decimal};
use crate::convert::{fold_nouns, noun_list, views_of};
use crate::digits::{dec_digit_char, dec_digit_val, decimal_of, decimal_value, digits_value, is_dec_digit};
use crate::noun::{Noun, NounView, Shape};

verus! {

/// The single parse error: any grammar violation; no partial noun comes back.
#[derive(Copy, Clone, PartialEq, Eq, Debug, Structural)]
pub struct ParseError;

/// Whitespace between tokens.
pub open spec fn is_space(c: char) -> bool {
    c == ' ' || c == '\t' || c == '\n' || c == '\r'
}

/// The first position at or after `i` that does not hold whitespace.
pub open spec fn skip_ws(s: Seq<char>, i: nat) -> nat
    decreases s.len() - i,
{
    if i < s.len() && is_space(s[i as int]) {
        skip_ws(s, i + 1)
    } else {
        i
    }
}

/// The end of the digit-and-dot run starting at `i`.
pub open spec fn run_end(s: Seq<char>, i: nat) -> nat
    decreases s.len() - i,
{
    if i < s.len() && (is_dec_digit(s[i as int]) || s[i as int] == '.') {
        run_end(s, i + 1)
    } else {
        i
    }
}

/// Whether the run starting at `i` ends legally: at the end of the input, or
/// before whitespace or a bracket. Any other character is a parse error.
pub open spec fn run_ok(s: Seq<char>, i: nat) -> bool {
    run_end(s, i) >= s.len() || is_space(s[run_end(s, i) as int]) || s[run_end(s, i) as int] == '['
        || s[run_end(s, i) as int] == ']'
}

/// The digit characters of the run starting at `i`, dots dropped.
pub open spec fn run_digits(s: Seq<char>, i: nat) -> Seq<char>
    decreases s.len() - i,
{
    if i < s.len() && is_dec_digit(s[i as int]) {
        seq![s[i as int]] + run_digits(s, i + 1)
    } else if i < s.len() && s[i as int] == '.' {
        run_digits(s, i + 1)
    } else {
        Seq::empty()
    }
}

/// Parse one noun at position `i`: the noun's value and the position just
/// after it. `None` is a parse error.
pub open spec fn ps_noun(s: Seq<char>, i: nat) -> Option<(NounView, nat)>
    decreases s.len() - i, 0nat,
{
    let j0 = skip_ws(s, i);
    let j = if j0 < i {
        i
    } else {
        j0
    };
    if j >= s.len() {
        None
    } else if is_dec_digit(s[j as int]) {
        if run_ok(s, j) {
            Some((NounView::Atom(decimal_value(run_digits(s, j))), run_end(s, j)))
        } else {
            None
        }
    } else if s[j as int] == '[' {
        ps_cell(s, j + 1)
    } else {
        None
    }
}

/// Parse the inside of a cell, from just after `[`: at least two nouns, then
/// optional further nouns, then `]`. The result is the right-fold of the
/// elements and the position just after the closing bracket.
pub open spec fn ps_cell(s: Seq<char>, k: nat) -> Option<(NounView, nat)>
    decreases s.len() - k, 1nat,
{
    match ps_noun(s, k) {
        None => None,
        Some((v1, e1)) => {
            if e1 < k || e1 > s.len() {
                None
            } else {
                match ps_noun(s, e1) {
                    None => None,
                    Some((v2, e2)) => {
                        if e2 <= k || e2 > s.len() {
                            None
                        } else {
                            match ps_elems(s, e2) {
                                None => None,
                                Some((rest, end)) => Some(
                                    (fold_nouns(seq![v1, v2] + rest), end),
                                ),
                            }
                        }
                    },
                }
            }
        },
    }
}

/// Parse the trailing elements of a cell: nouns until the closing `]`. The
/// result is the run of element values and the position just after `]`.
pub open spec fn ps_elems(s: Seq<char>, t: nat) -> Option<(Seq<NounView>, nat)>
    decreases s.len() - t, 2nat,
{
    let m0 = skip_ws(s, t);
    let m = if m0 < t {
        t
    } else {
        m0
    };
    if m >= s.len() {
        None
    } else if s[m as int] == ']' {
        Some((Seq::empty(), m + 1))
    } else if is_dec_digit(s[m as int]) || s[m as int] == '[' {
        match ps_noun(s, m) {
            None => None,
            Some((v, e)) => {
                if e <= m || e > s.len() {
                    None
                } else {
                    match ps_elems(s, e) {
                        None => None,
                        Some((rest, end)) => Some((seq![v] + rest, end)),
                    }
                }
            },
        }
    } else {
        None
    }
}

/// The decimal-digit predicate, as a value for sequence filtering.
pub open spec fn dec_digit_pred() -> spec_fn(char) -> bool {
    |c: char| is_dec_digit(c)
}

/// A filter over elements that all satisfy the predicate keeps the sequence.
proof fn lemma_filter_all(s: Seq<char>, pred: spec_fn(char) -> bool)
    requires
        forall|k: int| 0 <= k < s.len() ==> pred(s[k]),
    ensures
        s.filter(pred) == s,
    decreases s.len(),
{
    reveal(Seq::filter);
    if s.len() == 0 {
        assert(s.filter(pred) =~= s);
    } else {
        lemma_filter_all(s.drop_last(), pred);
        assert(s.filter(pred) == s.drop_last().filter(pred).push(s.last()));
        assert(s.drop_last().push(s.last()) =~= s);
    }
}

/// The filter of a one-element sequence, spelled out.
proof fn lemma_filter_single(c: char, pred: spec_fn(char) -> bool)
    ensures
        seq![c].filter(pred) == if pred(c) {
            seq![c]
        } else {
            Seq::<char>::empty()
        },
{
    reveal_with_fuel(Seq::filter, 2);
    assert(seq![c].drop_last() =~= Seq::<char>::empty());
    assert(Seq::<char>::empty().filter(pred) =~= Seq::<char>::empty());
    assert(seq![c].last() == c);
}

/// Every decimal rendering reads back to its value.
pub proof fn lemma_decimal_round_trip(n: nat)
    ensures
        decimal_value(decimal_of(n)) == n,
    decreases n,
{
    if n < 10 {
        let s = decimal_of(n);
        assert(s.drop_last() =~= Seq::<char>::empty());
        assert(s.last() == dec_digit_char(n));
        assert(decimal_value(Seq::<char>::empty()) == 0);
        assert(decimal_value(s) == decimal_value(s.drop_last()) * 10 + dec_digit_val(s.last()));
        assert(dec_digit_val(dec_digit_char(n)) == n);
    } else {
        lemma_decimal_round_trip(n / 10);
        let s = decimal_of(n);
        let p = decimal_of(n / 10);
        assert(s == p.push(dec_digit_char(n % 10)));
        assert(s.drop_last() =~= p);
        assert(dec_digit_val(dec_digit_char(n % 10)) == n % 10);
        assert(decimal_value(s) == (n / 10) * 10 + n % 10);
        assert((n / 10) * 10 + n % 10 == n) by (nonlinear_arith);
    }
}

/// A decimal rendering is a non-empty run of digit characters.
proof fn lemma_decimal_of_digits(n: nat)
    ensures
        decimal_of(n).len() >= 1,
        forall|k: int| 0 <= k < decimal_of(n).len() ==> is_dec_digit(#[trigger] decimal_of(n)[k]),
    decreases n,
{
    assert(is_dec_digit(dec_digit_char(n % 10)));
    assert(is_dec_digit(dec_digit_char(n)));
    if n >= 10 {
        lemma_decimal_of_digits(n / 10);
    }
}

/// Grouping digits keeps the first digit first, makes every character a
/// digit or a dot, and drops back to the digits when the dots are filtered
/// out.
proof fn lemma_group3_digits(s: Seq<char>)
    requires
        s.len() >= 1,
        forall|k: int| 0 <= k < s.len() ==> is_dec_digit(s[k]),
    ensures
        group3(s).len() >= s.len(),
        group3(s)[0] == s[0],
        forall|k: int|
            0 <= k < group3(s).len() ==> is_dec_digit(#[trigger] group3(s)[k]) || group3(s)[k]
                == '.',
        group3(s).filter(dec_digit_pred()) == s,
    decreases s.len(),
{
    if s.len() <= 3 {
        lemma_filter_all(s, dec_digit_pred());
    } else {
        let pre = s.take(s.len() - 3);
        let tail = s.skip(s.len() - 3);
        lemma_group3_digits(pre);
        lemma_filter_all(tail, dec_digit_pred());
        lemma_filter_single('.', dec_digit_pred());
        Seq::filter_distributes_over_add(group3(pre) + seq!['.'], tail, dec_digit_pred());
        Seq::filter_distributes_over_add(group3(pre), seq!['.'], dec_digit_pred());
        assert((group3(pre) + seq!['.'] + tail).filter(dec_digit_pred()) =~= pre + tail);
        assert(pre + tail =~= s);
    }
}

/// A text of digits and dots alone is one whole atom run: the run reaches
/// the end of the text and its digits are the text's digits.
proof fn lemma_run_full(s: Seq<char>, i: nat)
    requires
        i <= s.len(),
        forall|k: int| 0 <= k < s.len() ==> is_dec_digit(s[k]) || s[k] == '.',
    ensures
        run_end(s, i) == s.len(),
        run_digits(s, i) == s.skip(i as int).filter(dec_digit_pred()),
    decreases s.len() - i,
{
    reveal(Seq::filter);
    if i < s.len() {
        lemma_run_full(s, i + 1);
        assert(s.skip(i as int) =~= seq![s[i as int]] + s.skip(i as int + 1));
        Seq::filter_distributes_over_add(seq![s[i as int]], s.skip(i as int + 1), dec_digit_pred());
        lemma_filter_single(s[i as int], dec_digit_pred());
        if !is_dec_digit(s[i as int]) {
            assert(Seq::<char>::empty() + s.skip(i as int + 1).filter(dec_digit_pred()) =~= s.skip(
                i as int + 1,
            ).filter(dec_digit_pred()));
        }
    } else {
        assert(s.skip(i as int) =~= Seq::<char>::empty());
        assert(Seq::<char>::empty().filter(dec_digit_pred()) =~= Seq::<char>::empty());
    }
}

/// Round trip, for atoms: printing an atom noun yields a text that parses
/// back, whole, to the same noun value.
pub proof fn lemma_atom_print_parse_round_trip(n: nat)
    ensures
        ps_noun(print_spec(NounView::Atom(n)), 0) == Some(
            (NounView::Atom(n), print_spec(NounView::Atom(n)).len()),
        ),
{
    let dec = decimal_of(n);
    let txt = print_spec(NounView::Atom(n));
    lemma_decimal_of_digits(n);
    lemma_group3_digits(dec);
    lemma_run_full(txt, 0);
    lemma_decimal_round_trip(n);
    assert(txt.skip(0) =~= txt);
    assert(is_dec_digit(txt[0]));
    assert(skip_ws(txt, 0) == 0);
    assert(run_ok(txt, 0));
    assert(decimal_value(run_digits(txt, 0)) == n);
}

/// Exec test for a whitespace character.
fn ws_char(c: char) -> (b: bool)
    ensures
        b == is_space(c),
{
    c == ' ' || c == '\t' || c == '\n' || c == '\r'
}

/// Exec test for a decimal digit character.
fn digit_char(c: char) -> (b: bool)
    ensures
        b == is_dec_digit(c),
{
    let u = c as u32;
    48 <= u && u <= 57
}

/// Exec whitespace skipping.
fn skip_ws_exec(cv: &Vec<char>, i: usize) -> (j: usize)
    requires
        i <= cv@.len(),
    ensures
        j as nat == skip_ws(cv@, i as nat),
        i <= j <= cv@.len(),
{
    let mut j = i;
    while j < cv.len() && ws_char(cv[j])
        invariant
            i <= j <= cv@.len(),
            skip_ws(cv@, i as nat) == skip_ws(cv@, j as nat),
        decreases cv@.len() - j,
    {
        j = j + 1;
    }
    j
}

/// Exec parse of an atom's digit run, starting on a digit.
fn parse_atom_exec(cv: &Vec<char>, i: usize) -> (r: Result<(Noun, usize), ParseError>)
    requires
        i < cv@.len(),
        is_dec_digit(cv@[i as int]),
    ensures
        match r {
            Ok((n, j)) => run_ok(cv@, i as nat) && n@ == NounView::Atom(
                decimal_value(run_digits(cv@, i as nat)),
            ) && j as nat == run_end(cv@, i as nat) && i < j <= cv@.len(),
            Err(_) => !run_ok(cv@, i as nat),
        },
{
    let mut j = i;
    let mut ds: Vec<char> = Vec::new();
    loop
        invariant
            i <= j <= cv@.len(),
            run_digits(cv@, i as nat) == ds@ + run_digits(cv@, j as nat),
            run_end(cv@, i as nat) == run_end(cv@, j as nat),
            run_ok(cv@, i as nat) == run_ok(cv@, j as nat),
            forall|k: int| 0 <= k < ds@.len() ==> is_dec_digit(ds@[k]),
            j > i ==> ds@.len() >= 1,
            i < cv@.len(),
            is_dec_digit(cv@[i as int]),
        ensures
            i <= j <= cv@.len(),
            j as nat == run_end(cv@, i as nat),
            run_ok(cv@, i as nat),
            ds@ == run_digits(cv@, i as nat),
            ds@.len() >= 1,
            forall|k: int| 0 <= k < ds@.len() ==> is_dec_digit(ds@[k]),
        decreases cv@.len() - j,
    {
        if j < cv.len() {
            let c = cv[j];
            if digit_char(c) {
                ds.push(c);
                j = j + 1;
            } else if c == '.' {
                proof {
                    assert(j > i);
                }
                j = j + 1;
            } else if ws_char(c) || c == '[' || c == ']' {
                proof {
                    assert(run_end(cv@, j as nat) == j as nat);
                    assert(run_digits(cv@, j as nat) =~= Seq::<char>::empty());
                    assert(ds@ + run_digits(cv@, j as nat) =~= ds@);
                    assert(j > i);
                }
                break ;
            } else {
                proof {
                    assert(run_end(cv@, j as nat) == j as nat);
                }
                return Err(ParseError);
            }
        } else {
            proof {
                assert(run_end(cv@, j as nat) == j as nat);
                assert(run_digits(cv@, j as nat) =~= Seq::<char>::empty());
                assert(ds@ + run_digits(cv@, j as nat) =~= ds@);
                assert(j > i);
            }
            break ;
        }
    }
    let big = big_from_decimal(&ds);
    let digits = crate::bignum::big_to_digits(&big);
    Ok((Noun::atom_from_vec(digits), j))
}

/// Exec parse of one noun at position `i`.
fn parse_noun_exec(cv: &Vec<char>, i: usize) -> (r: Result<(Noun, usize), ParseError>)
    requires
        i <= cv@.len(),
    ensures
        match r {
            Ok((n, j)) => ps_noun(cv@, i as nat) == Some((n@, j as nat)) && i < j <= cv@.len(),
            Err(_) => ps_noun(cv@, i as nat) is None,
        },
    decreases cv@.len() - i, 0nat,
{
    let j = skip_ws_exec(cv, i);
    if j >= cv.len() {
        return Err(ParseError);
    }
    let c = cv[j];
    if digit_char(c) {
        match parse_atom_exec(cv, j) {
            Ok((n, e)) => Ok((n, e)),
            Err(_) => Err(ParseError),
        }
    } else if c == '[' {
        match parse_cell_exec(cv, j + 1) {
            Ok((n, e)) => Ok((n, e)),
            Err(_) => Err(ParseError),
        }
    } else {
        Err(ParseError)
    }
}

/// Exec parse of a cell's inside, from just after `[`.
fn parse_cell_exec(cv: &Vec<char>, k: usize) -> (r: Result<(Noun, usize), ParseError>)
    requires
        k <= cv@.len(),
    ensures
        match r {
            Ok((n, j)) => ps_cell(cv@, k as nat) == Some((n@, j as nat)) && k < j <= cv@.len(),
            Err(_) => ps_cell(cv@, k as nat) is None,
        },
    decreases cv@.len() - k, 1nat,
{
    let (n1, e1) = match parse_noun_exec(cv, k) {
        Ok(p) => p,
        Err(_) => {
            return Err(ParseError);
        },
    };
    let (n2, e2) = match parse_noun_exec(cv, e1) {
        Ok(p) => p,
        Err(_) => {
            return Err(ParseError);
        },
    };
    let ghost v1 = n1@;
    let ghost v2 = n2@;
    let mut elts: Vec<Noun> = Vec::new();
    elts.push(n1);
    elts.push(n2);
    let mut cur = e2;
    let ghost t0 = e2 as nat;
    proof {
        assert(ps_cell(cv@, k as nat) == (match ps_elems(cv@, t0) {
            None => None::<(NounView, nat)>,
            Some((rest, end)) => Some((fold_nouns(seq![v1, v2] + rest), end)),
        }));
    }
    loop
        invariant
            k < t0 <= cur <= cv@.len(),
            elts@.len() >= 2,
            views_of(elts@)[0] == v1,
            views_of(elts@)[1] == v2,
            ps_elems(cv@, t0) == prepend_elems(views_of(elts@).skip(2), ps_elems(cv@, cur as nat)),
            ps_cell(cv@, k as nat) == (match ps_elems(cv@, t0) {
                None => None::<(NounView, nat)>,
                Some((rest, end)) => Some((fold_nouns(seq![v1, v2] + rest), end)),
            }),
        decreases cv@.len() - cur,
    {
        let m = skip_ws_exec(cv, cur);
        if m >= cv.len() {
            proof {
                assert(ps_elems(cv@, cur as nat) is None);
                assert(ps_elems(cv@, t0) is None);
            }
            return Err(ParseError);
        }
        let c = cv[m];
        if c == ']' {
            proof {
                assert(ps_elems(cv@, cur as nat) == Some(
                    (Seq::<NounView>::empty(), (m + 1) as nat),
                ));
                assert(views_of(elts@).skip(2) + Seq::<NounView>::empty() =~= views_of(
                    elts@,
                ).skip(2));
                assert(seq![v1, v2] + views_of(elts@).skip(2) =~= views_of(elts@));
            }
            let folded = noun_list(elts);
            return Ok((folded, m + 1));
        } else if digit_char(c) || c == '[' {
            let ghost prev_views = views_of(elts@);
            let (n, e) = match parse_noun_exec(cv, m) {
                Ok(p) => p,
                Err(_) => {
                    proof {
                        assert(ps_elems(cv@, cur as nat) is None);
                        assert(ps_elems(cv@, t0) is None);
                    }
                    return Err(ParseError);
                },
            };
            elts.push(n);
            proof {
                assert(views_of(elts@) =~= prev_views.push(n@));
                assert(views_of(elts@).skip(2) =~= prev_views.skip(2).push(n@));
                assert(ps_elems(cv@, cur as nat) == prepend_elems(
                    seq![n@],
                    ps_elems(cv@, e as nat),
                ));
                assert(forall|o: Option<(Seq<NounView>, nat)>|
                    prepend_elems(prev_views.skip(2), #[trigger] prepend_elems(seq![n@], o))
                        == prepend_elems(prev_views.skip(2).push(n@), o)) by {
                    assert(forall|vs: Seq<NounView>|
                        prev_views.skip(2) + (seq![n@] + vs) =~= prev_views.skip(2).push(n@) + vs);
                }
            }
            cur = e;
        } else {
            proof {
                assert(ps_elems(cv@, cur as nat) is None);
                assert(ps_elems(cv@, t0) is None);
            }
            return Err(ParseError);
        }
    }
}

/// Prefix the elements of a pending cell parse with already-parsed values.
pub open spec fn prepend_elems(pre: Seq<NounView>, o: Option<(Seq<NounView>, nat)>) -> Option<
    (Seq<NounView>, nat),
> {
    match o {
        Some((vs, e)) => Some((pre + vs, e)),
        None => None,
    }
}

/// Exec collection of a string's characters.
fn chars_vec(s: &str) -> (r: Vec<char>)
    ensures
        r@ == s@,
{
    let mut it = s.chars();
    let mut r: Vec<char> = Vec::new();
    proof {
        broadcast use vstd::string::axiom_spec_iter;
        broadcast use vstd::string::next_postcondition;

    }
    loop
        invariant
            vstd::std_specs::iter::IteratorSpec::obeys_prophetic_iter_laws(&it),
            r@ + vstd::std_specs::iter::IteratorSpec::remaining(&it) == s@,
            r@.len() <= s@.len(),
        ensures
            r@ == s@,
        decreases s@.len() - r@.len(),
    {
        proof {
            broadcast use vstd::string::next_postcondition;

        }
        match it.next() {
            Some(c) => {
                r.push(c);
            },
            None => {
                proof {
                    assert(r@ =~= s@);
                }
                break ;
            },
        }
    }
    proof {
        assert(r@ =~= s@);
    }
    r
}

/// Thousands grouping: a `.` every three digits, counting from the right.
pub open spec fn group3(s: Seq<char>) -> Seq<char>
    decreases s.len(),
{
    if s.len() <= 3 {
        s
    } else {
        group3(s.take(s.len() - 3)) + seq!['.'] + s.skip(s.len() - 3)
    }
}

/// The printed form of a noun: an atom as its grouped decimal value, a cell
/// as a bracketed, space-separated list with the right spine flattened.
pub open spec fn print_spec(v: NounView) -> Seq<char>
    decreases v,
{
    match v {
        NounView::Atom(n) => group3(decimal_of(n)),
        NounView::Cell(a, b) => seq!['['] + print_spec(*a) + seq![' '] + print_tail(*b),
    }
}

/// The printed form of the right spine of a cell: list elements separated by
/// spaces, closed by `]` after the final atom.
pub open spec fn print_tail(v: NounView) -> Seq<char>
    decreases v,
{
    match v {
        NounView::Atom(n) => group3(decimal_of(n)) + seq![']'],
        NounView::Cell(a, b) => print_spec(*a) + seq![' '] + print_tail(*b),
    }
}

/// Exec grouping of the first `k` characters of a digit run.
fn group3_exec(v: &Vec<char>, k: usize) -> (r: Vec<char>)
    requires
        k <= v@.len(),
    ensures
        r@ == group3(v@.take(k as int)),
    decreases k,
{
    if k <= 3 {
        let mut r: Vec<char> = Vec::new();
        let mut i: usize = 0;
        while i < k
            invariant
                0 <= i <= k <= v@.len(),
                r@ =~= v@.take(k as int).take(i as int),
            decreases k - i,
        {
            r.push(v[i]);
            i = i + 1;
        }
        proof {
            assert(v@.take(k as int).take(k as int) =~= v@.take(k as int));
            assert(group3(v@.take(k as int)) == v@.take(k as int));
        }
        r
    } else {
        let mut r = group3_exec(v, k - 3);
        r.push('.');
        r.push(v[k - 3]);
        r.push(v[k - 2]);
        r.push(v[k - 1]);
        proof {
            let t = v@.take(k as int);
            assert(t.take(t.len() - 3) =~= v@.take(k as int - 3));
            assert(t.skip(t.len() - 3) =~= seq![v@[k as int - 3], v@[k as int - 2], v@[k as int - 1]]);
            assert(r@ =~= group3(v@.take(k as int - 3)) + seq!['.'] + t.skip(t.len() - 3));
        }
        r
    }
}

/// Exec rendering of an atom's digits as grouped decimal text.
fn atom_chars(d: &[u8]) -> (r: Vec<char>)
    ensures
        r@ == group3(decimal_of(digits_value(d@))),
{
    let big = big_from_digits(d);
    let dec = big_to_decimal(&big);
    let dv = chars_vec(dec.as_str());
    let n = dv.len();
    let r = group3_exec(&dv, n);
    proof {
        assert(dv@.take(dv@.len() as int) =~= dv@);
    }
    r
}

/// Exec rendering of one noun.
fn print_noun_chars(n: &Noun) -> (r: Vec<char>)
    ensures
        r@ == print_spec(n@),
    decreases *n,
{
    match n.get() {
        Shape::Atom(d) => atom_chars(d),
        Shape::Cell(a, b) => {
            let mut r: Vec<char> = Vec::new();
            r.push('[');
            let mut left = print_noun_chars(a);
            r.append(&mut left);
            r.push(' ');
            let mut right = print_tail_chars(b);
            r.append(&mut right);
            proof {
                assert(r@ =~= seq!['['] + print_spec(a@) + seq![' '] + print_tail(b@));
            }
            r
        },
    }
}

/// Exec rendering of the right spine of a cell.
fn print_tail_chars(n: &Noun) -> (r: Vec<char>)
    ensures
        r@ == print_tail(n@),
    decreases *n,
{
    match n.get() {
        Shape::Atom(d) => {
            let mut r = atom_chars(d);
            r.push(']');
            proof {
                assert(r@ =~= group3(decimal_of(digits_value(d@))) + seq![']']);
            }
            r
        },
        Shape::Cell(a, b) => {
            let mut r = print_noun_chars(a);
            r.push(' ');
            let mut right = print_tail_chars(b);
            r.append(&mut right);
            proof {
                assert(r@ =~= print_spec(a@) + seq![' '] + print_tail(b@));
            }
            r
        },
    }
}

/// Relies on std's `String::push`, which appends one character; vstd gives
/// it no specification.
#[verifier::external_body]
fn string_push_char(s: &mut String, c: char)
    ensures
        final(s)@ == old(s)@.push(c),
{
    s.push(c);
}

impl Noun {
    /// Render the noun as text, per the printed form `print_spec`.
    pub fn to_text(&self) -> (r: String)
        ensures
            r@ == print_spec(self@),
    {
        let chars = print_noun_chars(self);
        let mut r = String::new();
        let mut i: usize = 0;
        while i < chars.len()
            invariant
                0 <= i <= chars@.len(),
                r@ =~= chars@.take(i as int),
            decreases chars@.len() - i,
        {
            string_push_char(&mut r, chars[i]);
            i = i + 1;
        }
        proof {
            assert(chars@.take(chars@.len() as int) =~= chars@);
        }
        r
    }

    /// Read a noun from text. The whole grammar decision is `ps_noun` at the
    /// start of the text: this succeeds exactly when that parse does, with
    /// the same noun.
    pub fn parse(s: &str) -> (r: Result<Noun, ParseError>)
        ensures
            match r {
                Ok(n) => ps_noun(s@, 0) matches Some(p) && p.0 == n@,
                Err(_) => ps_noun(s@, 0) is None,
            },
    {
        let cv = chars_vec(s);
        match parse_noun_exec(&cv, 0) {
            Ok((n, _)) => Ok(n),
            Err(_) => Err(ParseError),
        }
    }
}

} // verus!
