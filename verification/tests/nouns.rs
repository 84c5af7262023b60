use nock::{noun_list, Noun};

fn n2(a: Noun, b: Noun) -> Noun {
    Noun::cell(a, b)
}

fn n3(a: Noun, b: Noun, c: Noun) -> Noun {
    Noun::cell(a, Noun::cell(b, c))
}

fn a(v: u64) -> Noun {
    Noun::from(v)
}

#[test]
fn scratch() {
    let x = Noun::from(123u32);
    assert!(x == Noun::from(123u8));
}

#[test]
fn test_fold() {
    assert_eq!(n3(a(1), a(2), a(3)).hash(), n3(a(1), a(2), a(3)).hash());
    assert!(n2(n2(a(1), a(2)), a(3)).hash() != n3(a(1), a(2), a(3)).hash());
    assert!(n3(a(1), a(2), a(3)).hash() != n2(a(1), a(2)).hash());
}

#[test]
fn atom_padding_equality() {
    assert!(Noun::atom(&[5]) == Noun::atom(&[5, 0, 0]));
    assert!(Noun::atom(&[]) == Noun::atom(&[0, 0]));
    assert!(Noun::atom(&[5]) != Noun::atom(&[5, 1]));
    assert!(Noun::atom(&[5]) != n2(a(5), a(5)));
}

#[test]
fn equality_is_equivalence_on_samples() {
    let x = n3(a(1), a(2), a(3));
    let y = n2(a(1), n2(a(2), a(3)));
    let z = n3(a(1), a(2), a(3));
    assert!(x == x);
    assert!(x == y && y == x);
    assert!(x == y && y == z && x == z);
}

#[test]
fn hash_ignores_padding() {
    assert_eq!(Noun::atom(&[5]).hash(), Noun::atom(&[5, 0, 0]).hash());
    assert_eq!(
        n2(Noun::atom(&[7, 1]), a(0)).hash(),
        n2(Noun::atom(&[7, 1, 0]), Noun::atom(&[])).hash()
    );
}

#[test]
fn as_u32_bounds() {
    assert_eq!(Noun::from(4294967295u64).as_u32(), Some(4294967295u32));
    assert_eq!(Noun::from(4294967296u64).as_u32(), None);
    assert_eq!(n2(a(1), a(2)).as_u32(), None);
    assert_eq!(Noun::atom(&[]).as_u32(), Some(0));
}

#[test]
fn noun_list_right_folds() {
    let l = noun_list(vec![a(1), a(2), a(3)]);
    assert_eq!(l, n3(a(1), a(2), a(3)));
    let two = noun_list(vec![a(4), a(5)]);
    assert_eq!(two, n2(a(4), a(5)));
}

#[test]
fn shape_extractors() {
    let c = n3(a(1), a(2), a(3));
    let (p, q, r) = c.get_122().expect("1-2-2 shape");
    assert_eq!((p, q, r), (&a(1), &a(2), &a(3)));
    assert!(c.get_221().is_none());

    let d = n2(n2(a(1), a(2)), a(3));
    let (p, q, r) = d.get_221().expect("2-2-1 shape");
    assert_eq!((p, q, r), (&a(1), &a(2), &a(3)));
    assert!(d.get_122().is_none());

    assert!(a(7).get_122().is_none());
    assert!(a(7).get_221().is_none());
}
