use nock::{FromNoun, Noun};
use num::Num;

fn parses(input: &str, output: Noun) {
    assert_eq!(Noun::parse(input).ok().expect("Parsing failed"), output);
}

fn n2(a: Noun, b: Noun) -> Noun {
    Noun::cell(a, b)
}

fn n3(a: Noun, b: Noun, c: Noun) -> Noun {
    Noun::cell(a, Noun::cell(b, c))
}

#[test]
fn test_parser() {
    assert!(Noun::parse("").is_err());
    assert!(Noun::parse("12ab").is_err());
    assert!(Noun::parse("[]").is_err());
    assert!(Noun::parse("[1]").is_err());

    parses("0", Noun::from(0u32));
    parses("1", Noun::from(1u32));
    parses("1.000.000", Noun::from(1_000_000u32));

    parses("4294967295", Noun::from(4294967295u32));
    parses("4294967296", Noun::from(4294967296u64));

    parses(
        "999.999.999.999.999.999.999.999.999.999.999.999.999.999.999.\
                999.999.999.999.999",
        Noun::from(
            num::BigUint::from_str_radix(
                "999999999999999999999999\
                                                   999999999999999999999999\
                                                   999999999999",
                10,
            )
            .unwrap(),
        ),
    );

    parses("[1 2]", n2(Noun::from(1u64), Noun::from(2u64)));
    parses("[1 2 3]", n3(Noun::from(1u64), Noun::from(2u64), Noun::from(3u64)));
    parses("[1 [2 3]]", n3(Noun::from(1u64), Noun::from(2u64), Noun::from(3u64)));
    parses(
        "[[1 2] 3]",
        n2(n2(Noun::from(1u64), Noun::from(2u64)), Noun::from(3u64)),
    );
}

#[test]
fn parser_whitespace_and_nesting() {
    parses(
        " [ 1   2\t3 ]",
        n3(Noun::from(1u64), Noun::from(2u64), Noun::from(3u64)),
    );
    parses("5.", Noun::from(5u64));
    assert!(Noun::parse("[1 2").is_err());
    assert!(Noun::parse("]").is_err());
    assert!(Noun::parse("abc").is_err());
}

#[test]
fn printer_grouping_and_lists() {
    assert_eq!(Noun::from(0u64).to_text(), "0");
    assert_eq!(Noun::from(999u64).to_text(), "999");
    assert_eq!(Noun::from(1_000_000u64).to_text(), "1.000.000");
    assert_eq!(Noun::from(1234u64).to_text(), "1.234");
    let l = n3(Noun::from(1u64), Noun::from(2u64), Noun::from(3u64));
    assert_eq!(l.to_text(), "[1 2 3]");
    let d = n2(n2(Noun::from(1u64), Noun::from(2u64)), Noun::from(3u64));
    assert_eq!(d.to_text(), "[[1 2] 3]");
    // The flattened shorthand is lossy on purpose: [1 [2 3]] is [1 2 3].
    assert_eq!(
        n2(Noun::from(1u64), n2(Noun::from(2u64), Noun::from(3u64))).to_text(),
        "[1 2 3]"
    );
}

#[test]
fn print_parse_round_trip() {
    for text in ["42", "1.000.000", "[1 2]", "[1 [2 3]]", "[[1 2] 3]", "[1 [2 [3 4]] 5]"] {
        let n = Noun::parse(text).expect("parses");
        let printed = n.to_text();
        let back = Noun::parse(&printed).expect("reparses");
        assert_eq!(back, n);
    }
    // A value beyond any machine word survives the trip through the printer.
    let big = Noun::parse("18.446.744.073.709.551.617").expect("parses");
    assert_eq!(big.to_text(), "18.446.744.073.709.551.617");
    assert_eq!(Noun::parse(&big.to_text()).expect("reparses"), big);
}

#[test]
fn from_noun_conversions() {
    let n = Noun::from(7u64);
    assert_eq!(u32::from_noun(&n), Ok(7u32));
    assert_eq!(u64::from_noun(&n), Ok(7u64));
    let pair = n2(Noun::from(1u64), Noun::from(2u64));
    assert_eq!(<(u32, u32)>::from_noun(&pair), Ok((1u32, 2u32)));
    assert_eq!(<(u32, u32)>::from_noun(&Noun::from(5u64)), Err(()));
    assert_eq!(u32::from_noun(&Noun::from(4294967296u64)), Err(()));
    assert_eq!(u32::from_noun(&pair), Err(()));
}
