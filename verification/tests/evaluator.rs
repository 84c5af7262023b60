use nock::{nock_on, Noun};

fn a(v: u64) -> Noun {
    Noun::from(v)
}

fn n2(x: Noun, y: Noun) -> Noun {
    Noun::cell(x, y)
}

fn n3(x: Noun, y: Noun, z: Noun) -> Noun {
    Noun::cell(x, Noun::cell(y, z))
}

fn run(subject: Noun, formula: Noun) -> Noun {
    nock_on(subject, formula).expect("evaluation succeeds")
}

#[test]
fn axis_whole_subject() {
    assert_eq!(run(a(42), n2(a(0), a(1))), a(42));
}

#[test]
fn axis_children() {
    assert_eq!(run(n2(a(4), a(5)), n2(a(0), a(2))), a(4));
    assert_eq!(run(n2(a(4), a(5)), n2(a(0), a(3))), a(5));
}

#[test]
fn axis_deeper() {
    // The axis is read least-significant bit first: an even axis descends
    // left, an odd one right, and the axis halves at each step.
    let subject = n2(n2(a(8), a(9)), a(5));
    assert_eq!(run(subject.clone(), n2(a(0), a(4))), a(8));
    assert_eq!(run(subject.clone(), n2(a(0), a(6))), a(9));
    assert_eq!(run(subject, n2(a(0), a(3))), a(5));
}

#[test]
fn just_ignores_subject() {
    assert_eq!(run(a(0), n2(a(1), a(42))), a(42));
    assert_eq!(run(n2(a(7), a(8)), n2(a(1), a(42))), a(42));
}

#[test]
fn bump_increments() {
    assert_eq!(run(n2(a(4), a(5)), n2(a(4), n2(a(0), a(2)))), a(5));
    // The increment carries across a digit boundary.
    assert_eq!(run(a(255), n2(a(4), n2(a(0), a(1)))), a(256));
    assert_eq!(run(a(65535), n2(a(4), n2(a(0), a(1)))), a(65536));
}

#[test]
fn same_compares_structurally() {
    assert_eq!(run(n2(a(4), a(5)), n2(a(5), n2(a(0), a(1)))), a(1));
    assert_eq!(run(n2(a(4), a(4)), n2(a(5), n2(a(0), a(1)))), a(0));
}

#[test]
fn depth_distinguishes_shapes() {
    assert_eq!(run(n2(a(4), a(5)), n2(a(3), n2(a(0), a(1)))), a(0));
    assert_eq!(run(a(9), n2(a(3), n2(a(0), a(1)))), a(1));
}

#[test]
fn if_takes_the_zero_branch() {
    // *[subject [3 [0 1]]] is 0 because the subject is a cell, so the If
    // continues with the first branch, [1 11].
    let formula = n2(
        a(6),
        n3(n2(a(3), n2(a(0), a(1))), n2(a(1), a(11)), n2(a(1), a(22))),
    );
    assert_eq!(run(n2(a(4), a(5)), formula), a(11));
}

#[test]
fn if_takes_the_one_branch() {
    let formula = n2(
        a(6),
        n3(n2(a(3), n2(a(0), a(1))), n2(a(1), a(11)), n2(a(1), a(22))),
    );
    assert_eq!(run(a(9), formula), a(22));
}

#[test]
fn fire_compose_push_hint() {
    // Fire: evaluate a new subject and a new formula, then run them.
    let fire = n2(a(2), n2(n2(a(1), a(42)), n2(a(1), n2(a(0), a(1)))));
    assert_eq!(run(a(0), fire), a(42));
    // Compose: pipe one formula's result into another.
    let compose = n2(a(7), n2(n2(a(4), n2(a(0), a(1))), n2(a(4), n2(a(0), a(1)))));
    assert_eq!(run(a(40), compose), a(42));
    // Push: the new subject is the pair of the computed value and the old subject.
    let push = n2(a(8), n2(n2(a(4), n2(a(0), a(1))), n2(a(0), a(1))));
    assert_eq!(run(a(41), push), n2(a(42), a(41)));
    // Hint: the head of the tail is discarded.
    let hint = n2(a(10), n2(a(99), n2(a(0), a(1))));
    assert_eq!(run(a(42), hint), a(42));
}

#[test]
fn call_runs_a_core_arm() {
    // [9 2 [1 core]]: build the core [formula payload], then run its axis-2
    // arm against the core itself. The arm fetches the payload at axis 3.
    let core = n2(n2(a(0), a(3)), a(42));
    let call = n2(a(9), n2(a(2), n2(a(1), core)));
    assert_eq!(run(a(0), call), a(42));
}

#[test]
fn autocons_pairs_results() {
    let formula = n2(n2(a(0), a(3)), n2(a(0), a(2)));
    assert_eq!(run(n2(a(4), a(5)), formula), n2(a(5), a(4)));
}

#[test]
fn evaluation_errors() {
    // A bare atom is not a formula.
    assert!(nock_on(a(1), a(1)).is_err());
    // An opcode outside the table fails.
    assert!(nock_on(a(1), n2(a(12), a(1))).is_err());
    // Axis 0 is undefined.
    assert!(nock_on(a(1), n2(a(0), a(0))).is_err());
    // Axis descent off the edge of an atom fails.
    assert!(nock_on(a(1), n2(a(0), a(2))).is_err());
    // Bump of a cell fails.
    assert!(nock_on(n2(a(1), a(2)), n2(a(4), n2(a(0), a(1)))).is_err());
    // Same on an atom fails.
    assert!(nock_on(a(1), n2(a(5), n2(a(0), a(1)))).is_err());
    // An If condition that is neither 0 nor 1 fails.
    let formula = n2(a(6), n3(n2(a(1), a(2)), n2(a(1), a(11)), n2(a(1), a(22))));
    assert!(nock_on(a(1), formula).is_err());
    // A padded opcode atom still dispatches by value.
    assert_eq!(
        run(a(42), n2(Noun::atom(&[0, 0, 0, 0, 0]), a(1))),
        a(42)
    );
}
