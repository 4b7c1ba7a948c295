use sat::solver::Dimacs;
use sat::{Instance, Literal};

fn three_vars() -> (Instance, Literal, Literal, Literal) {
    let mut i = Instance::new();
    let x = i.fresh_var();
    let y = i.fresh_var();
    let z = i.fresh_var();
    (i, x, y, z)
}

#[test]
fn new_instance_is_empty() {
    let i = Instance::new();
    assert_eq!(i.num_vars(), 0);
    assert_eq!(i.num_clauses(), 0);
}

#[test]
fn fresh_vars_are_numbered_from_zero() {
    let (i, x, y, z) = three_vars();
    assert_eq!(x.var(), 0);
    assert_eq!(y.var(), 1);
    assert_eq!(z.var(), 2);
    assert!(!x.is_negated());
    assert!(!y.is_negated());
    assert!(!z.is_negated());
    assert_eq!(i.num_vars(), 3);
    assert_eq!(i.num_clauses(), 0);
}

#[test]
fn assert_any_keeps_literals_in_order() {
    let (mut i, x, y, z) = three_vars();
    i.assert_any(&[z, !x]);
    i.assert_any(&[]);
    i.assert_any(&[y, y, !y]);
    assert_eq!(i.num_vars(), 3);
    assert_eq!(i.num_clauses(), 3);
    assert_eq!(i.clause(0), &[z, !x][..]);
    assert_eq!(i.clause(1), &[][..]);
    assert_eq!(i.clause(2), &[y, y, !y][..]);
}

#[test]
fn assert_any_does_not_check_the_variable() {
    let (_, _, _, z) = three_vars();
    let mut small = Instance::new();
    small.assert_any(&[z]);
    assert_eq!(small.num_vars(), 0);
    assert_eq!(small.num_clauses(), 1);
    assert_eq!(small.clause(0)[0].var(), 2);
}

#[test]
fn negation_flips_the_polarity_only() {
    let (_, _, y, _) = three_vars();
    let n = !y;
    assert_eq!(n.var(), 1);
    assert!(n.is_negated());
    assert_ne!(n, y);
}

#[test]
fn negation_is_an_involution() {
    let (_, x, y, z) = three_vars();
    for l in [x, y, z, !x, !y, !z] {
        let back = !!l;
        assert_eq!(back, l);
        assert_eq!(back.var(), l.var());
        assert_eq!(back.is_negated(), l.is_negated());
    }
}

#[test]
fn get_goes_by_polarity() {
    let (_, x, y, z) = three_vars();
    let s = Dimacs::new(());
    let a = s.read_solution(b"SAT\n1 -2 3 0\n", 3).unwrap().unwrap();
    assert!(a.get(x));
    assert!(!a.get(y));
    assert!(a.get(z));
    assert!(!a.get(!x));
    assert!(a.get(!y));
    assert!(!a.get(!z));
}

#[test]
fn polarity_law_on_every_literal() {
    let (_, x, y, z) = three_vars();
    let s = Dimacs::new(());
    for answer in [&b"SAT\n"[..], &b"SAT\n-1 -2 -3 0\n"[..], &b"SAT\n1 -2 3 0\n"[..]] {
        let a = s.read_solution(answer, 3).unwrap().unwrap();
        for l in [x, y, z, !x, !y, !z] {
            let positive = if l.is_negated() { !l } else { l };
            assert_eq!(a.get(l), l.is_negated() ^ a.get(positive));
            assert_eq!(a.get(!l), !a.get(l));
        }
    }
}
