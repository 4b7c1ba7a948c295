use sat::solver::dimacs::header::read_header;
use sat::solver::Dimacs;
use sat::Instance;

fn text_of(i: &Instance) -> Vec<u8> {
    let s = Dimacs::new(());
    let mut out = Vec::new();
    s.write_instance(&mut out, i);
    out
}

fn example() -> Instance {
    let mut i = Instance::new();
    let x = i.fresh_var();
    let y = i.fresh_var();
    let z = i.fresh_var();
    i.assert_any(&[x, z]);
    i.assert_any(&[!x, !y, !z]);
    i.assert_any(&[y]);
    i
}

#[test]
fn encodes_the_three_clause_example() {
    assert_eq!(text_of(&example()), b"p cnf 3 3\n1 3 0\n-1 -2 -3 0\n2 0\n".to_vec());
}

#[test]
fn encodes_a_clause_added_later() {
    let mut i = Instance::new();
    let x = i.fresh_var();
    let y = i.fresh_var();
    let z = i.fresh_var();
    i.assert_any(&[x, z]);
    i.assert_any(&[!x, !y, !z]);
    i.assert_any(&[y]);
    i.assert_any(&[!y]);
    assert_eq!(text_of(&i), b"p cnf 3 4\n1 3 0\n-1 -2 -3 0\n2 0\n-2 0\n".to_vec());
}

#[test]
fn encodes_two_variables_both_ways() {
    let mut i = Instance::new();
    let x = i.fresh_var();
    let y = i.fresh_var();
    i.assert_any(&[x, y]);
    i.assert_any(&[!x, !y]);
    assert_eq!(text_of(&i), b"p cnf 2 2\n1 2 0\n-1 -2 0\n".to_vec());
}

#[test]
fn encodes_the_empty_instance() {
    assert_eq!(text_of(&Instance::new()), b"p cnf 0 0\n".to_vec());
}

#[test]
fn encodes_the_empty_clause() {
    let mut i = Instance::new();
    i.fresh_var();
    i.assert_any(&[]);
    assert_eq!(text_of(&i), b"p cnf 1 1\n0\n".to_vec());
}

#[test]
fn encodes_numbers_of_several_digits() {
    let mut i = Instance::new();
    let mut last = i.fresh_var();
    let mut tenth = last;
    for n in 1..120 {
        last = i.fresh_var();
        if n == 9 {
            tenth = last;
        }
    }
    for _ in 0..11 {
        i.assert_any(&[]);
    }
    i.assert_any(&[!last, tenth, !tenth]);
    let mut expected = b"p cnf 120 12\n".to_vec();
    for _ in 0..11 {
        expected.extend_from_slice(b"0\n");
    }
    expected.extend_from_slice(b"-120 10 -10 0\n");
    assert_eq!(text_of(&i), expected);
}

#[test]
fn encodes_a_literal_the_instance_never_allocated() {
    let mut big = Instance::new();
    big.fresh_var();
    let second = big.fresh_var();
    let mut small = Instance::new();
    small.assert_any(&[!second]);
    assert_eq!(text_of(&small), b"p cnf 0 1\n-2 0\n".to_vec());
}

#[test]
fn write_instance_appends_to_the_writer() {
    let s = Dimacs::new(());
    let mut out = b"c a comment\n".to_vec();
    s.write_instance(&mut out, &example());
    assert_eq!(out, b"c a comment\np cnf 3 3\n1 3 0\n-1 -2 -3 0\n2 0\n".to_vec());
}

#[test]
fn header_round_trip() {
    let i = example();
    assert_eq!(read_header(&text_of(&i)), Some((3, 3)));
    assert_eq!(read_header(&text_of(&i)), Some((i.num_vars(), i.num_clauses())));
    assert_eq!(read_header(&text_of(&Instance::new())), Some((0, 0)));
}

#[test]
fn header_round_trip_with_uneven_counts() {
    let mut i = Instance::new();
    let mut l = i.fresh_var();
    for _ in 1..1234 {
        l = i.fresh_var();
    }
    for _ in 0..57 {
        i.assert_any(&[l, !l]);
    }
    assert_eq!(read_header(&text_of(&i)), Some((1234, 57)));
}

#[test]
fn read_header_reads_exact_lines() {
    assert_eq!(read_header(b"p cnf 3 4\n"), Some((3, 4)));
    assert_eq!(read_header(b"p cnf 10 200\n1 2 0\n"), Some((10, 200)));
    assert_eq!(read_header(b"p cnf 007 0\n"), Some((7, 0)));
    assert_eq!(read_header(b"p cnf 3 4\nrest without a line feed"), Some((3, 4)));
}

#[test]
fn read_header_refuses_other_lines() {
    assert_eq!(read_header(b""), None);
    assert_eq!(read_header(b"p cnf"), None);
    assert_eq!(read_header(b"p cnf 3 4"), None);
    assert_eq!(read_header(b"p cnf 3\n"), None);
    assert_eq!(read_header(b"p cnf  3 4\n"), None);
    assert_eq!(read_header(b"p cnf 3  4\n"), None);
    assert_eq!(read_header(b"p cnf 3 4 \n"), None);
    assert_eq!(read_header(b"p cnf -3 4\n"), None);
    assert_eq!(read_header(b"p cnf 3 x\n"), None);
    assert_eq!(read_header(b"P CNF 3 4\n"), None);
    assert_eq!(read_header(b"c note\np cnf 3 4\n"), None);
    assert_eq!(read_header(b" p cnf 3 4\n"), None);
}

#[test]
fn read_header_refuses_counts_beyond_the_machine_word() {
    assert_eq!(read_header(b"p cnf 340282366920938463463374607431768211456 1\n"), None);
    assert_eq!(read_header(b"p cnf 1 340282366920938463463374607431768211456\n"), None);
    let max = format!("p cnf {} {}\n", usize::MAX, usize::MAX);
    assert_eq!(read_header(max.as_bytes()), Some((usize::MAX, usize::MAX)));
}
