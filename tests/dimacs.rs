use cdcl::dimacs::DimacsError;
use cdcl::solver::Solver;
use cdcl::text::{parse_i32_at, parse_usize_at, trim_copy, word_ranges};

fn load(text: &str) -> (Solver, Result<(), DimacsError>) {
    let mut solver = Solver::new();
    let r = solver.load_dimacs(text.as_bytes());
    (solver, r)
}

#[test]
fn test_parse_valid_dimacs() {
    let dimacs_data = "\
        c This is a comment
        p cnf 3 2
        1 -3 0
        2 3 -1 0
        ";
    let (solver, r) = load(dimacs_data);
    assert!(r.is_ok());
    assert_eq!(solver.num_vars(), 3);
}

#[test]
fn test_parse_invalid_header() {
    let dimacs_data = "\
        c This is a comment
        p cnf 3
        1 -3 0
        2 3 -1 0
        ";
    let (_, r) = load(dimacs_data);
    match r {
        Err(DimacsError::UnexpectedHeader(line)) => assert_eq!(line, b"p cnf 3".to_vec()),
        other => panic!("unexpected outcome: {:?}", other),
    }
}

#[test]
fn test_parse_invalid_num_vars() {
    let dimacs_data = "\
        c This is a comment
        p cnf x 2
        1 -3 0
        2 3 -1 0
        ";
    let (_, r) = load(dimacs_data);
    assert!(matches!(r, Err(DimacsError::BadVarCount)));
}

#[test]
fn test_parse_invalid_num_clauses() {
    let dimacs_data = "\
        c This is a comment
        p cnf 3 x
        1 -3 0
        2 3 -1 0
        ";
    let (_, r) = load(dimacs_data);
    assert!(matches!(r, Err(DimacsError::BadClauseCount)));
}

#[test]
fn test_parse_mismatched_num_vars() {
    let dimacs_data = "\
        c This is a comment
        p cnf 2 2
        1 -3 0
        2 3 -1 0
        ";
    let (solver, r) = load(dimacs_data);
    assert!(matches!(r, Err(DimacsError::VarCountMismatch { found: 3, declared: 2 })));
    assert_eq!(solver.num_vars(), 3);
}

#[test]
fn test_parse_mismatched_num_clauses() {
    let dimacs_data = "\
        c This is a comment
        p cnf 3 1
        1 -3 0
        2 3 -1 0
        ";
    let (_, r) = load(dimacs_data);
    assert!(matches!(r, Err(DimacsError::ClauseCountMismatch { found: 2, declared: 1 })));
}

#[test]
fn happy_path_exact_text() {
    let (solver, r) = load("c This is a comment\np cnf 3 2\n1 -3 0\n2 3 -1 0\n");
    assert!(r.is_ok());
    assert_eq!(solver.num_vars(), 3);
    assert!(solver.ok);
    assert_eq!(solver.stats.dec_vars, 3);
}

#[test]
fn literal_that_is_no_number() {
    let (_, r) = load("p cnf 2 1\n1 x 0\n");
    assert!(matches!(r, Err(DimacsError::BadLiteral)));
}

#[test]
fn words_after_zero_are_not_read() {
    let (solver, r) = load("p cnf 2 1\n1 -2 0 junk\n");
    assert!(r.is_ok());
    assert_eq!(solver.num_vars(), 2);
}

#[test]
fn variable_beyond_range() {
    let (solver, r) = load("p cnf 1 1\n2147483647 0\n");
    assert!(matches!(r, Err(DimacsError::VarOutOfRange)));
    assert_eq!(solver.num_vars(), 0);
}

#[test]
fn stray_zero_is_an_empty_clause() {
    let (solver, r) = load("p cnf 0 1\n0\n");
    assert!(r.is_ok());
    assert!(!solver.ok);
}

#[test]
fn header_with_two_spaces_is_a_clause_line() {
    let (_, r) = load("p  cnf 1 1\n");
    assert!(matches!(r, Err(DimacsError::BadLiteral)));
}

#[test]
fn blank_lines_and_crlf_are_tolerated() {
    let (solver, r) = load("c x\r\n\r\np cnf 2 1\r\n\n  -2   1 0\r\n");
    assert!(r.is_ok());
    assert_eq!(solver.num_vars(), 2);
}

#[test]
fn no_header_means_zero_counts() {
    let (_, r) = load("");
    assert!(r.is_ok());
    let (_, r) = load("1 0\n");
    assert!(matches!(r, Err(DimacsError::VarCountMismatch { found: 1, declared: 0 })));
}

#[test]
fn text_helpers() {
    let s = b"  +12 -7 x 2147483648 -2147483648 ";
    let rs = word_ranges(s);
    assert_eq!(rs, vec![(2, 5), (6, 8), (9, 10), (11, 21), (22, 33)]);
    assert_eq!(parse_usize_at(s, 2, 5), Some(12));
    assert_eq!(parse_usize_at(s, 6, 8), None);
    assert_eq!(parse_i32_at(s, 2, 5), Some(12));
    assert_eq!(parse_i32_at(s, 6, 8), Some(-7));
    assert_eq!(parse_i32_at(s, 9, 10), None);
    assert_eq!(parse_i32_at(s, 11, 21), None);
    assert_eq!(parse_i32_at(s, 22, 33), Some(i32::MIN));
    assert_eq!(parse_i32_at(b"-", 0, 1), None);
    assert_eq!(parse_usize_at(b"99999999999999999999999", 0, 23), None);
    assert_eq!(trim_copy(b" \t p cnf 3 \r"), b"p cnf 3".to_vec());
    assert_eq!(trim_copy(b"   "), Vec::<u8>::new());
}
