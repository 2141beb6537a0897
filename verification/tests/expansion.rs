//! Declaration parsing and unit generation.

use mpi_test::decl::{parse_np, GenError};
use mpi_test::mpi_test as expand;
use mpi_test::units::{
    expand_matrix, generate_units, resolve_test_path, unit_name, ExpectedOutcome, GeneratedUnit,
    TestIdentity,
};

#[test]
fn parses_named_array_form() {
    assert_eq!(parse_np(b"np = [2, 4]"), Ok(vec![2, 4]));
    assert_eq!(parse_np(b"np = [2, 4, 8]"), Ok(vec![2, 4, 8]));
}

#[test]
fn parses_positional_list_form() {
    assert_eq!(parse_np(b"np(2, 4)"), Ok(vec![2, 4]));
    assert_eq!(parse_np(b"np(7)"), Ok(vec![7]));
}

#[test]
fn parses_single_bare_integer() {
    assert_eq!(parse_np(b"np = 2"), Ok(vec![2]));
    assert_eq!(parse_np(b"np = [3]"), Ok(vec![3]));
}

#[test]
fn parses_loose_whitespace_and_trailing_comma() {
    assert_eq!(parse_np(b"  np\t=  [ 2 , 4 , ]  "), Ok(vec![2, 4]));
    assert_eq!(parse_np(b"np( 2,4, )"), Ok(vec![2, 4]));
}

#[test]
fn rejects_empty_count_list() {
    assert_eq!(parse_np(b"np = []"), Err(GenError::Configuration));
    assert_eq!(parse_np(b"np()"), Err(GenError::Configuration));
    assert_eq!(parse_np(b"np = [ ]"), Err(GenError::Configuration));
}

#[test]
fn rejects_non_integer_elements() {
    assert_eq!(parse_np(b"np = [2, x]"), Err(GenError::Syntax { pos: 9 }));
    assert_eq!(parse_np(b"np(foo)"), Err(GenError::Syntax { pos: 3 }));
    assert_eq!(parse_np(b"np = [-2]"), Err(GenError::Syntax { pos: 6 }));
    assert_eq!(parse_np(b"np = yes"), Err(GenError::Syntax { pos: 5 }));
}

#[test]
fn rejects_malformed_declarations() {
    assert_eq!(parse_np(b""), Err(GenError::Syntax { pos: 0 }));
    assert_eq!(parse_np(b"n = [2]"), Err(GenError::Syntax { pos: 0 }));
    assert_eq!(parse_np(b"np"), Err(GenError::Syntax { pos: 2 }));
    assert_eq!(parse_np(b"np = [2, 4] trailing"), Err(GenError::Syntax { pos: 12 }));
    assert_eq!(parse_np(b"np = [2, 4"), Err(GenError::Syntax { pos: 10 }));
    assert_eq!(parse_np(b"np = [2 4]"), Err(GenError::Syntax { pos: 8 }));
    assert_eq!(parse_np(b"np(,)"), Err(GenError::Syntax { pos: 3 }));
    assert_eq!(parse_np(b"   "), Err(GenError::Syntax { pos: 3 }));
}

#[test]
fn rejects_zero_counts() {
    assert_eq!(parse_np(b"np = [2, 0]"), Err(GenError::ZeroCount { pos: 9 }));
    assert_eq!(parse_np(b"np = 0"), Err(GenError::ZeroCount { pos: 5 }));
}

#[test]
fn rejects_counts_beyond_u32() {
    assert_eq!(parse_np(b"np = [4294967296]"), Err(GenError::Syntax { pos: 6 }));
    assert_eq!(parse_np(b"np = [4294967295]"), Ok(vec![4294967295]));
}

#[test]
fn accepts_leading_zeros() {
    assert_eq!(parse_np(b"np = [007]"), Ok(vec![7]));
}

fn identity(name: &[u8], path: &[u8]) -> TestIdentity {
    TestIdentity {
        base_name: name.to_vec(),
        test_path: path.to_vec(),
        expected: ExpectedOutcome::Normal,
    }
}

#[test]
fn generates_one_unit_per_count() {
    let id = identity(b"my_test", b"inner::my_test");
    let units = generate_units(&id, &vec![2, 4, 8]).unwrap();
    assert_eq!(units.len(), 3);
    assert_eq!(units[0].name, b"mpi_np_2".to_vec());
    assert_eq!(units[1].name, b"mpi_np_4".to_vec());
    assert_eq!(units[2].name, b"mpi_np_8".to_vec());
    assert_eq!(units[0].np, 2);
    assert_eq!(units[1].np, 4);
    assert_eq!(units[2].np, 8);
    for u in &units {
        assert_eq!(u.scope, b"my_test".to_vec());
        assert_eq!(u.test_path, b"inner::my_test".to_vec());
        assert_eq!(u.expected, ExpectedOutcome::Normal);
    }
}

#[test]
fn generation_is_deterministic() {
    let id = identity(b"my_test", b"inner::my_test");
    let first = generate_units(&id, &vec![2, 4]).unwrap();
    let again = generate_units(&id, &vec![2, 4]).unwrap();
    assert_eq!(first, again);
}

#[test]
fn generation_rejects_empty_counts() {
    let id = identity(b"my_test", b"my_test");
    assert_eq!(generate_units(&id, &vec![]), Err(GenError::Configuration));
}

#[test]
fn generation_rejects_duplicate_counts() {
    let id = identity(b"my_test", b"my_test");
    assert_eq!(generate_units(&id, &vec![2, 2]), Err(GenError::NamingCollision { np: 2 }));
    assert_eq!(generate_units(&id, &vec![2, 4, 2]), Err(GenError::NamingCollision { np: 2 }));
}

#[test]
fn unit_names_are_prefix_plus_count() {
    assert_eq!(unit_name(2), b"mpi_np_2".to_vec());
    assert_eq!(unit_name(1048576), b"mpi_np_1048576".to_vec());
}

#[test]
fn full_name_scopes_unit_under_base_test() {
    let id = identity(b"my_test", b"inner::my_test");
    let units = generate_units(&id, &vec![2]).unwrap();
    assert_eq!(units[0].full_name(), b"my_test::mpi_np_2".to_vec());
}

#[test]
fn resolves_path_by_dropping_crate_segment() {
    assert_eq!(resolve_test_path(b"mycrate::a::b", b"my_test"), b"a::b::my_test".to_vec());
    assert_eq!(resolve_test_path(b"mycrate::a", b"my_test"), b"a::my_test".to_vec());
}

#[test]
fn resolves_crate_root_path_to_bare_name() {
    assert_eq!(resolve_test_path(b"mycrate", b"my_test"), b"my_test".to_vec());
    assert_eq!(resolve_test_path(b"", b"my_test"), b"my_test".to_vec());
}

#[test]
fn expands_declaration_end_to_end() {
    let units = expand(b"np = [2, 4]", b"mycrate::suite", b"my_test", &ExpectedOutcome::Normal)
        .unwrap();
    assert_eq!(units.len(), 2);
    assert_eq!(units[0].name, b"mpi_np_2".to_vec());
    assert_eq!(units[1].name, b"mpi_np_4".to_vec());
    assert_eq!(units[0].test_path, b"suite::my_test".to_vec());
    assert_eq!(units[1].test_path, b"suite::my_test".to_vec());
    assert_eq!(units[0].full_name(), b"my_test::mpi_np_2".to_vec());
    assert_eq!(units[1].full_name(), b"my_test::mpi_np_4".to_vec());
}

#[test]
fn expands_single_integer_declaration_to_one_unit() {
    let units = expand(b"np = 2", b"mycrate", b"my_test", &ExpectedOutcome::Normal).unwrap();
    assert_eq!(units.len(), 1);
    assert_eq!(units[0].name, b"mpi_np_2".to_vec());
    assert_eq!(units[0].test_path, b"my_test".to_vec());
}

#[test]
fn expansion_fails_on_empty_declaration() {
    let r = expand(b"np = []", b"mycrate", b"my_test", &ExpectedOutcome::Normal);
    assert_eq!(r, Err(GenError::Configuration));
}

#[test]
fn expansion_propagates_expected_failure_policy() {
    let policy = ExpectedOutcome::ExpectedFailure { message: Some(b"assertion failed".to_vec()) };
    let units = expand(b"np = [2, 4]", b"mycrate", b"failing_test", &policy).unwrap();
    assert_eq!(units.len(), 2);
    for u in &units {
        assert_eq!(
            u.expected,
            ExpectedOutcome::ExpectedFailure { message: Some(b"assertion failed".to_vec()) }
        );
    }
}

#[test]
fn matrix_expansion_crosses_cases_with_counts() {
    let cases = vec![
        identity(b"case_1_of_sum", b"suite::case_1_of_sum"),
        identity(b"case_2_of_sum", b"suite::case_2_of_sum"),
        identity(b"case_3_of_sum", b"suite::case_3_of_sum"),
    ];
    let units = expand_matrix(&cases, &vec![2, 3]).unwrap();
    assert_eq!(units.len(), 6);
    let mut full_names: Vec<Vec<u8>> = units.iter().map(GeneratedUnit::full_name).collect();
    assert_eq!(full_names[0], b"case_1_of_sum::mpi_np_2".to_vec());
    assert_eq!(full_names[1], b"case_1_of_sum::mpi_np_3".to_vec());
    assert_eq!(full_names[5], b"case_3_of_sum::mpi_np_3".to_vec());
    full_names.sort();
    full_names.dedup();
    assert_eq!(full_names.len(), 6, "no unit appears twice");
}

#[test]
fn matrix_expansion_fails_as_one_case_fails() {
    let cases = vec![identity(b"case_1", b"case_1"), identity(b"case_2", b"case_2")];
    assert_eq!(expand_matrix(&cases, &vec![]), Err(GenError::Configuration));
    assert_eq!(expand_matrix(&cases, &vec![2, 2]), Err(GenError::NamingCollision { np: 2 }));
}

#[test]
fn matrix_of_no_cases_is_empty() {
    let cases: Vec<TestIdentity> = vec![];
    assert_eq!(expand_matrix(&cases, &vec![2, 4]), Ok(vec![]));
}
