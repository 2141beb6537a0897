//! Launch planning, outcome mapping, and the boundary verdict.

use mpi_test::mpi_test as expand;
use mpi_test::runner::{
    interpret_outcome, launch_args, launcher_program, plan_launch, unit_verdict, LaunchOutcome,
    MpiTestError,
};
use mpi_test::units::ExpectedOutcome;

fn args_of(list: &[&[u8]]) -> Vec<Vec<u8>> {
    list.iter().map(|a| a.to_vec()).collect()
}

#[test]
fn launcher_is_mpiexec() {
    assert_eq!(launcher_program(), b"mpiexec".to_vec());
}

#[test]
fn launch_command_selects_one_test_exactly() {
    let args = launch_args(b"/path/to/test_bin", b"suite::my_test", 4, true);
    assert_eq!(
        args,
        args_of(&[
            b"-n",
            b"4",
            b"/path/to/test_bin",
            b"suite::my_test",
            b"--nocapture",
            b"--exact",
            b"--ignored",
        ])
    );
}

#[test]
fn launch_command_without_run_ignored() {
    let args = launch_args(b"bin", b"my_test", 2, false);
    assert_eq!(args, args_of(&[b"-n", b"2", b"bin", b"my_test", b"--nocapture", b"--exact"]));
}

#[test]
fn planning_needs_the_test_binary() {
    let r = plan_launch(&None, b"my_test", 2, false);
    assert_eq!(r, Err(MpiTestError::MissingBinary));
    let r = plan_launch(&Some(b"bin".to_vec()), b"my_test", 2, false);
    assert_eq!(r, Ok(args_of(&[b"-n", b"2", b"bin", b"my_test", b"--nocapture", b"--exact"])));
}

#[test]
fn exit_zero_is_the_only_success() {
    assert_eq!(interpret_outcome(&LaunchOutcome::Exited { code: Some(0) }), Ok(()));
    assert_eq!(
        interpret_outcome(&LaunchOutcome::Exited { code: Some(1) }),
        Err(MpiTestError::FailedStatus { code: Some(1) })
    );
    assert_eq!(
        interpret_outcome(&LaunchOutcome::Exited { code: Some(-11) }),
        Err(MpiTestError::FailedStatus { code: Some(-11) })
    );
    assert_eq!(
        interpret_outcome(&LaunchOutcome::Exited { code: None }),
        Err(MpiTestError::FailedStatus { code: None })
    );
}

#[test]
fn unstartable_launcher_is_distinguishable_from_failure() {
    let absent = interpret_outcome(&LaunchOutcome::NotStarted { os_error: Some(2) });
    assert_eq!(absent, Err(MpiTestError::IoError { os_error: Some(2) }));
    let failed = interpret_outcome(&LaunchOutcome::Exited { code: Some(1) });
    assert_ne!(absent, failed);
}

#[test]
fn verdict_of_normal_unit_follows_the_run() {
    let normal = ExpectedOutcome::Normal;
    assert!(unit_verdict(&normal, &Ok(())));
    assert!(!unit_verdict(&normal, &Err(MpiTestError::FailedStatus { code: Some(1) })));
    assert!(!unit_verdict(&normal, &Err(MpiTestError::IoError { os_error: Some(2) })));
}

#[test]
fn verdict_of_expected_failure_unit_is_inverted() {
    let expected = ExpectedOutcome::ExpectedFailure { message: Some(b"assertion failed".to_vec()) };
    assert!(unit_verdict(&expected, &Err(MpiTestError::FailedStatus { code: Some(134) })));
    assert!(!unit_verdict(&expected, &Ok(())));
    let bare = ExpectedOutcome::ExpectedFailure { message: None };
    assert!(unit_verdict(&bare, &Err(MpiTestError::FailedStatus { code: None })));
}

#[test]
fn scenario_two_counts_both_pass() {
    let units = expand(b"np = [2, 4]", b"mycrate", b"my_test", &ExpectedOutcome::Normal).unwrap();
    assert_eq!(units.len(), 2);
    assert_eq!(units[0].name, b"mpi_np_2".to_vec());
    assert_eq!(units[1].name, b"mpi_np_4".to_vec());
    for u in &units {
        let args = plan_launch(&Some(b"test_bin".to_vec()), &u.test_path, u.np, true).unwrap();
        assert_eq!(args[1], u.np.to_string().into_bytes());
        let run = interpret_outcome(&LaunchOutcome::Exited { code: Some(0) });
        assert!(unit_verdict(&u.expected, &run));
    }
}

#[test]
fn scenario_failing_body_fails_both_units_unless_expected() {
    let policy = ExpectedOutcome::ExpectedFailure { message: Some(b"assertion failed".to_vec()) };
    let units = expand(b"np = [2, 4]", b"mycrate", b"failing_test", &policy).unwrap();
    assert_eq!(units.len(), 2);
    for u in &units {
        let run = interpret_outcome(&LaunchOutcome::Exited { code: Some(1) });
        assert_eq!(run, Err(MpiTestError::FailedStatus { code: Some(1) }));
        assert!(unit_verdict(&u.expected, &run), "declared failure counts as passing");
        assert!(!unit_verdict(&ExpectedOutcome::Normal, &run));
    }
}

#[test]
fn scenario_absent_launcher_fails_every_unit_with_start_error() {
    let units = expand(b"np = [2, 4]", b"mycrate", b"my_test", &ExpectedOutcome::Normal).unwrap();
    for u in &units {
        let run = interpret_outcome(&LaunchOutcome::NotStarted { os_error: Some(2) });
        assert_eq!(run, Err(MpiTestError::IoError { os_error: Some(2) }));
        assert!(!unit_verdict(&u.expected, &run));
        assert!(!matches!(run, Err(MpiTestError::FailedStatus { .. })));
    }
}
