//! Distributed run orchestration: the launch command for one generated
//! unit, and the mapping from the external launcher's outcome to the unit's
//! verdict.
//!
//! The launch itself is a single synchronous invocation of the external
//! launcher (`mpiexec`) on the current test binary, performed by the caller
//! that owns the process boundary; this module computes the exact command
//! line and interprets the outcome.  The orchestrator's success/failure
//! contract is uninverted: reconciling a failure with a declared
//! expected-failure policy happens only in the boundary verdict
//! (`unit_verdict`), never inside the outcome mapping.

use vstd::prelude::*;

use crate::digits::spec_decimal;
use crate::units::{ExpectedOutcome, ExpectedOutcomeView};

verus! {

/// What one launch attempt came to: the launcher ran and exited (with an
/// exit code, or none when it was terminated by a signal), or it could not
/// be started at all (with the OS error code, when one was reported).
#[derive(Debug, PartialEq, Eq)]
pub enum LaunchOutcome {
    Exited { code: Option<i32> },
    NotStarted { os_error: Option<i32> },
}

/// An orchestration failure: the launch could not be planned or performed,
/// or the launcher reported failure.  One launch attempt per unit; none of
/// these is retried.
#[derive(Debug, PartialEq, Eq)]
pub enum MpiTestError {
    /// The launcher executable could not be started (not found, not
    /// executable, ...), with the underlying OS error code attached.
    IoError { os_error: Option<i32> },
    /// The currently executing test binary's own path could not be
    /// determined, so no launch command could be built.
    MissingBinary,
    /// The launcher started and exited non-zero (or was terminated by a
    /// signal), with the raw exit code attached.
    FailedStatus { code: Option<i32> },
}

/// The name of the external process launcher: `mpiexec`.
pub open spec fn launcher_name() -> Seq<u8> {
    seq![109u8, 112u8, 105u8, 101u8, 120u8, 101u8, 99u8]
}

/// The program name to launch, `mpiexec`.
pub fn launcher_program() -> (r: Vec<u8>)
    ensures
        r@ == launcher_name(),
{
    let mut r: Vec<u8> = Vec::new();
    r.push(109);
    r.push(112);
    r.push(105);
    r.push(101);
    r.push(120);
    r.push(101);
    r.push(99);
    proof {
        assert(r@ =~= launcher_name());
    }
    r
}

/// `-n`
pub open spec fn count_flag() -> Seq<u8> {
    seq![45u8, 110u8]
}

/// `--nocapture`: the launched run's output is not suppressed.
pub open spec fn nocapture_flag() -> Seq<u8> {
    seq![45u8, 45u8, 110u8, 111u8, 99u8, 97u8, 112u8, 116u8, 117u8, 114u8, 101u8]
}

/// `--exact`: the path selects exactly one test, not a prefix.
pub open spec fn exact_flag() -> Seq<u8> {
    seq![45u8, 45u8, 101u8, 120u8, 97u8, 99u8, 116u8]
}

/// `--ignored`: bypass the skip marker that keeps the bare body from
/// running as an ordinary test.
pub open spec fn ignored_flag() -> Seq<u8> {
    seq![45u8, 45u8, 105u8, 103u8, 110u8, 111u8, 114u8, 101u8, 100u8]
}

/// The launcher's argument list for one unit: requested process count, the
/// test binary to re-invoke, the path selecting the one original body, and
/// the flags that run it alone, unskipped, with its output visible.
pub open spec fn spec_launch_args(
    binary: Seq<u8>,
    test_path: Seq<u8>,
    np: u32,
    run_ignored: bool,
) -> Seq<Seq<u8>> {
    let base = seq![
        count_flag(),
        spec_decimal(np as nat),
        binary,
        test_path,
        nocapture_flag(),
        exact_flag(),
    ];
    if run_ignored {
        base.push(ignored_flag())
    } else {
        base
    }
}

/// Whether the built argument list `args` is exactly the modelled one.
pub open spec fn args_match(args: Seq<Vec<u8>>, models: Seq<Seq<u8>>) -> bool {
    &&& args.len() == models.len()
    &&& forall|t: int| 0 <= t < models.len() ==> #[trigger] args[t]@ == models[t]
}

/// Pushes the bytes of `flag` (a short ASCII word) onto `args`.
fn push_arg(args: &mut Vec<Vec<u8>>, arg: Vec<u8>)
    ensures
        final(args)@.len() == old(args)@.len() + 1,
        forall|t: int| 0 <= t < old(args)@.len() ==> #[trigger] final(args)@[t] == old(args)@[t],
        final(args)@.last() == arg,
{
    args.push(arg);
}

/// Builds the launcher argument list for one unit, as `spec_launch_args`
/// describes it.
pub fn launch_args(binary: &[u8], test_path: &[u8], np: u32, run_ignored: bool) -> (r: Vec<
    Vec<u8>,
>)
    ensures
        args_match(r@, spec_launch_args(binary@, test_path@, np, run_ignored)),
{
    let mut args: Vec<Vec<u8>> = Vec::new();
    let mut dash_n: Vec<u8> = Vec::new();
    dash_n.push(45);
    dash_n.push(110);
    proof {
        assert(dash_n@ =~= count_flag());
    }
    push_arg(&mut args, dash_n);
    push_arg(&mut args, crate::digits::u32_decimal(np));
    push_arg(&mut args, crate::units::copy_bytes(binary));
    push_arg(&mut args, crate::units::copy_bytes(test_path));
    let mut nocapture: Vec<u8> = Vec::new();
    nocapture.push(45);
    nocapture.push(45);
    nocapture.push(110);
    nocapture.push(111);
    nocapture.push(99);
    nocapture.push(97);
    nocapture.push(112);
    nocapture.push(116);
    nocapture.push(117);
    nocapture.push(114);
    nocapture.push(101);
    proof {
        assert(nocapture@ =~= nocapture_flag());
    }
    push_arg(&mut args, nocapture);
    let mut exact: Vec<u8> = Vec::new();
    exact.push(45);
    exact.push(45);
    exact.push(101);
    exact.push(120);
    exact.push(97);
    exact.push(99);
    exact.push(116);
    proof {
        assert(exact@ =~= exact_flag());
    }
    push_arg(&mut args, exact);
    if run_ignored {
        let mut ignored: Vec<u8> = Vec::new();
        ignored.push(45);
        ignored.push(45);
        ignored.push(105);
        ignored.push(103);
        ignored.push(110);
        ignored.push(111);
        ignored.push(114);
        ignored.push(101);
        ignored.push(100);
        proof {
            assert(ignored@ =~= ignored_flag());
        }
        push_arg(&mut args, ignored);
    }
    args
}

/// Plans the launch of one unit: the argument list for the launcher, given
/// the test binary's own path when it is known.  Without a binary path no
/// command can be built, and the unit fails with `MissingBinary`.
pub fn plan_launch(
    test_binary: &Option<Vec<u8>>,
    test_path: &[u8],
    np: u32,
    run_ignored: bool,
) -> (r: Result<Vec<Vec<u8>>, MpiTestError>)
    ensures
        match r {
            Ok(args) => test_binary matches Some(b) && args_match(
                args@,
                spec_launch_args(b@, test_path@, np, run_ignored),
            ),
            Err(e) => test_binary is None && e == MpiTestError::MissingBinary,
        },
{
    match test_binary {
        None => Err(MpiTestError::MissingBinary),
        Some(b) => Ok(launch_args(b.as_slice(), test_path, np, run_ignored)),
    }
}

/// The uniform outcome mapping of the orchestrator: exit code 0 is the only
/// success; any other exit is the launcher reporting failure, with the raw
/// code attached; a launch that could not start carries its OS error.
pub open spec fn spec_interpret(outcome: LaunchOutcome) -> Result<(), MpiTestError> {
    match outcome {
        LaunchOutcome::Exited { code } => {
            if code == Some(0i32) {
                Ok(())
            } else {
                Err(MpiTestError::FailedStatus { code })
            }
        },
        LaunchOutcome::NotStarted { os_error } => Err(MpiTestError::IoError { os_error }),
    }
}

/// Maps a launch outcome to the unit's uninverted run result, exactly as
/// `spec_interpret` describes: `Ok` for exit code 0 and nothing else, the
/// two failure kinds kept distinguishable for diagnostics.
pub fn interpret_outcome(outcome: &LaunchOutcome) -> (r: Result<(), MpiTestError>)
    ensures
        r == spec_interpret(*outcome),
{
    match outcome {
        LaunchOutcome::Exited { code: Some(c) } => {
            if *c == 0 {
                Ok(())
            } else {
                Err(MpiTestError::FailedStatus { code: Some(*c) })
            }
        },
        LaunchOutcome::Exited { code: None } => Err(MpiTestError::FailedStatus { code: None }),
        LaunchOutcome::NotStarted { os_error: Some(e) } => Err(
            MpiTestError::IoError { os_error: Some(*e) },
        ),
        LaunchOutcome::NotStarted { os_error: None } => Err(
            MpiTestError::IoError { os_error: None },
        ),
    }
}

/// The boundary verdict for one unit, where the expected-failure inversion
/// lives: a normally declared unit passes exactly when its run succeeded,
/// and a unit declared as an expected failure passes exactly when its run
/// failed.
pub fn unit_verdict(expected: &ExpectedOutcome, run: &Result<(), MpiTestError>) -> (r: bool)
    ensures
        r == (match expected@ {
            ExpectedOutcomeView::Normal => (*run) is Ok,
            ExpectedOutcomeView::ExpectedFailure { message: _ } => (*run) is Err,
        }),
{
    match expected {
        ExpectedOutcome::Normal => run.is_ok(),
        ExpectedOutcome::ExpectedFailure { message: _ } => run.is_err(),
    }
}

} // verus!
